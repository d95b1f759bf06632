//! The upload encoder: the names of the queries that carry an encoded
//! message to the server, chunk by chunk, and the name that commits it.
use vstd::prelude::*;
use vstd::string::StrSliceExecFns;
use vstd::string::StringExecFns;

verus! {

/// The longest name that one upload query may carry.
pub const MAX_FQDN: usize = 63;

pub open spec fn hex_digits() -> Seq<char> {
    seq!['0', '1', '2', '3', '4', '5', '6', '7', '8', '9', 'a', 'b', 'c', 'd', 'e', 'f']
}

/// `n` in lower-case hexadecimal, without leading zeros.
pub open spec fn hex_of(n: nat) -> Seq<char>
    decreases n,
{
    if n < 16 {
        seq![hex_digits()[n as int]]
    } else {
        hex_of(n / 16).push(hex_digits()[(n % 16) as int])
    }
}

/// The transaction suffix of a chunk name: a dot and the transaction id.
pub open spec fn suffix_of(id: u16) -> Seq<char> {
    seq!['.'] + hex_of(id as nat)
}

/// How many characters of encoded text one chunk carries.
pub open spec fn chunk_size(id: u16) -> int {
    MAX_FQDN - suffix_of(id).len()
}

pub open spec fn chunk_count(len: int, size: int) -> int {
    (len + size - 1) / size
}

/// The `i`-th chunk of `t`, in chunks of `size` characters.
pub open spec fn chunk_of(t: Seq<char>, size: int, i: int) -> Seq<char> {
    let end = if (i + 1) * size < t.len() {
        (i + 1) * size
    } else {
        t.len() as int
    };
    t.subrange(i * size, end)
}

/// The names of the chunk queries that upload `t` under transaction `id`.
pub open spec fn chunk_names(t: Seq<char>, id: u16) -> Seq<Seq<char>> {
    Seq::new(
        chunk_count(t.len() as int, chunk_size(id)) as nat,
        |i: int| chunk_of(t, chunk_size(id), i) + suffix_of(id),
    )
}

pub open spec fn pow16(k: nat) -> nat
    decreases k,
{
    if k == 0 {
        1
    } else {
        16 * pow16((k - 1) as nat)
    }
}

proof fn lemma_hex_len(n: nat, k: nat)
    requires
        k >= 1,
        n < pow16(k),
    ensures
        1 <= hex_of(n).len() <= k,
    decreases k,
{
    if n >= 16 {
        if k == 1 {
            assert(pow16(1) == 16) by {
                reveal_with_fuel(pow16, 2);
            }
            assert(false);
        }
        assert(n / 16 < pow16((k - 1) as nat));
        lemma_hex_len(n / 16, (k - 1) as nat);
    }
}

/// A transaction id has one to four hexadecimal digits.
pub proof fn lemma_suffix_len(id: u16)
    ensures
        2 <= suffix_of(id).len() <= 5,
        58 <= chunk_size(id) <= 61,
{
    assert(pow16(4) == 65536) by {
        reveal_with_fuel(pow16, 5);
    }
    lemma_hex_len(id as nat, 4);
}

/// Every chunk name of an upload fits in one name of `MAX_FQDN` characters,
/// and the chunks, in order, make up the whole text.
pub proof fn lemma_chunk_names_fit(t: Seq<char>, id: u16)
    ensures
        forall|i: int|
            0 <= i < chunk_names(t, id).len() ==> #[trigger] chunk_names(t, id)[i].len()
                <= MAX_FQDN,
{
    lemma_suffix_len(id);
    let size = chunk_size(id);
    assert forall|i: int| 0 <= i < chunk_names(t, id).len() implies #[trigger] chunk_names(
        t,
        id,
    )[i].len() <= MAX_FQDN by {
        assert(i < chunk_count(t.len() as int, size));
        assert(i * size < t.len()) by (nonlinear_arith)
            requires
                i < (t.len() + size - 1) / size,
                size > 0,
                i >= 0,
        ;
        let end = if (i + 1) * size < t.len() {
            (i + 1) * size
        } else {
            t.len() as int
        };
        assert(i * size <= end <= (i + 1) * size) by (nonlinear_arith)
            requires
                i >= 0,
                size > 0,
                i * size < t.len(),
                end == (if (i + 1) * size < t.len() {
                    (i + 1) * size
                } else {
                    t.len() as int
                }),
        ;
        assert(chunk_of(t, size, i).len() == end - i * size);
        assert((i + 1) * size == i * size + size) by (nonlinear_arith);
    }
}

/// The hexadecimal digit `d`.
fn hex_digit(d: u16) -> (r: &'static str)
    requires
        d < 16,
    ensures
        r@ == seq![hex_digits()[d as int]],
{
    let digits = "0123456789abcdef";
    proof {
        reveal_strlit("0123456789abcdef");
    }
    assert(digits@ == hex_digits());
    digits.substring_char(d as usize, d as usize + 1)
}

/// The transaction id as it appears in query names.
pub fn hex_id(id: u16) -> (r: String)
    ensures
        r@ == hex_of(id as nat),
    decreases id,
{
    if id < 16 {
        String::from_str(hex_digit(id))
    } else {
        let mut s = hex_id(id / 16);
        s.append(hex_digit(id % 16));
        s
    }
}

/// The name of the query that commits the upload of transaction `id`.
pub fn commit_name(id: u16) -> (r: String)
    ensures
        r@ == hex_of(id as nat),
{
    hex_id(id)
}

/// The names of the chunk queries that upload the encoded text `t` under
/// transaction `id`, in the order in which they are sent.
pub fn upload_names(id: u16, t: &str) -> (r: Vec<String>)
    ensures
        r@.len() == chunk_names(t@, id).len(),
        forall|i: int| 0 <= i < r@.len() ==> #[trigger] r@[i]@ == chunk_names(t@, id)[i],
        forall|i: int| 0 <= i < r@.len() ==> #[trigger] r@[i]@.len() <= MAX_FQDN,
{
    proof {
        lemma_suffix_len(id);
        lemma_chunk_names_fit(t@, id);
    }
    let hex = hex_id(id);
    let mut suffix = String::from_str(".");
    proof {
        reveal_strlit(".");
    }
    suffix.append(hex.as_str());
    assert(suffix@ == suffix_of(id));
    let size: usize = MAX_FQDN - suffix.unicode_len();
    let len = t.unicode_len();
    let mut names: Vec<String> = Vec::new();
    let mut start: usize = 0;
    let mut i: usize = 0;
    proof {
        if len == 0 {
            assert(chunk_count(0, size as int) == 0) by (nonlinear_arith)
                requires
                    size > 1,
            ;
        }
    }
    while start < len
        invariant
            size == chunk_size(id),
            58 <= size <= 61,
            len == t@.len(),
            suffix@ == suffix_of(id),
            start <= len,
            start < len ==> start == i * size,
            i <= start,
            i <= chunk_count(len as int, size as int),
            start >= len ==> i == chunk_count(len as int, size as int),
            names@.len() == i,
            forall|j: int| 0 <= j < i ==> #[trigger] names@[j]@ == chunk_names(t@, id)[j],
        decreases len - start,
    {
        let end: usize = if len - start > size {
            start + size
        } else {
            len
        };
        assert(i < chunk_count(len as int, size as int)) by (nonlinear_arith)
            requires
                start == i * size,
                start < len,
                size > 0,
        ;
        assert((i + 1) * size == start + size) by (nonlinear_arith)
            requires
                start == i * size,
        ;
        let mut name = String::from_str(t.substring_char(start, end));
        name.append(suffix.as_str());
        assert(name@ == chunk_names(t@, id)[i as int]) by {
            assert(chunk_of(t@, size as int, i as int) == t@.subrange(start as int, end as int));
        }
        names.push(name);
        proof {
            if end == len {
                assert(i + 1 == chunk_count(len as int, size as int)) by (nonlinear_arith)
                    requires
                        i * size < len,
                        (i + 1) * size >= len,
                        size > 0,
                ;
            }
        }
        i = i + 1;
        start = end;
    }
    proof {
        if len == 0 {
            assert(chunk_count(0, size as int) == 0) by (nonlinear_arith)
                requires
                    size > 1,
            ;
        }
    }
    names
}

} // verus!
