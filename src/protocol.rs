//! What a whole upload does to the store: its chunk queries, in order,
//! followed by its commit.
use vstd::prelude::*;
use vstd::utf8::is_ascii_chars;
use crate::codec::all_base32_digits;
use crate::codec::decodes_to;
use crate::codec::encoder_output;
use crate::codec::is_base32_digit;
use crate::codec::lemma_round_trip;
use crate::server::ascii_upper;
use crate::server::chunk_write;
use crate::server::committed;
use crate::server::fold_case;
use crate::server::label_end;
use crate::store::entry_or_empty;
use crate::upload::chunk_count;
use crate::upload::chunk_names;
use crate::upload::chunk_of;
use crate::upload::chunk_size;
use crate::upload::hex_digits;
use crate::upload::hex_of;
use crate::upload::lemma_suffix_len;
use crate::upload::suffix_of;

verus! {

/// The store after the chunk queries `names`, in order.
pub open spec fn apply_chunks(m: Map<Seq<char>, Seq<char>>, names: Seq<Seq<char>>) -> Map<
    Seq<char>,
    Seq<char>,
>
    decreases names.len(),
{
    if names.len() == 0 {
        m
    } else {
        let prev = apply_chunks(m, names.drop_last());
        match chunk_write(prev, fold_case(names.last())) {
            Some(m2) => m2,
            None => prev,
        }
    }
}

/// The store after the upload of the text `t` of a message with key `key`
/// under transaction `id`: every chunk query, then the commit.
pub open spec fn upload(m: Map<Seq<char>, Seq<char>>, id: u16, t: Seq<char>, key: Seq<char>) -> Map<
    Seq<char>,
    Seq<char>,
> {
    committed(apply_chunks(m, chunk_names(t, id)), hex_of(id as nat), key)
}

/// The store key of transaction `id`.
pub open spec fn txid_key(id: u16) -> Seq<char> {
    ascii_upper(hex_of(id as nat))
}

pub open spec fn is_hex_digit(c: char) -> bool {
    ('0' <= c && c <= '9') || ('a' <= c && c <= 'f')
}

proof fn lemma_hex_chars(n: nat)
    ensures
        forall|i: int| 0 <= i < hex_of(n).len() ==> is_hex_digit(#[trigger] hex_of(n)[i]),
    decreases n,
{
    assert forall|d: int| 0 <= d < 16 implies is_hex_digit(#[trigger] hex_digits()[d]) by {}
    if n >= 16 {
        lemma_hex_chars(n / 16);
        assert(is_hex_digit(hex_digits()[(n % 16) as int]));
        assert(hex_of(n) == hex_of(n / 16).push(hex_digits()[(n % 16) as int]));
    } else {
        assert(is_hex_digit(hex_digits()[n as int]));
    }
}

proof fn lemma_label_end_at(s: Seq<char>, from: int, e: int)
    requires
        0 <= from <= e <= s.len(),
        forall|i: int| from <= i < e ==> s[i] != '.',
        e == s.len() || s[e] == '.',
    ensures
        label_end(s, from) == e,
    decreases e - from,
{
    if from < e {
        lemma_label_end_at(s, from + 1, e);
    }
}

/// The folded name of a chunk query: the chunk keeps its case, the
/// transaction id is upper-cased.
proof fn lemma_fold_chunk_name(c: Seq<char>, id: u16)
    requires
        all_base32_digits(c),
    ensures
        fold_case(c + suffix_of(id)) == c + seq!['.'] + txid_key(id),
        forall|i: int| 0 <= i < txid_key(id).len() ==> #[trigger] txid_key(id)[i] != '.',
{
    let h = hex_of(id as nat);
    lemma_hex_chars(id as nat);
    let n = c + suffix_of(id);
    assert forall|i: int| 0 <= i < n.len() implies '\0' <= #[trigger] n[i] <= '\u{7f}' by {
        if i < c.len() {
            assert(is_base32_digit(c[i]));
        } else if i > c.len() {
            assert(n[i] == h[i - c.len() - 1]);
        }
    }
    assert(is_ascii_chars(n));
    assert(ascii_upper(n) =~= c + seq!['.'] + txid_key(id)) by {
        assert forall|i: int| 0 <= i < n.len() implies #[trigger] ascii_upper(n)[i] == (c + seq![
            '.',
        ] + txid_key(id))[i] by {
            if i < c.len() {
                assert(is_base32_digit(c[i]));
            } else if i > c.len() {
                assert(n[i] == h[i - c.len() - 1]);
            }
        }
    }
    assert forall|i: int| 0 <= i < txid_key(id).len() implies #[trigger] txid_key(id)[i] != '.' by {
        assert(is_hex_digit(h[i]));
    }
}

/// One chunk query of an upload appends its chunk to the entry of the
/// transaction.
proof fn lemma_chunk_step(m: Map<Seq<char>, Seq<char>>, c: Seq<char>, id: u16)
    requires
        all_base32_digits(c),
    ensures
        chunk_write(m, fold_case(c + suffix_of(id))) == Some(
            m.insert(txid_key(id), entry_or_empty(m, txid_key(id)) + c),
        ),
{
    lemma_fold_chunk_name(c, id);
    let n = c + seq!['.'] + txid_key(id);
    let k = txid_key(id);
    assert forall|i: int| 0 <= i < c.len() implies n[i] != '.' by {
        assert(is_base32_digit(c[i]));
    }
    lemma_label_end_at(n, 0, c.len() as int);
    assert forall|i: int| c.len() + 1 <= i < n.len() implies n[i] != '.' by {
        assert(n[i] == k[i - c.len() - 1]);
    }
    lemma_label_end_at(n, c.len() as int + 1, n.len() as int);
    assert(n.subrange(c.len() as int + 1, n.len() as int) =~= k);
    assert(n.subrange(0, c.len() as int) =~= c);
}

proof fn lemma_chunks_prefix(m: Map<Seq<char>, Seq<char>>, t: Seq<char>, id: u16, j: int)
    requires
        all_base32_digits(t),
        !m.contains_key(txid_key(id)),
        0 < j <= chunk_names(t, id).len(),
    ensures
        apply_chunks(m, chunk_names(t, id).take(j)) == m.insert(
            txid_key(id),
            t.take(if j * chunk_size(id) < t.len() {
                j * chunk_size(id)
            } else {
                t.len() as int
            }),
        ),
    decreases j,
{
    lemma_suffix_len(id);
    let size = chunk_size(id);
    let names = chunk_names(t, id).take(j);
    assert(names.drop_last() =~= chunk_names(t, id).take(j - 1));
    let c = chunk_of(t, size, j - 1);
    assert((j - 1) * size < t.len()) by (nonlinear_arith)
        requires
            j - 1 < (t.len() + size - 1) / size,
            size > 0,
            j >= 1,
    ;
    assert(j * size == (j - 1) * size + size) by (nonlinear_arith);
    assert(((j - 1) + 1) * size == j * size);
    assert(j == 1 ==> (j - 1) * size == 0);
    assert(0 <= (j - 1) * size) by (nonlinear_arith)
        requires
            j >= 1,
            size > 0,
    ;
    assert(all_base32_digits(c)) by {
        assert forall|i: int| 0 <= i < c.len() implies is_base32_digit(#[trigger] c[i]) by {
            assert(c[i] == t[(j - 1) * size + i]);
        }
    }
    assert(names.last() == c + suffix_of(id));
    let prev = apply_chunks(m, names.drop_last());
    lemma_chunk_step(prev, c, id);
    if j == 1 {
        assert(names.drop_last().len() == 0);
        assert(prev == m);
        assert(t.take(0) + c =~= t.take(if j * size < t.len() {
            j * size
        } else {
            t.len() as int
        }));
        assert(m.insert(txid_key(id), Seq::empty() + c) == m.insert(txid_key(id), t.take(0) + c));
    } else {
        lemma_chunks_prefix(m, t, id, j - 1);
        assert(t.take((j - 1) * size) + c =~= t.take(if j * size < t.len() {
            j * size
        } else {
            t.len() as int
        }));
        assert(prev.insert(txid_key(id), entry_or_empty(prev, txid_key(id)) + c) =~= m.insert(
            txid_key(id),
            t.take((j - 1) * size) + c,
        ));
    }
}

/// Reassembly: uploading the text of `Message { key, value }` under a
/// transaction that the store does not hold leaves the store as it was, but
/// with that text under the folded key; the text decodes to the message.
pub proof fn lemma_reassembly(
    m: Map<Seq<char>, Seq<char>>,
    id: u16,
    t: Seq<char>,
    key: Seq<char>,
    value: Seq<char>,
)
    requires
        encoder_output(t, key, value),
        !m.contains_key(txid_key(id)),
    ensures
        upload(m, id, t, key) == m.insert(fold_case(key), t),
        decodes_to(t, key, value),
{
    lemma_round_trip(key, value);
    lemma_suffix_len(id);
    let size = chunk_size(id);
    let names = chunk_names(t, id);
    let n = names.len() as int;
    assert(n > 0) by (nonlinear_arith)
        requires
            n == (t.len() + size - 1) / size,
            t.len() > 0,
            size > 0,
    ;
    assert(n * size >= t.len()) by (nonlinear_arith)
        requires
            n == (t.len() + size - 1) / size,
            size > 0,
    ;
    lemma_chunks_prefix(m, t, id, n);
    assert(names.take(n) == names);
    assert(t.take(t.len() as int) == t);
    let m1 = apply_chunks(m, names);
    lemma_fold_chunk_name(Seq::empty(), id);
    lemma_hex_chars(id as nat);
    assert(is_ascii_chars(hex_of(id as nat))) by {
        assert forall|i: int| 0 <= i < hex_of(id as nat).len() implies '\0' <= #[trigger] hex_of(
            id as nat,
        )[i] <= '\u{7f}' by {
            assert(is_hex_digit(hex_of(id as nat)[i]));
        }
    }
    assert(fold_case(hex_of(id as nat)) == txid_key(id));
    assert(m1.remove(txid_key(id)) =~= m);
}

/// Overwrite: two complete uploads under the same key leave only the second
/// text there, with nothing of the first.
pub proof fn lemma_overwrite(
    m: Map<Seq<char>, Seq<char>>,
    id1: u16,
    id2: u16,
    key: Seq<char>,
    t1: Seq<char>,
    v1: Seq<char>,
    t2: Seq<char>,
    v2: Seq<char>,
)
    requires
        encoder_output(t1, key, v1),
        encoder_output(t2, key, v2),
        !m.contains_key(txid_key(id1)),
        !m.contains_key(txid_key(id2)),
        txid_key(id2) != fold_case(key),
    ensures
        upload(upload(m, id1, t1, key), id2, t2, key) == m.insert(fold_case(key), t2),
        decodes_to(t2, key, v2),
{
    lemma_reassembly(m, id1, t1, key, v1);
    let m1 = m.insert(fold_case(key), t1);
    lemma_reassembly(m1, id2, t2, key, v2);
    assert(m1.insert(fold_case(key), t2) =~= m.insert(fold_case(key), t2));
}

/// Isolation: a chunk query whose folded name has no dot writes nothing.
pub proof fn lemma_malformed_chunk(m: Map<Seq<char>, Seq<char>>, n: Seq<char>)
    requires
        forall|i: int| 0 <= i < n.len() ==> n[i] != '.',
    ensures
        chunk_write(m, n) is None,
{
    lemma_label_end_at(n, 0, n.len() as int);
}

} // verus!
