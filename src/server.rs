//! The server's side of the protocol: chunk writes, commits and paginated
//! reads, each on the store and the name of one query.
use vstd::prelude::*;
use vstd::string::StrSliceExecFns;
use vstd::string::StringExecFns;
use vstd::utf8::decode_utf8;
use vstd::utf8::encode_utf8;
use vstd::utf8::encode_utf8_decode_utf8;
use vstd::utf8::encode_utf8_valid_utf8;
use vstd::utf8::is_ascii_chars;
use vstd::utf8::is_char_boundary;
use vstd::utf8::is_char_boundary_start_end_of_seq;
use vstd::string::StringSliceAdditionalSpecFns;
use crate::codec::decode;
use crate::codec::decodes_to;
use crate::codec::FormatError;
use crate::codec::Message;
use crate::store::append_value;
use crate::store::entry_or_empty;
use crate::store::get_value;
use crate::store::set_value;
use crate::store::Database;

verus! {

/// The longest slice of a value that one read hands out, in UTF-8 bytes (one
/// DNS character string).
pub const MAX_SLICE: usize = 255;

/// The address in every answer to a commit query (41.41.41.41).
pub const PLACEHOLDER_A: u32 = 0x2929_2929;

/// The address in every answer to a chunk query (::2929:2929).
pub const PLACEHOLDER_AAAA: u128 = 0x2929_2929;

/// Why a query gets no answer.
#[derive(Debug, Clone, Copy, PartialEq, Eq)]
pub enum ServerError {
    /// A chunk query whose name has no dot.
    MalformedName,
    /// A commit whose text does not decode to a message.
    Decode(FormatError),
    /// A commit of a transaction that the store holds no text for.
    UnknownTransaction,
    /// A query of a type outside A, AAAA and TXT.
    UnsupportedQueryType,
}

/// The types of query that the server tells apart.
#[derive(Debug, Clone, Copy, PartialEq, Eq)]
pub enum QueryKind {
    /// Commit an upload.
    A,
    /// Write one chunk of an upload.
    Aaaa,
    /// Read the next slice of a value.
    Txt,
    /// Any other type.
    Other,
}

/// The record that answers a query.
#[derive(Debug, Clone)]
pub enum Answer {
    A(u32),
    Aaaa(u128),
    Txt(String),
}

/// The Unicode upper case of `s`, where `s` is not all ASCII.
pub uninterp spec fn upper_of(s: Seq<char>) -> Seq<char>;

pub open spec fn upper_letters() -> Seq<char> {
    seq![
        'A', 'B', 'C', 'D', 'E', 'F', 'G', 'H', 'I', 'J', 'K', 'L', 'M',
        'N', 'O', 'P', 'Q', 'R', 'S', 'T', 'U', 'V', 'W', 'X', 'Y', 'Z',
    ]
}

pub open spec fn ascii_upper_char(c: char) -> char {
    if 'a' <= c && c <= 'z' {
        upper_letters()[(c as u32) as int - 97]
    } else {
        c
    }
}

pub open spec fn ascii_upper(s: Seq<char>) -> Seq<char> {
    Seq::new(s.len(), |i: int| ascii_upper_char(s[i]))
}

/// The upper case of a name, as `str::to_uppercase` gives it: keys are held
/// in upper case.
pub open spec fn fold_case(s: Seq<char>) -> Seq<char> {
    if is_ascii_chars(s) {
        ascii_upper(s)
    } else {
        upper_of(s)
    }
}

/// Relies on `str::to_uppercase`: the Unicode upper case, which on ASCII text
/// maps `a`-`z` to `A`-`Z` and keeps every other character.
#[verifier::external_body]
fn fold(s: &str) -> (r: String)
    ensures
        is_ascii_chars(s@) ==> r@ == ascii_upper(s@),
        !is_ascii_chars(s@) ==> r@ == upper_of(s@),
{
    s.to_uppercase()
}

/// Where the label of `s` that starts at `from` ends: at the next dot, or at
/// the end of `s`.
pub open spec fn label_end(s: Seq<char>, from: int) -> int
    decreases s.len() - from,
{
    if from < 0 || from >= s.len() {
        s.len() as int
    } else if s[from] == '.' {
        from
    } else {
        label_end(s, from + 1)
    }
}

/// The store after the chunk query whose folded name is `n`, or `None` where
/// `n` has no dot: the first label is appended to the entry that the second
/// label names.
pub open spec fn chunk_write(m: Map<Seq<char>, Seq<char>>, n: Seq<char>) -> Option<
    Map<Seq<char>, Seq<char>>,
> {
    let d = label_end(n, 0);
    if d >= n.len() {
        None
    } else {
        let id = n.subrange(d + 1, label_end(n, d + 1));
        Some(m.insert(id, entry_or_empty(m, id) + n.subrange(0, d)))
    }
}

/// The store after a commit of the transaction `name` that decoded to a
/// message with key `key`: the pending text moves to the folded key.
pub open spec fn committed(m: Map<Seq<char>, Seq<char>>, name: Seq<char>, key: Seq<char>) -> Map<
    Seq<char>,
    Seq<char>,
> {
    m.remove(fold_case(name)).insert(fold_case(key), entry_or_empty(m, fold_case(name)))
}

/// What a read hands out for a key that the store does not hold.
pub open spec fn default_marker() -> Seq<char> {
    seq!['A', 'A', 'A', 'A']
}

/// The largest character boundary of `b` that is at most `k`.
pub open spec fn boundary_at_most(b: Seq<u8>, k: int) -> int
    decreases k,
{
    if k <= 0 || is_char_boundary(b, k) {
        if k <= 0 {
            0
        } else {
            k
        }
    } else {
        boundary_at_most(b, k - 1)
    }
}

/// How many UTF-8 bytes of `v` one read hands out: as many as fit in
/// `MAX_SLICE` bytes without cutting a character.
pub open spec fn slice_bytes(v: Seq<char>) -> int {
    let b = encode_utf8(v);
    boundary_at_most(b, if b.len() < MAX_SLICE { b.len() as int } else { MAX_SLICE as int })
}

/// The store after one read of `key`, and the slice that the read hands out.
/// The slice is the front of the value, at most `MAX_SLICE` bytes; the rest
/// stays under the key. A full slice keeps the key even when nothing is
/// left, so that the next read hands out an empty, short slice; the key goes
/// once a short slice is served.
pub open spec fn read_slice(m: Map<Seq<char>, Seq<char>>, key: Seq<char>) -> (
    Map<Seq<char>, Seq<char>>,
    Seq<char>,
) {
    let v = if m.contains_key(key) {
        m[key]
    } else {
        default_marker()
    };
    let b = encode_utf8(v);
    let n = slice_bytes(v);
    let rest = decode_utf8(b.skip(n));
    (
        if n < b.len() || n == MAX_SLICE {
            m.insert(key, rest)
        } else {
            m.remove(key)
        },
        decode_utf8(b.take(n)),
    )
}

fn find_label_end(s: &str, from: usize) -> (r: usize)
    requires
        from <= s@.len(),
    ensures
        r == label_end(s@, from as int),
{
    let len = s.unicode_len();
    let mut i = from;
    while i < len
        invariant
            from <= i <= len,
            len == s@.len(),
            label_end(s@, from as int) == label_end(s@, i as int),
        decreases len - i,
    {
        if s.get_char(i) == '.' {
            return i;
        }
        i = i + 1;
    }
    i
}

/// Handles a chunk query: appends the chunk (the first label of the folded
/// name) to the entry of its transaction (the second label).
pub fn parse_aaaa_query(db: &mut Database, qname: &str) -> (r: Result<Answer, ServerError>)
    requires
        old(db).wf(),
    ensures
        final(db).wf(),
        match chunk_write(old(db)@, fold_case(qname@)) {
            None => r == Err::<Answer, ServerError>(ServerError::MalformedName) && final(db)@ == old(
                db,
            )@,
            Some(m) => r matches Ok(Answer::Aaaa(a)) && a == PLACEHOLDER_AAAA && final(db)@ == m,
        },
{
    let name = fold(qname);
    let n = name.as_str();
    let d = find_label_end(n, 0);
    if d >= n.unicode_len() {
        return Err(ServerError::MalformedName);
    }
    let e = find_label_end(n, d + 1);
    proof {
        assert(d + 1 <= e <= n@.len()) by {
            lemma_label_end_bounds(n@, d + 1);
        }
    }
    let chunk = String::from_str(n.substring_char(0, d));
    let id = String::from_str(n.substring_char(d + 1, e));
    append_value(db, id, chunk);
    Ok(Answer::Aaaa(PLACEHOLDER_AAAA))
}

proof fn lemma_label_end_bounds(s: Seq<char>, from: int)
    requires
        0 <= from <= s.len(),
    ensures
        from <= label_end(s, from) <= s.len(),
    decreases s.len() - from,
{
    if from < s.len() && s[from] != '.' {
        lemma_label_end_bounds(s, from + 1);
    }
}

/// Handles a commit query: takes the pending text of the transaction out of
/// the store, decodes it, and holds the text under the message's folded key.
pub fn parse_a_query(db: &mut Database, qname: &str) -> (r: Result<Message, ServerError>)
    requires
        old(db).wf(),
    ensures
        final(db).wf(),
        forall|key: Seq<char>, value: Seq<char>|
            old(db)@.contains_key(fold_case(qname@)) && #[trigger] decodes_to(
                entry_or_empty(old(db)@, fold_case(qname@)),
                key,
                value,
            ) ==> (r matches Ok(m) && m.key@ == key && m.value@ == value),
        r matches Ok(m) ==> decodes_to(entry_or_empty(old(db)@, fold_case(qname@)), m.key@, m.value@)
            && final(db)@ == committed(old(db)@, qname@, m.key@),
        !old(db)@.contains_key(fold_case(qname@)) <==> r == Err::<Message, ServerError>(
            ServerError::UnknownTransaction,
        ),
        r == Err::<Message, ServerError>(ServerError::UnknownTransaction) ==> final(db)@ == old(
            db,
        )@,
        r matches Err(e) && e is Decode ==> final(db)@ == old(db)@.remove(fold_case(qname@)),
        r matches Err(e) ==> e is Decode || e is UnknownTransaction,
{
    let name = fold(qname);
    let text = match get_value(db, &name) {
        Some(v) => v,
        None => {
            assert(old(db)@.remove(fold_case(qname@)) =~= old(db)@);
            return Err(ServerError::UnknownTransaction);
        },
    };
    match decode(text.as_str()) {
        Err(e) => Err(ServerError::Decode(e)),
        Ok(m) => {
            let key = fold(m.key.as_str());
            set_value(db, key, text);
            Ok(m)
        },
    }
}

/// Handles a read query: hands out the next slice of at most `MAX_SLICE`
/// bytes of the value under the folded name, and keeps the rest.
pub fn parse_txt_query(db: &mut Database, qname: &str) -> (r: String)
    requires
        old(db).wf(),
    ensures
        final(db).wf(),
        (final(db)@, r@) == read_slice(old(db)@, fold_case(qname@)),
        encode_utf8(r@).len() <= MAX_SLICE,
{
    let name = fold(qname);
    let value = match get_value(db, &name) {
        Some(v) => v,
        None => {
            proof {
                reveal_strlit("AAAA");
            }
            String::from_str("AAAA")
        },
    };
    let v = value.as_str();
    let ghost b = v.spec_bytes();
    proof {
        encode_utf8_valid_utf8(v@);
        is_char_boundary_start_end_of_seq(b);
    }
    let blen = v.as_bytes().len();
    let mut n: usize = if blen < MAX_SLICE {
        blen
    } else {
        MAX_SLICE
    };
    while n > 0 && !v.is_char_boundary(n)
        invariant
            n <= blen,
            n <= MAX_SLICE,
            blen == b.len(),
            b == v.spec_bytes(),
            boundary_at_most(b, n as int) == slice_bytes(v@),
        decreases n,
    {
        n = n - 1;
    }
    assert(is_char_boundary(b, n as int));
    assert(n == slice_bytes(v@));
    let (front, back) = v.split_at(n);
    proof {
        encode_utf8_decode_utf8(front@);
        encode_utf8_decode_utf8(back@);
        assert(encode_utf8(front@) =~= b.take(n as int));
        assert(encode_utf8(back@) =~= b.skip(n as int));
        assert(decode_utf8(b.take(n as int)) == front@);
        assert(decode_utf8(b.skip(n as int)) == back@);
    }
    let slice = front.to_owned();
    if n < blen || n == MAX_SLICE {
        let rest = back.to_owned();
        set_value(db, name, rest);
    }
    proof {
        let ghost m = old(db)@;
        let ghost k = fold_case(qname@);
        assert(m.remove(k).insert(k, back@) =~= m.insert(k, back@));
        let vv = if m.contains_key(k) {
            m[k]
        } else {
            default_marker()
        };
        assert(vv == v@);
        assert(slice@ == read_slice(m, k).1);
        assert(db@ == read_slice(m, k).0);
    }
    slice
}

/// Answers one question of a query; `Err` means that no answer is sent.
pub fn answer_question(db: &mut Database, kind: QueryKind, qname: &str) -> (r: Result<
    Answer,
    ServerError,
>)
    requires
        old(db).wf(),
    ensures
        final(db).wf(),
        kind == QueryKind::Other ==> r == Err::<Answer, ServerError>(
            ServerError::UnsupportedQueryType,
        ) && final(db)@ == old(db)@,
        kind == QueryKind::Aaaa ==> match chunk_write(old(db)@, fold_case(qname@)) {
            None => r == Err::<Answer, ServerError>(ServerError::MalformedName) && final(db)@ == old(
                db,
            )@,
            Some(m) => r matches Ok(Answer::Aaaa(a)) && a == PLACEHOLDER_AAAA && final(db)@ == m,
        },
        kind == QueryKind::A ==> (forall|key: Seq<char>, value: Seq<char>|
            old(db)@.contains_key(fold_case(qname@)) && #[trigger] decodes_to(
                entry_or_empty(old(db)@, fold_case(qname@)),
                key,
                value,
            ) ==> (
            r matches Ok(Answer::A(a)) && a == PLACEHOLDER_A && final(db)@ == committed(
                old(db)@,
                qname@,
                key,
            ))),
        kind == QueryKind::A ==> (r matches Ok(a) ==> a == Answer::A(PLACEHOLDER_A) && exists|
            key: Seq<char>,
            value: Seq<char>,
        |
            #[trigger] decodes_to(entry_or_empty(old(db)@, fold_case(qname@)), key, value)
                && final(db)@ == committed(old(db)@, qname@, key)),
        kind == QueryKind::A ==> (!old(db)@.contains_key(fold_case(qname@)) <==> r == Err::<
            Answer,
            ServerError,
        >(ServerError::UnknownTransaction)),
        kind == QueryKind::A ==> (r == Err::<Answer, ServerError>(ServerError::UnknownTransaction)
            ==> final(db)@ == old(db)@),
        kind == QueryKind::A ==> (r matches Err(e) && e is Decode ==> final(db)@ == old(
            db,
        )@.remove(fold_case(qname@))),
        kind == QueryKind::Txt ==> (r matches Ok(Answer::Txt(t)) && (final(db)@, t@)
            == read_slice(old(db)@, fold_case(qname@))),
{
    match kind {
        QueryKind::A => match parse_a_query(db, qname) {
            Ok(_) => Ok(Answer::A(PLACEHOLDER_A)),
            Err(e) => Err(e),
        },
        QueryKind::Aaaa => parse_aaaa_query(db, qname),
        QueryKind::Txt => Ok(Answer::Txt(parse_txt_query(db, qname))),
        QueryKind::Other => Err(ServerError::UnsupportedQueryType),
    }
}

/// Names with the same upper case are one key: a read, a chunk write or a
/// commit under either name finds the same entry.
pub proof fn lemma_same_upper_case(m: Map<Seq<char>, Seq<char>>, q1: Seq<char>, q2: Seq<char>)
    requires
        fold_case(q1) == fold_case(q2),
    ensures
        read_slice(m, fold_case(q1)) == read_slice(m, fold_case(q2)),
        chunk_write(m, fold_case(q1)) == chunk_write(m, fold_case(q2)),
        forall|key: Seq<char>| #[trigger] committed(m, q1, key) == committed(m, q2, key),
{
}

} // verus!
