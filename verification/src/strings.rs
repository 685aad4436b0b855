use vstd::prelude::*;
use vstd::utf8::{encode_utf8, encode_scalar, char_is_scalar};

verus! {

/// The character of a decimal digit `d` (0 to 9).
pub open spec fn digit_char(d: nat) -> char {
    (48 + d) as char
}

/// Decimal notation of `n`, most significant digit first, without leading zeros.
pub open spec fn decimal(n: nat) -> Seq<char>
    decreases n,
{
    if n < 10 {
        seq![digit_char(n)]
    } else {
        decimal(n / 10).push(digit_char(n % 10))
    }
}

/// Appends one character to a string (`String::push`).
#[verifier::external_body]
pub(crate) fn push_char(s: &mut String, c: char)
    ensures
        final(s)@ == old(s)@.push(c),
{
    s.push(c)
}

/// A `String` holding a copy of a string slice.
pub(crate) fn string_from(s: &str) -> (r: String)
    ensures
        r@ == s@,
{
    String::from_str(s)
}

/// Appends the decimal notation of `n` to `s`.
pub fn push_decimal(s: &mut String, n: u64)
    ensures
        final(s)@ == old(s)@ + decimal(n as nat),
    decreases n,
{
    if n >= 10 {
        push_decimal(s, n / 10);
    }
    let d: u8 = (n % 10) as u8;
    let c: char = (48u8 + d) as char;
    push_char(s, c);
    proof {
        assert(decimal(n as nat) == if n < 10 { seq![digit_char(n as nat)] } else { decimal((n / 10) as nat).push(digit_char((n % 10) as nat)) });
    }
}


/// Number of bytes in the UTF-8 encoding of one character.
pub open spec fn char_utf8_len(c: char) -> nat {
    let v = c as u32;
    if v <= 0x7F {
        1
    } else if v <= 0x7FF {
        2
    } else if v <= 0xFFFF {
        3
    } else {
        4
    }
}

/// Number of bytes in the UTF-8 encoding of a character sequence (what `str::len` reports).
pub open spec fn utf8_len(s: Seq<char>) -> nat {
    encode_utf8(s).len()
}

/// What `str::len` reports for a string: its UTF-8 byte length as a `usize`.
pub open spec fn byte_len(s: Seq<char>) -> usize {
    utf8_len(s) as usize
}

/// A count as Rust's `as u32` cast keeps it: modulo 2^32.
pub open spec fn wrap_u32(n: nat) -> u32 {
    (n % 0x1_0000_0000) as u32
}

/// The encoding of a concatenation is the concatenation of the encodings.
pub proof fn lemma_encode_utf8_append(a: Seq<char>, b: Seq<char>)
    ensures
        encode_utf8(a + b) == encode_utf8(a) + encode_utf8(b),
    decreases a.len(),
{
    if a.len() == 0 {
        assert(a + b =~= b);
        assert(encode_utf8(a) =~= Seq::<u8>::empty());
        assert(encode_utf8(a) + encode_utf8(b) =~= encode_utf8(b));
    } else {
        lemma_encode_utf8_append(a.drop_first(), b);
        assert((a + b).drop_first() =~= a.drop_first() + b);
        assert(encode_utf8(a + b) =~= encode_scalar(a[0] as u32) + encode_utf8(a.drop_first() + b));
    }
}

/// The encoding of one character has `char_utf8_len` bytes.
pub proof fn lemma_encode_scalar_len(c: char)
    ensures
        encode_scalar(c as u32).len() == char_utf8_len(c),
{
    char_is_scalar(c);
}

/// Appending a character grows the UTF-8 length by that character's width.
pub proof fn lemma_utf8_len_push(s: Seq<char>, c: char)
    ensures
        utf8_len(s.push(c)) == utf8_len(s) + char_utf8_len(c),
{
    lemma_encode_utf8_append(s, seq![c]);
    assert(s.push(c) =~= s + seq![c]);
    lemma_encode_scalar_len(c);
    assert(seq![c].drop_first() =~= Seq::<char>::empty());
    assert(encode_utf8(seq![c]) =~= encode_scalar(c as u32) + encode_utf8(Seq::<char>::empty()));
}

/// The UTF-8 length of a concatenation.
pub proof fn lemma_utf8_len_append(a: Seq<char>, b: Seq<char>)
    ensures
        utf8_len(a + b) == utf8_len(a) + utf8_len(b),
{
    lemma_encode_utf8_append(a, b);
}

/// Exact width of a character's UTF-8 encoding.
pub fn char_width(c: char) -> (w: u32)
    ensures
        w == char_utf8_len(c),
{
    let v = c as u32;
    if v <= 0x7F {
        1
    } else if v <= 0x7FF {
        2
    } else if v <= 0xFFFF {
        3
    } else {
        4
    }
}

/// Appends a whole string slice to `s`.
pub(crate) fn push_str(s: &mut String, t: &str)
    ensures
        final(s)@ == old(s)@ + t@,
{
    s.append(t)
}


/// The pieces that `str::split` yields, scanning left to right: `cur` is the
/// part of the first piece already read, `rest` what is left to read.
pub open spec fn split_from(cur: Seq<char>, rest: Seq<char>, sep: Seq<char>) -> Seq<Seq<char>>
    decreases rest.len(),
{
    if sep.len() > 0 && rest.len() >= sep.len() && rest.take(sep.len() as int) == sep {
        seq![cur] + split_from(Seq::empty(), rest.skip(sep.len() as int), sep)
    } else if rest.len() == 0 {
        seq![cur]
    } else {
        split_from(cur.push(rest[0]), rest.drop_first(), sep)
    }
}

/// `s` cut at each non-overlapping occurrence of `sep` (found left to right).
pub open spec fn split(s: Seq<char>, sep: Seq<char>) -> Seq<Seq<char>> {
    split_from(Seq::empty(), s, sep)
}

/// `split` always yields at least one piece.
pub proof fn lemma_split_from_nonempty(cur: Seq<char>, rest: Seq<char>, sep: Seq<char>)
    ensures
        split_from(cur, rest, sep).len() >= 1,
    decreases rest.len(),
{
    if sep.len() > 0 && rest.len() >= sep.len() && rest.take(sep.len() as int) == sep {
        lemma_split_from_nonempty(Seq::empty(), rest.skip(sep.len() as int), sep);
    } else if rest.len() == 0 {
    } else {
        lemma_split_from_nonempty(cur.push(rest[0]), rest.drop_first(), sep);
    }
}

/// The characters of a string slice, in order.
pub fn chars_of(s: &str) -> (v: Vec<char>)
    ensures
        v@ == s@,
{
    let mut v: Vec<char> = Vec::new();
    for c in it: s.chars()
        invariant
            it.seq() == s@,
            v@ == it.seq().take(it.index() as int),
    {
        proof {
            assert(it.seq().take(it.index() + 1) =~= it.seq().take(it.index() as int).push(c));
        }
        v.push(c);
    }
    proof {
        assert(v@ =~= s@);
    }
    v
}

/// Whether `sep` occurs in `s` at position `i`.
fn occurs_at(s: &Vec<char>, i: usize, sep: &Vec<char>) -> (b: bool)
    requires
        i <= s@.len(),
    ensures
        b == (s@.len() - i >= sep@.len() && s@.skip(i as int).take(sep@.len() as int) == sep@),
{
    if s.len() - i < sep.len() {
        return false;
    }
    let n = s.len();
    let mut k: usize = 0;
    while k < sep.len()
        invariant
            n == s@.len(),
            i <= s@.len(),
            s@.len() - i >= sep@.len(),
            k <= sep@.len(),
            i + sep@.len() <= s@.len(),
            forall|j: int| 0 <= j < k ==> s@[i + j] == sep@[j],
        decreases sep@.len() - k,
    {
        assert(i + k < s@.len());
        let idx: usize = i + k;
        if s[idx] != sep[k] {
            assert(s@.skip(i as int).take(sep@.len() as int)[k as int] != sep@[k as int]);
            return false;
        }
        k = k + 1;
    }
    assert(s@.skip(i as int).take(sep@.len() as int) =~= sep@);
    true
}

/// The views of a sequence of character vectors.
pub open spec fn views(v: Seq<Vec<char>>) -> Seq<Seq<char>> {
    v.map_values(|x: Vec<char>| x@)
}

/// Cuts `s` at each occurrence of the non-empty `sep` (as `str::split`).
pub fn split_chars(s: &Vec<char>, sep: &Vec<char>) -> (pieces: Vec<Vec<char>>)
    requires
        sep@.len() > 0,
    ensures
        views(pieces@) == split(s@, sep@),
{
    let mut pieces: Vec<Vec<char>> = Vec::new();
    let mut cur: Vec<char> = Vec::new();
    let mut i: usize = 0;
    proof {
        assert(views(pieces@) =~= Seq::<Seq<char>>::empty());
        assert(s@.skip(0) =~= s@);
        assert(cur@ =~= Seq::<char>::empty());
        assert(views(pieces@) + split_from(cur@, s@.skip(0), sep@) =~= split(s@, sep@));
    }
    while i < s.len()
        invariant
            sep@.len() > 0,
            i <= s@.len(),
            views(pieces@) + split_from(cur@, s@.skip(i as int), sep@) == split(s@, sep@),
        decreases s@.len() - i,
    {
        let rest = Ghost(s@.skip(i as int));
        if occurs_at(s, i, sep) {
            proof {
                assert(rest@.skip(sep@.len() as int) =~= s@.skip(i + sep@.len()));
                assert(views(pieces@).push(cur@) + split_from(Seq::empty(), s@.skip(i + sep@.len()), sep@)
                    =~= views(pieces@) + split_from(cur@, rest@, sep@));
            }
            let done = cur;
            let ghost before = pieces@;
            pieces.push(done);
            proof {
                assert(views(pieces@) =~= views(before).push(done@));
            }
            cur = Vec::new();
            i = i + sep.len();
        } else {
            proof {
                assert(rest@.drop_first() =~= s@.skip(i + 1));
                assert(rest@[0] == s@[i as int]);
            }
            cur.push(s[i]);
            i = i + 1;
        }
    }
    proof {
        assert(s@.skip(i as int) =~= Seq::<char>::empty());
    }
    let ghost before = pieces@;
    let ghost last = cur@;
    pieces.push(cur);
    proof {
        assert(views(pieces@) =~= views(before).push(last));
        assert(views(before).push(last) =~= views(before) + split_from(last, s@.skip(i as int), sep@));
    }
    pieces
}

/// Whether `c` occurs nowhere in `s`.
pub open spec fn lacks(s: Seq<char>, c: char) -> bool {
    forall|i: int| 0 <= i < s.len() ==> s[i] != c
}

/// Splitting a text without the separator character gives the text whole.
pub proof fn lemma_split_from_without(cur: Seq<char>, rest: Seq<char>, c: char)
    requires
        lacks(rest, c),
    ensures
        split_from(cur, rest, seq![c]) == seq![cur + rest],
    decreases rest.len(),
{
    if rest.len() == 0 {
        assert(cur + rest =~= cur);
    } else {
        assert(rest.take(1)[0] == rest[0]);
        assert(rest.take(1) != seq![c]);
        assert(lacks(rest.drop_first(), c));
        lemma_split_from_without(cur.push(rest[0]), rest.drop_first(), c);
        assert(cur.push(rest[0]) + rest.drop_first() =~= cur + rest);
    }
}

/// Splitting `p`, the separator, then `q` (neither holding the separator
/// character) gives the two parts.
pub proof fn lemma_split_from_once(cur: Seq<char>, p: Seq<char>, q: Seq<char>, c: char)
    requires
        lacks(p, c),
        lacks(q, c),
    ensures
        split_from(cur, p + seq![c] + q, seq![c]) == seq![cur + p, q],
    decreases p.len(),
{
    let rest = p + seq![c] + q;
    if p.len() == 0 {
        assert(rest.take(1) =~= seq![c]);
        assert(rest.skip(1) =~= q);
        lemma_split_from_without(Seq::empty(), q, c);
        assert(Seq::<char>::empty() + q =~= q);
        assert(cur + p =~= cur);
    } else {
        assert(rest[0] == p[0]);
        assert(rest.take(1)[0] == p[0]);
        assert(rest.take(1) != seq![c]);
        assert(rest.drop_first() =~= p.drop_first() + seq![c] + q);
        assert(lacks(p.drop_first(), c));
        lemma_split_from_once(cur.push(p[0]), p.drop_first(), q, c);
        assert(cur.push(p[0]) + p.drop_first() =~= cur + p);
    }
}

/// A text takes at most four bytes per character.
pub proof fn lemma_utf8_len_bound(s: Seq<char>)
    ensures
        utf8_len(s) <= 4 * s.len(),
    decreases s.len(),
{
    if s.len() > 0 {
        lemma_utf8_len_bound(s.drop_last());
        assert(s =~= s.drop_last().push(s.last()));
        lemma_utf8_len_push(s.drop_last(), s.last());
    }
}

} // verus!
