//! URL query handling: percent-encoding of query values, their decoding on
//! the server, and the removal of empty parameters from request URLs.

use vstd::prelude::*;
use vstd::string::StringSliceAdditionalSpecFns;
use vstd::utf8::{
    decode_utf8, encode_utf8, encode_utf8_decode_utf8, encode_utf8_valid_utf8, is_ascii_chars,
    is_ascii_chars_encode_utf8, valid_utf8,
};
use crate::error::{Error, STATUS_BAD_REQUEST};
use crate::strings::{chars_of, string_from, lemma_split_from_nonempty, push_char, split, split_chars, views};

verus! {

pub const INVALID_QUERY_STRING_ERR_MSG: &'static str = "Invalid query string.";

/// Whether a byte is an ASCII letter or digit.
pub open spec fn is_ascii_alphanumeric(b: u8) -> bool {
    (48 <= b <= 57) || (65 <= b <= 90) || (97 <= b <= 122)
}

/// The upper-case hexadecimal digit of `d` (0 to 15).
pub open spec fn hex_upper(d: nat) -> char {
    if d < 10 {
        (48 + d) as char
    } else {
        (55 + d) as char
    }
}

/// Percent-encoding of bytes in which only ASCII letters and digits stand for
/// themselves and every other byte becomes `%` and two upper-case hex digits.
pub open spec fn spec_percent_encode(bytes: Seq<u8>) -> Seq<char>
    decreases bytes.len(),
{
    if bytes.len() == 0 {
        Seq::empty()
    } else {
        let b = bytes[0];
        (if is_ascii_alphanumeric(b) {
            seq![b as char]
        } else {
            seq!['%', hex_upper((b / 16) as nat), hex_upper((b % 16) as nat)]
        }) + spec_percent_encode(bytes.drop_first())
    }
}

/// Whether a byte is an ASCII hexadecimal digit (either case).
pub open spec fn is_hex_digit(b: u8) -> bool {
    (48 <= b <= 57) || (65 <= b <= 70) || (97 <= b <= 102)
}

/// The value of a hexadecimal digit.
pub open spec fn hex_value(b: u8) -> nat {
    if 48 <= b <= 57 {
        (b - 48) as nat
    } else if 65 <= b <= 70 {
        (b - 55) as nat
    } else {
        (b - 87) as nat
    }
}

/// Percent-decoding: each `%` followed by two hex digits stands for the byte
/// they spell; every other byte stands for itself.
pub open spec fn spec_percent_decode(bytes: Seq<u8>) -> Seq<u8>
    decreases bytes.len(),
{
    if bytes.len() == 0 {
        Seq::empty()
    } else if bytes[0] == 37 && bytes.len() >= 3 && is_hex_digit(bytes[1]) && is_hex_digit(bytes[2]) {
        seq![(16 * hex_value(bytes[1]) + hex_value(bytes[2])) as u8] + spec_percent_decode(bytes.skip(3))
    } else {
        seq![bytes[0]] + spec_percent_decode(bytes.drop_first())
    }
}

/// Percent-encodes bytes with `percent_encoding::percent_encode` and the
/// `NON_ALPHANUMERIC` set.
#[verifier::external_body]
fn percent_encode_bytes(bytes: &[u8]) -> (encoded: String)
    ensures
        encoded@ == spec_percent_encode(bytes@),
{
    percent_encoding::percent_encode(bytes, percent_encoding::NON_ALPHANUMERIC).to_string()
}

/// Percent-decodes a string with `percent_encoding::percent_decode` and reads
/// the bytes as UTF-8 (`decode_utf8`); `None` where they are not UTF-8.
#[verifier::external_body]
fn percent_decode_utf8(query: &str) -> (decoded: Option<String>)
    ensures
        match decoded {
            Some(s) => valid_utf8(spec_percent_decode(query.spec_bytes())) && s@ == decode_utf8(
                spec_percent_decode(query.spec_bytes()),
            ),
            None => !valid_utf8(spec_percent_decode(query.spec_bytes())),
        },
{
    match percent_encoding::percent_decode(query.as_bytes()).decode_utf8() {
        Ok(decoded) => Some(decoded.into_owned()),
        Err(_) => None,
    }
}

/// Percent-encodes a query value so that only letters and digits remain as they are.
pub fn percent_encode(query: String) -> (encoded: String)
    ensures
        encoded@ == spec_percent_encode(encode_utf8(query@)),
{
    percent_encode_bytes(query.as_str().as_bytes())
}

/// Percent-decodes a query string; a result that is not UTF-8 is a bad request.
pub fn percent_decode(query: String) -> (decoded: Result<String, Error>)
    ensures
        match decoded {
            Ok(s) => valid_utf8(spec_percent_decode(encode_utf8(query@))) && s@ == decode_utf8(
                spec_percent_decode(encode_utf8(query@)),
            ),
            Err(e) => !valid_utf8(spec_percent_decode(encode_utf8(query@))) && (e matches Error::Custom(
                code,
                m,
            ) && code == STATUS_BAD_REQUEST && m@ == INVALID_QUERY_STRING_ERR_MSG@),
        },
{
    match percent_decode_utf8(query.as_str()) {
        Some(s) => Ok(s),
        None => Err(Error::Custom(STATUS_BAD_REQUEST, string_from(INVALID_QUERY_STRING_ERR_MSG))),
    }
}


/// The bytes of a sequence of ASCII characters.
pub open spec fn ascii_bytes(chars: Seq<char>) -> Seq<u8> {
    chars.map_values(|c: char| c as u8)
}

proof fn lemma_hex_upper(d: nat)
    requires
        d < 16,
    ensures
        (hex_upper(d) as u32) < 128,
        is_hex_digit(hex_upper(d) as u8),
        hex_value(hex_upper(d) as u8) == d,
        hex_upper(d) as u8 != 37,
{
}

/// Percent-encoding yields only ASCII characters, and decoding their bytes
/// gives back the encoded bytes.
proof fn lemma_decode_ascii_encode(b: Seq<u8>)
    ensures
        is_ascii_chars(spec_percent_encode(b)),
        spec_percent_decode(ascii_bytes(spec_percent_encode(b))) == b,
    decreases b.len(),
{
    if b.len() == 0 {
        assert(ascii_bytes(spec_percent_encode(b)) =~= Seq::<u8>::empty());
    } else {
        let b0 = b[0];
        let rest = spec_percent_encode(b.drop_first());
        lemma_decode_ascii_encode(b.drop_first());
        let e = spec_percent_encode(b);
        if is_ascii_alphanumeric(b0) {
            let unit = seq![b0 as char];
            assert(e == unit + rest);
            assert(ascii_bytes(e) =~= seq![b0] + ascii_bytes(rest));
            assert(ascii_bytes(e).drop_first() =~= ascii_bytes(rest));
            assert(spec_percent_decode(ascii_bytes(e)) =~= seq![b0] + b.drop_first());
            assert(seq![b0] + b.drop_first() =~= b);
        } else {
            let hi = (b0 / 16) as nat;
            let lo = (b0 % 16) as nat;
            lemma_hex_upper(hi);
            lemma_hex_upper(lo);
            let unit = seq!['%', hex_upper(hi), hex_upper(lo)];
            assert(e == unit + rest);
            let bytes = ascii_bytes(e);
            assert(bytes =~= seq![37u8, hex_upper(hi) as u8, hex_upper(lo) as u8] + ascii_bytes(rest));
            assert(bytes.skip(3) =~= ascii_bytes(rest));
            assert((16 * hi + lo) as u8 == b0);
            assert(spec_percent_decode(bytes) =~= seq![b0] + b.drop_first());
            assert(seq![b0] + b.drop_first() =~= b);
        }
        assert forall|i: int| 0 <= i < e.len() implies '\0' <= #[trigger] e[i] <= '\u{7f}' by {
            if is_ascii_alphanumeric(b0) {
                if i > 0 {
                    assert(e[i] == rest[i - 1]);
                }
            } else {
                if i > 2 {
                    assert(e[i] == rest[i - 3]);
                }
            }
        }
    }
}

/// Decoding what `percent_encode` produced gives back the string that was encoded:
/// `percent_decode(percent_encode(q))` is `Ok` with the characters of `q`.
pub proof fn lemma_percent_decode_encode(s: Seq<char>)
    ensures
        valid_utf8(spec_percent_decode(encode_utf8(spec_percent_encode(encode_utf8(s))))),
        decode_utf8(spec_percent_decode(encode_utf8(spec_percent_encode(encode_utf8(s))))) == s,
{
    let b = encode_utf8(s);
    let e = spec_percent_encode(b);
    lemma_decode_ascii_encode(b);
    is_ascii_chars_encode_utf8(e);
    assert(encode_utf8(e) =~= ascii_bytes(e));
    encode_utf8_valid_utf8(s);
    encode_utf8_decode_utf8(s);
}


/// The pieces joined with `sep` between them.
pub open spec fn join(parts: Seq<Seq<char>>, sep: Seq<char>) -> Seq<char>
    decreases parts.len(),
{
    if parts.len() == 0 {
        Seq::empty()
    } else if parts.len() == 1 {
        parts[0]
    } else {
        join(parts.drop_last(), sep) + sep + parts.last()
    }
}

/// A block of the query (the query cut at `=&`) with its last `&`-separated
/// parameter left out when that parameter ends in `=`.
pub open spec fn clean_block(block: Seq<char>) -> Seq<char> {
    let params = split(block, seq!['&']);
    let last = params.last();
    let kept = if last.last() == '=' {
        params.drop_last()
    } else {
        params
    };
    join(kept, seq!['&'])
}

/// The cleaned blocks joined with `&`, leaving out empty ones.
pub open spec fn clean_blocks(blocks: Seq<Seq<char>>) -> Seq<char>
    decreases blocks.len(),
{
    if blocks.len() == 0 {
        Seq::empty()
    } else {
        let acc = clean_blocks(blocks.drop_last());
        let cleaned = clean_block(blocks.last());
        acc + (if acc.len() == 0 || cleaned.len() == 0 {
            Seq::<char>::empty()
        } else {
            seq!['&']
        }) + cleaned
    }
}

/// The blocks of a URL's query: its part between the first and a second `?`,
/// cut at each `=&`.
pub open spec fn query_blocks(url: Seq<char>) -> Seq<Seq<char>> {
    split(split(url, seq!['?'])[1], seq!['=', '&'])
}

/// A URL whose query can be cleaned: the last `&`-separated piece of every
/// block is non-empty and ends in an ASCII character.
pub open spec fn query_cleanable(url: Seq<char>) -> bool {
    split(url, seq!['?']).len() >= 2 ==> forall|i: int|
        0 <= i < query_blocks(url).len() ==> {
            let last = #[trigger] split(query_blocks(url)[i], seq!['&']).last();
            last.len() > 0 && (last.last() as u32) < 128
        }
}

/// The URL with empty trailing parameters removed from its query: the part
/// before the first `?`, then `?` and the cleaned query if that is not empty.
pub open spec fn spec_clean_query(url: Seq<char>) -> Seq<char> {
    let parts = split(url, seq!['?']);
    if parts.len() < 2 {
        url
    } else {
        let q = clean_blocks(query_blocks(url));
        if q.len() == 0 {
            parts[0]
        } else {
            parts[0] + seq!['?'] + q
        }
    }
}

/// The string of a character vector.
fn string_of(v: &Vec<char>) -> (s: String)
    ensures
        s@ == v@,
{
    let mut s = String::new();
    let mut i: usize = 0;
    while i < v.len()
        invariant
            i <= v@.len(),
            s@ == v@.take(i as int),
        decreases v@.len() - i,
    {
        push_char(&mut s, v[i]);
        proof {
            assert(v@.take(i + 1) =~= v@.take(i as int).push(v@[i as int]));
        }
        i = i + 1;
    }
    proof {
        assert(v@.take(i as int) =~= v@);
    }
    s
}

/// Appends all characters of `w` to `v`.
fn append_chars(v: &mut Vec<char>, w: &Vec<char>)
    ensures
        final(v)@ == old(v)@ + w@,
{
    let mut i: usize = 0;
    while i < w.len()
        invariant
            i <= w@.len(),
            v@ == old(v)@ + w@.take(i as int),
        decreases w@.len() - i,
    {
        v.push(w[i]);
        proof {
            assert(old(v)@ + w@.take(i + 1) =~= (old(v)@ + w@.take(i as int)).push(w@[i as int]));
        }
        i = i + 1;
    }
    proof {
        assert(w@.take(i as int) =~= w@);
    }
}

/// The first `k` pieces joined with `&`.
fn join_amp(parts: &Vec<Vec<char>>, k: usize) -> (joined: Vec<char>)
    requires
        k <= parts@.len(),
    ensures
        joined@ == join(views(parts@).take(k as int), seq!['&']),
{
    let mut out: Vec<char> = Vec::new();
    let mut j: usize = 0;
    proof {
        assert(views(parts@).take(0) =~= Seq::<Seq<char>>::empty());
    }
    while j < k
        invariant
            j <= k <= parts@.len(),
            out@ == join(views(parts@).take(j as int), seq!['&']),
        decreases k - j,
    {
        let ghost before = out@;
        if j > 0 {
            out.push('&');
        }
        append_chars(&mut out, &parts[j]);
        proof {
            let t = views(parts@).take(j + 1);
            assert(t.drop_last() =~= views(parts@).take(j as int));
            assert(t.last() == parts@[j as int]@);
            if j == 0 {
                assert(out@ =~= t[0]);
            } else {
                assert(out@ =~= before + seq!['&'] + parts@[j as int]@);
            }
        }
        j = j + 1;
    }
    out
}

/// Cleans one block of the query (see `clean_block`).
fn clean_block_chars(block: &Vec<char>) -> (cleaned: Vec<char>)
    requires
        split(block@, seq!['&']).last().len() > 0,
    ensures
        cleaned@ == clean_block(block@),
{
    let mut amp: Vec<char> = Vec::new();
    amp.push('&');
    proof {
        assert(amp@ =~= seq!['&']);
    }
    let params = split_chars(block, &amp);
    proof {
        lemma_split_from_nonempty(Seq::empty(), block@, seq!['&']);
    }
    let n = params.len();
    let last = &params[n - 1];
    proof {
        assert(last@ == split(block@, seq!['&']).last());
    }
    let k = if last[last.len() - 1] == '=' {
        n - 1
    } else {
        n
    };
    let joined = join_amp(&params, k);
    proof {
        let ps = split(block@, seq!['&']);
        if k == n - 1 {
            assert(views(params@).take(k as int) =~= ps.drop_last());
        } else {
            assert(views(params@).take(k as int) =~= ps);
        }
    }
    joined
}

/// Removes empty parameters from the query of a request URL: the query (the
/// part after the first `?`, up to a second `?`) is cut at `=&`, each block
/// loses its last `&`-separated parameter where that ends in `=`, and the
/// non-empty blocks are joined with `&`; with an empty result the URL ends
/// before its `?`.
pub fn clean_query(url: String) -> (cleaned: String)
    requires
        query_cleanable(url@),
    ensures
        cleaned@ == spec_clean_query(url@),
{
    let chars = chars_of(url.as_str());
    let mut question: Vec<char> = Vec::new();
    question.push('?');
    proof {
        assert(question@ =~= seq!['?']);
    }
    let split_url = split_chars(&chars, &question);
    if split_url.len() < 2 {
        return url;
    }
    let mut sep: Vec<char> = Vec::new();
    sep.push('=');
    sep.push('&');
    proof {
        assert(sep@ =~= seq!['=', '&']);
        assert(split_url@[1]@ == split(url@, seq!['?'])[1]);
    }
    let blocks = split_chars(&split_url[1], &sep);
    let mut new_query: Vec<char> = Vec::new();
    let mut i: usize = 0;
    proof {
        assert(views(blocks@).take(0) =~= Seq::<Seq<char>>::empty());
    }
    while i < blocks.len()
        invariant
            i <= blocks@.len(),
            views(blocks@) == query_blocks(url@),
            split(url@, seq!['?']).len() >= 2,
            query_cleanable(url@),
            new_query@ == clean_blocks(views(blocks@).take(i as int)),
        decreases blocks@.len() - i,
    {
        proof {
            assert(views(blocks@)[i as int] == blocks@[i as int]@);
            let last = split(query_blocks(url@)[i as int], seq!['&']).last();
            assert(last.len() > 0);
        }
        let cleaned = clean_block_chars(&blocks[i]);
        let ghost acc = new_query@;
        if new_query.len() > 0 && cleaned.len() > 0 {
            new_query.push('&');
        }
        append_chars(&mut new_query, &cleaned);
        proof {
            let t = views(blocks@).take(i + 1);
            assert(t.drop_last() =~= views(blocks@).take(i as int));
            assert(t.last() == blocks@[i as int]@);
            assert(new_query@ =~= acc + (if acc.len() == 0 || cleaned@.len() == 0 {
                Seq::<char>::empty()
            } else {
                seq!['&']
            }) + cleaned@);
        }
        i = i + 1;
    }
    proof {
        assert(views(blocks@).take(i as int) =~= views(blocks@));
        assert(split_url@[0]@ == split(url@, seq!['?'])[0]);
    }
    if new_query.len() == 0 {
        string_of(&split_url[0])
    } else {
        let mut whole: Vec<char> = Vec::new();
        append_chars(&mut whole, &split_url[0]);
        whole.push('?');
        append_chars(&mut whole, &new_query);
        proof {
            assert(whole@ =~= split_url@[0]@ + seq!['?'] + new_query@);
        }
        string_of(&whole)
    }
}

} // verus!
