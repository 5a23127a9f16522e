//! Decoding of `application/x-www-form-urlencoded` text.
//!
//! Percent-decoding works on bytes: `%` followed by two hex digits becomes
//! one byte, a malformed escape is kept literally, and the decoded bytes
//! are read back as UTF-8 (falling back to the undecoded text when the
//! result is not valid UTF-8).  `parse_url_encoded` splits `a=b&c=d` text
//! into a multi-valued mapping keyed by the decoded field name.

pub mod body;
pub mod multipart;
pub mod url_encoded;

use vstd::prelude::*;
use vstd::utf8::{decode_utf8, encode_utf8, valid_utf8};
use crate::multimap::{mm_append, MultiMap};
use crate::scan::{bytes_range, find_byte, find_sub, lemma_find_sub_characterization};
use crate::text::{bytes_to_string_lossy, bytes_to_string_strict, lossy_utf8};

verus! {

/// Value of one hex digit byte, either case.
pub open spec fn hex_val(b: u8) -> Option<u8> {
    if 48 <= b <= 57 {
        Some((b - 48) as u8)
    } else if 65 <= b <= 70 {
        Some((b - 55) as u8)
    } else if 97 <= b <= 102 {
        Some((b - 87) as u8)
    } else {
        None
    }
}

/// Percent-decoding of a byte sequence: `%XY` with two hex digits becomes
/// one byte; `%` followed by one hex digit and a non-digit keeps the `%`
/// and the digit; any other `%` is kept literally; a trailing short escape
/// is kept as it stands.
pub open spec fn percent_decode(s: Seq<u8>) -> Seq<u8>
    decreases s.len(),
{
    if s.len() == 0 {
        Seq::empty()
    } else if s[0] != 37 {
        seq![s[0]] + percent_decode(s.skip(1))
    } else if s.len() < 3 {
        s
    } else {
        match hex_val(s[1]) {
            Some(hi) => match hex_val(s[2]) {
                Some(lo) => seq![(hi * 16 + lo) as u8] + percent_decode(s.skip(3)),
                None => seq![37u8, s[1]] + percent_decode(s.skip(2)),
            },
            None => seq![37u8] + percent_decode(s.skip(1)),
        }
    }
}

/// What decoding a byte sequence yields as text: the percent-decoded bytes
/// read as UTF-8, or, when they are not valid UTF-8, a lossy reading of the
/// undecoded input.
pub open spec fn url_decode_bytes_spec(b: Seq<u8>) -> Seq<char> {
    let d = percent_decode(b);
    if valid_utf8(d) {
        decode_utf8(d)
    } else {
        lossy_utf8(b)
    }
}

/// What `url_decode` returns: the percent-decoded bytes of the input read
/// as UTF-8, or the input unchanged when the decoded bytes are not valid
/// UTF-8.
pub open spec fn url_decode_str_spec(s: Seq<char>) -> Seq<char> {
    let d = percent_decode(encode_utf8(s));
    if valid_utf8(d) {
        decode_utf8(d)
    } else {
        s
    }
}

fn hex_val_exec(b: u8) -> (r: Option<u8>)
    ensures
        r == hex_val(b),
{
    if 48 <= b && b <= 57 {
        Some(b - 48)
    } else if 65 <= b && b <= 70 {
        Some(b - 55)
    } else if 97 <= b && b <= 102 {
        Some(b - 87)
    } else {
        None
    }
}

/// Percent-decodes a byte slice.
pub fn percent_decode_bytes(v: &[u8]) -> (r: Vec<u8>)
    ensures
        r@ == percent_decode(v@),
{
    let v_len = v.len();
    let mut out: Vec<u8> = Vec::new();
    let mut i: usize = 0;
    proof {
        assert(v@.skip(0) =~= v@);
    }
    while i < v_len
        invariant
            0 <= i <= v@.len(),
            v_len == v@.len(),
            percent_decode(v@) == out@ + percent_decode(v@.skip(i as int)),
        decreases v@.len() - i,
    {
        let ghost rem = v@.skip(i as int);
        let ghost out0 = out@;
        let b = v[i];
        proof {
            assert(rem[0] == v@[i as int]);
        }
        if b != 37 {
            out.push(b);
            proof {
                assert(rem.skip(1) =~= v@.skip(i + 1));
                assert(out@ + percent_decode(v@.skip(i + 1)) =~= out0 + percent_decode(rem));
            }
            i = i + 1;
        } else if v_len - i >= 3 {
            proof {
                assert(rem.len() >= 3);
                assert(rem[1] == v@[i + 1]);
                assert(rem[2] == v@[i + 2]);
            }
            let h1 = hex_val_exec(v[i + 1]);
            match h1 {
                Some(hi) => {
                    let h2 = hex_val_exec(v[i + 2]);
                    match h2 {
                        Some(lo) => {
                            out.push(hi * 16 + lo);
                            proof {
                                assert(rem.skip(3) =~= v@.skip(i + 3));
                                assert(out@ + percent_decode(v@.skip(i + 3)) =~= out0
                                    + percent_decode(rem));
                            }
                            i = i + 3;
                        },
                        None => {
                            out.push(37);
                            out.push(v[i + 1]);
                            proof {
                                assert(rem.skip(2) =~= v@.skip(i + 2));
                                assert(out@ + percent_decode(v@.skip(i + 2)) =~= out0
                                    + percent_decode(rem));
                            }
                            i = i + 2;
                        },
                    }
                },
                None => {
                    out.push(37);
                    proof {
                        assert(rem.skip(1) =~= v@.skip(i + 1));
                        assert(out@ + percent_decode(v@.skip(i + 1)) =~= out0 + percent_decode(
                            rem,
                        ));
                    }
                    i = i + 1;
                },
            }
        } else {
            // Short trailing escape: keep the rest as it stands.
            proof {
                assert(rem.len() < 3);
                assert(percent_decode(rem) == rem);
            }
            out.push(b);
            i = i + 1;
            if i < v_len {
                out.push(v[i]);
                i = i + 1;
            }
            proof {
                assert(v@.skip(i as int) =~= Seq::<u8>::empty());
                assert(out@ =~= out0 + rem);
                assert(out@ + percent_decode(v@.skip(i as int)) =~= out0 + percent_decode(rem));
            }
        }
    }
    proof {
        assert(v@.skip(v@.len() as int) =~= Seq::<u8>::empty());
        assert(percent_decode(v@) =~= out@);
    }
    out
}

/// Decodes a percent-encoded string; a malformed escape is kept literally,
/// and input whose decoding is not valid UTF-8 is returned unchanged.
pub fn url_decode(value: &str) -> (r: String)
    ensures
        r@ == url_decode_str_spec(value@),
{
    let bytes = value.as_bytes();
    let decoded = percent_decode_bytes(bytes);
    match bytes_to_string_strict(decoded) {
        Some(s) => s,
        None => value.to_owned(),
    }
}

/// A character that percent-encoding leaves as it is.
pub open spec fn is_unreserved_char(c: char) -> bool {
    ||| '0' <= c <= '9'
    ||| 'A' <= c <= 'Z'
    ||| 'a' <= c <= 'z'
    ||| c == '-'
    ||| c == '.'
    ||| c == '_'
    ||| c == '~'
}

/// Upper-case hex digit character for a value below 16.
pub open spec fn hex_char(d: int) -> char {
    if d < 10 {
        ((48 + d) as u32) as char
    } else {
        ((55 + d) as u32) as char
    }
}

/// Percent-encoding of one ASCII character (one below code point 128).
pub open spec fn encode_char(c: char) -> Seq<char> {
    if is_unreserved_char(c) {
        seq![c]
    } else {
        seq!['%', hex_char(c as u32 as int / 16), hex_char(c as u32 as int % 16)]
    }
}

/// Percent-encoding of ASCII text: unreserved characters stay, every other
/// character becomes `%` and two upper-case hex digits.
pub open spec fn url_encode_spec(s: Seq<char>) -> Seq<char>
    decreases s.len(),
{
    if s.len() == 0 {
        Seq::empty()
    } else {
        encode_char(s[0]) + url_encode_spec(s.skip(1))
    }
}

/// `url_encode_spec` distributes over concatenation.
pub proof fn lemma_url_encode_concat(a: Seq<char>, b: Seq<char>)
    ensures
        url_encode_spec(a + b) == url_encode_spec(a) + url_encode_spec(b),
    decreases a.len(),
{
    if a.len() == 0 {
        assert(a + b =~= b);
        assert(url_encode_spec(a) + url_encode_spec(b) =~= url_encode_spec(b));
    } else {
        lemma_url_encode_concat(a.skip(1), b);
        assert((a + b).skip(1) =~= a.skip(1) + b);
        assert((a + b)[0] == a[0]);
        assert(url_encode_spec(a + b) =~= url_encode_spec(a) + url_encode_spec(b));
    }
}

/// The characters an all-ASCII byte sequence decodes to.
pub open spec fn ascii_chars_of(b: Seq<u8>) -> Seq<char> {
    b.map(|i: int, x: u8| ((x as u32) as char))
}

/// An all-ASCII byte sequence is valid UTF-8 and decodes byte for byte.
pub proof fn lemma_ascii_bytes_utf8(b: Seq<u8>)
    requires
        forall|i: int| 0 <= i < b.len() ==> b[i] < 128,
    ensures
        valid_utf8(b),
        decode_utf8(b) == ascii_chars_of(b),
    decreases b.len(),
{
    if b.len() == 0 {
        assert(ascii_chars_of(b) =~= Seq::<char>::empty());
    } else {
        let b0 = b[0];
        assert((b0 & 0x7f) == b0) by (bit_vector)
            requires
                b0 < 128,
        ;
        assert(vstd::utf8::valid_first_scalar(b));
        assert(vstd::utf8::length_of_first_scalar(b) == 1);
        assert(vstd::utf8::pop_first_scalar(b) =~= b.skip(1));
        lemma_ascii_bytes_utf8(b.skip(1));
        assert(valid_utf8(b));
        assert(decode_utf8(b) =~= ascii_chars_of(b));
    }
}

fn hex_digit_byte(d: u8) -> (r: u8)
    requires
        d < 16,
    ensures
        hex_char(d as int) == ((r as u32) as char),
        r < 128,
{
    if d < 10 {
        48 + d
    } else {
        55 + d
    }
}

/// Percent-encodes ASCII text: unreserved characters stay, every other
/// character becomes `%` and two upper-case hex digits.
pub fn url_encode(value: &str) -> (r: String)
    requires
        vstd::utf8::is_ascii_chars(value@),
    ensures
        r@ == url_encode_spec(value@),
{
    proof {
        vstd::utf8::is_ascii_chars_encode_utf8(value@);
    }
    let bytes = value.as_bytes();
    let n = bytes.len();
    let mut out: Vec<u8> = Vec::new();
    let mut i: usize = 0;
    proof {
        assert(value@.take(0) =~= Seq::<char>::empty());
        assert(ascii_chars_of(out@) =~= url_encode_spec(value@.take(0)));
    }
    while i < n
        invariant
            0 <= i <= value@.len(),
            n == value@.len(),
            vstd::utf8::is_ascii_chars(value@),
            bytes@ == encode_utf8(value@),
            bytes@.len() == value@.len(),
            forall|j: int| 0 <= j < value@.len() ==> value@[j] as u8 == bytes@[j],
            forall|j: int| 0 <= j < out@.len() ==> out@[j] < 128,
            ascii_chars_of(out@) == url_encode_spec(value@.take(i as int)),
        decreases value@.len() - i,
    {
        let ghost c = value@[i as int];
        let ghost out0 = out@;
        let b = bytes[i];
        proof {
            assert('\0' <= c <= '\u{7f}');
            vstd::utf8::char_u32_cast(c, b as u32);
        }
        if (48 <= b && b <= 57) || (65 <= b && b <= 90) || (97 <= b && b <= 122) || b == 45 || b
            == 46 || b == 95 || b == 126 {
            out.push(b);
            proof {
                if 48 <= b && b <= 57 {
                    assert('0' <= c <= '9');
                } else if 65 <= b && b <= 90 {
                    assert('A' <= c <= 'Z');
                } else if 97 <= b && b <= 122 {
                    assert('a' <= c <= 'z');
                } else if b == 45 {
                    vstd::utf8::char_u32_cast('-', 45);
                    assert(c == '-');
                } else if b == 46 {
                    vstd::utf8::char_u32_cast('.', 46);
                    assert(c == '.');
                } else if b == 95 {
                    vstd::utf8::char_u32_cast('_', 95);
                    assert(c == '_');
                } else {
                    vstd::utf8::char_u32_cast('~', 126);
                    assert(c == '~');
                }
                assert(is_unreserved_char(c));
                assert(ascii_chars_of(out@) =~= ascii_chars_of(out0) + encode_char(c));
            }
        } else {
            let hi = hex_digit_byte(b / 16);
            let lo = hex_digit_byte(b % 16);
            out.push(37);
            out.push(hi);
            out.push(lo);
            proof {
                assert(!is_unreserved_char(c));
                assert(((37u32) as char) == '%');
                assert(ascii_chars_of(out@) =~= ascii_chars_of(out0) + encode_char(c));
            }
        }
        proof {
            assert(value@.take(i + 1) =~= value@.take(i as int) + seq![c]);
            lemma_url_encode_concat(value@.take(i as int), seq![c]);
            assert(seq![c].skip(1) =~= Seq::<char>::empty());
            assert(seq![c].len() == 1 && seq![c][0] == c);
            assert(url_encode_spec(seq![c]) == encode_char(c) + url_encode_spec(
                Seq::<char>::empty(),
            ));
            assert(url_encode_spec(seq![c]) =~= encode_char(c));
        }
        i = i + 1;
    }
    proof {
        assert(value@.take(value@.len() as int) =~= value@);
        lemma_ascii_bytes_utf8(out@);
    }
    match bytes_to_string_strict(out) {
        Some(s) => s,
        None => {
            proof {
                assert(false);
            }
            String::new()
        },
    }
}

/// Percent-decoding leaves a sequence without `%` untouched.
pub proof fn lemma_percent_decode_no_escape(b: Seq<u8>)
    requires
        forall|i: int| 0 <= i < b.len() ==> b[i] != 37,
    ensures
        percent_decode(b) == b,
    decreases b.len(),
{
    if b.len() > 0 {
        lemma_percent_decode_no_escape(b.skip(1));
        assert(percent_decode(b) =~= b);
    } else {
        assert(percent_decode(b) =~= b);
    }
}

proof fn lemma_url_encode_unreserved(s: Seq<char>)
    requires
        forall|i: int| 0 <= i < s.len() ==> is_unreserved_char(#[trigger] s[i]),
    ensures
        url_encode_spec(s) == s,
    decreases s.len(),
{
    if s.len() > 0 {
        lemma_url_encode_unreserved(s.skip(1));
        assert(url_encode_spec(s) =~= s);
    } else {
        assert(url_encode_spec(s) =~= s);
    }
}

/// Round trip: for text of unreserved ASCII characters (in particular,
/// without `%`, `&` and `=`), decoding changes nothing and encoding the
/// decoded text gives the original text back.
pub proof fn lemma_url_encode_decode_roundtrip(s: Seq<char>)
    requires
        forall|i: int| 0 <= i < s.len() ==> is_unreserved_char(#[trigger] s[i]),
    ensures
        url_decode_str_spec(s) == s,
        url_encode_spec(url_decode_str_spec(s)) == s,
{
    assert forall|i: int| 0 <= i < s.len() implies '\0' <= #[trigger] s[i] <= '\u{7f}' by {
        assert(is_unreserved_char(s[i]));
    }
    assert(vstd::utf8::is_ascii_chars(s));
    vstd::utf8::is_ascii_chars_encode_utf8(s);
    let b = encode_utf8(s);
    assert forall|i: int| 0 <= i < b.len() implies b[i] != 37 by {
        assert(s[i] as u8 == b[i]);
        assert(is_unreserved_char(s[i]));
        assert('\0' <= s[i] <= '\u{7f}');
    }
    lemma_percent_decode_no_escape(b);
    vstd::utf8::encode_utf8_valid_utf8(s);
    vstd::utf8::encode_utf8_decode_utf8(s);
    lemma_url_encode_unreserved(s);
}

/// One `key=value` piece folded into the mapping: the part before the
/// first `=` is the decoded name, the part after it the decoded value;
/// a piece without `=` is dropped.
pub open spec fn piece_into(
    p: Seq<u8>,
    m: Seq<(Seq<char>, Seq<Seq<char>>)>,
) -> Seq<(Seq<char>, Seq<Seq<char>>)> {
    match find_sub(p, seq![61u8]) {
        Some(i) => mm_append(
            m,
            url_decode_bytes_spec(p.take(i)),
            url_decode_bytes_spec(p.skip(i + 1)),
        ),
        None => m,
    }
}

/// The `&`-separated pieces of `b` folded into the mapping in order.
pub open spec fn parse_url_pieces(
    b: Seq<u8>,
    m: Seq<(Seq<char>, Seq<Seq<char>>)>,
) -> Seq<(Seq<char>, Seq<Seq<char>>)>
    decreases b.len(),
{
    match find_sub(b, seq![38u8]) {
        Some(i) => if 0 <= i < b.len() {
            parse_url_pieces(b.skip(i + 1), piece_into(b.take(i), m))
        } else {
            m
        },
        None => piece_into(b, m),
    }
}

/// The mapping decoded from url-encoded bytes.
pub open spec fn parse_url_encoded_spec(b: Seq<u8>) -> Seq<(Seq<char>, Seq<Seq<char>>)> {
    parse_url_pieces(b, Seq::empty())
}

fn decode_component(b: &[u8]) -> (r: String)
    ensures
        r@ == url_decode_bytes_spec(b@),
{
    let d = percent_decode_bytes(b);
    match bytes_to_string_strict(d) {
        Some(s) => s,
        None => bytes_to_string_lossy(b),
    }
}

fn url_piece_into(piece: &[u8], params: &mut MultiMap<String>)
    ensures
        crate::multimap::mm_string_view(final(params).entries()) == piece_into(
            piece@,
            crate::multimap::mm_string_view(old(params).entries()),
        ),
{
    let n = piece.len();
    match find_byte(piece, 61) {
        Some(i) => {
            proof {
                lemma_find_sub_characterization(piece@, seq![61u8]);
            }
            let key_b = bytes_range(piece, 0, i);
            let val_b = bytes_range(piece, i + 1, n);
            let key = decode_component(key_b.as_slice());
            let val = decode_component(val_b.as_slice());
            proof {
                assert(piece@.subrange(0, i as int) =~= piece@.take(i as int));
                assert(piece@.subrange(i + 1, n as int) =~= piece@.skip(i + 1));
                crate::multimap::lemma_mm_append_string_view(params.entries(), key@, val);
            }
            params.append(key, val);
        },
        None => {},
    }
}

/// Parses `a=b&c=d` text into a multi-valued mapping with percent-decoded
/// names and values; pieces without `=` are dropped, and repeated names
/// collect their values in order.
pub fn parse_url_encoded(text: &str) -> (r: MultiMap<String>)
    ensures
        crate::multimap::mm_string_view(r.entries()) == parse_url_encoded_spec(
            encode_utf8(text@),
        ),
{
    parse_url_encoded_bytes(text.as_bytes())
}

/// Parses url-encoded bytes into a multi-valued mapping.
pub fn parse_url_encoded_bytes(bytes: &[u8]) -> (r: MultiMap<String>)
    ensures
        crate::multimap::mm_string_view(r.entries()) == parse_url_encoded_spec(bytes@),
{
    let ghost full = bytes@;
    let n = bytes.len();
    let mut params: MultiMap<String> = MultiMap::new();
    let mut start: usize = 0;
    proof {
        assert(full.skip(0) =~= full);
        assert(crate::multimap::mm_string_view(params.entries()) =~= Seq::<(
            Seq<char>,
            Seq<Seq<char>>,
        )>::empty());
    }
    loop
        invariant
            0 <= start <= full.len(),
            n == full.len(),
            bytes@ == full,
            parse_url_encoded_spec(full) == parse_url_pieces(
                full.skip(start as int),
                crate::multimap::mm_string_view(params.entries()),
            ),
        decreases full.len() - start,
    {
        let rem = bytes_range(bytes, start, n);
        proof {
            assert(rem@ =~= full.skip(start as int));
        }
        match find_byte(rem.as_slice(), 38) {
            Some(i) => {
                proof {
                    lemma_find_sub_characterization(rem@, seq![38u8]);
                }
                let piece = bytes_range(rem.as_slice(), 0, i);
                proof {
                    assert(piece@ =~= rem@.take(i as int));
                }
                url_piece_into(piece.as_slice(), &mut params);
                proof {
                    assert(full.skip(start + i + 1) =~= rem@.skip(i + 1));
                }
                start = start + i + 1;
            },
            None => {
                url_piece_into(rem.as_slice(), &mut params);
                return params;
            },
        }
    }
}

} // verus!
