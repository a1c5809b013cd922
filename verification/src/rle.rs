//! The run-length-encoding codec: a payload is a byte buffer of even
//! length, read as adjacent (count, code) pairs.  The one textual form the
//! codec owns renders each pair as two uppercase hex digits for the count
//! followed by the code byte as a character; [`Rle::decode_hex`] is the
//! inverse of that rendering.

use vstd::prelude::*;
use vstd::utf8::encode_scalar;
use vstd::utf8::encode_utf8;
use vstd::utf8::encode_utf8_decode_utf8;
use vstd::utf8::encode_utf8_valid_utf8;
use vstd::utf8::has_width_1_encoding;
use vstd::utf8::has_width_2_encoding;
use vstd::utf8::last_continuation_byte;
use vstd::utf8::leading_byte_width_1;
use vstd::utf8::leading_byte_width_2;

verus! {

/// Failure of reading the hex text form: the text's character count is
/// not a multiple of three, or a triple holds a character it must not — a
/// count position without a hex digit, or a code position whose character
/// does not encode a single byte.
#[derive(Debug, Clone, Copy, PartialEq, Eq, Structural)]
pub enum DecodeHexError {
    NotMultipleOf3,
    NotHex,
}

/// The ASCII byte of one uppercase hex digit (`d < 16`).
pub open spec fn hex_digit_byte(d: u8) -> u8 {
    if d < 10 {
        (d + 0x30) as u8
    } else {
        (d + 0x37) as u8
    }
}

/// The character of one uppercase hex digit (`d < 16`).
pub open spec fn hex_digit(d: u8) -> char {
    hex_digit_byte(d) as char
}

/// The adjacent (count, code) pairs of an even-length buffer, in order.
pub open spec fn sp_pairs(s: Seq<u8>) -> Seq<(u8, u8)> {
    Seq::new(s.len() / 2, |i: int| (s[2 * i], s[2 * i + 1]))
}

/// The hex text of a payload, as characters: per pair, the count's two
/// uppercase hex digits, then the code byte as the character with that
/// code point.
pub open spec fn sp_hex_chars(s: Seq<u8>) -> Seq<char>
    decreases s.len(),
{
    if s.len() < 2 {
        Seq::empty()
    } else {
        seq![hex_digit(s[0] / 16), hex_digit(s[0] % 16), s[1] as char] + sp_hex_chars(s.skip(2))
    }
}

/// The nibble value of one hex digit byte; both cases are accepted.
pub open spec fn sp_hex_val(c: u8) -> Option<u8> {
    if 0x30 <= c <= 0x39 {
        Some((c - 0x30) as u8)
    } else if 0x41 <= c <= 0x46 {
        Some((c - 0x37) as u8)
    } else if 0x61 <= c <= 0x66 {
        Some((c - 0x57) as u8)
    } else {
        None
    }
}

/// The payload of a hex text, reading the input as the UTF-8 text it is:
/// each triple is two hex digits (either case) for the count, then one
/// character whose code point is at most 0xFF — an ASCII byte, or a
/// two-byte encoding — taken as the code byte.  Text that ends partway
/// through a triple (a character count that is not a multiple of three)
/// is `NotMultipleOf3`; a count position without a hex digit, or a code
/// position without such a character, is `NotHex`.
pub open spec fn sp_decode_hex(s: Seq<u8>) -> Result<Seq<u8>, DecodeHexError>
    decreases s.len(),
{
    if s.len() == 0 {
        Ok(Seq::empty())
    } else if s.len() < 3 {
        Err(DecodeHexError::NotMultipleOf3)
    } else {
        match (sp_hex_val(s[0]), sp_hex_val(s[1])) {
            (Some(h), Some(l)) => if s[2] < 0x80 {
                match sp_decode_hex(s.skip(3)) {
                    Ok(rest) => Ok(seq![(h * 16 + l) as u8, s[2]] + rest),
                    Err(e) => Err(e),
                }
            } else if 0xC2 <= s[2] <= 0xC3 {
                if s.len() < 4 {
                    Err(DecodeHexError::NotMultipleOf3)
                } else if !(0x80 <= s[3] < 0xC0) {
                    Err(DecodeHexError::NotHex)
                } else {
                    match sp_decode_hex(s.skip(4)) {
                        Ok(rest) => Ok(
                            seq![
                                (h * 16 + l) as u8,
                                ((s[2] - 0xC0) * 64 + (s[3] - 0x80)) as u8,
                            ] + rest,
                        ),
                        Err(e) => Err(e),
                    }
                }
            } else {
                Err(DecodeHexError::NotHex)
            },
            _ => Err(DecodeHexError::NotHex),
        }
    }
}

/// A run-length-encoded payload: a byte buffer of even length, holding
/// (count, code) pairs.
#[derive(Debug)]
pub struct Rle(Vec<u8>);

impl View for Rle {
    type V = Seq<u8>;

    closed spec fn view(&self) -> Seq<u8> {
        self.0@
    }
}

impl Clone for Rle {
    fn clone(&self) -> (r: Self)
        ensures
            r@ == self@,
    {
        proof {
            use_type_invariant(self);
        }
        Rle(vstd::slice::slice_to_vec(self.0.as_slice()))
    }
}

impl Rle {
    /// Every payload holds an even number of bytes; this is enforced at
    /// construction and never relaxed.
    #[verifier::type_invariant]
    pub closed spec fn inv(self) -> bool {
        self.0@.len() % 2 == 0
    }

    /// The payload's (count, code) pairs: one per two bytes, in buffer
    /// order.
    pub open spec fn pairs(self) -> Seq<(u8, u8)> {
        sp_pairs(self@)
    }

    /// Wraps an even-length buffer as a payload; an odd-length buffer is
    /// rejected.  On success the buffer is kept as given, so the payload
    /// holds `s.len() / 2` pairs in the original order.
    pub fn new(s: Vec<u8>) -> (r: Option<Self>)
        ensures
            match r {
                Some(rle) => s@.len() % 2 == 0 && rle@ == s@,
                None => s@.len() % 2 != 0,
            },
    {
        if s.len() % 2 == 0 {
            Some(Rle(s))
        } else {
            None
        }
    }

    /// The underlying bytes, by reference.
    pub fn as_bytes(&self) -> (r: &[u8])
        ensures
            r@ == self@,
    {
        self.0.as_slice()
    }
}

/// Concatenation distributes over UTF-8 encoding.
proof fn lemma_encode_utf8_concat(a: Seq<char>, b: Seq<char>)
    ensures
        encode_utf8(a + b) == encode_utf8(a) + encode_utf8(b),
    decreases a.len(),
{
    if a.len() == 0 {
        assert(a + b =~= b);
        assert(encode_utf8(a) + encode_utf8(b) =~= encode_utf8(b));
    } else {
        assert((a + b).drop_first() =~= a.drop_first() + b);
        assert((a + b)[0] == a[0]);
        lemma_encode_utf8_concat(a.drop_first(), b);
        assert(encode_scalar(a[0] as u32) + (encode_utf8(a.drop_first()) + encode_utf8(b)) =~= (
        encode_scalar(a[0] as u32) + encode_utf8(a.drop_first())) + encode_utf8(b));
    }
}

/// The UTF-8 encoding of three characters is the concatenation of their
/// scalar encodings.
proof fn lemma_encode_utf8_triple(c0: char, c1: char, c2: char)
    ensures
        encode_utf8(seq![c0, c1, c2]) == encode_scalar(c0 as u32) + encode_scalar(c1 as u32)
            + encode_scalar(c2 as u32),
{
    let t = seq![c0, c1, c2];
    assert(t.drop_first() =~= seq![c1, c2]);
    assert(seq![c1, c2].drop_first() =~= seq![c2]);
    assert(seq![c2].drop_first() =~= Seq::<char>::empty());
    assert(encode_utf8(Seq::<char>::empty()) =~= Seq::<u8>::empty());
    assert(encode_utf8(seq![c2]) =~= encode_scalar(c2 as u32));
    assert(encode_utf8(seq![c1, c2]) =~= encode_scalar(c1 as u32) + encode_scalar(c2 as u32));
    assert(encode_utf8(t) =~= encode_scalar(c0 as u32) + encode_scalar(c1 as u32) + encode_scalar(
        c2 as u32,
    ));
}

/// The UTF-8 encoding of the character of an ASCII byte is that byte
/// alone.
proof fn lemma_encode_ascii_char(c: u8)
    requires
        c < 0x80,
    ensures
        encode_scalar((c as char) as u32) == seq![c],
{
    let scalar = (c as char) as u32;
    assert(scalar == c);
    assert(has_width_1_encoding(scalar));
    assert(leading_byte_width_1(scalar) == c) by (bit_vector)
        requires
            scalar == c && c < 0x80,
    ;
    assert(encode_scalar(scalar) =~= seq![c]);
}

/// The UTF-8 encoding of the character of a non-ASCII byte is the two-byte
/// sequence built from its high two and low six bits.
proof fn lemma_encode_high_char(c: u8)
    requires
        c >= 0x80,
    ensures
        encode_scalar((c as char) as u32) == seq![
            (0xC0 | (c >> 6)) as u8,
            (0x80 | (c & 0x3F)) as u8,
        ],
{
    let scalar = (c as char) as u32;
    assert(scalar == c);
    assert(has_width_2_encoding(scalar));
    assert(!has_width_1_encoding(scalar));
    assert(leading_byte_width_2(scalar) == (0xC0 | (c >> 6)) as u8) by (bit_vector)
        requires
            scalar == c && c >= 0x80,
    ;
    assert(last_continuation_byte(scalar) == (0x80 | (c & 0x3F)) as u8) by (bit_vector)
        requires
            scalar == c,
    ;
    assert(encode_scalar(scalar) =~= seq![(0xC0 | (c >> 6)) as u8, (0x80 | (c & 0x3F)) as u8]);
}

impl Rle {
    /// Renders the payload as its hex text: per pair, the count as two
    /// uppercase hex digits, then the code byte as a character.
    ///
    /// For example (48 == '0' and so on):<br/>
    /// [0x05, 48, 0x3e, 49] => "0503E1"
    pub fn to_hex_string(&self) -> (r: String)
        ensures
            r@ == sp_hex_chars(self@),
    {
        proof {
            use_type_invariant(self);
        }
        let ghost s = self@;
        let n: usize = self.0.len();
        let mut buf: Vec<u8> = Vec::new();
        let mut i: usize = 0;
        proof {
            assert(s.skip(0) =~= s);
            assert(buf@ + encode_utf8(sp_hex_chars(s)) =~= encode_utf8(sp_hex_chars(s)));
        }
        while i < n
            invariant
                i <= n,
                i % 2 == 0,
                n % 2 == 0,
                n == s.len(),
                s == self@,
                encode_utf8(sp_hex_chars(s)) =~= buf@ + encode_utf8(sp_hex_chars(s.skip(i as int))),
            decreases n - i,
        {
            let count = self.0[i];
            let code = self.0[i + 1];
            let ghost prefix = buf@;
            let ghost triple = seq![
                hex_digit(count / 16),
                hex_digit(count % 16),
                code as char,
            ];
            buf.push(hex_digit_ascii(count / 16));
            buf.push(hex_digit_ascii(count % 16));
            if code < 0x80 {
                buf.push(code);
                proof {
                    lemma_encode_ascii_char(code);
                }
            } else {
                buf.push(0xC0 | (code >> 6));
                buf.push(0x80 | (code & 0x3F));
                proof {
                    lemma_encode_high_char(code);
                }
            }
            proof {
                lemma_encode_ascii_char(hex_digit_byte(count / 16));
                lemma_encode_ascii_char(hex_digit_byte(count % 16));
                let tail = s.skip(i as int);
                assert(tail[0] == s[i as int] && tail[1] == s[i as int + 1]);
                assert(tail.skip(2) =~= s.skip(i as int + 2));
                assert(sp_hex_chars(tail) == triple + sp_hex_chars(s.skip(i as int + 2)));
                lemma_encode_utf8_concat(triple, sp_hex_chars(s.skip(i as int + 2)));
                lemma_encode_utf8_triple(triple[0], triple[1], triple[2]);
                assert(buf@ =~= prefix + encode_utf8(triple));
                assert(encode_utf8(sp_hex_chars(s)) =~= buf@ + encode_utf8(
                    sp_hex_chars(s.skip(i as int + 2)),
                ));
            }
            i = i + 2;
        }
        proof {
            assert(s.skip(n as int) =~= Seq::<u8>::empty());
            assert(encode_utf8(sp_hex_chars(s)) =~= buf@);
            broadcast use encode_utf8_valid_utf8, encode_utf8_decode_utf8;

        }
        crate::celeste_map::string::string_from_utf8(buf)
    }

    /// Reads the hex text form back into a payload.  The input is the
    /// UTF-8 text of [`Rle::to_hex_string`]: each triple is two hex
    /// digits (either case) for the count, then one character whose code
    /// point is at most 0xFF, taken as the code byte.  Text that ends
    /// partway through a triple is `NotMultipleOf3`; a count position
    /// without a hex digit, or a code position without such a character,
    /// is `NotHex`.
    pub fn decode_hex(s: &[u8]) -> (r: Result<Self, DecodeHexError>)
        ensures
            match r {
                Ok(rle) => sp_decode_hex(s@) matches Ok(b) && rle@ == b,
                Err(e) => sp_decode_hex(s@) matches Err(e2) && e == e2,
            },
    {
        let n: usize = s.len();
        let mut out: Vec<u8> = Vec::new();
        let mut i: usize = 0;
        proof {
            assert(s@.skip(0) =~= s@);
            match sp_decode_hex(s@) {
                Ok(rest) => {
                    assert(out@ + rest =~= rest);
                },
                Err(_) => {},
            }
        }
        while i < n
            invariant
                i <= n,
                n == s@.len(),
                out@.len() % 2 == 0,
                sp_decode_hex(s@) == match sp_decode_hex(s@.skip(i as int)) {
                    Ok(rest) => Ok::<_, DecodeHexError>(out@ + rest),
                    Err(e) => Err::<Seq<u8>, _>(e),
                },
            decreases n - i,
        {
            let ghost tail = s@.skip(i as int);
            if n - i < 3 {
                return Err(DecodeHexError::NotMultipleOf3);
            }
            let h = match hex_val(s[i]) {
                Some(h) => h,
                None => {
                    proof {
                        assert(tail[0] == s@[i as int]);
                    }
                    return Err(DecodeHexError::NotHex);
                },
            };
            let l = match hex_val(s[i + 1]) {
                Some(l) => l,
                None => {
                    proof {
                        assert(tail[0] == s@[i as int] && tail[1] == s@[i as int + 1]);
                    }
                    return Err(DecodeHexError::NotHex);
                },
            };
            let c = s[i + 2];
            proof {
                assert(tail[0] == s@[i as int] && tail[1] == s@[i as int + 1] && tail[2] == s@[i
                    as int + 2]);
            }
            if c < 0x80 {
                let ghost prefix = out@;
                out.push(h * 16 + l);
                out.push(c);
                proof {
                    assert(tail.skip(3) =~= s@.skip(i as int + 3));
                    assert(out@ =~= prefix + seq![(h * 16 + l) as u8, c]);
                    match sp_decode_hex(s@.skip(i as int + 3)) {
                        Ok(rest) => {
                            assert((prefix + seq![(h * 16 + l) as u8, c]) + rest =~= prefix + (
                            seq![(h * 16 + l) as u8, c] + rest));
                        },
                        Err(_) => {},
                    }
                }
                i = i + 3;
            } else if 0xC2 <= c && c <= 0xC3 {
                if n - i < 4 {
                    return Err(DecodeHexError::NotMultipleOf3);
                }
                let c2 = s[i + 3];
                proof {
                    assert(tail[3] == s@[i as int + 3]);
                }
                if !(0x80 <= c2 && c2 < 0xC0) {
                    return Err(DecodeHexError::NotHex);
                }
                let code: u8 = (c - 0xC0) * 64 + (c2 - 0x80);
                let ghost prefix = out@;
                out.push(h * 16 + l);
                out.push(code);
                proof {
                    assert(tail.skip(4) =~= s@.skip(i as int + 4));
                    assert(out@ =~= prefix + seq![(h * 16 + l) as u8, code]);
                    match sp_decode_hex(s@.skip(i as int + 4)) {
                        Ok(rest) => {
                            assert((prefix + seq![(h * 16 + l) as u8, code]) + rest =~= prefix + (
                            seq![(h * 16 + l) as u8, code] + rest));
                        },
                        Err(_) => {},
                    }
                }
                i = i + 4;
            } else {
                return Err(DecodeHexError::NotHex);
            }
        }
        proof {
            assert(s@.skip(n as int) =~= Seq::<u8>::empty());
            assert(sp_decode_hex(s@) == Ok::<_, DecodeHexError>(out@ + Seq::<u8>::empty()));
            assert(out@ + Seq::<u8>::empty() =~= out@);
        }
        Ok(Rle(out))
    }
}

/// The ASCII byte of one uppercase hex digit.
fn hex_digit_ascii(d: u8) -> (r: u8)
    requires
        d < 16,
    ensures
        r == hex_digit_byte(d),
        r < 0x80,
{
    if d < 10 {
        d + 0x30
    } else {
        d + 0x37
    }
}

/// The nibble value of one hex digit byte, when it is one.
fn hex_val(c: u8) -> (r: Option<u8>)
    ensures
        r == sp_hex_val(c),
        r matches Some(d) ==> d < 16,
{
    if 0x30 <= c && c <= 0x39 {
        Some(c - 0x30)
    } else if 0x41 <= c && c <= 0x46 {
        Some(c - 0x37)
    } else if 0x61 <= c && c <= 0x66 {
        Some(c - 0x57)
    } else {
        None
    }
}

/// A hex digit byte always reads back as its nibble.
proof fn lemma_hex_val_digit(d: u8)
    requires
        d < 16,
    ensures
        sp_hex_val(hex_digit_byte(d)) == Some(d),
{
}

/// Round-trip law: for every valid payload, reading back its hex text
/// (through the text's UTF-8 bytes) yields exactly the original payload.
pub proof fn lemma_hex_round_trip(p: Seq<u8>)
    requires
        p.len() % 2 == 0,
    ensures
        sp_decode_hex(encode_utf8(sp_hex_chars(p))) == Ok::<_, DecodeHexError>(p),
    decreases p.len(),
{
    if p.len() == 0 {
        assert(p =~= Seq::<u8>::empty());
        assert(sp_hex_chars(p) =~= Seq::<char>::empty());
        assert(encode_utf8(sp_hex_chars(p)) =~= Seq::<u8>::empty());
    } else {
        let hd1 = hex_digit_byte(p[0] / 16);
        let hd2 = hex_digit_byte(p[0] % 16);
        let triple = seq![hex_digit(p[0] / 16), hex_digit(p[0] % 16), p[1] as char];
        let tailbytes = encode_utf8(sp_hex_chars(p.skip(2)));
        assert(sp_hex_chars(p) == triple + sp_hex_chars(p.skip(2)));
        lemma_encode_utf8_concat(triple, sp_hex_chars(p.skip(2)));
        lemma_encode_utf8_triple(triple[0], triple[1], triple[2]);
        lemma_encode_ascii_char(hd1);
        lemma_encode_ascii_char(hd2);
        lemma_hex_val_digit(p[0] / 16);
        lemma_hex_val_digit(p[0] % 16);
        lemma_hex_round_trip(p.skip(2));
        assert((p[0] / 16) * 16 + (p[0] % 16) == p[0]);
        assert(seq![p[0], p[1]] + p.skip(2) =~= p);
        let s = encode_utf8(sp_hex_chars(p));
        let c = p[1];
        if c < 0x80 {
            lemma_encode_ascii_char(c);
            assert(s =~= seq![hd1, hd2, c] + tailbytes);
            assert(s.skip(3) =~= tailbytes);
            assert(s[0] == hd1 && s[1] == hd2 && s[2] == c);
            assert(sp_decode_hex(s) == Ok::<_, DecodeHexError>(seq![p[0], p[1]] + p.skip(2)));
        } else {
            lemma_encode_high_char(c);
            let b2 = (0xC0 | (c >> 6)) as u8;
            let b3 = (0x80 | (c & 0x3F)) as u8;
            assert(0xC2 <= b2 <= 0xC3 && 0x80 <= b3 < 0xC0) by (bit_vector)
                requires
                    b2 == (0xC0 | (c >> 6)) as u8 && b3 == (0x80 | (c & 0x3F)) as u8 && c
                        >= 0x80,
            ;
            assert((b2 - 0xC0) * 64 + (b3 - 0x80) == c) by (bit_vector)
                requires
                    b2 == (0xC0 | (c >> 6)) as u8 && b3 == (0x80 | (c & 0x3F)) as u8 && c
                        >= 0x80,
            ;
            assert(s =~= seq![hd1, hd2, b2, b3] + tailbytes);
            assert(s.skip(4) =~= tailbytes);
            assert(s[0] == hd1 && s[1] == hd2 && s[2] == b2 && s[3] == b3);
            assert(sp_decode_hex(s) == Ok::<_, DecodeHexError>(seq![p[0], p[1]] + p.skip(2)));
        }
    }
}

} // verus!
