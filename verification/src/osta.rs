//! OSTA Compressed Unicode ("dstring") codec.  The first byte is the
//! compression identifier: 8 means Latin-1 codepoints terminated by 0x00,
//! 16 means big-endian 16-bit code units terminated by 0x0000.

use vstd::prelude::*;

verus! {

/// Every codepoint of `s` fits in a single byte.
pub open spec fn spec_all_latin1(s: Seq<char>) -> bool {
    forall|i: int| 0 <= i < s.len() ==> (#[trigger] s[i] as u32) <= 0xFF
}

/// The big-endian 16-bit code units of `s`, two bytes per character,
/// each character truncated to 16 bits.
pub open spec fn spec_osta16_units(s: Seq<char>) -> Seq<u8>
    decreases s.len(),
{
    if s.len() == 0 {
        Seq::<u8>::empty()
    } else {
        let u = ((s.last() as u32) & 0xFFFF) as u16;
        spec_osta16_units(s.drop_last()) + seq![(u >> 8) as u8, (u & 0xff) as u8]
    }
}

/// What the encoder produces: compression id 8 with one byte per
/// character when every codepoint fits a byte, else id 16 with
/// big-endian pairs; a terminator of the unit width closes either form.
pub open spec fn spec_osta_encode(s: Seq<char>) -> Seq<u8> {
    if spec_all_latin1(s) {
        seq![8u8] + s.map_values(|c: char| ((c as u32) & 0xFF) as u8) + seq![0u8]
    } else {
        seq![16u8] + spec_osta16_units(s) + seq![0u8, 0u8]
    }
}

/// The characters of an 8-bit-compressed dstring from offset `i` on:
/// Latin-1 bytes up to the first 0x00.
pub open spec fn spec_osta_dec8(b: Seq<u8>, i: int) -> Seq<char>
    decreases b.len() - i,
{
    if i < 0 || i >= b.len() {
        Seq::<char>::empty()
    } else if b[i] == 0 {
        Seq::<char>::empty()
    } else {
        seq![(b[i] as u32) as char] + spec_osta_dec8(b, i + 1)
    }
}

/// The characters of a 16-bit-compressed dstring from offset `i` on:
/// big-endian units up to the first 0x0000, surrogate values dropped.
pub open spec fn spec_osta_dec16(b: Seq<u8>, i: int) -> Seq<char>
    decreases b.len() - i,
{
    if i < 0 || i + 1 >= b.len() {
        Seq::<char>::empty()
    } else {
        let u = crate::lebytes::spec_be16(b[i], b[i + 1]);
        if u == 0 {
            Seq::<char>::empty()
        } else if 0xD800 <= u < 0xE000 {
            spec_osta_dec16(b, i + 2)
        } else {
            seq![(u as u32) as char] + spec_osta_dec16(b, i + 2)
        }
    }
}

/// What the decoder produces for any byte sequence; an unknown
/// compression identifier yields the empty string.
pub open spec fn spec_osta_decode(b: Seq<u8>) -> Seq<char> {
    if b.len() == 0 {
        Seq::<char>::empty()
    } else if b[0] == 8 {
        spec_osta_dec8(b, 1)
    } else if b[0] == 16 {
        spec_osta_dec16(b, 1)
    } else {
        Seq::<char>::empty()
    }
}

/// Relies on str::chars: the characters of the string, in order.
#[verifier::external_body]
fn str_chars(s: &str) -> (r: Vec<char>)
    ensures
        r@ == s@,
{
    s.chars().collect()
}

/// Relies on String::from_iter over chars: the collected string holds
/// exactly the given characters.
#[verifier::external_body]
pub(crate) fn chars_to_string(v: &Vec<char>) -> (r: String)
    ensures
        r@ == v@,
{
    v.iter().collect()
}

/// Relies on char::from_u32: Some of the scalar with that value for
/// every 16-bit value outside the surrogate range, None on a surrogate.
#[verifier::external_body]
fn char_from_u16(v: u16) -> (r: Option<char>)
    ensures
        r == (if 0xD800 <= v < 0xE000 {
            Option::<char>::None
        } else {
            Option::<char>::Some((v as u32) as char)
        }),
{
    char::from_u32(v as u32)
}

/// Encodes the characters as a dstring, choosing the 8-bit form exactly
/// when every codepoint fits one byte.
pub fn encode_chars(chars: &Vec<char>) -> (r: Vec<u8>)
    ensures
        r@ == spec_osta_encode(chars@),
{
    let n = chars.len();
    let mut needs_16bit = false;
    let mut i: usize = 0;
    while i < n
        invariant
            n == chars@.len(),
            i <= n,
            needs_16bit <==> exists|k: int| 0 <= k < i && (#[trigger] chars@[k] as u32) > 0xFF,
        decreases n - i,
    {
        if (chars[i] as u32) > 0xFF {
            needs_16bit = true;
        }
        i = i + 1;
    }
    proof {
        if needs_16bit {
            let k = choose|k: int| 0 <= k < n && (#[trigger] chars@[k] as u32) > 0xFF;
            assert(!spec_all_latin1(chars@));
        } else {
            assert(spec_all_latin1(chars@));
        }
    }
    let mut r: Vec<u8> = Vec::new();
    if !needs_16bit {
        r.push(8u8);
        let mut j: usize = 0;
        while j < n
            invariant
                n == chars@.len(),
                j <= n,
                spec_all_latin1(chars@),
                r@ == seq![8u8] + chars@.take(j as int).map_values(|c: char| ((c as u32) & 0xFF) as u8),
            decreases n - j,
        {
            let c = chars[j];
            assert((c as u32) <= 0xFF);
            r.push(((c as u32) & 0xFF) as u8);
            proof {
                assert(r@ =~= seq![8u8] + chars@.take(j + 1).map_values(|c: char| ((c as u32) & 0xFF) as u8));
            }
            j = j + 1;
        }
        r.push(0u8);
        proof {
            assert(chars@.take(n as int) =~= chars@);
            assert(r@ =~= seq![8u8] + chars@.map_values(|c: char| ((c as u32) & 0xFF) as u8) + seq![0u8]);
        }
    } else {
        r.push(16u8);
        let mut j: usize = 0;
        while j < n
            invariant
                n == chars@.len(),
                j <= n,
                r@ == seq![16u8] + spec_osta16_units(chars@.take(j as int)),
            decreases n - j,
        {
            let c = chars[j];
            let u = ((c as u32) & 0xFFFF) as u16;
            r.push((u >> 8) as u8);
            r.push((u & 0xff) as u8);
            proof {
                let t = chars@.take(j + 1);
                assert(t.last() == chars@[j as int]);
                assert(t.drop_last() =~= chars@.take(j as int));
                assert(spec_osta16_units(t) == spec_osta16_units(t.drop_last()) + seq![
                    (u >> 8) as u8,
                    (u & 0xff) as u8,
                ]);
                assert(r@ =~= seq![16u8] + spec_osta16_units(t));
            }
            j = j + 1;
        }
        r.push(0u8);
        r.push(0u8);
        proof {
            assert(chars@.take(n as int) =~= chars@);
            assert(r@ =~= seq![16u8] + spec_osta16_units(chars@) + seq![0u8, 0u8]);
        }
    }
    r
}

/// Decodes a dstring into its characters.
pub fn decode_chars(bytes: &[u8]) -> (r: Vec<char>)
    ensures
        r@ == spec_osta_decode(bytes@),
{
    let n = bytes.len();
    let mut r: Vec<char> = Vec::new();
    if n == 0 {
        return r;
    }
    let compression_id = bytes[0];
    if compression_id == 8 {
        let mut i: usize = 1;
        let mut stopped = false;
        while i < n && !stopped
            invariant
                n == bytes@.len(),
                1 <= i <= n,
                bytes@[0] == 8,
                spec_osta_dec8(bytes@, 1) == r@ + (if stopped {
                    Seq::<char>::empty()
                } else {
                    spec_osta_dec8(bytes@, i as int)
                }),
            decreases n - i + (if stopped { 0int } else { 1int }),
        {
            let b = bytes[i];
            if b == 0 {
                stopped = true;
            } else {
                r.push(b as char);
                i = i + 1;
            }
        }
        proof {
            if !stopped {
                assert(spec_osta_dec8(bytes@, i as int) =~= Seq::<char>::empty());
            }
            assert(r@ =~= spec_osta_decode(bytes@));
        }
    } else if compression_id == 16 {
        let mut i: usize = 1;
        let mut stopped = false;
        while i < n - 1 && !stopped
            invariant
                n == bytes@.len(),
                1 <= n,
                1 <= i <= n + 1,
                bytes@[0] == 16,
                stopped ==> i + 1 < n,
                spec_osta_dec16(bytes@, 1) == r@ + (if stopped {
                    Seq::<char>::empty()
                } else {
                    spec_osta_dec16(bytes@, i as int)
                }),
            decreases n - i + (if stopped { 0int } else { 1int }),
        {
            let hi = bytes[i];
            let lo = bytes[i + 1];
            let u = ((hi as u16) << 8) | (lo as u16);
            if u == 0 {
                stopped = true;
            } else {
                match char_from_u16(u) {
                    Some(c) => { r.push(c); },
                    None => {},
                }
                i = i + 2;
            }
        }
        proof {
            if !stopped {
                assert(spec_osta_dec16(bytes@, i as int) =~= Seq::<char>::empty());
            }
            assert(r@ =~= spec_osta_decode(bytes@));
        }
    }
    r
}

/// The code units of `s`, byte by byte: unit `j` occupies bytes `2j`
/// and `2j + 1` of `spec_osta16_units(s)`.
proof fn lemma_osta16_units_index(s: Seq<char>)
    ensures
        spec_osta16_units(s).len() == 2 * s.len(),
        forall|j: int|
            0 <= j < s.len() ==> {
                let u = ((#[trigger] s[j] as u32) & 0xFFFF) as u16;
                spec_osta16_units(s)[2 * j] == (u >> 8) as u8 && spec_osta16_units(s)[2 * j + 1]
                    == (u & 0xff) as u8
            },
    decreases s.len(),
{
    if s.len() > 0 {
        lemma_osta16_units_index(s.drop_last());
        assert(forall|j: int| 0 <= j < s.len() - 1 ==> s.drop_last()[j] == s[j]);
    }
}

/// The tail of an 8-bit encoding decodes to the tail of the string.
proof fn lemma_osta_dec8_from(s: Seq<char>, k: int)
    requires
        spec_all_latin1(s),
        forall|i: int| 0 <= i < s.len() ==> (#[trigger] s[i]) != '\0',
        0 <= k <= s.len(),
    ensures
        spec_osta_dec8(spec_osta_encode(s), 1 + k) == s.skip(k),
    decreases s.len() - k,
{
    let enc = spec_osta_encode(s);
    let m = s.map_values(|c: char| ((c as u32) & 0xFF) as u8);
    assert(enc == seq![8u8] + m + seq![0u8]);
    assert(enc.len() == s.len() + 2);
    if k == s.len() {
        assert(enc[1 + k] == 0u8);
        assert(s.skip(k) =~= Seq::<char>::empty());
    } else {
        let c = s[k];
        let v = c as u32;
        assert(enc[1 + k] == m[k]);
        assert(m[k] == ((v & 0xFF) as u8));
        assert(v <= 0xFF);
        assert(v != 0) by {
            if v == 0 {
                vstd::utf8::char_u32_cast(c, v);
                assert(('\0' as u32) == 0);
                vstd::utf8::char_u32_cast('\0', 0);
            }
        }
        assert(((v & 0xFF) as u8) as u32 == v && ((v & 0xFF) as u8) != 0) by (bit_vector)
            requires
                v <= 0xFF,
                v != 0,
        ;
        assert(enc[1 + k] != 0u8);
        assert(((enc[1 + k] as u32) as char) == c) by {
            vstd::utf8::char_u32_cast(c, v);
        }
        lemma_osta_dec8_from(s, k + 1);
        assert(s.skip(k) =~= seq![s[k]] + s.skip(k + 1));
    }
}

/// The tail of a 16-bit encoding decodes to the tail of the string,
/// for strings inside the basic multilingual plane without NUL.
proof fn lemma_osta_dec16_from(s: Seq<char>, k: int)
    requires
        !spec_all_latin1(s),
        forall|i: int|
            0 <= i < s.len() ==> (#[trigger] s[i]) != '\0' && (s[i] as u32) <= 0xFFFF,
        0 <= k <= s.len(),
    ensures
        spec_osta_dec16(spec_osta_encode(s), 1 + 2 * k) == s.skip(k),
    decreases s.len() - k,
{
    let enc = spec_osta_encode(s);
    let units = spec_osta16_units(s);
    lemma_osta16_units_index(s);
    assert(enc == seq![16u8] + units + seq![0u8, 0u8]);
    assert(enc.len() == 2 * s.len() + 3);
    if k == s.len() {
        assert(enc[1 + 2 * k] == 0u8);
        assert(enc[1 + 2 * k + 1] == 0u8);
        assert(crate::lebytes::spec_be16(0u8, 0u8) == 0u16) by (bit_vector);
        assert(s.skip(k) =~= Seq::<char>::empty());
    } else {
        let c = s[k];
        let u = ((c as u32) & 0xFFFF) as u16;
        assert(enc[1 + 2 * k] == units[2 * k]);
        assert(enc[1 + 2 * k + 1] == units[2 * k + 1]);
        assert(units[2 * k] == (u >> 8) as u8 && units[2 * k + 1] == (u & 0xff) as u8);
        assert(crate::lebytes::spec_be16((u >> 8) as u8, (u & 0xff) as u8) == u) by (bit_vector);
        let v = c as u32;
        assert(v <= 0xFFFF);
        assert(u as u32 == v && (v != 0 ==> u != 0)) by (bit_vector)
            requires
                v <= 0xFFFF,
                u == ((v & 0xFFFF) as u16),
        ;
        assert(v != 0) by {
            if v == 0 {
                vstd::utf8::char_u32_cast(c, v);
                assert(('\0' as u32) == 0);
                vstd::utf8::char_u32_cast('\0', 0);
            }
        }
        assert(!(0xD800 <= v < 0xE000)) by {
            vstd::utf8::char_is_scalar(c);
        }
        assert(!(0xD800 <= u < 0xE000));
        assert(((u as u32) as char) == c) by {
            vstd::utf8::char_u32_cast(c, v);
        }
        lemma_osta_dec16_from(s, k + 1);
        assert(1 + 2 * (k + 1) == (1 + 2 * k) + 2);
        assert(s.skip(k) =~= seq![c] + s.skip(k + 1));
    }
}

/// Law: the encoder chooses the 8-bit compression identifier exactly
/// when every codepoint of the string fits one byte.
pub proof fn lemma_osta_encode_compression_id(s: Seq<char>)
    ensures
        spec_osta_encode(s)[0] == 8 <==> spec_all_latin1(s),
{
}

/// Law: decoding an encoded string gives the string back, for every
/// string whose characters lie in the basic multilingual plane and are
/// not NUL.  (A character above 0xFFFF is truncated by the 16-bit
/// encoder, and a NUL reads as the terminator, so those fall outside
/// the law.)
pub proof fn lemma_osta_round_trip(s: Seq<char>)
    requires
        forall|i: int|
            0 <= i < s.len() ==> (#[trigger] s[i]) != '\0' && (s[i] as u32) <= 0xFFFF,
    ensures
        spec_osta_decode(spec_osta_encode(s)) == s,
{
    let enc = spec_osta_encode(s);
    if spec_all_latin1(s) {
        assert(enc[0] == 8u8);
        assert(enc.len() > 0);
        lemma_osta_dec8_from(s, 0);
        assert(s.skip(0) =~= s);
    } else {
        assert(enc[0] == 16u8);
        assert(enc.len() > 0);
        lemma_osta_dec16_from(s, 0);
        assert(s.skip(0) =~= s);
    }
}

/// Encodes a string as an OSTA compressed Unicode dstring.
pub fn encode(s: &str) -> (r: Vec<u8>)
    ensures
        r@ == spec_osta_encode(s@),
{
    let chars = str_chars(s);
    encode_chars(&chars)
}

/// Decodes an OSTA compressed Unicode dstring into a string.
pub fn decode(bytes: &[u8]) -> (r: String)
    ensures
        r@ == spec_osta_decode(bytes@),
{
    let chars = decode_chars(bytes);
    chars_to_string(&chars)
}

} // verus!
