//! Identifiers packed six bits to the character.
use vstd::prelude::*;
use vstd::string::*;
use vstd::utf8::is_ascii_chars;
use crate::error::KbinError;
use crate::text::string_push;

verus! {

/// The character that stands for a six-bit value: the alphabet is
/// `0-9`, `A-Z`, `a-z`, `_`, `:` in that order.
pub open spec fn sixbit_char(v: u8) -> char
    recommends
        v < 64,
{
    if v < 10 {
        (48 + v) as char
    } else if v < 36 {
        (65 + (v - 10)) as char
    } else if v < 62 {
        (97 + (v - 36)) as char
    } else if v == 62 {
        '_'
    } else {
        ':'
    }
}

/// The six-bit value of a character of the alphabet, `None` for any other.
pub open spec fn sixbit_index(c: char) -> Option<u8> {
    let n = c as u32;
    if 48 <= n <= 57 {
        Some((n - 48) as u8)
    } else if 65 <= n <= 90 {
        Some((n - 65 + 10) as u8)
    } else if 97 <= n <= 122 {
        Some((n - 97 + 36) as u8)
    } else if c == '_' {
        Some(62u8)
    } else if c == ':' {
        Some(63u8)
    } else {
        None
    }
}

/// Every character of `s` is in the alphabet.
pub open spec fn in_alphabet(s: Seq<char>) -> bool {
    forall|i: int| 0 <= i < s.len() ==> (#[trigger] sixbit_index(s[i])) is Some
}

/// Bytes that `n` packed characters take: six bits each, rounded up.
pub open spec fn packed_len(n: nat) -> nat {
    (n * 6 + 7) / 8
}

/// The value at `i`, or zero past the end: the padding of the last byte.
pub open spec fn value_at(vals: Seq<u8>, i: int) -> u8 {
    if 0 <= i < vals.len() {
        vals[i]
    } else {
        0
    }
}

/// Byte `j` of the packed stream. Four values fill three bytes, most
/// significant bit first, so byte `j` holds the end of one value and the
/// start of the next.
pub open spec fn packed_byte(vals: Seq<u8>, j: int) -> u8 {
    let g = 4 * (j / 3);
    let a = value_at(vals, g + j % 3);
    let b = value_at(vals, g + j % 3 + 1);
    if j % 3 == 0 {
        (a << 2) | (b >> 4)
    } else if j % 3 == 1 {
        ((a & 15) << 4) | (b >> 2)
    } else {
        ((a & 3) << 6) | b
    }
}

/// The values packed six bits each.
pub open spec fn spec_pack(vals: Seq<u8>) -> Seq<u8> {
    Seq::new(packed_len(vals.len()), |j: int| packed_byte(vals, j))
}

/// The byte at `j`, or zero past the end.
pub open spec fn byte_at(bytes: Seq<u8>, j: int) -> u8 {
    if 0 <= j < bytes.len() {
        bytes[j]
    } else {
        0
    }
}

/// Value `i` of a packed stream.
pub open spec fn unpacked_value(bytes: Seq<u8>, i: int) -> u8 {
    let g = 3 * (i / 4);
    if i % 4 == 0 {
        byte_at(bytes, g) >> 2
    } else if i % 4 == 1 {
        ((byte_at(bytes, g) & 3) << 4) | (byte_at(bytes, g + 1) >> 4)
    } else if i % 4 == 2 {
        ((byte_at(bytes, g + 1) & 15) << 2) | (byte_at(bytes, g + 2) >> 6)
    } else {
        byte_at(bytes, g + 2) & 63
    }
}

/// The first `n` values of a packed stream.
pub open spec fn spec_unpack(bytes: Seq<u8>, n: nat) -> Seq<u8> {
    Seq::new(n, |i: int| unpacked_value(bytes, i))
}

/// The six-bit values of the characters of an identifier.
pub open spec fn sixbit_values(s: Seq<char>) -> Seq<u8> {
    Seq::new(s.len(), |i: int| sixbit_index(s[i]).unwrap())
}

/// The characters of a sequence of six-bit values.
pub open spec fn sixbit_chars(vals: Seq<u8>) -> Seq<char> {
    Seq::new(vals.len(), |i: int| sixbit_char(vals[i]))
}

/// An identifier that the packed form can hold: 1 to 255 characters of the
/// alphabet.
pub open spec fn sixbit_encodable(s: Seq<char>) -> bool {
    1 <= s.len() <= 255 && in_alphabet(s)
}

/// The wire form of a packed identifier: the character count in one byte,
/// then the packed characters.
pub open spec fn spec_sixbit_encode(s: Seq<char>) -> Seq<u8> {
    seq![s.len() as u8] + spec_pack(sixbit_values(s))
}

/// Reads a packed identifier from the start of `input`: the identifier and
/// the number of bytes it took, or `None` where the input ends too early.
pub open spec fn spec_sixbit_decode(input: Seq<u8>) -> Option<(Seq<char>, nat)> {
    if input.len() == 0 {
        None
    } else {
        let n = input[0] as nat;
        if input.len() < 1 + packed_len(n) {
            None
        } else {
            Some(
                (
                    sixbit_chars(spec_unpack(input.subrange(1, 1 + packed_len(n) as int), n)),
                    1 + packed_len(n),
                ),
            )
        }
    }
}

/// A character of the alphabet is an ASCII character, and the character of
/// its six-bit value.
pub proof fn lemma_sixbit_char_index(c: char)
    requires
        sixbit_index(c) is Some,
    ensures
        sixbit_index(c).unwrap() < 64,
        sixbit_char(sixbit_index(c).unwrap()) == c,
        '\0' <= c <= '\u{7f}',
{
}

proof fn lemma_group_bits(a: u8, b: u8, c: u8, d: u8)
    requires
        a < 64,
        b < 64,
        c < 64,
        d < 64,
    ensures
        ((a << 2) | (b >> 4)) >> 2 == a,
        ((((a << 2) | (b >> 4)) & 3) << 4) | ((((b & 15) << 4) | (c >> 2)) >> 4) == b,
        (((((b & 15) << 4) | (c >> 2)) & 15) << 2) | ((((c & 3) << 6) | d) >> 6) == c,
        (((c & 3) << 6) | d) & 63 == d,
{
    assert(((a << 2) | (b >> 4)) >> 2 == a) by (bit_vector)
        requires
            a < 64,
            b < 64,
    ;
    assert(((((a << 2) | (b >> 4)) & 3) << 4) | ((((b & 15) << 4) | (c >> 2)) >> 4) == b)
        by (bit_vector)
        requires
            a < 64,
            b < 64,
            c < 64,
    ;
    assert((((((b & 15) << 4) | (c >> 2)) & 15) << 2) | ((((c & 3) << 6) | d) >> 6) == c)
        by (bit_vector)
        requires
            b < 64,
            c < 64,
            d < 64,
    ;
    assert((((c & 3) << 6) | d) & 63 == d) by (bit_vector)
        requires
            c < 64,
            d < 64,
    ;
}

proof fn lemma_unpacked_below_64(bytes: Seq<u8>, i: int)
    ensures
        unpacked_value(bytes, i) < 64,
{
    let x = byte_at(bytes, 3 * (i / 4));
    let y = byte_at(bytes, 3 * (i / 4) + 1);
    let z = byte_at(bytes, 3 * (i / 4) + 2);
    assert(x >> 2 < 64) by (bit_vector);
    assert(((x & 3) << 4) | (y >> 4) < 64) by (bit_vector);
    assert(((y & 15) << 2) | (z >> 6) < 64) by (bit_vector);
    assert(z & 63 < 64) by (bit_vector);
}

/// Unpacking what was packed gives the values back.
pub proof fn lemma_unpack_pack(vals: Seq<u8>)
    requires
        forall|i: int| 0 <= i < vals.len() ==> vals[i] < 64,
    ensures
        spec_unpack(spec_pack(vals), vals.len()) == vals,
{
    let packed = spec_pack(vals);
    let n = vals.len();
    assert forall|i: int| 0 <= i < n implies unpacked_value(packed, i) == vals[i] by {
        let q = i / 4;
        let g = 3 * q;
        let a = value_at(vals, 4 * q);
        let b = value_at(vals, 4 * q + 1);
        let c = value_at(vals, 4 * q + 2);
        let d = value_at(vals, 4 * q + 3);
        lemma_group_bits(a, b, c, d);
        assert(g / 3 == q && (g + 1) / 3 == q && (g + 2) / 3 == q);
        assert(g % 3 == 0 && (g + 1) % 3 == 1 && (g + 2) % 3 == 2);
        assert(packed_byte(vals, g) == (a << 2) | (b >> 4));
        assert(packed_byte(vals, g + 1) == ((b & 15) << 4) | (c >> 2));
        assert(packed_byte(vals, g + 2) == ((c & 3) << 6) | d);
        if i % 4 == 0 {
            assert(g < packed.len());
        } else if i % 4 == 1 {
            assert(g + 1 < packed.len());
        } else if i % 4 == 2 {
            assert(g + 2 < packed.len());
        } else {
            assert(g + 2 < packed.len());
        }
    }
    assert(spec_unpack(packed, n) =~= vals);
}

/// A packed identifier reads back as it was written, and takes one byte for
/// the count and six bits, rounded up to whole bytes, for each character.
/// Bytes that follow it do not change what is read.
pub proof fn lemma_sixbit_round_trip(s: Seq<char>, rest: Seq<u8>)
    requires
        s.len() <= 255,
        in_alphabet(s),
    ensures
        spec_sixbit_encode(s).len() == 1 + (s.len() * 6 + 7) / 8,
        spec_sixbit_decode(spec_sixbit_encode(s) + rest) == Some(
            (s, spec_sixbit_encode(s).len()),
        ),
{
    let vals = sixbit_values(s);
    let wire = spec_sixbit_encode(s);
    let input = wire + rest;
    let n = s.len();
    assert(input[0] == n as u8);
    assert(input.subrange(1, 1 + packed_len(n) as int) =~= spec_pack(vals));
    assert forall|i: int| 0 <= i < vals.len() implies vals[i] < 64 by {
        lemma_sixbit_char_index(s[i]);
    }
    lemma_unpack_pack(vals);
    assert forall|i: int| 0 <= i < n implies sixbit_chars(vals)[i] == s[i] by {
        lemma_sixbit_char_index(s[i]);
    }
    assert(sixbit_chars(vals) =~= s);
}

/// The six-bit value of an ASCII byte, where it is in the alphabet.
fn index_of_byte(b: u8) -> (r: Option<u8>)
    requires
        b < 128,
    ensures
        r == sixbit_index(b as char),
{
    if 48 <= b && b <= 57 {
        Some(b - 48)
    } else if 65 <= b && b <= 90 {
        Some(b - 65 + 10)
    } else if 97 <= b && b <= 122 {
        Some(b - 97 + 36)
    } else if b == 95 {
        Some(62)
    } else if b == 58 {
        Some(63)
    } else {
        None
    }
}

/// The character of a six-bit value.
fn char_of_value(v: u8) -> (r: char)
    requires
        v < 64,
    ensures
        r == sixbit_char(v),
{
    if v < 10 {
        (48 + v) as char
    } else if v < 36 {
        (65 + (v - 10)) as char
    } else if v < 62 {
        (97 + (v - 36)) as char
    } else if v == 62 {
        '_'
    } else {
        ':'
    }
}

/// The six-bit values of an identifier, or `None` where it holds a
/// character outside the alphabet.
pub fn to_sixbit_values(s: &str) -> (r: Option<Vec<u8>>)
    ensures
        r is Some <==> in_alphabet(s@),
        r matches Some(v) ==> v@ == sixbit_values(s@),
{
    if !s.is_ascii() {
        proof {
            if in_alphabet(s@) {
                assert forall|i: int| 0 <= i < s@.len() implies '\0' <= #[trigger] s@[i]
                    <= '\u{7f}' by {
                    lemma_sixbit_char_index(s@[i]);
                }
                assert(is_ascii_chars(s@));
            }
        }
        return None;
    }
    let bytes = s.as_bytes();
    proof {
        is_ascii_spec_bytes(s);
    }
    let mut vals: Vec<u8> = Vec::with_capacity(bytes.len());
    let mut i: usize = 0;
    while i < bytes.len()
        invariant
            i <= bytes.len(),
            bytes@.len() == s@.len(),
            is_ascii(s),
            forall|k: int| 0 <= k < s@.len() ==> bytes@[k] == s@[k] as u8,
            vals@.len() == i,
            forall|k: int| 0 <= k < i ==> sixbit_index(s@[k]) == Some(#[trigger] vals@[k]),
        decreases bytes.len() - i,
    {
        let b = bytes[i];
        assert('\0' <= s@[i as int] <= '\u{7f}');
        assert(b as char == s@[i as int]);
        match index_of_byte(b) {
            Some(v) => vals.push(v),
            None => {
                return None;
            },
        }
        i += 1;
    }
    assert forall|k: int| 0 <= k < s@.len() implies (#[trigger] sixbit_index(s@[k])) is Some by {
        assert(sixbit_index(s@[k]) == Some(vals@[k]));
    }
    assert(vals@ =~= sixbit_values(s@));
    Some(vals)
}

/// Packs six-bit values into bytes.
pub fn pack(vals: &[u8]) -> (r: Vec<u8>)
    requires
        vals@.len() <= 255,
    ensures
        r@ == spec_pack(vals@),
{
    let n = vals.len();
    let total = (n * 6 + 7) / 8;
    let mut out: Vec<u8> = Vec::with_capacity(total);
    let mut j: usize = 0;
    while j < total
        invariant
            j <= total,
            n == vals@.len(),
            n <= 255,
            total == packed_len(n as nat),
            out@.len() == j,
            forall|k: int| 0 <= k < j ==> out@[k] == packed_byte(vals@, k),
        decreases total - j,
    {
        let g = 4 * (j / 3);
        let r = j % 3;
        let a: u8 = if g + r < n {
            vals[g + r]
        } else {
            0
        };
        let b: u8 = if g + r + 1 < n {
            vals[g + r + 1]
        } else {
            0
        };
        let byte: u8 = if r == 0 {
            (a << 2) | (b >> 4)
        } else if r == 1 {
            ((a & 15) << 4) | (b >> 2)
        } else {
            ((a & 3) << 6) | b
        };
        out.push(byte);
        j += 1;
    }
    assert(out@ =~= spec_pack(vals@));
    out
}

/// Unpacks the first `n` six-bit values of `bytes`.
pub fn unpack(bytes: &[u8], n: usize) -> (r: Vec<u8>)
    requires
        n <= 255,
    ensures
        r@ == spec_unpack(bytes@, n as nat),
        forall|i: int| 0 <= i < r@.len() ==> r@[i] < 64,
{
    let len = bytes.len();
    let mut out: Vec<u8> = Vec::with_capacity(n);
    let mut i: usize = 0;
    while i < n
        invariant
            i <= n,
            n <= 255,
            len == bytes@.len(),
            out@.len() == i,
            forall|k: int| 0 <= k < i ==> out@[k] == unpacked_value(bytes@, k),
            forall|k: int| 0 <= k < i ==> out@[k] < 64,
        decreases n - i,
    {
        let g = 3 * (i / 4);
        let r = i % 4;
        let x: u8 = if g < len {
            bytes[g]
        } else {
            0
        };
        let y: u8 = if g + 1 < len {
            bytes[g + 1]
        } else {
            0
        };
        let z: u8 = if g + 2 < len {
            bytes[g + 2]
        } else {
            0
        };
        let v: u8 = if r == 0 {
            x >> 2
        } else if r == 1 {
            ((x & 3) << 4) | (y >> 4)
        } else if r == 2 {
            ((y & 15) << 2) | (z >> 6)
        } else {
            z & 63
        };
        proof {
            lemma_unpacked_below_64(bytes@, i as int);
        }
        out.push(v);
        i += 1;
    }
    assert(out@ =~= spec_unpack(bytes@, n as nat));
    out
}

/// Writes an identifier in packed form. An identifier that is empty, longer
/// than 255 characters or not made of the alphabet is refused.
pub fn sixbit_encode(s: &str) -> (r: Result<Vec<u8>, KbinError>)
    ensures
        r is Ok <==> sixbit_encodable(s@),
        r matches Ok(v) ==> v@ == spec_sixbit_encode(s@),
        r matches Err(e) ==> e == KbinError::InvalidIdentifier,
{
    match to_sixbit_values(s) {
        None => Err(KbinError::InvalidIdentifier),
        Some(vals) => {
            let n = vals.len();
            if n == 0 || n > 255 {
                return Err(KbinError::InvalidIdentifier);
            }
            let packed = pack(vals.as_slice());
            let mut out: Vec<u8> = Vec::with_capacity(1 + packed.len());
            out.push(n as u8);
            let mut j: usize = 0;
            while j < packed.len()
                invariant
                    j <= packed.len(),
                    out@ == seq![n as u8] + packed@.subrange(0, j as int),
                decreases packed.len() - j,
            {
                out.push(packed[j]);
                assert(packed@.subrange(0, j + 1) =~= packed@.subrange(0, j as int).push(
                    packed@[j as int],
                ));
                j += 1;
            }
            assert(packed@.subrange(0, j as int) =~= packed@);
            Ok(out)
        },
    }
}

/// Reads a packed identifier from the start of `input` and says how many
/// bytes it took. The only failure is input that ends before the identifier
/// does: six bits always name a character of the alphabet.
pub fn sixbit_decode(input: &[u8]) -> (r: Result<(String, usize), KbinError>)
    ensures
        r is Ok <==> spec_sixbit_decode(input@) is Some,
        r matches Ok((s, used)) ==> spec_sixbit_decode(input@) == Some((s@, used as nat)),
        r matches Err(e) ==> e == KbinError::EndOfStream,
{
    if input.len() == 0 {
        return Err(KbinError::EndOfStream);
    }
    let n: usize = input[0] as usize;
    let total: usize = (n * 6 + 7) / 8;
    if input.len() - 1 < total {
        return Err(KbinError::EndOfStream);
    }
    let packed = vstd::slice::slice_subrange(input, 1, 1 + total);
    let vals = unpack(packed, n);
    let mut s = String::new();
    let mut i: usize = 0;
    while i < n
        invariant
            i <= n,
            vals@.len() == n,
            forall|k: int| 0 <= k < vals@.len() ==> vals@[k] < 64,
            s@.len() == i,
            forall|k: int| 0 <= k < i ==> s@[k] == sixbit_char(vals@[k]),
        decreases n - i,
    {
        let c = char_of_value(vals[i]);
        string_push(&mut s, c);
        i += 1;
    }
    assert(s@ =~= sixbit_chars(vals@));
    Ok((s, 1 + total))
}

} // verus!
