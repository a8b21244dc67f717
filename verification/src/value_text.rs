//! Values as text, and from text.
use vstd::prelude::*;
use vstd::string::{StringExecFns, StringSliceAdditionalSpecFns};
use vstd::utf8::{encode_utf8, is_ascii_chars, is_ascii_chars_encode_utf8};
use rustc_hex::FromHex;
use crate::encoding_type::bytes_of_chars;
use crate::endian::{
    bound, elem_ok, elem_value, elems_bytes, elems_of, elems_ok, exec_bound, get_elem,
    lemma_be_value_bound, lemma_bound_positive, lemma_bounds, lemma_elem_round_trip,
    lemma_elems_bytes_at, lemma_elems_bytes_len, lemma_elems_bytes_push, put_elem,
};
use crate::error::{KbinError, KbinErrorView};
use crate::node_types::{lemma_byte_len, ElementKind, StandardType};
use crate::number_text::{
    decimal, int_text, lemma_decimal_reads_back, lemma_int_text_reads_back, parse_bounded,
    push_int, spec_parse_bounded,
};
use crate::text::string_push;
use crate::value::{
    lemma_array_round_trip, lemma_fixed_round_trip, lemma_fixed_wf, lemma_view_type, payloads,
    spec_from_bytes, Value, ValueView,
};

verus! {

/// The place of the first `sep` in `b`, or the length where there is none.
pub open spec fn first_index(b: Seq<u8>, sep: u8) -> int
    decreases b.len(),
{
    if b.len() == 0 {
        0
    } else if b[0] == sep {
        0
    } else {
        1 + first_index(b.drop_first(), sep)
    }
}

/// The parts of `b` between the separators. A text without a separator is
/// one part; two separators in a row have an empty part between them.
pub open spec fn split(b: Seq<u8>, sep: u8) -> Seq<Seq<u8>>
    decreases b.len(),
{
    let i = first_index(b, sep);
    if 0 <= i < b.len() {
        seq![b.take(i)] + split(b.skip(i + 1), sep)
    } else {
        seq![b]
    }
}

pub proof fn lemma_first_index(b: Seq<u8>, sep: u8, k: int)
    requires
        0 <= k <= b.len(),
        forall|j: int| 0 <= j < k ==> b[j] != sep,
        k < b.len() ==> b[k] == sep,
    ensures
        first_index(b, sep) == k,
    decreases b.len(),
{
    if k > 0 {
        let rest = b.drop_first();
        assert forall|j: int| 0 <= j < k - 1 implies rest[j] != sep by {
            assert(rest[j] == b[j + 1]);
        }
        lemma_first_index(rest, sep, k - 1);
    }
}

/// The byte sequences of a vector of byte vectors.
pub open spec fn parts_view(parts: Seq<Vec<u8>>) -> Seq<Seq<u8>> {
    Seq::new(parts.len(), |i: int| parts[i]@)
}

/// Splits a text at every separator.
pub fn split_bytes(s: &[u8], sep: u8) -> (r: Vec<Vec<u8>>)
    ensures
        parts_view(r@) == split(s@, sep),
{
    let n = s.len();
    let mut parts: Vec<Vec<u8>> = Vec::new();
    let mut cur: Vec<u8> = Vec::new();
    let mut start: usize = 0;
    let mut i: usize = 0;
    assert(s@.skip(0) =~= s@);
    assert(parts_view(parts@) =~= Seq::<Seq<u8>>::empty());
    while i < n
        invariant
            start <= i <= n,
            n == s@.len(),
            cur@ == s@.subrange(start as int, i as int),
            forall|j: int| start <= j < i ==> s@[j] != sep,
            split(s@, sep) == parts_view(parts@) + split(s@.skip(start as int), sep),
        decreases n - i,
    {
        let b = s[i];
        if b == sep {
            proof {
                let rest = s@.skip(start as int);
                lemma_first_index(rest, sep, i - start);
                assert(rest.take(i - start) =~= cur@);
                assert(rest.skip(i - start + 1) =~= s@.skip(i + 1));
                assert(parts_view(parts@.push(cur)) =~= parts_view(parts@) + seq![cur@]);
            }
            parts.push(cur);
            cur = Vec::new();
            start = i + 1;
            assert(cur@ =~= s@.subrange(start as int, start as int));
        } else {
            cur.push(b);
            assert(cur@ =~= s@.subrange(start as int, i + 1));
        }
        i += 1;
    }
    proof {
        let rest = s@.skip(start as int);
        lemma_first_index(rest, sep, n - start);
        assert(rest =~= cur@);
        assert(parts_view(parts@.push(cur)) =~= parts_view(parts@) + seq![cur@]);
    }
    parts.push(cur);
    parts
}

/// The least and the greatest number that an element can hold.
pub open spec fn elem_low(kind: ElementKind, size: nat) -> int {
    match kind {
        ElementKind::Signed => -(bound(size) as int) / 2,
        _ => 0,
    }
}

pub open spec fn elem_high(kind: ElementKind, size: nat) -> int {
    match kind {
        ElementKind::Signed => bound(size) / 2 - 1,
        ElementKind::Unsigned => bound(size) - 1,
        ElementKind::Bool => 1,
    }
}

/// The element that one part of a text spells: a boolean is `0` or `1`, a
/// number is decimal and within the range of its type.
pub open spec fn parse_part(kind: ElementKind, size: nat, part: Seq<u8>) -> Option<int> {
    if kind == ElementKind::Bool {
        if part == seq![48u8] {
            Some(0int)
        } else if part == seq![49u8] {
            Some(1int)
        } else {
            None
        }
    } else {
        spec_parse_bounded(part, elem_low(kind, size), elem_high(kind, size))
    }
}

/// The fault of a part that spells no element: a boolean that is a number
/// up to 255 is named as an invalid boolean, anything else is text that
/// does not parse.
pub open spec fn part_fault(
    t: StandardType,
    kind: ElementKind,
    part: Seq<u8>,
    text: Seq<char>,
) -> KbinErrorView {
    if kind == ElementKind::Bool && spec_parse_bounded(part, 0, 255) is Some {
        KbinErrorView::InvalidBoolean(spec_parse_bounded(part, 0, 255).unwrap() as u8)
    } else {
        KbinErrorView::StringParse { node_type: t, text }
    }
}

/// The elements that the parts spell, or the fault of the first part that
/// spells none.
pub open spec fn parse_parts(
    t: StandardType,
    kind: ElementKind,
    size: nat,
    parts: Seq<Seq<u8>>,
    text: Seq<char>,
) -> Result<Seq<int>, KbinErrorView>
    decreases parts.len(),
{
    if parts.len() == 0 {
        Ok(Seq::empty())
    } else {
        match parse_parts(t, kind, size, parts.drop_last(), text) {
            Err(e) => Err(e),
            Ok(front) => match parse_part(kind, size, parts.last()) {
                Some(v) => Ok(front.push(v)),
                None => Err(part_fault(t, kind, parts.last(), text)),
            },
        }
    }
}

/// A fault among the first parts is the fault of all.
pub proof fn lemma_parse_parts_fault(
    t: StandardType,
    kind: ElementKind,
    size: nat,
    parts: Seq<Seq<u8>>,
    text: Seq<char>,
    k: int,
)
    requires
        0 <= k <= parts.len(),
        parse_parts(t, kind, size, parts.take(k), text) is Err,
    ensures
        parse_parts(t, kind, size, parts, text) == parse_parts(t, kind, size, parts.take(k), text),
    decreases parts.len() - k,
{
    if k == parts.len() {
        assert(parts.take(k) =~= parts);
    } else {
        assert(parts.take(k + 1).drop_last() =~= parts.take(k));
        lemma_parse_parts_fault(t, kind, size, parts, text, k + 1);
    }
}

/// The separator between the elements of one value: a dot for an address,
/// a space for every other type.
pub open spec fn elem_sep(t: StandardType) -> u8 {
    if t == StandardType::Ip4 {
        46
    } else {
        32
    }
}

/// The parts of a value in a text of values separated by spaces: an
/// address is one part, every other value has one part for each element.
pub open spec fn parts_per_item(t: StandardType) -> nat {
    if t == StandardType::Ip4 {
        1
    } else {
        t.spec_count() as nat
    }
}

/// The parts of one value: those between the dots of an address, the group
/// itself for every other type.
pub open spec fn item_parts(t: StandardType, group: Seq<Seq<u8>>) -> Seq<Seq<u8>> {
    if t == StandardType::Ip4 && group.len() == 1 {
        split(group[0], 46)
    } else {
        group
    }
}

/// The elements that a group of parts spells as one value of type `t`.
pub open spec fn item_elems(t: StandardType, group: Seq<Seq<u8>>, text: Seq<char>) -> Result<
    Seq<int>,
    KbinErrorView,
> {
    let parts = item_parts(t, group);
    if parts.len() != t.spec_count() {
        Err(
            KbinErrorView::SizeMismatch {
                node_type: t,
                expected: t.spec_count(),
                found: parts.len() as usize,
            },
        )
    } else {
        parse_parts(t, t.spec_kind().unwrap(), t.spec_size() as nat, parts, text)
    }
}

/// The values that the first `count` groups of `per` parts spell, or the
/// fault of the first group that spells none.
pub open spec fn parse_items(
    t: StandardType,
    all: Seq<Seq<u8>>,
    per: nat,
    count: nat,
    text: Seq<char>,
) -> Result<Seq<ValueView>, KbinErrorView>
    decreases count,
{
    if count == 0 {
        Ok(Seq::empty())
    } else {
        match parse_items(t, all, per, (count - 1) as nat, text) {
            Err(e) => Err(e),
            Ok(front) => match item_elems(
                t,
                all.subrange((count - 1) * per, (count * per) as int),
                text,
            ) {
                Err(e) => Err(e),
                Ok(es) => Ok(front.push(ValueView::Fixed(t, es))),
            },
        }
    }
}

/// A fault among the first groups is the fault of all.
pub proof fn lemma_parse_items_fault(
    t: StandardType,
    all: Seq<Seq<u8>>,
    per: nat,
    count: nat,
    text: Seq<char>,
    k: nat,
)
    requires
        k <= count,
        parse_items(t, all, per, k, text) is Err,
    ensures
        parse_items(t, all, per, count, text) == parse_items(t, all, per, k, text),
    decreases count - k,
{
    if k < count {
        lemma_parse_items_fault(t, all, per, count, text, k + 1);
    }
}

/// Hexadecimal text as `rustc_hex` reads it: the value of a digit in
/// either case.
pub open spec fn hex_digit(b: u8) -> Option<u8> {
    if 48 <= b <= 57 {
        Some((b - 48) as u8)
    } else if 65 <= b <= 70 {
        Some((b - 65 + 10) as u8)
    } else if 97 <= b <= 102 {
        Some((b - 97 + 10) as u8)
    } else {
        None
    }
}

/// A space, a tabulator or a line break, which hexadecimal text may hold
/// anywhere.
pub open spec fn hex_space(b: u8) -> bool {
    b == 32 || b == 13 || b == 10 || b == 9
}

/// The digits of a hexadecimal text, without the spaces; `None` where it
/// holds anything else.
pub open spec fn hex_digits(text: Seq<u8>) -> Option<Seq<u8>>
    decreases text.len(),
{
    if text.len() == 0 {
        Some(Seq::empty())
    } else {
        match hex_digits(text.drop_last()) {
            None => None,
            Some(front) => if hex_space(text.last()) {
                Some(front)
            } else {
                match hex_digit(text.last()) {
                    Some(d) => Some(front.push(d)),
                    None => None,
                }
            },
        }
    }
}

/// The bytes that a hexadecimal text spells: two digits each; `None` where
/// the text holds something else or an odd number of digits.
pub open spec fn spec_from_hex(text: Seq<u8>) -> Option<Seq<u8>> {
    match hex_digits(text) {
        Some(d) => if d.len() % 2 == 0 {
            Some(Seq::new(d.len() / 2, |i: int| (d[2 * i] * 16 + d[2 * i + 1]) as u8))
        } else {
            None
        },
        None => None,
    }
}

/// `rustc_hex::FromHex::from_hex` on a `str`, collected into a vector: the
/// bytes that the hexadecimal digits spell, two digits to the byte, with
/// spaces, tabulators and line breaks passed over. It fails on any other
/// character and on an odd number of digits.
#[verifier::external_body]
fn from_hex(text: &str) -> (r: Option<Vec<u8>>)
    ensures
        match spec_from_hex(text.spec_bytes()) {
            Some(b) => r matches Some(v) && v@ == b,
            None => r is None,
        },
{
    let decoded: Result<Vec<u8>, _> = text.from_hex();
    decoded.ok()
}

/// The lower-case hexadecimal digit of a value below 16.
pub open spec fn hex_char(d: u8) -> char {
    if d < 10 {
        (48 + d) as char
    } else {
        (97 + (d - 10)) as char
    }
}

/// Bytes as hexadecimal text: two lower-case digits each, nothing between.
pub open spec fn hex_text(b: Seq<u8>) -> Seq<char> {
    Seq::new(2 * b.len(), |i: int| hex_char(if i % 2 == 0 { b[i / 2] / 16 } else { b[i / 2] % 16 }))
}

/// The texts joined with the separator between them.
pub open spec fn join_texts(parts: Seq<Seq<char>>, sep: char) -> Seq<char>
    decreases parts.len(),
{
    if parts.len() == 0 {
        Seq::empty()
    } else if parts.len() == 1 {
        parts[0]
    } else {
        join_texts(parts.drop_last(), sep) + seq![sep] + parts.last()
    }
}

/// The texts of the elements.
pub open spec fn elem_texts(es: Seq<int>) -> Seq<Seq<char>> {
    Seq::new(es.len(), |i: int| int_text(es[i]))
}

/// The text of a value: its elements in decimal with a space between them,
/// an address with dots, a boolean as `0` or `1`, bytes in hexadecimal, an
/// array as its items with a space between them. Floating-point numbers
/// have no text here, and a subtree has the empty one.
pub open spec fn spec_value_text(v: ValueView) -> Option<Seq<char>>
    decreases v,
{
    match v {
        ValueView::Fixed(t, es) => if t.spec_is_float() {
            None
        } else {
            Some(join_texts(elem_texts(es), elem_sep(t) as char))
        },
        ValueView::Binary(b) => Some(hex_text(b)),
        ValueView::String(s) => Some(s),
        ValueView::Attribute(s) => Some(s),
        ValueView::Array(_, vs) => match spec_item_texts(vs) {
            Some(parts) => Some(join_texts(parts, ' ')),
            None => None,
        },
        ValueView::Node(_) => Some(Seq::empty()),
    }
}

/// The texts of the values; `None` where one of them has none.
pub open spec fn spec_item_texts(vs: Seq<ValueView>) -> Option<Seq<Seq<char>>>
    decreases vs,
{
    if vs.len() == 0 {
        Some(Seq::empty())
    } else {
        match (spec_item_texts(vs.drop_last()), spec_value_text(vs.last())) {
            (Some(front), Some(last)) => Some(front.push(last)),
            _ => None,
        }
    }
}

/// The value that a text spells as type `t`, or as an array of `arr_count`
/// values of it. Text and attribute values are the text itself, bytes are
/// hexadecimal, and the structural types have no value. A value with one
/// element is the whole text; the elements of a vector stand between
/// spaces, those of an address between dots, the values of an array
/// between spaces. Floating-point text is not read here.
pub open spec fn spec_from_text(
    t: StandardType,
    bytes: Seq<u8>,
    text: Seq<char>,
    is_array: bool,
    arr_count: usize,
) -> Result<ValueView, KbinErrorView> {
    if is_array {
        if !t.is_fixed() || arr_count == 0 {
            Err(KbinErrorView::InvalidState)
        } else if t.spec_is_float() {
            Err(KbinErrorView::StringParse { node_type: t, text })
        } else {
            let all = split(bytes, 32);
            let per = parts_per_item(t);
            if all.len() % per != 0 || all.len() / per != arr_count {
                Err(
                    KbinErrorView::SizeMismatch {
                        node_type: t,
                        expected: arr_count,
                        found: (all.len() / per) as usize,
                    },
                )
            } else {
                match parse_items(t, all, per, arr_count as nat, text) {
                    Err(e) => Err(e),
                    Ok(items) => Ok(ValueView::Array(t, items)),
                }
            }
        }
    } else if t == StandardType::String {
        Ok(ValueView::String(text))
    } else if t == StandardType::Attribute {
        Ok(ValueView::Attribute(text))
    } else if t == StandardType::Binary {
        match spec_from_hex(bytes) {
            Some(b) => Ok(ValueView::Binary(b)),
            None => Err(KbinErrorView::HexError),
        }
    } else if !t.is_fixed() {
        Err(KbinErrorView::InvalidState)
    } else if t.spec_is_float() {
        Err(KbinErrorView::StringParse { node_type: t, text })
    } else {
        match item_elems(t, whole_group(t, bytes), text) {
            Err(e) => Err(e),
            Ok(es) => Ok(ValueView::Fixed(t, es)),
        }
    }
}

/// The parts of a text that holds one value: the text itself for a value
/// of one element and for an address, the parts between spaces for a
/// vector.
pub open spec fn whole_group(t: StandardType, bytes: Seq<u8>) -> Seq<Seq<u8>> {
    if t.spec_count() == 1 || t == StandardType::Ip4 {
        seq![bytes]
    } else {
        split(bytes, 32)
    }
}

/// Reads one part as an element.
fn parse_elem_part(kind: ElementKind, size: usize, part: &[u8]) -> (r: Option<i128>)
    requires
        size == 1 || size == 2 || size == 4 || size == 8,
    ensures
        match parse_part(kind, size as nat, part@) {
            Some(v) => r == Some(v as i128) && elem_ok(kind, size as nat, v),
            None => r is None,
        },
{
    match kind {
        ElementKind::Bool => {
            if part.len() == 1 && part[0] == 48 {
                assert(part@ =~= seq![48u8]);
                Some(0)
            } else if part.len() == 1 && part[0] == 49 {
                assert(part@ =~= seq![49u8]);
                Some(1)
            } else {
                proof {
                    if part@ == seq![48u8] || part@ == seq![49u8] {
                        assert(part@.len() == 1);
                        assert(part@[0] == 48 || part@[0] == 49);
                    }
                }
                None
            }
        },
        ElementKind::Signed => {
            let b = exec_bound(size);
            proof {
                lemma_bounds();
            }
            parse_bounded(part, -b / 2, b / 2 - 1)
        },
        ElementKind::Unsigned => {
            let b = exec_bound(size);
            proof {
                lemma_bounds();
            }
            parse_bounded(part, 0, b - 1)
        },
    }
}

/// The fault of a part that spells no element.
fn fault_of_part(t: StandardType, kind: ElementKind, part: &[u8], input: &str) -> (r: KbinError)
    ensures
        r@ == part_fault(t, kind, part@, input@),
{
    match kind {
        ElementKind::Bool => match parse_bounded(part, 0, 255) {
            Some(n) => KbinError::InvalidBoolean(n as u8),
            None => KbinError::StringParse { node_type: t, text: input.to_owned() },
        },
        _ => KbinError::StringParse { node_type: t, text: input.to_owned() },
    }
}

/// Reads parts as the elements of one value and appends their bytes.
fn parse_parts_into(
    t: StandardType,
    parts: &[Vec<u8>],
    lo: usize,
    hi: usize,
    input: &str,
    out: &mut Vec<u8>,
) -> (r: Result<(), KbinError>)
    requires
        t.is_fixed(),
        lo <= hi <= parts@.len(),
    ensures
        match parse_parts(
            t,
            t.spec_kind().unwrap(),
            t.spec_size() as nat,
            parts_view(parts@).subrange(lo as int, hi as int),
            input@,
        ) {
            Ok(es) => r is Ok && final(out)@ == old(out)@ + elems_bytes(t.spec_size() as nat, es)
                && elems_ok(t.spec_kind().unwrap(), t.spec_size() as nat, es) && es.len() == hi
                - lo,
            Err(e) => r matches Err(f) && f@ == e,
        },
{
    let kind = match t.kind() {
        Some(k) => k,
        None => ElementKind::Unsigned,
    };
    let size = t.size();
    let ghost group = parts_view(parts@).subrange(lo as int, hi as int);
    let ghost mut es: Seq<int> = Seq::empty();
    let mut k: usize = lo;
    proof {
        lemma_byte_len(t);
        assert(group.take(0) =~= Seq::<Seq<u8>>::empty());
    }
    while k < hi
        invariant
            lo <= k <= hi <= parts@.len(),
            t.is_fixed(),
            kind == t.spec_kind().unwrap(),
            size == t.spec_size(),
            size == 1 || size == 2 || size == 4 || size == 8,
            group == parts_view(parts@).subrange(lo as int, hi as int),
            parse_parts(t, kind, size as nat, group.take(k - lo), input@) == Ok::<
                Seq<int>,
                KbinErrorView,
            >(es),
            es.len() == k - lo,
            elems_ok(kind, size as nat, es),
            out@ == old(out)@ + elems_bytes(size as nat, es),
        decreases hi - k,
    {
        let part = parts[k].as_slice();
        proof {
            assert(group.take(k - lo + 1).drop_last() =~= group.take(k - lo));
            assert(group.take(k - lo + 1).last() == part@);
        }
        match parse_elem_part(kind, size, part) {
            Some(v) => {
                proof {
                    lemma_bounds();
                    lemma_elems_bytes_push(size as nat, es, v as int);
                    assert forall|i: int| 0 <= i < es.push(v as int).len() implies elem_ok(
                        kind,
                        size as nat,
                        #[trigger] es.push(v as int)[i],
                    ) by {
                        if i < es.len() {
                            assert(es.push(v as int)[i] == es[i]);
                        }
                    }
                    es = es.push(v as int);
                }
                put_elem(out, v, size);
            },
            None => {
                proof {
                    lemma_parse_parts_fault(t, kind, size as nat, group, input@, k - lo + 1);
                }
                return Err(fault_of_part(t, kind, part, input));
            },
        }
        k += 1;
    }
    proof {
        assert(group.take(k - lo) =~= group);
    }
    Ok(())
}

/// Reads a group of parts as one value and appends its bytes.
fn parse_item_into(
    t: StandardType,
    parts: &[Vec<u8>],
    lo: usize,
    hi: usize,
    input: &str,
    out: &mut Vec<u8>,
) -> (r: Result<(), KbinError>)
    requires
        t.is_fixed(),
        lo <= hi <= parts@.len(),
    ensures
        match item_elems(t, parts_view(parts@).subrange(lo as int, hi as int), input@) {
            Ok(es) => r is Ok && final(out)@ == old(out)@ + elems_bytes(t.spec_size() as nat, es)
                && (ValueView::Fixed(t, es)).is_fixed_of(t),
            Err(e) => r matches Err(f) && f@ == e,
        },
{
    let count = t.count();
    let ghost group = parts_view(parts@).subrange(lo as int, hi as int);
    match t {
        StandardType::Ip4 => {
            if hi - lo == 1 {
                let octets = split_bytes(parts[lo].as_slice(), 46);
                assert(group[0] == parts@[lo as int]@);
                if octets.len() != count {
                    return Err(
                        KbinError::SizeMismatch {
                            node_type: t,
                            expected: count,
                            found: octets.len(),
                        },
                    );
                }
                assert(parts_view(octets@).subrange(0, octets@.len() as int) =~= parts_view(
                    octets@,
                ));
                return parse_parts_into(t, octets.as_slice(), 0, octets.len(), input, out);
            }
        },
        _ => {},
    }
    if hi - lo != count {
        return Err(KbinError::SizeMismatch { node_type: t, expected: count, found: hi - lo });
    }
    parse_parts_into(t, parts, lo, hi, input, out)
}

/// Reads groups of parts as the values of an array.
fn parse_array(t: StandardType, all: &[Vec<u8>], per: usize, arr_count: usize, input: &str) -> (r:
    Result<Value, KbinError>)
    requires
        t.is_fixed(),
        per == parts_per_item(t),
        all@.len() == arr_count * per,
    ensures
        match parse_items(t, parts_view(all@), per as nat, arr_count as nat, input@) {
            Ok(items) => r matches Ok(x) && x@ == ValueView::Array(t, items),
            Err(e) => r matches Err(f) && f@ == e,
        },
{
    let mut out: Vec<u8> = Vec::new();
    let ghost mut items: Seq<ValueView> = Seq::empty();
    let mut j: usize = 0;
    let mut lo: usize = 0;
    let n = all.len();
    proof {
        lemma_byte_len(t);
    }
    while j < arr_count
        invariant
            j <= arr_count,
            n == all@.len(),
            lo == j * per,
            per >= 1,
            per == parts_per_item(t),
            t.is_fixed(),
            all@.len() == arr_count * per,
            parse_items(t, parts_view(all@), per as nat, j as nat, input@) == Ok::<
                Seq<ValueView>,
                KbinErrorView,
            >(items),
            items.len() == j,
            forall|i: int| 0 <= i < items.len() ==> (#[trigger] items[i]).is_fixed_of(t),
            payloads(items) == Some(out@),
        decreases arr_count - j,
    {
        assert((j + 1) * per == lo + per && lo + per <= arr_count * per) by (nonlinear_arith)
            requires
                lo == j * per,
                j < arr_count,
                per >= 1,
        ;
        let ghost before = out@;
        match parse_item_into(t, all, lo, lo + per, input, &mut out) {
            Ok(()) => {
                proof {
                    let es = item_elems(
                        t,
                        parts_view(all@).subrange(lo as int, lo + per),
                        input@,
                    )->Ok_0;
                    let item = ValueView::Fixed(t, es);
                    let next = items.push(item);
                    assert(next.drop_last() =~= items);
                    assert(next.last() == item);
                    assert(item.payload() == Some(elems_bytes(t.spec_size() as nat, es)));
                    assert(payloads(next) == Some(before + elems_bytes(t.spec_size() as nat, es)));
                    assert forall|i: int| 0 <= i < next.len() implies (#[trigger] next[i]).is_fixed_of(
                        t,
                    ) by {
                        if i < items.len() {
                            assert(next[i] == items[i]);
                        }
                    }
                    items = next;
                }
            },
            Err(e) => {
                proof {
                    lemma_parse_items_fault(
                        t,
                        parts_view(all@),
                        per as nat,
                        arr_count as nat,
                        input@,
                        (j + 1) as nat,
                    );
                }
                return Err(e);
            },
        }
        j += 1;
        lo += per;
    }
    proof {
        lemma_array_round_trip(ValueView::Array(t, items));
    }
    match Value::from_standard_type(t, true, out.as_slice()) {
        Ok(Some(v)) => Ok(v),
        Ok(None) => Err(KbinError::InvalidState),
        Err(e) => Err(e),
    }
}

/// Reads one value of a fixed-size type from its text.
fn parse_single(t: StandardType, input: &str) -> (r: Result<Value, KbinError>)
    requires
        t.is_fixed(),
    ensures
        match item_elems(t, whole_group(t, input.spec_bytes()), input@) {
            Ok(es) => r matches Ok(x) && x@ == ValueView::Fixed(t, es),
            Err(e) => r matches Err(f) && f@ == e,
        },
{
    let bytes = input.as_bytes();
    let single = match t {
        StandardType::Ip4 => true,
        _ => t.count() == 1,
    };
    let group = if single {
        let mut g: Vec<Vec<u8>> = Vec::new();
        g.push(vstd::slice::slice_to_vec(bytes));
        assert(parts_view(g@) =~= seq![bytes@]);
        g
    } else {
        split_bytes(bytes, 32)
    };
    assert(parts_view(group@).subrange(0, group@.len() as int) =~= whole_group(t, bytes@));
    let mut out: Vec<u8> = Vec::new();
    match parse_item_into(t, group.as_slice(), 0, group.len(), input, &mut out) {
        Ok(()) => {},
        Err(e) => {
            return Err(e);
        },
    }
    proof {
        let es = item_elems(t, whole_group(t, bytes@), input@)->Ok_0;
        lemma_fixed_round_trip(ValueView::Fixed(t, es), t);
        assert(out@ =~= elems_bytes(t.spec_size() as nat, es));
    }
    match Value::from_standard_type(t, false, out.as_slice()) {
        Ok(Some(v)) => Ok(v),
        Ok(None) => Err(KbinError::InvalidState),
        Err(e) => Err(e),
    }
}

/// The elements that bit patterns stand for.
pub open spec fn bits_ints(bits: Seq<u64>) -> Seq<int> {
    Seq::new(bits.len(), |i: int| bits[i] as int)
}

/// Whether every bit pattern fits an element of `size` bytes.
pub open spec fn bits_fit(size: nat, bits: Seq<u64>) -> bool {
    forall|i: int| 0 <= i < bits.len() ==> (#[trigger] bits[i]) < bound(size)
}

/// The floating-point value of type `t` whose elements have these bit
/// patterns, or the array of such values. The type must be a
/// floating-point type and each pattern must fit an element of it. A value
/// has as many patterns as its type has elements; an array has
/// `arr_count` times as many, and `arr_count` is not zero. The value is
/// the one that the bytes of the patterns hold.
pub open spec fn spec_from_float_bits(
    t: StandardType,
    bits: Seq<u64>,
    is_array: bool,
    arr_count: usize,
) -> Result<ValueView, KbinError> {
    let count = t.spec_count() as nat;
    if !t.spec_is_float() || !bits_fit(t.spec_size() as nat, bits) {
        Err(KbinError::InvalidState)
    } else if is_array && arr_count == 0 {
        Err(KbinError::InvalidState)
    } else if is_array && (bits.len() % count != 0 || bits.len() / count != arr_count) {
        Err(
            KbinError::SizeMismatch {
                node_type: t,
                expected: arr_count,
                found: (bits.len() / count) as usize,
            },
        )
    } else if !is_array && bits.len() != count {
        Err(
            KbinError::SizeMismatch {
                node_type: t,
                expected: t.spec_count(),
                found: bits.len() as usize,
            },
        )
    } else {
        match spec_from_bytes(t, is_array, elems_bytes(t.spec_size() as nat, bits_ints(bits))) {
            Ok(Some(v)) => Ok(v),
            Ok(None) => Err(KbinError::InvalidState),
            Err(e) => Err(e),
        }
    }
}

/// The elements of a floating-point value, or of an array of them: the
/// elements that its payload holds. Other values have none of this kind.
pub open spec fn spec_float_bits(v: ValueView) -> Option<Seq<int>> {
    let t = v.standard_type();
    if !t.spec_is_float() {
        None
    } else {
        match v.payload() {
            Some(b) => Some(elems_of(ElementKind::Unsigned, t.spec_size() as nat, b)),
            None => None,
        }
    }
}

/// A floating-point value that is no array has the bit patterns as its
/// elements.
pub proof fn lemma_float_bits_value(t: StandardType, bits: Seq<u64>)
    requires
        t.spec_is_float(),
        bits_fit(t.spec_size() as nat, bits),
        bits.len() == t.spec_count(),
    ensures
        spec_from_float_bits(t, bits, false, 0) == Ok::<ValueView, KbinError>(
            ValueView::Fixed(t, bits_ints(bits)),
        ),
{
    let v = ValueView::Fixed(t, bits_ints(bits));
    assert forall|i: int| 0 <= i < bits.len() implies elem_ok(
        ElementKind::Unsigned,
        t.spec_size() as nat,
        #[trigger] bits_ints(bits)[i],
    ) by {
        assert(bits[i] < bound(t.spec_size() as nat));
    }
    lemma_fixed_round_trip(v, t);
}

/// An array of floating-point values has a value for each group of bit
/// patterns, as many as it names.
pub proof fn lemma_float_bits_array(t: StandardType, bits: Seq<u64>, n: usize)
    requires
        t.spec_is_float(),
        bits_fit(t.spec_size() as nat, bits),
        n > 0,
        bits.len() == n * t.spec_count(),
    ensures
        spec_from_float_bits(t, bits, true, n) matches Ok(ValueView::Array(u, vs)) && u == t
            && vs.len() == n,
{
    let size = t.spec_size() as nat;
    let count = t.spec_count() as nat;
    let bytes = elems_bytes(size, bits_ints(bits));
    lemma_byte_len(t);
    lemma_elems_bytes_len(size, bits_ints(bits));
    assert(bits.len() % count == 0 && bits.len() / count == n) by (nonlinear_arith)
        requires
            bits.len() == n * count,
            count >= 1,
    ;
    assert(bytes.len() == n * (size * count)) by (nonlinear_arith)
        requires
            bytes.len() == bits.len() * size,
            bits.len() == n * count,
    ;
    assert(bytes.len() % (size * count) == 0 && bytes.len() / (size * count) == n)
        by (nonlinear_arith)
        requires
            bytes.len() == n * (size * count),
            size * count >= 1,
    ;
}

impl Value {
    /// Makes a floating-point value, or an array of them, of the bit
    /// patterns of its elements.
    pub fn from_float_bits(
        node_type: StandardType,
        bits: &[u64],
        is_array: bool,
        arr_count: usize,
    ) -> (r: Result<Value, KbinError>)
        ensures
            match spec_from_float_bits(node_type, bits@, is_array, arr_count) {
                Ok(v) => r matches Ok(x) && x@ == v,
                Err(e) => r == Err::<Value, KbinError>(e),
            },
    {
        if !node_type.is_float() {
            return Err(KbinError::InvalidState);
        }
        let size = node_type.size();
        let count = node_type.count();
        assert((size == 4 || size == 8) && 1 <= count <= 4);
        let ghost ints = bits_ints(bits@);
        let mut bytes: Vec<u8> = Vec::new();
        let mut i: usize = 0;
        proof {
            lemma_bounds();
            assert(ints.take(0) =~= Seq::<int>::empty());
        }
        while i < bits.len()
            invariant
                i <= bits@.len(),
                size == 4 || size == 8,
                node_type.spec_is_float(),
                size == node_type.spec_size(),
                ints == bits_ints(bits@),
                bytes@ == elems_bytes(size as nat, ints.take(i as int)),
                forall|j: int| 0 <= j < i ==> (#[trigger] bits@[j]) < bound(size as nat),
                bound(4) == 0x1_0000_0000,
                bound(8) == 0x1_0000_0000_0000_0000,
            decreases bits@.len() - i,
        {
            let b = bits[i];
            if size == 4 && b > 0xFFFF_FFFF {
                assert(!(bits@[i as int] < bound(size as nat)));
                return Err(KbinError::InvalidState);
            }
            put_elem(&mut bytes, b as i128, size);
            proof {
                assert(ints.take(i + 1) =~= ints.take(i as int).push(b as int));
                lemma_elems_bytes_push(size as nat, ints.take(i as int), b as int);
            }
            i += 1;
        }
        assert(ints.take(i as int) =~= ints);
        if is_array {
            if arr_count == 0 {
                return Err(KbinError::InvalidState);
            }
            if bits.len() % count != 0 || bits.len() / count != arr_count {
                return Err(
                    KbinError::SizeMismatch {
                        node_type,
                        expected: arr_count,
                        found: bits.len() / count,
                    },
                );
            }
        } else if bits.len() != count {
            return Err(
                KbinError::SizeMismatch { node_type, expected: count, found: bits.len() },
            );
        }
        match Value::from_standard_type(node_type, is_array, bytes.as_slice()) {
            Ok(Some(v)) => Ok(v),
            Ok(None) => Err(KbinError::InvalidState),
            Err(e) => Err(e),
        }
    }

    /// The bit patterns of the elements of a floating-point value, or of
    /// an array of them, in their order.
    pub fn float_bits(&self) -> (r: Option<Vec<u64>>)
        ensures
            match spec_float_bits(self@) {
                Some(es) => r matches Some(v) && bits_ints(v@) == es,
                None => r is None,
            },
    {
        proof {
            lemma_view_type(self);
        }
        let t = self.standard_type();
        if !t.is_float() {
            return None;
        }
        let bytes = match self.to_bytes() {
            Ok(b) => b,
            Err(_) => {
                return None;
            },
        };
        let size = t.size();
        assert(size == 4 || size == 8);
        let len = bytes.len();
        let n = len / size;
        let mut out: Vec<u64> = Vec::new();
        let mut k: usize = 0;
        proof {
            lemma_bounds();
        }
        while k < n
            invariant
                k <= n,
                len == bytes@.len(),
                n == bytes@.len() / (size as nat),
                size == 4 || size == 8,
                out@.len() == k,
                forall|j: int|
                    0 <= j < k ==> (#[trigger] out@[j]) as int == elem_value(
                        ElementKind::Unsigned,
                        bytes@.subrange(j * size, j * size + size),
                    ),
                bound(4) == 0x1_0000_0000,
                bound(8) == 0x1_0000_0000_0000_0000,
            decreases n - k,
        {
            assert((k + 1) * size <= bytes@.len()) by (nonlinear_arith)
                requires
                    k + 1 <= n,
                    n == bytes@.len() / (size as nat),
                    size > 0,
            ;
            assert((k + 1) * size == k * size + size) by (nonlinear_arith);
            assert(0 <= k * size) by (nonlinear_arith);
            let e = get_elem(bytes.as_slice(), k * size, size, false);
            proof {
                lemma_be_value_bound(bytes@.subrange(k * size, k * size + size));
            }
            out.push(e as u64);
            k += 1;
        }
        assert(bits_ints(out@) =~= elems_of(ElementKind::Unsigned, size as nat, bytes@));
        Some(out)
    }

    /// Reads a value of a type from its text.
    pub fn from_string(node_type: StandardType, input: &str, is_array: bool, arr_count: usize) -> (r:
        Result<Value, KbinError>)
        ensures
            match spec_from_text(node_type, input.spec_bytes(), input@, is_array, arr_count) {
                Ok(v) => r matches Ok(x) && x@ == v,
                Err(e) => r matches Err(f) && f@ == e,
            },
    {
        if is_array {
            if node_type.kind().is_none() || arr_count == 0 {
                return Err(KbinError::InvalidState);
            }
            if node_type.is_float() {
                return Err(KbinError::StringParse { node_type, text: input.to_owned() });
            }
            let all = split_bytes(input.as_bytes(), 32);
            let per = match node_type {
                StandardType::Ip4 => 1,
                _ => node_type.count(),
            };
            proof {
                lemma_byte_len(node_type);
            }
            if all.len() % per != 0 || all.len() / per != arr_count {
                return Err(
                    KbinError::SizeMismatch {
                        node_type,
                        expected: arr_count,
                        found: all.len() / per,
                    },
                );
            }
            assert(all@.len() == arr_count * per) by (nonlinear_arith)
                requires
                    all@.len() % (per as nat) == 0,
                    all@.len() / (per as nat) == arr_count,
                    per >= 1,
            ;
            return parse_array(node_type, all.as_slice(), per, arr_count, input);
        }
        match node_type {
            StandardType::String => Ok(Value::String(input.to_owned())),
            StandardType::Attribute => Ok(Value::Attribute(input.to_owned())),
            StandardType::Binary => match from_hex(input) {
                Some(b) => Ok(Value::Binary(b)),
                None => Err(KbinError::HexError),
            },
            _ => {
                if node_type.kind().is_none() {
                    return Err(KbinError::InvalidState);
                }
                if node_type.is_float() {
                    return Err(KbinError::StringParse { node_type, text: input.to_owned() });
                }
                parse_single(node_type, input)
            },
        }
    }
}

/// Where one value has no text, the values have none.
pub proof fn lemma_item_texts_none(vs: Seq<ValueView>, k: int)
    requires
        0 <= k < vs.len(),
        spec_value_text(vs[k]) is None,
    ensures
        spec_item_texts(vs) is None,
    decreases vs.len(),
{
    if k < vs.len() - 1 {
        lemma_item_texts_none(vs.drop_last(), k);
    }
}

/// Joining one more text puts the separator before it, unless it is the
/// first.
pub proof fn lemma_join_push(parts: Seq<Seq<char>>, last: Seq<char>, sep: char)
    ensures
        join_texts(parts.push(last), sep) == if parts.len() == 0 {
            last
        } else {
            join_texts(parts, sep) + seq![sep] + last
        },
{
    assert(parts.push(last).drop_last() =~= parts);
}

/// The lower-case hexadecimal digit of a value below 16.
fn hex_char_of(d: u8) -> (r: char)
    requires
        d < 16,
    ensures
        r == hex_char(d),
{
    if d < 10 {
        (48 + d) as char
    } else {
        (97 + (d - 10)) as char
    }
}

/// Appends bytes as hexadecimal text.
fn push_hex(out: &mut String, bytes: &[u8])
    ensures
        final(out)@ == old(out)@ + hex_text(bytes@),
{
    let mut i: usize = 0;
    while i < bytes.len()
        invariant
            i <= bytes@.len(),
            out@ == old(out)@ + hex_text(bytes@.take(i as int)),
        decreases bytes@.len() - i,
    {
        let b = bytes[i];
        string_push(out, hex_char_of(b / 16));
        string_push(out, hex_char_of(b % 16));
        assert(out@ =~= old(out)@ + hex_text(bytes@.take(i + 1))) by {
            let a = hex_text(bytes@.take(i as int));
            let c = hex_text(bytes@.take(i + 1));
            assert(c.len() == a.len() + 2);
            assert forall|j: int| 0 <= j < a.len() implies c[j] == a[j] by {
                assert(bytes@.take(i + 1)[j / 2] == bytes@.take(i as int)[j / 2]);
            }
            assert(c[a.len() as int] == hex_char(b / 16));
            assert(c[(a.len() + 1) as int] == hex_char(b % 16));
        }
        i += 1;
    }
    assert(bytes@.take(i as int) =~= bytes@);
}

/// Appends the elements of a fixed-size value that is no floating-point
/// number.
fn push_fixed_text(v: &Value, out: &mut String)
    requires
        v@ is Fixed,
        !v.spec_standard_type().spec_is_float(),
    ensures
        final(out)@ == old(out)@ + spec_value_text(v@).unwrap(),
{
    let t = v.standard_type();
    let ghost es = v@->Fixed_1;
    proof {
        lemma_view_type(v);
        lemma_fixed_wf(v);
        lemma_byte_len(t);
        lemma_fixed_round_trip(v@, t);
        lemma_elems_bytes_len(t.spec_size() as nat, es);
    }
    let bytes = match v.to_bytes() {
        Ok(b) => b,
        Err(_) => Vec::new(),
    };
    let size = t.size();
    let count = t.count();
    let signed = match t.kind() {
        Some(ElementKind::Signed) => true,
        _ => false,
    };
    let sep = match t {
        StandardType::Ip4 => '.',
        _ => ' ',
    };
    let ghost texts = elem_texts(es);
    let mut k: usize = 0;
    let mut pos: usize = 0;
    let n = bytes.len();
    proof {
        assert(texts.take(0) =~= Seq::<Seq<char>>::empty());
        assert(sep == elem_sep(t) as char);
    }
    while k < count
        invariant
            k <= count,
            pos == k * size,
            n == bytes@.len(),
            count == es.len(),
            texts == elem_texts(es),
            size == t.spec_size(),
            size == 1 || size == 2 || size == 4 || size == 8,
            t.is_fixed(),
            signed == (t.spec_kind() == Some(ElementKind::Signed)),
            elems_ok(t.spec_kind().unwrap(), size as nat, es),
            bytes@ == elems_bytes(size as nat, es),
            bytes@.len() == es.len() * size,
            out@ == old(out)@ + join_texts(texts.take(k as int), sep),
        decreases count - k,
    {
        proof {
            lemma_elems_bytes_at(size as nat, es, k as int);
            lemma_elem_round_trip(t.spec_kind().unwrap(), size as nat, es[k as int]);
            lemma_join_push(texts.take(k as int), texts[k as int], sep);
            assert(texts.take(k as int).push(texts[k as int]) =~= texts.take(k + 1));
            lemma_bounds();
        }
        assert(pos + size <= n);
        if k > 0 {
            string_push(out, sep);
        }
        let e = get_elem(bytes.as_slice(), pos, size, signed);
        assert(e == es[k as int]);
        push_int(out, e);
        assert(out@ =~= old(out)@ + join_texts(texts.take(k + 1), sep));
        assert((k + 1) * size == pos + size) by (nonlinear_arith)
            requires
                pos == k * size,
        ;
        k += 1;
        pos += size;
    }
    assert(texts.take(k as int) =~= texts);
}

/// The views of the values.
pub open spec fn values_view(values: Seq<Value>) -> Seq<ValueView> {
    Seq::new(values.len(), |i: int| values[i]@)
}

impl Value {
    /// Appends the text of the value and says whether it has one. A value
    /// without a text leaves behind what was appended before it was found.
    pub fn push_text(&self, out: &mut String) -> (r: bool)
        ensures
            match spec_value_text(self@) {
                Some(t) => r && final(out)@ == old(out)@ + t,
                None => !r,
            },
            !r && !(self@ is Array) ==> final(out)@ == old(out)@,
        decreases self,
    {
        match self {
            Value::String(s) => {
                out.append(s.as_str());
                true
            },
            Value::Attribute(s) => {
                out.append(s.as_str());
                true
            },
            Value::Binary(b) => {
                push_hex(out, b.as_slice());
                true
            },
            Value::Node(_) => {
                assert(out@ =~= old(out)@ + Seq::<char>::empty());
                true
            },
            Value::Array(_, values) => {
                assert(self@->Array_1 =~= values_view(values@));
                Value::push_texts(values.as_slice(), out)
            },
            _ => {
                proof {
                    lemma_view_type(self);
                }
                if self.standard_type().is_float() {
                    return false;
                }
                push_fixed_text(self, out);
                true
            },
        }
    }

    /// Appends the texts of the values with a space between them, and says
    /// whether every value has a text.
    pub fn push_texts(values: &[Value], out: &mut String) -> (r: bool)
        ensures
            match spec_item_texts(values_view(values@)) {
                Some(parts) => r && final(out)@ == old(out)@ + join_texts(parts, ' '),
                None => !r,
            },
        decreases values@,
    {
        let ghost vs = values_view(values@);
        let ghost mut parts: Seq<Seq<char>> = Seq::empty();
        let mut k: usize = 0;
        proof {
            assert(vs.take(0) =~= Seq::<ValueView>::empty());
        }
        while k < values.len()
            invariant
                k <= values@.len(),
                vs == values_view(values@),
                spec_item_texts(vs.take(k as int)) == Some(parts),
                out@ == old(out)@ + join_texts(parts, ' '),
            decreases values@.len() - k,
        {
            proof {
                assert(vs.take(k + 1).drop_last() =~= vs.take(k as int));
                assert(vs.take(k + 1).last() == values@[k as int]@);
            }
            if k > 0 {
                string_push(out, ' ');
            }
            let ghost before = out@;
            if !values[k].push_text(out) {
                proof {
                    lemma_item_texts_none(vs, k as int);
                }
                return false;
            }
            proof {
                let text = spec_value_text(values@[k as int]@).unwrap();
                lemma_join_push(parts, text, ' ');
                assert(spec_item_texts(vs.take(k + 1)) == Some(parts.push(text)));
                assert(out@ =~= old(out)@ + join_texts(parts.push(text), ' ')) by {
                    if k == 0 {
                        assert(parts.len() == 0) by {
                            assert(vs.take(0) =~= Seq::<ValueView>::empty());
                        }
                    } else {
                        assert(parts.len() == k) by {
                            lemma_item_texts_len(vs.take(k as int));
                        }
                    }
                }
                parts = parts.push(text);
            }
            k += 1;
        }
        proof {
            assert(vs.take(k as int) =~= vs);
        }
        true
    }

    /// The text of the value, as an XML document holds it. Floating-point
    /// numbers have no text here.
    pub fn to_string(&self) -> (r: Option<String>)
        ensures
            match spec_value_text(self@) {
                Some(t) => r matches Some(s) && s@ == t,
                None => r is None,
            },
    {
        let mut out = String::new();
        if self.push_text(&mut out) {
            assert(out@ =~= spec_value_text(self@).unwrap());
            Some(out)
        } else {
            None
        }
    }

    /// The texts of the values with a space between them.
    pub fn array_as_string(values: &[Value]) -> (r: Option<String>)
        ensures
            match spec_item_texts(values_view(values@)) {
                Some(parts) => r matches Some(s) && s@ == join_texts(parts, ' '),
                None => r is None,
            },
    {
        let mut out = String::new();
        if Value::push_texts(values, &mut out) {
            assert(out@ =~= join_texts(spec_item_texts(values_view(values@)).unwrap(), ' '));
            Some(out)
        } else {
            None
        }
    }
}

/// There are as many texts as values.
pub proof fn lemma_item_texts_len(vs: Seq<ValueView>)
    requires
        spec_item_texts(vs) is Some,
    ensures
        spec_item_texts(vs).unwrap().len() == vs.len(),
    decreases vs.len(),
{
    if vs.len() > 0 {
        lemma_item_texts_len(vs.drop_last());
    }
}

/// The digits of hexadecimal text read back as the values they were
/// written for.
pub proof fn lemma_hex_digits_of_text(b: Seq<u8>)
    ensures
        hex_digits(bytes_of_chars(hex_text(b))) == Some(
            Seq::new(2 * b.len(), |i: int| if i % 2 == 0 { b[i / 2] / 16 } else { b[i / 2] % 16 }),
        ),
    decreases b.len(),
{
    let text = bytes_of_chars(hex_text(b));
    let want = Seq::new(
        2 * b.len(),
        |i: int| if i % 2 == 0 { b[i / 2] / 16 } else { b[i / 2] % 16 },
    );
    if b.len() == 0 {
        assert(text =~= Seq::<u8>::empty());
        assert(want =~= Seq::<u8>::empty());
    } else {
        let front = b.drop_last();
        lemma_hex_digits_of_text(front);
        let ft = bytes_of_chars(hex_text(front));
        let fw = Seq::new(
            2 * front.len(),
            |i: int| if i % 2 == 0 { front[i / 2] / 16 } else { front[i / 2] % 16 },
        );
        let hi = b.last() / 16;
        let lo = b.last() % 16;
        let one = text.drop_last();
        assert(one.drop_last() =~= ft) by {
            assert forall|i: int| 0 <= i < ft.len() implies one.drop_last()[i] == ft[i] by {
                assert(front[i / 2] == b[i / 2]);
            }
        }
        assert(one.last() == hex_char(hi) as u8);
        assert(text.last() == hex_char(lo) as u8);
        assert(hex_digit(hex_char(hi) as u8) == Some(hi) && !hex_space(hex_char(hi) as u8));
        assert(hex_digit(hex_char(lo) as u8) == Some(lo) && !hex_space(hex_char(lo) as u8));
        assert(hex_digits(one) == Some(fw.push(hi)));
        assert(fw.push(hi).push(lo) =~= want) by {
            assert forall|i: int| 0 <= i < fw.len() implies fw[i] == want[i] by {
                assert(front[i / 2] == b[i / 2]);
            }
        }
    }
}

/// Bytes written as hexadecimal text read back from it.
#[verifier::rlimit(40)]
#[verifier::spinoff_prover]
pub proof fn lemma_hex_text_reads_back(b: Seq<u8>)
    ensures
        spec_from_hex(bytes_of_chars(hex_text(b))) == Some(b),
{
    lemma_hex_digits_of_text(b);
    let d = hex_digits(bytes_of_chars(hex_text(b))).unwrap();
    let back = Seq::new(d.len() / 2, |i: int| (d[2 * i] * 16 + d[2 * i + 1]) as u8);
    assert forall|i: int| 0 <= i < b.len() implies back[i] == b[i] by {
        lemma_pair_places(i);
        let x = b[i];
        assert(d[2 * i] == x / 16);
        assert(d[2 * i + 1] == x % 16);
        assert((x / 16) * 16 + x % 16 == x) by (bit_vector);
    }
    assert(back =~= b);
}

/// The two places of the pair `i` in a sequence of pairs.
proof fn lemma_pair_places(i: int)
    ensures
        (2 * i) % 2 == 0,
        (2 * i) / 2 == i,
        (2 * i + 1) % 2 == 1,
        (2 * i + 1) / 2 == i,
{
}

/// A text without the separator is one part.
pub proof fn lemma_split_one(b: Seq<u8>, sep: u8)
    requires
        forall|i: int| 0 <= i < b.len() ==> b[i] != sep,
    ensures
        split(b, sep) == seq![b],
{
    lemma_first_index(b, sep, b.len() as int);
}

/// The parts of two texts with a separator between them are the parts of
/// the first and the parts of the second.
pub proof fn lemma_split_concat(a: Seq<u8>, b: Seq<u8>, sep: u8)
    ensures
        split(a + seq![sep] + b, sep) == split(a, sep) + split(b, sep),
    decreases a.len(),
{
    let whole = a + seq![sep] + b;
    let i = first_index(a, sep);
    if a.len() == 0 {
        lemma_first_index(whole, sep, 0);
        assert(whole.take(0) =~= a);
        assert(whole.skip(1) =~= b);
    } else if a[0] == sep {
        lemma_first_index(whole, sep, 0);
        lemma_first_index(a, sep, 0);
        assert(whole.take(0) =~= a.take(0));
        assert(whole.skip(1) =~= a.skip(1) + seq![sep] + b);
        lemma_split_concat(a.skip(1), b, sep);
    } else {
        lemma_first_index_bounds(a, sep);
        if i < a.len() {
            lemma_first_index(whole, sep, i);
            assert(whole.take(i) =~= a.take(i));
            assert(whole.skip(i + 1) =~= a.skip(i + 1) + seq![sep] + b);
            lemma_split_concat(a.skip(i + 1), b, sep);
        } else {
            lemma_first_index(whole, sep, a.len() as int);
            assert(whole.take(a.len() as int) =~= a);
            assert(whole.skip((a.len() + 1) as int) =~= b);
        }
    }
}

/// The first separator stands where no separator stands before it.
pub proof fn lemma_first_index_bounds(b: Seq<u8>, sep: u8)
    ensures
        0 <= first_index(b, sep) <= b.len(),
        forall|j: int| 0 <= j < first_index(b, sep) ==> b[j] != sep,
        first_index(b, sep) < b.len() ==> b[first_index(b, sep)] == sep,
    decreases b.len(),
{
    if b.len() > 0 && b[0] != sep {
        let rest = b.drop_first();
        lemma_first_index_bounds(rest, sep);
        assert forall|j: int| 0 <= j < first_index(b, sep) implies b[j] != sep by {
            if j > 0 {
                assert(b[j] == rest[j - 1]);
            }
        }
    }
}

/// A decimal digit is an ASCII character, and neither a space nor a dot.
pub proof fn lemma_digit_byte(c: char)
    requires
        '0' <= c <= '9',
    ensures
        '\0' <= c <= '\u{7f}',
        48 <= c as u8 <= 57,
{
}

/// The text of an integer is digits behind an optional minus sign.
pub proof fn lemma_int_text_chars(v: int)
    ensures
        is_ascii_chars(int_text(v)),
        int_text(v).len() >= 1,
        forall|i: int|
            0 <= i < int_text(v).len() ==> (#[trigger] bytes_of_chars(int_text(v))[i]) != 32
                && bytes_of_chars(int_text(v))[i] != 46,
{
    let n = if v < 0 {
        (-v) as nat
    } else {
        v as nat
    };
    lemma_decimal_reads_back(n);
    let t = int_text(v);
    assert forall|i: int| 0 <= i < t.len() implies '\0' <= #[trigger] t[i] <= '\u{7f}'
        && bytes_of_chars(t)[i] != 32 && bytes_of_chars(t)[i] != 46 by {
        if v < 0 {
            if i > 0 {
                assert(t[i] == decimal(n)[i - 1]);
                lemma_digit_byte(decimal(n)[i - 1]);
            }
        } else {
            lemma_digit_byte(decimal(n)[i]);
        }
    }
}

/// The texts of elements, joined, are ASCII text whose parts are the texts
/// of the elements.
pub proof fn lemma_joined_reads_back(es: Seq<int>, sep: u8)
    requires
        es.len() >= 1,
        sep == 32 || sep == 46,
    ensures
        is_ascii_chars(join_texts(elem_texts(es), sep as char)),
        split(bytes_of_chars(join_texts(elem_texts(es), sep as char)), sep) == Seq::new(
            es.len(),
            |i: int| bytes_of_chars(int_text(es[i])),
        ),
    decreases es.len(),
{
    let texts = elem_texts(es);
    let joined = join_texts(texts, sep as char);
    let want = Seq::new(es.len(), |i: int| bytes_of_chars(int_text(es[i])));
    let last = int_text(es.last());
    lemma_int_text_chars(es.last());
    let lb = bytes_of_chars(last);
    lemma_split_one(lb, sep);
    if es.len() == 1 {
        assert(joined == last);
        assert(split(bytes_of_chars(joined), sep) =~= want);
    } else {
        let front = es.drop_last();
        lemma_joined_reads_back(front, sep);
        assert(texts.drop_last() =~= elem_texts(front));
        let fj = join_texts(elem_texts(front), sep as char);
        assert(joined == fj + seq![sep as char] + last);
        assert(bytes_of_chars(joined) =~= bytes_of_chars(fj) + seq![sep] + lb);
        lemma_split_concat(bytes_of_chars(fj), lb, sep);
        assert(split(bytes_of_chars(joined), sep) =~= want);
        assert forall|i: int| 0 <= i < joined.len() implies '\0' <= #[trigger] joined[i]
            <= '\u{7f}' by {
            if i < fj.len() {
                assert(joined[i] == fj[i]);
            } else if i > fj.len() {
                assert(joined[i] == last[i - fj.len() - 1]);
            }
        }
    }
}

/// The UTF-8 bytes of ASCII text are its characters.
pub proof fn lemma_ascii_bytes(s: Seq<char>)
    requires
        is_ascii_chars(s),
    ensures
        encode_utf8(s) == bytes_of_chars(s),
{
    is_ascii_chars_encode_utf8(s);
    assert(encode_utf8(s) =~= bytes_of_chars(s));
}

/// The texts of elements within the range of their kind and width read back
/// as the elements.
pub proof fn lemma_parts_read_back(
    t: StandardType,
    kind: ElementKind,
    size: nat,
    es: Seq<int>,
    text: Seq<char>,
)
    requires
        size == 1 || size == 2 || size == 4 || size == 8,
        elems_ok(kind, size, es),
    ensures
        parse_parts(
            t,
            kind,
            size,
            Seq::new(es.len(), |i: int| bytes_of_chars(int_text(es[i]))),
            text,
        ) == Ok::<Seq<int>, KbinErrorView>(es),
    decreases es.len(),
{
    let parts = Seq::new(es.len(), |i: int| bytes_of_chars(int_text(es[i])));
    if es.len() == 0 {
        assert(es =~= Seq::<int>::empty());
    } else {
        let front = es.drop_last();
        lemma_parts_read_back(t, kind, size, front, text);
        assert(parts.drop_last() =~= Seq::new(
            front.len(),
            |i: int| bytes_of_chars(int_text(front[i])),
        ));
        let e = es.last();
        assert(elem_ok(kind, size, e));
        lemma_bounds();
        lemma_bound_positive(size);
        if kind == ElementKind::Bool {
            assert(bytes_of_chars(int_text(e)) =~= if e == 0 {
                seq![48u8]
            } else {
                seq![49u8]
            });
        } else {
            lemma_int_text_reads_back(e, elem_low(kind, size), elem_high(kind, size));
        }
        assert(parse_part(kind, size, parts.last()) == Some(e));
        assert(front.push(e) =~= es);
    }
}

/// The text of a value that is no array and holds no floating-point number
/// reads back as the value.
pub proof fn lemma_value_text_reads_back(v: ValueView)
    requires
        v is Fixed || v is Binary || v is String,
        v.wf(),
        spec_value_text(v) is Some,
    ensures
        spec_from_text(
            v.standard_type(),
            encode_utf8(spec_value_text(v).unwrap()),
            spec_value_text(v).unwrap(),
            false,
            0,
        ) == Ok::<ValueView, KbinErrorView>(v),
{
    let text = spec_value_text(v).unwrap();
    match v {
        ValueView::Fixed(t, es) => {
            let kind = t.spec_kind().unwrap();
            let size = t.spec_size() as nat;
            let sep = elem_sep(t);
            lemma_byte_len(t);
            lemma_joined_reads_back(es, sep);
            lemma_ascii_bytes(text);
            lemma_parts_read_back(t, kind, size, es, text);
            let bytes = bytes_of_chars(text);
            let parts = Seq::new(es.len(), |i: int| bytes_of_chars(int_text(es[i])));
            if t == StandardType::Ip4 {
                assert(item_parts(t, whole_group(t, bytes)) == split(bytes, 46));
            } else if t.spec_count() == 1 {
                lemma_int_text_chars(es[0]);
                assert(elem_texts(es)[0] == int_text(es[0]));
                assert(parts =~= seq![bytes]);
            } else {
                assert(item_parts(t, whole_group(t, bytes)) == split(bytes, 32));
            }
        },
        ValueView::Binary(b) => {
            lemma_hex_text_reads_back(b);
            assert forall|i: int| 0 <= i < hex_text(b).len() implies '\0' <= #[trigger] hex_text(
                b,
            )[i] <= '\u{7f}' by {}
            lemma_ascii_bytes(text);
        },
        _ => {},
    }
}

/// The parts of the text of one item of an array: the text of an address
/// as a whole, the texts of the elements of any other value.
pub open spec fn item_group(t: StandardType, v: ValueView) -> Seq<Seq<u8>> {
    let es = v->Fixed_1;
    if t == StandardType::Ip4 {
        seq![bytes_of_chars(join_texts(elem_texts(es), '.'))]
    } else {
        Seq::new(es.len(), |i: int| bytes_of_chars(int_text(es[i])))
    }
}

/// The parts of the texts of the items of an array, one item after the
/// other.
pub open spec fn items_parts(t: StandardType, vs: Seq<ValueView>) -> Seq<Seq<u8>>
    decreases vs.len(),
{
    if vs.len() == 0 {
        Seq::empty()
    } else {
        items_parts(t, vs.drop_last()) + item_group(t, vs.last())
    }
}

/// The text of an item of an array is ASCII text whose parts between
/// spaces are the parts of the item.
pub proof fn lemma_item_text(t: StandardType, v: ValueView)
    requires
        v.is_fixed_of(t),
        !t.spec_is_float(),
    ensures
        spec_value_text(v) matches Some(text) && is_ascii_chars(text) && split(
            bytes_of_chars(text),
            32,
        ) == item_group(t, v),
        item_group(t, v).len() == parts_per_item(t),
{
    let es = v->Fixed_1;
    lemma_byte_len(t);
    if t == StandardType::Ip4 {
        lemma_joined_reads_back(es, 46);
        let text = join_texts(elem_texts(es), '.');
        lemma_no_space(es);
        lemma_split_one(bytes_of_chars(text), 32);
    } else {
        lemma_joined_reads_back(es, 32);
    }
}

/// The text of an address holds no space.
pub proof fn lemma_no_space(es: Seq<int>)
    requires
        es.len() >= 1,
    ensures
        forall|i: int|
            0 <= i < join_texts(elem_texts(es), '.').len() ==> (#[trigger] bytes_of_chars(
                join_texts(elem_texts(es), '.'),
            )[i]) != 32,
    decreases es.len(),
{
    let texts = elem_texts(es);
    let joined = join_texts(texts, '.');
    let last = int_text(es.last());
    lemma_int_text_chars(es.last());
    if es.len() > 1 {
        let front = es.drop_last();
        lemma_no_space(front);
        assert(texts.drop_last() =~= elem_texts(front));
        let fj = join_texts(elem_texts(front), '.');
        assert(joined == fj + seq!['.'] + last);
        assert forall|i: int| 0 <= i < joined.len() implies (#[trigger] bytes_of_chars(
            joined,
        )[i]) != 32 by {
            if i < fj.len() {
                assert(bytes_of_chars(joined)[i] == bytes_of_chars(fj)[i]);
            } else if i > fj.len() {
                assert(bytes_of_chars(joined)[i] == bytes_of_chars(last)[i - fj.len() - 1]);
            }
        }
    } else {
        assert(joined == last);
    }
}

/// The text of an array is ASCII text whose parts between spaces are the
/// parts of its items.
pub proof fn lemma_array_text(t: StandardType, vs: Seq<ValueView>)
    requires
        vs.len() >= 1,
        !t.spec_is_float(),
        forall|i: int| 0 <= i < vs.len() ==> (#[trigger] vs[i]).is_fixed_of(t),
    ensures
        spec_item_texts(vs) matches Some(texts) && is_ascii_chars(join_texts(texts, ' '))
            && split(bytes_of_chars(join_texts(texts, ' ')), 32) == items_parts(t, vs),
    decreases vs.len(),
{
    let last = vs.last();
    lemma_item_text(t, last);
    let lt = spec_value_text(last).unwrap();
    if vs.len() == 1 {
        assert(vs.drop_last() =~= Seq::<ValueView>::empty());
        let texts = spec_item_texts(vs).unwrap();
        assert(texts =~= seq![lt]);
        assert(items_parts(t, vs.drop_last()) =~= Seq::<Seq<u8>>::empty());
        assert(items_parts(t, vs) =~= item_group(t, last));
    } else {
        let front = vs.drop_last();
        assert forall|i: int| 0 <= i < front.len() implies (#[trigger] front[i]).is_fixed_of(
            t,
        ) by {
            assert(front[i] == vs[i]);
        }
        lemma_array_text(t, front);
        let ft = spec_item_texts(front).unwrap();
        lemma_item_texts_len(front);
        let texts = spec_item_texts(vs).unwrap();
        assert(texts == ft.push(lt));
        lemma_join_push(ft, lt, ' ');
        let fj = join_texts(ft, ' ');
        let joined = join_texts(texts, ' ');
        assert(joined == fj + seq![' '] + lt);
        assert(bytes_of_chars(joined) =~= bytes_of_chars(fj) + seq![32u8] + bytes_of_chars(
            lt,
        ));
        lemma_split_concat(bytes_of_chars(fj), bytes_of_chars(lt), 32);
        assert forall|i: int| 0 <= i < joined.len() implies '\0' <= #[trigger] joined[i]
            <= '\u{7f}' by {
            if i < fj.len() {
                assert(joined[i] == fj[i]);
            } else if i > fj.len() {
                assert(joined[i] == lt[i - fj.len() - 1]);
            }
        }
    }
}

/// The parts of the items of an array stand one item after the other,
/// each item with the same number of parts.
pub proof fn lemma_items_parts(t: StandardType, vs: Seq<ValueView>)
    requires
        !t.spec_is_float(),
        forall|i: int| 0 <= i < vs.len() ==> (#[trigger] vs[i]).is_fixed_of(t),
    ensures
        items_parts(t, vs).len() == vs.len() * parts_per_item(t),
        forall|k: int|
            0 <= k < vs.len() ==> #[trigger] items_parts(t, vs).subrange(
                k * parts_per_item(t),
                k * parts_per_item(t) + parts_per_item(t),
            ) == item_group(t, vs[k]),
    decreases vs.len(),
{
    let per = parts_per_item(t) as int;
    if vs.len() > 0 {
        let front = vs.drop_last();
        assert forall|i: int| 0 <= i < front.len() implies (#[trigger] front[i]).is_fixed_of(
            t,
        ) by {
            assert(front[i] == vs[i]);
        }
        lemma_items_parts(t, front);
        lemma_item_text(t, vs.last());
        let fp = items_parts(t, front);
        let lp = item_group(t, vs.last());
        let all = items_parts(t, vs);
        assert((vs.len() - 1) * per + per == vs.len() * per) by (nonlinear_arith);
        assert forall|k: int| 0 <= k < vs.len() implies #[trigger] all.subrange(
            k * per,
            k * per + per,
        ) == item_group(t, vs[k]) by {
            assert(0 <= k * per && k * per + per <= vs.len() * per) by (nonlinear_arith)
                requires
                    0 <= k < vs.len(),
                    per >= 0,
            ;
            if k < vs.len() - 1 {
                assert(k * per + per <= (vs.len() - 1) * per) by (nonlinear_arith)
                    requires
                        0 <= k < vs.len() - 1,
                        per >= 0,
                ;
                assert(all.subrange(k * per, k * per + per) =~= fp.subrange(
                    k * per,
                    k * per + per,
                ));
                assert(vs[k] == front[k]);
            } else {
                assert(all.subrange(k * per, k * per + per) =~= lp);
            }
        }
    } else {
        assert(0 * per == 0) by (nonlinear_arith);
    }
}

/// The parts of the items of an array read back as the items.
pub proof fn lemma_items_read_back(t: StandardType, vs: Seq<ValueView>, k: nat, text: Seq<char>)
    requires
        k <= vs.len(),
        !t.spec_is_float(),
        forall|i: int| 0 <= i < vs.len() ==> (#[trigger] vs[i]).is_fixed_of(t),
    ensures
        parse_items(t, items_parts(t, vs), parts_per_item(t), k, text) == Ok::<
            Seq<ValueView>,
            KbinErrorView,
        >(vs.take(k as int)),
    decreases k,
{
    let per = parts_per_item(t);
    if k == 0 {
        assert(vs.take(0) =~= Seq::<ValueView>::empty());
    } else {
        lemma_items_read_back(t, vs, (k - 1) as nat, text);
        lemma_items_parts(t, vs);
        let v = vs[k - 1];
        let es = v->Fixed_1;
        assert(v.is_fixed_of(t));
        let group = items_parts(t, vs).subrange((k - 1) * per, (k * per) as int);
        assert((k - 1) * per + per == k * per) by (nonlinear_arith);
        assert(group == item_group(t, v));
        lemma_byte_len(t);
        let kind = t.spec_kind().unwrap();
        let size = t.spec_size() as nat;
        lemma_parts_read_back(t, kind, size, es, text);
        if t == StandardType::Ip4 {
            lemma_joined_reads_back(es, 46);
        }
        assert(item_elems(t, group, text) == Ok::<Seq<int>, KbinErrorView>(es));
        assert(vs.take(k - 1).push(v) =~= vs.take(k as int));
    }
}

/// The text of an array of at least one value without floating-point
/// numbers reads back as the array.
pub proof fn lemma_array_text_reads_back(v: ValueView)
    requires
        v is Array,
        v.wf(),
        1 <= v->Array_1.len() <= usize::MAX,
        !v->Array_0.spec_is_float(),
    ensures
        spec_value_text(v) matches Some(text) && spec_from_text(
            v->Array_0,
            encode_utf8(text),
            text,
            true,
            v->Array_1.len() as usize,
        ) == Ok::<ValueView, KbinErrorView>(v),
{
    let t = v->Array_0;
    let vs = v->Array_1;
    lemma_array_text(t, vs);
    let text = spec_value_text(v).unwrap();
    lemma_ascii_bytes(text);
    lemma_items_parts(t, vs);
    lemma_items_read_back(t, vs, vs.len(), text);
    lemma_byte_len(t);
    let per = parts_per_item(t);
    assert((vs.len() * per) % per == 0 && (vs.len() * per) / per == vs.len())
        by (nonlinear_arith)
        requires
            per >= 1,
    ;
    assert(vs.take(vs.len() as int) =~= vs);
}

} // verus!
