//! Fixed-size elements and their bytes, most significant byte first.
use vstd::prelude::*;
use byteorder::{BigEndian, ByteOrder, WriteBytesExt};
use crate::error::KbinError;
use crate::node_types::ElementKind;

verus! {

/// The number of values that `size` bytes can hold: 256 to the power `size`.
pub open spec fn bound(size: nat) -> nat
    decreases size,
{
    if size == 0 {
        1
    } else {
        256 * bound((size - 1) as nat)
    }
}

/// The number that the bytes spell, most significant byte first.
pub open spec fn be_value(bytes: Seq<u8>) -> nat
    decreases bytes.len(),
{
    if bytes.len() == 0 {
        0
    } else {
        be_value(bytes.drop_last()) * 256 + bytes.last() as nat
    }
}

/// The `len` low bytes of `n`, most significant byte first.
pub open spec fn be_bytes(n: nat, len: nat) -> Seq<u8>
    decreases len,
{
    if len == 0 {
        Seq::empty()
    } else {
        be_bytes(n / 256, (len - 1) as nat).push((n % 256) as u8)
    }
}

/// The bounds of the four element widths.
pub proof fn lemma_bounds()
    ensures
        bound(0) == 1,
        bound(1) == 0x100,
        bound(2) == 0x1_0000,
        bound(3) == 0x100_0000,
        bound(4) == 0x1_0000_0000,
        bound(8) == 0x1_0000_0000_0000_0000,
{
    reveal_with_fuel(bound, 9);
}

pub proof fn lemma_bound_positive(size: nat)
    ensures
        bound(size) >= 1,
        size >= 1 ==> bound(size) >= 256,
    decreases size,
{
    if size > 0 {
        lemma_bound_positive((size - 1) as nat);
    }
}

pub proof fn lemma_be_bytes_len(n: nat, len: nat)
    ensures
        be_bytes(n, len).len() == len,
    decreases len,
{
    if len > 0 {
        lemma_be_bytes_len(n / 256, (len - 1) as nat);
    }
}

pub proof fn lemma_be_value_bound(bytes: Seq<u8>)
    ensures
        be_value(bytes) < bound(bytes.len()),
    decreases bytes.len(),
{
    if bytes.len() > 0 {
        lemma_be_value_bound(bytes.drop_last());
    }
}

/// Reading the bytes of a number gives the number back.
pub proof fn lemma_be_value_bytes(n: nat, len: nat)
    requires
        n < bound(len),
    ensures
        be_value(be_bytes(n, len)) == n,
    decreases len,
{
    if len > 0 {
        let rest = be_bytes(n / 256, (len - 1) as nat);
        lemma_be_value_bytes(n / 256, (len - 1) as nat);
        assert(be_bytes(n, len).drop_last() =~= rest);
    }
}

/// Writing the number that bytes spell gives the bytes back.
pub proof fn lemma_be_bytes_value(bytes: Seq<u8>)
    ensures
        be_bytes(be_value(bytes), bytes.len()) == bytes,
    decreases bytes.len(),
{
    if bytes.len() > 0 {
        lemma_be_bytes_value(bytes.drop_last());
        let v = be_value(bytes.drop_last());
        assert((v * 256 + bytes.last() as nat) / 256 == v);
        assert((v * 256 + bytes.last() as nat) % 256 == bytes.last() as nat);
        assert(be_bytes(be_value(bytes), bytes.len()) =~= bytes);
    }
}

/// An element as the unsigned number that its bytes spell: a negative one
/// in two's complement.
pub open spec fn wrap(e: int, size: nat) -> nat {
    if e < 0 {
        (e + bound(size)) as nat
    } else {
        e as nat
    }
}

/// The element that an unsigned number of `size` bytes stands for.
pub open spec fn unwrap_kind(kind: ElementKind, u: nat, size: nat) -> int {
    if kind == ElementKind::Signed && 2 * u >= bound(size) {
        u - bound(size)
    } else {
        u as int
    }
}

/// The values that an element of this kind and width can take.
pub open spec fn elem_ok(kind: ElementKind, size: nat, e: int) -> bool {
    match kind {
        ElementKind::Signed => -(bound(size) as int) <= 2 * e < bound(size),
        ElementKind::Unsigned => 0 <= e < bound(size),
        ElementKind::Bool => e == 0 || e == 1,
    }
}

/// The bytes of one element.
pub open spec fn elem_bytes(size: nat, e: int) -> Seq<u8> {
    be_bytes(wrap(e, size), size)
}

/// The element that `bytes` hold.
pub open spec fn elem_value(kind: ElementKind, bytes: Seq<u8>) -> int {
    unwrap_kind(kind, be_value(bytes), bytes.len())
}

/// An element reads back from its bytes.
pub proof fn lemma_elem_round_trip(kind: ElementKind, size: nat, e: int)
    requires
        size >= 1,
        elem_ok(kind, size, e),
    ensures
        elem_bytes(size, e).len() == size,
        elem_value(kind, elem_bytes(size, e)) == e,
{
    lemma_be_bytes_len(wrap(e, size), size);
    lemma_bound_positive(size);
    lemma_be_value_bytes(wrap(e, size), size);
}

/// Bytes are the bytes of the element that they hold.
pub proof fn lemma_elem_bytes_value(kind: ElementKind, bytes: Seq<u8>)
    requires
        bytes.len() >= 1,
    ensures
        elem_bytes(bytes.len(), elem_value(kind, bytes)) == bytes,
        kind != ElementKind::Bool ==> elem_ok(kind, bytes.len(), elem_value(kind, bytes)),
{
    lemma_be_value_bound(bytes);
    lemma_be_bytes_value(bytes);
}

/// `byteorder::BigEndian::read_uint`: the first `nbytes` bytes of `buf`,
/// read as one number with the most significant byte first.
#[verifier::external_body]
pub(crate) fn read_be(buf: &[u8], nbytes: usize) -> (r: u64)
    requires
        1 <= nbytes <= 8,
        nbytes <= buf@.len(),
    ensures
        r == be_value(buf@.subrange(0, nbytes as int)),
{
    BigEndian::read_uint(buf, nbytes)
}

/// `byteorder::WriteBytesExt::write_uint` with `BigEndian`, on a `Vec<u8>`:
/// appends the `nbytes` low bytes of `n`, most significant first. Writing to
/// a vector does not fail.
#[verifier::external_body]
pub(crate) fn write_be(out: &mut Vec<u8>, n: u64, nbytes: usize)
    requires
        1 <= nbytes <= 8,
        n < bound(nbytes as nat),
    ensures
        final(out)@ == old(out)@ + be_bytes(n as nat, nbytes as nat),
{
    let _ = out.write_uint::<BigEndian>(n, nbytes);
}

/// The bytes of a run of elements, one after the other.
pub open spec fn elems_bytes(size: nat, es: Seq<int>) -> Seq<u8>
    decreases es.len(),
{
    if es.len() == 0 {
        Seq::empty()
    } else {
        elems_bytes(size, es.drop_last()) + elem_bytes(size, es.last())
    }
}

/// The elements of `size` bytes each that `bytes` hold; bytes left over at
/// the end hold none.
pub open spec fn elems_of(kind: ElementKind, size: nat, bytes: Seq<u8>) -> Seq<int> {
    Seq::new(
        if size == 0 {
            0
        } else {
            bytes.len() / size
        },
        |k: int| elem_value(kind, bytes.subrange(k * size, k * size + size)),
    )
}

/// Every element can be written in `size` bytes as this kind.
pub open spec fn elems_ok(kind: ElementKind, size: nat, es: Seq<int>) -> bool {
    forall|i: int| 0 <= i < es.len() ==> elem_ok(kind, size, #[trigger] es[i])
}

pub proof fn lemma_elems_bytes_len(size: nat, es: Seq<int>)
    ensures
        elems_bytes(size, es).len() == es.len() * size,
    decreases es.len(),
{
    if es.len() > 0 {
        lemma_elems_bytes_len(size, es.drop_last());
        lemma_be_bytes_len(wrap(es.last(), size), size);
        assert((es.len() - 1) * size + size == es.len() * size) by (nonlinear_arith);
    }
}

pub proof fn lemma_elems_bytes_push(size: nat, es: Seq<int>, e: int)
    ensures
        elems_bytes(size, es.push(e)) == elems_bytes(size, es) + elem_bytes(size, e),
{
    assert(es.push(e).drop_last() =~= es);
}

pub proof fn lemma_elems_bytes_at(size: nat, es: Seq<int>, k: int)
    requires
        0 <= k < es.len(),
    ensures
        0 <= k * size,
        k * size + size <= elems_bytes(size, es).len(),
        elems_bytes(size, es).subrange(k * size, k * size + size) == elem_bytes(size, es[k]),
    decreases es.len(),
{
    lemma_elems_bytes_len(size, es);
    lemma_elems_bytes_len(size, es.drop_last());
    lemma_be_bytes_len(wrap(es.last(), size), size);
    assert(0 <= k * size && k * size + size <= es.len() * size) by (nonlinear_arith)
        requires
            0 <= k < es.len(),
            size >= 0,
    ;
    let all = elems_bytes(size, es);
    let front = elems_bytes(size, es.drop_last());
    if k == es.len() - 1 {
        assert((es.len() - 1) * size + size == es.len() * size) by (nonlinear_arith);
        assert(all.subrange(k * size, k * size + size) =~= elem_bytes(size, es[k]));
    } else {
        lemma_elems_bytes_at(size, es.drop_last(), k);
        assert(k * size + size <= (es.len() - 1) * size) by (nonlinear_arith)
            requires
                0 <= k < es.len() - 1,
                size >= 0,
        ;
        assert(all.subrange(k * size, k * size + size) =~= front.subrange(
            k * size,
            k * size + size,
        ));
    }
}

/// Elements read back from their bytes.
pub proof fn lemma_elems_round_trip(kind: ElementKind, size: nat, es: Seq<int>)
    requires
        size >= 1,
        elems_ok(kind, size, es),
    ensures
        elems_bytes(size, es).len() == es.len() * size,
        elems_of(kind, size, elems_bytes(size, es)) == es,
{
    lemma_elems_bytes_len(size, es);
    let bytes = elems_bytes(size, es);
    assert((es.len() * size) / size == es.len()) by (nonlinear_arith)
        requires
            size >= 1,
    ;
    assert forall|k: int| 0 <= k < es.len() implies elems_of(kind, size, bytes)[k] == es[k] by {
        lemma_elems_bytes_at(size, es, k);
        lemma_elem_round_trip(kind, size, es[k]);
    }
    assert(elems_of(kind, size, bytes) =~= es);
}

/// A fixed-size element of a value: an integer of one of four widths, or a
/// boolean.
pub trait Element: Copy {
    /// The element as a number.
    spec fn as_int(self) -> int;

    spec fn kind() -> ElementKind;

    /// Bytes of one element.
    spec fn width() -> nat;

    proof fn lemma_range(self)
        ensures
            elem_ok(Self::kind(), Self::width(), self.as_int()),
    ;

    proof fn lemma_width()
        ensures
            Self::width() == 1 || Self::width() == 2 || Self::width() == 4 || Self::width() == 8,
            Self::kind() == ElementKind::Bool ==> Self::width() == 1,
    ;

    fn size() -> (r: usize)
        ensures
            r == Self::width(),
    ;

    fn is_signed() -> (r: bool)
        ensures
            r == (Self::kind() == ElementKind::Signed),
    ;

    fn is_bool() -> (r: bool)
        ensures
            r == (Self::kind() == ElementKind::Bool),
    ;

    fn to_wide(self) -> (r: i128)
        ensures
            r == self.as_int(),
    ;

    fn from_wide(w: i128) -> (r: Self)
        requires
            elem_ok(Self::kind(), Self::width(), w as int),
        ensures
            r.as_int() == w,
    ;
}

/// The elements as numbers.
pub open spec fn ints<T: Element>(s: Seq<T>) -> Seq<int> {
    Seq::new(s.len(), |i: int| s[i].as_int())
}

pub proof fn lemma_ints_ok<T: Element>(s: Seq<T>)
    ensures
        elems_ok(T::kind(), T::width(), ints(s)),
        T::width() == 1 || T::width() == 2 || T::width() == 4 || T::width() == 8,
{
    assert forall|i: int| 0 <= i < s.len() implies elem_ok(
        T::kind(),
        T::width(),
        #[trigger] ints(s)[i],
    ) by {
        s[i].lemma_range();
    }
    T::lemma_width();
}

impl Element for i8 {
    open spec fn as_int(self) -> int {
        self as int
    }

    open spec fn kind() -> ElementKind {
        ElementKind::Signed
    }

    open spec fn width() -> nat {
        1
    }

    proof fn lemma_range(self) {
        lemma_bounds();
    }

    proof fn lemma_width() {
    }

    fn size() -> (r: usize) {
        1
    }

    fn is_signed() -> (r: bool) {
        true
    }

    fn is_bool() -> (r: bool) {
        false
    }

    fn to_wide(self) -> (r: i128) {
        self as i128
    }

    fn from_wide(w: i128) -> (r: Self) {
        proof {
            lemma_bounds();
        }
        w as i8
    }
}

impl Element for u8 {
    open spec fn as_int(self) -> int {
        self as int
    }

    open spec fn kind() -> ElementKind {
        ElementKind::Unsigned
    }

    open spec fn width() -> nat {
        1
    }

    proof fn lemma_range(self) {
        lemma_bounds();
    }

    proof fn lemma_width() {
    }

    fn size() -> (r: usize) {
        1
    }

    fn is_signed() -> (r: bool) {
        false
    }

    fn is_bool() -> (r: bool) {
        false
    }

    fn to_wide(self) -> (r: i128) {
        self as i128
    }

    fn from_wide(w: i128) -> (r: Self) {
        proof {
            lemma_bounds();
        }
        w as u8
    }
}

impl Element for i16 {
    open spec fn as_int(self) -> int {
        self as int
    }

    open spec fn kind() -> ElementKind {
        ElementKind::Signed
    }

    open spec fn width() -> nat {
        2
    }

    proof fn lemma_range(self) {
        lemma_bounds();
    }

    proof fn lemma_width() {
    }

    fn size() -> (r: usize) {
        2
    }

    fn is_signed() -> (r: bool) {
        true
    }

    fn is_bool() -> (r: bool) {
        false
    }

    fn to_wide(self) -> (r: i128) {
        self as i128
    }

    fn from_wide(w: i128) -> (r: Self) {
        proof {
            lemma_bounds();
        }
        w as i16
    }
}

impl Element for u16 {
    open spec fn as_int(self) -> int {
        self as int
    }

    open spec fn kind() -> ElementKind {
        ElementKind::Unsigned
    }

    open spec fn width() -> nat {
        2
    }

    proof fn lemma_range(self) {
        lemma_bounds();
    }

    proof fn lemma_width() {
    }

    fn size() -> (r: usize) {
        2
    }

    fn is_signed() -> (r: bool) {
        false
    }

    fn is_bool() -> (r: bool) {
        false
    }

    fn to_wide(self) -> (r: i128) {
        self as i128
    }

    fn from_wide(w: i128) -> (r: Self) {
        proof {
            lemma_bounds();
        }
        w as u16
    }
}

impl Element for i32 {
    open spec fn as_int(self) -> int {
        self as int
    }

    open spec fn kind() -> ElementKind {
        ElementKind::Signed
    }

    open spec fn width() -> nat {
        4
    }

    proof fn lemma_range(self) {
        lemma_bounds();
    }

    proof fn lemma_width() {
    }

    fn size() -> (r: usize) {
        4
    }

    fn is_signed() -> (r: bool) {
        true
    }

    fn is_bool() -> (r: bool) {
        false
    }

    fn to_wide(self) -> (r: i128) {
        self as i128
    }

    fn from_wide(w: i128) -> (r: Self) {
        proof {
            lemma_bounds();
        }
        w as i32
    }
}

impl Element for u32 {
    open spec fn as_int(self) -> int {
        self as int
    }

    open spec fn kind() -> ElementKind {
        ElementKind::Unsigned
    }

    open spec fn width() -> nat {
        4
    }

    proof fn lemma_range(self) {
        lemma_bounds();
    }

    proof fn lemma_width() {
    }

    fn size() -> (r: usize) {
        4
    }

    fn is_signed() -> (r: bool) {
        false
    }

    fn is_bool() -> (r: bool) {
        false
    }

    fn to_wide(self) -> (r: i128) {
        self as i128
    }

    fn from_wide(w: i128) -> (r: Self) {
        proof {
            lemma_bounds();
        }
        w as u32
    }
}

impl Element for i64 {
    open spec fn as_int(self) -> int {
        self as int
    }

    open spec fn kind() -> ElementKind {
        ElementKind::Signed
    }

    open spec fn width() -> nat {
        8
    }

    proof fn lemma_range(self) {
        lemma_bounds();
    }

    proof fn lemma_width() {
    }

    fn size() -> (r: usize) {
        8
    }

    fn is_signed() -> (r: bool) {
        true
    }

    fn is_bool() -> (r: bool) {
        false
    }

    fn to_wide(self) -> (r: i128) {
        self as i128
    }

    fn from_wide(w: i128) -> (r: Self) {
        proof {
            lemma_bounds();
        }
        w as i64
    }
}

impl Element for u64 {
    open spec fn as_int(self) -> int {
        self as int
    }

    open spec fn kind() -> ElementKind {
        ElementKind::Unsigned
    }

    open spec fn width() -> nat {
        8
    }

    proof fn lemma_range(self) {
        lemma_bounds();
    }

    proof fn lemma_width() {
    }

    fn size() -> (r: usize) {
        8
    }

    fn is_signed() -> (r: bool) {
        false
    }

    fn is_bool() -> (r: bool) {
        false
    }

    fn to_wide(self) -> (r: i128) {
        self as i128
    }

    fn from_wide(w: i128) -> (r: Self) {
        proof {
            lemma_bounds();
        }
        w as u64
    }
}

impl Element for bool {
    open spec fn as_int(self) -> int {
        if self {
            1
        } else {
            0
        }
    }

    open spec fn kind() -> ElementKind {
        ElementKind::Bool
    }

    open spec fn width() -> nat {
        1
    }

    proof fn lemma_range(self) {
    }

    proof fn lemma_width() {
    }

    fn size() -> (r: usize) {
        1
    }

    fn is_signed() -> (r: bool) {
        false
    }

    fn is_bool() -> (r: bool) {
        true
    }

    fn to_wide(self) -> (r: i128) {
        if self {
            1
        } else {
            0
        }
    }

    fn from_wide(w: i128) -> (r: Self) {
        w == 1
    }
}

/// The bound of an element width, as a number that fits the machine.
pub(crate) fn exec_bound(size: usize) -> (r: i128)
    requires
        size == 1 || size == 2 || size == 4 || size == 8,
    ensures
        r == bound(size as nat),
{
    proof {
        lemma_bounds();
    }
    if size == 1 {
        0x100
    } else if size == 2 {
        0x1_0000
    } else if size == 4 {
        0x1_0000_0000
    } else {
        0x1_0000_0000_0000_0000
    }
}

/// Appends the bytes of one element.
pub fn put_elem(out: &mut Vec<u8>, e: i128, size: usize)
    requires
        size == 1 || size == 2 || size == 4 || size == 8,
        -(bound(size as nat) as int) <= 2 * e,
        e < bound(size as nat),
    ensures
        final(out)@ == old(out)@ + elem_bytes(size as nat, e as int),
{
    let b = exec_bound(size);
    proof {
        lemma_bounds();
    }
    let u: u64 = if e < 0 {
        (e + b) as u64
    } else {
        e as u64
    };
    write_be(out, u, size);
}

/// Reads the element of `size` bytes that starts at `pos`.
pub fn get_elem(input: &[u8], pos: usize, size: usize, signed: bool) -> (r: i128)
    requires
        size == 1 || size == 2 || size == 4 || size == 8,
        pos + size <= input@.len(),
    ensures
        r == elem_value(
            if signed {
                ElementKind::Signed
            } else {
                ElementKind::Unsigned
            },
            input@.subrange(pos as int, pos + size),
        ),
{
    let len = input.len();
    let chunk = vstd::slice::slice_subrange(input, pos, pos + size);
    assert(chunk@.subrange(0, size as int) =~= chunk@);
    proof {
        lemma_be_value_bound(chunk@);
        lemma_bounds();
    }
    let u = read_be(chunk, size);
    let b = exec_bound(size);
    if signed && 2 * (u as i128) >= b {
        u as i128 - b
    } else {
        u as i128
    }
}

/// Appends the bytes of the elements, in order.
pub fn put_elems<T: Element>(out: &mut Vec<u8>, xs: &[T])
    ensures
        final(out)@ == old(out)@ + elems_bytes(T::width(), ints(xs@)),
{
    let size = T::size();
    let mut k: usize = 0;
    proof {
        T::lemma_width();
        assert(ints(xs@).take(0) =~= Seq::<int>::empty());
    }
    while k < xs.len()
        invariant
            k <= xs@.len(),
            size == T::width(),
            size == 1 || size == 2 || size == 4 || size == 8,
            out@ == old(out)@ + elems_bytes(T::width(), ints(xs@).take(k as int)),
        decreases xs@.len() - k,
    {
        let x = xs[k];
        proof {
            x.lemma_range();
            lemma_bounds();
            lemma_elems_bytes_push(T::width(), ints(xs@).take(k as int), x.as_int());
            assert(ints(xs@).take(k as int).push(x.as_int()) =~= ints(xs@).take(k + 1));
        }
        put_elem(out, x.to_wide(), size);
        k += 1;
    }
    assert(ints(xs@).take(k as int) =~= ints(xs@));
}

/// Every byte is 0 or 1.
pub open spec fn all_bools(bytes: Seq<u8>) -> bool {
    forall|i: int| 0 <= i < bytes.len() ==> #[trigger] bytes[i] <= 1
}

/// The byte at `j` is the first that is neither 0 nor 1.
pub open spec fn first_bad_bool(bytes: Seq<u8>, j: int) -> bool {
    &&& 0 <= j < bytes.len()
    &&& bytes[j] > 1
    &&& forall|i: int| 0 <= i < j ==> #[trigger] bytes[i] <= 1
}

/// Reads `N` elements from bytes that hold exactly as many. Integers always
/// read; booleans only where every byte is 0 or 1, and otherwise the first
/// byte that is not is reported.
pub fn get_elems<T: Element, const N: usize>(input: &[u8], zero: T) -> (r: Result<
    [T; N],
    KbinError,
>)
    requires
        input@.len() == N * T::width(),
    ensures
        r is Ok <==> (T::kind() == ElementKind::Bool ==> all_bools(input@)),
        r matches Ok(a) ==> ints(a@) == elems_of(T::kind(), T::width(), input@),
        r matches Err(e) ==> exists|j: int|
            first_bad_bool(input@, j) && e == KbinError::InvalidBoolean(input@[j]),
{
    let size = T::size();
    let signed = T::is_signed();
    let is_bool = T::is_bool();
    let len = input.len();
    let mut a: [T; N] = [zero;N];
    let mut k: usize = 0;
    let mut pos: usize = 0;
    proof {
        T::lemma_width();
    }
    while k < N
        invariant
            k <= N,
            pos == k * size,
            size == T::width(),
            signed == (T::kind() == ElementKind::Signed),
            is_bool == (T::kind() == ElementKind::Bool),
            is_bool ==> size == 1,
            size == 1 || size == 2 || size == 4 || size == 8,
            input@.len() == N * size,
            input@.len() == len,
            forall|i: int|
                0 <= i < k ==> (#[trigger] a@[i]).as_int() == elem_value(
                    T::kind(),
                    input@.subrange(i * size, i * size + size),
                ),
            is_bool ==> forall|i: int| 0 <= i < k ==> #[trigger] input@[i] <= 1,
        decreases N - k,
    {
        assert(pos + size <= input@.len()) by (nonlinear_arith)
            requires
                pos == k * size,
                k < N,
                input@.len() == N * size,
        ;
        let w = get_elem(input, pos, size, signed);
        proof {
            let chunk = input@.subrange(pos as int, pos + size);
            lemma_elem_bytes_value(T::kind(), chunk);
            if is_bool {
                assert(chunk =~= seq![input@[pos as int]]);
                reveal_with_fuel(be_value, 2);
                assert(chunk.drop_last() =~= Seq::<u8>::empty());
                assert(w == input@[pos as int]);
            }
        }
        if is_bool && w > 1 {
            assert(first_bad_bool(input@, k as int));
            return Err(KbinError::InvalidBoolean(input[pos]));
        }
        a[k] = T::from_wide(w);
        assert((k + 1) * size == pos + size) by (nonlinear_arith)
            requires
                pos == k * size,
        ;
        k += 1;
        pos += size;
    }
    proof {
        assert((N * size) / (size as int) == N as int) by (nonlinear_arith)
            requires
                size >= 1,
        ;
        assert(ints(a@) =~= elems_of(T::kind(), T::width(), input@));
        if is_bool {
            assert(all_bools(input@));
        }
    }
    Ok(a)
}

} // verus!