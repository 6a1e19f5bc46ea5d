//! The order in which the search reads a column: a total preorder on present
//! values, extended to nulls and to the sort direction.
use vstd::prelude::*;

verus! {

/// Values that a sorted column can hold, with a total preorder on them.
pub trait SortKey: Sized {
    /// `a` sorts at or before `b` in ascending order.
    spec fn key_le(a: Self, b: Self) -> bool;

    proof fn lemma_total(a: Self, b: Self)
        ensures
            Self::key_le(a, b) || Self::key_le(b, a),
    ;

    proof fn lemma_transitive(a: Self, b: Self, c: Self)
        requires
            Self::key_le(a, b),
            Self::key_le(b, c),
        ensures
            Self::key_le(a, c),
    ;

    fn le(&self, other: &Self) -> (r: bool)
        ensures
            r == Self::key_le(*self, *other),
    ;
}

impl SortKey for i8 {
    open spec fn key_le(a: i8, b: i8) -> bool {
        a <= b
    }

    proof fn lemma_total(a: i8, b: i8) {
    }

    proof fn lemma_transitive(a: i8, b: i8, c: i8) {
    }

    fn le(&self, other: &i8) -> (r: bool) {
        *self <= *other
    }
}

impl SortKey for i16 {
    open spec fn key_le(a: i16, b: i16) -> bool {
        a <= b
    }

    proof fn lemma_total(a: i16, b: i16) {
    }

    proof fn lemma_transitive(a: i16, b: i16, c: i16) {
    }

    fn le(&self, other: &i16) -> (r: bool) {
        *self <= *other
    }
}

impl SortKey for i32 {
    open spec fn key_le(a: i32, b: i32) -> bool {
        a <= b
    }

    proof fn lemma_total(a: i32, b: i32) {
    }

    proof fn lemma_transitive(a: i32, b: i32, c: i32) {
    }

    fn le(&self, other: &i32) -> (r: bool) {
        *self <= *other
    }
}

impl SortKey for i64 {
    open spec fn key_le(a: i64, b: i64) -> bool {
        a <= b
    }

    proof fn lemma_total(a: i64, b: i64) {
    }

    proof fn lemma_transitive(a: i64, b: i64, c: i64) {
    }

    fn le(&self, other: &i64) -> (r: bool) {
        *self <= *other
    }
}

impl SortKey for i128 {
    open spec fn key_le(a: i128, b: i128) -> bool {
        a <= b
    }

    proof fn lemma_total(a: i128, b: i128) {
    }

    proof fn lemma_transitive(a: i128, b: i128, c: i128) {
    }

    fn le(&self, other: &i128) -> (r: bool) {
        *self <= *other
    }
}

impl SortKey for u8 {
    open spec fn key_le(a: u8, b: u8) -> bool {
        a <= b
    }

    proof fn lemma_total(a: u8, b: u8) {
    }

    proof fn lemma_transitive(a: u8, b: u8, c: u8) {
    }

    fn le(&self, other: &u8) -> (r: bool) {
        *self <= *other
    }
}

impl SortKey for u16 {
    open spec fn key_le(a: u16, b: u16) -> bool {
        a <= b
    }

    proof fn lemma_total(a: u16, b: u16) {
    }

    proof fn lemma_transitive(a: u16, b: u16, c: u16) {
    }

    fn le(&self, other: &u16) -> (r: bool) {
        *self <= *other
    }
}

impl SortKey for u32 {
    open spec fn key_le(a: u32, b: u32) -> bool {
        a <= b
    }

    proof fn lemma_total(a: u32, b: u32) {
    }

    proof fn lemma_transitive(a: u32, b: u32, c: u32) {
    }

    fn le(&self, other: &u32) -> (r: bool) {
        *self <= *other
    }
}

impl SortKey for u64 {
    open spec fn key_le(a: u64, b: u64) -> bool {
        a <= b
    }

    proof fn lemma_total(a: u64, b: u64) {
    }

    proof fn lemma_transitive(a: u64, b: u64, c: u64) {
    }

    fn le(&self, other: &u64) -> (r: bool) {
        *self <= *other
    }
}

impl SortKey for u128 {
    open spec fn key_le(a: u128, b: u128) -> bool {
        a <= b
    }

    proof fn lemma_total(a: u128, b: u128) {
    }

    proof fn lemma_transitive(a: u128, b: u128, c: u128) {
    }

    fn le(&self, other: &u128) -> (r: bool) {
        *self <= *other
    }
}

/// A 32-bit float held as its IEEE 754 bit pattern.
#[derive(Clone, Copy, Debug, PartialEq, Eq, Structural)]
pub struct Float32Bits {
    pub bits: u32,
}

/// A 64-bit float held as its IEEE 754 bit pattern.
#[derive(Clone, Copy, Debug, PartialEq, Eq, Structural)]
pub struct Float64Bits {
    pub bits: u64,
}

/// Position of a 32-bit float in the search order: every NaN above every
/// other value and equal to each other, the two zeros equal, otherwise the
/// numeric order.
pub open spec fn f32_rank(bits: u32) -> int {
    let mag = bits % 0x8000_0000;
    if mag > 0x7f80_0000 {
        0x7fff_ffff
    } else if bits >= 0x8000_0000 {
        -mag
    } else {
        mag as int
    }
}

/// Position of a 64-bit float in the search order, as for `f32_rank`.
pub open spec fn f64_rank(bits: u64) -> int {
    let mag = bits % 0x8000_0000_0000_0000;
    if mag > 0x7ff0_0000_0000_0000 {
        0x7fff_ffff_ffff_ffff
    } else if bits >= 0x8000_0000_0000_0000 {
        -mag
    } else {
        mag as int
    }
}

fn f32_rank_exec(bits: u32) -> (r: i32)
    ensures
        r as int == f32_rank(bits),
{
    let mag: u32 = bits % 0x8000_0000;
    if mag > 0x7f80_0000 {
        0x7fff_ffff
    } else if bits >= 0x8000_0000 {
        -(mag as i32)
    } else {
        mag as i32
    }
}

fn f64_rank_exec(bits: u64) -> (r: i64)
    ensures
        r as int == f64_rank(bits),
{
    let mag: u64 = bits % 0x8000_0000_0000_0000;
    if mag > 0x7ff0_0000_0000_0000 {
        0x7fff_ffff_ffff_ffff
    } else if bits >= 0x8000_0000_0000_0000 {
        -(mag as i64)
    } else {
        mag as i64
    }
}

impl SortKey for Float32Bits {
    open spec fn key_le(a: Float32Bits, b: Float32Bits) -> bool {
        f32_rank(a.bits) <= f32_rank(b.bits)
    }

    proof fn lemma_total(a: Float32Bits, b: Float32Bits) {
    }

    proof fn lemma_transitive(a: Float32Bits, b: Float32Bits, c: Float32Bits) {
    }

    fn le(&self, other: &Float32Bits) -> (r: bool) {
        f32_rank_exec(self.bits) <= f32_rank_exec(other.bits)
    }
}

impl SortKey for Float64Bits {
    open spec fn key_le(a: Float64Bits, b: Float64Bits) -> bool {
        f64_rank(a.bits) <= f64_rank(b.bits)
    }

    proof fn lemma_total(a: Float64Bits, b: Float64Bits) {
    }

    proof fn lemma_transitive(a: Float64Bits, b: Float64Bits, c: Float64Bits) {
    }

    fn le(&self, other: &Float64Bits) -> (r: bool) {
        f64_rank_exec(self.bits) <= f64_rank_exec(other.bits)
    }
}

/// A UTF-8 string held as its bytes. Byte order on UTF-8 is the order of the
/// code points, which is the order of strings.
#[derive(Debug)]
pub struct Utf8Value {
    pub bytes: Vec<u8>,
}

/// Lexicographic order on byte strings: a proper prefix sorts first.
pub open spec fn bytes_le(a: Seq<u8>, b: Seq<u8>) -> bool
    decreases a.len(),
{
    if a.len() == 0 {
        true
    } else if b.len() == 0 {
        false
    } else if a[0] != b[0] {
        a[0] < b[0]
    } else {
        bytes_le(a.drop_first(), b.drop_first())
    }
}

proof fn lemma_bytes_total(a: Seq<u8>, b: Seq<u8>)
    ensures
        bytes_le(a, b) || bytes_le(b, a),
    decreases a.len(),
{
    if a.len() > 0 && b.len() > 0 && a[0] == b[0] {
        lemma_bytes_total(a.drop_first(), b.drop_first());
    }
}

proof fn lemma_bytes_transitive(a: Seq<u8>, b: Seq<u8>, c: Seq<u8>)
    requires
        bytes_le(a, b),
        bytes_le(b, c),
    ensures
        bytes_le(a, c),
    decreases a.len(),
{
    if a.len() > 0 && b.len() > 0 && c.len() > 0 && a[0] == b[0] && b[0] == c[0] {
        lemma_bytes_transitive(a.drop_first(), b.drop_first(), c.drop_first());
    }
}

fn bytes_le_exec(a: &Vec<u8>, b: &Vec<u8>) -> (r: bool)
    ensures
        r == bytes_le(a@, b@),
{
    let mut i: usize = 0;
    proof {
        assert(a@.subrange(0, a@.len() as int) =~= a@);
        assert(b@.subrange(0, b@.len() as int) =~= b@);
    }
    while i < a.len() && i < b.len()
        invariant
            i <= a.len(),
            i <= b.len(),
            bytes_le(a@, b@) == bytes_le(
                a@.subrange(i as int, a@.len() as int),
                b@.subrange(i as int, b@.len() as int),
            ),
        decreases a.len() - i,
    {
        if a[i] != b[i] {
            return a[i] < b[i];
        }
        proof {
            assert(a@.subrange(i + 1, a@.len() as int) =~= a@.subrange(
                i as int,
                a@.len() as int,
            ).drop_first());
            assert(b@.subrange(i + 1, b@.len() as int) =~= b@.subrange(
                i as int,
                b@.len() as int,
            ).drop_first());
        }
        i = i + 1;
    }
    i == a.len()
}

impl SortKey for Utf8Value {
    open spec fn key_le(a: Utf8Value, b: Utf8Value) -> bool {
        bytes_le(a.bytes@, b.bytes@)
    }

    proof fn lemma_total(a: Utf8Value, b: Utf8Value) {
        lemma_bytes_total(a.bytes@, b.bytes@);
    }

    proof fn lemma_transitive(a: Utf8Value, b: Utf8Value, c: Utf8Value) {
        lemma_bytes_transitive(a.bytes@, b.bytes@, c.bytes@);
    }

    fn le(&self, other: &Utf8Value) -> (r: bool) {
        bytes_le_exec(&self.bytes, &other.bytes)
    }
}

/// The order of a column's cells, `None` standing for null. In ascending
/// order a null sorts after every present value; `reversed` turns the whole
/// order round, so that nulls lead a descending column.
pub open spec fn cell_le<T: SortKey>(a: Option<T>, b: Option<T>, reversed: bool) -> bool {
    match (a, b) {
        (None, None) => true,
        (None, Some(_)) => reversed,
        (Some(_), None) => !reversed,
        (Some(x), Some(y)) => if reversed {
            T::key_le(y, x)
        } else {
            T::key_le(x, y)
        },
    }
}

pub proof fn lemma_cell_total<T: SortKey>(a: Option<T>, b: Option<T>, reversed: bool)
    ensures
        cell_le(a, b, reversed) || cell_le(b, a, reversed),
{
    if let (Some(x), Some(y)) = (a, b) {
        T::lemma_total(x, y);
    }
}

pub proof fn lemma_cell_transitive<T: SortKey>(
    a: Option<T>,
    b: Option<T>,
    c: Option<T>,
    reversed: bool,
)
    requires
        cell_le(a, b, reversed),
        cell_le(b, c, reversed),
    ensures
        cell_le(a, c, reversed),
{
    if let (Some(x), Some(y), Some(z)) = (a, b, c) {
        if reversed {
            T::lemma_transitive(z, y, x);
        } else {
            T::lemma_transitive(x, y, z);
        }
    }
}

/// The reversed order is the ascending order read backwards.
pub proof fn lemma_cell_reversed<T: SortKey>(a: Option<T>, b: Option<T>)
    ensures
        cell_le(a, b, true) == cell_le(b, a, false),
{
}

} // verus!
