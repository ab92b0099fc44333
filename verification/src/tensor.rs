//! Typed, shape-attributed byte buffers.
//!
//! A tensor holds its elements as bytes, each element in little-endian
//! order, so that a buffer means the same on every machine.

use crate::dim::{elem_count, range_product, shape_fits, Dimension, Dimensions};
use std::sync::Arc;
use vstd::arithmetic::div_mod::lemma_fundamental_div_mod_converse;
use vstd::prelude::*;
use vstd::slice::slice_subrange;

verus! {

/// The element types a tensor can hold.
#[derive(Debug, Clone, Copy, PartialEq, Eq, Hash, Structural)]
pub enum TensorElemType {
    Bool,
    F32,
    I32,
    I64,
}

impl TensorElemType {
    /// Bytes that one element takes.
    pub open spec fn spec_size(self) -> nat {
        match self {
            TensorElemType::Bool => 1,
            TensorElemType::F32 => 4,
            TensorElemType::I32 => 4,
            TensorElemType::I64 => 8,
        }
    }

    pub fn size(&self) -> (n: usize)
        ensures
            n == self.spec_size(),
    {
        match self {
            TensorElemType::Bool => 1,
            TensorElemType::F32 => 4,
            TensorElemType::I32 => 4,
            TensorElemType::I64 => 8,
        }
    }

    pub fn is_bool(&self) -> (b: bool)
        ensures
            b == (*self == TensorElemType::Bool),
    {
        matches!(self, TensorElemType::Bool)
    }

    pub fn is_f32(&self) -> (b: bool)
        ensures
            b == (*self == TensorElemType::F32),
    {
        matches!(self, TensorElemType::F32)
    }

    pub fn is_i32(&self) -> (b: bool)
        ensures
            b == (*self == TensorElemType::I32),
    {
        matches!(self, TensorElemType::I32)
    }

    pub fn is_i64(&self) -> (b: bool)
        ensures
            b == (*self == TensorElemType::I64),
    {
        matches!(self, TensorElemType::I64)
    }
}

/// The type and shape of a tensor.
#[derive(Debug, Clone, PartialEq, Eq, Hash)]
pub struct TypedShape {
    pub dims: Dimensions,
    pub elem_ty: TensorElemType,
}

impl View for TypedShape {
    type V = (Seq<usize>, TensorElemType);

    open spec fn view(&self) -> (Seq<usize>, TensorElemType) {
        (self.dims@, self.elem_ty)
    }
}

impl TypedShape {
    pub fn new(dims: Dimensions, elem_ty: TensorElemType) -> (s: Self)
        ensures
            s.dims == dims,
            s.elem_ty == elem_ty,
    {
        Self { dims, elem_ty }
    }
}

/// A single-precision number, held as its IEEE 754 bit pattern.
#[derive(Debug, Clone, Copy, PartialEq, Eq, Hash, Structural)]
pub struct F32Bits(pub u32);

/// The four bytes of `x`, the least significant first.
pub open spec fn le_bytes4(x: u32) -> Seq<u8> {
    seq![
        (x & 0xff) as u8,
        ((x >> 8) & 0xff) as u8,
        ((x >> 16) & 0xff) as u8,
        ((x >> 24) & 0xff) as u8,
    ]
}

/// The number whose four bytes, the least significant first, are `s`.
pub open spec fn le_value4(s: Seq<u8>) -> u32 {
    (s[0] as u32) | (s[1] as u32) << 8 | (s[2] as u32) << 16 | (s[3] as u32) << 24
}

/// The eight bytes of `x`, the least significant first.
pub open spec fn le_bytes8(x: u64) -> Seq<u8> {
    seq![
        (x & 0xff) as u8,
        ((x >> 8) & 0xff) as u8,
        ((x >> 16) & 0xff) as u8,
        ((x >> 24) & 0xff) as u8,
        ((x >> 32) & 0xff) as u8,
        ((x >> 40) & 0xff) as u8,
        ((x >> 48) & 0xff) as u8,
        ((x >> 56) & 0xff) as u8,
    ]
}

/// The number whose eight bytes, the least significant first, are `s`.
pub open spec fn le_value8(s: Seq<u8>) -> u64 {
    (s[0] as u64) | (s[1] as u64) << 8 | (s[2] as u64) << 16 | (s[3] as u64) << 24 | (s[4] as u64)
        << 32 | (s[5] as u64) << 40 | (s[6] as u64) << 48 | (s[7] as u64) << 56
}

/// Four bytes hold a number: reading them gives it back. The bytes of 0 are
/// all 0.
pub proof fn lemma_le4(x: u32)
    ensures
        le_bytes4(x).len() == 4,
        le_value4(le_bytes4(x)) == x,
        forall|i: int| 0 <= i < 4 ==> le_bytes4(0)[i] == 0,
{
    let b0 = (x & 0xff) as u8;
    let b1 = ((x >> 8) & 0xff) as u8;
    let b2 = ((x >> 16) & 0xff) as u8;
    let b3 = ((x >> 24) & 0xff) as u8;
    assert(((b0 as u32) | (b1 as u32) << 8 | (b2 as u32) << 16 | (b3 as u32) << 24) == x)
        by (bit_vector)
        requires
            b0 == (x & 0xff) as u8,
            b1 == ((x >> 8) & 0xff) as u8,
            b2 == ((x >> 16) & 0xff) as u8,
            b3 == ((x >> 24) & 0xff) as u8,
    ;
    assert((0u32 & 0xff) as u8 == 0 && ((0u32 >> 8) & 0xff) as u8 == 0 && ((0u32 >> 16) & 0xff) as u8
        == 0 && ((0u32 >> 24) & 0xff) as u8 == 0) by (bit_vector);
}

/// Eight bytes hold a number: reading them gives it back. The bytes of 0
/// are all 0.
pub proof fn lemma_le8(x: u64)
    ensures
        le_bytes8(x).len() == 8,
        le_value8(le_bytes8(x)) == x,
        forall|i: int| 0 <= i < 8 ==> le_bytes8(0)[i] == 0,
{
    let b0 = (x & 0xff) as u8;
    let b1 = ((x >> 8) & 0xff) as u8;
    let b2 = ((x >> 16) & 0xff) as u8;
    let b3 = ((x >> 24) & 0xff) as u8;
    let b4 = ((x >> 32) & 0xff) as u8;
    let b5 = ((x >> 40) & 0xff) as u8;
    let b6 = ((x >> 48) & 0xff) as u8;
    let b7 = ((x >> 56) & 0xff) as u8;
    assert(((b0 as u64) | (b1 as u64) << 8 | (b2 as u64) << 16 | (b3 as u64) << 24 | (b4 as u64)
        << 32 | (b5 as u64) << 40 | (b6 as u64) << 48 | (b7 as u64) << 56) == x) by (bit_vector)
        requires
            b0 == (x & 0xff) as u8,
            b1 == ((x >> 8) & 0xff) as u8,
            b2 == ((x >> 16) & 0xff) as u8,
            b3 == ((x >> 24) & 0xff) as u8,
            b4 == ((x >> 32) & 0xff) as u8,
            b5 == ((x >> 40) & 0xff) as u8,
            b6 == ((x >> 48) & 0xff) as u8,
            b7 == ((x >> 56) & 0xff) as u8,
    ;
    assert((0u64 & 0xff) as u8 == 0 && ((0u64 >> 8) & 0xff) as u8 == 0 && ((0u64 >> 16) & 0xff) as u8
        == 0 && ((0u64 >> 24) & 0xff) as u8 == 0 && ((0u64 >> 32) & 0xff) as u8 == 0 && ((0u64
        >> 40) & 0xff) as u8 == 0 && ((0u64 >> 48) & 0xff) as u8 == 0 && ((0u64 >> 56) & 0xff) as u8
        == 0) by (bit_vector);
}

/// See `le_bytes4`.
fn u32_to_le_bytes(x: u32) -> (b: Vec<u8>)
    ensures
        b@ == le_bytes4(x),
{
    let mut b: Vec<u8> = Vec::new();
    b.push(#[verifier::truncate] ((x & 0xff) as u8));
    b.push(#[verifier::truncate] (((x >> 8) & 0xff) as u8));
    b.push(#[verifier::truncate] (((x >> 16) & 0xff) as u8));
    b.push(#[verifier::truncate] (((x >> 24) & 0xff) as u8));
    assert(b@ =~= le_bytes4(x));
    b
}

/// See `le_value4`.
fn u32_from_le_bytes(s: &[u8]) -> (x: u32)
    requires
        s@.len() == 4,
    ensures
        x == le_value4(s@),
{
    (s[0] as u32) | (s[1] as u32) << 8 | (s[2] as u32) << 16 | (s[3] as u32) << 24
}

/// See `le_bytes8`.
fn u64_to_le_bytes(x: u64) -> (b: Vec<u8>)
    ensures
        b@ == le_bytes8(x),
{
    let mut b: Vec<u8> = Vec::new();
    b.push(#[verifier::truncate] ((x & 0xff) as u8));
    b.push(#[verifier::truncate] (((x >> 8) & 0xff) as u8));
    b.push(#[verifier::truncate] (((x >> 16) & 0xff) as u8));
    b.push(#[verifier::truncate] (((x >> 24) & 0xff) as u8));
    b.push(#[verifier::truncate] (((x >> 32) & 0xff) as u8));
    b.push(#[verifier::truncate] (((x >> 40) & 0xff) as u8));
    b.push(#[verifier::truncate] (((x >> 48) & 0xff) as u8));
    b.push(#[verifier::truncate] (((x >> 56) & 0xff) as u8));
    assert(b@ =~= le_bytes8(x));
    b
}

/// See `le_value8`.
fn u64_from_le_bytes(s: &[u8]) -> (x: u64)
    requires
        s@.len() == 8,
    ensures
        x == le_value8(s@),
{
    (s[0] as u64) | (s[1] as u64) << 8 | (s[2] as u64) << 16 | (s[3] as u64) << 24 | (s[4] as u64)
        << 32 | (s[5] as u64) << 40 | (s[6] as u64) << 48 | (s[7] as u64) << 56
}

/// A Rust type that can be an element of a tensor.
pub trait TensorElemTypeExt: PartialEq + Copy {
    /// The element type that stands for `Self`.
    spec fn spec_type() -> TensorElemType;

    /// The zero of `Self`.
    spec fn spec_zero() -> Self;

    /// The bytes that hold a value in a tensor.
    spec fn encoding(self) -> Seq<u8>;

    /// The value that `bytes` hold.
    spec fn decoding(bytes: Seq<u8>) -> Self;

    /// An encoding has the size of the element type, and decodes to the
    /// value it was made from. The bytes of the zero are all 0.
    proof fn lemma_encoding(x: Self)
        ensures
            x.encoding().len() == Self::spec_type().spec_size(),
            Self::decoding(x.encoding()) == x,
            forall|i: int|
                0 <= i < Self::spec_type().spec_size() ==> Self::spec_zero().encoding()[i] == 0,
    ;

    fn get_type() -> (t: TensorElemType)
        ensures
            t == Self::spec_type(),
    ;

    fn zero() -> (z: Self)
        ensures
            z == Self::spec_zero(),
    ;

    fn to_bytes(&self) -> (b: Vec<u8>)
        ensures
            b@ == self.encoding(),
    ;

    fn from_bytes(bytes: &[u8]) -> (x: Self)
        requires
            bytes@.len() == Self::spec_type().spec_size(),
        ensures
            x == Self::decoding(bytes@),
    ;
}

impl TensorElemTypeExt for u8 {
    open spec fn spec_type() -> TensorElemType {
        TensorElemType::Bool
    }

    open spec fn spec_zero() -> Self {
        0
    }

    open spec fn encoding(self) -> Seq<u8> {
        seq![self]
    }

    open spec fn decoding(bytes: Seq<u8>) -> Self {
        bytes[0]
    }

    proof fn lemma_encoding(x: Self) {
    }

    fn get_type() -> (t: TensorElemType) {
        TensorElemType::Bool
    }

    fn zero() -> (z: Self) {
        0
    }

    fn to_bytes(&self) -> (b: Vec<u8>) {
        let mut b: Vec<u8> = Vec::new();
        b.push(*self);
        assert(b@ =~= seq![*self]);
        b
    }

    fn from_bytes(bytes: &[u8]) -> (x: Self) {
        bytes[0]
    }
}

impl TensorElemTypeExt for bool {
    open spec fn spec_type() -> TensorElemType {
        TensorElemType::Bool
    }

    open spec fn spec_zero() -> Self {
        false
    }

    open spec fn encoding(self) -> Seq<u8> {
        seq![if self { 1u8 } else { 0u8 }]
    }

    open spec fn decoding(bytes: Seq<u8>) -> Self {
        bytes[0] != 0
    }

    proof fn lemma_encoding(x: Self) {
    }

    fn get_type() -> (t: TensorElemType) {
        TensorElemType::Bool
    }

    fn zero() -> (z: Self) {
        false
    }

    fn to_bytes(&self) -> (b: Vec<u8>) {
        let mut b: Vec<u8> = Vec::new();
        let byte: u8 = if *self { 1 } else { 0 };
        b.push(byte);
        assert(b@ =~= seq![byte]);
        b
    }

    fn from_bytes(bytes: &[u8]) -> (x: Self) {
        bytes[0] != 0
    }
}

impl TensorElemTypeExt for F32Bits {
    open spec fn spec_type() -> TensorElemType {
        TensorElemType::F32
    }

    open spec fn spec_zero() -> Self {
        F32Bits(0)
    }

    open spec fn encoding(self) -> Seq<u8> {
        le_bytes4(self.0)
    }

    open spec fn decoding(bytes: Seq<u8>) -> Self {
        F32Bits(le_value4(bytes))
    }

    proof fn lemma_encoding(x: Self) {
        lemma_le4(x.0);
    }

    fn get_type() -> (t: TensorElemType) {
        TensorElemType::F32
    }

    fn zero() -> (z: Self) {
        F32Bits(0)
    }

    fn to_bytes(&self) -> (b: Vec<u8>) {
        u32_to_le_bytes(self.0)
    }

    fn from_bytes(bytes: &[u8]) -> (x: Self) {
        F32Bits(u32_from_le_bytes(bytes))
    }
}

impl TensorElemTypeExt for i32 {
    open spec fn spec_type() -> TensorElemType {
        TensorElemType::I32
    }

    open spec fn spec_zero() -> Self {
        0
    }

    open spec fn encoding(self) -> Seq<u8> {
        le_bytes4(self as u32)
    }

    open spec fn decoding(bytes: Seq<u8>) -> Self {
        le_value4(bytes) as i32
    }

    proof fn lemma_encoding(x: Self) {
        lemma_le4(x as u32);
        assert((x as u32) as i32 == x) by (bit_vector);
        assert(0i32 as u32 == 0u32) by (bit_vector);
    }

    fn get_type() -> (t: TensorElemType) {
        TensorElemType::I32
    }

    fn zero() -> (z: Self) {
        0
    }

    fn to_bytes(&self) -> (b: Vec<u8>) {
        u32_to_le_bytes(#[verifier::truncate] (*self as u32))
    }

    fn from_bytes(bytes: &[u8]) -> (x: Self) {
        #[verifier::truncate] (u32_from_le_bytes(bytes) as i32)
    }
}

impl TensorElemTypeExt for i64 {
    open spec fn spec_type() -> TensorElemType {
        TensorElemType::I64
    }

    open spec fn spec_zero() -> Self {
        0
    }

    open spec fn encoding(self) -> Seq<u8> {
        le_bytes8(self as u64)
    }

    open spec fn decoding(bytes: Seq<u8>) -> Self {
        le_value8(bytes) as i64
    }

    proof fn lemma_encoding(x: Self) {
        lemma_le8(x as u64);
        assert((x as u64) as i64 == x) by (bit_vector);
        assert(0i64 as u64 == 0u64) by (bit_vector);
    }

    fn get_type() -> (t: TensorElemType) {
        TensorElemType::I64
    }

    fn zero() -> (z: Self) {
        0
    }

    fn to_bytes(&self) -> (b: Vec<u8>) {
        u64_to_le_bytes(#[verifier::truncate] (*self as u64))
    }

    fn from_bytes(bytes: &[u8]) -> (x: Self) {
        #[verifier::truncate] (u64_from_le_bytes(bytes) as i64)
    }
}

/// The strides of a densely packed, row-major tensor: the stride of an axis
/// is the number of elements that all later axes span.
pub open spec fn row_major_strides(dims: Seq<usize>) -> Seq<usize> {
    Seq::new(dims.len(), |i: int| range_product(dims, i + 1, dims.len() as int) as usize)
}

/// The bytes that hold `data`, element after element.
pub open spec fn encoded<T: TensorElemTypeExt>(data: Seq<T>) -> Seq<u8>
    decreases data.len(),
{
    if data.len() == 0 {
        Seq::empty()
    } else {
        encoded(data.drop_last()) + data.last().encoding()
    }
}

/// The elements that `bytes` hold; bytes after the last whole element are
/// left out.
pub open spec fn decoded<T: TensorElemTypeExt>(bytes: Seq<u8>) -> Seq<T> {
    let size = T::spec_type().spec_size() as int;
    Seq::new(
        (bytes.len() / size as nat) as nat,
        |i: int| T::decoding(bytes.subrange(i * size, (i + 1) * size)),
    )
}

/// Encoded data takes the element size for each element.
pub proof fn lemma_encoded_len<T: TensorElemTypeExt>(data: Seq<T>)
    ensures
        encoded(data).len() == data.len() * T::spec_type().spec_size(),
    decreases data.len(),
{
    if data.len() > 0 {
        lemma_encoded_len(data.drop_last());
        T::lemma_encoding(data.last());
        let n = data.len() as int;
        let size = T::spec_type().spec_size() as int;
        assert((n - 1) * size + size == n * size) by (nonlinear_arith);
    } else {
        assert(0 * T::spec_type().spec_size() == 0) by (nonlinear_arith);
    }
}

/// `n` zeros of an element type.
pub open spec fn zeros_of<T: TensorElemTypeExt>(n: nat) -> Seq<T> {
    Seq::new(n, |i: int| T::spec_zero())
}

/// `n` bytes 0.
pub open spec fn zero_bytes(n: nat) -> Seq<u8> {
    Seq::new(n, |i: int| 0u8)
}

/// The bytes that hold zeros are all 0.
pub proof fn lemma_encoded_zeros<T: TensorElemTypeExt>(n: nat)
    ensures
        encoded(zeros_of::<T>(n)) == zero_bytes(n * T::spec_type().spec_size()),
    decreases n,
{
    let data = zeros_of::<T>(n);
    lemma_encoded_len(data);
    if n > 0 {
        lemma_encoded_zeros::<T>((n - 1) as nat);
        lemma_encoded_len(data.drop_last());
        T::lemma_encoding(T::spec_zero());
        assert(data.drop_last() =~= zeros_of::<T>((n - 1) as nat));
        assert(data.last() == T::spec_zero());
    }
    assert(encoded(data) =~= zero_bytes(n * T::spec_type().spec_size()));
}

/// The bytes of element `i` of encoded data are the encoding of that
/// element.
pub proof fn lemma_encoded_chunk<T: TensorElemTypeExt>(data: Seq<T>, i: int)
    requires
        0 <= i < data.len(),
    ensures
        (i + 1) * T::spec_type().spec_size() <= encoded(data).len(),
        encoded(data).subrange(
            i * T::spec_type().spec_size(),
            (i + 1) * T::spec_type().spec_size(),
        ) == data[i].encoding(),
    decreases data.len(),
{
    let size = T::spec_type().spec_size() as int;
    let n = data.len() as int;
    let front = encoded(data.drop_last());
    lemma_encoded_len(data);
    lemma_encoded_len(data.drop_last());
    T::lemma_encoding(data.last());
    assert((i + 1) * size <= n * size && (n - 1) * size + size == n * size && i * size >= 0)
        by (nonlinear_arith)
        requires
            0 <= i < n,
            size > 0,
    ;
    if i < n - 1 {
        lemma_encoded_chunk(data.drop_last(), i);
        assert((i + 1) * size <= (n - 1) * size) by (nonlinear_arith)
            requires
                i + 1 <= n - 1,
                size > 0,
        ;
        assert(encoded(data).subrange(i * size, (i + 1) * size) =~= front.subrange(
            i * size,
            (i + 1) * size,
        ));
    } else {
        assert(encoded(data).subrange(i * size, (i + 1) * size) =~= data.last().encoding());
    }
}

/// Decoding what was encoded gives the elements back.
pub proof fn lemma_decoded_encoded<T: TensorElemTypeExt>(data: Seq<T>)
    ensures
        decoded::<T>(encoded(data)) == data,
{
    let size = T::spec_type().spec_size() as int;
    let n = data.len() as int;
    lemma_encoded_len(data);
    assert((n * size) / size == n) by (nonlinear_arith)
        requires
            size > 0,
    ;
    assert forall|i: int| 0 <= i < n implies decoded::<T>(encoded(data))[i] == data[i] by {
        lemma_encoded_chunk(data, i);
        T::lemma_encoding(data[i]);
    }
    assert(decoded::<T>(encoded(data)) =~= data);
}

/// The element offset that the first `n` indices select: the sum of each
/// index times the stride of its axis.
pub open spec fn offset_upto(indices: Seq<usize>, strides: Seq<usize>, n: nat) -> nat
    decreases n,
{
    if n == 0 {
        0
    } else {
        offset_upto(indices, strides, (n - 1) as nat) + (indices[n - 1] * strides[n - 1]) as nat
    }
}

/// The element offset that `indices` select; indices beyond the last axis,
/// and axes beyond the last index, do not count.
pub open spec fn element_offset(indices: Seq<usize>, strides: Seq<usize>) -> nat {
    offset_upto(
        indices,
        strides,
        if indices.len() <= strides.len() {
            indices.len()
        } else {
            strides.len()
        },
    )
}

/// An offset grows with the number of indices that count.
pub proof fn lemma_offset_upto_monotone(indices: Seq<usize>, strides: Seq<usize>, k: nat, n: nat)
    requires
        k <= n,
    ensures
        offset_upto(indices, strides, k) <= offset_upto(indices, strides, n),
    decreases n,
{
    if k < n {
        lemma_offset_upto_monotone(indices, strides, k, (n - 1) as nat);
        assert(indices[n - 1] * strides[n - 1] >= 0) by (nonlinear_arith);
    }
}

/// The stride at position `j` of a tensor of shape `from` seen under the
/// larger shape `to`: the tensor's own stride where the extents agree, 0
/// where the tensor has extent 1 or no axis at all.
pub open spec fn broadcast_stride_at(
    from: Seq<usize>,
    strides: Seq<usize>,
    to: Seq<usize>,
    j: int,
) -> Option<usize> {
    let off = to.len() - from.len();
    if j < off {
        Some(0)
    } else if to[j] == from[j - off] {
        Some(strides[j - off])
    } else if from[j - off] == 1 {
        Some(0)
    } else {
        None
    }
}

/// The strides of a tensor of shape `from` seen under the shape `to`, if
/// `from` broadcasts to `to`.
pub open spec fn broadcast_strides(from: Seq<usize>, strides: Seq<usize>, to: Seq<usize>) -> Option<
    Seq<usize>,
> {
    if to.len() >= from.len() && (forall|j: int|
        0 <= j < to.len() ==> (#[trigger] broadcast_stride_at(from, strides, to, j)) is Some) {
        Some(Seq::new(to.len(), |j: int| broadcast_stride_at(from, strides, to, j)->0))
    } else {
        None
    }
}

/// The bytes of the element at `offset`.
pub open spec fn element_bytes(bytes: Seq<u8>, ty: TensorElemType, offset: nat) -> Seq<u8> {
    bytes.subrange((offset * ty.spec_size()) as int, ((offset + 1) * ty.spec_size()) as int)
}

/// Byte `k` of the single-precision element at `(row, col)` of a dense
/// matrix with `cols` columns.
pub open spec fn matrix_byte(bytes: Seq<u8>, cols: int, row: int, col: int, k: int) -> u8 {
    bytes[(row * cols + col) * 4 + k]
}

/// What a tensor is: its shape, its strides, its element type and its bytes.
pub struct TensorView {
    pub dims: Seq<usize>,
    pub strides: Seq<usize>,
    pub elem_ty: TensorElemType,
    pub bytes: Seq<u8>,
}

impl TensorView {
    /// The strides are those of a row-major tensor of the shape, and every
    /// one of them fits in `usize`.
    pub open spec fn wf(self) -> bool {
        &&& shape_fits(self.dims)
        &&& self.strides == row_major_strides(self.dims)
    }

    /// The buffer holds exactly the elements that the shape describes.
    pub open spec fn complete(self) -> bool {
        self.bytes.len() == elem_count(self.dims) * self.elem_ty.spec_size()
    }

    /// The same buffer under another shape.
    pub open spec fn reshaped(self, dims: Seq<usize>) -> TensorView {
        TensorView { dims, strides: row_major_strides(dims), elem_ty: self.elem_ty, bytes: self.bytes }
    }
}

/// Reshaping a tensor and then reshaping it back to its own shape gives the
/// tensor back, bytes included.
pub proof fn lemma_reshape_round_trip(t: TensorView, dims: Seq<usize>)
    requires
        t.wf(),
    ensures
        t.reshaped(dims).reshaped(t.dims) == t,
        t.reshaped(dims).bytes == t.bytes,
{
}

/// Reshaping to a shape with as many elements keeps a buffer complete.
pub proof fn lemma_reshape_keeps_complete(t: TensorView, dims: Seq<usize>)
    requires
        t.complete(),
        elem_count(dims) == elem_count(t.dims),
    ensures
        t.reshaped(dims).complete(),
{
}

/// A typed, shape-attributed buffer. The buffer is shared between copies of
/// the tensor.
#[derive(Debug, PartialEq, Eq)]
pub struct Tensor {
    dims: Dimensions,
    stride: Dimensions,
    data: Arc<Vec<u8>>,
    elem_ty: TensorElemType,
}

impl View for Tensor {
    type V = TensorView;

    closed spec fn view(&self) -> TensorView {
        TensorView {
            dims: self.dims@,
            strides: self.stride@,
            elem_ty: self.elem_ty,
            bytes: self.data@,
        }
    }
}

/// `Arc::make_mut` on a byte buffer: a unique reference to the bytes, which
/// are copied first if the buffer is shared. The bytes read as before, and
/// what is written through the reference is what the buffer holds
/// afterwards. The call does not unwind: copying bytes cannot panic, and a
/// failed allocation ends the process.
#[verifier::external_body]
fn unique_bytes(data: &mut Arc<Vec<u8>>) -> (bytes: &mut Vec<u8>)
    ensures
        bytes@ == old(data)@,
        final(data)@ == final(bytes)@,
    no_unwind
{
    Arc::make_mut(data)
}

impl Clone for Tensor {
    fn clone(&self) -> (t: Self)
        ensures
            t@ == self@,
    {
        self.duplicate()
    }
}

/// The strides of a row-major tensor of shape `dims`.
pub fn compute_strides(dims: &Dimensions) -> (strides: Dimensions)
    requires
        shape_fits(dims@),
    ensures
        strides@ == row_major_strides(dims@),
{
    let n = dims.0.len();
    let mut v: Vec<usize> = Vec::new();
    let mut k: usize = 0;
    while k < n
        invariant
            k <= n,
            v@.len() == k,
        decreases n - k,
    {
        v.push(0);
        k += 1;
    }
    let mut acc: usize = 1;
    let mut i: usize = n;
    while i > 0
        invariant
            n == dims@.len(),
            shape_fits(dims@),
            i <= n,
            v@.len() == n,
            acc == range_product(dims@, i as int, n as int),
            forall|j: int| i <= j < n ==> v@[j] == range_product(dims@, j + 1, n as int),
        decreases i,
    {
        v.set(i - 1, acc);
        proof {
            let next = range_product(dims@, i - 1, n as int);
            assert(next <= usize::MAX);
            assert(next == dims@[i - 1] as nat * (acc as nat));
            assert(dims@[i - 1] as nat * (acc as nat) == acc * dims@[i - 1]) by (nonlinear_arith);
        }
        acc = acc * dims.0[i - 1];
        i -= 1;
    }
    assert(v@ =~= row_major_strides(dims@));
    Dimensions(v)
}

impl Tensor {
    #[verifier::type_invariant]
    spec fn inv(self) -> bool {
        self@.wf()
    }

    /// A tensor of shape `dims` whose buffer holds `data`, element after
    /// element. The buffer is complete if `data` has as many elements as the
    /// shape describes.
    pub fn new<T: TensorElemTypeExt>(dims: Dimensions, data: Vec<T>) -> (t: Self)
        requires
            shape_fits(dims@),
        ensures
            t@.wf(),
            t@.dims == dims@,
            t@.elem_ty == T::spec_type(),
            t@.bytes == encoded(data@),
            data@.len() == elem_count(dims@) ==> t@.complete(),
    {
        let mut bytes: Vec<u8> = Vec::new();
        let mut i: usize = 0;
        while i < data.len()
            invariant
                i <= data@.len(),
                bytes@ == encoded(data@.take(i as int)),
            decreases data@.len() - i,
        {
            let mut b = data[i].to_bytes();
            proof {
                let next = data@.take(i as int + 1);
                assert(next.drop_last() =~= data@.take(i as int));
                assert(next.last() == data@[i as int]);
            }
            bytes.append(&mut b);
            i += 1;
        }
        proof {
            assert(data@.take(data@.len() as int) =~= data@);
            lemma_encoded_len(data@);
        }
        Self::new_from_raw(dims, T::get_type(), bytes)
    }

    /// A tensor of shape `dims` and type `elem_ty` over the bytes `data`.
    pub fn new_from_raw(dims: Dimensions, elem_ty: TensorElemType, data: Vec<u8>) -> (t: Self)
        requires
            shape_fits(dims@),
        ensures
            t@.wf(),
            t@.dims == dims@,
            t@.elem_ty == elem_ty,
            t@.bytes == data@,
    {
        Self { stride: compute_strides(&dims), elem_ty, data: Arc::new(data), dims }
    }

    /// Returns `Tensor` of given type and shape but allocates no elements.
    /// This is used in shape inference.
    pub fn empty_of_type(ty: TensorElemType, dims: Dimensions) -> (t: Self)
        requires
            shape_fits(dims@),
        ensures
            t@.wf(),
            t@.dims == dims@,
            t@.elem_ty == ty,
            t@.bytes.len() == 0,
    {
        Self::new_from_raw(dims, ty, Vec::new())
    }

    /// A tensor of the given type and shape whose bytes are all zero.
    pub fn zeros_of_type(ty: TensorElemType, dims: Dimensions) -> (t: Self)
        requires
            shape_fits(dims@),
            elem_count(dims@) * ty.spec_size() <= usize::MAX,
        ensures
            t@.wf(),
            t@.dims == dims@,
            t@.elem_ty == ty,
            t@.complete(),
            t@.bytes == zero_bytes(elem_count(dims@) * ty.spec_size()),
    {
        let total = dims.total_elems() * ty.size();
        let mut bytes: Vec<u8> = Vec::new();
        let mut i: usize = 0;
        while i < total
            invariant
                i <= total,
                bytes@.len() == i,
                forall|k: int| 0 <= k < i ==> bytes@[k] == 0,
            decreases total - i,
        {
            bytes.push(0);
            i += 1;
        }
        assert(bytes@ =~= zero_bytes(elem_count(dims@) * ty.spec_size()));
        Self::new_from_raw(dims, ty, bytes)
    }

    /// A tensor of shape `dims` whose elements are all the zero of `T`; its
    /// bytes are all 0, as are those of `zeros_of_type` for the type of `T`.
    pub fn zeros<T: TensorElemTypeExt>(dims: Dimensions) -> (t: Self)
        requires
            shape_fits(dims@),
        ensures
            t@.wf(),
            t@.dims == dims@,
            t@.elem_ty == T::spec_type(),
            t@.complete(),
            t@.bytes == encoded(zeros_of::<T>(elem_count(dims@))),
            t@.bytes == zero_bytes(elem_count(dims@) * T::spec_type().spec_size()),
    {
        proof {
            lemma_encoded_zeros::<T>(elem_count(dims@));
        }
        let total = dims.total_elems();
        let mut data: Vec<T> = Vec::new();
        let mut i: usize = 0;
        while i < total
            invariant
                i <= total,
                data@.len() == i,
                forall|k: int| 0 <= k < i ==> data@[k] == T::spec_zero(),
            decreases total - i,
        {
            data.push(T::zero());
            i += 1;
        }
        assert(data@ =~= zeros_of::<T>(elem_count(dims@)));
        Self::new(dims, data)
    }

    /// A tensor of the given type and shape with room for every element.
    /// What the elements hold is not specified: write them before reading.
    pub fn uninit_of_type(ty: TensorElemType, dims: Dimensions) -> (t: Self)
        requires
            shape_fits(dims@),
            elem_count(dims@) * ty.spec_size() <= usize::MAX,
        ensures
            t@.wf(),
            t@.dims == dims@,
            t@.elem_ty == ty,
            t@.complete(),
    {
        Self::zeros_of_type(ty, dims)
    }

    /// A tensor of shape `dims` with room for every element of type `T`.
    /// What the elements hold is not specified: write them before reading.
    pub fn uninit<T: TensorElemTypeExt>(dims: Dimensions) -> (t: Self)
        requires
            shape_fits(dims@),
        ensures
            t@.wf(),
            t@.dims == dims@,
            t@.elem_ty == T::spec_type(),
            t@.complete(),
    {
        Self::zeros::<T>(dims)
    }

    /// Replaces the buffer by the bytes that hold `data`.
    pub fn set_raw_vec<T: TensorElemTypeExt>(&mut self, data: Vec<T>)
        ensures
            final(self)@ == (TensorView { bytes: encoded(data@), ..old(self)@ }),
            final(self)@.wf(),
    {
        proof {
            use_type_invariant(&*self);
        }
        let t = Tensor::new::<T>(self.dims.duplicate(), data);
        self.data = t.data;
    }

    /// The same buffer under the shape `dims`, which must describe exactly
    /// the elements that the buffer holds.
    pub fn reshape_into(self, dims: Dimensions) -> (t: Self)
        requires
            shape_fits(dims@),
            self@.reshaped(dims@).complete(),
        ensures
            t@ == self@.reshaped(dims@),
            t@.wf(),
    {
        Self { stride: compute_strides(&dims), dims, data: self.data, elem_ty: self.elem_ty }
    }

    pub fn dims(&self) -> (d: &Dimensions)
        ensures
            d@ == self@.dims,
            self@.wf(),
    {
        proof {
            use_type_invariant(self);
        }
        &self.dims
    }

    /// The extents as an array; the tensor must have exactly `N` axes.
    pub fn fixed_dims<const N: usize>(&self) -> (a: [Dimension; N])
        requires
            self@.dims.len() == N,
        ensures
            a@ == self@.dims,
    {
        self.dims.to_fixed_dims::<N>()
    }

    /// Shares the buffer of `other`.
    pub fn copy_data_from(&mut self, other: &Self)
        ensures
            final(self)@ == (TensorView { bytes: other@.bytes, ..old(self)@ }),
            final(self)@.wf(),
    {
        proof {
            use_type_invariant(&*self);
        }
        self.data = other.data.clone();
    }

    pub fn elem_ty(&self) -> (ty: TensorElemType)
        ensures
            ty == self@.elem_ty,
    {
        self.elem_ty
    }

    pub fn strides(&self) -> (s: &[Dimension])
        ensures
            s@ == self@.strides,
            self@.wf(),
    {
        proof {
            use_type_invariant(self);
        }
        self.stride.as_slice()
    }

    /// The bytes of the buffer.
    pub fn bytes(&self) -> (b: &[u8])
        ensures
            b@ == self@.bytes,
    {
        self.data.as_slice()
    }

    /// Whether the buffer holds exactly the elements that the shape
    /// describes: as many bytes as the number of elements times the size of
    /// one.
    pub fn verify(&self) -> (b: bool)
        ensures
            b == self@.complete(),
    {
        proof {
            use_type_invariant(self);
        }
        let len = self.data.len();
        match self.dims.total_elems().checked_mul(self.elem_ty.size()) {
            Some(bytes) => len == bytes,
            None => false,
        }
    }

    /// The element offset that `indices` select, which must not exceed
    /// `limit`.
    fn offset_of(&self, indices: &[Dimension], limit: usize) -> (offset: usize)
        requires
            element_offset(indices@, self@.strides) <= limit,
        ensures
            offset == element_offset(indices@, self@.strides),
    {
        let n = if indices.len() <= self.stride.0.len() {
            indices.len()
        } else {
            self.stride.0.len()
        };
        let mut acc: usize = 0;
        let mut i: usize = 0;
        while i < n
            invariant
                i <= n,
                n <= indices@.len(),
                n <= self.stride@.len(),
                acc == offset_upto(indices@, self.stride@, i as nat),
                offset_upto(indices@, self.stride@, n as nat) <= limit,
            decreases n - i,
        {
            proof {
                lemma_offset_upto_monotone(indices@, self.stride@, (i + 1) as nat, n as nat);
                assert(acc as nat >= 0);
                assert(indices@[i as int] * self.stride@[i as int] == self.stride@[i as int]
                    * indices@[i as int]) by (nonlinear_arith);
            }
            acc = acc + self.stride.0[i] * indices[i];
            i += 1;
        }
        acc
    }

    /// The elements of the buffer.
    pub fn data<T: TensorElemTypeExt>(&self) -> (v: Vec<T>)
        requires
            self@.elem_ty == T::spec_type(),
        ensures
            v@ == decoded::<T>(self@.bytes),
    {
        let size = self.elem_ty.size();
        let bytes = self.data.as_slice();
        let n = bytes.len() / size;
        let mut v: Vec<T> = Vec::new();
        let mut i: usize = 0;
        assert(n * size <= bytes@.len()) by (nonlinear_arith)
            requires
                n == bytes@.len() / size as nat,
                size > 0,
        ;
        while i < n
            invariant
                i <= n,
                size == T::spec_type().spec_size(),
                size > 0,
                n * size <= bytes@.len() <= usize::MAX,
                bytes@ == self@.bytes,
                v@.len() == i,
                forall|k: int|
                    0 <= k < i ==> v@[k] == T::decoding(
                        bytes@.subrange(k * size, (k + 1) * size),
                    ),
            decreases n - i,
        {
            assert((i + 1) * size <= n * size && i * size + size == (i + 1) * size)
                by (nonlinear_arith)
                requires
                    i < n,
            ;
            let chunk = slice_subrange(bytes, i * size, i * size + size);
            v.push(T::from_bytes(chunk));
            i += 1;
        }
        assert(v@ =~= decoded::<T>(self@.bytes));
        v
    }

    /// The bytes of the whole elements from the one that `indices` select on.
    pub fn slice_at<T: TensorElemTypeExt>(&self, indices: &[Dimension]) -> (s: &[u8])
        requires
            self@.elem_ty == T::spec_type(),
            element_offset(indices@, self@.strides) <= self@.bytes.len() / self@.elem_ty.spec_size(),
        ensures
            s@ == self@.bytes.subrange(
                (element_offset(indices@, self@.strides) * self@.elem_ty.spec_size()) as int,
                ((self@.bytes.len() / self@.elem_ty.spec_size()) * self@.elem_ty.spec_size()) as int,
            ),
    {
        let size = self.elem_ty.size();
        let bytes = self.data.as_slice();
        let n = bytes.len() / size;
        let offset = self.offset_of(indices, n);
        assert(offset * size <= n * size <= bytes@.len()) by (nonlinear_arith)
            requires
                offset <= n,
                n == bytes@.len() / size as nat,
                size > 0,
        ;
        slice_subrange(bytes, offset * size, n * size)
    }

    /// The bytes from the element that `indices` select on, for writing. A
    /// buffer that is shared with another tensor is copied first.
    pub fn slice_at_mut<T: TensorElemTypeExt>(&mut self, indices: &[Dimension]) -> (s: &mut [u8])
        requires
            old(self)@.elem_ty == T::spec_type(),
            element_offset(indices@, old(self)@.strides) <= old(self)@.bytes.len() / old(
                self,
            )@.elem_ty.spec_size(),
        ensures
            s@ == old(self)@.bytes.skip(
                (element_offset(indices@, old(self)@.strides) * old(self)@.elem_ty.spec_size()) as int,
            ),
            final(self)@ == (TensorView {
                bytes: old(self)@.bytes.take(
                    (element_offset(indices@, old(self)@.strides) * old(
                        self,
                    )@.elem_ty.spec_size()) as int,
                ) + final(s)@,
                ..old(self)@
            }),
    {
        proof {
            use_type_invariant(&*self);
        }
        let size = self.elem_ty.size();
        let len = self.data.len();
        let n = len / size;
        let offset = self.offset_of(indices, n);
        assert(offset * size <= n * size <= len) by (nonlinear_arith)
            requires
                offset <= n,
                n == len / size,
                size > 0,
        ;
        let bytes = unique_bytes(&mut self.data);
        let (_, tail) = bytes.as_mut_slice().split_at_mut(offset * size);
        tail
    }

    /// The bytes of the buffer, for writing. A buffer that is shared with
    /// another tensor is copied first.
    pub fn data_mut<T: TensorElemTypeExt>(&mut self) -> (s: &mut [u8])
        requires
            old(self)@.elem_ty == T::spec_type(),
        ensures
            s@ == old(self)@.bytes,
            final(self)@ == (TensorView { bytes: final(s)@, ..old(self)@ }),
    {
        proof {
            use_type_invariant(&*self);
        }
        unique_bytes(&mut self.data).as_mut_slice()
    }

    /// The four bytes of the single-precision element at element offset
    /// `offset`, for writing.
    fn single_at_mut(&mut self, offset: usize) -> (s: &mut [u8])
        requires
            old(self)@.elem_ty == TensorElemType::F32,
            offset < old(self)@.bytes.len() / 4,
        ensures
            s@ == element_bytes(old(self)@.bytes, TensorElemType::F32, offset as nat),
            final(self)@.dims == old(self)@.dims,
            final(self)@.strides == old(self)@.strides,
            final(self)@.elem_ty == old(self)@.elem_ty,
            final(self)@.bytes == old(self)@.bytes.take(offset * 4) + final(s)@ + old(
                self,
            )@.bytes.skip(offset * 4 + 4),
    {
        proof {
            use_type_invariant(&*self);
        }
        let len = self.data.len();
        assert(offset * 4 + 4 <= len) by (nonlinear_arith)
            requires
                offset < len / 4,
        ;
        let ghost before = self.data@;
        let bytes = unique_bytes(&mut self.data);
        let (head, tail) = bytes.as_mut_slice().split_at_mut(offset * 4);
        let (elem, rest) = tail.split_at_mut(4);
        proof {
            assert(elem@ =~= before.subrange(offset * 4, offset * 4 + 4));
            assert(rest@ =~= before.skip(offset * 4 + 4));
            assert(head@ =~= before.take(offset * 4));
            assert(has_resolved(head));
            assert(has_resolved(rest));
        }
        elem
    }

    /// The four bytes of the single-precision element that `indices`
    /// select, for writing.
    pub fn at_mut(&mut self, indices: &[Dimension]) -> (s: &mut [u8])
        requires
            old(self)@.elem_ty == TensorElemType::F32,
            element_offset(indices@, old(self)@.strides) < old(self)@.bytes.len() / 4,
        ensures
            s@ == element_bytes(
                old(self)@.bytes,
                TensorElemType::F32,
                element_offset(indices@, old(self)@.strides),
            ),
            final(self)@.dims == old(self)@.dims,
            final(self)@.strides == old(self)@.strides,
            final(self)@.elem_ty == old(self)@.elem_ty,
            final(self)@.bytes == old(self)@.bytes.take(
                (element_offset(indices@, old(self)@.strides) * 4) as int,
            ) + final(s)@ + old(self)@.bytes.skip(
                (element_offset(indices@, old(self)@.strides) * 4 + 4) as int,
            ),
    {
        let limit = self.data.len() / 4;
        let offset = self.offset_of(indices, limit);
        self.single_at_mut(offset)
    }

    /// The single-precision element at element offset `offset`.
    fn single_at(&self, offset: usize) -> (x: F32Bits)
        requires
            self@.elem_ty == TensorElemType::F32,
            offset < self@.bytes.len() / 4,
        ensures
            x == F32Bits::decoding(element_bytes(self@.bytes, TensorElemType::F32, offset as nat)),
    {
        let bytes = self.data.as_slice();
        let len = bytes.len();
        assert(offset * 4 + 4 <= len) by (nonlinear_arith)
            requires
                offset < len / 4,
        ;
        F32Bits::from_bytes(slice_subrange(bytes, offset * 4, offset * 4 + 4))
    }

    /// The single-precision element that `indices` select.
    pub fn at(&self, indices: &[Dimension]) -> (x: F32Bits)
        requires
            self@.elem_ty == TensorElemType::F32,
            element_offset(indices@, self@.strides) < self@.bytes.len() / 4,
        ensures
            x == F32Bits::decoding(
                element_bytes(
                    self@.bytes,
                    TensorElemType::F32,
                    element_offset(indices@, self@.strides),
                ),
            ),
    {
        let limit = self.data.len() / 4;
        let offset = self.offset_of(indices, limit);
        self.single_at(offset)
    }

    /// The single-precision element at `(x, y)`.
    pub fn at_2d(&self, x: Dimension, y: Dimension) -> (v: F32Bits)
        requires
            self@.elem_ty == TensorElemType::F32,
            self@.strides.len() >= 2,
            self@.strides[0] * x + self@.strides[1] * y < self@.bytes.len() / 4,
        ensures
            v == F32Bits::decoding(
                element_bytes(
                    self@.bytes,
                    TensorElemType::F32,
                    (self@.strides[0] * x + self@.strides[1] * y) as nat,
                ),
            ),
    {
        assert(self.stride@[0] * x >= 0 && self.stride@[1] * y >= 0) by (nonlinear_arith);
        let len = self.data.len();
        assert(len / 4 <= len) by (nonlinear_arith);
        self.single_at(self.stride.0[0] * x + self.stride.0[1] * y)
    }

    /// The single-precision element at `(x, y, z)`.
    pub fn at_3d(&self, x: Dimension, y: Dimension, z: Dimension) -> (v: F32Bits)
        requires
            self@.elem_ty == TensorElemType::F32,
            self@.strides.len() >= 3,
            self@.strides[0] * x + self@.strides[1] * y + self@.strides[2] * z < self@.bytes.len()
                / 4,
        ensures
            v == F32Bits::decoding(
                element_bytes(
                    self@.bytes,
                    TensorElemType::F32,
                    (self@.strides[0] * x + self@.strides[1] * y + self@.strides[2] * z) as nat,
                ),
            ),
    {
        assert(self.stride@[0] * x >= 0 && self.stride@[1] * y >= 0 && self.stride@[2] * z >= 0)
            by (nonlinear_arith);
        let len = self.data.len();
        assert(len / 4 <= len) by (nonlinear_arith);
        self.single_at(self.stride.0[0] * x + self.stride.0[1] * y + self.stride.0[2] * z)
    }

    /// The single-precision element at `(x, y, z, u)`.
    pub fn at_4d(&self, x: Dimension, y: Dimension, z: Dimension, u: Dimension) -> (v: F32Bits)
        requires
            self@.elem_ty == TensorElemType::F32,
            self@.strides.len() >= 4,
            self@.strides[0] * x + self@.strides[1] * y + self@.strides[2] * z + self@.strides[3]
                * u < self@.bytes.len() / 4,
        ensures
            v == F32Bits::decoding(
                element_bytes(
                    self@.bytes,
                    TensorElemType::F32,
                    (self@.strides[0] * x + self@.strides[1] * y + self@.strides[2] * z
                        + self@.strides[3] * u) as nat,
                ),
            ),
    {
        assert(self.stride@[0] * x >= 0 && self.stride@[1] * y >= 0 && self.stride@[2] * z >= 0
            && self.stride@[3] * u >= 0) by (nonlinear_arith);
        let len = self.data.len();
        assert(len / 4 <= len) by (nonlinear_arith);
        self.single_at(
            self.stride.0[0] * x + self.stride.0[1] * y + self.stride.0[2] * z + self.stride.0[3]
                * u,
        )
    }

    /// The four bytes of the single-precision element at `(x, y)`, for
    /// writing.
    pub fn at_2d_mut(&mut self, x: Dimension, y: Dimension) -> (s: &mut [u8])
        requires
            old(self)@.elem_ty == TensorElemType::F32,
            old(self)@.strides.len() >= 2,
            old(self)@.strides[0] * x + old(self)@.strides[1] * y < old(self)@.bytes.len() / 4,
        ensures
            s@ == element_bytes(
                old(self)@.bytes,
                TensorElemType::F32,
                (old(self)@.strides[0] * x + old(self)@.strides[1] * y) as nat,
            ),
            final(self)@.dims == old(self)@.dims,
            final(self)@.strides == old(self)@.strides,
            final(self)@.elem_ty == old(self)@.elem_ty,
            final(self)@.bytes == old(self)@.bytes.take(
                (old(self)@.strides[0] * x + old(self)@.strides[1] * y) * 4,
            ) + final(s)@ + old(self)@.bytes.skip(
                (old(self)@.strides[0] * x + old(self)@.strides[1] * y) * 4 + 4,
            ),
    {
        assert(self.stride@[0] * x >= 0 && self.stride@[1] * y >= 0) by (nonlinear_arith);
        let len = self.data.len();
        assert(len / 4 <= len) by (nonlinear_arith);
        let offset = self.stride.0[0] * x + self.stride.0[1] * y;
        self.single_at_mut(offset)
    }

    /// The four bytes of the single-precision element at `(x, y, z)`, for
    /// writing.
    pub fn at_3d_mut(&mut self, x: Dimension, y: Dimension, z: Dimension) -> (s: &mut [u8])
        requires
            old(self)@.elem_ty == TensorElemType::F32,
            old(self)@.strides.len() >= 3,
            old(self)@.strides[0] * x + old(self)@.strides[1] * y + old(self)@.strides[2] * z < old(self)@.bytes.len() / 4,
        ensures
            s@ == element_bytes(
                old(self)@.bytes,
                TensorElemType::F32,
                (old(self)@.strides[0] * x + old(self)@.strides[1] * y + old(self)@.strides[2] * z) as nat,
            ),
            final(self)@.dims == old(self)@.dims,
            final(self)@.strides == old(self)@.strides,
            final(self)@.elem_ty == old(self)@.elem_ty,
            final(self)@.bytes == old(self)@.bytes.take(
                (old(self)@.strides[0] * x + old(self)@.strides[1] * y + old(self)@.strides[2] * z) * 4,
            ) + final(s)@ + old(self)@.bytes.skip(
                (old(self)@.strides[0] * x + old(self)@.strides[1] * y + old(self)@.strides[2] * z) * 4 + 4,
            ),
    {
        assert(self.stride@[0] * x >= 0 && self.stride@[1] * y >= 0 && self.stride@[2] * z >= 0) by (nonlinear_arith);
        let len = self.data.len();
        assert(len / 4 <= len) by (nonlinear_arith);
        let offset = self.stride.0[0] * x + self.stride.0[1] * y + self.stride.0[2] * z;
        self.single_at_mut(offset)
    }

    /// The four bytes of the single-precision element at `(x, y, z, u)`, for
    /// writing.
    pub fn at_4d_mut(&mut self, x: Dimension, y: Dimension, z: Dimension, u: Dimension) -> (s: &mut [u8])
        requires
            old(self)@.elem_ty == TensorElemType::F32,
            old(self)@.strides.len() >= 4,
            old(self)@.strides[0] * x + old(self)@.strides[1] * y + old(self)@.strides[2] * z + old(self)@.strides[3] * u < old(self)@.bytes.len() / 4,
        ensures
            s@ == element_bytes(
                old(self)@.bytes,
                TensorElemType::F32,
                (old(self)@.strides[0] * x + old(self)@.strides[1] * y + old(self)@.strides[2] * z + old(self)@.strides[3] * u) as nat,
            ),
            final(self)@.dims == old(self)@.dims,
            final(self)@.strides == old(self)@.strides,
            final(self)@.elem_ty == old(self)@.elem_ty,
            final(self)@.bytes == old(self)@.bytes.take(
                (old(self)@.strides[0] * x + old(self)@.strides[1] * y + old(self)@.strides[2] * z + old(self)@.strides[3] * u) * 4,
            ) + final(s)@ + old(self)@.bytes.skip(
                (old(self)@.strides[0] * x + old(self)@.strides[1] * y + old(self)@.strides[2] * z + old(self)@.strides[3] * u) * 4 + 4,
            ),
    {
        assert(self.stride@[0] * x >= 0 && self.stride@[1] * y >= 0 && self.stride@[2] * z >= 0 && self.stride@[3] * u >= 0) by (nonlinear_arith);
        let len = self.data.len();
        assert(len / 4 <= len) by (nonlinear_arith);
        let offset = self.stride.0[0] * x + self.stride.0[1] * y + self.stride.0[2] * z + self.stride.0[3] * u;
        self.single_at_mut(offset)
    }

    /// The transpose of a dense matrix of single-precision elements: the
    /// element at `(y, x)` of the result is the element at `(x, y)` of `self`.
    pub fn to_transposed_2d(&self) -> (t: Self)
        requires
            self@.dims.len() == 2,
            self@.elem_ty == TensorElemType::F32,
            self@.complete(),
        ensures
            t@.wf(),
            t@.dims == seq![self@.dims[1], self@.dims[0]],
            t@.elem_ty == TensorElemType::F32,
            t@.complete(),
            forall|x: int, y: int, k: int|
                0 <= x < self@.dims[0] && 0 <= y < self@.dims[1] && 0 <= k < 4
                    ==> #[trigger] matrix_byte(t@.bytes, self@.dims[0] as int, y, x, k)
                    == matrix_byte(self@.bytes, self@.dims[1] as int, x, y, k),
    {
        proof {
            use_type_invariant(self);
            reveal_with_fuel(range_product, 3);
        }
        let d0 = self.dims.0[0];
        let d1 = self.dims.0[1];
        let bytes = self.data.as_slice();
        let len = bytes.len();
        let ghost src = self.data@;
        assert(elem_count(self.dims@) == d0 * d1) by {
            assert(range_product(self.dims@, 0, 2) == d0 as nat * (d1 as nat * 1));
            assert(d0 as nat * (d1 as nat * 1) == d0 * d1) by (nonlinear_arith);
        }
        assert(range_product(self.dims@, 0, 2) <= usize::MAX);
        let count = d0 * d1;
        let mut out: Vec<u8> = Vec::new();
        let mut p: usize = 0;
        while p < count
            invariant
                p <= count,
                count == d0 * d1,
                len == count * 4,
                bytes@ == src,
                src.len() == len,
                out@.len() == p * 4,
                forall|q: int, k: int|
                    0 <= q < p && 0 <= k < 4 ==> #[trigger] out@[q * 4 + k] == src[((q % d0 as int)
                        * d1 + q / d0 as int) * 4 + k],
            decreases count - p,
        {
            assert(d0 > 0) by (nonlinear_arith)
                requires
                    p < d0 * d1,
            ;
            let y = p / d0;
            let x = p % d0;
            assert(y < d1 && x * d1 + y < d0 * d1 && (x * d1 + y) * 4 + 4 <= d0 * d1 * 4 && x * d1
                >= 0) by (nonlinear_arith)
                requires
                    y == p / d0,
                    x == p % d0,
                    p < d0 * d1,
                    d0 > 0,
                    0 <= x < d0,
            ;
            let from = (x * d1 + y) * 4;
            let ghost before = out@;
            out.push(bytes[from]);
            out.push(bytes[from + 1]);
            out.push(bytes[from + 2]);
            out.push(bytes[from + 3]);
            assert forall|q: int, k: int| 0 <= q < p + 1 && 0 <= k < 4 implies #[trigger] out@[q * 4
                + k] == src[((q % d0 as int) * d1 + q / d0 as int) * 4 + k] by {
                if q < p {
                    assert(out@[q * 4 + k] == before[q * 4 + k]);
                }
            }
            p += 1;
        }
        let dims = Dimensions(vec![d1, d0]);
        assert(dims@ =~= seq![d1, d0]);
        assert(shape_fits(dims@) && elem_count(dims@) == count) by {
            assert(range_product(dims@, 2, 2) == 1);
            assert(range_product(dims@, 1, 2) == d0 as nat * 1);
            assert(range_product(dims@, 0, 2) == d1 as nat * (d0 as nat * 1));
            assert(d1 as nat * (d0 as nat * 1) == d0 * d1) by (nonlinear_arith);
        }
        let t = Self::new_from_raw(dims, TensorElemType::F32, out);
        assert forall|x: int, y: int, k: int|
            0 <= x < self@.dims[0] && 0 <= y < self@.dims[1] && 0 <= k < 4 implies #[trigger] matrix_byte(
            t@.bytes,
            self@.dims[0] as int,
            y,
            x,
            k,
        ) == matrix_byte(self@.bytes, self@.dims[1] as int, x, y, k) by {
            let q = y * d0 + x;
            lemma_fundamental_div_mod_converse(q, d0 as int, y, x);
            assert(0 <= q < d0 * d1) by (nonlinear_arith)
                requires
                    q == y * d0 + x,
                    0 <= x < d0,
                    0 <= y < d1,
            ;
            assert(t@.bytes[q * 4 + k] == src[((q % d0 as int) * d1 + q / d0 as int) * 4 + k]);
        }
        t
    }

    /// The strides under which the tensor reads as a tensor of shape `dims`:
    /// its own stride where the extents agree, 0 where the tensor has extent
    /// 1 or no axis. `None` if the tensor has more axes than `dims` or an
    /// extent other than 1 that differs from the one in `dims`.
    pub fn strides_for_broadcasting(&self, dims: &[Dimension]) -> (r: Option<Dimensions>)
        ensures
            r is Some <==> broadcast_strides(self@.dims, self@.strides, dims@) is Some,
            r is Some ==> Some(r->0@) == broadcast_strides(self@.dims, self@.strides, dims@),
            r is Some ==> r->0@.len() == dims@.len(),
            r is Some ==> forall|i: int|
                0 <= i < self@.dims.len() && self@.dims[i] == dims@[i + dims@.len()
                    - self@.dims.len()] ==> #[trigger] r->0@[i + dims@.len() - self@.dims.len()]
                    == self@.strides[i],
    {
        proof {
            use_type_invariant(self);
        }
        let to_len = dims.len();
        let from_len = self.dims.0.len();
        if to_len < from_len {
            return None;
        }
        let off = to_len - from_len;
        let mut v: Vec<usize> = Vec::new();
        let mut j: usize = 0;
        while j < to_len
            invariant
                j <= to_len,
                to_len == dims@.len(),
                from_len == self.dims@.len(),
                self.stride@.len() == from_len,
                off == to_len - from_len,
                v@.len() == j,
                forall|k: int|
                    0 <= k < j ==> broadcast_stride_at(self.dims@, self.stride@, dims@, k) == Some(
                        v@[k],
                    ),
            decreases to_len - j,
        {
            if j < off {
                v.push(0);
            } else if dims[j] == self.dims.0[j - off] {
                v.push(self.stride.0[j - off]);
            } else if self.dims.0[j - off] == 1 {
                v.push(0);
            } else {
                assert(broadcast_stride_at(self.dims@, self.stride@, dims@, j as int) is None);
                return None;
            }
            j += 1;
        }
        assert(v@ =~= broadcast_strides(self.dims@, self.stride@, dims@)->0);
        assert forall|i: int|
            0 <= i < self.dims@.len() && self.dims@[i] == dims@[i + dims@.len()
                - self.dims@.len()] implies #[trigger] v@[i + dims@.len() - self.dims@.len()]
            == self.stride@[i] by {
            let k = i + dims@.len() - self.dims@.len();
            assert(broadcast_stride_at(self.dims@, self.stride@, dims@, k) == Some(v@[k]));
        }
        Some(Dimensions(v))
    }

    /// A tensor with the same shape, type and buffer.
    pub fn duplicate(&self) -> (t: Self)
        ensures
            t@ == self@,
            t@.wf(),
    {
        proof {
            use_type_invariant(self);
        }
        Self {
            dims: self.dims.duplicate(),
            stride: self.stride.duplicate(),
            data: self.data.clone(),
            elem_ty: self.elem_ty,
        }
    }
}

} // verus!
