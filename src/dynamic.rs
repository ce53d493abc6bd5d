use vstd::prelude::*;
use crate::array::{data_concat, index_within, offset, picked, rows_total, stackable, Element, NdArray};
use crate::layout::positions;
use crate::datatype::{DataType, ScalarType};
use crate::error::Error;
use crate::selection::SelectInfo;

verus! {

/// A 32-bit float held as its IEEE-754 bit pattern.
#[derive(Clone, Copy, Debug, PartialEq, Eq, Structural)]
pub struct F32Bits(pub u32);

/// A 64-bit float held as its IEEE-754 bit pattern.
#[derive(Clone, Copy, Debug, PartialEq, Eq, Structural)]
pub struct F64Bits(pub u64);

impl Element for F32Bits {
    fn duplicate(&self) -> (r: Self) {
        *self
    }

    open spec fn same_value(a: Self, b: Self) -> bool {
        a == b
    }

    fn equals(&self, other: &Self) -> (r: bool) {
        self.0 == other.0
    }
}

impl Element for F64Bits {
    fn duplicate(&self) -> (r: Self) {
        *self
    }

    open spec fn same_value(a: Self, b: Self) -> bool {
        a == b
    }

    fn equals(&self, other: &Self) -> (r: bool) {
        self.0 == other.0
    }
}

impl Element for usize {
    fn duplicate(&self) -> (r: Self) {
        *self
    }

    open spec fn same_value(a: Self, b: Self) -> bool {
        a == b
    }

    fn equals(&self, other: &Self) -> (r: bool) {
        *self == *other
    }
}

/// A scalar of any supported element type.
#[derive(Clone, Debug, PartialEq, Eq)]
pub enum DynScalar {
    I8(i8),
    I16(i16),
    I32(i32),
    I64(i64),
    U8(u8),
    U16(u16),
    U32(u32),
    U64(u64),
    F32(F32Bits),
    F64(F64Bits),
    Bool(bool),
    String(String),
}

/// An N-dimensional array of any supported element type.
#[derive(Clone, Debug, PartialEq, Eq)]
pub enum DynArray {
    I8(NdArray<i8>),
    I16(NdArray<i16>),
    I32(NdArray<i32>),
    I64(NdArray<i64>),
    U8(NdArray<u8>),
    U16(NdArray<u16>),
    U32(NdArray<u32>),
    U64(NdArray<u64>),
    F32(NdArray<F32Bits>),
    F64(NdArray<F64Bits>),
    Bool(NdArray<bool>),
    String(NdArray<String>),
}

/// An element type with its own variant in `DynScalar` and `DynArray`.
pub trait DynElement: Element {
    /// The tag of the element type.
    spec fn tag() -> ScalarType;

    /// The array inside `a`, where `a` holds elements of this type.
    spec fn array_of(a: DynArray) -> Option<NdArray<Self>>;

    /// The value inside `s`, where `s` holds a value of this type.
    spec fn scalar_of(s: DynScalar) -> Option<Self>;

    fn dtype() -> (r: ScalarType)
        ensures
            r == Self::tag(),
    ;

    fn from_dyn(a: DynArray) -> (r: Option<NdArray<Self>>)
        ensures
            r == Self::array_of(a),
            (r is Some) == (a.scalar_type() == Self::tag()),
            r matches Some(x) ==> x.wf() == a.wf() && x.shape@ == a.shape_view(),
    ;

    fn into_dyn(a: NdArray<Self>) -> (r: DynArray)
        ensures
            Self::array_of(r) == Some(a),
            r.scalar_type() == Self::tag(),
            r.wf() == a.wf(),
            r.shape_view() == a.shape@,
    ;

    fn from_scalar(s: DynScalar) -> (r: Option<Self>)
        ensures
            r == Self::scalar_of(s),
    ;

    fn into_scalar(v: Self) -> (r: DynScalar)
        ensures
            Self::scalar_of(r) == Some(v),
            r.scalar_type() == Self::tag(),
    ;

    /// Arrays with the same contents hold the same typed array.
    proof fn lemma_array_of_same(a: DynArray, b: DynArray)
        requires
            a.same_as(b),
        ensures
            (Self::array_of(a) is Some) == (Self::array_of(b) is Some),
            Self::array_of(a) is Some ==> Self::array_of(a)->0.same(Self::array_of(b)->0),
    ;

    /// An array holds elements of this type exactly when its tag is this type's.
    proof fn lemma_array_of_tag(a: DynArray)
        ensures
            (Self::array_of(a) is Some) == (a.scalar_type() == Self::tag()),
    ;
}

impl DynElement for i8 {
    open spec fn tag() -> ScalarType {
        ScalarType::I8
    }

    open spec fn array_of(a: DynArray) -> Option<NdArray<Self>> {
        match a {
            DynArray::I8(x) => Some(x),
            _ => None,
        }
    }

    open spec fn scalar_of(s: DynScalar) -> Option<Self> {
        match s {
            DynScalar::I8(x) => Some(x),
            _ => None,
        }
    }

    fn dtype() -> (r: ScalarType) {
        ScalarType::I8
    }

    fn from_dyn(a: DynArray) -> (r: Option<NdArray<Self>>) {
        match a {
            DynArray::I8(x) => Some(x),
            _ => None,
        }
    }

    fn into_dyn(a: NdArray<Self>) -> (r: DynArray) {
        DynArray::I8(a)
    }

    fn from_scalar(s: DynScalar) -> (r: Option<Self>) {
        match s {
            DynScalar::I8(x) => Some(x),
            _ => None,
        }
    }

    fn into_scalar(v: Self) -> (r: DynScalar) {
        DynScalar::I8(v)
    }

    proof fn lemma_array_of_same(a: DynArray, b: DynArray) {
    }

    proof fn lemma_array_of_tag(a: DynArray) {
    }
}

impl DynElement for i16 {
    open spec fn tag() -> ScalarType {
        ScalarType::I16
    }

    open spec fn array_of(a: DynArray) -> Option<NdArray<Self>> {
        match a {
            DynArray::I16(x) => Some(x),
            _ => None,
        }
    }

    open spec fn scalar_of(s: DynScalar) -> Option<Self> {
        match s {
            DynScalar::I16(x) => Some(x),
            _ => None,
        }
    }

    fn dtype() -> (r: ScalarType) {
        ScalarType::I16
    }

    fn from_dyn(a: DynArray) -> (r: Option<NdArray<Self>>) {
        match a {
            DynArray::I16(x) => Some(x),
            _ => None,
        }
    }

    fn into_dyn(a: NdArray<Self>) -> (r: DynArray) {
        DynArray::I16(a)
    }

    fn from_scalar(s: DynScalar) -> (r: Option<Self>) {
        match s {
            DynScalar::I16(x) => Some(x),
            _ => None,
        }
    }

    fn into_scalar(v: Self) -> (r: DynScalar) {
        DynScalar::I16(v)
    }

    proof fn lemma_array_of_same(a: DynArray, b: DynArray) {
    }

    proof fn lemma_array_of_tag(a: DynArray) {
    }
}

impl DynElement for i32 {
    open spec fn tag() -> ScalarType {
        ScalarType::I32
    }

    open spec fn array_of(a: DynArray) -> Option<NdArray<Self>> {
        match a {
            DynArray::I32(x) => Some(x),
            _ => None,
        }
    }

    open spec fn scalar_of(s: DynScalar) -> Option<Self> {
        match s {
            DynScalar::I32(x) => Some(x),
            _ => None,
        }
    }

    fn dtype() -> (r: ScalarType) {
        ScalarType::I32
    }

    fn from_dyn(a: DynArray) -> (r: Option<NdArray<Self>>) {
        match a {
            DynArray::I32(x) => Some(x),
            _ => None,
        }
    }

    fn into_dyn(a: NdArray<Self>) -> (r: DynArray) {
        DynArray::I32(a)
    }

    fn from_scalar(s: DynScalar) -> (r: Option<Self>) {
        match s {
            DynScalar::I32(x) => Some(x),
            _ => None,
        }
    }

    fn into_scalar(v: Self) -> (r: DynScalar) {
        DynScalar::I32(v)
    }

    proof fn lemma_array_of_same(a: DynArray, b: DynArray) {
    }

    proof fn lemma_array_of_tag(a: DynArray) {
    }
}

impl DynElement for i64 {
    open spec fn tag() -> ScalarType {
        ScalarType::I64
    }

    open spec fn array_of(a: DynArray) -> Option<NdArray<Self>> {
        match a {
            DynArray::I64(x) => Some(x),
            _ => None,
        }
    }

    open spec fn scalar_of(s: DynScalar) -> Option<Self> {
        match s {
            DynScalar::I64(x) => Some(x),
            _ => None,
        }
    }

    fn dtype() -> (r: ScalarType) {
        ScalarType::I64
    }

    fn from_dyn(a: DynArray) -> (r: Option<NdArray<Self>>) {
        match a {
            DynArray::I64(x) => Some(x),
            _ => None,
        }
    }

    fn into_dyn(a: NdArray<Self>) -> (r: DynArray) {
        DynArray::I64(a)
    }

    fn from_scalar(s: DynScalar) -> (r: Option<Self>) {
        match s {
            DynScalar::I64(x) => Some(x),
            _ => None,
        }
    }

    fn into_scalar(v: Self) -> (r: DynScalar) {
        DynScalar::I64(v)
    }

    proof fn lemma_array_of_same(a: DynArray, b: DynArray) {
    }

    proof fn lemma_array_of_tag(a: DynArray) {
    }
}

impl DynElement for u8 {
    open spec fn tag() -> ScalarType {
        ScalarType::U8
    }

    open spec fn array_of(a: DynArray) -> Option<NdArray<Self>> {
        match a {
            DynArray::U8(x) => Some(x),
            _ => None,
        }
    }

    open spec fn scalar_of(s: DynScalar) -> Option<Self> {
        match s {
            DynScalar::U8(x) => Some(x),
            _ => None,
        }
    }

    fn dtype() -> (r: ScalarType) {
        ScalarType::U8
    }

    fn from_dyn(a: DynArray) -> (r: Option<NdArray<Self>>) {
        match a {
            DynArray::U8(x) => Some(x),
            _ => None,
        }
    }

    fn into_dyn(a: NdArray<Self>) -> (r: DynArray) {
        DynArray::U8(a)
    }

    fn from_scalar(s: DynScalar) -> (r: Option<Self>) {
        match s {
            DynScalar::U8(x) => Some(x),
            _ => None,
        }
    }

    fn into_scalar(v: Self) -> (r: DynScalar) {
        DynScalar::U8(v)
    }

    proof fn lemma_array_of_same(a: DynArray, b: DynArray) {
    }

    proof fn lemma_array_of_tag(a: DynArray) {
    }
}

impl DynElement for u16 {
    open spec fn tag() -> ScalarType {
        ScalarType::U16
    }

    open spec fn array_of(a: DynArray) -> Option<NdArray<Self>> {
        match a {
            DynArray::U16(x) => Some(x),
            _ => None,
        }
    }

    open spec fn scalar_of(s: DynScalar) -> Option<Self> {
        match s {
            DynScalar::U16(x) => Some(x),
            _ => None,
        }
    }

    fn dtype() -> (r: ScalarType) {
        ScalarType::U16
    }

    fn from_dyn(a: DynArray) -> (r: Option<NdArray<Self>>) {
        match a {
            DynArray::U16(x) => Some(x),
            _ => None,
        }
    }

    fn into_dyn(a: NdArray<Self>) -> (r: DynArray) {
        DynArray::U16(a)
    }

    fn from_scalar(s: DynScalar) -> (r: Option<Self>) {
        match s {
            DynScalar::U16(x) => Some(x),
            _ => None,
        }
    }

    fn into_scalar(v: Self) -> (r: DynScalar) {
        DynScalar::U16(v)
    }

    proof fn lemma_array_of_same(a: DynArray, b: DynArray) {
    }

    proof fn lemma_array_of_tag(a: DynArray) {
    }
}

impl DynElement for u32 {
    open spec fn tag() -> ScalarType {
        ScalarType::U32
    }

    open spec fn array_of(a: DynArray) -> Option<NdArray<Self>> {
        match a {
            DynArray::U32(x) => Some(x),
            _ => None,
        }
    }

    open spec fn scalar_of(s: DynScalar) -> Option<Self> {
        match s {
            DynScalar::U32(x) => Some(x),
            _ => None,
        }
    }

    fn dtype() -> (r: ScalarType) {
        ScalarType::U32
    }

    fn from_dyn(a: DynArray) -> (r: Option<NdArray<Self>>) {
        match a {
            DynArray::U32(x) => Some(x),
            _ => None,
        }
    }

    fn into_dyn(a: NdArray<Self>) -> (r: DynArray) {
        DynArray::U32(a)
    }

    fn from_scalar(s: DynScalar) -> (r: Option<Self>) {
        match s {
            DynScalar::U32(x) => Some(x),
            _ => None,
        }
    }

    fn into_scalar(v: Self) -> (r: DynScalar) {
        DynScalar::U32(v)
    }

    proof fn lemma_array_of_same(a: DynArray, b: DynArray) {
    }

    proof fn lemma_array_of_tag(a: DynArray) {
    }
}

impl DynElement for u64 {
    open spec fn tag() -> ScalarType {
        ScalarType::U64
    }

    open spec fn array_of(a: DynArray) -> Option<NdArray<Self>> {
        match a {
            DynArray::U64(x) => Some(x),
            _ => None,
        }
    }

    open spec fn scalar_of(s: DynScalar) -> Option<Self> {
        match s {
            DynScalar::U64(x) => Some(x),
            _ => None,
        }
    }

    fn dtype() -> (r: ScalarType) {
        ScalarType::U64
    }

    fn from_dyn(a: DynArray) -> (r: Option<NdArray<Self>>) {
        match a {
            DynArray::U64(x) => Some(x),
            _ => None,
        }
    }

    fn into_dyn(a: NdArray<Self>) -> (r: DynArray) {
        DynArray::U64(a)
    }

    fn from_scalar(s: DynScalar) -> (r: Option<Self>) {
        match s {
            DynScalar::U64(x) => Some(x),
            _ => None,
        }
    }

    fn into_scalar(v: Self) -> (r: DynScalar) {
        DynScalar::U64(v)
    }

    proof fn lemma_array_of_same(a: DynArray, b: DynArray) {
    }

    proof fn lemma_array_of_tag(a: DynArray) {
    }
}

impl DynElement for F32Bits {
    open spec fn tag() -> ScalarType {
        ScalarType::F32
    }

    open spec fn array_of(a: DynArray) -> Option<NdArray<Self>> {
        match a {
            DynArray::F32(x) => Some(x),
            _ => None,
        }
    }

    open spec fn scalar_of(s: DynScalar) -> Option<Self> {
        match s {
            DynScalar::F32(x) => Some(x),
            _ => None,
        }
    }

    fn dtype() -> (r: ScalarType) {
        ScalarType::F32
    }

    fn from_dyn(a: DynArray) -> (r: Option<NdArray<Self>>) {
        match a {
            DynArray::F32(x) => Some(x),
            _ => None,
        }
    }

    fn into_dyn(a: NdArray<Self>) -> (r: DynArray) {
        DynArray::F32(a)
    }

    fn from_scalar(s: DynScalar) -> (r: Option<Self>) {
        match s {
            DynScalar::F32(x) => Some(x),
            _ => None,
        }
    }

    fn into_scalar(v: Self) -> (r: DynScalar) {
        DynScalar::F32(v)
    }

    proof fn lemma_array_of_same(a: DynArray, b: DynArray) {
    }

    proof fn lemma_array_of_tag(a: DynArray) {
    }
}

impl DynElement for F64Bits {
    open spec fn tag() -> ScalarType {
        ScalarType::F64
    }

    open spec fn array_of(a: DynArray) -> Option<NdArray<Self>> {
        match a {
            DynArray::F64(x) => Some(x),
            _ => None,
        }
    }

    open spec fn scalar_of(s: DynScalar) -> Option<Self> {
        match s {
            DynScalar::F64(x) => Some(x),
            _ => None,
        }
    }

    fn dtype() -> (r: ScalarType) {
        ScalarType::F64
    }

    fn from_dyn(a: DynArray) -> (r: Option<NdArray<Self>>) {
        match a {
            DynArray::F64(x) => Some(x),
            _ => None,
        }
    }

    fn into_dyn(a: NdArray<Self>) -> (r: DynArray) {
        DynArray::F64(a)
    }

    fn from_scalar(s: DynScalar) -> (r: Option<Self>) {
        match s {
            DynScalar::F64(x) => Some(x),
            _ => None,
        }
    }

    fn into_scalar(v: Self) -> (r: DynScalar) {
        DynScalar::F64(v)
    }

    proof fn lemma_array_of_same(a: DynArray, b: DynArray) {
    }

    proof fn lemma_array_of_tag(a: DynArray) {
    }
}

impl DynElement for bool {
    open spec fn tag() -> ScalarType {
        ScalarType::Bool
    }

    open spec fn array_of(a: DynArray) -> Option<NdArray<Self>> {
        match a {
            DynArray::Bool(x) => Some(x),
            _ => None,
        }
    }

    open spec fn scalar_of(s: DynScalar) -> Option<Self> {
        match s {
            DynScalar::Bool(x) => Some(x),
            _ => None,
        }
    }

    fn dtype() -> (r: ScalarType) {
        ScalarType::Bool
    }

    fn from_dyn(a: DynArray) -> (r: Option<NdArray<Self>>) {
        match a {
            DynArray::Bool(x) => Some(x),
            _ => None,
        }
    }

    fn into_dyn(a: NdArray<Self>) -> (r: DynArray) {
        DynArray::Bool(a)
    }

    fn from_scalar(s: DynScalar) -> (r: Option<Self>) {
        match s {
            DynScalar::Bool(x) => Some(x),
            _ => None,
        }
    }

    fn into_scalar(v: Self) -> (r: DynScalar) {
        DynScalar::Bool(v)
    }

    proof fn lemma_array_of_same(a: DynArray, b: DynArray) {
    }

    proof fn lemma_array_of_tag(a: DynArray) {
    }
}

impl DynElement for String {
    open spec fn tag() -> ScalarType {
        ScalarType::String
    }

    open spec fn array_of(a: DynArray) -> Option<NdArray<Self>> {
        match a {
            DynArray::String(x) => Some(x),
            _ => None,
        }
    }

    open spec fn scalar_of(s: DynScalar) -> Option<Self> {
        match s {
            DynScalar::String(x) => Some(x),
            _ => None,
        }
    }

    fn dtype() -> (r: ScalarType) {
        ScalarType::String
    }

    fn from_dyn(a: DynArray) -> (r: Option<NdArray<Self>>) {
        match a {
            DynArray::String(x) => Some(x),
            _ => None,
        }
    }

    fn into_dyn(a: NdArray<Self>) -> (r: DynArray) {
        DynArray::String(a)
    }

    fn from_scalar(s: DynScalar) -> (r: Option<Self>) {
        match s {
            DynScalar::String(x) => Some(x),
            _ => None,
        }
    }

    fn into_scalar(v: Self) -> (r: DynScalar) {
        DynScalar::String(v)
    }

    proof fn lemma_array_of_same(a: DynArray, b: DynArray) {
    }

    proof fn lemma_array_of_tag(a: DynArray) {
    }
}

impl DynScalar {
    /// The element type of the scalar.
    pub open spec fn scalar_type(&self) -> ScalarType {
        match self {
            DynScalar::I8(_) => ScalarType::I8,
            DynScalar::I16(_) => ScalarType::I16,
            DynScalar::I32(_) => ScalarType::I32,
            DynScalar::I64(_) => ScalarType::I64,
            DynScalar::U8(_) => ScalarType::U8,
            DynScalar::U16(_) => ScalarType::U16,
            DynScalar::U32(_) => ScalarType::U32,
            DynScalar::U64(_) => ScalarType::U64,
            DynScalar::F32(_) => ScalarType::F32,
            DynScalar::F64(_) => ScalarType::F64,
            DynScalar::Bool(_) => ScalarType::Bool,
            DynScalar::String(_) => ScalarType::String,
        }
    }

    pub fn dtype(&self) -> (r: ScalarType)
        ensures
            r == self.scalar_type(),
    {
        match self {
            DynScalar::I8(_) => ScalarType::I8,
            DynScalar::I16(_) => ScalarType::I16,
            DynScalar::I32(_) => ScalarType::I32,
            DynScalar::I64(_) => ScalarType::I64,
            DynScalar::U8(_) => ScalarType::U8,
            DynScalar::U16(_) => ScalarType::U16,
            DynScalar::U32(_) => ScalarType::U32,
            DynScalar::U64(_) => ScalarType::U64,
            DynScalar::F32(_) => ScalarType::F32,
            DynScalar::F64(_) => ScalarType::F64,
            DynScalar::Bool(_) => ScalarType::Bool,
            DynScalar::String(_) => ScalarType::String,
        }
    }

    pub fn data_type(&self) -> (r: DataType)
        ensures
            r == DataType::Scalar(self.scalar_type()),
    {
        DataType::Scalar(self.dtype())
    }
}

impl DynArray {
    /// The element type of the array.
    pub open spec fn scalar_type(&self) -> ScalarType {
        match self {
            DynArray::I8(_) => ScalarType::I8,
            DynArray::I16(_) => ScalarType::I16,
            DynArray::I32(_) => ScalarType::I32,
            DynArray::I64(_) => ScalarType::I64,
            DynArray::U8(_) => ScalarType::U8,
            DynArray::U16(_) => ScalarType::U16,
            DynArray::U32(_) => ScalarType::U32,
            DynArray::U64(_) => ScalarType::U64,
            DynArray::F32(_) => ScalarType::F32,
            DynArray::F64(_) => ScalarType::F64,
            DynArray::Bool(_) => ScalarType::Bool,
            DynArray::String(_) => ScalarType::String,
        }
    }

    /// The shape of the array.
    pub open spec fn shape_view(&self) -> Seq<usize> {
        match self {
            DynArray::I8(x) => x.shape@,
            DynArray::I16(x) => x.shape@,
            DynArray::I32(x) => x.shape@,
            DynArray::I64(x) => x.shape@,
            DynArray::U8(x) => x.shape@,
            DynArray::U16(x) => x.shape@,
            DynArray::U32(x) => x.shape@,
            DynArray::U64(x) => x.shape@,
            DynArray::F32(x) => x.shape@,
            DynArray::F64(x) => x.shape@,
            DynArray::Bool(x) => x.shape@,
            DynArray::String(x) => x.shape@,
        }
    }

    /// Number of elements held.
    pub open spec fn len_view(&self) -> nat {
        match self {
            DynArray::I8(x) => x.data@.len(),
            DynArray::I16(x) => x.data@.len(),
            DynArray::I32(x) => x.data@.len(),
            DynArray::I64(x) => x.data@.len(),
            DynArray::U8(x) => x.data@.len(),
            DynArray::U16(x) => x.data@.len(),
            DynArray::U32(x) => x.data@.len(),
            DynArray::U64(x) => x.data@.len(),
            DynArray::F32(x) => x.data@.len(),
            DynArray::F64(x) => x.data@.len(),
            DynArray::Bool(x) => x.data@.len(),
            DynArray::String(x) => x.data@.len(),
        }
    }

    /// The elements fill the shape exactly.
    pub open spec fn wf(&self) -> bool {
        match self {
            DynArray::I8(x) => x.wf(),
            DynArray::I16(x) => x.wf(),
            DynArray::I32(x) => x.wf(),
            DynArray::I64(x) => x.wf(),
            DynArray::U8(x) => x.wf(),
            DynArray::U16(x) => x.wf(),
            DynArray::U32(x) => x.wf(),
            DynArray::U64(x) => x.wf(),
            DynArray::F32(x) => x.wf(),
            DynArray::F64(x) => x.wf(),
            DynArray::Bool(x) => x.wf(),
            DynArray::String(x) => x.wf(),
        }
    }

    pub fn dtype(&self) -> (r: ScalarType)
        ensures
            r == self.scalar_type(),
    {
        match self {
            DynArray::I8(_) => ScalarType::I8,
            DynArray::I16(_) => ScalarType::I16,
            DynArray::I32(_) => ScalarType::I32,
            DynArray::I64(_) => ScalarType::I64,
            DynArray::U8(_) => ScalarType::U8,
            DynArray::U16(_) => ScalarType::U16,
            DynArray::U32(_) => ScalarType::U32,
            DynArray::U64(_) => ScalarType::U64,
            DynArray::F32(_) => ScalarType::F32,
            DynArray::F64(_) => ScalarType::F64,
            DynArray::Bool(_) => ScalarType::Bool,
            DynArray::String(_) => ScalarType::String,
        }
    }

    pub fn data_type(&self) -> (r: DataType)
        ensures
            r == DataType::Array(self.scalar_type()),
    {
        DataType::Array(self.dtype())
    }

    /// The shape of the array.
    pub fn shape(&self) -> (r: Vec<usize>)
        ensures
            r@ == self.shape_view(),
    {
        match self {
            DynArray::I8(x) => x.shape.clone(),
            DynArray::I16(x) => x.shape.clone(),
            DynArray::I32(x) => x.shape.clone(),
            DynArray::I64(x) => x.shape.clone(),
            DynArray::U8(x) => x.shape.clone(),
            DynArray::U16(x) => x.shape.clone(),
            DynArray::U32(x) => x.shape.clone(),
            DynArray::U64(x) => x.shape.clone(),
            DynArray::F32(x) => x.shape.clone(),
            DynArray::F64(x) => x.shape.clone(),
            DynArray::Bool(x) => x.shape.clone(),
            DynArray::String(x) => x.shape.clone(),
        }
    }

    /// Number of axes.
    pub fn ndim(&self) -> (r: usize)
        ensures
            r == self.shape_view().len(),
    {
        match self {
            DynArray::I8(x) => x.ndim(),
            DynArray::I16(x) => x.ndim(),
            DynArray::I32(x) => x.ndim(),
            DynArray::I64(x) => x.ndim(),
            DynArray::U8(x) => x.ndim(),
            DynArray::U16(x) => x.ndim(),
            DynArray::U32(x) => x.ndim(),
            DynArray::U64(x) => x.ndim(),
            DynArray::F32(x) => x.ndim(),
            DynArray::F64(x) => x.ndim(),
            DynArray::Bool(x) => x.ndim(),
            DynArray::String(x) => x.ndim(),
        }
    }

    /// Number of elements.
    pub fn len(&self) -> (r: usize)
        ensures
            r == self.len_view(),
    {
        match self {
            DynArray::I8(x) => x.len(),
            DynArray::I16(x) => x.len(),
            DynArray::I32(x) => x.len(),
            DynArray::I64(x) => x.len(),
            DynArray::U8(x) => x.len(),
            DynArray::U16(x) => x.len(),
            DynArray::U32(x) => x.len(),
            DynArray::U64(x) => x.len(),
            DynArray::F32(x) => x.len(),
            DynArray::F64(x) => x.len(),
            DynArray::Bool(x) => x.len(),
            DynArray::String(x) => x.len(),
        }
    }

    /// The element at flat position `i`, as a scalar.
    pub open spec fn element_at(&self, i: int) -> DynScalar {
        match self {
            DynArray::I8(x) => DynScalar::I8(x.data@[i]),
            DynArray::I16(x) => DynScalar::I16(x.data@[i]),
            DynArray::I32(x) => DynScalar::I32(x.data@[i]),
            DynArray::I64(x) => DynScalar::I64(x.data@[i]),
            DynArray::U8(x) => DynScalar::U8(x.data@[i]),
            DynArray::U16(x) => DynScalar::U16(x.data@[i]),
            DynArray::U32(x) => DynScalar::U32(x.data@[i]),
            DynArray::U64(x) => DynScalar::U64(x.data@[i]),
            DynArray::F32(x) => DynScalar::F32(x.data@[i]),
            DynArray::F64(x) => DynScalar::F64(x.data@[i]),
            DynArray::Bool(x) => DynScalar::Bool(x.data@[i]),
            DynArray::String(x) => DynScalar::String(x.data@[i]),
        }
    }

    /// The element at the multi-index `index`, if it lies inside the array.
    pub fn get(&self, index: &Vec<usize>) -> (r: Option<DynScalar>)
        requires
            self.wf(),
        ensures
            index_within(self.shape_view(), index@) ==> r == Some(
                self.element_at(offset(self.shape_view(), index@)),
            ),
            !index_within(self.shape_view(), index@) ==> r is None,
    {
        match self {
            DynArray::I8(x) => match x.get(index) {
                Some(e) => Some(DynScalar::I8(e)),
                None => None,
            },
            DynArray::I16(x) => match x.get(index) {
                Some(e) => Some(DynScalar::I16(e)),
                None => None,
            },
            DynArray::I32(x) => match x.get(index) {
                Some(e) => Some(DynScalar::I32(e)),
                None => None,
            },
            DynArray::I64(x) => match x.get(index) {
                Some(e) => Some(DynScalar::I64(e)),
                None => None,
            },
            DynArray::U8(x) => match x.get(index) {
                Some(e) => Some(DynScalar::U8(e)),
                None => None,
            },
            DynArray::U16(x) => match x.get(index) {
                Some(e) => Some(DynScalar::U16(e)),
                None => None,
            },
            DynArray::U32(x) => match x.get(index) {
                Some(e) => Some(DynScalar::U32(e)),
                None => None,
            },
            DynArray::U64(x) => match x.get(index) {
                Some(e) => Some(DynScalar::U64(e)),
                None => None,
            },
            DynArray::F32(x) => match x.get(index) {
                Some(e) => Some(DynScalar::F32(e)),
                None => None,
            },
            DynArray::F64(x) => match x.get(index) {
                Some(e) => Some(DynScalar::F64(e)),
                None => None,
            },
            DynArray::Bool(x) => match x.get(index) {
                Some(e) => Some(DynScalar::Bool(e)),
                None => None,
            },
            DynArray::String(x) => match x.get(index) {
                Some(e) => Some(DynScalar::String(e)),
                None => None,
            },
        }
    }

    /// The part of the array that `info` selects.
    #[verifier::rlimit(50)]
    pub fn select(&self, info: &SelectInfo) -> (r: Result<DynArray, Error>)
        requires
            self.wf(),
        ensures
            info.elems@.len() != self.shape_view().len() ==> r == Err::<DynArray, Error>(
                Error::ShapeMismatch,
            ),
            info.elems@.len() == self.shape_view().len() && !info.valid_for(self.shape_view())
                ==> r == Err::<DynArray, Error>(Error::Bounds),
            info.valid_for(self.shape_view()) ==> (r matches Ok(a) && a.wf() && dyn_selection(
                *self,
                *info,
                a,
            )),
    {
        match self {
            DynArray::I8(x) => match x.select(info) {
                Ok(y) => Ok(DynArray::I8(y)),
                Err(e) => Err(e),
            },
            DynArray::I16(x) => match x.select(info) {
                Ok(y) => Ok(DynArray::I16(y)),
                Err(e) => Err(e),
            },
            DynArray::I32(x) => match x.select(info) {
                Ok(y) => Ok(DynArray::I32(y)),
                Err(e) => Err(e),
            },
            DynArray::I64(x) => match x.select(info) {
                Ok(y) => Ok(DynArray::I64(y)),
                Err(e) => Err(e),
            },
            DynArray::U8(x) => match x.select(info) {
                Ok(y) => Ok(DynArray::U8(y)),
                Err(e) => Err(e),
            },
            DynArray::U16(x) => match x.select(info) {
                Ok(y) => Ok(DynArray::U16(y)),
                Err(e) => Err(e),
            },
            DynArray::U32(x) => match x.select(info) {
                Ok(y) => Ok(DynArray::U32(y)),
                Err(e) => Err(e),
            },
            DynArray::U64(x) => match x.select(info) {
                Ok(y) => Ok(DynArray::U64(y)),
                Err(e) => Err(e),
            },
            DynArray::F32(x) => match x.select(info) {
                Ok(y) => Ok(DynArray::F32(y)),
                Err(e) => Err(e),
            },
            DynArray::F64(x) => match x.select(info) {
                Ok(y) => Ok(DynArray::F64(y)),
                Err(e) => Err(e),
            },
            DynArray::Bool(x) => match x.select(info) {
                Ok(y) => Ok(DynArray::Bool(y)),
                Err(e) => Err(e),
            },
            DynArray::String(x) => match x.select(info) {
                Ok(y) => Ok(DynArray::String(y)),
                Err(e) => Err(e),
            },
        }
    }

    /// The array as one of element type `T` with `ndim` axes.
    pub fn into_array<T: DynElement>(self, ndim: usize) -> (r: Result<NdArray<T>, Error>)
        ensures
            T::array_of(self) is None ==> r == Err::<NdArray<T>, Error>(Error::DTypeMismatch),
            T::array_of(self) matches Some(x) && x.shape@.len() != ndim ==> r == Err::<
                NdArray<T>,
                Error,
            >(Error::ShapeMismatch),
            T::array_of(self) matches Some(x) && x.shape@.len() == ndim ==> r == Ok::<
                NdArray<T>,
                Error,
            >(T::array_of(self)->0),
    {
        match T::from_dyn(self) {
            Some(x) => {
                if x.shape.len() == ndim {
                    Ok(x)
                } else {
                    Err(Error::ShapeMismatch)
                }
            },
            None => Err(Error::DTypeMismatch),
        }
    }

    /// Stacks arrays of one element type along their first axis.
    pub fn vstack(arrays: Vec<DynArray>) -> (r: Result<DynArray, Error>)
        requires
            forall|i: int| 0 <= i < arrays@.len() ==> (#[trigger] arrays@[i]).wf(),
        ensures
            arrays@.len() == 0 ==> r == Err::<DynArray, Error>(Error::ShapeMismatch),
            arrays@.len() > 0 && !same_type(arrays@) ==> r == Err::<DynArray, Error>(
                Error::DTypeMismatch,
            ),
            arrays@.len() > 0 && same_type(arrays@) ==> match arrays@[0].scalar_type() {
                ScalarType::I8 => stack_outcome::<i8>(arrays@, r),
                ScalarType::I16 => stack_outcome::<i16>(arrays@, r),
                ScalarType::I32 => stack_outcome::<i32>(arrays@, r),
                ScalarType::I64 => stack_outcome::<i64>(arrays@, r),
                ScalarType::U8 => stack_outcome::<u8>(arrays@, r),
                ScalarType::U16 => stack_outcome::<u16>(arrays@, r),
                ScalarType::U32 => stack_outcome::<u32>(arrays@, r),
                ScalarType::U64 => stack_outcome::<u64>(arrays@, r),
                ScalarType::F32 => stack_outcome::<F32Bits>(arrays@, r),
                ScalarType::F64 => stack_outcome::<F64Bits>(arrays@, r),
                ScalarType::Bool => stack_outcome::<bool>(arrays@, r),
                ScalarType::String => stack_outcome::<String>(arrays@, r),
            },
    {
        if arrays.len() == 0 {
            return Err(Error::ShapeMismatch);
        }
        match arrays[0].dtype() {
            ScalarType::I8 => vstack_as::<i8>(arrays),
            ScalarType::I16 => vstack_as::<i16>(arrays),
            ScalarType::I32 => vstack_as::<i32>(arrays),
            ScalarType::I64 => vstack_as::<i64>(arrays),
            ScalarType::U8 => vstack_as::<u8>(arrays),
            ScalarType::U16 => vstack_as::<u16>(arrays),
            ScalarType::U32 => vstack_as::<u32>(arrays),
            ScalarType::U64 => vstack_as::<u64>(arrays),
            ScalarType::F32 => vstack_as::<F32Bits>(arrays),
            ScalarType::F64 => vstack_as::<F64Bits>(arrays),
            ScalarType::Bool => vstack_as::<bool>(arrays),
            ScalarType::String => vstack_as::<String>(arrays),
        }
    }
}

impl Element for DynScalar {
    fn duplicate(&self) -> (r: Self) {
        match self {
            DynScalar::I8(x) => DynScalar::I8(x.duplicate()),
            DynScalar::I16(x) => DynScalar::I16(x.duplicate()),
            DynScalar::I32(x) => DynScalar::I32(x.duplicate()),
            DynScalar::I64(x) => DynScalar::I64(x.duplicate()),
            DynScalar::U8(x) => DynScalar::U8(x.duplicate()),
            DynScalar::U16(x) => DynScalar::U16(x.duplicate()),
            DynScalar::U32(x) => DynScalar::U32(x.duplicate()),
            DynScalar::U64(x) => DynScalar::U64(x.duplicate()),
            DynScalar::F32(x) => DynScalar::F32(x.duplicate()),
            DynScalar::F64(x) => DynScalar::F64(x.duplicate()),
            DynScalar::Bool(x) => DynScalar::Bool(x.duplicate()),
            DynScalar::String(x) => DynScalar::String(x.duplicate()),
        }
    }

    open spec fn same_value(a: Self, b: Self) -> bool {
        match (a, b) {
            (DynScalar::I8(x), DynScalar::I8(y)) => <i8 as Element>::same_value(x, y),
            (DynScalar::I16(x), DynScalar::I16(y)) => <i16 as Element>::same_value(x, y),
            (DynScalar::I32(x), DynScalar::I32(y)) => <i32 as Element>::same_value(x, y),
            (DynScalar::I64(x), DynScalar::I64(y)) => <i64 as Element>::same_value(x, y),
            (DynScalar::U8(x), DynScalar::U8(y)) => <u8 as Element>::same_value(x, y),
            (DynScalar::U16(x), DynScalar::U16(y)) => <u16 as Element>::same_value(x, y),
            (DynScalar::U32(x), DynScalar::U32(y)) => <u32 as Element>::same_value(x, y),
            (DynScalar::U64(x), DynScalar::U64(y)) => <u64 as Element>::same_value(x, y),
            (DynScalar::F32(x), DynScalar::F32(y)) => <F32Bits as Element>::same_value(x, y),
            (DynScalar::F64(x), DynScalar::F64(y)) => <F64Bits as Element>::same_value(x, y),
            (DynScalar::Bool(x), DynScalar::Bool(y)) => <bool as Element>::same_value(x, y),
            (DynScalar::String(x), DynScalar::String(y)) => <String as Element>::same_value(x, y),
            _ => false,
        }
    }

    fn equals(&self, other: &Self) -> (r: bool) {
        match (self, other) {
            (DynScalar::I8(x), DynScalar::I8(y)) => x.equals(y),
            (DynScalar::I16(x), DynScalar::I16(y)) => x.equals(y),
            (DynScalar::I32(x), DynScalar::I32(y)) => x.equals(y),
            (DynScalar::I64(x), DynScalar::I64(y)) => x.equals(y),
            (DynScalar::U8(x), DynScalar::U8(y)) => x.equals(y),
            (DynScalar::U16(x), DynScalar::U16(y)) => x.equals(y),
            (DynScalar::U32(x), DynScalar::U32(y)) => x.equals(y),
            (DynScalar::U64(x), DynScalar::U64(y)) => x.equals(y),
            (DynScalar::F32(x), DynScalar::F32(y)) => x.equals(y),
            (DynScalar::F64(x), DynScalar::F64(y)) => x.equals(y),
            (DynScalar::Bool(x), DynScalar::Bool(y)) => x.equals(y),
            (DynScalar::String(x), DynScalar::String(y)) => x.equals(y),
            _ => false,
        }
    }
}

/// Whether `r` is the part of `a` that `info` selects.
pub open spec fn is_selection<T>(a: NdArray<T>, info: SelectInfo, r: NdArray<T>) -> bool {
    &&& r.shape@ == info.out_shape(a.shape@)
    &&& r.data@ == picked(a.data@, positions(a.shape@, info.index_lists(a.shape@)))
}

/// Whether `r` holds the same element type as `a` and is the part of `a` that `info` selects.
pub open spec fn dyn_selection(a: DynArray, info: SelectInfo, r: DynArray) -> bool {
    match (a, r) {
        (DynArray::I8(x), DynArray::I8(y)) => is_selection(x, info, y),
        (DynArray::I16(x), DynArray::I16(y)) => is_selection(x, info, y),
        (DynArray::I32(x), DynArray::I32(y)) => is_selection(x, info, y),
        (DynArray::I64(x), DynArray::I64(y)) => is_selection(x, info, y),
        (DynArray::U8(x), DynArray::U8(y)) => is_selection(x, info, y),
        (DynArray::U16(x), DynArray::U16(y)) => is_selection(x, info, y),
        (DynArray::U32(x), DynArray::U32(y)) => is_selection(x, info, y),
        (DynArray::U64(x), DynArray::U64(y)) => is_selection(x, info, y),
        (DynArray::F32(x), DynArray::F32(y)) => is_selection(x, info, y),
        (DynArray::F64(x), DynArray::F64(y)) => is_selection(x, info, y),
        (DynArray::Bool(x), DynArray::Bool(y)) => is_selection(x, info, y),
        (DynArray::String(x), DynArray::String(y)) => is_selection(x, info, y),
        _ => false,
    }
}

/// All arrays hold the element type of the first.
pub open spec fn same_type(arrays: Seq<DynArray>) -> bool {
    forall|i: int| 0 <= i < arrays.len() ==> (#[trigger] arrays[i]).scalar_type() == arrays[0].scalar_type()
}

/// The arrays as arrays of element type `T`.
pub open spec fn typed<T: DynElement>(arrays: Seq<DynArray>) -> Seq<NdArray<T>> {
    arrays.map_values(|a: DynArray| T::array_of(a)->0)
}

/// What stacking arrays of element type `T` gives.
pub open spec fn stack_outcome<T: DynElement>(arrays: Seq<DynArray>, r: Result<DynArray, Error>) -> bool {
    let arrs = typed::<T>(arrays);
    let fits = rows_total(arrs) <= usize::MAX && data_concat(arrs).len() <= usize::MAX;
    &&& !stackable(arrs) ==> r == Err::<DynArray, Error>(Error::ShapeMismatch)
    &&& stackable(arrs) && !fits ==> r == Err::<DynArray, Error>(Error::ShapeMismatch)
    &&& stackable(arrs) && fits ==> (r matches Ok(a) && a.wf() && T::array_of(a) is Some && T::array_of(a)->0.shape@
        == seq![rows_total(arrs) as usize] + arrs[0].shape@.drop_first() && T::array_of(a)->0.data@
        == data_concat(arrs))
}

/// Stacks arrays that should all hold elements of type `T`.
fn vstack_as<T: DynElement>(arrays: Vec<DynArray>) -> (r: Result<DynArray, Error>)
    requires
        arrays@.len() > 0,
        arrays@[0].scalar_type() == T::tag(),
        forall|i: int| 0 <= i < arrays@.len() ==> (#[trigger] arrays@[i]).wf(),
    ensures
        !same_type(arrays@) ==> r == Err::<DynArray, Error>(Error::DTypeMismatch),
        same_type(arrays@) ==> stack_outcome::<T>(arrays@, r),
{
    let mut arrs: Vec<NdArray<T>> = Vec::new();
    let mut rest = arrays;
    let n = rest.len();
    let mut i: usize = 0;
    while i < n
        invariant
            i <= n,
            n == arrays@.len(),
            rest@ == arrays@.skip(i as int),
            arrays@[0].scalar_type() == T::tag(),
            forall|j: int| 0 <= j < arrays@.len() ==> (#[trigger] arrays@[j]).wf(),
            forall|j: int| 0 <= j < i ==> (#[trigger] arrays@[j]).scalar_type() == T::tag(),
            forall|j: int| 0 <= j < i ==> (#[trigger] arrs@[j]).wf(),
            arrs@ == typed::<T>(arrays@.take(i as int)),
        decreases n - i,
    {
        let a = rest.remove(0);
        assert(a == arrays@[i as int]);
        assert(rest@ =~= arrays@.skip(i + 1));
        match T::from_dyn(a) {
            Some(x) => {
                arrs.push(x);
            },
            None => {
                return Err(Error::DTypeMismatch);
            },
        }
        assert(typed::<T>(arrays@.take(i + 1)) =~= typed::<T>(arrays@.take(i as int)).push(
            T::array_of(arrays@[i as int])->0,
        ));
        i = i + 1;
    }
    assert(arrays@.take(i as int) =~= arrays@);
    match NdArray::vstack(&arrs) {
        Ok(x) => Ok(T::into_dyn(x)),
        Err(e) => Err(e),
    }
}

/// An integer element type.
pub trait IntElement: DynElement {
    /// The value as a mathematical integer.
    spec fn int_value(v: Self) -> int;

    /// The value as a `usize`, where it is one.
    fn to_usize(v: &Self) -> (r: Option<usize>)
        ensures
            0 <= Self::int_value(*v) <= usize::MAX ==> r == Some(Self::int_value(*v) as usize),
            !(0 <= Self::int_value(*v) <= usize::MAX) ==> r is None,
    ;
}

impl IntElement for i8 {
    open spec fn int_value(v: Self) -> int {
        v as int
    }

    fn to_usize(v: &Self) -> (r: Option<usize>) {
        if *v >= 0 && (*v as u128) <= (usize::MAX as u128) {
            Some(*v as usize)
        } else {
            None
        }
    }
}

impl IntElement for i16 {
    open spec fn int_value(v: Self) -> int {
        v as int
    }

    fn to_usize(v: &Self) -> (r: Option<usize>) {
        if *v >= 0 && (*v as u128) <= (usize::MAX as u128) {
            Some(*v as usize)
        } else {
            None
        }
    }
}

impl IntElement for i32 {
    open spec fn int_value(v: Self) -> int {
        v as int
    }

    fn to_usize(v: &Self) -> (r: Option<usize>) {
        if *v >= 0 && (*v as u128) <= (usize::MAX as u128) {
            Some(*v as usize)
        } else {
            None
        }
    }
}

impl IntElement for i64 {
    open spec fn int_value(v: Self) -> int {
        v as int
    }

    fn to_usize(v: &Self) -> (r: Option<usize>) {
        if *v >= 0 && (*v as u128) <= (usize::MAX as u128) {
            Some(*v as usize)
        } else {
            None
        }
    }
}

impl IntElement for u8 {
    open spec fn int_value(v: Self) -> int {
        v as int
    }

    fn to_usize(v: &Self) -> (r: Option<usize>) {
        if *v >= 0 && (*v as u128) <= (usize::MAX as u128) {
            Some(*v as usize)
        } else {
            None
        }
    }
}

impl IntElement for u16 {
    open spec fn int_value(v: Self) -> int {
        v as int
    }

    fn to_usize(v: &Self) -> (r: Option<usize>) {
        if *v >= 0 && (*v as u128) <= (usize::MAX as u128) {
            Some(*v as usize)
        } else {
            None
        }
    }
}

impl IntElement for u32 {
    open spec fn int_value(v: Self) -> int {
        v as int
    }

    fn to_usize(v: &Self) -> (r: Option<usize>) {
        if *v >= 0 && (*v as u128) <= (usize::MAX as u128) {
            Some(*v as usize)
        } else {
            None
        }
    }
}

impl IntElement for u64 {
    open spec fn int_value(v: Self) -> int {
        v as int
    }

    fn to_usize(v: &Self) -> (r: Option<usize>) {
        if *v >= 0 && (*v as u128) <= (usize::MAX as u128) {
            Some(*v as usize)
        } else {
            None
        }
    }
}

/// The elements of an integer array as mathematical integers; `None` for other element types.
pub open spec fn int_values(a: DynArray) -> Option<Seq<int>> {
    match a {
        DynArray::I8(x) => Some(x.data@.map_values(|e: i8| e as int)),
        DynArray::I16(x) => Some(x.data@.map_values(|e: i16| e as int)),
        DynArray::I32(x) => Some(x.data@.map_values(|e: i32| e as int)),
        DynArray::I64(x) => Some(x.data@.map_values(|e: i64| e as int)),
        DynArray::U8(x) => Some(x.data@.map_values(|e: u8| e as int)),
        DynArray::U16(x) => Some(x.data@.map_values(|e: u16| e as int)),
        DynArray::U32(x) => Some(x.data@.map_values(|e: u32| e as int)),
        DynArray::U64(x) => Some(x.data@.map_values(|e: u64| e as int)),
        _ => None,
    }
}

/// Converts every element to `usize`, failing on the first that is not one.
fn cast_as<T: IntElement>(x: &NdArray<T>) -> (r: Result<NdArray<usize>, Error>)
    ensures
        ({
            let vals = x.data@.map_values(|e: T| T::int_value(e));
            &&& (forall|i: int| 0 <= i < vals.len() ==> 0 <= #[trigger] vals[i] <= usize::MAX) ==> (r matches Ok(y)
                && y.shape@ == x.shape@ && y.data@.map_values(|e: usize| e as int) == vals)
            &&& !(forall|i: int| 0 <= i < vals.len() ==> 0 <= #[trigger] vals[i] <= usize::MAX) ==> r
                == Err::<NdArray<usize>, Error>(Error::Cast)
        }),
{
    let mut out: Vec<usize> = Vec::new();
    let mut i: usize = 0;
    while i < x.data.len()
        invariant
            i <= x.data@.len(),
            out@.len() == i,
            forall|j: int| 0 <= j < i ==> 0 <= #[trigger] T::int_value(x.data@[j]) <= usize::MAX,
            forall|j: int| 0 <= j < i ==> out@[j] as int == T::int_value(x.data@[j]),
        decreases x.data@.len() - i,
    {
        match T::to_usize(&x.data[i]) {
            Some(u) => {
                out.push(u);
            },
            None => {
                assert(x.data@.map_values(|e: T| T::int_value(e))[i as int] == T::int_value(
                    x.data@[i as int],
                ));
                return Err(Error::Cast);
            },
        }
        i = i + 1;
    }
    let shape = crate::array::duplicate_vec(&x.shape);
    let y = NdArray { shape, data: out };
    assert(y.data@.map_values(|e: usize| e as int) =~= x.data@.map_values(|e: T| T::int_value(e)));
    Ok(y)
}

impl DynArray {
    /// The array converted to `usize` elements. Unsigned integers convert where they fit;
    /// signed integers convert where they are not negative and fit; other element types do not
    /// convert.
    pub fn cast_usize(&self) -> (r: Result<NdArray<usize>, Error>)
        ensures
            int_values(*self) is None ==> r == Err::<NdArray<usize>, Error>(Error::Cast),
            int_values(*self) is Some && (forall|i: int|
                0 <= i < int_values(*self)->0.len() ==> 0 <= #[trigger] int_values(*self)->0[i]
                    <= usize::MAX) ==> (r matches Ok(y) && y.shape@ == self.shape_view()
                && y.data@.map_values(|e: usize| e as int) == int_values(*self)->0),
            int_values(*self) is Some && !(forall|i: int|
                0 <= i < int_values(*self)->0.len() ==> 0 <= #[trigger] int_values(*self)->0[i]
                    <= usize::MAX) ==> r == Err::<
                NdArray<usize>,
                Error,
            >(Error::Cast),
    {
        match self {
            DynArray::I8(x) => {
                assert(int_values(*self)->0 =~= x.data@.map_values(
                    |e: i8| <i8 as IntElement>::int_value(e),
                ));
                cast_as(x)
            },
            DynArray::I16(x) => {
                assert(int_values(*self)->0 =~= x.data@.map_values(
                    |e: i16| <i16 as IntElement>::int_value(e),
                ));
                cast_as(x)
            },
            DynArray::I32(x) => {
                assert(int_values(*self)->0 =~= x.data@.map_values(
                    |e: i32| <i32 as IntElement>::int_value(e),
                ));
                cast_as(x)
            },
            DynArray::I64(x) => {
                assert(int_values(*self)->0 =~= x.data@.map_values(
                    |e: i64| <i64 as IntElement>::int_value(e),
                ));
                cast_as(x)
            },
            DynArray::U8(x) => {
                assert(int_values(*self)->0 =~= x.data@.map_values(
                    |e: u8| <u8 as IntElement>::int_value(e),
                ));
                cast_as(x)
            },
            DynArray::U16(x) => {
                assert(int_values(*self)->0 =~= x.data@.map_values(
                    |e: u16| <u16 as IntElement>::int_value(e),
                ));
                cast_as(x)
            },
            DynArray::U32(x) => {
                assert(int_values(*self)->0 =~= x.data@.map_values(
                    |e: u32| <u32 as IntElement>::int_value(e),
                ));
                cast_as(x)
            },
            DynArray::U64(x) => {
                assert(int_values(*self)->0 =~= x.data@.map_values(
                    |e: u64| <u64 as IntElement>::int_value(e),
                ));
                cast_as(x)
            },
            _ => Err(Error::Cast),
        }
    }
}

impl DynArray {
    /// Whether both arrays hold the same element type, shape and elements.
    pub open spec fn same_as(&self, other: DynArray) -> bool {
        match (*self, other) {
            (DynArray::I8(x), DynArray::I8(y)) => x.same(y),
            (DynArray::I16(x), DynArray::I16(y)) => x.same(y),
            (DynArray::I32(x), DynArray::I32(y)) => x.same(y),
            (DynArray::I64(x), DynArray::I64(y)) => x.same(y),
            (DynArray::U8(x), DynArray::U8(y)) => x.same(y),
            (DynArray::U16(x), DynArray::U16(y)) => x.same(y),
            (DynArray::U32(x), DynArray::U32(y)) => x.same(y),
            (DynArray::U64(x), DynArray::U64(y)) => x.same(y),
            (DynArray::F32(x), DynArray::F32(y)) => x.same(y),
            (DynArray::F64(x), DynArray::F64(y)) => x.same(y),
            (DynArray::Bool(x), DynArray::Bool(y)) => x.same(y),
            (DynArray::String(x), DynArray::String(y)) => x.same(y),
            _ => false,
        }
    }

    /// A copy of the array.
    pub fn copy(&self) -> (r: DynArray)
        ensures
            r.same_as(*self),
            r.wf() == self.wf(),
    {
        match self {
            DynArray::I8(x) => DynArray::I8(x.copy()),
            DynArray::I16(x) => DynArray::I16(x.copy()),
            DynArray::I32(x) => DynArray::I32(x.copy()),
            DynArray::I64(x) => DynArray::I64(x.copy()),
            DynArray::U8(x) => DynArray::U8(x.copy()),
            DynArray::U16(x) => DynArray::U16(x.copy()),
            DynArray::U32(x) => DynArray::U32(x.copy()),
            DynArray::U64(x) => DynArray::U64(x.copy()),
            DynArray::F32(x) => DynArray::F32(x.copy()),
            DynArray::F64(x) => DynArray::F64(x.copy()),
            DynArray::Bool(x) => DynArray::Bool(x.copy()),
            DynArray::String(x) => DynArray::String(x.copy()),
        }
    }
}

impl DynArray {
    /// Checks that the elements fill the shape exactly.
    pub fn is_wf(&self) -> (r: bool)
        ensures
            r == self.wf(),
    {
        match self {
            DynArray::I8(x) => x.is_wf(),
            DynArray::I16(x) => x.is_wf(),
            DynArray::I32(x) => x.is_wf(),
            DynArray::I64(x) => x.is_wf(),
            DynArray::U8(x) => x.is_wf(),
            DynArray::U16(x) => x.is_wf(),
            DynArray::U32(x) => x.is_wf(),
            DynArray::U64(x) => x.is_wf(),
            DynArray::F32(x) => x.is_wf(),
            DynArray::F64(x) => x.is_wf(),
            DynArray::Bool(x) => x.is_wf(),
            DynArray::String(x) => x.is_wf(),
        }
    }
}

/// What a selection from a dynamic array gives, element by element.
pub proof fn lemma_dyn_selection_elements(a: DynArray, info: SelectInfo, r: DynArray)
    requires
        dyn_selection(a, info, r),
    ensures
        r.scalar_type() == a.scalar_type(),
        r.shape_view() == info.out_shape(a.shape_view()),
        r.len_view() == positions(a.shape_view(), info.index_lists(a.shape_view())).len(),
        forall|q: int|
            0 <= q < r.len_view() ==> #[trigger] r.element_at(q) == a.element_at(
                positions(a.shape_view(), info.index_lists(a.shape_view()))[q],
            ),
{
}

/// Arrays with the same type, shape and elements agree on everything the library reads of them.
pub proof fn lemma_same_as(a: DynArray, b: DynArray)
    requires
        a.same_as(b),
    ensures
        a.scalar_type() == b.scalar_type(),
        a.shape_view() == b.shape_view(),
        a.len_view() == b.len_view(),
        a.wf() == b.wf(),
        forall|i: int| #[trigger] a.element_at(i) == b.element_at(i),
        b.same_as(a),
        a.same_as(a),
{
}

pub proof fn lemma_same_as_trans(a: DynArray, b: DynArray, c: DynArray)
    requires
        a.same_as(b),
        b.same_as(c),
    ensures
        a.same_as(c),
{
}

/// Whether two arrays have the same shape and equal values at every position.
pub open spec fn nd_equal<T: Element>(a: NdArray<T>, b: NdArray<T>) -> bool {
    &&& a.shape@ == b.shape@
    &&& a.data@.len() == b.data@.len()
    &&& forall|i: int| 0 <= i < a.data@.len() ==> T::same_value(#[trigger] a.data@[i], b.data@[i])
}

fn nd_equals<T: Element>(a: &NdArray<T>, b: &NdArray<T>) -> (r: bool)
    ensures
        r == nd_equal(*a, *b),
{
    if !crate::array::same_dims(&a.shape, &b.shape) || a.data.len() != b.data.len() {
        return false;
    }
    let mut i: usize = 0;
    while i < a.data.len()
        invariant
            i <= a.data@.len(),
            a.data@.len() == b.data@.len(),
            forall|j: int| 0 <= j < i ==> T::same_value(#[trigger] a.data@[j], b.data@[j]),
        decreases a.data@.len() - i,
    {
        if !a.data[i].equals(&b.data[i]) {
            return false;
        }
        i = i + 1;
    }
    true
}

impl DynArray {
    /// Whether both arrays hold the same element type, shape and values.
    pub open spec fn equal_values(&self, other: DynArray) -> bool {
        match (*self, other) {
            (DynArray::I8(x), DynArray::I8(y)) => nd_equal(x, y),
            (DynArray::I16(x), DynArray::I16(y)) => nd_equal(x, y),
            (DynArray::I32(x), DynArray::I32(y)) => nd_equal(x, y),
            (DynArray::I64(x), DynArray::I64(y)) => nd_equal(x, y),
            (DynArray::U8(x), DynArray::U8(y)) => nd_equal(x, y),
            (DynArray::U16(x), DynArray::U16(y)) => nd_equal(x, y),
            (DynArray::U32(x), DynArray::U32(y)) => nd_equal(x, y),
            (DynArray::U64(x), DynArray::U64(y)) => nd_equal(x, y),
            (DynArray::F32(x), DynArray::F32(y)) => nd_equal(x, y),
            (DynArray::F64(x), DynArray::F64(y)) => nd_equal(x, y),
            (DynArray::Bool(x), DynArray::Bool(y)) => nd_equal(x, y),
            (DynArray::String(x), DynArray::String(y)) => nd_equal(x, y),
            _ => false,
        }
    }

    /// Whether both arrays hold the same element type, shape and values.
    pub fn equals(&self, other: &DynArray) -> (r: bool)
        ensures
            r == self.equal_values(*other),
    {
        match (self, other) {
            (DynArray::I8(x), DynArray::I8(y)) => nd_equals(x, y),
            (DynArray::I16(x), DynArray::I16(y)) => nd_equals(x, y),
            (DynArray::I32(x), DynArray::I32(y)) => nd_equals(x, y),
            (DynArray::I64(x), DynArray::I64(y)) => nd_equals(x, y),
            (DynArray::U8(x), DynArray::U8(y)) => nd_equals(x, y),
            (DynArray::U16(x), DynArray::U16(y)) => nd_equals(x, y),
            (DynArray::U32(x), DynArray::U32(y)) => nd_equals(x, y),
            (DynArray::U64(x), DynArray::U64(y)) => nd_equals(x, y),
            (DynArray::F32(x), DynArray::F32(y)) => nd_equals(x, y),
            (DynArray::F64(x), DynArray::F64(y)) => nd_equals(x, y),
            (DynArray::Bool(x), DynArray::Bool(y)) => nd_equals(x, y),
            (DynArray::String(x), DynArray::String(y)) => nd_equals(x, y),
            _ => false,
        }
    }
}

/// Arrays of one type and shape that agree at every position are the same.
pub proof fn lemma_same_from_elements(a: DynArray, b: DynArray)
    requires
        a.scalar_type() == b.scalar_type(),
        a.shape_view() == b.shape_view(),
        a.len_view() == b.len_view(),
        forall|q: int| 0 <= q < a.len_view() ==> #[trigger] a.element_at(q) == b.element_at(q),
    ensures
        a.same_as(b),
{
    match (a, b) {
        (DynArray::I8(x), DynArray::I8(y)) => {
            assert forall|q: int| 0 <= q < x.data@.len() implies x.data@[q] == y.data@[q] by {
                assert(a.element_at(q) == b.element_at(q));
            }
            assert(x.data@ =~= y.data@);
        },
        (DynArray::I16(x), DynArray::I16(y)) => {
            assert forall|q: int| 0 <= q < x.data@.len() implies x.data@[q] == y.data@[q] by {
                assert(a.element_at(q) == b.element_at(q));
            }
            assert(x.data@ =~= y.data@);
        },
        (DynArray::I32(x), DynArray::I32(y)) => {
            assert forall|q: int| 0 <= q < x.data@.len() implies x.data@[q] == y.data@[q] by {
                assert(a.element_at(q) == b.element_at(q));
            }
            assert(x.data@ =~= y.data@);
        },
        (DynArray::I64(x), DynArray::I64(y)) => {
            assert forall|q: int| 0 <= q < x.data@.len() implies x.data@[q] == y.data@[q] by {
                assert(a.element_at(q) == b.element_at(q));
            }
            assert(x.data@ =~= y.data@);
        },
        (DynArray::U8(x), DynArray::U8(y)) => {
            assert forall|q: int| 0 <= q < x.data@.len() implies x.data@[q] == y.data@[q] by {
                assert(a.element_at(q) == b.element_at(q));
            }
            assert(x.data@ =~= y.data@);
        },
        (DynArray::U16(x), DynArray::U16(y)) => {
            assert forall|q: int| 0 <= q < x.data@.len() implies x.data@[q] == y.data@[q] by {
                assert(a.element_at(q) == b.element_at(q));
            }
            assert(x.data@ =~= y.data@);
        },
        (DynArray::U32(x), DynArray::U32(y)) => {
            assert forall|q: int| 0 <= q < x.data@.len() implies x.data@[q] == y.data@[q] by {
                assert(a.element_at(q) == b.element_at(q));
            }
            assert(x.data@ =~= y.data@);
        },
        (DynArray::U64(x), DynArray::U64(y)) => {
            assert forall|q: int| 0 <= q < x.data@.len() implies x.data@[q] == y.data@[q] by {
                assert(a.element_at(q) == b.element_at(q));
            }
            assert(x.data@ =~= y.data@);
        },
        (DynArray::F32(x), DynArray::F32(y)) => {
            assert forall|q: int| 0 <= q < x.data@.len() implies x.data@[q] == y.data@[q] by {
                assert(a.element_at(q) == b.element_at(q));
            }
            assert(x.data@ =~= y.data@);
        },
        (DynArray::F64(x), DynArray::F64(y)) => {
            assert forall|q: int| 0 <= q < x.data@.len() implies x.data@[q] == y.data@[q] by {
                assert(a.element_at(q) == b.element_at(q));
            }
            assert(x.data@ =~= y.data@);
        },
        (DynArray::Bool(x), DynArray::Bool(y)) => {
            assert forall|q: int| 0 <= q < x.data@.len() implies x.data@[q] == y.data@[q] by {
                assert(a.element_at(q) == b.element_at(q));
            }
            assert(x.data@ =~= y.data@);
        },
        (DynArray::String(x), DynArray::String(y)) => {
            assert forall|q: int| 0 <= q < x.data@.len() implies x.data@[q] == y.data@[q] by {
                assert(a.element_at(q) == b.element_at(q));
            }
            assert(x.data@ =~= y.data@);
        },
        _ => {},
    }
}

} // verus!
