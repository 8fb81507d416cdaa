//! Data that patches an individual parameter.

use crate::clock::{
    DurationMusical, DurationSamples, DurationSeconds, EventInstant, InstantMusical,
    InstantSamples, InstantSeconds,
};
use crate::diff::PatchError;
use vstd::prelude::*;
use vstd::std_specs::convert::{FromSpec, FromSpecImpl, TryFromSpec, TryFromSpecImpl};

verus! {

/// The bits of a 32-bit floating point number.
#[derive(Debug, Clone, Copy, PartialEq, Eq, Hash, Structural)]
pub struct F32Bits(pub u32);

/// The bits of a 64-bit floating point number.
#[derive(Debug, Clone, Copy, PartialEq, Eq, Hash, Structural)]
pub struct F64Bits(pub u64);

/// A volume, linear or in decibels.
#[derive(Debug, Clone, Copy, PartialEq, Eq, Hash, Structural)]
pub enum Volume {
    Linear(F32Bits),
    Decibels(F32Bits),
}

/// A two-dimensional vector.
#[derive(Debug, Clone, Copy, PartialEq, Eq, Hash, Structural)]
pub struct Vec2 {
    pub x: F32Bits,
    pub y: F32Bits,
}

/// A three-dimensional vector.
#[derive(Debug, Clone, Copy, PartialEq, Eq, Hash, Structural)]
pub struct Vec3 {
    pub x: F32Bits,
    pub y: F32Bits,
    pub z: F32Bits,
}

/// Data that can be used to patch an individual parameter.
#[non_exhaustive]
pub enum ParamData<E> {
    Volume(Volume),
    F32(F32Bits),
    F64(F64Bits),
    I32(i32),
    U32(u32),
    I64(i64),
    U64(u64),
    Bool(bool),
    Vector2D(Vec2),
    Vector3D(Vec3),
    EventInstant(EventInstant),
    InstantSeconds(InstantSeconds),
    DurationSeconds(DurationSeconds),
    InstantSamples(InstantSamples),
    DurationSamples(DurationSamples),
    InstantMusical(InstantMusical),
    DurationMusical(DurationMusical),
    /// Custom type stored on the heap.
    Any(E),
    /// Custom type stored on the stack as raw bytes.
    CustomBytes([u8; 20]),
    /// No data (i.e. the type is `None`).
    NoData,
}

impl<E> ParamData<E> {
    /// Construct a [`ParamData::Any`] variant.
    pub fn any(value: E) -> (data: Self)
        ensures
            data == ParamData::Any(value),
    {
        ParamData::Any(value)
    }

    /// Construct an optional [`ParamData::Any`] variant.
    pub fn opt_any(value: Option<E>) -> (data: Self)
        ensures
            data == (match value {
                Some(v) => ParamData::Any(v),
                None => ParamData::NoData,
            }),
    {
        match value {
            Some(v) => ParamData::Any(v),
            None => ParamData::NoData,
        }
    }

    /// The value of [`ParamData::Any`].
    ///
    /// If this enum doesn't hold [`ParamData::Any`], then this returns `None`.
    pub fn downcast_ref(&self) -> (value: Option<&E>)
        ensures
            match self {
                ParamData::Any(v) => value == Some(v),
                _ => value is None,
            },
    {
        match self {
            ParamData::Any(v) => Some(v),
            _ => None,
        }
    }
}

impl<E> From<()> for ParamData<E> {
    fn from(_value: ()) -> (data: Self) {
        ParamData::NoData
    }
}

impl<E> FromSpecImpl<()> for ParamData<E> {
    open spec fn obeys_from_spec() -> bool {
        true
    }

    open spec fn from_spec(_value: ()) -> Self {
        ParamData::NoData
    }
}

impl<'a, E> TryFrom<&'a ParamData<E>> for () {
    type Error = PatchError;

    fn try_from(data: &'a ParamData<E>) -> (value: Result<(), PatchError>) {
        match data {
            ParamData::NoData => Ok(()),
            _ => Err(PatchError::InvalidData),
        }
    }
}

impl<'a, E> TryFromSpecImpl<&'a ParamData<E>> for () {
    open spec fn obeys_try_from_spec() -> bool {
        true
    }

    open spec fn try_from_spec(data: &'a ParamData<E>) -> Result<(), PatchError> {
        match data {
            ParamData::NoData => Ok(()),
            _ => Err(PatchError::InvalidData),
        }
    }
}

impl<E> From<Volume> for ParamData<E> {
    fn from(value: Volume) -> (data: Self) {
        ParamData::Volume(value)
    }
}

impl<E> FromSpecImpl<Volume> for ParamData<E> {
    open spec fn obeys_from_spec() -> bool {
        true
    }

    open spec fn from_spec(value: Volume) -> Self {
        ParamData::Volume(value)
    }
}

impl<E> From<Option<Volume>> for ParamData<E> {
    fn from(value: Option<Volume>) -> (data: Self) {
        match value {
            Some(v) => ParamData::Volume(v),
            None => ParamData::NoData,
        }
    }
}

impl<E> FromSpecImpl<Option<Volume>> for ParamData<E> {
    open spec fn obeys_from_spec() -> bool {
        true
    }

    open spec fn from_spec(value: Option<Volume>) -> Self {
        match value {
            Some(v) => ParamData::Volume(v),
            None => ParamData::NoData,
        }
    }
}

impl<'a, E> TryFrom<&'a ParamData<E>> for Volume {
    type Error = PatchError;

    fn try_from(data: &'a ParamData<E>) -> (value: Result<Volume, PatchError>) {
        match data {
            ParamData::Volume(v) => Ok(*v),
            _ => Err(PatchError::InvalidData),
        }
    }
}

impl<'a, E> TryFromSpecImpl<&'a ParamData<E>> for Volume {
    open spec fn obeys_try_from_spec() -> bool {
        true
    }

    open spec fn try_from_spec(data: &'a ParamData<E>) -> Result<Volume, PatchError> {
        match data {
            ParamData::Volume(v) => Ok(*v),
            _ => Err(PatchError::InvalidData),
        }
    }
}

impl<'a, E> TryFrom<&'a ParamData<E>> for Option<Volume> {
    type Error = PatchError;

    fn try_from(data: &'a ParamData<E>) -> (value: Result<Option<Volume>, PatchError>) {
        match data {
            ParamData::Volume(v) => Ok(Some(*v)),
            ParamData::NoData => Ok(None),
            _ => Err(PatchError::InvalidData),
        }
    }
}

impl<'a, E> TryFromSpecImpl<&'a ParamData<E>> for Option<Volume> {
    open spec fn obeys_try_from_spec() -> bool {
        true
    }

    open spec fn try_from_spec(data: &'a ParamData<E>) -> Result<Option<Volume>, PatchError> {
        match data {
            ParamData::Volume(v) => Ok(Some(*v)),
            ParamData::NoData => Ok(None),
            _ => Err(PatchError::InvalidData),
        }
    }
}

impl<E> From<F32Bits> for ParamData<E> {
    fn from(value: F32Bits) -> (data: Self) {
        ParamData::F32(value)
    }
}

impl<E> FromSpecImpl<F32Bits> for ParamData<E> {
    open spec fn obeys_from_spec() -> bool {
        true
    }

    open spec fn from_spec(value: F32Bits) -> Self {
        ParamData::F32(value)
    }
}

impl<E> From<Option<F32Bits>> for ParamData<E> {
    fn from(value: Option<F32Bits>) -> (data: Self) {
        match value {
            Some(v) => ParamData::F32(v),
            None => ParamData::NoData,
        }
    }
}

impl<E> FromSpecImpl<Option<F32Bits>> for ParamData<E> {
    open spec fn obeys_from_spec() -> bool {
        true
    }

    open spec fn from_spec(value: Option<F32Bits>) -> Self {
        match value {
            Some(v) => ParamData::F32(v),
            None => ParamData::NoData,
        }
    }
}

impl<'a, E> TryFrom<&'a ParamData<E>> for F32Bits {
    type Error = PatchError;

    fn try_from(data: &'a ParamData<E>) -> (value: Result<F32Bits, PatchError>) {
        match data {
            ParamData::F32(v) => Ok(*v),
            _ => Err(PatchError::InvalidData),
        }
    }
}

impl<'a, E> TryFromSpecImpl<&'a ParamData<E>> for F32Bits {
    open spec fn obeys_try_from_spec() -> bool {
        true
    }

    open spec fn try_from_spec(data: &'a ParamData<E>) -> Result<F32Bits, PatchError> {
        match data {
            ParamData::F32(v) => Ok(*v),
            _ => Err(PatchError::InvalidData),
        }
    }
}

impl<'a, E> TryFrom<&'a ParamData<E>> for Option<F32Bits> {
    type Error = PatchError;

    fn try_from(data: &'a ParamData<E>) -> (value: Result<Option<F32Bits>, PatchError>) {
        match data {
            ParamData::F32(v) => Ok(Some(*v)),
            ParamData::NoData => Ok(None),
            _ => Err(PatchError::InvalidData),
        }
    }
}

impl<'a, E> TryFromSpecImpl<&'a ParamData<E>> for Option<F32Bits> {
    open spec fn obeys_try_from_spec() -> bool {
        true
    }

    open spec fn try_from_spec(data: &'a ParamData<E>) -> Result<Option<F32Bits>, PatchError> {
        match data {
            ParamData::F32(v) => Ok(Some(*v)),
            ParamData::NoData => Ok(None),
            _ => Err(PatchError::InvalidData),
        }
    }
}

impl<E> From<F64Bits> for ParamData<E> {
    fn from(value: F64Bits) -> (data: Self) {
        ParamData::F64(value)
    }
}

impl<E> FromSpecImpl<F64Bits> for ParamData<E> {
    open spec fn obeys_from_spec() -> bool {
        true
    }

    open spec fn from_spec(value: F64Bits) -> Self {
        ParamData::F64(value)
    }
}

impl<E> From<Option<F64Bits>> for ParamData<E> {
    fn from(value: Option<F64Bits>) -> (data: Self) {
        match value {
            Some(v) => ParamData::F64(v),
            None => ParamData::NoData,
        }
    }
}

impl<E> FromSpecImpl<Option<F64Bits>> for ParamData<E> {
    open spec fn obeys_from_spec() -> bool {
        true
    }

    open spec fn from_spec(value: Option<F64Bits>) -> Self {
        match value {
            Some(v) => ParamData::F64(v),
            None => ParamData::NoData,
        }
    }
}

impl<'a, E> TryFrom<&'a ParamData<E>> for F64Bits {
    type Error = PatchError;

    fn try_from(data: &'a ParamData<E>) -> (value: Result<F64Bits, PatchError>) {
        match data {
            ParamData::F64(v) => Ok(*v),
            _ => Err(PatchError::InvalidData),
        }
    }
}

impl<'a, E> TryFromSpecImpl<&'a ParamData<E>> for F64Bits {
    open spec fn obeys_try_from_spec() -> bool {
        true
    }

    open spec fn try_from_spec(data: &'a ParamData<E>) -> Result<F64Bits, PatchError> {
        match data {
            ParamData::F64(v) => Ok(*v),
            _ => Err(PatchError::InvalidData),
        }
    }
}

impl<'a, E> TryFrom<&'a ParamData<E>> for Option<F64Bits> {
    type Error = PatchError;

    fn try_from(data: &'a ParamData<E>) -> (value: Result<Option<F64Bits>, PatchError>) {
        match data {
            ParamData::F64(v) => Ok(Some(*v)),
            ParamData::NoData => Ok(None),
            _ => Err(PatchError::InvalidData),
        }
    }
}

impl<'a, E> TryFromSpecImpl<&'a ParamData<E>> for Option<F64Bits> {
    open spec fn obeys_try_from_spec() -> bool {
        true
    }

    open spec fn try_from_spec(data: &'a ParamData<E>) -> Result<Option<F64Bits>, PatchError> {
        match data {
            ParamData::F64(v) => Ok(Some(*v)),
            ParamData::NoData => Ok(None),
            _ => Err(PatchError::InvalidData),
        }
    }
}

impl<E> From<i32> for ParamData<E> {
    fn from(value: i32) -> (data: Self) {
        ParamData::I32(value)
    }
}

impl<E> FromSpecImpl<i32> for ParamData<E> {
    open spec fn obeys_from_spec() -> bool {
        true
    }

    open spec fn from_spec(value: i32) -> Self {
        ParamData::I32(value)
    }
}

impl<E> From<Option<i32>> for ParamData<E> {
    fn from(value: Option<i32>) -> (data: Self) {
        match value {
            Some(v) => ParamData::I32(v),
            None => ParamData::NoData,
        }
    }
}

impl<E> FromSpecImpl<Option<i32>> for ParamData<E> {
    open spec fn obeys_from_spec() -> bool {
        true
    }

    open spec fn from_spec(value: Option<i32>) -> Self {
        match value {
            Some(v) => ParamData::I32(v),
            None => ParamData::NoData,
        }
    }
}

impl<'a, E> TryFrom<&'a ParamData<E>> for i32 {
    type Error = PatchError;

    fn try_from(data: &'a ParamData<E>) -> (value: Result<i32, PatchError>) {
        match data {
            ParamData::I32(v) => Ok(*v),
            _ => Err(PatchError::InvalidData),
        }
    }
}

impl<'a, E> TryFromSpecImpl<&'a ParamData<E>> for i32 {
    open spec fn obeys_try_from_spec() -> bool {
        true
    }

    open spec fn try_from_spec(data: &'a ParamData<E>) -> Result<i32, PatchError> {
        match data {
            ParamData::I32(v) => Ok(*v),
            _ => Err(PatchError::InvalidData),
        }
    }
}

impl<'a, E> TryFrom<&'a ParamData<E>> for Option<i32> {
    type Error = PatchError;

    fn try_from(data: &'a ParamData<E>) -> (value: Result<Option<i32>, PatchError>) {
        match data {
            ParamData::I32(v) => Ok(Some(*v)),
            ParamData::NoData => Ok(None),
            _ => Err(PatchError::InvalidData),
        }
    }
}

impl<'a, E> TryFromSpecImpl<&'a ParamData<E>> for Option<i32> {
    open spec fn obeys_try_from_spec() -> bool {
        true
    }

    open spec fn try_from_spec(data: &'a ParamData<E>) -> Result<Option<i32>, PatchError> {
        match data {
            ParamData::I32(v) => Ok(Some(*v)),
            ParamData::NoData => Ok(None),
            _ => Err(PatchError::InvalidData),
        }
    }
}

impl<E> From<u32> for ParamData<E> {
    fn from(value: u32) -> (data: Self) {
        ParamData::U32(value)
    }
}

impl<E> FromSpecImpl<u32> for ParamData<E> {
    open spec fn obeys_from_spec() -> bool {
        true
    }

    open spec fn from_spec(value: u32) -> Self {
        ParamData::U32(value)
    }
}

impl<E> From<Option<u32>> for ParamData<E> {
    fn from(value: Option<u32>) -> (data: Self) {
        match value {
            Some(v) => ParamData::U32(v),
            None => ParamData::NoData,
        }
    }
}

impl<E> FromSpecImpl<Option<u32>> for ParamData<E> {
    open spec fn obeys_from_spec() -> bool {
        true
    }

    open spec fn from_spec(value: Option<u32>) -> Self {
        match value {
            Some(v) => ParamData::U32(v),
            None => ParamData::NoData,
        }
    }
}

impl<'a, E> TryFrom<&'a ParamData<E>> for u32 {
    type Error = PatchError;

    fn try_from(data: &'a ParamData<E>) -> (value: Result<u32, PatchError>) {
        match data {
            ParamData::U32(v) => Ok(*v),
            _ => Err(PatchError::InvalidData),
        }
    }
}

impl<'a, E> TryFromSpecImpl<&'a ParamData<E>> for u32 {
    open spec fn obeys_try_from_spec() -> bool {
        true
    }

    open spec fn try_from_spec(data: &'a ParamData<E>) -> Result<u32, PatchError> {
        match data {
            ParamData::U32(v) => Ok(*v),
            _ => Err(PatchError::InvalidData),
        }
    }
}

impl<'a, E> TryFrom<&'a ParamData<E>> for Option<u32> {
    type Error = PatchError;

    fn try_from(data: &'a ParamData<E>) -> (value: Result<Option<u32>, PatchError>) {
        match data {
            ParamData::U32(v) => Ok(Some(*v)),
            ParamData::NoData => Ok(None),
            _ => Err(PatchError::InvalidData),
        }
    }
}

impl<'a, E> TryFromSpecImpl<&'a ParamData<E>> for Option<u32> {
    open spec fn obeys_try_from_spec() -> bool {
        true
    }

    open spec fn try_from_spec(data: &'a ParamData<E>) -> Result<Option<u32>, PatchError> {
        match data {
            ParamData::U32(v) => Ok(Some(*v)),
            ParamData::NoData => Ok(None),
            _ => Err(PatchError::InvalidData),
        }
    }
}

impl<E> From<i64> for ParamData<E> {
    fn from(value: i64) -> (data: Self) {
        ParamData::I64(value)
    }
}

impl<E> FromSpecImpl<i64> for ParamData<E> {
    open spec fn obeys_from_spec() -> bool {
        true
    }

    open spec fn from_spec(value: i64) -> Self {
        ParamData::I64(value)
    }
}

impl<E> From<Option<i64>> for ParamData<E> {
    fn from(value: Option<i64>) -> (data: Self) {
        match value {
            Some(v) => ParamData::I64(v),
            None => ParamData::NoData,
        }
    }
}

impl<E> FromSpecImpl<Option<i64>> for ParamData<E> {
    open spec fn obeys_from_spec() -> bool {
        true
    }

    open spec fn from_spec(value: Option<i64>) -> Self {
        match value {
            Some(v) => ParamData::I64(v),
            None => ParamData::NoData,
        }
    }
}

impl<'a, E> TryFrom<&'a ParamData<E>> for i64 {
    type Error = PatchError;

    fn try_from(data: &'a ParamData<E>) -> (value: Result<i64, PatchError>) {
        match data {
            ParamData::I64(v) => Ok(*v),
            _ => Err(PatchError::InvalidData),
        }
    }
}

impl<'a, E> TryFromSpecImpl<&'a ParamData<E>> for i64 {
    open spec fn obeys_try_from_spec() -> bool {
        true
    }

    open spec fn try_from_spec(data: &'a ParamData<E>) -> Result<i64, PatchError> {
        match data {
            ParamData::I64(v) => Ok(*v),
            _ => Err(PatchError::InvalidData),
        }
    }
}

impl<'a, E> TryFrom<&'a ParamData<E>> for Option<i64> {
    type Error = PatchError;

    fn try_from(data: &'a ParamData<E>) -> (value: Result<Option<i64>, PatchError>) {
        match data {
            ParamData::I64(v) => Ok(Some(*v)),
            ParamData::NoData => Ok(None),
            _ => Err(PatchError::InvalidData),
        }
    }
}

impl<'a, E> TryFromSpecImpl<&'a ParamData<E>> for Option<i64> {
    open spec fn obeys_try_from_spec() -> bool {
        true
    }

    open spec fn try_from_spec(data: &'a ParamData<E>) -> Result<Option<i64>, PatchError> {
        match data {
            ParamData::I64(v) => Ok(Some(*v)),
            ParamData::NoData => Ok(None),
            _ => Err(PatchError::InvalidData),
        }
    }
}

impl<E> From<u64> for ParamData<E> {
    fn from(value: u64) -> (data: Self) {
        ParamData::U64(value)
    }
}

impl<E> FromSpecImpl<u64> for ParamData<E> {
    open spec fn obeys_from_spec() -> bool {
        true
    }

    open spec fn from_spec(value: u64) -> Self {
        ParamData::U64(value)
    }
}

impl<E> From<Option<u64>> for ParamData<E> {
    fn from(value: Option<u64>) -> (data: Self) {
        match value {
            Some(v) => ParamData::U64(v),
            None => ParamData::NoData,
        }
    }
}

impl<E> FromSpecImpl<Option<u64>> for ParamData<E> {
    open spec fn obeys_from_spec() -> bool {
        true
    }

    open spec fn from_spec(value: Option<u64>) -> Self {
        match value {
            Some(v) => ParamData::U64(v),
            None => ParamData::NoData,
        }
    }
}

impl<'a, E> TryFrom<&'a ParamData<E>> for u64 {
    type Error = PatchError;

    fn try_from(data: &'a ParamData<E>) -> (value: Result<u64, PatchError>) {
        match data {
            ParamData::U64(v) => Ok(*v),
            _ => Err(PatchError::InvalidData),
        }
    }
}

impl<'a, E> TryFromSpecImpl<&'a ParamData<E>> for u64 {
    open spec fn obeys_try_from_spec() -> bool {
        true
    }

    open spec fn try_from_spec(data: &'a ParamData<E>) -> Result<u64, PatchError> {
        match data {
            ParamData::U64(v) => Ok(*v),
            _ => Err(PatchError::InvalidData),
        }
    }
}

impl<'a, E> TryFrom<&'a ParamData<E>> for Option<u64> {
    type Error = PatchError;

    fn try_from(data: &'a ParamData<E>) -> (value: Result<Option<u64>, PatchError>) {
        match data {
            ParamData::U64(v) => Ok(Some(*v)),
            ParamData::NoData => Ok(None),
            _ => Err(PatchError::InvalidData),
        }
    }
}

impl<'a, E> TryFromSpecImpl<&'a ParamData<E>> for Option<u64> {
    open spec fn obeys_try_from_spec() -> bool {
        true
    }

    open spec fn try_from_spec(data: &'a ParamData<E>) -> Result<Option<u64>, PatchError> {
        match data {
            ParamData::U64(v) => Ok(Some(*v)),
            ParamData::NoData => Ok(None),
            _ => Err(PatchError::InvalidData),
        }
    }
}

impl<E> From<bool> for ParamData<E> {
    fn from(value: bool) -> (data: Self) {
        ParamData::Bool(value)
    }
}

impl<E> FromSpecImpl<bool> for ParamData<E> {
    open spec fn obeys_from_spec() -> bool {
        true
    }

    open spec fn from_spec(value: bool) -> Self {
        ParamData::Bool(value)
    }
}

impl<E> From<Option<bool>> for ParamData<E> {
    fn from(value: Option<bool>) -> (data: Self) {
        match value {
            Some(v) => ParamData::Bool(v),
            None => ParamData::NoData,
        }
    }
}

impl<E> FromSpecImpl<Option<bool>> for ParamData<E> {
    open spec fn obeys_from_spec() -> bool {
        true
    }

    open spec fn from_spec(value: Option<bool>) -> Self {
        match value {
            Some(v) => ParamData::Bool(v),
            None => ParamData::NoData,
        }
    }
}

impl<'a, E> TryFrom<&'a ParamData<E>> for bool {
    type Error = PatchError;

    fn try_from(data: &'a ParamData<E>) -> (value: Result<bool, PatchError>) {
        match data {
            ParamData::Bool(v) => Ok(*v),
            _ => Err(PatchError::InvalidData),
        }
    }
}

impl<'a, E> TryFromSpecImpl<&'a ParamData<E>> for bool {
    open spec fn obeys_try_from_spec() -> bool {
        true
    }

    open spec fn try_from_spec(data: &'a ParamData<E>) -> Result<bool, PatchError> {
        match data {
            ParamData::Bool(v) => Ok(*v),
            _ => Err(PatchError::InvalidData),
        }
    }
}

impl<'a, E> TryFrom<&'a ParamData<E>> for Option<bool> {
    type Error = PatchError;

    fn try_from(data: &'a ParamData<E>) -> (value: Result<Option<bool>, PatchError>) {
        match data {
            ParamData::Bool(v) => Ok(Some(*v)),
            ParamData::NoData => Ok(None),
            _ => Err(PatchError::InvalidData),
        }
    }
}

impl<'a, E> TryFromSpecImpl<&'a ParamData<E>> for Option<bool> {
    open spec fn obeys_try_from_spec() -> bool {
        true
    }

    open spec fn try_from_spec(data: &'a ParamData<E>) -> Result<Option<bool>, PatchError> {
        match data {
            ParamData::Bool(v) => Ok(Some(*v)),
            ParamData::NoData => Ok(None),
            _ => Err(PatchError::InvalidData),
        }
    }
}

impl<E> From<Vec2> for ParamData<E> {
    fn from(value: Vec2) -> (data: Self) {
        ParamData::Vector2D(value)
    }
}

impl<E> FromSpecImpl<Vec2> for ParamData<E> {
    open spec fn obeys_from_spec() -> bool {
        true
    }

    open spec fn from_spec(value: Vec2) -> Self {
        ParamData::Vector2D(value)
    }
}

impl<E> From<Option<Vec2>> for ParamData<E> {
    fn from(value: Option<Vec2>) -> (data: Self) {
        match value {
            Some(v) => ParamData::Vector2D(v),
            None => ParamData::NoData,
        }
    }
}

impl<E> FromSpecImpl<Option<Vec2>> for ParamData<E> {
    open spec fn obeys_from_spec() -> bool {
        true
    }

    open spec fn from_spec(value: Option<Vec2>) -> Self {
        match value {
            Some(v) => ParamData::Vector2D(v),
            None => ParamData::NoData,
        }
    }
}

impl<'a, E> TryFrom<&'a ParamData<E>> for Vec2 {
    type Error = PatchError;

    fn try_from(data: &'a ParamData<E>) -> (value: Result<Vec2, PatchError>) {
        match data {
            ParamData::Vector2D(v) => Ok(*v),
            _ => Err(PatchError::InvalidData),
        }
    }
}

impl<'a, E> TryFromSpecImpl<&'a ParamData<E>> for Vec2 {
    open spec fn obeys_try_from_spec() -> bool {
        true
    }

    open spec fn try_from_spec(data: &'a ParamData<E>) -> Result<Vec2, PatchError> {
        match data {
            ParamData::Vector2D(v) => Ok(*v),
            _ => Err(PatchError::InvalidData),
        }
    }
}

impl<'a, E> TryFrom<&'a ParamData<E>> for Option<Vec2> {
    type Error = PatchError;

    fn try_from(data: &'a ParamData<E>) -> (value: Result<Option<Vec2>, PatchError>) {
        match data {
            ParamData::Vector2D(v) => Ok(Some(*v)),
            ParamData::NoData => Ok(None),
            _ => Err(PatchError::InvalidData),
        }
    }
}

impl<'a, E> TryFromSpecImpl<&'a ParamData<E>> for Option<Vec2> {
    open spec fn obeys_try_from_spec() -> bool {
        true
    }

    open spec fn try_from_spec(data: &'a ParamData<E>) -> Result<Option<Vec2>, PatchError> {
        match data {
            ParamData::Vector2D(v) => Ok(Some(*v)),
            ParamData::NoData => Ok(None),
            _ => Err(PatchError::InvalidData),
        }
    }
}

impl<E> From<Vec3> for ParamData<E> {
    fn from(value: Vec3) -> (data: Self) {
        ParamData::Vector3D(value)
    }
}

impl<E> FromSpecImpl<Vec3> for ParamData<E> {
    open spec fn obeys_from_spec() -> bool {
        true
    }

    open spec fn from_spec(value: Vec3) -> Self {
        ParamData::Vector3D(value)
    }
}

impl<E> From<Option<Vec3>> for ParamData<E> {
    fn from(value: Option<Vec3>) -> (data: Self) {
        match value {
            Some(v) => ParamData::Vector3D(v),
            None => ParamData::NoData,
        }
    }
}

impl<E> FromSpecImpl<Option<Vec3>> for ParamData<E> {
    open spec fn obeys_from_spec() -> bool {
        true
    }

    open spec fn from_spec(value: Option<Vec3>) -> Self {
        match value {
            Some(v) => ParamData::Vector3D(v),
            None => ParamData::NoData,
        }
    }
}

impl<'a, E> TryFrom<&'a ParamData<E>> for Vec3 {
    type Error = PatchError;

    fn try_from(data: &'a ParamData<E>) -> (value: Result<Vec3, PatchError>) {
        match data {
            ParamData::Vector3D(v) => Ok(*v),
            _ => Err(PatchError::InvalidData),
        }
    }
}

impl<'a, E> TryFromSpecImpl<&'a ParamData<E>> for Vec3 {
    open spec fn obeys_try_from_spec() -> bool {
        true
    }

    open spec fn try_from_spec(data: &'a ParamData<E>) -> Result<Vec3, PatchError> {
        match data {
            ParamData::Vector3D(v) => Ok(*v),
            _ => Err(PatchError::InvalidData),
        }
    }
}

impl<'a, E> TryFrom<&'a ParamData<E>> for Option<Vec3> {
    type Error = PatchError;

    fn try_from(data: &'a ParamData<E>) -> (value: Result<Option<Vec3>, PatchError>) {
        match data {
            ParamData::Vector3D(v) => Ok(Some(*v)),
            ParamData::NoData => Ok(None),
            _ => Err(PatchError::InvalidData),
        }
    }
}

impl<'a, E> TryFromSpecImpl<&'a ParamData<E>> for Option<Vec3> {
    open spec fn obeys_try_from_spec() -> bool {
        true
    }

    open spec fn try_from_spec(data: &'a ParamData<E>) -> Result<Option<Vec3>, PatchError> {
        match data {
            ParamData::Vector3D(v) => Ok(Some(*v)),
            ParamData::NoData => Ok(None),
            _ => Err(PatchError::InvalidData),
        }
    }
}

impl<E> From<EventInstant> for ParamData<E> {
    fn from(value: EventInstant) -> (data: Self) {
        ParamData::EventInstant(value)
    }
}

impl<E> FromSpecImpl<EventInstant> for ParamData<E> {
    open spec fn obeys_from_spec() -> bool {
        true
    }

    open spec fn from_spec(value: EventInstant) -> Self {
        ParamData::EventInstant(value)
    }
}

impl<E> From<Option<EventInstant>> for ParamData<E> {
    fn from(value: Option<EventInstant>) -> (data: Self) {
        match value {
            Some(v) => ParamData::EventInstant(v),
            None => ParamData::NoData,
        }
    }
}

impl<E> FromSpecImpl<Option<EventInstant>> for ParamData<E> {
    open spec fn obeys_from_spec() -> bool {
        true
    }

    open spec fn from_spec(value: Option<EventInstant>) -> Self {
        match value {
            Some(v) => ParamData::EventInstant(v),
            None => ParamData::NoData,
        }
    }
}

impl<'a, E> TryFrom<&'a ParamData<E>> for EventInstant {
    type Error = PatchError;

    fn try_from(data: &'a ParamData<E>) -> (value: Result<EventInstant, PatchError>) {
        match data {
            ParamData::EventInstant(v) => Ok(*v),
            _ => Err(PatchError::InvalidData),
        }
    }
}

impl<'a, E> TryFromSpecImpl<&'a ParamData<E>> for EventInstant {
    open spec fn obeys_try_from_spec() -> bool {
        true
    }

    open spec fn try_from_spec(data: &'a ParamData<E>) -> Result<EventInstant, PatchError> {
        match data {
            ParamData::EventInstant(v) => Ok(*v),
            _ => Err(PatchError::InvalidData),
        }
    }
}

impl<'a, E> TryFrom<&'a ParamData<E>> for Option<EventInstant> {
    type Error = PatchError;

    fn try_from(data: &'a ParamData<E>) -> (value: Result<Option<EventInstant>, PatchError>) {
        match data {
            ParamData::EventInstant(v) => Ok(Some(*v)),
            ParamData::NoData => Ok(None),
            _ => Err(PatchError::InvalidData),
        }
    }
}

impl<'a, E> TryFromSpecImpl<&'a ParamData<E>> for Option<EventInstant> {
    open spec fn obeys_try_from_spec() -> bool {
        true
    }

    open spec fn try_from_spec(data: &'a ParamData<E>) -> Result<Option<EventInstant>, PatchError> {
        match data {
            ParamData::EventInstant(v) => Ok(Some(*v)),
            ParamData::NoData => Ok(None),
            _ => Err(PatchError::InvalidData),
        }
    }
}

impl<E> From<InstantSeconds> for ParamData<E> {
    fn from(value: InstantSeconds) -> (data: Self) {
        ParamData::InstantSeconds(value)
    }
}

impl<E> FromSpecImpl<InstantSeconds> for ParamData<E> {
    open spec fn obeys_from_spec() -> bool {
        true
    }

    open spec fn from_spec(value: InstantSeconds) -> Self {
        ParamData::InstantSeconds(value)
    }
}

impl<E> From<Option<InstantSeconds>> for ParamData<E> {
    fn from(value: Option<InstantSeconds>) -> (data: Self) {
        match value {
            Some(v) => ParamData::InstantSeconds(v),
            None => ParamData::NoData,
        }
    }
}

impl<E> FromSpecImpl<Option<InstantSeconds>> for ParamData<E> {
    open spec fn obeys_from_spec() -> bool {
        true
    }

    open spec fn from_spec(value: Option<InstantSeconds>) -> Self {
        match value {
            Some(v) => ParamData::InstantSeconds(v),
            None => ParamData::NoData,
        }
    }
}

impl<'a, E> TryFrom<&'a ParamData<E>> for InstantSeconds {
    type Error = PatchError;

    fn try_from(data: &'a ParamData<E>) -> (value: Result<InstantSeconds, PatchError>) {
        match data {
            ParamData::InstantSeconds(v) => Ok(*v),
            _ => Err(PatchError::InvalidData),
        }
    }
}

impl<'a, E> TryFromSpecImpl<&'a ParamData<E>> for InstantSeconds {
    open spec fn obeys_try_from_spec() -> bool {
        true
    }

    open spec fn try_from_spec(data: &'a ParamData<E>) -> Result<InstantSeconds, PatchError> {
        match data {
            ParamData::InstantSeconds(v) => Ok(*v),
            _ => Err(PatchError::InvalidData),
        }
    }
}

impl<'a, E> TryFrom<&'a ParamData<E>> for Option<InstantSeconds> {
    type Error = PatchError;

    fn try_from(data: &'a ParamData<E>) -> (value: Result<Option<InstantSeconds>, PatchError>) {
        match data {
            ParamData::InstantSeconds(v) => Ok(Some(*v)),
            ParamData::NoData => Ok(None),
            _ => Err(PatchError::InvalidData),
        }
    }
}

impl<'a, E> TryFromSpecImpl<&'a ParamData<E>> for Option<InstantSeconds> {
    open spec fn obeys_try_from_spec() -> bool {
        true
    }

    open spec fn try_from_spec(data: &'a ParamData<E>) -> Result<Option<InstantSeconds>, PatchError> {
        match data {
            ParamData::InstantSeconds(v) => Ok(Some(*v)),
            ParamData::NoData => Ok(None),
            _ => Err(PatchError::InvalidData),
        }
    }
}

impl<E> From<DurationSeconds> for ParamData<E> {
    fn from(value: DurationSeconds) -> (data: Self) {
        ParamData::DurationSeconds(value)
    }
}

impl<E> FromSpecImpl<DurationSeconds> for ParamData<E> {
    open spec fn obeys_from_spec() -> bool {
        true
    }

    open spec fn from_spec(value: DurationSeconds) -> Self {
        ParamData::DurationSeconds(value)
    }
}

impl<E> From<Option<DurationSeconds>> for ParamData<E> {
    fn from(value: Option<DurationSeconds>) -> (data: Self) {
        match value {
            Some(v) => ParamData::DurationSeconds(v),
            None => ParamData::NoData,
        }
    }
}

impl<E> FromSpecImpl<Option<DurationSeconds>> for ParamData<E> {
    open spec fn obeys_from_spec() -> bool {
        true
    }

    open spec fn from_spec(value: Option<DurationSeconds>) -> Self {
        match value {
            Some(v) => ParamData::DurationSeconds(v),
            None => ParamData::NoData,
        }
    }
}

impl<'a, E> TryFrom<&'a ParamData<E>> for DurationSeconds {
    type Error = PatchError;

    fn try_from(data: &'a ParamData<E>) -> (value: Result<DurationSeconds, PatchError>) {
        match data {
            ParamData::DurationSeconds(v) => Ok(*v),
            _ => Err(PatchError::InvalidData),
        }
    }
}

impl<'a, E> TryFromSpecImpl<&'a ParamData<E>> for DurationSeconds {
    open spec fn obeys_try_from_spec() -> bool {
        true
    }

    open spec fn try_from_spec(data: &'a ParamData<E>) -> Result<DurationSeconds, PatchError> {
        match data {
            ParamData::DurationSeconds(v) => Ok(*v),
            _ => Err(PatchError::InvalidData),
        }
    }
}

impl<'a, E> TryFrom<&'a ParamData<E>> for Option<DurationSeconds> {
    type Error = PatchError;

    fn try_from(data: &'a ParamData<E>) -> (value: Result<Option<DurationSeconds>, PatchError>) {
        match data {
            ParamData::DurationSeconds(v) => Ok(Some(*v)),
            ParamData::NoData => Ok(None),
            _ => Err(PatchError::InvalidData),
        }
    }
}

impl<'a, E> TryFromSpecImpl<&'a ParamData<E>> for Option<DurationSeconds> {
    open spec fn obeys_try_from_spec() -> bool {
        true
    }

    open spec fn try_from_spec(data: &'a ParamData<E>) -> Result<Option<DurationSeconds>, PatchError> {
        match data {
            ParamData::DurationSeconds(v) => Ok(Some(*v)),
            ParamData::NoData => Ok(None),
            _ => Err(PatchError::InvalidData),
        }
    }
}

impl<E> From<InstantSamples> for ParamData<E> {
    fn from(value: InstantSamples) -> (data: Self) {
        ParamData::InstantSamples(value)
    }
}

impl<E> FromSpecImpl<InstantSamples> for ParamData<E> {
    open spec fn obeys_from_spec() -> bool {
        true
    }

    open spec fn from_spec(value: InstantSamples) -> Self {
        ParamData::InstantSamples(value)
    }
}

impl<E> From<Option<InstantSamples>> for ParamData<E> {
    fn from(value: Option<InstantSamples>) -> (data: Self) {
        match value {
            Some(v) => ParamData::InstantSamples(v),
            None => ParamData::NoData,
        }
    }
}

impl<E> FromSpecImpl<Option<InstantSamples>> for ParamData<E> {
    open spec fn obeys_from_spec() -> bool {
        true
    }

    open spec fn from_spec(value: Option<InstantSamples>) -> Self {
        match value {
            Some(v) => ParamData::InstantSamples(v),
            None => ParamData::NoData,
        }
    }
}

impl<'a, E> TryFrom<&'a ParamData<E>> for InstantSamples {
    type Error = PatchError;

    fn try_from(data: &'a ParamData<E>) -> (value: Result<InstantSamples, PatchError>) {
        match data {
            ParamData::InstantSamples(v) => Ok(*v),
            _ => Err(PatchError::InvalidData),
        }
    }
}

impl<'a, E> TryFromSpecImpl<&'a ParamData<E>> for InstantSamples {
    open spec fn obeys_try_from_spec() -> bool {
        true
    }

    open spec fn try_from_spec(data: &'a ParamData<E>) -> Result<InstantSamples, PatchError> {
        match data {
            ParamData::InstantSamples(v) => Ok(*v),
            _ => Err(PatchError::InvalidData),
        }
    }
}

impl<'a, E> TryFrom<&'a ParamData<E>> for Option<InstantSamples> {
    type Error = PatchError;

    fn try_from(data: &'a ParamData<E>) -> (value: Result<Option<InstantSamples>, PatchError>) {
        match data {
            ParamData::InstantSamples(v) => Ok(Some(*v)),
            ParamData::NoData => Ok(None),
            _ => Err(PatchError::InvalidData),
        }
    }
}

impl<'a, E> TryFromSpecImpl<&'a ParamData<E>> for Option<InstantSamples> {
    open spec fn obeys_try_from_spec() -> bool {
        true
    }

    open spec fn try_from_spec(data: &'a ParamData<E>) -> Result<Option<InstantSamples>, PatchError> {
        match data {
            ParamData::InstantSamples(v) => Ok(Some(*v)),
            ParamData::NoData => Ok(None),
            _ => Err(PatchError::InvalidData),
        }
    }
}

impl<E> From<DurationSamples> for ParamData<E> {
    fn from(value: DurationSamples) -> (data: Self) {
        ParamData::DurationSamples(value)
    }
}

impl<E> FromSpecImpl<DurationSamples> for ParamData<E> {
    open spec fn obeys_from_spec() -> bool {
        true
    }

    open spec fn from_spec(value: DurationSamples) -> Self {
        ParamData::DurationSamples(value)
    }
}

impl<E> From<Option<DurationSamples>> for ParamData<E> {
    fn from(value: Option<DurationSamples>) -> (data: Self) {
        match value {
            Some(v) => ParamData::DurationSamples(v),
            None => ParamData::NoData,
        }
    }
}

impl<E> FromSpecImpl<Option<DurationSamples>> for ParamData<E> {
    open spec fn obeys_from_spec() -> bool {
        true
    }

    open spec fn from_spec(value: Option<DurationSamples>) -> Self {
        match value {
            Some(v) => ParamData::DurationSamples(v),
            None => ParamData::NoData,
        }
    }
}

impl<'a, E> TryFrom<&'a ParamData<E>> for DurationSamples {
    type Error = PatchError;

    fn try_from(data: &'a ParamData<E>) -> (value: Result<DurationSamples, PatchError>) {
        match data {
            ParamData::DurationSamples(v) => Ok(*v),
            _ => Err(PatchError::InvalidData),
        }
    }
}

impl<'a, E> TryFromSpecImpl<&'a ParamData<E>> for DurationSamples {
    open spec fn obeys_try_from_spec() -> bool {
        true
    }

    open spec fn try_from_spec(data: &'a ParamData<E>) -> Result<DurationSamples, PatchError> {
        match data {
            ParamData::DurationSamples(v) => Ok(*v),
            _ => Err(PatchError::InvalidData),
        }
    }
}

impl<'a, E> TryFrom<&'a ParamData<E>> for Option<DurationSamples> {
    type Error = PatchError;

    fn try_from(data: &'a ParamData<E>) -> (value: Result<Option<DurationSamples>, PatchError>) {
        match data {
            ParamData::DurationSamples(v) => Ok(Some(*v)),
            ParamData::NoData => Ok(None),
            _ => Err(PatchError::InvalidData),
        }
    }
}

impl<'a, E> TryFromSpecImpl<&'a ParamData<E>> for Option<DurationSamples> {
    open spec fn obeys_try_from_spec() -> bool {
        true
    }

    open spec fn try_from_spec(data: &'a ParamData<E>) -> Result<Option<DurationSamples>, PatchError> {
        match data {
            ParamData::DurationSamples(v) => Ok(Some(*v)),
            ParamData::NoData => Ok(None),
            _ => Err(PatchError::InvalidData),
        }
    }
}

impl<E> From<InstantMusical> for ParamData<E> {
    fn from(value: InstantMusical) -> (data: Self) {
        ParamData::InstantMusical(value)
    }
}

impl<E> FromSpecImpl<InstantMusical> for ParamData<E> {
    open spec fn obeys_from_spec() -> bool {
        true
    }

    open spec fn from_spec(value: InstantMusical) -> Self {
        ParamData::InstantMusical(value)
    }
}

impl<E> From<Option<InstantMusical>> for ParamData<E> {
    fn from(value: Option<InstantMusical>) -> (data: Self) {
        match value {
            Some(v) => ParamData::InstantMusical(v),
            None => ParamData::NoData,
        }
    }
}

impl<E> FromSpecImpl<Option<InstantMusical>> for ParamData<E> {
    open spec fn obeys_from_spec() -> bool {
        true
    }

    open spec fn from_spec(value: Option<InstantMusical>) -> Self {
        match value {
            Some(v) => ParamData::InstantMusical(v),
            None => ParamData::NoData,
        }
    }
}

impl<'a, E> TryFrom<&'a ParamData<E>> for InstantMusical {
    type Error = PatchError;

    fn try_from(data: &'a ParamData<E>) -> (value: Result<InstantMusical, PatchError>) {
        match data {
            ParamData::InstantMusical(v) => Ok(*v),
            _ => Err(PatchError::InvalidData),
        }
    }
}

impl<'a, E> TryFromSpecImpl<&'a ParamData<E>> for InstantMusical {
    open spec fn obeys_try_from_spec() -> bool {
        true
    }

    open spec fn try_from_spec(data: &'a ParamData<E>) -> Result<InstantMusical, PatchError> {
        match data {
            ParamData::InstantMusical(v) => Ok(*v),
            _ => Err(PatchError::InvalidData),
        }
    }
}

impl<'a, E> TryFrom<&'a ParamData<E>> for Option<InstantMusical> {
    type Error = PatchError;

    fn try_from(data: &'a ParamData<E>) -> (value: Result<Option<InstantMusical>, PatchError>) {
        match data {
            ParamData::InstantMusical(v) => Ok(Some(*v)),
            ParamData::NoData => Ok(None),
            _ => Err(PatchError::InvalidData),
        }
    }
}

impl<'a, E> TryFromSpecImpl<&'a ParamData<E>> for Option<InstantMusical> {
    open spec fn obeys_try_from_spec() -> bool {
        true
    }

    open spec fn try_from_spec(data: &'a ParamData<E>) -> Result<Option<InstantMusical>, PatchError> {
        match data {
            ParamData::InstantMusical(v) => Ok(Some(*v)),
            ParamData::NoData => Ok(None),
            _ => Err(PatchError::InvalidData),
        }
    }
}

impl<E> From<DurationMusical> for ParamData<E> {
    fn from(value: DurationMusical) -> (data: Self) {
        ParamData::DurationMusical(value)
    }
}

impl<E> FromSpecImpl<DurationMusical> for ParamData<E> {
    open spec fn obeys_from_spec() -> bool {
        true
    }

    open spec fn from_spec(value: DurationMusical) -> Self {
        ParamData::DurationMusical(value)
    }
}

impl<E> From<Option<DurationMusical>> for ParamData<E> {
    fn from(value: Option<DurationMusical>) -> (data: Self) {
        match value {
            Some(v) => ParamData::DurationMusical(v),
            None => ParamData::NoData,
        }
    }
}

impl<E> FromSpecImpl<Option<DurationMusical>> for ParamData<E> {
    open spec fn obeys_from_spec() -> bool {
        true
    }

    open spec fn from_spec(value: Option<DurationMusical>) -> Self {
        match value {
            Some(v) => ParamData::DurationMusical(v),
            None => ParamData::NoData,
        }
    }
}

impl<'a, E> TryFrom<&'a ParamData<E>> for DurationMusical {
    type Error = PatchError;

    fn try_from(data: &'a ParamData<E>) -> (value: Result<DurationMusical, PatchError>) {
        match data {
            ParamData::DurationMusical(v) => Ok(*v),
            _ => Err(PatchError::InvalidData),
        }
    }
}

impl<'a, E> TryFromSpecImpl<&'a ParamData<E>> for DurationMusical {
    open spec fn obeys_try_from_spec() -> bool {
        true
    }

    open spec fn try_from_spec(data: &'a ParamData<E>) -> Result<DurationMusical, PatchError> {
        match data {
            ParamData::DurationMusical(v) => Ok(*v),
            _ => Err(PatchError::InvalidData),
        }
    }
}

impl<'a, E> TryFrom<&'a ParamData<E>> for Option<DurationMusical> {
    type Error = PatchError;

    fn try_from(data: &'a ParamData<E>) -> (value: Result<Option<DurationMusical>, PatchError>) {
        match data {
            ParamData::DurationMusical(v) => Ok(Some(*v)),
            ParamData::NoData => Ok(None),
            _ => Err(PatchError::InvalidData),
        }
    }
}

impl<'a, E> TryFromSpecImpl<&'a ParamData<E>> for Option<DurationMusical> {
    open spec fn obeys_try_from_spec() -> bool {
        true
    }

    open spec fn try_from_spec(data: &'a ParamData<E>) -> Result<Option<DurationMusical>, PatchError> {
        match data {
            ParamData::DurationMusical(v) => Ok(Some(*v)),
            ParamData::NoData => Ok(None),
            _ => Err(PatchError::InvalidData),
        }
    }
}

/// Data that was made of a value gives that value back, and the same holds where
/// there may be none.
pub proof fn law_param_data_gives_value_back<E>()
    ensures
        forall|v: Volume|
            <Volume as TryFromSpec<&ParamData<E>>>::try_from_spec(
                &(#[trigger] <ParamData<E> as FromSpec<Volume>>::from_spec(v)),
            ) == Ok::<Volume, PatchError>(v),
        forall|v: Option<Volume>|
            <Option<Volume> as TryFromSpec<&ParamData<E>>>::try_from_spec(
                &(#[trigger] <ParamData<E> as FromSpec<Option<Volume>>>::from_spec(v)),
            ) == Ok::<Option<Volume>, PatchError>(v),
        forall|v: F32Bits|
            <F32Bits as TryFromSpec<&ParamData<E>>>::try_from_spec(
                &(#[trigger] <ParamData<E> as FromSpec<F32Bits>>::from_spec(v)),
            ) == Ok::<F32Bits, PatchError>(v),
        forall|v: Option<F32Bits>|
            <Option<F32Bits> as TryFromSpec<&ParamData<E>>>::try_from_spec(
                &(#[trigger] <ParamData<E> as FromSpec<Option<F32Bits>>>::from_spec(v)),
            ) == Ok::<Option<F32Bits>, PatchError>(v),
        forall|v: F64Bits|
            <F64Bits as TryFromSpec<&ParamData<E>>>::try_from_spec(
                &(#[trigger] <ParamData<E> as FromSpec<F64Bits>>::from_spec(v)),
            ) == Ok::<F64Bits, PatchError>(v),
        forall|v: Option<F64Bits>|
            <Option<F64Bits> as TryFromSpec<&ParamData<E>>>::try_from_spec(
                &(#[trigger] <ParamData<E> as FromSpec<Option<F64Bits>>>::from_spec(v)),
            ) == Ok::<Option<F64Bits>, PatchError>(v),
        forall|v: i32|
            <i32 as TryFromSpec<&ParamData<E>>>::try_from_spec(
                &(#[trigger] <ParamData<E> as FromSpec<i32>>::from_spec(v)),
            ) == Ok::<i32, PatchError>(v),
        forall|v: Option<i32>|
            <Option<i32> as TryFromSpec<&ParamData<E>>>::try_from_spec(
                &(#[trigger] <ParamData<E> as FromSpec<Option<i32>>>::from_spec(v)),
            ) == Ok::<Option<i32>, PatchError>(v),
        forall|v: u32|
            <u32 as TryFromSpec<&ParamData<E>>>::try_from_spec(
                &(#[trigger] <ParamData<E> as FromSpec<u32>>::from_spec(v)),
            ) == Ok::<u32, PatchError>(v),
        forall|v: Option<u32>|
            <Option<u32> as TryFromSpec<&ParamData<E>>>::try_from_spec(
                &(#[trigger] <ParamData<E> as FromSpec<Option<u32>>>::from_spec(v)),
            ) == Ok::<Option<u32>, PatchError>(v),
        forall|v: i64|
            <i64 as TryFromSpec<&ParamData<E>>>::try_from_spec(
                &(#[trigger] <ParamData<E> as FromSpec<i64>>::from_spec(v)),
            ) == Ok::<i64, PatchError>(v),
        forall|v: Option<i64>|
            <Option<i64> as TryFromSpec<&ParamData<E>>>::try_from_spec(
                &(#[trigger] <ParamData<E> as FromSpec<Option<i64>>>::from_spec(v)),
            ) == Ok::<Option<i64>, PatchError>(v),
        forall|v: u64|
            <u64 as TryFromSpec<&ParamData<E>>>::try_from_spec(
                &(#[trigger] <ParamData<E> as FromSpec<u64>>::from_spec(v)),
            ) == Ok::<u64, PatchError>(v),
        forall|v: Option<u64>|
            <Option<u64> as TryFromSpec<&ParamData<E>>>::try_from_spec(
                &(#[trigger] <ParamData<E> as FromSpec<Option<u64>>>::from_spec(v)),
            ) == Ok::<Option<u64>, PatchError>(v),
        forall|v: bool|
            <bool as TryFromSpec<&ParamData<E>>>::try_from_spec(
                &(#[trigger] <ParamData<E> as FromSpec<bool>>::from_spec(v)),
            ) == Ok::<bool, PatchError>(v),
        forall|v: Option<bool>|
            <Option<bool> as TryFromSpec<&ParamData<E>>>::try_from_spec(
                &(#[trigger] <ParamData<E> as FromSpec<Option<bool>>>::from_spec(v)),
            ) == Ok::<Option<bool>, PatchError>(v),
        forall|v: Vec2|
            <Vec2 as TryFromSpec<&ParamData<E>>>::try_from_spec(
                &(#[trigger] <ParamData<E> as FromSpec<Vec2>>::from_spec(v)),
            ) == Ok::<Vec2, PatchError>(v),
        forall|v: Option<Vec2>|
            <Option<Vec2> as TryFromSpec<&ParamData<E>>>::try_from_spec(
                &(#[trigger] <ParamData<E> as FromSpec<Option<Vec2>>>::from_spec(v)),
            ) == Ok::<Option<Vec2>, PatchError>(v),
        forall|v: Vec3|
            <Vec3 as TryFromSpec<&ParamData<E>>>::try_from_spec(
                &(#[trigger] <ParamData<E> as FromSpec<Vec3>>::from_spec(v)),
            ) == Ok::<Vec3, PatchError>(v),
        forall|v: Option<Vec3>|
            <Option<Vec3> as TryFromSpec<&ParamData<E>>>::try_from_spec(
                &(#[trigger] <ParamData<E> as FromSpec<Option<Vec3>>>::from_spec(v)),
            ) == Ok::<Option<Vec3>, PatchError>(v),
        forall|v: EventInstant|
            <EventInstant as TryFromSpec<&ParamData<E>>>::try_from_spec(
                &(#[trigger] <ParamData<E> as FromSpec<EventInstant>>::from_spec(v)),
            ) == Ok::<EventInstant, PatchError>(v),
        forall|v: Option<EventInstant>|
            <Option<EventInstant> as TryFromSpec<&ParamData<E>>>::try_from_spec(
                &(#[trigger] <ParamData<E> as FromSpec<Option<EventInstant>>>::from_spec(v)),
            ) == Ok::<Option<EventInstant>, PatchError>(v),
        forall|v: InstantSeconds|
            <InstantSeconds as TryFromSpec<&ParamData<E>>>::try_from_spec(
                &(#[trigger] <ParamData<E> as FromSpec<InstantSeconds>>::from_spec(v)),
            ) == Ok::<InstantSeconds, PatchError>(v),
        forall|v: Option<InstantSeconds>|
            <Option<InstantSeconds> as TryFromSpec<&ParamData<E>>>::try_from_spec(
                &(#[trigger] <ParamData<E> as FromSpec<Option<InstantSeconds>>>::from_spec(v)),
            ) == Ok::<Option<InstantSeconds>, PatchError>(v),
        forall|v: DurationSeconds|
            <DurationSeconds as TryFromSpec<&ParamData<E>>>::try_from_spec(
                &(#[trigger] <ParamData<E> as FromSpec<DurationSeconds>>::from_spec(v)),
            ) == Ok::<DurationSeconds, PatchError>(v),
        forall|v: Option<DurationSeconds>|
            <Option<DurationSeconds> as TryFromSpec<&ParamData<E>>>::try_from_spec(
                &(#[trigger] <ParamData<E> as FromSpec<Option<DurationSeconds>>>::from_spec(v)),
            ) == Ok::<Option<DurationSeconds>, PatchError>(v),
        forall|v: InstantSamples|
            <InstantSamples as TryFromSpec<&ParamData<E>>>::try_from_spec(
                &(#[trigger] <ParamData<E> as FromSpec<InstantSamples>>::from_spec(v)),
            ) == Ok::<InstantSamples, PatchError>(v),
        forall|v: Option<InstantSamples>|
            <Option<InstantSamples> as TryFromSpec<&ParamData<E>>>::try_from_spec(
                &(#[trigger] <ParamData<E> as FromSpec<Option<InstantSamples>>>::from_spec(v)),
            ) == Ok::<Option<InstantSamples>, PatchError>(v),
        forall|v: DurationSamples|
            <DurationSamples as TryFromSpec<&ParamData<E>>>::try_from_spec(
                &(#[trigger] <ParamData<E> as FromSpec<DurationSamples>>::from_spec(v)),
            ) == Ok::<DurationSamples, PatchError>(v),
        forall|v: Option<DurationSamples>|
            <Option<DurationSamples> as TryFromSpec<&ParamData<E>>>::try_from_spec(
                &(#[trigger] <ParamData<E> as FromSpec<Option<DurationSamples>>>::from_spec(v)),
            ) == Ok::<Option<DurationSamples>, PatchError>(v),
        forall|v: InstantMusical|
            <InstantMusical as TryFromSpec<&ParamData<E>>>::try_from_spec(
                &(#[trigger] <ParamData<E> as FromSpec<InstantMusical>>::from_spec(v)),
            ) == Ok::<InstantMusical, PatchError>(v),
        forall|v: Option<InstantMusical>|
            <Option<InstantMusical> as TryFromSpec<&ParamData<E>>>::try_from_spec(
                &(#[trigger] <ParamData<E> as FromSpec<Option<InstantMusical>>>::from_spec(v)),
            ) == Ok::<Option<InstantMusical>, PatchError>(v),
        forall|v: DurationMusical|
            <DurationMusical as TryFromSpec<&ParamData<E>>>::try_from_spec(
                &(#[trigger] <ParamData<E> as FromSpec<DurationMusical>>::from_spec(v)),
            ) == Ok::<DurationMusical, PatchError>(v),
        forall|v: Option<DurationMusical>|
            <Option<DurationMusical> as TryFromSpec<&ParamData<E>>>::try_from_spec(
                &(#[trigger] <ParamData<E> as FromSpec<Option<DurationMusical>>>::from_spec(v)),
            ) == Ok::<Option<DurationMusical>, PatchError>(v),
{
}

} // verus!
