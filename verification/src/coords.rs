//! Checked conversions between pixel indices and signed coordinates.
//!
//! Neighbors of a pixel are found by adding a signed offset to its position,
//! so positions are carried over into signed numbers and back. Both directions
//! can fail, and both go through the `cast` crate.

use vstd::prelude::*;

verus! {

/// The error type of the `cast` crate. Nothing is read out of it.
#[verifier::external_type_specification]
#[verifier::external_body]
pub struct ExCastError(cast::Error);

/// What can go wrong while the colors of a bitmap are classified.
#[derive(Clone, Copy, Debug, PartialEq, Eq, Structural)]
pub enum ClassifyError {
    /// A pixel that must be tallied lies at a position that does not fit the
    /// signed coordinates used for neighbor offsets.
    CoordinateOverflow,
}

/// The largest pixel index that has a signed coordinate.
pub open spec fn max_coordinate() -> int {
    i32::MAX as int
}

/// Calls `cast::i32` on a `u32`. The crate compares the argument with
/// `i32::MAX`: above it the call fails, otherwise it returns the same number.
#[verifier::external_body]
pub(crate) fn cast_i32(index: u32) -> (r: Result<i32, cast::Error>)
    ensures
        r is Ok <==> index <= i32::MAX,
        r matches Ok(v) ==> v == index,
{
    cast::i32(index)
}

/// Calls `cast::u32` on an `i64`. The crate fails below zero and above
/// `u32::MAX`, and otherwise returns the same number.
#[verifier::external_body]
pub(crate) fn cast_u32(coordinate: i64) -> (r: Result<u32, cast::Error>)
    ensures
        r is Ok <==> 0 <= coordinate <= u32::MAX,
        r matches Ok(v) ==> v == coordinate,
{
    cast::u32(coordinate)
}

/// The signed coordinate of a pixel index, or `CoordinateOverflow` when the
/// index is above `i32::MAX`.
pub fn signed_coordinate(index: u32) -> (r: Result<i32, ClassifyError>)
    ensures
        index <= max_coordinate() ==> r == Ok::<i32, ClassifyError>(index as i32),
        index > max_coordinate() ==> r == Err::<i32, ClassifyError>(ClassifyError::CoordinateOverflow),
{
    match cast_i32(index) {
        Ok(v) => Ok(v),
        Err(_) => Err(ClassifyError::CoordinateOverflow),
    }
}

/// The pixel index of a signed coordinate, or `None` when the coordinate is
/// negative or above `u32::MAX`.
pub fn pixel_index(coordinate: i64) -> (r: Option<u32>)
    ensures
        0 <= coordinate <= u32::MAX ==> r == Some(coordinate as u32),
        !(0 <= coordinate <= u32::MAX) ==> r is None,
{
    match cast_u32(coordinate) {
        Ok(v) => Some(v),
        Err(_) => None,
    }
}

} // verus!
