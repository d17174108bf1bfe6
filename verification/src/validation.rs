use vstd::prelude::*;
use crate::error::GeometryError;
use crate::point::Point;

verus! {

/// Whether `layer` is one that a shape may lie on.
pub open spec fn layer_valid(layer: i32) -> bool {
    0 <= layer <= 255
}

/// Accepts a layer from 0 to 255.
pub fn check_layer_valid(layer: i32) -> (result: Result<(), GeometryError>)
    ensures
        result == if layer_valid(layer) {
            Ok::<(), GeometryError>(())
        } else {
            Err::<(), GeometryError>(GeometryError::LayerOutOfRange)
        },
{
    if layer < 0 || layer > 255 {
        return Err(GeometryError::LayerOutOfRange);
    }
    Ok(())
}

/// Accepts every data type: the format puts no bound on it.
pub fn check_data_type_valid(data_type: i32) -> (result: Result<(), GeometryError>)
    ensures
        result == Ok::<(), GeometryError>(()),
{
    Ok(())
}

/// Accepts a list of points that is not empty.
pub fn check_points_vec_not_empty(points: &Vec<Point>) -> (result: Result<(), GeometryError>)
    ensures
        result == if points@.len() > 0 {
            Ok::<(), GeometryError>(())
        } else {
            Err::<(), GeometryError>(GeometryError::EmptyPoints)
        },
{
    if points.len() == 0 {
        Err(GeometryError::EmptyPoints)
    } else {
        Ok(())
    }
}

/// Accepts a list of at least two points. An empty list is refused as empty, a single
/// point as too few.
pub fn check_points_vec_has_at_least_two_points(points: &Vec<Point>) -> (result: Result<
    (),
    GeometryError,
>)
    ensures
        result == if points@.len() >= 2 {
            Ok::<(), GeometryError>(())
        } else if points@.len() == 0 {
            Err::<(), GeometryError>(GeometryError::EmptyPoints)
        } else {
            Err::<(), GeometryError>(GeometryError::TooFewPoints)
        },
{
    if points.len() == 0 {
        return Err(GeometryError::EmptyPoints);
    }
    if points.len() < 2 {
        return Err(GeometryError::TooFewPoints);
    }
    Ok(())
}

} // verus!
