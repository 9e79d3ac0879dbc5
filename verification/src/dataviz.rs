//! The checks that the data-visualization elements make of their input when they are
//! built: each names the element and the rule in its error.
use vstd::prelude::*;
use crate::error::EidosError;

verus! {

/// `e` is a configuration error with the text `msg`.
pub open spec fn is_invalid_config(e: EidosError, msg: Seq<char>) -> bool {
    e matches EidosError::InvalidConfig(m) && m@ == msg
}

/// A data curve needs at least two points.
pub fn check_data_curve(point_count: usize) -> (r: Result<(), EidosError>)
    ensures
        r is Ok <==> point_count >= 2,
        r matches Err(e) ==> is_invalid_config(e, "DataCurve requires at least 2 data points"@),
{
    if point_count < 2 {
        return Err(
            EidosError::InvalidConfig(String::from_str("DataCurve requires at least 2 data points")),
        );
    }
    Ok(())
}

/// A spline fit needs at least two points.
pub fn check_spline_fit(point_count: usize) -> (r: Result<(), EidosError>)
    ensures
        r is Ok <==> point_count >= 2,
        r matches Err(e) ==> is_invalid_config(e, "SplineFit requires at least 2 data points"@),
{
    if point_count < 2 {
        return Err(
            EidosError::InvalidConfig(String::from_str("SplineFit requires at least 2 data points")),
        );
    }
    Ok(())
}

/// A confidence band needs at least two points on its upper edge and two on its lower
/// edge; the upper edge is checked first.
pub fn check_confidence_band(upper_count: usize, lower_count: usize) -> (r: Result<
    (),
    EidosError,
>)
    ensures
        r is Ok <==> upper_count >= 2 && lower_count >= 2,
        r matches Err(e) ==> (if upper_count < 2 {
            is_invalid_config(e, "ConfidenceBand upper_points requires at least 2 points"@)
        } else {
            is_invalid_config(e, "ConfidenceBand lower_points requires at least 2 points"@)
        }),
{
    if upper_count < 2 {
        return Err(
            EidosError::InvalidConfig(
                String::from_str("ConfidenceBand upper_points requires at least 2 points"),
            ),
        );
    }
    if lower_count < 2 {
        return Err(
            EidosError::InvalidConfig(
                String::from_str("ConfidenceBand lower_points requires at least 2 points"),
            ),
        );
    }
    Ok(())
}

} // verus!
