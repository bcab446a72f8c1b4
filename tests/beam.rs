use spectre::beam::{beam_plan, BeamPlan};
use spectre::errors::BeamError;
use spectre::utils::{approx_eq, ApproxEq};

fn exceeds(major: Option<f64>, minor: Option<f64>) -> bool {
    matches!((major, minor), (Some(a), Some(b)) if b > a)
}

fn plan(
    major: Option<f64>,
    minor: Option<f64>,
    pa: Option<f64>,
    area: Option<f64>,
) -> Result<BeamPlan, BeamError> {
    beam_plan(
        major.is_some(),
        minor.is_some(),
        pa.is_some(),
        area.is_some(),
        exceeds(major, minor),
    )
}

#[test]
fn test_new_exclusive_parameter_conflict() {
    let major = Some(10.0);
    let area = Some(0.001);
    let error = plan(major, None, None, area).unwrap_err();
    assert_eq!(error, BeamError::ExclusiveParameterConflict);

    let minor = Some(5.0);
    let error = plan(None, minor, None, area).unwrap_err();
    assert_eq!(error, BeamError::ExclusiveParameterConflict);

    let pa = Some(30.0);
    let error = plan(None, None, pa, area).unwrap_err();
    assert_eq!(error, BeamError::ExclusiveParameterConflict);
}

#[test]
fn test_new_missing_parameter() {
    let error = plan(None, Some(5.0), None, None).unwrap_err();
    assert_eq!(error, BeamError::MissingParameter);

    let error = plan(None, None, Some(45.0), None).unwrap_err();
    assert_eq!(error, BeamError::MissingParameter);

    let error = plan(None, None, None, None).unwrap_err();
    assert_eq!(error, BeamError::MissingParameter);
}

#[test]
fn test_new_minor_greater_than_major() {
    let major = Some(5.0);
    let minor = Some(10.0);
    let error = plan(major, minor, None, None).unwrap_err();
    assert_eq!(error, BeamError::MinorGreaterThanMajor);
}

#[test]
fn accepted_beam_plans() {
    assert_eq!(plan(None, None, None, Some(0.001)), Ok(BeamPlan::FromArea));
    assert_eq!(
        plan(Some(10.0), None, None, None),
        Ok(BeamPlan::FromAxes { minor_from_major: true, default_pa: true })
    );
    assert_eq!(
        plan(Some(10.0), Some(5.0), Some(45.0), None),
        Ok(BeamPlan::FromAxes { minor_from_major: false, default_pa: false })
    );
    assert_eq!(
        plan(Some(10.0), Some(10.0), None, None),
        Ok(BeamPlan::FromAxes { minor_from_major: false, default_pa: true })
    );
}

#[test]
fn approximate_equality_of_integers() {
    assert!(approx_eq(10u64, 12u64, 3u64));
    assert!(!approx_eq(10u64, 13u64, 3u64));
    assert!(approx_eq(7usize, 7usize, 1usize));
    assert!(!approx_eq(7usize, 7usize, 0usize));
    assert!(approx_eq(u32::MAX, 0u32, u32::MAX) == false);
    assert_eq!(ApproxEq::abs_diff(3u32, 10u32), 7);
    assert_eq!(ApproxEq::abs_diff(u64::MAX, 0u64), u64::MAX);
}
