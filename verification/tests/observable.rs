//! Market paths.

use kontract::observable::Path;
use kontract::KontractError;

fn bits(v: &[f64]) -> Vec<u64> {
    v.iter().map(|x| x.to_bits()).collect()
}

fn sample_path() -> Path {
    Path::new(bits(&[0.0, 0.5, 1.0]))
        .with_asset("AAPL", bits(&[100.0, 110.0, 150.0]))
        .and_then(|p| p.with_asset("MSFT", bits(&[200.0, 190.0, 210.0])))
        .expect("consistent path")
}

#[test]
fn inconsistent_path_is_rejected() {
    let res = Path::new(bits(&[0.0, 1.0])).with_asset("AAPL", bits(&[100.0]));
    assert!(matches!(res, Err(KontractError::InconsistentPath(_))));
    if let Err(KontractError::InconsistentPath(msg)) = res {
        assert_eq!(msg, "1 valeurs pour 2 dates");
    }
}

#[test]
fn path_reads_back_spots() {
    let p = sample_path();
    assert_eq!(p.len(), 3);
    assert!(!p.is_empty());
    assert_eq!(p.times(), &bits(&[0.0, 0.5, 1.0])[..]);
    assert_eq!(p.spot("AAPL", 0).unwrap(), 100.0f64.to_bits());
    assert_eq!(p.spot("AAPL", 2).unwrap(), 150.0f64.to_bits());
    assert_eq!(p.spot("MSFT", 1).unwrap(), 190.0f64.to_bits());
    assert_eq!(p.spot_series("MSFT").unwrap(), &bits(&[200.0, 190.0, 210.0])[..]);
}

#[test]
fn path_unknown_asset_errors() {
    let p = sample_path();
    let err = p.spot("TSLA", 0).unwrap_err();
    assert!(matches!(err, KontractError::UnknownAsset(name) if name == "TSLA"));
    let err = p.spot_series("TSLA").unwrap_err();
    assert!(matches!(err, KontractError::UnknownAsset(name) if name == "TSLA"));
    // The underlying is checked before the step.
    let err = p.spot("TSLA", 99).unwrap_err();
    assert!(matches!(err, KontractError::UnknownAsset(_)));
}

#[test]
fn path_step_out_of_range_errors() {
    let p = sample_path();
    let err = p.spot("AAPL", 99).unwrap_err();
    assert!(matches!(err, KontractError::StepOutOfRange(99)));
    let err = p.spot("AAPL", 3).unwrap_err();
    assert!(matches!(err, KontractError::StepOutOfRange(3)));
}

#[test]
fn path_with_asset_replaces_a_series() {
    let p = sample_path()
        .with_asset("AAPL", bits(&[1.0, 2.0, 3.0]))
        .unwrap();
    assert_eq!(p.spot_series("AAPL").unwrap(), &bits(&[1.0, 2.0, 3.0])[..]);
    assert_eq!(p.spot_series("MSFT").unwrap(), &bits(&[200.0, 190.0, 210.0])[..]);
}

#[test]
fn empty_path_is_empty() {
    let p = Path::new(vec![]);
    assert!(p.is_empty());
    assert_eq!(p.len(), 0);
    let p = p.with_asset("X", vec![]).unwrap();
    assert!(p.spot_series("X").unwrap().is_empty());
    assert!(matches!(p.spot("X", 0), Err(KontractError::StepOutOfRange(0))));
}

#[test]
fn paths_compare_grid_and_series_as_binary64_numbers() {
    let p = |t: Vec<f64>, x: Vec<f64>, y: Vec<f64>| {
        Path::new(t.iter().map(|v| v.to_bits()).collect())
            .with_asset("X", x.iter().map(|v| v.to_bits()).collect())
            .unwrap()
            .with_asset("Y", y.iter().map(|v| v.to_bits()).collect())
            .unwrap()
    };
    let a = p(vec![0.0, 1.0], vec![1.0, 2.0], vec![3.0, 4.0]);
    assert_eq!(a, p(vec![-0.0, 1.0], vec![1.0, 2.0], vec![3.0, 4.0]));
    assert_eq!(a, a.clone());
    assert_ne!(a, p(vec![0.0, 1.0], vec![1.0, 2.5], vec![3.0, 4.0]));
    assert_ne!(a, p(vec![0.0, 2.0], vec![1.0, 2.0], vec![3.0, 4.0]));
    let only_x = Path::new(vec![0.0f64.to_bits(), 1.0f64.to_bits()])
        .with_asset("X", vec![1.0f64.to_bits(), 2.0f64.to_bits()])
        .unwrap();
    assert_ne!(a, only_x);
    assert_ne!(only_x, a);
    let nan = p(vec![0.0, 1.0], vec![f64::NAN, 2.0], vec![3.0, 4.0]);
    assert_ne!(nan, nan.clone());
}
