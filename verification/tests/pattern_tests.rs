use trend_analysis::pattern::MatchError;
use trend_analysis::pattern::TimeSeriesPattern;

#[test]
fn test_envelope_pattern() {
    let samples1: Vec<i64> = vec![
        0, 0, 0, 12, 12, 12, 12, 12, 12, 12, 12, 12, 12, 12, 12, 12, 12, 12, 12, 12, 12, 12, 12,
        12, 12, 12, 12, 12, 12, 12, 12, 12, 12, 12, 12, 12, 12, 12, 12, 12, 12, 12, 7, 0, 0, 0, 0,
    ];
    let samples2: Vec<i64> = vec![
        0, 0, 0, 12, 12, 12, 12, 12, 12, 12, 12, 12, 12, 12, 12, 12, 12, 12, 12, 12, 12, 12, 12,
        12, 12, 12, 12, 12, 12, 12, 12, 12, 12, 12, 12, 12, 12, 12, 12, 12, 12, 12, 7, 0, 0, 0, 0,
    ];
    let samples3: Vec<i64> = vec![
        0, 0, 0, 12, 12, 12, 12, 12, 12, 12, 12, 12, 12, 12, 12, 12, 12, 12, 12, 12, 12, 12, 12,
        12, 12, 12, 12, 12, 12, 12, 12, 12, 12, 12, 12, 12, 12, 12, 12, 12, 12, 12, 7, 7, 7, 0, 0,
        0, 0,
    ];

    let samples4: Vec<i64> = vec![
        0, 0, 0, 11, 12, 12, 12, 12, 12, 12, 12, 12, 12, 12, 12, 12, 12, 12, 12, 12, 12, 12, 12,
        12, 12, 12, 12, 12, 12, 12, 12, 12, 12, 12, 12, 12, 12, 12, 12, 12, 12, 11, 7, 7, 3, 0, 0,
        0, 0,
    ];
    let samples5: Vec<i64> = vec![
        0, 0, 0, 9, 9, 9, 9, 9, 9, 11, 11, 11, 11, 11, 12, 12, 12, 12, 12, 12, 12, 12, 12, 12, 12,
        12, 12, 12, 12, 12, 12, 12, 12, 12, 12, 12, 12, 12, 12, 12, 12, 12, 12, 12, 12, 12, 12, 12,
        12, 12, 12, 11, 7, 7, 3, 0, 0, 0, 0,
    ];

    // failure
    let samples10: Vec<i64> = vec![0, 0, 12, 12, 11, 12, 7, 8, 0];
    let samples11: Vec<i64> = vec![0, 0, 12, 12, 11, 11, 12, 7, 8, 0];

    let pattern = TimeSeriesPattern::new()
        .at_value(0) // Starts at 0
        .monotonically_rising() // Rises to peak
        .at_value(12) // Sustains at 12
        .monotonically_falling() // Falls back down
        .at_value(0); // Ends at 0

    pattern.matches(&samples1).expect("Pattern should match");
    pattern.matches(&samples2).expect("Pattern should match");
    pattern.matches(&samples3).expect("Pattern should match");
    pattern.matches(&samples4).expect("Pattern should match");
    pattern.matches(&samples5).expect("Pattern should match");

    assert!(!pattern.matches(&samples10).is_ok());
    assert!(!pattern.matches(&samples11).is_ok());
}

#[test]
fn test_empty_pattern_precondition() {
    let pattern = TimeSeriesPattern::new();
    assert_eq!(
        pattern.matches(&[0i64, 1, 2]),
        Err(MatchError::PreconditionViolation)
    );
    let no_samples: [i64; 0] = [];
    assert_eq!(
        pattern.matches(&no_samples),
        Err(MatchError::PreconditionViolation)
    );
}

#[test]
fn test_rising_after_rising_rejected() {
    let pattern = TimeSeriesPattern::new()
        .monotonically_rising()
        .monotonically_rising();
    assert_eq!(
        pattern.matches(&[0i64, 1, 2, 3]),
        Err(MatchError::PatternSpecificationError { phase_index: 1 })
    );
}

#[test]
fn test_falling_after_falling_rejected() {
    let pattern = TimeSeriesPattern::new()
        .monotonically_falling()
        .monotonically_falling();
    assert_eq!(
        pattern.matches(&[3i64, 2, 1, 0]),
        Err(MatchError::PatternSpecificationError { phase_index: 1 })
    );
}

#[test]
fn test_leading_plateau_too_short() {
    // A single matching sample is not a plateau: the leading phase needs at
    // least two equal samples.
    let pattern = TimeSeriesPattern::new().at_value(0);
    assert_eq!(
        pattern.matches(&[0i64, 1, 2]),
        Err(MatchError::NoSuchRun { phase_index: 0 })
    );
}

#[test]
fn test_leading_plateau_wrong_value() {
    let pattern = TimeSeriesPattern::new().at_value(0);
    assert_eq!(
        pattern.matches(&[5i64, 5]),
        Err(MatchError::NoSuchRun { phase_index: 0 })
    );
}

#[test]
fn test_rising_run_absent() {
    let pattern = TimeSeriesPattern::new().monotonically_rising();
    assert_eq!(
        pattern.matches(&[3i64, 2, 1]),
        Err(MatchError::NoSuchRun { phase_index: 0 })
    );
}

#[test]
fn test_rising_on_empty_samples() {
    // A pattern longer than the data fails gracefully instead of
    // underflowing.
    let pattern = TimeSeriesPattern::new().monotonically_rising();
    let no_samples: [i64; 0] = [];
    assert_eq!(
        pattern.matches(&no_samples),
        Err(MatchError::NoSuchRun { phase_index: 0 })
    );
}

#[test]
fn test_value_not_found() {
    // The plateau value must occur inside the window the rising phase just
    // validated.
    let pattern = TimeSeriesPattern::new()
        .at_value(0)
        .monotonically_rising()
        .at_value(7);
    assert_eq!(
        pattern.matches(&[0i64, 0, 1, 2, 3]),
        Err(MatchError::ValueNotFound { phase_index: 2, value: 7 })
    );
}

#[test]
fn test_incomplete_consumption() {
    let pattern = TimeSeriesPattern::new().at_value(0);
    assert_eq!(
        pattern.matches(&[0i64, 0, 5]),
        Err(MatchError::IncompleteConsumption { remaining: 1 })
    );
}

#[test]
fn test_plateau_then_fall_consumes_all() {
    let pattern = TimeSeriesPattern::new().at_value(1).monotonically_falling();
    assert_eq!(pattern.matches(&[1i64, 1, 0]), Ok(()));
}
