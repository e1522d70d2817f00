use trend_analysis::noise::remove_small_segments;
use trend_analysis::segment::vector_dir_change;

#[test]
fn test_remove_small_segments() {
    let data: [i64; 7] = [1, 2, 3, 4, 0, 5, 5];
    let segments = vector_dir_change(&data);
    assert_eq!(
        segments,
        vec![[1i64, 2, 3, 4].as_slice(), [0i64].as_slice(), [5i64, 5].as_slice()]
    );
    let denoised = remove_small_segments(segments.as_slice(), 1);
    assert_eq!(denoised, vec![[1i64, 2, 3, 4].as_slice(), [5i64, 5].as_slice()]);
}

#[test]
fn test_threshold_zero_keeps_nonempty() {
    let seg_a: [i64; 1] = [7];
    let seg_b: [i64; 0] = [];
    let seg_c: [i64; 2] = [1, 2];
    let segments: Vec<&[i64]> = vec![&seg_a, &seg_b, &seg_c];
    let denoised = remove_small_segments(&segments, 0);
    assert_eq!(denoised, vec![[7i64].as_slice(), [1i64, 2].as_slice()]);
}

#[test]
fn test_large_threshold_drops_all() {
    let data: [i64; 5] = [1, 2, 3, 2, 1];
    let segments = vector_dir_change(&data);
    let denoised = remove_small_segments(&segments, 5);
    assert!(denoised.is_empty());
}
