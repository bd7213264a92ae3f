use archt3::{PerceptionError, Span, Trend, UniversalTransducer};

/// One mark per sample: how the first coordinate moved from the sample
/// before, steps below the noise floor counting as flat.
fn trends_of(raw: &[Vec<f64>]) -> Vec<Trend> {
    let mut trends = Vec::new();
    for i in 0..raw.len() {
        if i == 0 {
            trends.push(Trend::Flat);
            continue;
        }
        let dx = raw[i][0] - raw[i - 1][0];
        if dx.abs() < 1e-6 {
            trends.push(Trend::Flat);
        } else if dx > 0.0 {
            trends.push(Trend::Rising);
        } else {
            trends.push(Trend::Falling);
        }
    }
    trends
}

fn column(values: &[f64]) -> Vec<Vec<f64>> {
    values.iter().map(|v| vec![*v]).collect()
}

fn span(start: usize, end: usize) -> Span {
    Span { start, end }
}

#[test]
fn peak_splits_into_two_segments_that_share_the_pivot() {
    let raw = column(&[1.0, 2.0, 3.0, 2.0, 1.0]);
    let times = [0.0, 1.0, 2.0, 3.0, 4.0];
    let segments = UniversalTransducer::segment(&trends_of(&raw), times.len()).unwrap();
    assert_eq!(segments, vec![span(0, 3), span(2, 5)]);
    assert!(segments.iter().all(|s| s.len() >= 3));
    assert_eq!(segments[0].end - 1, segments[1].start);
}

#[test]
fn single_sample_has_no_segment() {
    let raw = column(&[1.0]);
    let segments = UniversalTransducer::segment(&trends_of(&raw), 1).unwrap();
    assert!(segments.is_empty());
}

#[test]
fn empty_stream_has_no_segment() {
    let segments = UniversalTransducer::segment(&Vec::new(), 0).unwrap();
    assert!(segments.is_empty());
}

#[test]
fn two_samples_are_too_few_for_a_segment() {
    let raw = column(&[1.0, 2.0]);
    let segments = UniversalTransducer::segment(&trends_of(&raw), 2).unwrap();
    assert!(segments.is_empty());
}

#[test]
fn length_mismatch_is_reported() {
    let raw = column(&[1.0, 2.0, 3.0]);
    assert_eq!(
        UniversalTransducer::segment(&trends_of(&raw), 2),
        Err(PerceptionError::LengthMismatch)
    );
    assert_eq!(
        UniversalTransducer::segment(&trends_of(&raw), 4),
        Err(PerceptionError::LengthMismatch)
    );
    assert_eq!(
        UniversalTransducer::segment(&Vec::new(), 1),
        Err(PerceptionError::LengthMismatch)
    );
}

#[test]
fn monotone_stream_is_one_segment() {
    let raw = column(&[0.0, 1.0, 2.0, 3.0, 4.0, 5.0]);
    let segments = UniversalTransducer::segment(&trends_of(&raw), 6).unwrap();
    assert_eq!(segments, vec![span(0, 6)]);
}

#[test]
fn constant_stream_is_one_segment() {
    let raw = column(&[2.0, 2.0, 2.0, 2.0]);
    let segments = UniversalTransducer::segment(&trends_of(&raw), 4).unwrap();
    assert_eq!(segments, vec![span(0, 4)]);
}

#[test]
fn noise_below_the_floor_neither_sets_nor_breaks_a_heading() {
    // The dips of 1e-7 are flat steps: the stream keeps rising throughout.
    let raw = column(&[0.0, 1.0, 1.0 - 1e-7, 2.0, 2.0 - 1e-7, 3.0]);
    let segments = UniversalTransducer::segment(&trends_of(&raw), 6).unwrap();
    assert_eq!(segments, vec![span(0, 6)]);
}

#[test]
fn plateau_stays_with_the_run_before_the_reversal() {
    let raw = column(&[1.0, 2.0, 3.0, 3.0, 3.0, 2.0, 1.0]);
    let segments = UniversalTransducer::segment(&trends_of(&raw), 7).unwrap();
    assert_eq!(segments, vec![span(0, 5), span(4, 7)]);
}

#[test]
fn short_runs_are_dropped_as_noise() {
    // up, down, up, up, up: the runs [0,2) and [1,3) have two samples each.
    let raw = column(&[0.0, 1.0, 0.0, 1.0, 2.0, 3.0]);
    let segments = UniversalTransducer::segment(&trends_of(&raw), 6).unwrap();
    assert_eq!(segments, vec![span(2, 6)]);
}

#[test]
fn zigzag_of_single_steps_has_no_segment() {
    let raw = column(&[0.0, 1.0, 0.0, 1.0, 0.0, 1.0]);
    let segments = UniversalTransducer::segment(&trends_of(&raw), 6).unwrap();
    assert!(segments.is_empty());
}

#[test]
fn trailing_run_of_two_samples_is_dropped() {
    let raw = column(&[0.0, 1.0, 2.0, 3.0, 2.0]);
    let segments = UniversalTransducer::segment(&trends_of(&raw), 5).unwrap();
    assert_eq!(segments, vec![span(0, 4)]);
}

#[test]
fn three_reversals_give_four_segments() {
    let raw = column(&[0.0, 1.0, 2.0, 1.0, 0.0, 1.0, 2.0, 1.0, 0.0]);
    let segments = UniversalTransducer::segment(&trends_of(&raw), 9).unwrap();
    assert_eq!(segments, vec![span(0, 3), span(2, 5), span(4, 7), span(6, 9)]);
}

#[test]
fn only_the_first_coordinate_decides() {
    let raw = vec![
        vec![0.0, 5.0],
        vec![1.0, 4.0],
        vec![2.0, 6.0],
        vec![3.0, 1.0],
    ];
    let segments = UniversalTransducer::segment(&trends_of(&raw), 4).unwrap();
    assert_eq!(segments, vec![span(0, 4)]);
}

#[test]
fn mark_of_the_first_sample_is_not_read() {
    let rest = [Trend::Rising, Trend::Rising, Trend::Falling, Trend::Falling];
    let mut expected = None;
    for first in [Trend::Flat, Trend::Rising, Trend::Falling] {
        let mut trends = vec![first];
        trends.extend_from_slice(&rest);
        let segments = UniversalTransducer::segment(&trends, 5).unwrap();
        assert_eq!(segments, vec![span(0, 3), span(2, 5)]);
        match &expected {
            None => expected = Some(segments),
            Some(e) => assert_eq!(e, &segments),
        }
    }
}

#[test]
fn every_segment_goes_one_way() {
    let trends = vec![
        Trend::Flat,
        Trend::Falling,
        Trend::Flat,
        Trend::Falling,
        Trend::Rising,
        Trend::Rising,
        Trend::Flat,
        Trend::Falling,
        Trend::Falling,
        Trend::Falling,
    ];
    let segments = UniversalTransducer::segment(&trends, trends.len()).unwrap();
    assert_eq!(segments, vec![span(0, 4), span(3, 7), span(6, 10)]);
    for s in &segments {
        let mut heading = Trend::Flat;
        for i in s.start + 1..s.end {
            if trends[i] != Trend::Flat {
                if heading != Trend::Flat {
                    assert_eq!(heading, trends[i]);
                }
                heading = trends[i];
            }
        }
    }
}

#[test]
fn span_length_counts_samples() {
    assert_eq!(span(2, 5).len(), 3);
    assert_eq!(span(4, 4).len(), 0);
    assert_eq!(span(5, 2).len(), 0);
}

/// The same segmentation computed on the samples themselves, by the running
/// sign of the first coordinate's steps.
fn segments_by_running_sign(raw: &[Vec<f64>]) -> Vec<Span> {
    let mut spans = Vec::new();
    if raw.len() < 2 {
        return spans;
    }
    let mut start_idx = 0;
    let mut current_sign = 0.0;
    for i in 1..raw.len() {
        let dx = raw[i][0] - raw[i - 1][0];
        if dx.abs() < 1e-6 {
            continue;
        }
        let sign = dx.signum();
        if current_sign == 0.0 {
            current_sign = sign;
        }
        if sign != current_sign {
            if i - start_idx >= 3 {
                spans.push(span(start_idx, i));
            }
            start_idx = i - 1;
            current_sign = sign;
        }
    }
    if start_idx < raw.len() - 1 && raw.len() - start_idx >= 3 {
        spans.push(span(start_idx, raw.len()));
    }
    spans
}

#[test]
fn marks_and_running_sign_give_the_same_segments() {
    let mut state: u64 = 0x2545_f491_4f6c_dd1d;
    let mut next = move || {
        state = state.wrapping_mul(6364136223846793005).wrapping_add(1442695040888963407);
        (state >> 33) as u32
    };
    for round in 0..400 {
        let len = (next() % 40) as usize;
        let mut value = 0.0f64;
        let mut raw = Vec::new();
        for _ in 0..len {
            // Long climbs, short dips and steps below the noise floor.
            let step = match next() % 7 {
                0 => 0.0,
                1 => 5e-7,
                2 => -5e-7,
                3 | 4 => 0.25 * (1 + next() % 4) as f64,
                _ => -0.25 * (1 + next() % 4) as f64,
            };
            let drift: f64 = if round % 2 == 0 { 0.3 } else { -0.1 };
            value += if next() % 3 == 0 { step } else { step.abs() * drift.signum() };
            raw.push(vec![value, next() as f64]);
        }
        let segments = UniversalTransducer::segment(&trends_of(&raw), raw.len()).unwrap();
        assert_eq!(segments, segments_by_running_sign(&raw));
        for pair in segments.windows(2) {
            assert!(pair[0].start < pair[1].start);
            assert!(pair[0].end <= pair[1].start + 1);
        }
        for s in &segments {
            assert!(s.start + 3 <= s.end && s.end <= raw.len());
        }
    }
}
