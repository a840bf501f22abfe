use heliosav_layers::score::{add_up, Score};

const ONE: f64 = (1u64 << 60) as f64;

fn value(score: Score) -> f64 {
    score.units as f64 / ONE
}

fn of(value: f32) -> Score {
    Score {
        units: (value as f64 * ONE) as u128,
    }
}

/// Numbers between zero and one that exercise rounding.
fn samples() -> Vec<f32> {
    let mut state = 0x1234_5678_9abc_def1u64;
    let mut list = vec![0.0, 1.0, 0.1, 0.15, 0.3, 0.7, 0.85, 1.0 / 3.0];
    for _ in 0..200 {
        state ^= state << 13;
        state ^= state >> 7;
        state ^= state << 17;
        list.push((state >> 40) as f32 / (1u64 << 24) as f32);
    }
    list
}

#[test]
fn hundredths_are_the_nearest_singles() {
    for h in 0..=200u64 {
        assert_eq!(value(Score::hundredths(h)), (h as f32 / 100.0) as f64);
    }
    assert_eq!(value(Score::hundredths(15)), 0.15f32 as f64);
}

#[test]
fn sums_products_and_quotients_round_like_singles() {
    let list = samples();
    for pair in list.windows(2) {
        let (a, b) = (pair[0], pair[1]);
        assert_eq!(value(of(a).plus(of(b))), (a + b) as f64);
        assert_eq!(value(of(a).times(of(b))), (a * b) as f64);
        assert_eq!(value(of(a).min(of(b))), a.min(b) as f64);
        assert_eq!(value(of(a).max(of(b))), a.max(b) as f64);
        if a >= b {
            assert_eq!(value(of(a).minus(of(b))), (a - b) as f64);
        }
        if b > 1e-6 {
            assert_eq!(value(of(a).divided(of(b))), (a / b) as f64, "{a} / {b}");
        }
    }
}

#[test]
fn a_sum_is_formed_from_the_left() {
    let list = samples();
    let scores: Vec<Score> = list.iter().map(|v| of(*v)).collect();
    let expected: f32 = list.iter().sum();
    assert_eq!(value(add_up(&scores)), expected as f64);
}

#[test]
fn counts_are_rounded_before_they_are_divided() {
    for (n, d) in [(1u64, 3u64), (16_777_217, 16_777_219), (0, 1), (123_456_789, 987_654_321)] {
        assert_eq!(value(Score::counts(n, d)), (n as f32 / d as f32) as f64);
    }
    assert_eq!(value(Score::mebibytes(1_572_864)), 1.5);
    assert_eq!(
        value(Score::mebibytes(123_456_789)),
        (123_456_789u64 as f32 / 1_048_576.0) as f64
    );
}
