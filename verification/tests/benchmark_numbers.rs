use cntryl_tools::summarize_benchmarks::config::{
    BILLION, FIFTH, ONE, TEN, TENTH, THREE_BILLION, TRILLION, TWENTIETH, TWENTY_FIVE,
};
use cntryl_tools::summarize_benchmarks::model::MetricDirection;
use cntryl_tools::summarize_benchmarks::numbers::{Number, HUNDRED, ZERO};
use cntryl_tools::summarize_benchmarks::sweep::{KIBI, MEBI, MILLION, THOUSAND, UNIT};

const SAMPLES: [f64; 11] = [
    0.0,
    -0.0,
    1.0,
    -1.0,
    0.5,
    -2.5,
    f64::MIN_POSITIVE,
    f64::MAX,
    f64::INFINITY,
    f64::NEG_INFINITY,
    f64::NAN,
];

fn number(value: f64) -> Number {
    Number {
        bits: value.to_bits(),
    }
}

#[test]
fn should_compare_numbers_as_doubles() {
    for a in SAMPLES {
        for b in SAMPLES {
            assert_eq!(number(a).is_below(&number(b)), a < b, "{a} < {b}");
            assert_eq!(number(a).is_at_most(&number(b)), a <= b, "{a} <= {b}");
        }
        assert_eq!(number(a).is_finite(), a.is_finite());
        assert_eq!(number(a).is_positive(), a > 0.0);
        assert_eq!(number(a).is_negative(), a < 0.0);
        assert_eq!(number(a).is_zero(), a == 0.0);
        assert_eq!(number(a).negate().bits, (-a).to_bits());
        assert_eq!(number(a).negate().negate(), number(a));
    }
}

#[test]
fn should_turn_changes_by_direction() {
    assert_eq!(
        MetricDirection::LowerIsBetter.directional_delta(number(-20.0)),
        number(20.0)
    );
    assert_eq!(
        MetricDirection::HigherIsBetter.directional_delta(number(-20.0)),
        number(-20.0)
    );
}

#[test]
fn should_name_the_bits_of_constants() {
    for (bits, value) in [
        (ZERO, 0.0),
        (ONE, 1.0),
        (UNIT, 1.0),
        (TEN, 10.0),
        (TWENTY_FIVE, 25.0),
        (HUNDRED, 100.0),
        (THOUSAND, 1000.0),
        (KIBI, 1024.0),
        (MILLION, 1e6),
        (MEBI, 1024.0 * 1024.0),
        (BILLION, 1e9),
        (THREE_BILLION, 3e9),
        (TRILLION, 1e12),
        (TWENTIETH, 0.05),
        (TENTH, 0.10),
        (FIFTH, 0.20),
    ] {
        assert_eq!(f64::from_bits(bits), value);
    }
}
