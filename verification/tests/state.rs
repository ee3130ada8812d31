use fusion::fusion::state::{Fraction, FusionStage, ShareStates};

fn value(f: Fraction) -> f64 {
    f.numerator as f64 / f.denominator as f64
}

#[test]
fn four_conversions_then_two_combinations() {
    let mut states = ShareStates::new(4, 2);
    assert_eq!(states.progress().1, FusionStage::Created);
    assert_eq!(value(states.progress().0), 0.0);
    let mut fractions = vec![];
    let mut stages = vec![];
    let mut notified = vec![];
    for _ in 0..4 {
        notified.push(states.convert_pulse());
        let (fraction, stage) = states.progress();
        fractions.push(value(fraction));
        stages.push(stage);
    }
    assert_eq!(fractions, vec![0.1875, 0.375, 0.5625, 0.75]);
    assert_eq!(
        stages,
        vec![
            FusionStage::Converting,
            FusionStage::Converting,
            FusionStage::Converting,
            FusionStage::Combining
        ]
    );
    assert_eq!(notified, vec![false, false, false, true]);
    states.combine_pulse();
    let (fraction, stage) = states.progress();
    assert_eq!(value(fraction), 0.875);
    assert_eq!(stage, FusionStage::Combining);
    states.combine_pulse();
    let (fraction, stage) = states.progress();
    assert_eq!(value(fraction), 1.0);
    assert_eq!(stage, FusionStage::Completed);
}

#[test]
fn nothing_to_do_is_complete() {
    let states = ShareStates::new(0, 0);
    let (fraction, stage) = states.progress();
    assert_eq!(fraction, Fraction { numerator: 1, denominator: 1 });
    assert_eq!(stage, FusionStage::Completed);
}

#[test]
fn without_conversions_progress_starts_at_three_quarters() {
    let mut states = ShareStates::new(0, 4);
    let (fraction, stage) = states.progress();
    assert_eq!(fraction, Fraction { numerator: 12, denominator: 16 });
    assert_eq!(stage, FusionStage::Created);
    states.combine_pulse();
    let (fraction, stage) = states.progress();
    assert_eq!(fraction, Fraction { numerator: 13, denominator: 16 });
    assert_eq!(stage, FusionStage::Combining);
}

#[test]
fn without_combinations_the_last_quarter_is_not_defined() {
    let mut states = ShareStates::new(1, 0);
    assert_eq!(states.progress().0, Fraction { numerator: 0, denominator: 4 });
    assert!(states.convert_pulse());
    let (fraction, stage) = states.progress();
    assert_eq!(fraction.denominator, 0);
    assert_eq!(stage, FusionStage::Completed);
}

#[test]
fn progress_never_goes_down() {
    let mut states = ShareStates::new(3, 3);
    let mut last = states.progress().0;
    // Combine pulses that come early are counted, and show once conversion is complete.
    for convert in [true, false, true, false, true, false, true, false] {
        if convert {
            states.convert_pulse();
        } else {
            states.combine_pulse();
        }
        let now = states.progress().0;
        assert!(last.numerator * now.denominator <= now.numerator * last.denominator);
        last = now;
    }
}
