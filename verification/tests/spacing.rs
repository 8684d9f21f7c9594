use text_nodes::spacing::{Double, Justification, SpacingRange};

fn double(value: f64) -> Double {
    Double { bits: value.to_bits() }
}

fn value(double: Double) -> f64 {
    f64::from_bits(double.bits)
}

fn range(minimum: f64, desired: f64, maximum: f64) -> SpacingRange {
    SpacingRange::new(double(minimum), double(desired), double(maximum))
}

fn values(range: SpacingRange) -> (f64, f64, f64) {
    (value(range.minimum), value(range.desired), value(range.maximum))
}

fn validated(minimum: f64, desired: f64, maximum: f64) -> (f64, f64, f64) {
    values(range(minimum, desired, maximum).validated(double(-100.), double(500.)))
}

#[test]
fn doubles_compare_as_numbers_do() {
    let numbers = [
        f64::NEG_INFINITY,
        f64::MIN,
        -100.,
        -1.,
        -f64::MIN_POSITIVE,
        -5e-324,
        -0.,
        0.,
        5e-324,
        0.1,
        1.,
        500.,
        f64::MAX,
        f64::INFINITY,
        f64::NAN,
        -f64::NAN,
    ];
    for a in numbers {
        for b in numbers {
            assert_eq!(double(a).is_less_than(double(b)), a < b, "{a} {b}");
            assert_eq!(double(a) == double(b), a == b, "{a} {b}");
        }
    }
}

#[test]
fn ranges_are_clamped_to_their_domain() {
    assert_eq!(validated(-200., 0., 900.), (-100., 0., 500.));
    assert_eq!(validated(0., 900., 900.), (0., 500., 500.));
    assert_eq!(validated(-900., -900., 900.), (-100., -100., 500.));
}

#[test]
fn ranges_enclose_their_desired_value() {
    assert_eq!(validated(50., 100., 60.), (50., 100., 100.));
    assert_eq!(validated(4., 2., 3.), (2., 2., 3.));
}

#[test]
fn values_that_are_not_finite_give_way() {
    assert_eq!(validated(f64::NAN, 10., f64::INFINITY), (10., 10., 10.));
    assert_eq!(validated(f64::NEG_INFINITY, f64::NAN, 20.), (-100., -100., 20.));
}

#[test]
fn valid_ranges_are_kept_to_the_bit() {
    let kept = range(-0., -0., 0.).validated(double(0.), double(1000.));
    assert_eq!(kept.minimum.bits, (-0f64).to_bits());
    assert_eq!(kept.desired.bits, (-0f64).to_bits());
    assert_eq!(kept.maximum.bits, 0);
    assert_eq!(validated(80., 100., 133.), (80., 100., 133.));
}

#[test]
fn default_justification_fits_words_moderately() {
    let default = Justification::default();
    assert_eq!(values(default.word_spacing), (80., 100., 133.));
    assert_eq!(values(default.letter_spacing), (0., 0., 0.));
    assert_eq!(values(default.glyph_scaling), (100., 100., 100.));
    assert_eq!(default.validated(), default);
}

#[test]
fn every_range_of_a_justification_is_validated_in_its_own_domain() {
    let wild = Justification {
        word_spacing: range(-1., 5000., 2000.),
        letter_spacing: range(-500., -200., 1000.),
        glyph_scaling: range(10., f64::NAN, 500.),
    };
    let tame = wild.validated();
    assert_eq!(values(tame.word_spacing), (0., 1000., 1000.));
    assert_eq!(values(tame.letter_spacing), (-100., -100., 500.));
    assert_eq!(values(tame.glyph_scaling), (50., 50., 200.));
    assert_eq!(tame.validated(), tame);
}

#[test]
fn a_maximum_under_the_desired_value_does_not_drag_the_range_off_it() {
    let nonsense = Justification {
        word_spacing: range(50., 100., 60.),
        letter_spacing: range(4., 2., 3.),
        glyph_scaling: range(50., 100., 60.),
    };
    let tame = nonsense.validated();
    assert_eq!(values(tame.word_spacing), (50., 100., 100.));
    assert_eq!(values(tame.letter_spacing), (2., 2., 3.));
    assert_eq!(values(tame.glyph_scaling), (50., 100., 100.));
}

#[test]
fn ranges_and_justifications_are_equal_as_their_numbers_are() {
    assert!(range(-0., 1., 2.) == range(0., 1., 2.));
    assert!(range(0., 1., 2.) != range(0., 1., 3.));
    assert!(range(0., 1., f64::NAN) != range(0., 1., f64::NAN));
    let default = Justification::default();
    assert!(default == Justification { letter_spacing: range(-0., 0., -0.), ..default });
    assert!(default != Justification { letter_spacing: range(0., 0., 1.), ..default });
}
