//! The ranges that justified lines are fitted within.

use vstd::prelude::*;

verus! {

/// A number of double precision, by its IEEE 754 encoding.
#[derive(Debug, Clone, Copy)]
pub struct Double {
    pub bits: u64,
}

/// The bit that an encoding sets for a negative number, as a number of its own.
pub const SIGN: u64 = 0x8000_0000_0000_0000;

/// The encoding of infinity, above those of all finite numbers that are not negative.
pub const INFINITY: u64 = 0x7ff0_0000_0000_0000;

impl Double {
    /// Whether the number is neither infinite nor undefined.
    pub open spec fn finite(self) -> bool {
        self.bits % SIGN < INFINITY
    }

    /// What orders numbers, infinite ones too: one is less than another where its rank is. Zero has one
    /// rank, whichever its sign.
    pub open spec fn rank(self) -> int {
        if self.bits >= SIGN {
            SIGN - self.bits
        } else {
            self.bits as int
        }
    }

    /// Whether the number is undefined.
    pub open spec fn undefined(self) -> bool {
        self.bits % SIGN > INFINITY
    }

    /// Whether the number is less than another. One that is undefined is neither less nor greater.
    pub open spec fn less(self, other: Double) -> bool {
        !self.undefined() && !other.undefined() && self.rank() < other.rank()
    }

    /// Whether the number equals another, as numbers do: zero equals zero, whichever their signs, and one
    /// that is undefined equals none.
    pub open spec fn equal(self, other: Double) -> bool {
        !self.undefined() && !other.undefined() && self.rank() == other.rank()
    }

    /// The number, or the fallback where it is not finite.
    pub open spec fn finite_or_else(self, fallback: Double) -> Double {
        if self.finite() {
            self
        } else {
            fallback
        }
    }

    /// The number, or the bound that it lies beyond.
    pub open spec fn clamped(self, lowest: Double, highest: Double) -> Double {
        if self.rank() < lowest.rank() {
            lowest
        } else if self.rank() > highest.rank() {
            highest
        } else {
            self
        }
    }

    /// The number, or the fallback where it is not finite.
    fn finite_or(self, fallback: Double) -> (r: Double)
        ensures
            r == self.finite_or_else(fallback),
    {
        if self.bits % SIGN < INFINITY {
            self
        } else {
            fallback
        }
    }

    /// Whether the number ranks below another.
    fn ranks_below(self, other: Double) -> (r: bool)
        ensures
            r == (self.rank() < other.rank()),
    {
        if self.bits >= SIGN {
            if other.bits >= SIGN {
                self.bits > other.bits
            } else {
                self.bits > SIGN || other.bits > 0
            }
        } else {
            other.bits < SIGN && self.bits < other.bits
        }
    }

    /// Whether the number is less than another.
    pub fn is_less_than(self, other: Double) -> (r: bool)
        ensures
            r == self.less(other),
    {
        self.bits % SIGN <= INFINITY && other.bits % SIGN <= INFINITY && self.ranks_below(other)
    }

    /// The number, or the bound that it lies beyond.
    fn clamp_to(self, lowest: Double, highest: Double) -> (r: Double)
        ensures
            r == self.clamped(lowest, highest),
    {
        if self.ranks_below(lowest) {
            lowest
        } else if highest.ranks_below(self) {
            highest
        } else {
            self
        }
    }
}

impl vstd::std_specs::cmp::PartialEqSpecImpl for Double {
    open spec fn obeys_eq_spec() -> bool {
        true
    }

    open spec fn eq_spec(&self, other: &Double) -> bool {
        self.equal(*other)
    }
}

impl PartialEq for Double {
    fn eq(&self, other: &Double) -> (r: bool) {
        self.bits % SIGN <= INFINITY && other.bits % SIGN <= INFINITY && !self.ranks_below(*other)
            && !other.ranks_below(*self)
    }
}

/// The range one spacing quantity may take while a justified line is fitted to its column width.
///
/// *Desired* is what every line is laid out with, justified or not; *minimum* and *maximum* only
/// bound the compression and stretching a justified line adds on top of it.
#[derive(Debug, Clone, Copy)]
pub struct SpacingRange {
    pub minimum: Double,
    pub desired: Double,
    pub maximum: Double,
}

impl vstd::std_specs::cmp::PartialEqSpecImpl for SpacingRange {
    open spec fn obeys_eq_spec() -> bool {
        true
    }

    open spec fn eq_spec(&self, other: &SpacingRange) -> bool {
        self.equal(*other)
    }
}

impl PartialEq for SpacingRange {
    fn eq(&self, other: &SpacingRange) -> (r: bool) {
        self.minimum == other.minimum && self.desired == other.desired && self.maximum
            == other.maximum
    }
}

impl SpacingRange {
    /// Whether all three values equal those of another range, as numbers do.
    pub open spec fn equal(self, other: SpacingRange) -> bool {
        self.minimum.equal(other.minimum) && self.desired.equal(other.desired)
            && self.maximum.equal(other.maximum)
    }

    /// Whether the range lies in a domain of finite numbers and encloses its desired value.
    pub open spec fn valid(self, lowest: Double, highest: Double) -> bool {
        &&& self.minimum.finite() && self.desired.finite() && self.maximum.finite()
        &&& lowest.rank() <= self.minimum.rank() <= self.desired.rank() <= self.maximum.rank()
            <= highest.rank()
    }

    /// The range with all three values in the domain, and with bounds that enclose the desired value.
    pub open spec fn validation(self, lowest: Double, highest: Double) -> SpacingRange {
        let desired = self.desired.finite_or_else(lowest).clamped(lowest, highest);
        SpacingRange {
            minimum: self.minimum.finite_or_else(desired).clamped(lowest, desired),
            desired,
            maximum: self.maximum.finite_or_else(desired).clamped(desired, highest),
        }
    }

    /// A range of the given values.
    pub fn new(minimum: Double, desired: Double, maximum: Double) -> (r: Self)
        ensures
            r == (SpacingRange { minimum, desired, maximum }),
    {
        SpacingRange { minimum, desired, maximum }
    }

    /// Clamps all three values to the supported domain and makes the minimum and maximum enclose the
    /// desired value. A value that is not finite gives way to the desired one, and a desired value
    /// that is not finite to the lowest of the domain.
    pub fn validated(self, domain_minimum: Double, domain_maximum: Double) -> (r: Self)
        requires
            domain_minimum.finite(),
            domain_maximum.finite(),
            domain_minimum.rank() <= domain_maximum.rank(),
        ensures
            r == self.validation(domain_minimum, domain_maximum),
            r.valid(domain_minimum, domain_maximum),
    {
        let desired = self.desired.finite_or(domain_minimum).clamp_to(
            domain_minimum,
            domain_maximum,
        );
        let minimum = self.minimum.finite_or(desired).clamp_to(domain_minimum, desired);
        let maximum = self.maximum.finite_or(desired).clamp_to(desired, domain_maximum);
        SpacingRange::new(minimum, desired, maximum)
    }
}

/// A range that is valid in its domain is left as it is; so a range validated once is not changed by
/// another validation.
pub proof fn lemma_validation_keeps_valid(range: SpacingRange, lowest: Double, highest: Double)
    requires
        range.valid(lowest, highest),
    ensures
        range.validation(lowest, highest) == range,
{
}

/// How far a justified line may stretch or compress to reach its column width: word spacing and glyph
/// scaling as percentages of the font's natural widths, and letter spacing as a percentage of the
/// font's natural space width.
#[derive(Debug, Clone, Copy)]
pub struct Justification {
    /// Width of each space glyph, as a percentage of the font's own space width.
    pub word_spacing: SpacingRange,
    /// Space inserted between glyphs, as a percentage of the font's own space width.
    pub letter_spacing: SpacingRange,
    /// Horizontal scale of the glyphs themselves, as a percentage of their natural width.
    pub glyph_scaling: SpacingRange,
}

/// The encoding of -100.
pub const MINUS_100: u64 = 0xc059_0000_0000_0000;

/// The encoding of 50.
pub const PLUS_50: u64 = 0x4049_0000_0000_0000;

/// The encoding of 80.
pub const PLUS_80: u64 = 0x4054_0000_0000_0000;

/// The encoding of 100.
pub const PLUS_100: u64 = 0x4059_0000_0000_0000;

/// The encoding of 133.
pub const PLUS_133: u64 = 0x4060_a000_0000_0000;

/// The encoding of 200.
pub const PLUS_200: u64 = 0x4069_0000_0000_0000;

/// The encoding of 500.
pub const PLUS_500: u64 = 0x407f_4000_0000_0000;

/// The encoding of 1000.
pub const PLUS_1000: u64 = 0x408f_4000_0000_0000;

/// A range of the given encodings.
pub open spec fn range_of(minimum: u64, desired: u64, maximum: u64) -> SpacingRange {
    SpacingRange {
        minimum: Double { bits: minimum },
        desired: Double { bits: desired },
        maximum: Double { bits: maximum },
    }
}

/// A range of the given encodings.
fn encoded_range(minimum: u64, desired: u64, maximum: u64) -> (r: SpacingRange)
    ensures
        r == range_of(minimum, desired, maximum),
{
    SpacingRange::new(Double { bits: minimum }, Double { bits: desired }, Double { bits: maximum })
}

/// Moderate word-space fitting, with letter spacing and glyph scaling at their natural values.
pub open spec fn default_justification() -> Justification {
    Justification {
        word_spacing: range_of(PLUS_80, PLUS_100, PLUS_133),
        letter_spacing: range_of(0, 0, 0),
        glyph_scaling: range_of(PLUS_100, PLUS_100, PLUS_100),
    }
}

impl Default for Justification {
    /// Moderate word-space fitting, with letter spacing and glyph scaling at their natural values; a
    /// line that needs more adjustment keeps a ragged edge rather than exceeding a bound.
    fn default() -> (r: Self)
        ensures
            r == default_justification(),
            r.valid(),
    {
        Justification {
            word_spacing: encoded_range(PLUS_80, PLUS_100, PLUS_133),
            letter_spacing: encoded_range(0, 0, 0),
            glyph_scaling: encoded_range(PLUS_100, PLUS_100, PLUS_100),
        }
    }
}

impl vstd::std_specs::cmp::PartialEqSpecImpl for Justification {
    open spec fn obeys_eq_spec() -> bool {
        true
    }

    open spec fn eq_spec(&self, other: &Justification) -> bool {
        self.equal(*other)
    }
}

impl PartialEq for Justification {
    fn eq(&self, other: &Justification) -> (r: bool) {
        self.word_spacing == other.word_spacing && self.letter_spacing == other.letter_spacing
            && self.glyph_scaling == other.glyph_scaling
    }
}

impl Justification {
    /// Whether all three ranges equal those of another justification, as numbers do.
    pub open spec fn equal(self, other: Justification) -> bool {
        self.word_spacing.equal(other.word_spacing) && self.letter_spacing.equal(
            other.letter_spacing,
        ) && self.glyph_scaling.equal(other.glyph_scaling)
    }

    /// Whether every range lies in the domain of its quantity and encloses its desired value.
    pub open spec fn valid(self) -> bool {
        &&& self.word_spacing.valid(Double { bits: 0 }, Double { bits: PLUS_1000 })
        &&& self.letter_spacing.valid(Double { bits: MINUS_100 }, Double { bits: PLUS_500 })
        &&& self.glyph_scaling.valid(Double { bits: PLUS_50 }, Double { bits: PLUS_200 })
    }

    /// The justification with every range validated in the domain of its quantity.
    pub open spec fn validation(self) -> Justification {
        Justification {
            word_spacing: self.word_spacing.validation(
                Double { bits: 0 },
                Double { bits: PLUS_1000 },
            ),
            letter_spacing: self.letter_spacing.validation(
                Double { bits: MINUS_100 },
                Double { bits: PLUS_500 },
            ),
            glyph_scaling: self.glyph_scaling.validation(
                Double { bits: PLUS_50 },
                Double { bits: PLUS_200 },
            ),
        }
    }

    /// Applies the supported value domains and guarantees `minimum <= desired <= maximum` for every
    /// range.
    pub fn validated(self) -> (r: Self)
        ensures
            r == self.validation(),
            r.valid(),
    {
        Justification {
            word_spacing: self.word_spacing.validated(
                Double { bits: 0 },
                Double { bits: PLUS_1000 },
            ),
            letter_spacing: self.letter_spacing.validated(
                Double { bits: MINUS_100 },
                Double { bits: PLUS_500 },
            ),
            glyph_scaling: self.glyph_scaling.validated(
                Double { bits: PLUS_50 },
                Double { bits: PLUS_200 },
            ),
        }
    }
}

/// A valid justification is left as it is, and validating twice is validating once.
pub proof fn lemma_validation_idempotent(justification: Justification)
    ensures
        justification.valid() ==> justification.validation() == justification,
        justification.validation().validation() == justification.validation(),
{
}

/// Encodings below the sign bit are numbers that are not negative, ordered as the encodings are; those
/// from it on are their opposites. The encodings of infinity come behind all finite ones, and those of
/// undefined numbers behind infinity, on either side.
pub proof fn lemma_encodings(bits: u64)
    ensures
        bits < 0x8000_0000_0000_0000 ==> (Double { bits }).rank() == bits,
        bits >= 0x8000_0000_0000_0000 ==> (Double { bits }).rank() == -(Double {
            bits: (bits - 0x8000_0000_0000_0000) as u64,
        }).rank(),
        bits < 0x8000_0000_0000_0000 ==> ((Double { bits }).finite() <==> bits
            < 0x7ff0_0000_0000_0000),
        bits < 0x8000_0000_0000_0000 ==> ((Double { bits }).undefined() <==> bits
            > 0x7ff0_0000_0000_0000),
        bits >= 0x8000_0000_0000_0000 ==> ((Double { bits }).finite() <==> bits
            < 0xfff0_0000_0000_0000),
        bits >= 0x8000_0000_0000_0000 ==> ((Double { bits }).undefined() <==> bits
            > 0xfff0_0000_0000_0000),
{
}

/// Of two numbers that are defined, one is less, the other is, or they are equal, and only one of these
/// holds. One that is undefined is neither less than another, nor greater, nor equal.
pub proof fn lemma_numbers_compare(a: Double, b: Double)
    ensures
        !a.undefined() && !b.undefined() ==> (a.less(b) <==> a.rank() < b.rank()) && (b.less(a) <==> a.rank()
            > b.rank()) && (a.equal(b) <==> a.rank() == b.rank()),
        a.undefined() || b.undefined() ==> !a.less(b) && !b.less(a) && !a.equal(b),
{
}

/// Validation keeps what is allowed and moves the rest to the nearest bound. The desired value is to lie
/// in the domain, the minimum between the start of the domain and the desired value, and the maximum
/// between the desired value and the end of the domain. A desired value that is not finite gives way to
/// the start of the domain, and a minimum or maximum that is not to the desired value.
pub proof fn lemma_validation(range: SpacingRange, lowest: Double, highest: Double)
    requires
        lowest.finite(),
        highest.finite(),
        lowest.rank() <= highest.rank(),
    ensures
        ({
            let valid = range.validation(lowest, highest);
            let desired = valid.desired;
            &&& !range.desired.finite() ==> desired == lowest
            &&& range.desired.finite() && lowest.rank() <= range.desired.rank() <= highest.rank()
                ==> desired == range.desired
            &&& range.desired.finite() && range.desired.rank() < lowest.rank() ==> desired == lowest
            &&& range.desired.finite() && range.desired.rank() > highest.rank() ==> desired == highest
            &&& !range.minimum.finite() ==> valid.minimum == desired
            &&& range.minimum.finite() && lowest.rank() <= range.minimum.rank() <= desired.rank()
                ==> valid.minimum == range.minimum
            &&& range.minimum.finite() && range.minimum.rank() < lowest.rank() ==> valid.minimum
                == lowest
            &&& range.minimum.finite() && range.minimum.rank() > desired.rank() ==> valid.minimum
                == desired
            &&& !range.maximum.finite() ==> valid.maximum == desired
            &&& range.maximum.finite() && desired.rank() <= range.maximum.rank() <= highest.rank()
                ==> valid.maximum == range.maximum
            &&& range.maximum.finite() && range.maximum.rank() < desired.rank() ==> valid.maximum
                == desired
            &&& range.maximum.finite() && range.maximum.rank() > highest.rank() ==> valid.maximum
                == highest
        }),
{
}

/// Word spacing is validated between 0 and 1000, letter spacing between -100 and 500, and glyph scaling
/// between 50 and 200, each on its own.
pub proof fn lemma_domains(justification: Justification)
    ensures
        justification.validation().word_spacing == justification.word_spacing.validation(
            Double { bits: 0 },
            Double { bits: 0x408f_4000_0000_0000 },
        ),
        justification.validation().letter_spacing == justification.letter_spacing.validation(
            Double { bits: 0xc059_0000_0000_0000 },
            Double { bits: 0x407f_4000_0000_0000 },
        ),
        justification.validation().glyph_scaling == justification.glyph_scaling.validation(
            Double { bits: 0x4049_0000_0000_0000 },
            Double { bits: 0x4069_0000_0000_0000 },
        ),
{
}

/// Ranges are equal exactly where all three of their values are, and justifications where all three of
/// their ranges are.
pub proof fn lemma_equal_in_all(a: SpacingRange, b: SpacingRange, c: Justification, d: Justification)
    ensures
        a.equal(b) <==> a.minimum.equal(b.minimum) && a.desired.equal(b.desired) && a.maximum.equal(
            b.maximum,
        ),
        c.equal(d) <==> c.word_spacing.equal(d.word_spacing) && c.letter_spacing.equal(
            d.letter_spacing,
        ) && c.glyph_scaling.equal(d.glyph_scaling),
{
}

} // verus!
