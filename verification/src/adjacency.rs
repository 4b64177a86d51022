//! Per-color tallies of the roles of neighboring pixels, and the fixed
//! thresholds by which a tally is judged.

use crate::color::ColorType;
use vstd::prelude::*;

verus! {

/// A tally never grows beyond this many observations, so that comparing it
/// against a percentage cannot overflow.
pub const TALLY_LIMIT: u128 = 0x100_0000_0000_0000_0000_0000_0000;

/// A color counts towards the "opaque inside shadow" signal only if it
/// accounts for at least one part in this many of all observations.
pub const SIGNIFICANCE_DIVISOR: u128 = 4;

/// A color looks like it sits inside a shadow if more than this percentage of
/// its neighbors are opaque.
pub const OPAQUE_INSIDE_SHADOW_PERCENT: u128 = 95;

/// A color looks like a shadow if more than this percentage of its neighbors
/// are opaque and more than this percentage are transparent.
pub const SHADOW_PERCENT: u128 = 33;

/// How many neighbors of each role the pixels of one color have.
pub struct Tally {
    pub transparent: nat,
    pub shadow: nat,
    pub opaque: nat,
}

impl Tally {
    /// The tally with no observations.
    pub open spec fn zero() -> Tally {
        Tally { transparent: 0, shadow: 0, opaque: 0 }
    }

    /// The number of neighbors with role `ct`.
    pub open spec fn count(self, ct: ColorType) -> nat {
        match ct {
            ColorType::Transparent => self.transparent,
            ColorType::Shadow => self.shadow,
            ColorType::Opaque => self.opaque,
        }
    }

    /// The tally after one more neighbor with role `ct`.
    pub open spec fn incr(self, ct: ColorType) -> Tally {
        match ct {
            ColorType::Transparent => Tally { transparent: self.transparent + 1, ..self },
            ColorType::Shadow => Tally { shadow: self.shadow + 1, ..self },
            ColorType::Opaque => Tally { opaque: self.opaque + 1, ..self },
        }
    }

    /// The number of all neighbors.
    pub open spec fn total(self) -> nat {
        self.transparent + self.shadow + self.opaque
    }

    /// Is the share of neighbors with role `ct` above `percent` hundredths?
    /// The share is the exact quotient `count(ct) / total()`.
    pub open spec fn fraction_exceeds(self, ct: ColorType, percent: nat) -> bool {
        self.count(ct) * 100 > percent * self.total()
    }

    /// Does this color account for a reasonable part of `total_adj`
    /// observations?
    pub open spec fn is_significant(self, total_adj: nat) -> bool {
        self.total() >= total_adj / (SIGNIFICANCE_DIVISOR as nat)
    }

    /// Almost all neighbors are opaque.
    pub open spec fn looks_like_opaque_inside_shadow(self) -> bool {
        self.fraction_exceeds(ColorType::Opaque, OPAQUE_INSIDE_SHADOW_PERCENT as nat)
    }

    /// A substantial part of the neighbors is opaque and a substantial part
    /// is transparent.
    pub open spec fn looks_like_shadow(self) -> bool {
        &&& self.fraction_exceeds(ColorType::Opaque, SHADOW_PERCENT as nat)
        &&& self.fraction_exceeds(ColorType::Transparent, SHADOW_PERCENT as nat)
    }
}

/// A share of neighbors, kept as an exact quotient of two counts.
#[derive(Clone, Copy, Debug)]
pub struct Fraction {
    numerator: u128,
    denominator: u128,
}

impl Fraction {
    /// The count of the neighbors in question.
    pub closed spec fn spec_numerator(&self) -> u128 {
        self.numerator
    }

    /// The count of all neighbors.
    pub closed spec fn spec_denominator(&self) -> u128 {
        self.denominator
    }

    /// A fraction has a positive denominator within the tally limit, and a
    /// numerator no larger than it.
    pub open spec fn wf(&self) -> bool {
        &&& 0 < self.spec_denominator() <= TALLY_LIMIT
        &&& self.spec_numerator() <= self.spec_denominator()
    }

    /// The count of the neighbors in question.
    #[verifier::when_used_as_spec(spec_numerator)]
    pub fn numerator(&self) -> (n: u128)
        ensures
            n == self.spec_numerator(),
    {
        self.numerator
    }

    /// The count of all neighbors.
    #[verifier::when_used_as_spec(spec_denominator)]
    pub fn denominator(&self) -> (d: u128)
        ensures
            d == self.spec_denominator(),
    {
        self.denominator
    }

    /// Is this fraction strictly above `percent` hundredths?
    pub fn exceeds_percent(&self, percent: u128) -> (above: bool)
        requires
            self.wf(),
            percent <= 100,
        ensures
            above == (self.spec_numerator() * 100 > percent * self.spec_denominator()),
    {
        assert(percent * self.denominator <= 100 * TALLY_LIMIT) by (nonlinear_arith)
            requires
                0 <= percent <= 100,
                0 <= self.denominator <= TALLY_LIMIT,
        ;
        self.numerator * 100 > percent * self.denominator
    }
}

/// Information about the `ColorType` of pixels adjacent to a given color.
#[derive(Clone, Copy, Debug)]
pub struct AdjacentPixelInfo {
    data: [u128; 3],
}

impl View for AdjacentPixelInfo {
    type V = Tally;

    closed spec fn view(&self) -> Tally {
        Tally {
            transparent: self.data[0] as nat,
            shadow: self.data[1] as nat,
            opaque: self.data[2] as nat,
        }
    }
}

impl AdjacentPixelInfo {
    /// The invariant of the type: the counters stay within the tally limit.
    pub open spec fn wf(&self) -> bool {
        self@.total() <= TALLY_LIMIT
    }

    /// A tally with no observations.
    pub fn new() -> (info: AdjacentPixelInfo)
        ensures
            info.wf(),
            info@ == Tally::zero(),
    {
        AdjacentPixelInfo { data: [0; 3] }
    }

    /// The number of neighbors seen with role `ct`.
    pub fn count(&self, ct: ColorType) -> (n: u128)
        ensures
            n == self@.count(ct),
    {
        self.data[usize::from(ct)]
    }

    /// Records one more neighbor with role `ct`.
    pub fn incr_count(&mut self, ct: ColorType)
        requires
            old(self).wf(),
            old(self)@.total() < TALLY_LIMIT,
        ensures
            final(self).wf(),
            final(self)@ == old(self)@.incr(ct),
    {
        let i: usize = usize::from(ct);
        let n: u128 = self.data[i];
        self.data[i] = n + 1;
    }

    /// The number of all neighbors seen.
    pub fn total(&self) -> (n: u128)
        requires
            self.wf(),
        ensures
            n == self@.total(),
    {
        self.data[0] + self.data[1] + self.data[2]
    }

    /// The share of neighbors with role `ct`. There is no share of nothing:
    /// the tally must hold at least one observation.
    pub fn fraction_adj_to(&self, ct: ColorType) -> (f: Fraction)
        requires
            self.wf(),
            self@.total() > 0,
        ensures
            f.wf(),
            f.spec_numerator() == self@.count(ct),
            f.spec_denominator() == self@.total(),
    {
        Fraction { numerator: self.count(ct), denominator: self.total() }
    }

    /// Does this color account for a reasonable part of `total_adj`
    /// observations? A color with exactly a quarter of them does.
    pub fn is_significant(&self, total_adj: u128) -> (significant: bool)
        requires
            self.wf(),
        ensures
            significant == self@.is_significant(total_adj as nat),
    {
        self.total() >= total_adj / SIGNIFICANCE_DIVISOR
    }

    /// Are almost all neighbors of this color opaque?
    pub fn looks_like_opaque_inside_shadow(&self) -> (looks: bool)
        requires
            self.wf(),
            self@.total() > 0,
        ensures
            looks == self@.looks_like_opaque_inside_shadow(),
    {
        self.fraction_adj_to(ColorType::Opaque).exceeds_percent(OPAQUE_INSIDE_SHADOW_PERCENT)
    }

    /// Does this color border both opaque and transparent pixels
    /// substantially?
    pub fn looks_like_shadow(&self) -> (looks: bool)
        requires
            self.wf(),
            self@.total() > 0,
        ensures
            looks == self@.looks_like_shadow(),
    {
        self.fraction_adj_to(ColorType::Opaque).exceeds_percent(SHADOW_PERCENT)
            && self.fraction_adj_to(ColorType::Transparent).exceeds_percent(SHADOW_PERCENT)
    }
}

} // verus!
