//! What the classification of a bitmap is, stated over its mathematical
//! content, and the facts about it that the classifier relies on.

use crate::adjacency::Tally;
use crate::bitmap::{lemma_index_position, lemma_position_index, BitmapView};
use crate::color::{Color, ColorType};
use crate::coords::max_coordinate;
use vstd::prelude::*;

verus! {

impl BitmapView {
    /// The role under which the pixel at `(x, y)` tallies the cell at offset
    /// `(dx, dy)`. A cell outside the bitmap counts as transparent, a cell of
    /// the pixel's own color is not tallied, and any other cell counts with
    /// the role its color has from its alpha channel.
    pub open spec fn observed_role(self, x: int, y: int, dx: int, dy: int) -> Option<ColorType> {
        match self.get_opt(x + dx, y + dy) {
            None => Some(ColorType::Transparent),
            Some(c) => if c == self.pixel(x, y) {
                None
            } else {
                Some(ColorType::spec_of_alpha(c))
            },
        }
    }

    /// Every pixel looks at the nine cells of the 3x3 grid around it, row by
    /// row. Observation `m` is cell `m % 9` of pixel `m / 9`. Transparent
    /// pixels tally nothing, and the middle cell, being the pixel itself,
    /// never counts.
    pub open spec fn observation(self, m: int) -> Option<ColorType> {
        let i = m / 9;
        let k = m % 9;
        if self.pixels[i].spec_is_transparent() {
            None
        } else {
            self.observed_role(self.x_of(i), self.y_of(i), k % 3 - 1, k / 3 - 1)
        }
    }

    /// The tally of color `c` over the first `m` observations.
    pub open spec fn tally_upto(self, c: Color, m: nat) -> Tally
        decreases m,
    {
        if m == 0 {
            Tally::zero()
        } else {
            let before = self.tally_upto(c, (m - 1) as nat);
            if self.pixels[(m - 1) / 9] == c {
                match self.observation(m - 1) {
                    Some(role) => before.incr(role),
                    None => before,
                }
            } else {
                before
            }
        }
    }

    /// The number of all observations.
    pub open spec fn observations(self) -> nat {
        9 * self.pixels.len()
    }

    /// The tally of color `c` over the whole bitmap.
    pub open spec fn adjacency(self, c: Color) -> Tally {
        self.tally_upto(c, self.observations())
    }

    /// The distinct colors among the first `n` pixels, in the order in which
    /// they first occur.
    pub open spec fn colors_upto(self, n: nat) -> Seq<Color>
        decreases n,
    {
        if n == 0 {
            Seq::empty()
        } else {
            let before = self.colors_upto((n - 1) as nat);
            let c = self.pixels[n - 1];
            if before.contains(c) {
                before
            } else {
                before.push(c)
            }
        }
    }

    /// The distinct colors of the bitmap, in the order in which they first
    /// occur.
    pub open spec fn colors(self) -> Seq<Color> {
        self.colors_upto(self.pixels.len())
    }

    /// The sum, over `colors`, of the totals of their tallies after `m`
    /// observations.
    pub open spec fn sum_totals(self, colors: Seq<Color>, m: nat) -> nat
        decreases colors.len(),
    {
        if colors.len() == 0 {
            0
        } else {
            self.sum_totals(colors.drop_last(), m) + self.tally_upto(colors.last(), m).total()
        }
    }

    /// The sum of the totals of the tallies of all colors.
    pub open spec fn total_adj(self) -> nat {
        self.sum_totals(self.colors(), self.observations())
    }

    /// Does the color `c` set the "opaque inside shadow" signal? It must be a
    /// non-transparent color of the bitmap that accounts for a reasonable
    /// part of all observations and is almost only next to opaque pixels.
    pub open spec fn signals_opaque_inside_shadow(self, c: Color) -> bool {
        &&& self.has_color(c)
        &&& !c.spec_is_transparent()
        &&& self.adjacency(c).is_significant(self.total_adj())
        &&& self.adjacency(c).looks_like_opaque_inside_shadow()
    }

    /// Is there a color that seems to be surrounded by a shadow?
    pub open spec fn have_opaque_inside_shadow(self) -> bool {
        exists|c: Color| self.signals_opaque_inside_shadow(c)
    }

    /// The role of a color in the finished classification.
    pub open spec fn final_role(self, c: Color) -> ColorType {
        if c.spec_is_transparent() {
            ColorType::Transparent
        } else if self.have_opaque_inside_shadow() && self.adjacency(c).looks_like_shadow() {
            ColorType::Shadow
        } else {
            ColorType::Opaque
        }
    }

    /// The classification of the bitmap: each of its colors with its role.
    pub open spec fn classification(self) -> Map<Color, ColorType> {
        Map::new(|c: Color| self.has_color(c), |c: Color| self.final_role(c))
    }

    /// Is there a non-transparent pixel whose position does not fit the
    /// signed coordinates?
    pub open spec fn coordinate_overflow(self) -> bool {
        exists|x: int, y: int|
            self.in_bounds(x, y) && !(#[trigger] self.pixel(x, y)).spec_is_transparent() && (x
                > max_coordinate() || y > max_coordinate())
    }
}

/// The distinct colors among the first `n` pixels hold no color twice, and
/// hold exactly the colors of those pixels.
pub proof fn lemma_colors_upto(img: BitmapView, n: nat)
    requires
        n <= img.pixels.len(),
    ensures
        img.colors_upto(n).no_duplicates(),
        img.colors_upto(n).len() <= n,
        forall|c: Color|
            img.colors_upto(n).contains(c) <==> exists|i: int| 0 <= i < n && img.pixels[i] == c,
    decreases n,
{
    if n > 0 {
        let before = img.colors_upto((n - 1) as nat);
        let last = img.pixels[n - 1];
        let now = img.colors_upto(n);
        lemma_colors_upto(img, (n - 1) as nat);
        assert forall|c: Color| now.contains(c) <==> exists|i: int|
            0 <= i < n && img.pixels[i] == c by {
            if now.contains(c) {
                let j = choose|j: int| 0 <= j < now.len() && now[j] == c;
                if j < before.len() {
                    assert(before[j] == c);
                    assert(before.contains(c));
                    let i = choose|i: int| 0 <= i < n - 1 && img.pixels[i] == c;
                    assert(0 <= i < n && img.pixels[i] == c);
                } else {
                    assert(img.pixels[n - 1] == c);
                }
            }
            if exists|i: int| 0 <= i < n && img.pixels[i] == c {
                let i = choose|i: int| 0 <= i < n && img.pixels[i] == c;
                if i < n - 1 {
                    assert(before.contains(c));
                    let j = choose|j: int| 0 <= j < before.len() && before[j] == c;
                    assert(now[j] == c);
                } else if before.contains(c) {
                } else {
                    assert(now[before.len() as int] == c);
                }
            }
        }
    }
}

/// The colors of a bitmap hold no color twice, and a color is among them
/// exactly if some pixel has it.
pub proof fn lemma_colors(img: BitmapView)
    ensures
        img.colors().no_duplicates(),
        img.colors().len() <= img.pixels.len(),
        forall|c: Color| img.colors().contains(c) <==> img.has_color(c),
{
    lemma_colors_upto(img, img.pixels.len());
}

/// A tally never holds more than the observations made so far.
pub proof fn lemma_tally_bound(img: BitmapView, c: Color, m: nat)
    ensures
        img.tally_upto(c, m).total() <= m,
    decreases m,
{
    if m > 0 {
        lemma_tally_bound(img, c, (m - 1) as nat);
    }
}

/// A tally only grows.
pub proof fn lemma_tally_monotone(img: BitmapView, c: Color, m1: nat, m2: nat)
    requires
        m1 <= m2,
    ensures
        img.tally_upto(c, m1).total() <= img.tally_upto(c, m2).total(),
    decreases m2,
{
    if m1 < m2 {
        lemma_tally_monotone(img, c, m1, (m2 - 1) as nat);
    }
}

/// The observations of pixel `i` leave the tally of `c` as it was if the
/// pixel has another color, or if it is transparent.
pub proof fn lemma_tally_unchanged(img: BitmapView, c: Color, i: nat, k: nat)
    requires
        k <= 9,
        img.pixels[i as int] != c || img.pixels[i as int].spec_is_transparent(),
    ensures
        img.tally_upto(c, 9 * i + k) == img.tally_upto(c, 9 * i),
    decreases k,
{
    if k > 0 {
        lemma_tally_unchanged(img, c, i, (k - 1) as nat);
        let m = 9 * i + k;
        assert((m - 1) / 9 == i);
    }
}

/// A transparent color tallies nothing.
pub proof fn lemma_tally_transparent(img: BitmapView, c: Color, m: nat)
    requires
        c.spec_is_transparent(),
    ensures
        img.tally_upto(c, m) == Tally::zero(),
    decreases m,
{
    if m > 0 {
        lemma_tally_transparent(img, c, (m - 1) as nat);
    }
}

/// One more observation adds at most one to the sum of the totals of
/// distinct colors, and adds nothing if the observing pixel's color is not
/// among them.
pub proof fn lemma_sum_step(img: BitmapView, colors: Seq<Color>, m: nat)
    requires
        colors.no_duplicates(),
    ensures
        img.sum_totals(colors, m) <= img.sum_totals(colors, m + 1) <= img.sum_totals(colors, m) + 1,
        !colors.contains(img.pixels[m as int / 9]) ==> img.sum_totals(colors, m + 1)
            == img.sum_totals(colors, m),
    decreases colors.len(),
{
    if colors.len() > 0 {
        let init = colors.drop_last();
        let last = colors.last();
        let p = img.pixels[m as int / 9];
        lemma_sum_step(img, init, m);
        assert(colors[colors.len() - 1] == last);
        if p == last {
            assert forall|j: int| 0 <= j < init.len() implies init[j] != p by {
                assert(colors[j] == init[j]);
            }
        } else if !colors.contains(p) {
            assert forall|j: int| 0 <= j < init.len() implies init[j] != p by {
                assert(colors[j] == init[j]);
            }
        }
    }
}

/// The totals of distinct colors add up to no more than the observations
/// made so far.
pub proof fn lemma_sum_bound(img: BitmapView, colors: Seq<Color>, m: nat)
    requires
        colors.no_duplicates(),
    ensures
        img.sum_totals(colors, m) <= m,
    decreases m,
{
    if m == 0 {
        lemma_sum_zero(img, colors);
    } else {
        lemma_sum_bound(img, colors, (m - 1) as nat);
        lemma_sum_step(img, colors, (m - 1) as nat);
    }
}

/// Before any observation all totals are zero.
pub proof fn lemma_sum_zero(img: BitmapView, colors: Seq<Color>)
    ensures
        img.sum_totals(colors, 0) == 0,
    decreases colors.len(),
{
    if colors.len() > 0 {
        lemma_sum_zero(img, colors.drop_last());
    }
}

/// A non-transparent color that occurs among the first `n` pixels has seen
/// at least one neighbor once those pixels are tallied: above its first
/// pixel lies the edge of the bitmap or a pixel of another color.
pub proof fn lemma_total_positive_upto(img: BitmapView, c: Color, n: nat)
    requires
        img.wf(),
        n <= img.pixels.len(),
        !c.spec_is_transparent(),
        exists|i: int| 0 <= i < n && img.pixels[i] == c,
    ensures
        img.tally_upto(c, 9 * n).total() >= 1,
    decreases n,
{
    let last = (n - 1) as nat;
    if exists|i: int| 0 <= i < last && img.pixels[i] == c {
        lemma_total_positive_upto(img, c, last);
        lemma_tally_monotone(img, c, 9 * last, 9 * n);
    } else {
        let i = choose|i: int| 0 <= i < n && img.pixels[i] == c;
        assert(i == last);
        lemma_index_position(img, last as int);
        let x = img.x_of(last as int);
        let y = img.y_of(last as int);
        let w = img.width as int;
        let m = 9 * last + 1;
        assert(m as int / 9 == last && m as int % 9 == 1);
        if y > 0 {
            lemma_position_index(img, x, y - 1);
            assert((y - 1) * w + x == last - w) by (nonlinear_arith)
                requires
                    y * w + x == last,
            ;
            assert(img.pixels[last - w] != c);
        }
        assert(img.observation(m as int) is Some);
        assert(img.tally_upto(c, m + 1).total() == img.tally_upto(c, m).total() + 1);
        lemma_tally_monotone(img, c, m + 1, 9 * n);
    }
}

/// A non-transparent color of the bitmap has seen at least one neighbor, so
/// its shares of neighbors are always defined.
pub proof fn lemma_total_positive(img: BitmapView, c: Color)
    requires
        img.wf(),
        img.has_color(c),
        !c.spec_is_transparent(),
    ensures
        img.adjacency(c).total() >= 1,
{
    lemma_total_positive_upto(img, c, img.pixels.len());
}

} // verus!
