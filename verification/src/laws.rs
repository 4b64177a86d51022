//! What holds of every classification, whatever the bitmap.

use crate::adjacency::{Tally, SIGNIFICANCE_DIVISOR};
use crate::bitmap::BitmapView;
use crate::classify::{classification_result, classified};
use crate::color::{Color, ColorType};
use crate::colormap::ColorMap;
use crate::coords::ClassifyError;
use crate::model::lemma_colors;
use vstd::prelude::*;

verus! {

/// Every color that appears in a bitmap is a key of its classification,
/// exactly once, and the classification has no other key.
pub proof fn lemma_every_color_classified_once(image: BitmapView, map: ColorMap)
    requires
        classified(image, map),
    ensures
        forall|c: Color| image.has_color(c) <==> map@.contains_key(c),
        forall|c: Color| image.has_color(c) <==> map.keys().contains(c),
        map.keys().no_duplicates(),
        map@.dom().finite(),
        map@.dom().len() == map.keys().len(),
{
    lemma_colors(image);
    map.lemma_keys();
}

/// A color with any amount of transparency starts out as transparent, and
/// is transparent in the finished classification too.
pub proof fn lemma_transparent_stays_transparent(image: BitmapView, c: Color)
    requires
        image.has_color(c),
        c.spec_is_transparent(),
    ensures
        ColorType::spec_of_alpha(c) == ColorType::Transparent,
        image.classification().contains_key(c),
        image.classification()[c] == ColorType::Transparent,
{
}

/// A color that is not reclassified as a shadow keeps the role it has from
/// its alpha channel, and only a non-transparent color can become a shadow.
pub proof fn lemma_roles_from_alpha_or_shadow(image: BitmapView, c: Color)
    requires
        image.has_color(c),
    ensures
        image.classification()[c] == ColorType::Shadow ==> !c.spec_is_transparent()
            && image.have_opaque_inside_shadow() && image.adjacency(c).looks_like_shadow(),
        image.classification()[c] != ColorType::Shadow ==> image.classification()[c]
            == ColorType::spec_of_alpha(c),
{
}

/// Classifying the same bitmap twice gives the same outcome: the same error,
/// or maps with the same colors in the same order and the same roles.
pub proof fn lemma_classification_repeatable(
    image: BitmapView,
    first: Result<ColorMap, ClassifyError>,
    second: Result<ColorMap, ClassifyError>,
)
    requires
        classification_result(image, first),
        classification_result(image, second),
    ensures
        first is Err <==> second is Err,
        first is Err ==> first->Err_0 == second->Err_0,
        first is Ok ==> first->Ok_0@ == second->Ok_0@ && first->Ok_0.keys() == second->Ok_0.keys(),
{
}

/// The significance check is inclusive: a color whose total is exactly a
/// quarter of all observations, rounded down, is significant.
pub proof fn lemma_quarter_is_significant(tally: Tally, total_adj: nat)
    requires
        tally.total() == total_adj / (SIGNIFICANCE_DIVISOR as nat),
    ensures
        tally.is_significant(total_adj),
{
}

/// A color whose total is below a quarter of all observations is not
/// significant.
pub proof fn lemma_below_quarter_is_insignificant(tally: Tally, total_adj: nat)
    requires
        tally.total() < total_adj / (SIGNIFICANCE_DIVISOR as nat),
    ensures
        !tally.is_significant(total_adj),
{
}

/// No neighbor is ever tallied as a shadow: while the tallies are built,
/// colors have only the roles that alpha gives them.
pub proof fn lemma_no_shadow_tallied(image: BitmapView, c: Color, m: nat)
    ensures
        image.tally_upto(c, m).shadow == 0,
    decreases m,
{
    if m > 0 {
        lemma_no_shadow_tallied(image, c, (m - 1) as nat);
    }
}

} // verus!
