//! The classifier: seed the roles from alpha, tally the neighbors of every
//! non-transparent pixel, detect shadow colors, and return the map.

use crate::adjacency::{AdjacentPixelInfo, Tally};
use crate::bitmap::{lemma_position_index, Bitmap, BitmapView};
use crate::color::{Color, ColorType};
use crate::colormap::ColorMap;
use crate::coords::{signed_coordinate, ClassifyError};
use crate::model::{
    lemma_colors, lemma_sum_bound, lemma_tally_bound, lemma_tally_transparent,
    lemma_tally_unchanged, lemma_total_positive,
};
use vstd::pervasive::unreached;
use vstd::prelude::*;

verus! {

/// The map holds the colors of the bitmap in the order of their first
/// occurrence, each with the role it has from its alpha channel.
pub open spec fn seeded(image: BitmapView, map: ColorMap) -> bool {
    &&& map.wf()
    &&& map.keys() == image.colors()
    &&& forall|c: Color| #[trigger]
        map@.contains_key(c) ==> map@[c] == ColorType::spec_of_alpha(c)
}

/// The map is the finished classification of the bitmap: every color of the
/// bitmap is a key, once, with its final role.
pub open spec fn classified(image: BitmapView, map: ColorMap) -> bool {
    &&& map.wf()
    &&& map@ == image.classification()
    &&& map.keys() == image.colors()
}

/// What classifying the bitmap returns: an error exactly if a non-transparent
/// pixel lies at a position without a signed coordinate, and otherwise the
/// finished classification.
pub open spec fn classification_result(
    image: BitmapView,
    result: Result<ColorMap, ClassifyError>,
) -> bool {
    match result {
        Ok(map) => !image.coordinate_overflow() && classified(image, map),
        Err(e) => image.coordinate_overflow() && e == ClassifyError::CoordinateOverflow,
    }
}

/// The entry of color `c` agrees with the first `m` observations of the
/// bitmap: a non-transparent color has its tally, a transparent one has no
/// entry.
pub open spec fn entry_matches(
    image: BitmapView,
    c: Color,
    entry: Option<AdjacentPixelInfo>,
    m: nat,
) -> bool {
    match entry {
        Some(info) => !c.spec_is_transparent() && info.wf() && info@ == image.tally_upto(c, m),
        None => c.spec_is_transparent(),
    }
}

/// The table holds, for each of `keys`, the entry that agrees with the first
/// `m` observations of the bitmap.
pub open spec fn table_matches(
    image: BitmapView,
    keys: Seq<Color>,
    table: Seq<Option<AdjacentPixelInfo>>,
    m: nat,
) -> bool {
    &&& table.len() == keys.len()
    &&& forall|j: int| 0 <= j < keys.len() ==> entry_matches(image, keys[j], #[trigger] table[j], m)
}

/// First divide colors into transparent and opaque based on alpha.
pub fn seed_classification(image: &Bitmap) -> (map: ColorMap)
    requires
        image.wf(),
    ensures
        seeded(image@, map),
{
    let pixels = image.pixels();
    let mut map = ColorMap::new();
    let mut i: usize = 0;
    while i < pixels.len()
        invariant
            i <= pixels@.len(),
            pixels@ == image@.pixels,
            map.wf(),
            map.keys() == image@.colors_upto(i as nat),
            forall|c: Color| #[trigger]
                map@.contains_key(c) ==> map@[c] == ColorType::spec_of_alpha(c),
        decreases pixels@.len() - i,
    {
        let px: Color = pixels[i];
        proof {
            map.lemma_keys();
        }
        if px.is_transparent() {
            map.insert_if_absent(px, ColorType::Transparent);
        } else {
            map.insert_if_absent(px, ColorType::Opaque);
        }
        i += 1;
    }
    map
}

/// An empty tally for every non-transparent color of the classification,
/// and no entry for a transparent one.
pub fn new_adjacency(classification: &ColorMap) -> (table: Vec<Option<AdjacentPixelInfo>>)
    requires
        classification.wf(),
    ensures
        table@.len() == classification.keys().len(),
        forall|j: int|
            0 <= j < table@.len() ==> match #[trigger] table@[j] {
                Some(info) => !classification.keys()[j].spec_is_transparent() && info.wf()
                    && info@ == Tally::zero(),
                None => classification.keys()[j].spec_is_transparent(),
            },
{
    let mut table: Vec<Option<AdjacentPixelInfo>> = Vec::new();
    let mut j: usize = 0;
    while j < classification.len()
        invariant
            classification.wf(),
            j <= classification.keys().len(),
            table@.len() == j,
            forall|k: int|
                0 <= k < j ==> match #[trigger] table@[k] {
                    Some(info) => !classification.keys()[k].spec_is_transparent() && info.wf()
                        && info@ == Tally::zero(),
                    None => classification.keys()[k].spec_is_transparent(),
                },
        decreases classification.keys().len() - j,
    {
        let c: Color = classification.key_at(j);
        if !c.is_transparent() {
            table.push(Some(AdjacentPixelInfo::new()));
        } else {
            table.push(None);
        }
        j += 1;
    }
    table
}

/// Looks at the 3x3 grid around a non-transparent pixel of color `px` at
/// `(x, y)` and adds what it sees to the tally of that color.
pub fn tally_pixel(
    image: &Bitmap,
    classification: &ColorMap,
    x: i32,
    y: i32,
    px: Color,
    info: AdjacentPixelInfo,
) -> (tallied: AdjacentPixelInfo)
    requires
        image.wf(),
        seeded(image@, *classification),
        image@.in_bounds(x as int, y as int),
        px == image@.pixel(x as int, y as int),
        !px.spec_is_transparent(),
        info.wf(),
        info@ == image@.tally_upto(px, 9 * ((y * image@.width + x) as nat)),
    ensures
        tallied.wf(),
        tallied@ == image@.tally_upto(px, 9 * ((y * image@.width + x) as nat) + 9),
{
    let ghost img = image@;
    let ghost i: nat = (y * image@.width + x) as nat;
    let mut info = info;
    proof {
        lemma_position_index(img, x as int, y as int);
        lemma_colors(img);
        classification.lemma_keys();
    }
    let mut dy: i64 = -1;
    while dy <= 1
        invariant
            image.wf(),
            img == image@,
            seeded(img, *classification),
            img.in_bounds(x as int, y as int),
            i == y * img.width + x,
            i < img.pixels.len(),
            img.pixels[i as int] == px,
            img.x_of(i as int) == x,
            img.y_of(i as int) == y,
            px == img.pixel(x as int, y as int),
            !px.spec_is_transparent(),
            forall|c: Color| img.has_color(c) ==> classification@.contains_key(c),
            -1 <= dy <= 2,
            info.wf(),
            info@ == img.tally_upto(px, (9 * i + 3 * (dy + 1)) as nat),
        decreases 2 - dy,
    {
        let mut dx: i64 = -1;
        while dx <= 1
            invariant
                image.wf(),
                img == image@,
                seeded(img, *classification),
                img.in_bounds(x as int, y as int),
                i == y * img.width + x,
                i < img.pixels.len(),
                img.pixels[i as int] == px,
                img.x_of(i as int) == x,
                img.y_of(i as int) == y,
                px == img.pixel(x as int, y as int),
                !px.spec_is_transparent(),
                forall|c: Color| img.has_color(c) ==> classification@.contains_key(c),
                -1 <= dy <= 1,
                -1 <= dx <= 2,
                info.wf(),
                info@ == img.tally_upto(px, (9 * i + 3 * (dy + 1) + (dx + 1)) as nat),
            decreases 2 - dx,
        {
            let ghost k: int = 3 * (dy + 1) + (dx + 1);
            let ghost m: nat = (9 * i + k) as nat;
            let ghost before = info@;
            proof {
                assert(m as int / 9 == i && m as int % 9 == k);
                assert(k % 3 - 1 == dx && k / 3 - 1 == dy);
                assert(img.observation(m as int) == img.observed_role(
                    x as int,
                    y as int,
                    dx as int,
                    dy as int,
                ));
                assert(img.tally_upto(px, m + 1) == match img.observation(m as int) {
                    Some(role) => before.incr(role),
                    None => before,
                });
                lemma_tally_bound(img, px, m);
                assert(m <= 9 * img.pixels.len());
            }
            // Don't compare to ourselves.
            if !(dx == 0 && dy == 0) {
                // Get our neighboring pixel, if it's in bounds.
                let px_adj_opt = image.get_opt(x as i64 + dx, y as i64 + dy);
                match px_adj_opt {
                    None => {
                        info.incr_count(ColorType::Transparent);
                    },
                    Some(px_adj) => {
                        // Don't count pixels of the same color.
                        if px_adj != px {
                            proof {
                                lemma_position_index(img, x + dx, y + dy);
                                assert(img.pixels[(y + dy) * img.width + (x + dx)] == px_adj);
                                assert(img.has_color(px_adj));
                            }
                            // Classify our neighboring color and increment
                            // our counter.
                            let ct_adj: ColorType = classification.role_of(&px_adj);
                            info.incr_count(ct_adj);
                        }
                    },
                }
            }
            assert(info@ == img.tally_upto(px, m + 1));
            dx += 1;
        }
        dy += 1;
    }
    info
}

/// Calculate which colors are adjacent to which color classifications.
/// Fails if a non-transparent pixel lies at a position that has no signed
/// coordinate.
pub fn tally_adjacency(image: &Bitmap, classification: &ColorMap) -> (result: Result<
    Vec<Option<AdjacentPixelInfo>>,
    ClassifyError,
>)
    requires
        image.wf(),
        seeded(image@, *classification),
    ensures
        result is Err <==> image@.coordinate_overflow(),
        result matches Err(e) ==> e == ClassifyError::CoordinateOverflow,
        result matches Ok(table) ==> table_matches(
            image@,
            classification.keys(),
            table@,
            image@.observations(),
        ),
{
    let ghost img = image@;
    let ghost keys = classification.keys();
    let width: u32 = image.width();
    let height: u32 = image.height();
    let mut adjacent = new_adjacency(classification);
    proof {
        lemma_colors(img);
        classification.lemma_keys();
    }
    let mut i: usize = 0;
    let mut y: u32 = 0;
    while y < height
        invariant
            image.wf(),
            img == image@,
            keys == classification.keys(),
            seeded(img, *classification),
            keys.no_duplicates(),
            forall|c: Color| img.has_color(c) <==> keys.contains(c),
            forall|c: Color| img.has_color(c) <==> classification@.contains_key(c),
            width == img.width,
            height == img.height,
            y <= height,
            i == y * img.width,
            table_matches(img, keys, adjacent@, 9 * (i as nat)),
            forall|px: int, py: int|
                img.in_bounds(px, py) && py < y && !(#[trigger] img.pixel(
                    px,
                    py,
                )).spec_is_transparent() ==> px <= i32::MAX && py <= i32::MAX,
        decreases height - y,
    {
        let mut x: u32 = 0;
        while x < width
            invariant
                image.wf(),
                img == image@,
                keys == classification.keys(),
                seeded(img, *classification),
                keys.no_duplicates(),
                forall|c: Color| img.has_color(c) <==> keys.contains(c),
                forall|c: Color| img.has_color(c) <==> classification@.contains_key(c),
                width == img.width,
                height == img.height,
                y < height,
                x <= width,
                i == y * img.width + x,
                table_matches(img, keys, adjacent@, 9 * (i as nat)),
                forall|px: int, py: int|
                    img.in_bounds(px, py) && (py < y || (py == y && px < x)) && !(
                    #[trigger] img.pixel(px, py)).spec_is_transparent() ==> px <= i32::MAX && py
                        <= i32::MAX,
            decreases width - x,
        {
            proof {
                lemma_position_index(img, x as int, y as int);
            }
            let px: Color = image.get_pixel(x, y);
            assert(img.has_color(px));
            // Don't compute adjacency info for transparent pixels.
            if !px.is_transparent() {
                let xi: i32 = match signed_coordinate(x) {
                    Ok(v) => v,
                    Err(e) => {
                        return Err(e);
                    },
                };
                let yi: i32 = match signed_coordinate(y) {
                    Ok(v) => v,
                    Err(e) => {
                        return Err(e);
                    },
                };
                // Every color of the bitmap was classified and every
                // non-transparent color has a tally.
                let j: usize = match classification.position(&px) {
                    Some(j) => j,
                    None => unreached(),
                };
                let info: AdjacentPixelInfo = match adjacent[j] {
                    Some(info) => info,
                    None => unreached(),
                };
                let tallied = tally_pixel(image, classification, xi, yi, px, info);
                adjacent.set(j, Some(tallied));
                proof {
                    assert forall|k: int| 0 <= k < keys.len() implies entry_matches(
                        img,
                        keys[k],
                        #[trigger] adjacent@[k],
                        9 * ((i + 1) as nat),
                    ) by {
                        if k != j {
                            lemma_tally_unchanged(img, keys[k], i as nat, 9);
                        }
                    }
                }
            } else {
                proof {
                    assert forall|k: int| 0 <= k < keys.len() implies entry_matches(
                        img,
                        keys[k],
                        #[trigger] adjacent@[k],
                        9 * ((i + 1) as nat),
                    ) by {
                        lemma_tally_unchanged(img, keys[k], i as nat, 9);
                    }
                }
            }
            i += 1;
            x += 1;
        }
        proof {
            assert(y * img.width + img.width == (y + 1) * img.width) by (nonlinear_arith);
        }
        y += 1;
    }
    proof {
        assert(i == img.pixels.len()) by (nonlinear_arith)
            requires
                i == height * img.width,
                height == img.height,
                img.pixels.len() == img.width * img.height,
        ;
    }
    Ok(adjacent)
}

/// The sum of the totals of all tallies.
pub fn sum_adjacency(
    image: &Bitmap,
    classification: &ColorMap,
    adjacent: &Vec<Option<AdjacentPixelInfo>>,
) -> (total_adj: u128)
    requires
        image.wf(),
        seeded(image@, *classification),
        table_matches(image@, classification.keys(), adjacent@, image@.observations()),
    ensures
        total_adj == image@.total_adj(),
{
    let ghost img = image@;
    let ghost keys = classification.keys();
    let ghost m = img.observations();
    proof {
        lemma_colors(img);
    }
    let mut total_adj: u128 = 0;
    let mut j: usize = 0;
    while j < adjacent.len()
        invariant
            image.wf(),
            img == image@,
            keys == classification.keys(),
            keys == img.colors(),
            keys.no_duplicates(),
            m == img.observations(),
            table_matches(img, keys, adjacent@, m),
            j <= adjacent@.len(),
            total_adj == img.sum_totals(keys.take(j as int), m),
        decreases adjacent@.len() - j,
    {
        proof {
            let next = keys.take(j + 1);
            assert(next.drop_last() == keys.take(j as int));
            assert(next.last() == keys[j as int]);
            assert(next.no_duplicates());
            lemma_sum_bound(img, next, m);
            if keys[j as int].spec_is_transparent() {
                lemma_tally_transparent(img, keys[j as int], m);
            }
        }
        let entry: Option<AdjacentPixelInfo> = adjacent[j];
        match entry {
            Some(info) => {
                total_adj = total_adj + info.total();
            },
            None => {},
        }
        j += 1;
    }
    proof {
        assert(keys.take(j as int) == keys);
    }
    total_adj
}

/// Check to see whether we have any opaque colors which seem to be
/// surrounded by a shadow.
pub fn detect_opaque_inside_shadow(
    image: &Bitmap,
    classification: &ColorMap,
    adjacent: &Vec<Option<AdjacentPixelInfo>>,
) -> (have_opaque_inside_shadow: bool)
    requires
        image.wf(),
        seeded(image@, *classification),
        table_matches(image@, classification.keys(), adjacent@, image@.observations()),
    ensures
        have_opaque_inside_shadow == image@.have_opaque_inside_shadow(),
{
    let ghost img = image@;
    let ghost keys = classification.keys();
    let total_adj: u128 = sum_adjacency(image, classification, adjacent);
    proof {
        lemma_colors(img);
    }
    let mut have_opaque_inside_shadow = false;
    let mut j: usize = 0;
    while j < adjacent.len()
        invariant
            image.wf(),
            img == image@,
            keys == img.colors(),
            forall|c: Color| img.has_color(c) <==> keys.contains(c),
            table_matches(img, keys, adjacent@, img.observations()),
            total_adj == img.total_adj(),
            j <= adjacent@.len(),
            have_opaque_inside_shadow == exists|k: int|
                0 <= k < j && img.signals_opaque_inside_shadow(#[trigger] keys[k]),
        decreases adjacent@.len() - j,
    {
        let entry: Option<AdjacentPixelInfo> = adjacent[j];
        let ghost c = keys[j as int];
        assert(img.has_color(c));
        match entry {
            Some(adj) => {
                proof {
                    lemma_total_positive(img, c);
                }
                // Only check colors which make up a reasonable fraction of
                // our total.
                if adj.is_significant(total_adj) && adj.looks_like_opaque_inside_shadow() {
                    have_opaque_inside_shadow = true;
                }
            },
            None => {},
        }
        j += 1;
    }
    proof {
        if img.have_opaque_inside_shadow() {
            let c = choose|c: Color| img.signals_opaque_inside_shadow(c);
            let k = choose|k: int| 0 <= k < keys.len() && keys[k] == c;
            assert(img.signals_opaque_inside_shadow(keys[k]));
        }
    }
    have_opaque_inside_shadow
}

/// Look for the shadow colors: every non-transparent color that borders both
/// opaque and transparent pixels substantially becomes a shadow.
pub fn mark_shadows(
    image: &Bitmap,
    classification: &mut ColorMap,
    adjacent: &Vec<Option<AdjacentPixelInfo>>,
)
    requires
        image.wf(),
        seeded(image@, *old(classification)),
        table_matches(image@, old(classification).keys(), adjacent@, image@.observations()),
        image@.have_opaque_inside_shadow(),
    ensures
        final(classification).wf(),
        final(classification).keys() == old(classification).keys(),
        final(classification)@ == image@.classification(),
{
    let ghost img = image@;
    let ghost keys = classification.keys();
    proof {
        lemma_colors(img);
        classification.lemma_keys();
        assert forall|k: int| 0 <= k < keys.len() implies classification@.contains_key(
            #[trigger] keys[k],
        ) by {
            assert(keys.contains(keys[k]));
        }
    }
    let mut j: usize = 0;
    while j < adjacent.len()
        invariant
            image.wf(),
            img == image@,
            classification.wf(),
            classification.keys() == keys,
            keys == img.colors(),
            forall|c: Color| img.has_color(c) <==> keys.contains(c),
            forall|c: Color| classification@.contains_key(c) <==> keys.contains(c),
            table_matches(img, keys, adjacent@, img.observations()),
            img.have_opaque_inside_shadow(),
            j <= adjacent@.len(),
            forall|k: int|
                0 <= k < keys.len() ==> classification@.contains_key(#[trigger] keys[k]),
            forall|k: int|
                0 <= k < j ==> classification@[#[trigger] keys[k]] == img.final_role(keys[k]),
            forall|k: int|
                j <= k < keys.len() ==> classification@[#[trigger] keys[k]]
                    == ColorType::spec_of_alpha(keys[k]),
        decreases adjacent@.len() - j,
    {
        let entry: Option<AdjacentPixelInfo> = adjacent[j];
        let ghost c = keys[j as int];
        let ghost before = classification@;
        proof {
            assert(keys.contains(c));
            classification.lemma_keys();
        }
        match entry {
            Some(adj) => {
                proof {
                    lemma_total_positive(img, c);
                }
                if adj.looks_like_shadow() {
                    classification.set_role_at(j, ColorType::Shadow);
                }
            },
            None => {},
        }
        proof {
            classification.lemma_keys();
            assert forall|k: int| 0 <= k < keys.len() && k != j implies classification@[keys[k]]
                == before[#[trigger] keys[k]] by {
                assert(keys[k] != c);
            }
        }
        j += 1;
    }
    proof {
        assert(j == keys.len());
        assert forall|c: Color| classification@.contains_key(c) implies #[trigger] classification@[c]
            == img.final_role(c) by {
            assert(keys.contains(c));
            let k = choose|k: int| 0 <= k < keys.len() && keys[k] == c;
            assert(classification@[keys[k]] == img.final_role(keys[k]));
        }
        assert(classification@ =~= img.classification());
    }
}

/// Classify the colors in a bitmap as transparent, shadow or opaque.
///
/// Fails exactly if a non-transparent pixel lies at a position that has no
/// signed coordinate. Otherwise every color of the bitmap is a key of the
/// returned map, once, with its final role.
pub fn classify_colors(image: &Bitmap) -> (result: Result<ColorMap, ClassifyError>)
    requires
        image.wf(),
    ensures
        classification_result(image@, result),
{
    // First divide colors into transparent and opaque based on alpha.
    let mut classification = seed_classification(image);

    // Calculate which colors are adjacent to which color classifications.
    // We'll use this to detect "shadow" colors.
    let adjacent = match tally_adjacency(image, &classification) {
        Ok(adjacent) => adjacent,
        Err(e) => {
            return Err(e);
        },
    };

    // Check to see whether we have any opaque colors which seem to be
    // surrounded by a shadow.
    let have_opaque_inside_shadow = detect_opaque_inside_shadow(image, &classification, &adjacent);

    // If we have colors surrounded by shadows, look for the shadow colors.
    if have_opaque_inside_shadow {
        mark_shadows(image, &mut classification, &adjacent);
    } else {
        proof {
            lemma_colors(image@);
            classification.lemma_keys();
            assert(classification@ =~= image@.classification());
        }
    }
    Ok(classification)
}

} // verus!
