use subtitle_ocr::classify::{
    detect_opaque_inside_shadow, seed_classification, sum_adjacency, tally_adjacency,
};
use subtitle_ocr::{classify_colors, AdjacentPixelInfo, Bitmap, Color, ColorMap, ColorType};

const CLEAR: u32 = 0x00000000;
const BLACK: u32 = 0x000000ff;
const GRAY: u32 = 0x999999ff;
const WHITE: u32 = 0xf0f0f0ff;
const RED: u32 = 0xff0000ff;
const GREEN: u32 = 0x00ff00ff;

fn rgba_hex(hex: u32) -> Color {
    Color::from_hex(hex)
}

fn bitmap(rows: &[Vec<u32>]) -> Bitmap {
    let height = rows.len() as u32;
    let width = if rows.is_empty() { 0 } else { rows[0].len() as u32 };
    let mut pixels = Vec::new();
    for row in rows {
        assert_eq!(row.len() as u32, width);
        for hex in row {
            pixels.push(rgba_hex(*hex));
        }
    }
    Bitmap::new(width, height, pixels).unwrap()
}

/// A square of side `n`: one color per distance from the edge, the last
/// color filling the inside, and optionally another color in the middle.
fn layered(n: usize, layers: &[u32], centre: Option<u32>) -> Vec<Vec<u32>> {
    let mut rows = Vec::new();
    for y in 0..n {
        let mut row = Vec::new();
        for x in 0..n {
            let d = x.min(y).min(n - 1 - x).min(n - 1 - y);
            let mut c = layers[d.min(layers.len() - 1)];
            if x == n / 2 && y == n / 2 {
                if let Some(m) = centre {
                    c = m;
                }
            }
            row.push(c);
        }
        rows.push(row);
    }
    rows
}

/// A gray glyph with a white highlight, a black outline and a transparent
/// margin.
fn sample() -> Bitmap {
    bitmap(&layered(7, &[CLEAR, BLACK, GRAY], Some(WHITE)))
}

fn counts(info: &AdjacentPixelInfo) -> (u128, u128, u128) {
    (
        info.count(ColorType::Transparent),
        info.count(ColorType::Shadow),
        info.count(ColorType::Opaque),
    )
}

fn tally_of(map: &ColorMap, table: &[Option<AdjacentPixelInfo>], hex: u32) -> Option<(u128, u128, u128)> {
    let j = map.position(&rgba_hex(hex)).unwrap();
    table[j].as_ref().map(counts)
}

#[test]
fn classify_colors_as_transparent_and_opaque() {
    let image = sample();
    let colors = classify_colors(&image).unwrap();
    assert_eq!(colors.len(), 4);
    assert_eq!(colors.get(&rgba_hex(0x00000000)).unwrap(), ColorType::Transparent);
    assert_eq!(colors.get(&rgba_hex(0x000000ff)).unwrap(), ColorType::Shadow);
    assert_eq!(colors.get(&rgba_hex(0x999999ff)).unwrap(), ColorType::Opaque);
    assert_eq!(colors.get(&rgba_hex(0xf0f0f0ff)).unwrap(), ColorType::Opaque);
}

#[test]
fn two_colors_without_shadow_stay_as_alpha_says() {
    let image = bitmap(&layered(5, &[CLEAR, GRAY], None));
    let seeded = seed_classification(&image);
    let table = tally_adjacency(&image, &seeded).unwrap();
    assert!(!detect_opaque_inside_shadow(&image, &seeded, &table));
    let colors = classify_colors(&image).unwrap();
    assert_eq!(colors.len(), 2);
    assert_eq!(colors.get(&rgba_hex(CLEAR)), Some(ColorType::Transparent));
    assert_eq!(colors.get(&rgba_hex(GRAY)), Some(ColorType::Opaque));
}

#[test]
fn seeding_follows_alpha_and_first_occurrence() {
    let image = sample();
    let seeded = seed_classification(&image);
    assert_eq!(seeded.len(), 4);
    assert_eq!(seeded.key_at(0), rgba_hex(CLEAR));
    assert_eq!(seeded.key_at(1), rgba_hex(BLACK));
    assert_eq!(seeded.key_at(2), rgba_hex(GRAY));
    assert_eq!(seeded.key_at(3), rgba_hex(WHITE));
    assert_eq!(seeded.role_at(0), ColorType::Transparent);
    assert_eq!(seeded.role_at(1), ColorType::Opaque);
    assert_eq!(seeded.role_at(2), ColorType::Opaque);
    assert_eq!(seeded.role_at(3), ColorType::Opaque);
}

#[test]
fn tallies_of_the_sample() {
    let image = sample();
    let seeded = seed_classification(&image);
    let table = tally_adjacency(&image, &seeded).unwrap();
    assert_eq!(table.len(), 4);
    assert_eq!(tally_of(&seeded, &table, CLEAR), None);
    assert_eq!(tally_of(&seeded, &table, BLACK), Some((56, 0, 32)));
    assert_eq!(tally_of(&seeded, &table, GRAY), Some((0, 0, 40)));
    assert_eq!(tally_of(&seeded, &table, WHITE), Some((0, 0, 8)));
    assert_eq!(sum_adjacency(&image, &seeded, &table), 136);
    assert!(detect_opaque_inside_shadow(&image, &seeded, &table));
}

#[test]
fn every_color_is_a_key_exactly_once() {
    let rows = layered(9, &[CLEAR, GRAY, BLACK, BLACK], Some(WHITE));
    let image = bitmap(&rows);
    let colors = classify_colors(&image).unwrap();
    assert_eq!(colors.len(), 4);
    for row in &rows {
        for hex in row {
            assert!(colors.contains_key(&rgba_hex(*hex)));
        }
    }
    for j in 0..colors.len() {
        for k in 0..colors.len() {
            if j != k {
                assert_ne!(colors.key_at(j), colors.key_at(k));
            }
        }
    }
    assert_eq!(colors.get(&rgba_hex(RED)), None);
    assert!(!colors.contains_key(&rgba_hex(RED)));
}

#[test]
fn outline_next_to_the_margin_becomes_the_shadow() {
    // Here the gray layer borders the margin and the black layer lies inside.
    let image = bitmap(&layered(9, &[CLEAR, GRAY, BLACK, BLACK], Some(WHITE)));
    let colors = classify_colors(&image).unwrap();
    assert_eq!(colors.get(&rgba_hex(CLEAR)), Some(ColorType::Transparent));
    assert_eq!(colors.get(&rgba_hex(GRAY)), Some(ColorType::Shadow));
    assert_eq!(colors.get(&rgba_hex(BLACK)), Some(ColorType::Opaque));
    assert_eq!(colors.get(&rgba_hex(WHITE)), Some(ColorType::Opaque));
}

#[test]
fn partly_transparent_color_stays_transparent() {
    let haze: u32 = 0x00000080;
    let image = bitmap(&layered(7, &[haze, BLACK, GRAY], Some(WHITE)));
    let seeded = seed_classification(&image);
    assert_eq!(seeded.get(&rgba_hex(haze)), Some(ColorType::Transparent));
    let colors = classify_colors(&image).unwrap();
    assert_eq!(colors.len(), 4);
    assert_eq!(colors.get(&rgba_hex(haze)), Some(ColorType::Transparent));
    assert_eq!(colors.get(&rgba_hex(BLACK)), Some(ColorType::Shadow));
    assert_eq!(colors.get(&rgba_hex(GRAY)), Some(ColorType::Opaque));
    assert_eq!(colors.get(&rgba_hex(WHITE)), Some(ColorType::Opaque));
}

#[test]
fn almost_opaque_alpha_counts_as_transparent() {
    let almost: u32 = 0x123456fe;
    let image = bitmap(&[vec![almost, GRAY]]);
    let colors = classify_colors(&image).unwrap();
    assert_eq!(colors.get(&rgba_hex(almost)), Some(ColorType::Transparent));
    assert_eq!(colors.get(&rgba_hex(GRAY)), Some(ColorType::Opaque));
}

#[test]
fn classifying_twice_gives_the_same_map() {
    let image = sample();
    let first = classify_colors(&image).unwrap();
    let second = classify_colors(&image).unwrap();
    assert_eq!(first.len(), second.len());
    for j in 0..first.len() {
        assert_eq!(first.key_at(j), second.key_at(j));
        assert_eq!(first.role_at(j), second.role_at(j));
    }
}

#[test]
fn insignificant_color_does_not_set_the_signal() {
    // The glyph of the sample beside a checkerboard of two more colors. Gray
    // still has only opaque neighbors, but it now accounts for less than a
    // quarter of all observations, so nothing becomes a shadow.
    let glyph = layered(7, &[CLEAR, BLACK, GRAY], Some(WHITE));
    let mut rows = Vec::new();
    for y in 0..7 {
        let mut row = glyph[y].clone();
        for x in 0..4 {
            row.push(if (x + y) % 2 == 0 { RED } else { GREEN });
        }
        row.push(CLEAR);
        rows.push(row);
    }
    let image = bitmap(&rows);
    let seeded = seed_classification(&image);
    let table = tally_adjacency(&image, &seeded).unwrap();
    assert_eq!(tally_of(&seeded, &table, RED), Some((31, 0, 45)));
    assert_eq!(tally_of(&seeded, &table, GREEN), Some((31, 0, 45)));
    assert_eq!(tally_of(&seeded, &table, BLACK), Some((56, 0, 32)));
    assert_eq!(tally_of(&seeded, &table, GRAY), Some((0, 0, 40)));
    assert_eq!(tally_of(&seeded, &table, WHITE), Some((0, 0, 8)));
    assert_eq!(sum_adjacency(&image, &seeded, &table), 288);
    assert!(!detect_opaque_inside_shadow(&image, &seeded, &table));
    let j = seeded.position(&rgba_hex(BLACK)).unwrap();
    assert!(table[j].as_ref().unwrap().looks_like_shadow());
    let colors = classify_colors(&image).unwrap();
    assert_eq!(colors.len(), 6);
    assert_eq!(colors.get(&rgba_hex(BLACK)), Some(ColorType::Opaque));
    assert_eq!(colors.get(&rgba_hex(RED)), Some(ColorType::Opaque));
    assert_eq!(colors.get(&rgba_hex(GREEN)), Some(ColorType::Opaque));
    assert_eq!(colors.get(&rgba_hex(GRAY)), Some(ColorType::Opaque));
    assert_eq!(colors.get(&rgba_hex(WHITE)), Some(ColorType::Opaque));
    assert_eq!(colors.get(&rgba_hex(CLEAR)), Some(ColorType::Transparent));
}

#[test]
fn single_pixel_sees_eight_cells_outside() {
    let image = bitmap(&[vec![GRAY]]);
    let seeded = seed_classification(&image);
    let table = tally_adjacency(&image, &seeded).unwrap();
    assert_eq!(tally_of(&seeded, &table, GRAY), Some((8, 0, 0)));
    let colors = classify_colors(&image).unwrap();
    assert_eq!(colors.len(), 1);
    assert_eq!(colors.get(&rgba_hex(GRAY)), Some(ColorType::Opaque));
}

#[test]
fn neighbors_of_the_same_color_are_not_tallied() {
    let image = bitmap(&[vec![GRAY, BLACK, CLEAR]]);
    let seeded = seed_classification(&image);
    let table = tally_adjacency(&image, &seeded).unwrap();
    assert_eq!(tally_of(&seeded, &table, GRAY), Some((7, 0, 1)));
    assert_eq!(tally_of(&seeded, &table, BLACK), Some((7, 0, 1)));
    assert_eq!(tally_of(&seeded, &table, CLEAR), None);
    let block = bitmap(&layered(3, &[BLACK, GRAY], None));
    let seeded = seed_classification(&block);
    let table = tally_adjacency(&block, &seeded).unwrap();
    assert_eq!(tally_of(&seeded, &table, BLACK), Some((32, 0, 8)));
    assert_eq!(tally_of(&seeded, &table, GRAY), Some((0, 0, 8)));
}

#[test]
fn every_tallied_color_has_seen_a_neighbor() {
    let shapes = [
        layered(7, &[CLEAR, BLACK, GRAY], Some(WHITE)),
        layered(4, &[GRAY], None),
        layered(5, &[BLACK, GRAY], Some(CLEAR)),
        vec![vec![GRAY, GRAY, BLACK], vec![GRAY, GRAY, BLACK]],
    ];
    for rows in shapes.iter() {
        let image = bitmap(rows);
        let seeded = seed_classification(&image);
        let table = tally_adjacency(&image, &seeded).unwrap();
        for j in 0..seeded.len() {
            match &table[j] {
                Some(info) => {
                    assert!(!seeded.key_at(j).is_transparent());
                    assert!(info.total() > 0);
                }
                None => assert!(seeded.key_at(j).is_transparent()),
            }
        }
    }
}

#[test]
fn empty_bitmap_has_an_empty_classification() {
    let image = Bitmap::new(0, 0, Vec::new()).unwrap();
    let colors = classify_colors(&image).unwrap();
    assert_eq!(colors.len(), 0);
    let image = Bitmap::new(0, 5, Vec::new()).unwrap();
    let colors = classify_colors(&image).unwrap();
    assert_eq!(colors.len(), 0);
}

#[test]
fn image_buffer_is_classified_through_its_pixels() {
    let rows = layered(7, &[CLEAR, BLACK, GRAY], Some(WHITE));
    let mut buffer = image::RgbaImage::new(7, 7);
    for y in 0..7u32 {
        for x in 0..7u32 {
            let c = rgba_hex(rows[y as usize][x as usize]);
            buffer.put_pixel(x, y, image::Rgba([c.r, c.g, c.b, c.a]));
        }
    }
    let pixels: Vec<Color> = buffer
        .pixels()
        .map(|p| Color { r: p.0[0], g: p.0[1], b: p.0[2], a: p.0[3] })
        .collect();
    let image = Bitmap::new(buffer.width(), buffer.height(), pixels).unwrap();
    assert_eq!(image.get_opt(3, 3), Some(*buffer.get_pixel(3, 3)).map(|p| Color {
        r: p.0[0],
        g: p.0[1],
        b: p.0[2],
        a: p.0[3],
    }));
    let colors = classify_colors(&image).unwrap();
    assert_eq!(colors.len(), 4);
    assert_eq!(colors.get(&rgba_hex(BLACK)), Some(ColorType::Shadow));
}
