use ansify::texel::{build_texels, ColorId};
use ansify::{
    calculate_new_dimensions, count_foreground_pixels, ANSIfier, Blocks, EngineError, Glyph,
    Palette, Rgb, RgbRaster, Rgba,
};

fn black() -> Rgb {
    Rgb::new(0, 0, 0)
}

fn white() -> Rgb {
    Rgb::new(255, 255, 255)
}

fn glyph(character: char, rows: &[&[bool]]) -> Glyph {
    Glyph { character, bitmap: rows.iter().map(|r| r.to_vec()).collect() }
}

/// A 1x2 cell set: an empty glyph, a full glyph and a half glyph.
fn tall_blocks() -> Blocks {
    Blocks {
        width: 1,
        height: 2,
        blocks: vec![
            glyph(' ', &[&[false], &[false]]),
            glyph('#', &[&[true], &[true]]),
            glyph('-', &[&[true], &[false]]),
        ],
    }
}

fn mono_engine() -> ANSIfier {
    ANSIfier::new(Palette::new(vec![black(), white()]), tall_blocks()).unwrap()
}

#[test]
fn target_dimensions_keep_cell_aspect() {
    assert_eq!(calculate_new_dimensions((800, 600), (Some(80), None), (2, 4)), (80, 30));
}

#[test]
fn target_dimensions_other_requests() {
    assert_eq!(calculate_new_dimensions((800, 600), (None, None), (2, 4)), (800, 600));
    assert_eq!(calculate_new_dimensions((800, 600), (None, Some(30)), (2, 4)), (80, 30));
    assert_eq!(calculate_new_dimensions((800, 600), (Some(7), Some(9)), (2, 4)), (7, 9));
    assert_eq!(calculate_new_dimensions((100, 100), (Some(10), None), (1, 1)), (10, 10));
    assert_eq!(calculate_new_dimensions((100, 0), (Some(10), None), (1, 1)), (10, 0));
    assert_eq!(calculate_new_dimensions((0, 100), (Some(10), None), (1, 1)), (10, u32::MAX));
    assert_eq!(calculate_new_dimensions((0, 0), (Some(10), None), (1, 1)), (10, 0));
}

#[test]
fn engine_method_uses_cell_size() {
    let e = ANSIfier::new(
        Palette::new(vec![black(), white()]),
        Blocks { width: 2, height: 4, blocks: vec![Glyph { character: 'x', bitmap: vec![vec![true, false]; 4] }] },
    )
    .unwrap();
    assert_eq!(e.calculate_new_dimensions((800, 600), (Some(80), None)), (80, 30));
    assert_eq!(e.cell_size(), (2, 4));
    assert_eq!(e.block_width(), 2);
    assert_eq!(e.block_height(), 4);
}

#[test]
fn counts_foreground_pixels() {
    assert_eq!(count_foreground_pixels(&vec![vec![true, false], vec![true, true]]), 3);
    assert_eq!(count_foreground_pixels(&vec![]), 0);
}

#[test]
fn partial_glyph_gives_all_ordered_pairs() {
    let pal = Palette::new(vec![black(), white(), Rgb::new(255, 0, 0)]);
    let blocks = Blocks { width: 1, height: 2, blocks: vec![glyph('-', &[&[true], &[false]])] };
    let ts = build_texels(&pal, &blocks);
    assert_eq!(ts.len(), 6);
    let pairs: Vec<(ColorId, ColorId)> = ts.iter().map(|t| (t.fg, t.bg)).collect();
    for i in 0..3 {
        for j in 0..3 {
            let found = pairs.contains(&(ColorId::Palette(i), ColorId::Palette(j)));
            assert_eq!(found, i != j);
        }
    }
    // white over black at half coverage: 255 * 1 + 0 * 1 per channel
    let t = ts.iter().find(|t| t.fg == ColorId::Palette(1) && t.bg == ColorId::Palette(0)).unwrap();
    assert_eq!((t.point.x, t.point.y, t.point.z), (255, 255, 255));
    // red over white: (255 + 255, 0 + 255, 0 + 255)
    let t = ts.iter().find(|t| t.fg == ColorId::Palette(2) && t.bg == ColorId::Palette(1)).unwrap();
    assert_eq!((t.point.x, t.point.y, t.point.z), (510, 255, 255));
}

#[test]
fn empty_glyph_gives_one_texel_per_colour() {
    let pal = Palette::new(vec![black(), white(), Rgb::new(10, 20, 30)]);
    let blocks = Blocks { width: 2, height: 1, blocks: vec![glyph(' ', &[&[false, false]])] };
    let ts = build_texels(&pal, &blocks);
    assert_eq!(ts.len(), 3);
    for (i, t) in ts.iter().enumerate() {
        assert_eq!(t.fg, ColorId::Sentinel);
        assert_eq!(t.bg, ColorId::Palette(i));
        assert_eq!(t.glyph, 0);
    }
    assert_eq!((ts[2].point.x, ts[2].point.y, ts[2].point.z), (20, 40, 60));
}

#[test]
fn one_colour_palette_without_full_or_empty_glyph_is_empty_input() {
    let blocks = Blocks { width: 1, height: 2, blocks: vec![glyph('-', &[&[true], &[false]])] };
    let r = ANSIfier::new(Palette::new(vec![white()]), blocks);
    assert_eq!(r.err(), Some(EngineError::EmptyInput));
}

#[test]
fn empty_palette_or_glyph_set_is_empty_input() {
    let r = ANSIfier::new(Palette::new(vec![]), tall_blocks());
    assert_eq!(r.err(), Some(EngineError::EmptyInput));
    let r = ANSIfier::new(
        Palette::new(vec![black()]),
        Blocks { width: 1, height: 2, blocks: vec![] },
    );
    assert_eq!(r.err(), Some(EngineError::EmptyInput));
}

#[test]
fn bitmap_with_wrong_row_count_is_rejected() {
    let blocks = Blocks { width: 1, height: 2, blocks: vec![glyph('#', &[&[true]])] };
    let r = ANSIfier::new(Palette::new(vec![black(), white()]), blocks);
    assert_eq!(r.err(), Some(EngineError::Validation));
}

#[test]
fn bitmap_with_wrong_row_length_is_rejected() {
    let blocks = Blocks { width: 1, height: 2, blocks: vec![glyph('#', &[&[true], &[true, true]])] };
    let r = ANSIfier::new_sequential(Palette::new(vec![black(), white()]), blocks);
    assert_eq!(r.err(), Some(EngineError::Validation));
    let r = Blocks::new(1, 2, vec![glyph('#', &[&[true], &[true, true]])]);
    assert_eq!(r.err(), Some(EngineError::Validation));
    assert!(Blocks::new(1, 2, vec![glyph('#', &[&[true], &[true]])]).is_ok());
}

#[test]
fn zero_cell_size_is_rejected() {
    let blocks = Blocks { width: 0, height: 0, blocks: vec![glyph('#', &[])] };
    let r = ANSIfier::new(Palette::new(vec![black(), white()]), blocks);
    assert_eq!(r.err(), Some(EngineError::Validation));
}

#[test]
fn process_paints_cells_and_text() {
    let e = mono_engine();
    let img = RgbRaster { width: 2, height: 1, pixels: vec![white(), black()] };
    let (out, text) = e.process(&img);
    assert_eq!((out.width, out.height), (2, 2));
    assert_eq!(out.pixels, vec![white(), black(), white(), black()]);
    assert_eq!(
        text,
        "\u{1b}[48;5;1;38;5;0m \u{1b}[0m\u{1b}[48;5;0;38;5;0m \u{1b}[0m\n"
    );
}

#[test]
fn process_uses_blended_texel_and_breaks_rows() {
    let pal = Palette::new(vec![black(), white(), Rgb::new(128, 128, 128)]);
    let blocks = Blocks { width: 1, height: 2, blocks: vec![glyph('-', &[&[true], &[false]])] };
    let e = ANSIfier::new_sequential(pal, blocks).unwrap();
    // 127 scales to 254; black on white and white on black both show 255, and
    // black on white comes first
    let img = RgbRaster { width: 1, height: 2, pixels: vec![Rgb::new(127, 127, 127), black()] };
    let (out, text) = e.process(&img);
    assert_eq!((out.width, out.height), (1, 4));
    assert_eq!(out.pixels[0], black());
    assert_eq!(out.pixels[1], white());
    assert_eq!(text.matches('\n').count(), 2);
    assert!(text.starts_with("\u{1b}[48;5;1;38;5;0m-\u{1b}[0m\n"));
}

#[test]
fn palette_colour_on_full_glyph_is_exact() {
    let pal = vec![Rgb::new(200, 10, 10), Rgb::new(10, 200, 10), Rgb::new(10, 10, 200)];
    let blocks = Blocks { width: 2, height: 1, blocks: vec![glyph('#', &[&[true, true]])] };
    let e = ANSIfier::new(Palette::new(pal.clone()), blocks).unwrap();
    let img = RgbRaster { width: 3, height: 1, pixels: pal.clone() };
    let (out, _) = e.process(&img);
    assert_eq!(out.pixels, vec![pal[0], pal[0], pal[1], pal[1], pal[2], pal[2]]);
}

#[test]
fn round_trip_reconstructs_palette_colours() {
    let pal = vec![black(), white(), Rgb::new(128, 0, 255), Rgb::new(64, 64, 64)];
    let e = ANSIfier::new(Palette::new(pal.clone()), tall_blocks()).unwrap();
    let img = RgbRaster {
        width: 2,
        height: 2,
        pixels: vec![pal[2], pal[3], pal[1], pal[0]],
    };
    let (out, _) = e.process(&img);
    for y in 0..2usize {
        for x in 0..2usize {
            let mut sum = [0u32; 3];
            for j in 0..2usize {
                let p = out.pixels[(y * 2 + j) * 2 + x];
                sum[0] += p.r as u32;
                sum[1] += p.g as u32;
                sum[2] += p.b as u32;
            }
            let src = img.pixels[y * 2 + x];
            assert_eq!(sum, [src.r as u32 * 2, src.g as u32 * 2, src.b as u32 * 2]);
        }
    }
}

#[test]
fn gpu_tables_fail_above_thirty_two_cell_pixels() {
    let row = [true; 11];
    let blocks = Blocks { width: 11, height: 3, blocks: vec![glyph('#', &[&row, &row, &row])] };
    let e = ANSIfier::new(Palette::new(vec![black(), white()]), blocks).unwrap();
    assert_eq!(e.generate_lut_and_map().err(), Some(EngineError::CapacityExceeded));
    assert_eq!(e.par_generate_lut_and_map().err(), Some(EngineError::CapacityExceeded));
}

#[test]
fn gpu_tables_fail_for_large_palette() {
    let pal: Vec<Rgb> = (0..257u32).map(|i| Rgb::new((i % 256) as u8, (i / 256) as u8, 0)).collect();
    let blocks = Blocks { width: 1, height: 1, blocks: vec![glyph('#', &[&[true]])] };
    let e = ANSIfier::new(Palette::new(pal), blocks).unwrap();
    assert_eq!(e.par_generate_lut_and_map().err(), Some(EngineError::CapacityExceeded));
}

#[test]
fn gpu_tables_at_thirty_two_cell_pixels() {
    let row = [true, false, false, false, false, false, false, true];
    let blocks = Blocks {
        width: 8,
        height: 4,
        blocks: vec![glyph('#', &[&row, &row, &row, &[true; 8]]), Glyph { character: ' ', bitmap: vec![vec![false; 8]; 4] }],
    };
    let e = ANSIfier::new(Palette::new(vec![black(), white()]), blocks).unwrap();
    let (lut, map) = e.generate_lut_and_map().unwrap();
    assert_eq!((lut.width, lut.height), (4096, 4096));
    assert_eq!(lut.pixels.len(), 4096 * 4096);
    assert_eq!((map.width, map.height), (256, 2));
    assert_eq!(map.pixels[0], Rgba::new(0, 0, 0, 255));
    assert_eq!(map.pixels[1], Rgba::new(255, 255, 255, 255));
    assert_eq!(map.pixels[2], Rgba::new(0, 0, 0, 0));
    // rows 0-2: bits 0 and 7 of each byte; row 3: all of the top byte
    assert_eq!(map.pixels[256], Rgba::new(0x81, 0x81, 0x81, 0xFF));
    assert_eq!(map.pixels[257], Rgba::new(0, 0, 0, 0));
    // address (0, 0) is black: only the empty glyph (position 1) on colour 0
    // shows it exactly; its foreground is the placeholder, written as 0
    assert_eq!(lut.pixels[0], Rgba::new(0, 0, 1, 255));
    // address (0xFFF, 0xFFF) is white: the empty glyph on colour 1
    let white_at = (0xFFF * 4096 + 0xFFF) as usize;
    assert_eq!(lut.pixels[white_at], Rgba::new(0, 1, 1, 255));
}

#[test]
fn gpu_tables_are_deterministic() {
    let e = mono_engine();
    let (lut_a, map_a) = e.par_generate_lut_and_map().unwrap();
    let (lut_b, map_b) = e.par_generate_lut_and_map().unwrap();
    assert!(lut_a.pixels == lut_b.pixels);
    assert_eq!(map_a.pixels, map_b.pixels);
    // mid grey (0x80, 0x80, 0x80) at address (0x880, 0x880) is nearest the
    // half glyph (position 2), whose two texels show the same colour; the
    // first of them paints black on white
    let at = (0x880 * 4096 + 0x880) as usize;
    assert_eq!(lut_a.pixels[at], Rgba::new(0, 1, 2, 255));
}

#[test]
fn glyph_set_and_palette_accessors() {
    let blocks = tall_blocks();
    assert_eq!((blocks.width(), blocks.height()), (1, 2));
    assert_eq!(Palette::new(vec![black(), white()]).len(), 2);
    assert!(!EngineError::Validation.message().is_empty());
    assert_ne!(EngineError::EmptyInput.message(), EngineError::CapacityExceeded.message());
}

#[test]
fn text_breaks_after_each_row() {
    let e = mono_engine();
    let img = RgbRaster { width: 2, height: 2, pixels: vec![white(), white(), black(), white()] };
    let (out, text) = e.process(&img);
    assert_eq!((out.width, out.height), (2, 4));
    let w = "\u{1b}[48;5;1;38;5;0m \u{1b}[0m";
    let b = "\u{1b}[48;5;0;38;5;0m \u{1b}[0m";
    assert_eq!(text, format!("{w}{w}\n{b}{w}\n"));
    assert_eq!(
        out.pixels,
        vec![white(), white(), white(), white(), black(), white(), black(), white()]
    );
}
