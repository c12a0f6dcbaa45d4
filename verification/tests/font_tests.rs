use hub75::font::Font;
use hub75::font::FontChar;
use hub75::img_buffer::Color;
use hub75::img_buffer::ImgBuffer;
use hub75::ppm::PPM;

/// A 4-by-2 image: the left 2-by-2 block lit, the right block black.
fn test_image() -> PPM {
    let mut bytes = "P6 4 2 255\n".as_bytes().to_vec();
    for row in 0..2 {
        for col in 0..4 {
            let v = if col < 2 { 200u8 } else { 0u8 };
            let _ = row;
            bytes.extend_from_slice(&[v, v, v]);
        }
    }
    PPM::from_vec(&bytes).unwrap()
}

/// The 5-by-7 glyph patterns of 'A' and 'D', one byte per pixel.
fn glyph_a() -> Vec<u8> {
    vec![
        0, 0, 255, 0, 0, //
        0, 255, 0, 255, 0, //
        255, 0, 0, 0, 255, //
        255, 0, 0, 0, 255, //
        255, 255, 255, 255, 255, //
        255, 0, 0, 0, 255, //
        255, 0, 0, 0, 255,
    ]
}

fn glyph_d() -> Vec<u8> {
    vec![
        255, 255, 255, 255, 0, //
        0, 255, 0, 0, 255, //
        0, 255, 0, 0, 255, //
        0, 255, 0, 0, 255, //
        0, 255, 0, 0, 255, //
        0, 255, 0, 0, 255, //
        255, 255, 255, 255, 0,
    ]
}

#[test]
fn it_can_load() {
    // The font description and its image, as the files hold them, built in
    // memory: 'A' at cell (0, 0) and 'D' at cell (5, 0) of a 10-by-7 image.
    let config = toml::from_str::<toml::Value>(
        "image = \"57.ppm\"\n\
         char_width = 5\n\
         char_height = 7\n\
         [chars.A]\n\
         pos = [0, 0]\n\
         [chars.D]\n\
         pos = [5, 0]\n",
    )
    .unwrap();
    let char_width = config.get("char_width").unwrap().as_integer().unwrap() as usize;
    let char_height = config.get("char_height").unwrap().as_integer().unwrap() as usize;

    let mut image_bytes = "P6 10 7 255\n".as_bytes().to_vec();
    let a = glyph_a();
    let d = glyph_d();
    for row in 0..7 {
        for col in 0..10 {
            let v = if col < 5 { a[row * 5 + col] } else { d[row * 5 + col - 5] };
            image_bytes.extend_from_slice(&[v, v, v]);
        }
    }
    let image = PPM::from_vec(&image_bytes).unwrap();

    let mut font = Font::new();
    for (name, entry) in config.get("chars").unwrap().as_table().unwrap() {
        let pos = entry.get("pos").unwrap().as_array().unwrap();
        let x0 = pos[0].as_integer().unwrap() as usize;
        let y0 = pos[1].as_integer().unwrap() as usize;
        let c = name.chars().next().unwrap();
        font.add_glyph(c, &image, x0, y0, char_width, char_height);
    }

    let font_char = font.char(&'A').unwrap();
    assert_eq!(font.len(), 2);
    assert_eq!(font_char.width(), 5);
    assert_eq!(font_char.height(), 7);
    assert_eq!(font_char.data(), &glyph_a());

    let font_char = font.char(&'D').unwrap();
    assert_eq!(font_char.data(), &glyph_d());
}

#[test]
fn font_char_holds_its_cell() {
    let fc = FontChar::new(5, 7, vec![0, 255, 0]);
    assert_eq!(fc.width(), 5);
    assert_eq!(fc.height(), 7);
    assert_eq!(fc.data(), &vec![0, 255, 0]);
}

#[test]
fn glyphs_are_cut_from_the_image() {
    let img = test_image();
    let mut font = Font::new();
    font.add_glyph('a', &img, 0, 0, 2, 2);
    font.add_glyph('b', &img, 2, 0, 2, 2);
    assert_eq!(font.len(), 2);

    let a = font.char(&'a').unwrap();
    assert_eq!(a.width(), 2);
    assert_eq!(a.height(), 2);
    assert_eq!(a.data(), &vec![255, 255, 255, 255]);

    let b = font.char(&'b').unwrap();
    assert_eq!(b.data(), &vec![0, 0, 0, 0]);

    assert!(font.char(&'c').is_none());
}

#[test]
fn adding_a_glyph_again_replaces_it() {
    let img = test_image();
    let mut font = Font::new();
    font.add_glyph('a', &img, 0, 0, 2, 2);
    font.add_glyph('a', &img, 2, 0, 2, 2);
    assert_eq!(font.len(), 1);
    assert_eq!(font.char(&'a').unwrap().data(), &vec![0, 0, 0, 0]);
}

#[test]
fn draw_str_lights_glyph_pixels_with_spacing() {
    let img = test_image();
    let mut font = Font::new();
    font.add_glyph('x', &img, 0, 0, 2, 2);

    let mut buf = ImgBuffer::new();
    buf.draw_str("xx", &font, 0, 0, Color::Green);

    let row0 = buf.get_display_row(0).unwrap().to_vec();
    let row1 = buf.get_display_row(1).unwrap().to_vec();
    // First glyph at columns 0..2, one spacing column, second at 3..5.
    let lit = [0usize, 1, 3, 4];
    for row in [&row0, &row1] {
        for col in 0..64 {
            let expect = if lit.contains(&col) { 2 } else { 0 };
            assert_eq!(row[col], expect, "column {}", col);
        }
    }
}

#[test]
fn characters_without_glyphs_are_skipped() {
    let img = test_image();
    let mut font = Font::new();
    font.add_glyph('x', &img, 0, 0, 2, 2);

    let mut buf = ImgBuffer::new();
    buf.draw_str("qx", &font, 0, 0, Color::Red);

    // 'q' has no glyph and advances nothing: 'x' lands at column 0.
    let row0 = buf.get_display_row(0).unwrap().to_vec();
    assert_eq!(row0[0], 1);
    assert_eq!(row0[1], 1);
    assert_eq!(row0[2], 0);
}
