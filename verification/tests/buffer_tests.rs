use hub75::error::DriverError;
use hub75::img_buffer::Color;
use hub75::img_buffer::ImgBuffer;

#[test]
fn plane_has_fixed_dimensions() {
    let img = ImgBuffer::new();
    assert_eq!(img.cols(), 64);
    assert_eq!(img.rows(), 32);
}

#[test]
fn half_field_isolation() {
    let mut img = ImgBuffer::new();

    // Top-half write reads back exactly, bottom half untouched.
    img.set_pixel(3, 5, Color::Red).unwrap();
    let byte = img.get_display_row(5).unwrap()[3];
    assert_eq!(byte & 0b000_111, 1);
    assert_eq!(byte & 0b111_000, 0);

    // Bottom-half write to the same cell: top half keeps its color.
    img.set_pixel(3, 21, Color::Blue).unwrap();
    let byte = img.get_display_row(5).unwrap()[3];
    assert_eq!(byte & 0b000_111, 1);
    assert_eq!((byte >> 3) & 0b111, 4);
}

#[test]
fn overwrite_keeps_only_last_color() {
    let mut img = ImgBuffer::new();

    // Top half: white (all three bits) then red must leave exactly red.
    img.set_pixel(10, 2, Color::White).unwrap();
    img.set_pixel(10, 2, Color::Red).unwrap();
    assert_eq!(img.get_display_row(2).unwrap()[10], 1);

    // Bottom half: white then blue must not leak white's low bits.
    img.set_pixel(11, 20, Color::White).unwrap();
    img.set_pixel(11, 20, Color::Blue).unwrap();
    assert_eq!(img.get_display_row(4).unwrap()[11], 4 << 3);
}

#[test]
fn out_of_range_pixel_is_rejected() {
    let mut img = ImgBuffer::new();
    assert_eq!(img.set_pixel(64, 0, Color::Red), Err(DriverError::OutOfRange));
    assert_eq!(img.set_pixel(0, 32, Color::Red), Err(DriverError::OutOfRange));
    assert!(img.set_pixel(63, 31, Color::Red).is_ok());

    // The rejected writes left the plane untouched.
    for row in 0..15 {
        let data = img.get_display_row(row).unwrap();
        for col in 0..64 {
            assert_eq!(data[col], 0);
        }
    }
}

#[test]
fn display_row_is_bounds_checked() {
    let img = ImgBuffer::new();
    for row in 0..16 {
        assert_eq!(img.get_display_row(row).unwrap().len(), 64);
    }
    assert_eq!(img.get_display_row(16).err(), Some(DriverError::OutOfRange));
    assert_eq!(img.get_display_row(usize::MAX).err(), Some(DriverError::OutOfRange));
}

#[test]
fn red_and_blue_share_one_cell() {
    let mut img = ImgBuffer::new();
    img.set_pixel(0, 0, Color::Red).unwrap();
    img.set_pixel(0, 16, Color::Blue).unwrap();

    let row = img.get_display_row(0).unwrap();
    assert_eq!(row[0], 0b100_001);
    assert_eq!(row[0], 0x21);
    for col in 1..64 {
        assert_eq!(row[col], 0);
    }
}

#[test]
fn color_codes_follow_rgb_bits() {
    assert_eq!(Color::Red.code(), 1);
    assert_eq!(Color::Green.code(), 2);
    assert_eq!(Color::Yellow.code(), 3);
    assert_eq!(Color::Blue.code(), 4);
    assert_eq!(Color::Purple.code(), 5);
    assert_eq!(Color::Teal.code(), 6);
    assert_eq!(Color::White.code(), 7);
}
