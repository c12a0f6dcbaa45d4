use hub75::ppm::Pixel;
use hub75::ppm::PpmError;
use hub75::ppm::PPM;

#[test]
fn header1() {
    let h = "P6 1024 788 255\n\x01\x02\x03\x04\x05\x06".as_bytes().to_vec();
    let ppm = PPM::from_vec(&h).unwrap();

    assert_eq!(ppm.format(), "P6");
    assert_eq!(ppm.width(), 1024);
    assert_eq!(ppm.height(), 788);
    assert_eq!(ppm.max(), 255);
    assert_eq!(ppm.pixels().len(), 2);
    assert_eq!(ppm.pixel(0, 0).unwrap(), &Pixel::new(&[1, 2, 3]));
    assert_eq!(ppm.pixel(1, 0).unwrap(), &Pixel::new(&[4, 5, 6]));
}

#[test]
fn header2() {
    let h = "P6\n\
            1024 788\n\
            # A comment\n\
            255\n\
            \x01\x02\x03\x04\x05\x06"
        .as_bytes()
        .to_vec();
    let ppm = PPM::from_vec(&h).unwrap();

    assert_eq!(ppm.format(), "P6");
    assert_eq!(ppm.width(), 1024);
    assert_eq!(ppm.height(), 788);
    assert_eq!(ppm.max(), 255);
    assert_eq!(ppm.pixels().len(), 2);
    assert_eq!(ppm.pixel(0, 0).unwrap(), &Pixel::new(&[1, 2, 3]));
    assert_eq!(ppm.pixel(1, 0).unwrap(), &Pixel::new(&[4, 5, 6]));
}

#[test]
fn header3() {
    let h = "P6\n\
             1024 # the image width\n\
             788 # the image height\n\
             # A comment\n\
             255\n\
             \x01\x02\x03\x04\x05\x06"
        .as_bytes()
        .to_vec();
    let ppm = PPM::from_vec(&h).unwrap();

    assert_eq!(ppm.format(), "P6");
    assert_eq!(ppm.width(), 1024);
    assert_eq!(ppm.height(), 788);
    assert_eq!(ppm.max(), 255);
    assert_eq!(ppm.pixels().len(), 2);
    assert_eq!(ppm.pixel(0, 0).unwrap(), &Pixel::new(&[1, 2, 3]));
    assert_eq!(ppm.pixel(1, 0).unwrap(), &Pixel::new(&[4, 5, 6]));
}

#[test]
fn square_image() {
    let h = "P6 2 2 256\n\
            \x01\x02\x03\x04\x05\x06\
            \x7a\x7b\x7c\x7d\x7e\x7f"
        .as_bytes()
        .to_vec();
    let ppm = PPM::from_vec(&h).unwrap();

    assert_eq!(ppm.width(), 2);
    assert_eq!(ppm.height(), 2);
    assert_eq!(ppm.pixel(0, 0).unwrap(), &Pixel::new(&[1, 2, 3]));
    assert_eq!(ppm.pixel(1, 0).unwrap(), &Pixel::new(&[4, 5, 6]));
    assert_eq!(ppm.pixel(0, 1).unwrap(), &Pixel::new(&[122, 123, 124]));
    assert_eq!(ppm.pixel(1, 1).unwrap(), &Pixel::new(&[125, 126, 127]));
}

#[test]
fn check_black_pixels() {
    let pixel = Pixel::new(&[0, 0, 0]);
    assert_eq!(pixel.is_black(), true);

    let pixel = Pixel::new(&[0, 0, 1]);
    assert_eq!(pixel.is_black(), false);

    let pixel = Pixel::new(&[0, 1, 0]);
    assert_eq!(pixel.is_black(), false);

    let pixel = Pixel::new(&[1, 0, 0]);
    assert_eq!(pixel.is_black(), false);
}

#[test]
fn bad_number_is_rejected() {
    let h = "P6 12x4 788 255\n\x01\x02\x03".as_bytes().to_vec();
    assert_eq!(PPM::from_vec(&h).err(), Some(PpmError::InvalidNumber));

    let h = "P6 1024 99999999999999999999999999 255\n".as_bytes().to_vec();
    assert_eq!(PPM::from_vec(&h).err(), Some(PpmError::InvalidNumber));
}

#[test]
fn truncated_samples_are_rejected() {
    let h = "P6 1 1 255\n\x01\x02".as_bytes().to_vec();
    assert_eq!(PPM::from_vec(&h).err(), Some(PpmError::TruncatedData));
}

#[test]
fn plus_prefixed_number_parses() {
    let h = "P6 +12 788 255\n".as_bytes().to_vec();
    let ppm = PPM::from_vec(&h).unwrap();
    assert_eq!(ppm.width(), 12);
    assert_eq!(ppm.pixels().len(), 0);
}

#[test]
fn incomplete_header_defaults() {
    let h = "P6 10".as_bytes().to_vec();
    let ppm = PPM::from_vec(&h).unwrap();
    assert_eq!(ppm.format(), "P6");
    assert_eq!(ppm.width(), 0);
    assert_eq!(ppm.height(), 0);
    assert_eq!(ppm.max(), 0);
    assert_eq!(ppm.pixels().len(), 0);
}

#[test]
fn empty_input_decodes_to_empty_image() {
    let ppm = PPM::from_vec(&Vec::new()).unwrap();
    assert_eq!(ppm.format(), "");
    assert_eq!(ppm.width(), 0);
    assert_eq!(ppm.height(), 0);
    assert_eq!(ppm.max(), 0);
    assert_eq!(ppm.pixels().len(), 0);
}

#[test]
fn can_load_from_file() {
    // A whole image as its raw file bytes, decoded through the library.
    let mut bytes = "P6 4 4 255\n".as_bytes().to_vec();
    bytes.extend(std::iter::repeat(0u8).take(4 * 4 * 3));
    let ppm = PPM::from_vec(&bytes).unwrap();
    assert_eq!(ppm.format(), "P6");
}

#[test]
fn pixel_lookup_is_bounds_checked() {
    let h = "P6 2 1 255\n\x01\x02\x03\x04\x05\x06".as_bytes().to_vec();
    let ppm = PPM::from_vec(&h).unwrap();
    assert!(ppm.pixel(1, 0).is_some());
    assert!(ppm.pixel(2, 0).is_none());
    assert!(ppm.pixel(0, 1).is_none());
    assert!(ppm.pixel(usize::MAX, usize::MAX).is_none());
}
