use hub75::error::DriverError;
use hub75::hub75::Hub75Panel;
use hub75::hub75::Hub75PinNums;
use hub75::img_buffer::Color;
use hub75::img_buffer::ImgBuffer;

fn panel_64x32() -> Hub75Panel {
    Hub75Panel::detached(64, 32, 4).unwrap()
}

#[test]
fn address_lines_follow_row_bits() {
    let mut panel = panel_64x32();
    // Representative rows across the full address width, including all-low
    // and all-high.
    for &row in &[0usize, 1, 2, 5, 8, 10, 15] {
        panel.select_row(row);
        let levels = panel.address_levels();
        assert_eq!(levels.len(), 4);
        for i in 0..4 {
            assert_eq!(levels[i], (row >> i) & 1 == 1, "row {} line {}", row, i);
        }
    }
}

#[test]
fn active_row_cycles_once_per_pass() {
    let mut panel = panel_64x32();
    let img = ImgBuffer::new();
    let mut seen = [false; 16];

    for _ in 0..16 {
        let row = panel.active_row();
        assert!(row < 16);
        assert!(!seen[row], "row {} scanned twice in one pass", row);
        seen[row] = true;
        panel.strobe_row(&img);
    }
    assert!(seen.iter().all(|&s| s));
    // After one full pass the cursor is back where it started.
    assert_eq!(panel.active_row(), 0);

    // The next pass repeats the same cycle.
    for expect in 1..16 {
        panel.strobe_row(&img);
        assert_eq!(panel.active_row(), expect);
    }
}

#[test]
fn strobe_addresses_the_scanned_row_and_unblanks() {
    let mut panel = panel_64x32();
    let mut img = ImgBuffer::new();
    img.set_pixel(0, 3, Color::Red).unwrap();

    panel.strobe_row(&img); // scans address row 0
    panel.strobe_row(&img); // scans address row 1
    panel.strobe_row(&img); // scans address row 2

    // The address lines hold the row scanned last (binary 2), and the
    // panel ends the call unblanked.
    let levels = panel.address_levels();
    assert_eq!(levels, vec![false, true, false, false]);
    assert!(!panel.output_enabled_high());
    assert_eq!(panel.active_row(), 3);
}

#[test]
fn blank_drops_all_address_lines() {
    let mut panel = panel_64x32();
    panel.select_row(15);
    assert!(panel.address_levels().iter().all(|&l| l));

    panel.blank();
    assert!(panel.address_levels().iter().all(|&l| !l));
    assert!(!panel.output_enabled_high());
}

#[test]
fn test_pattern_selects_last_row() {
    let mut panel = panel_64x32();
    panel.test();
    // The last latched row is address 15: all four lines high.
    assert!(panel.address_levels().iter().all(|&l| l));
    assert!(!panel.output_enabled_high());
    assert_eq!(panel.active_row(), 0);
}

#[test]
fn too_few_address_lines_is_a_configuration_error() {
    // 16 address rows cannot be encoded on 3 lines.
    assert_eq!(Hub75Panel::detached(64, 32, 3).err(), Some(DriverError::Configuration));
    // An odd or zero row count is rejected too.
    assert_eq!(Hub75Panel::detached(64, 31, 4).err(), Some(DriverError::Configuration));
    assert_eq!(Hub75Panel::detached(0, 32, 4).err(), Some(DriverError::Configuration));
}

#[test]
fn duplicate_pin_numbers_are_a_configuration_error() {
    let nums = Hub75PinNums {
        lines: vec![22, 26, 27, 20],
        r0: 5,
        g0: 13,
        b0: 6,
        r1: 12,
        g1: 16,
        b1: 23,
        clk: 17,
        lat: 21,
        oe: 5, // collides with r0
    };
    assert_eq!(Hub75Panel::new(64, 32, nums).err(), Some(DriverError::Configuration));
}
