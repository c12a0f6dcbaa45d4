//! The panel driver: row address/scan state machine and bit-banging protocol.
//!
//! A scan call shifts one address row of encoded pixel data into the panel's
//! shift register, one clock edge per column, then blanks the panel, latches
//! the shifted row into the output register, drives the binary row address
//! onto the address lines, and unblanks. The driver owns its pins
//! exclusively for its lifetime.
//!
//! The two panel registers cannot be read back over the wire, so the driver
//! carries a ghost model of them: `shift` is the whole history of column
//! values committed by clock edges, of which the physical shift register
//! holds the last `cols` (older bits fall off the far end); `output` is what
//! the last latch pulse committed. Every pin write goes through [`OutPin`],
//! whose shadow level mirrors the line, so the model is maintained by
//! verified code and only the single pin write itself is trusted.

use vstd::prelude::*;

use crate::error::DriverError;
use crate::img_buffer::ImgBuffer;

verus! {

#[verifier::external_type_specification]
#[verifier::external_body]
pub struct ExGpio(rppal::gpio::Gpio);

#[verifier::external_type_specification]
#[verifier::external_body]
pub struct ExPin(rppal::gpio::Pin);

#[verifier::external_type_specification]
#[verifier::external_body]
pub struct ExOutputPin(rppal::gpio::OutputPin);

#[verifier::external_type_specification]
#[verifier::external_body]
pub struct ExGpioError(rppal::gpio::Error);

/// Relies on rppal's `Gpio::new`: opens the GPIO peripheral, failing where
/// the device or its memory interface is unavailable.
#[verifier::external_body]
fn gpio_open() -> (r: Result<rppal::gpio::Gpio, rppal::gpio::Error>) {
    rppal::gpio::Gpio::new()
}

/// Relies on rppal's `Gpio::get`: claims the BCM pin with the given number,
/// failing where the pin does not exist or is already in use.
#[verifier::external_body]
fn gpio_get(gpio: &rppal::gpio::Gpio, num: u8) -> (r: Result<
    rppal::gpio::Pin,
    rppal::gpio::Error,
>) {
    gpio.get(num)
}

/// Relies on rppal's `Pin::into_output_low`: drives the pin low, then puts
/// it in output mode.
#[verifier::external_body]
fn pin_into_output_low(pin: rppal::gpio::Pin) -> (r: rppal::gpio::OutputPin) {
    pin.into_output_low()
}

/// Relies on rppal's `OutputPin::write`: drives the pin to the given logic
/// level, immediately and unbuffered.
#[verifier::external_body]
fn gpio_write(pin: &mut rppal::gpio::OutputPin, high: bool) {
    pin.write(rppal::gpio::Level::from(high));
}

/// One digital output capability: a single addressable line with a shadow
/// of the level most recently driven onto it, optionally wired to a
/// physical GPIO pin whose BCM number the ghost `bcm` records. A detached
/// capability behaves identically minus the electrical effect, which lets
/// the scan logic run off the target device.
pub struct OutPin {
    hw: Option<rppal::gpio::OutputPin>,
    level: bool,
    bcm: Ghost<u8>,
}

impl OutPin {
    /// The logic level most recently driven onto the line (low initially).
    pub closed spec fn spec_level(&self) -> bool {
        self.level
    }

    /// The BCM number of the physical pin this line drives (0 for a
    /// detached line, which drives none).
    pub closed spec fn spec_bcm(&self) -> u8 {
        self.bcm@
    }

    /// A capability that drives no physical pin, starting low.
    pub fn detached() -> (r: OutPin)
        ensures
            r.spec_level() == false,
            r.spec_bcm() == 0,
    {
        OutPin { hw: None, level: false, bcm: Ghost(0) }
    }

    /// Wraps a physical pin, claimed under BCM number `num`, that has just
    /// been driven low.
    fn wired(hw: rppal::gpio::OutputPin, num: u8) -> (r: OutPin)
        ensures
            r.spec_level() == false,
            r.spec_bcm() == num,
    {
        OutPin { hw: Some(hw), level: false, bcm: Ghost(num) }
    }

    /// Drives the line high (`true`) or low (`false`), synchronously.
    pub fn drive(&mut self, high: bool)
        ensures
            final(self).spec_level() == high,
            final(self).spec_bcm() == old(self).spec_bcm(),
    {
        match &mut self.hw {
            Some(p) => gpio_write(p, high),
            None => {},
        }
        self.level = high;
    }

    /// Returns the level most recently driven onto the line.
    pub fn level(&self) -> (r: bool)
        ensures
            r == self.spec_level(),
    {
        self.level
    }
}

/// The BCM pin numbers a panel is wired to: the row-address lines, the two
/// R/G/B data pin triples (top half and bottom half), clock, latch and
/// output-enable.
pub struct Hub75PinNums {
    pub lines: Vec<u8>,
    pub r0: u8,
    pub g0: u8,
    pub b0: u8,
    pub r1: u8,
    pub g1: u8,
    pub b1: u8,
    pub clk: u8,
    pub lat: u8,
    pub oe: u8,
}

impl Hub75PinNums {
    /// Every configured pin number, in a fixed order.
    pub open spec fn spec_all_nums(&self) -> Seq<u8> {
        self.lines@ + seq![
            self.r0,
            self.g0,
            self.b0,
            self.r1,
            self.g1,
            self.b1,
            self.clk,
            self.lat,
            self.oe,
        ]
    }
}

/// No pin number occurs twice in the assignment.
pub open spec fn distinct_pins(s: Seq<u8>) -> bool {
    forall|i: int, j: int| 0 <= i < j < s.len() ==> s[i] != s[j]
}

/// Returns whether no pin number occurs twice in `v`.
fn all_distinct(v: &Vec<u8>) -> (r: bool)
    ensures
        r == distinct_pins(v@),
{
    let mut i: usize = 0;
    while i < v.len()
        invariant
            i <= v@.len(),
            forall|a: int, b: int| 0 <= a < b < v@.len() && a < i ==> v@[a] != v@[b],
        decreases v@.len() - i,
    {
        let mut j: usize = i + 1;
        while j < v.len()
            invariant
                i < v@.len(),
                i < j <= v@.len() + 1,
                forall|b: int| i < b < j ==> v@[i as int] != v@[b],
            decreases v@.len() + 1 - j,
        {
            if v[i] == v[j] {
                return false;
            }
            j += 1;
        }
        i += 1;
    }
    true
}

/// The claimed pin set of a panel, each line behind an [`OutPin`].
pub struct Hub75Pins {
    pub lines: Vec<OutPin>,
    pub r0: OutPin,
    pub g0: OutPin,
    pub b0: OutPin,
    pub r1: OutPin,
    pub g1: OutPin,
    pub b1: OutPin,
    pub clk: OutPin,
    pub lat: OutPin,
    pub oe: OutPin,
}

/// Claims one BCM pin as a low output line.
fn claim_output(gpio: &rppal::gpio::Gpio, num: u8) -> (r: Result<OutPin, DriverError>)
    ensures
        r matches Ok(p) ==> p.spec_level() == false && p.spec_bcm() == num,
        r matches Err(e) ==> e == DriverError::Configuration,
{
    match gpio_get(gpio, num) {
        Ok(p) => Ok(OutPin::wired(pin_into_output_low(p), num)),
        Err(_) => Err(DriverError::Configuration),
    }
}

impl Hub75Pins {
    /// True when every line of the set currently sits low.
    pub open spec fn all_low(&self) -> bool {
        &&& forall|i: int| 0 <= i < self.lines@.len() ==> self.lines@[i].spec_level() == false
        &&& self.r0.spec_level() == false
        &&& self.g0.spec_level() == false
        &&& self.b0.spec_level() == false
        &&& self.r1.spec_level() == false
        &&& self.g1.spec_level() == false
        &&& self.b1.spec_level() == false
        &&& self.clk.spec_level() == false
        &&& self.lat.spec_level() == false
        &&& self.oe.spec_level() == false
    }

    /// True when each line of the set drives exactly the BCM pin that the
    /// assignment names for it, position by position.
    pub open spec fn wired_to(&self, nums: &Hub75PinNums) -> bool {
        &&& self.lines@.len() == nums.lines@.len()
        &&& forall|i: int|
            0 <= i < self.lines@.len() ==> (#[trigger] self.lines@[i]).spec_bcm()
                == nums.lines@[i]
        &&& self.r0.spec_bcm() == nums.r0
        &&& self.g0.spec_bcm() == nums.g0
        &&& self.b0.spec_bcm() == nums.b0
        &&& self.r1.spec_bcm() == nums.r1
        &&& self.g1.spec_bcm() == nums.g1
        &&& self.b1.spec_bcm() == nums.b1
        &&& self.clk.spec_bcm() == nums.clk
        &&& self.lat.spec_bcm() == nums.lat
        &&& self.oe.spec_bcm() == nums.oe
    }

    /// Claims every configured pin as a low output line. A duplicate pin
    /// number, an unavailable pin, or an unreachable GPIO peripheral is a
    /// configuration error; on success every claimed line sits low and
    /// drives the BCM pin the assignment names for it.
    pub fn from_pin_nums(nums: &Hub75PinNums) -> (r: Result<Hub75Pins, DriverError>)
        ensures
            r matches Ok(p) ==> {
                &&& p.lines@.len() == nums.lines@.len()
                &&& p.all_low()
                &&& p.wired_to(nums)
                &&& distinct_pins(nums.spec_all_nums())
            },
            r matches Err(e) ==> e == DriverError::Configuration,
            !distinct_pins(nums.spec_all_nums()) ==> r is Err,
    {
        let mut all: Vec<u8> = Vec::new();
        let mut i: usize = 0;
        while i < nums.lines.len()
            invariant
                i <= nums.lines@.len(),
                all@ == nums.lines@.take(i as int),
            decreases nums.lines@.len() - i,
        {
            all.push(nums.lines[i]);
            i += 1;
        }
        proof {
            assert(all@ =~= nums.lines@);
        }
        all.push(nums.r0);
        all.push(nums.g0);
        all.push(nums.b0);
        all.push(nums.r1);
        all.push(nums.g1);
        all.push(nums.b1);
        all.push(nums.clk);
        all.push(nums.lat);
        all.push(nums.oe);
        proof {
            assert(all@ =~= nums.spec_all_nums());
        }
        if !all_distinct(&all) {
            return Err(DriverError::Configuration);
        }
        let gpio = match gpio_open() {
            Ok(g) => g,
            Err(_) => {
                return Err(DriverError::Configuration);
            },
        };
        let mut lines: Vec<OutPin> = Vec::new();
        let mut k: usize = 0;
        while k < nums.lines.len()
            invariant
                k <= nums.lines@.len(),
                lines@.len() == k,
                forall|j: int| 0 <= j < k ==> lines@[j].spec_level() == false,
                forall|j: int| 0 <= j < k ==> (#[trigger] lines@[j]).spec_bcm() == nums.lines@[j],
            decreases nums.lines@.len() - k,
        {
            match claim_output(&gpio, nums.lines[k]) {
                Ok(p) => lines.push(p),
                Err(e) => {
                    return Err(e);
                },
            }
            k += 1;
        }
        let r0 = match claim_output(&gpio, nums.r0) {
            Ok(p) => p,
            Err(e) => {
                return Err(e);
            },
        };
        let g0 = match claim_output(&gpio, nums.g0) {
            Ok(p) => p,
            Err(e) => {
                return Err(e);
            },
        };
        let b0 = match claim_output(&gpio, nums.b0) {
            Ok(p) => p,
            Err(e) => {
                return Err(e);
            },
        };
        let r1 = match claim_output(&gpio, nums.r1) {
            Ok(p) => p,
            Err(e) => {
                return Err(e);
            },
        };
        let g1 = match claim_output(&gpio, nums.g1) {
            Ok(p) => p,
            Err(e) => {
                return Err(e);
            },
        };
        let b1 = match claim_output(&gpio, nums.b1) {
            Ok(p) => p,
            Err(e) => {
                return Err(e);
            },
        };
        let clk = match claim_output(&gpio, nums.clk) {
            Ok(p) => p,
            Err(e) => {
                return Err(e);
            },
        };
        let lat = match claim_output(&gpio, nums.lat) {
            Ok(p) => p,
            Err(e) => {
                return Err(e);
            },
        };
        let oe = match claim_output(&gpio, nums.oe) {
            Ok(p) => p,
            Err(e) => {
                return Err(e);
            },
        };
        Ok(Hub75Pins { lines, r0, g0, b0, r1, g1, b1, clk, lat, oe })
    }
}

/// The six color data levels assembled into the bit layout of a cell byte:
/// bit 0 is top red, bit 1 top green, bit 2 top blue, bits 3–5 the same for
/// the bottom half.
pub open spec fn color_bits(r0: bool, g0: bool, b0: bool, r1: bool, g1: bool, b1: bool) -> u8 {
    (if r0 {
        1u8
    } else {
        0u8
    }) | (if g0 {
        2u8
    } else {
        0u8
    }) | (if b0 {
        4u8
    } else {
        0u8
    }) | (if r1 {
        8u8
    } else {
        0u8
    }) | (if g1 {
        16u8
    } else {
        0u8
    }) | (if b1 {
        32u8
    } else {
        0u8
    })
}

/// Whether bit `i` of the row address `row` is set: the level that address
/// line `i` must be driven to in order to select `row`.
pub open spec fn addr_bit(row: usize, i: int) -> bool {
    (row >> (i as usize)) & 1 == 1
}

/// What a latch pulse commits to the output register: the last `cols`
/// column values clocked into the shift register (or all of them, while
/// fewer than `cols` have ever been clocked in).
pub open spec fn latched(shift: Seq<u8>, cols: int) -> Seq<u8> {
    if shift.len() >= cols {
        shift.subrange(shift.len() - cols, shift.len() as int)
    } else {
        shift
    }
}

/// The low six bits of each cell byte of address row `row`: the column
/// values that a scan of that row commits to the shift register.
pub open spec fn spec_row_bits(plane: Seq<u8>, cols: int, row: int) -> Seq<u8> {
    Seq::new(cols as nat, |j: int| (plane[row * cols + j] & 0x3f) as u8)
}

/// A geometry the driver can serve: a positive even row count, at least one
/// column, and enough address lines to encode every address row, with the
/// line count itself bounded.
pub open spec fn valid_geometry(cols: usize, rows: usize, nlines: int) -> bool {
    &&& cols >= 1
    &&& rows >= 2
    &&& rows % 2 == 0
    &&& 0 <= nlines <= 16
    &&& rows / 2 <= (1usize << (nlines as usize))
}

/// The panel driver: owns the claimed pin set and the active-row cursor,
/// and converts frame-buffer rows into pin toggles.
///
/// Besides the two register models, the driver carries a ghost smear
/// flag, `clean`: it holds as long as, since construction or the last
/// [`Self::blank`], every latch pulse and every address-line change
/// happened while the panel was blanked (output-enable high). The scan
/// methods state that they keep it, which pins down the ordering of the
/// protocol — blank, then latch, then address, then unblank — that keeps
/// old and new row data from ever showing together.
pub struct Hub75Panel {
    cols: usize,
    rows: usize,
    pins: Hub75Pins,
    active_row: usize,
    shift: Ghost<Seq<u8>>,
    output: Ghost<Seq<u8>>,
    clean: Ghost<bool>,
}

impl Hub75Panel {
    /// The configured number of columns.
    pub closed spec fn spec_cols(&self) -> usize {
        self.cols
    }

    /// The configured number of rows.
    pub closed spec fn spec_rows(&self) -> usize {
        self.rows
    }

    /// The row-address cursor: the address most recently driven onto the
    /// address lines, and the row whose data the next scan call shifts in.
    pub closed spec fn spec_active_row(&self) -> usize {
        self.active_row
    }

    /// The levels of the row-address lines, least significant first.
    pub closed spec fn addr_levels(&self) -> Seq<bool> {
        self.pins.lines@.map_values(|p: OutPin| p.spec_level())
    }

    /// The levels of the six color data lines, in cell-byte bit order:
    /// top R/G/B, then bottom R/G/B.
    pub closed spec fn data_levels(&self) -> (bool, bool, bool, bool, bool, bool) {
        (
            self.pins.r0.spec_level(),
            self.pins.g0.spec_level(),
            self.pins.b0.spec_level(),
            self.pins.r1.spec_level(),
            self.pins.g1.spec_level(),
            self.pins.b1.spec_level(),
        )
    }

    /// The six color data levels, assembled as in a cell byte.
    pub open spec fn data_bits(&self) -> u8 {
        color_bits(
            self.data_levels().0,
            self.data_levels().1,
            self.data_levels().2,
            self.data_levels().3,
            self.data_levels().4,
            self.data_levels().5,
        )
    }

    /// The level of the shift-register clock line.
    pub closed spec fn clk_high(&self) -> bool {
        self.pins.clk.spec_level()
    }

    /// The level of the latch line.
    pub closed spec fn lat_high(&self) -> bool {
        self.pins.lat.spec_level()
    }

    /// The level of the output-enable line (high blanks the panel during
    /// the latch-and-address update).
    pub closed spec fn oe_high(&self) -> bool {
        self.pins.oe.spec_level()
    }

    /// The model of the shift register: every column value committed by a
    /// clock edge, oldest first; the physical register holds the last
    /// `cols` of them.
    pub closed spec fn shift_reg(&self) -> Seq<u8> {
        self.shift@
    }

    /// The model of the output register: what the last latch pulse
    /// committed, and therefore what the panel displays while unblanked.
    pub closed spec fn output_reg(&self) -> Seq<u8> {
        self.output@
    }

    /// True as long as, since construction or the last [`Self::blank`],
    /// every latch pulse and every address-line change happened while the
    /// panel was blanked: the displayed picture never mixed old and new
    /// row data.
    pub closed spec fn smear_free(&self) -> bool {
        self.clean@
    }

    /// The BCM numbers of the address lines, least significant first.
    pub closed spec fn line_nums(&self) -> Seq<u8> {
        self.pins.lines@.map_values(|p: OutPin| p.spec_bcm())
    }

    /// The BCM numbers of the six color data lines, in cell-byte bit
    /// order.
    pub closed spec fn data_pin_nums(&self) -> (u8, u8, u8, u8, u8, u8) {
        (
            self.pins.r0.spec_bcm(),
            self.pins.g0.spec_bcm(),
            self.pins.b0.spec_bcm(),
            self.pins.r1.spec_bcm(),
            self.pins.g1.spec_bcm(),
            self.pins.b1.spec_bcm(),
        )
    }

    /// The BCM numbers of the clock, latch and output-enable lines.
    pub closed spec fn ctrl_pin_nums(&self) -> (u8, u8, u8) {
        (self.pins.clk.spec_bcm(), self.pins.lat.spec_bcm(), self.pins.oe.spec_bcm())
    }

    /// The structural invariant: a valid geometry, an in-range cursor.
    pub open spec fn wf(&self) -> bool {
        &&& valid_geometry(self.spec_cols(), self.spec_rows(), self.addr_levels().len() as int)
        &&& self.spec_active_row() < self.spec_rows() / 2
    }

    /// Builds a driver over the given pin assignment with the cursor on
    /// address row 0 and every line low, each line driving the BCM pin the
    /// assignment names for it. An invalid geometry, a duplicate pin, or
    /// an unavailable GPIO peripheral is a configuration error.
    pub fn new(cols: usize, rows: usize, pins: Hub75PinNums) -> (r: Result<
        Hub75Panel,
        DriverError,
    >)
        ensures
            r matches Ok(p) ==> {
                &&& p.wf()
                &&& p.spec_cols() == cols
                &&& p.spec_rows() == rows
                &&& p.spec_active_row() == 0
                &&& p.addr_levels().len() == pins.lines@.len()
                &&& p.addr_levels() == Seq::new(pins.lines@.len(), |i: int| false)
                &&& !p.clk_high() && !p.lat_high() && !p.oe_high()
                &&& p.data_bits() == 0
                &&& p.smear_free()
                &&& p.line_nums() == pins.lines@
                &&& p.data_pin_nums() == (pins.r0, pins.g0, pins.b0, pins.r1, pins.g1, pins.b1)
                &&& p.ctrl_pin_nums() == (pins.clk, pins.lat, pins.oe)
                &&& distinct_pins(pins.spec_all_nums())
                &&& valid_geometry(cols, rows, pins.lines@.len() as int)
            },
            r matches Err(e) ==> e == DriverError::Configuration,
            !valid_geometry(cols, rows, pins.lines@.len() as int) ==> r is Err,
            !distinct_pins(pins.spec_all_nums()) ==> r is Err,
    {
        if !(cols >= 1 && rows >= 2 && rows % 2 == 0 && pins.lines.len() <= 16 && rows / 2 <= (
        1usize << pins.lines.len())) {
            return Err(DriverError::Configuration);
        }
        let claimed = match Hub75Pins::from_pin_nums(&pins) {
            Ok(c) => c,
            Err(e) => {
                return Err(e);
            },
        };
        let panel = Hub75Panel {
            cols,
            rows,
            pins: claimed,
            active_row: 0,
            shift: Ghost(Seq::empty()),
            output: Ghost(Seq::empty()),
            clean: Ghost(true),
        };
        proof {
            assert(panel.addr_levels() =~= Seq::new(pins.lines@.len(), |i: int| false));
            assert(panel.line_nums() =~= pins.lines@);
            assert(0u8 | 0u8 | 0u8 | 0u8 | 0u8 | 0u8 == 0u8) by (bit_vector);
            assert(panel.data_bits() == 0);
        }
        Ok(panel)
    }

    /// Builds a driver whose lines drive no physical pins, with the given
    /// number of address lines: the scan state machine runs exactly as on
    /// hardware, minus the electrical effect. Nothing outside the library
    /// is involved, so exactly the invalid geometries are rejected, as a
    /// configuration error.
    pub fn detached(cols: usize, rows: usize, line_count: usize) -> (r: Result<
        Hub75Panel,
        DriverError,
    >)
        ensures
            r is Ok <==> valid_geometry(cols, rows, line_count as int),
            r matches Ok(p) ==> {
                &&& p.wf()
                &&& p.spec_cols() == cols
                &&& p.spec_rows() == rows
                &&& p.spec_active_row() == 0
                &&& p.addr_levels().len() == line_count
                &&& p.addr_levels() == Seq::new(line_count as nat, |i: int| false)
                &&& !p.clk_high() && !p.lat_high() && !p.oe_high()
                &&& p.data_bits() == 0
                &&& p.smear_free()
            },
            r matches Err(e) ==> e == DriverError::Configuration,
    {
        if !(cols >= 1 && rows >= 2 && rows % 2 == 0 && line_count <= 16 && rows / 2 <= (1usize
            << line_count)) {
            return Err(DriverError::Configuration);
        }
        let mut lines: Vec<OutPin> = Vec::new();
        let mut i: usize = 0;
        while i < line_count
            invariant
                i <= line_count,
                lines@.len() == i,
                forall|j: int| 0 <= j < i ==> lines@[j].spec_level() == false,
            decreases line_count - i,
        {
            lines.push(OutPin::detached());
            i += 1;
        }
        let pins = Hub75Pins {
            lines,
            r0: OutPin::detached(),
            g0: OutPin::detached(),
            b0: OutPin::detached(),
            r1: OutPin::detached(),
            g1: OutPin::detached(),
            b1: OutPin::detached(),
            clk: OutPin::detached(),
            lat: OutPin::detached(),
            oe: OutPin::detached(),
        };
        let panel = Hub75Panel {
            cols,
            rows,
            pins,
            active_row: 0,
            shift: Ghost(Seq::empty()),
            output: Ghost(Seq::empty()),
            clean: Ghost(true),
        };
        proof {
            assert(panel.addr_levels() =~= Seq::new(line_count as nat, |i: int| false));
            assert(0u8 | 0u8 | 0u8 | 0u8 | 0u8 | 0u8 == 0u8) by (bit_vector);
            assert(panel.data_bits() == 0);
        }
        Ok(panel)
    }

    /// Drives the address lines to the binary encoding of `row`: line `i`
    /// goes high iff bit `i` of `row` is set. Nothing else changes. The
    /// smear flag survives only where the panel is blanked during the
    /// change, as the scan protocol demands.
    pub fn select_row(&mut self, row: usize)
        requires
            old(self).addr_levels().len() <= 16,
        ensures
            final(self).addr_levels().len() == old(self).addr_levels().len(),
            forall|i: int|
                0 <= i < final(self).addr_levels().len() ==> final(self).addr_levels()[i]
                    == addr_bit(row, i),
            final(self).smear_free() == (old(self).smear_free() && old(self).oe_high()),
            final(self).spec_cols() == old(self).spec_cols(),
            final(self).spec_rows() == old(self).spec_rows(),
            final(self).spec_active_row() == old(self).spec_active_row(),
            final(self).data_levels() == old(self).data_levels(),
            final(self).clk_high() == old(self).clk_high(),
            final(self).lat_high() == old(self).lat_high(),
            final(self).oe_high() == old(self).oe_high(),
            final(self).shift_reg() == old(self).shift_reg(),
            final(self).output_reg() == old(self).output_reg(),
            final(self).line_nums() == old(self).line_nums(),
            final(self).data_pin_nums() == old(self).data_pin_nums(),
            final(self).ctrl_pin_nums() == old(self).ctrl_pin_nums(),
    {
        let ghost still_clean = self.clean@ && self.pins.oe.spec_level();
        self.clean = Ghost(still_clean);
        let n = self.pins.lines.len();
        let mut i: usize = 0;
        while i < n
            invariant
                n == self.pins.lines@.len(),
                n <= 16,
                i <= n,
                forall|j: int| 0 <= j < i ==> self.addr_levels()[j] == addr_bit(row, j),
                forall|j: int|
                    i <= j < n ==> self.addr_levels()[j] == old(self).addr_levels()[j],
                self.smear_free() == (old(self).smear_free() && old(self).oe_high()),
                self.spec_cols() == old(self).spec_cols(),
                self.spec_rows() == old(self).spec_rows(),
                self.spec_active_row() == old(self).spec_active_row(),
                self.data_levels() == old(self).data_levels(),
                self.clk_high() == old(self).clk_high(),
                self.lat_high() == old(self).lat_high(),
                self.oe_high() == old(self).oe_high(),
                self.shift_reg() == old(self).shift_reg(),
                self.output_reg() == old(self).output_reg(),
                self.line_nums() == old(self).line_nums(),
                self.data_pin_nums() == old(self).data_pin_nums(),
                self.ctrl_pin_nums() == old(self).ctrl_pin_nums(),
            decreases n - i,
        {
            let high = (row >> i) & 1 == 1;
            let ghost head = *self;
            let line = &mut self.pins.lines[i];
            line.drive(high);
            proof {
                assert forall|j: int| 0 <= j < n implies self.line_nums()[j]
                    == head.line_nums()[j] by {
                    if j != i {
                        assert(self.pins.lines@[j] == head.pins.lines@[j]);
                    }
                }
                assert(self.line_nums() =~= head.line_nums());
            }
            i += 1;
        }
    }

    /// Pulses the shift-register clock high then low: one clock edge, which
    /// commits the current data levels as the next column value.
    pub fn clock(&mut self)
        ensures
            final(self).shift_reg() == old(self).shift_reg().push(old(self).data_bits()),
            final(self).clk_high() == false,
            final(self).addr_levels() == old(self).addr_levels(),
            final(self).spec_cols() == old(self).spec_cols(),
            final(self).spec_rows() == old(self).spec_rows(),
            final(self).spec_active_row() == old(self).spec_active_row(),
            final(self).data_levels() == old(self).data_levels(),
            final(self).lat_high() == old(self).lat_high(),
            final(self).oe_high() == old(self).oe_high(),
            final(self).output_reg() == old(self).output_reg(),
            final(self).smear_free() == old(self).smear_free(),
            final(self).line_nums() == old(self).line_nums(),
            final(self).data_pin_nums() == old(self).data_pin_nums(),
            final(self).ctrl_pin_nums() == old(self).ctrl_pin_nums(),
    {
        self.pins.clk.drive(true);
        self.shift = Ghost(self.shift@.push(self.data_bits()));
        self.pins.clk.drive(false);
    }

    /// Pulses the latch line high then low: commits the last `cols` shifted
    /// column values into the output register. The smear flag survives
    /// only where the panel is blanked during the pulse, as the scan
    /// protocol demands.
    pub fn latch(&mut self)
        ensures
            final(self).output_reg() == latched(
                old(self).shift_reg(),
                old(self).spec_cols() as int,
            ),
            final(self).lat_high() == false,
            final(self).smear_free() == (old(self).smear_free() && old(self).oe_high()),
            final(self).shift_reg() == old(self).shift_reg(),
            final(self).addr_levels() == old(self).addr_levels(),
            final(self).spec_cols() == old(self).spec_cols(),
            final(self).spec_rows() == old(self).spec_rows(),
            final(self).spec_active_row() == old(self).spec_active_row(),
            final(self).data_levels() == old(self).data_levels(),
            final(self).clk_high() == old(self).clk_high(),
            final(self).oe_high() == old(self).oe_high(),
            final(self).line_nums() == old(self).line_nums(),
            final(self).data_pin_nums() == old(self).data_pin_nums(),
            final(self).ctrl_pin_nums() == old(self).ctrl_pin_nums(),
    {
        let ghost still_clean = self.clean@ && self.pins.oe.spec_level();
        self.clean = Ghost(still_clean);
        self.pins.lat.drive(true);
        self.output = Ghost(latched(self.shift@, self.cols as int));
        self.pins.lat.drive(false);
    }

    /// Drives every address line and output-enable low: the panel shows
    /// nothing, whatever the registers hold. Used at startup and shutdown
    /// so stale register contents are never displayed. Being the
    /// sanctioned way to darken the panel, it also resets the smear flag.
    pub fn blank(&mut self)
        ensures
            final(self).addr_levels().len() == old(self).addr_levels().len(),
            forall|i: int|
                0 <= i < final(self).addr_levels().len() ==> final(self).addr_levels()[i] == false,
            final(self).oe_high() == false,
            final(self).smear_free() == true,
            final(self).spec_cols() == old(self).spec_cols(),
            final(self).spec_rows() == old(self).spec_rows(),
            final(self).spec_active_row() == old(self).spec_active_row(),
            final(self).data_levels() == old(self).data_levels(),
            final(self).clk_high() == old(self).clk_high(),
            final(self).lat_high() == old(self).lat_high(),
            final(self).shift_reg() == old(self).shift_reg(),
            final(self).output_reg() == old(self).output_reg(),
            final(self).line_nums() == old(self).line_nums(),
            final(self).data_pin_nums() == old(self).data_pin_nums(),
            final(self).ctrl_pin_nums() == old(self).ctrl_pin_nums(),
    {
        let n = self.pins.lines.len();
        let mut i: usize = 0;
        while i < n
            invariant
                n == self.pins.lines@.len(),
                i <= n,
                old(self).addr_levels().len() == n,
                forall|j: int| 0 <= j < i ==> self.addr_levels()[j] == false,
                forall|j: int| i <= j < n ==> self.addr_levels()[j] == old(self).addr_levels()[j],
                self.spec_cols() == old(self).spec_cols(),
                self.spec_rows() == old(self).spec_rows(),
                self.spec_active_row() == old(self).spec_active_row(),
                self.data_levels() == old(self).data_levels(),
                self.clk_high() == old(self).clk_high(),
                self.lat_high() == old(self).lat_high(),
                self.oe_high() == old(self).oe_high(),
                self.shift_reg() == old(self).shift_reg(),
                self.output_reg() == old(self).output_reg(),
                self.line_nums() == old(self).line_nums(),
                self.data_pin_nums() == old(self).data_pin_nums(),
                self.ctrl_pin_nums() == old(self).ctrl_pin_nums(),
            decreases n - i,
        {
            let ghost head = *self;
            let line = &mut self.pins.lines[i];
            line.drive(false);
            proof {
                assert forall|j: int| 0 <= j < i + 1 implies self.addr_levels()[j] == false by {
                    if j < i {
                        assert(head.addr_levels()[j] == false);
                        assert(self.pins.lines@[j] == head.pins.lines@[j]);
                    }
                }
                assert forall|j: int| 0 <= j < n implies self.line_nums()[j]
                    == head.line_nums()[j] by {
                    if j != i {
                        assert(self.pins.lines@[j] == head.pins.lines@[j]);
                    }
                }
                assert(self.line_nums() =~= head.line_nums());
            }
            i += 1;
        }
        let ghost scanned_low = *self;
        self.pins.oe.drive(false);
        self.clean = Ghost(true);
        proof {
            assert(self.pins.lines@ == scanned_low.pins.lines@);
            assert forall|j: int|
                0 <= j < self.addr_levels().len() implies self.addr_levels()[j] == false by {
                assert(scanned_low.addr_levels()[j] == false);
            }
        }
    }

    /// Drives the six color data lines from one cell byte: bits 0–2 to the
    /// top-half R/G/B pins, bits 3–5 to the bottom-half pins. The lines are
    /// set before any clock edge, so the next [`Self::clock`] call commits
    /// exactly these levels.
    fn set_pins_for_byte(&mut self, byte: u8)
        ensures
            final(self).data_levels() == (
                byte & 1 != 0,
                byte & 2 != 0,
                byte & 4 != 0,
                byte & 8 != 0,
                byte & 16 != 0,
                byte & 32 != 0,
            ),
            final(self).data_bits() == byte & 0x3f,
            final(self).addr_levels() == old(self).addr_levels(),
            final(self).spec_cols() == old(self).spec_cols(),
            final(self).spec_rows() == old(self).spec_rows(),
            final(self).spec_active_row() == old(self).spec_active_row(),
            final(self).clk_high() == old(self).clk_high(),
            final(self).lat_high() == old(self).lat_high(),
            final(self).oe_high() == old(self).oe_high(),
            final(self).shift_reg() == old(self).shift_reg(),
            final(self).output_reg() == old(self).output_reg(),
            final(self).smear_free() == old(self).smear_free(),
            final(self).line_nums() == old(self).line_nums(),
            final(self).data_pin_nums() == old(self).data_pin_nums(),
            final(self).ctrl_pin_nums() == old(self).ctrl_pin_nums(),
    {
        self.pins.r0.drive(byte & 1 != 0);
        self.pins.g0.drive(byte & 2 != 0);
        self.pins.b0.drive(byte & 4 != 0);
        self.pins.r1.drive(byte & 8 != 0);
        self.pins.g1.drive(byte & 16 != 0);
        self.pins.b1.drive(byte & 32 != 0);
        proof {
            lemma_color_bits_of_byte(byte);
        }
    }

    /// Scans out one row: fetches the `cols` cell bytes of address row
    /// `active_row`, shifts them in left to right (data lines set before
    /// each clock edge), blanks, latches, drives the row address onto the
    /// address lines, unblanks, and advances the cursor by one, wrapping
    /// at `rows / 2`. The smear flag is preserved: the latch pulse and the
    /// address change both happen inside the blanked window.
    pub fn strobe_row(&mut self, img: &ImgBuffer)
        requires
            old(self).wf(),
            img.wf(),
            img.spec_cols() == old(self).spec_cols(),
            img.spec_rows() == old(self).spec_rows(),
        ensures
            final(self).wf(),
            final(self).spec_cols() == old(self).spec_cols(),
            final(self).spec_rows() == old(self).spec_rows(),
            final(self).spec_active_row() as int == (old(self).spec_active_row() + 1) % (old(
                self,
            ).spec_rows() as int / 2),
            final(self).output_reg() == spec_row_bits(
                img@,
                old(self).spec_cols() as int,
                old(self).spec_active_row() as int,
            ),
            final(self).addr_levels().len() == old(self).addr_levels().len(),
            forall|i: int|
                0 <= i < final(self).addr_levels().len() ==> final(self).addr_levels()[i]
                    == addr_bit(old(self).spec_active_row(), i),
            final(self).oe_high() == false,
            final(self).clk_high() == false,
            final(self).lat_high() == false,
            final(self).smear_free() == old(self).smear_free(),
            final(self).line_nums() == old(self).line_nums(),
            final(self).data_pin_nums() == old(self).data_pin_nums(),
            final(self).ctrl_pin_nums() == old(self).ctrl_pin_nums(),
    {
        let ar = self.active_row;
        let row_data = match img.get_display_row(ar) {
            Ok(s) => s,
            Err(_) => vstd::pervasive::unreached(),
        };
        let ghost entry = *self;
        let ghost row_bits = Seq::new(
            self.spec_cols() as nat,
            |j: int| (row_data@[j] & 0x3f) as u8,
        );
        let cols = self.cols;
        let mut i: usize = 0;
        while i < cols
            invariant
                cols == self.spec_cols(),
                row_data@.len() == cols,
                row_bits.len() == cols,
                forall|j: int| 0 <= j < cols ==> row_bits[j] == (row_data@[j] & 0x3f) as u8,
                i <= cols,
                i > 0 ==> self.clk_high() == false,
                self.shift_reg() == entry.shift_reg() + row_bits.take(i as int),
                self.spec_rows() == entry.spec_rows(),
                self.spec_active_row() == entry.spec_active_row(),
                self.addr_levels() == entry.addr_levels(),
                self.lat_high() == entry.lat_high(),
                self.oe_high() == entry.oe_high(),
                self.output_reg() == entry.output_reg(),
                self.smear_free() == entry.smear_free(),
                self.line_nums() == entry.line_nums(),
                self.data_pin_nums() == entry.data_pin_nums(),
                self.ctrl_pin_nums() == entry.ctrl_pin_nums(),
            decreases cols - i,
        {
            self.set_pins_for_byte(row_data[i]);
            self.clock();
            proof {
                assert(row_bits.take(i + 1) =~= row_bits.take(i as int).push(row_bits[i as int]));
                assert(self.shift_reg() =~= entry.shift_reg() + row_bits.take(i + 1));
            }
            i += 1;
        }
        proof {
            assert(row_bits.take(cols as int) =~= row_bits);
        }
        self.pins.oe.drive(true);
        self.latch();
        proof {
            let total = entry.shift_reg() + row_bits;
            assert(total.subrange(total.len() - cols, total.len() as int) =~= row_bits);
            let rb = spec_row_bits(img@, cols as int, ar as int);
            let half = img.spec_rows() as int / 2;
            assert(ar as int * cols as int + cols as int <= cols as int * half)
                by (nonlinear_arith)
                requires
                    0 <= (ar as int) < half,
                    (cols as int) >= 1,
            ;
            assert forall|j: int| 0 <= j < cols implies row_bits[j] == rb[j] by {
                assert(row_data@[j] == img@[ar as int * cols as int + j]);
            }
            assert(row_bits =~= rb);
        }
        self.select_row(ar);
        self.pins.oe.drive(false);
        let half = self.rows / 2;
        self.active_row = (ar + 1) % half;
    }

    /// Shifts the built-in two-band test pattern into every address row in
    /// turn, latching each row as it goes and leaving the last one
    /// selected: red on the top half and blue on the bottom for columns
    /// 0–31, with green added on both halves from column 32 on. Every
    /// latch and address change happens blanked, so the smear flag is
    /// preserved.
    pub fn test(&mut self)
        requires
            old(self).wf(),
        ensures
            final(self).wf(),
            final(self).spec_cols() == old(self).spec_cols(),
            final(self).spec_rows() == old(self).spec_rows(),
            final(self).spec_active_row() == old(self).spec_active_row(),
            final(self).addr_levels().len() == old(self).addr_levels().len(),
            final(self).output_reg().len() == old(self).spec_cols(),
            forall|j: int|
                0 <= j < old(self).spec_cols() ==> final(self).output_reg()[j] == spec_test_bits(
                    j,
                    old(self).data_levels().2,
                    old(self).data_levels().3,
                ),
            forall|i: int|
                0 <= i < final(self).addr_levels().len() ==> final(self).addr_levels()[i]
                    == addr_bit((old(self).spec_rows() / 2 - 1) as usize, i),
            final(self).oe_high() == false,
            final(self).clk_high() == false,
            final(self).lat_high() == false,
            final(self).smear_free() == old(self).smear_free(),
            final(self).line_nums() == old(self).line_nums(),
            final(self).data_pin_nums() == old(self).data_pin_nums(),
            final(self).ctrl_pin_nums() == old(self).ctrl_pin_nums(),
    {
        let ghost start = *self;
        let ghost pb0 = start.data_levels().2;
        let ghost pr1 = start.data_levels().3;
        let cols = self.cols;
        let half = self.rows / 2;
        let mut k: usize = 0;
        while k < half
            invariant
                start.wf(),
                cols == self.spec_cols(),
                half == self.spec_rows() / 2,
                self.spec_cols() == start.spec_cols(),
                self.spec_rows() == start.spec_rows(),
                self.spec_active_row() == start.spec_active_row(),
                self.addr_levels().len() == start.addr_levels().len(),
                k <= half,
                self.smear_free() == start.smear_free(),
                self.line_nums() == start.line_nums(),
                self.data_pin_nums() == start.data_pin_nums(),
                self.ctrl_pin_nums() == start.ctrl_pin_nums(),
                self.data_levels().2 == pb0,
                self.data_levels().3 == pr1,
                k == 0 ==> self.clk_high() == start.clk_high(),
                k == 0 ==> self.oe_high() == start.oe_high(),
                k > 0 ==> self.output_reg().len() == cols,
                k > 0 ==> forall|j: int|
                    0 <= j < cols ==> self.output_reg()[j] == spec_test_bits(j, pb0, pr1),
                k > 0 ==> forall|i: int|
                    0 <= i < self.addr_levels().len() ==> self.addr_levels()[i] == addr_bit(
                        (k - 1) as usize,
                        i,
                    ),
                k > 0 ==> self.oe_high() == false && self.clk_high() == false && self.lat_high()
                    == false,
            decreases half - k,
        {
            let ghost row_entry = *self;
            let mut i: usize = 0;
            while i < cols
                invariant
                    cols == self.spec_cols(),
                    self.spec_cols() == row_entry.spec_cols(),
                    self.spec_rows() == row_entry.spec_rows(),
                    self.spec_active_row() == row_entry.spec_active_row(),
                    self.addr_levels() == row_entry.addr_levels(),
                    self.output_reg() == row_entry.output_reg(),
                    self.lat_high() == row_entry.lat_high(),
                    self.oe_high() == row_entry.oe_high(),
                    i <= cols,
                    self.smear_free() == row_entry.smear_free(),
                    self.line_nums() == row_entry.line_nums(),
                    self.data_pin_nums() == row_entry.data_pin_nums(),
                    self.ctrl_pin_nums() == row_entry.ctrl_pin_nums(),
                    i == 0 ==> self.clk_high() == row_entry.clk_high(),
                    i > 0 ==> self.clk_high() == false,
                    self.data_levels().2 == pb0,
                    self.data_levels().3 == pr1,
                    i > 0 ==> self.data_levels().0 == true && self.data_levels().5 == true
                        && self.data_levels().1 == (i - 1 >= 32) && self.data_levels().4 == (i - 1
                        >= 32),
                    self.shift_reg().len() == row_entry.shift_reg().len() + i,
                    forall|j: int|
                        0 <= j < row_entry.shift_reg().len() ==> self.shift_reg()[j]
                            == row_entry.shift_reg()[j],
                    forall|j: int|
                        0 <= j < i ==> self.shift_reg()[row_entry.shift_reg().len() + j]
                            == spec_test_bits(j, pb0, pr1),
                decreases cols - i,
            {
                if i < 32 {
                    self.pins.r0.drive(true);
                    self.pins.b1.drive(true);
                    self.pins.g0.drive(false);
                    self.pins.g1.drive(false);
                } else {
                    self.pins.g0.drive(true);
                    self.pins.g1.drive(true);
                }
                proof {
                    assert(self.data_levels() == (true, i >= 32, pb0, pr1, i >= 32, true));
                }
                self.clock();
                i += 1;
            }
            self.pins.oe.drive(true);
            self.latch();
            proof {
                assert forall|j: int| 0 <= j < cols implies self.output_reg()[j] == spec_test_bits(
                    j,
                    pb0,
                    pr1,
                ) by {
                    assert(self.output_reg()[j] == self.shift_reg()[self.shift_reg().len() - cols
                        + j]);
                }
            }
            self.select_row(k);
            self.pins.oe.drive(false);
            k += 1;
        }
    }

    /// Returns the current row-address cursor.
    pub fn active_row(&self) -> (r: usize)
        ensures
            r == self.spec_active_row(),
    {
        self.active_row
    }

    /// Returns the levels of the address lines, least significant first.
    pub fn address_levels(&self) -> (r: Vec<bool>)
        ensures
            r@ == self.addr_levels(),
    {
        let mut out: Vec<bool> = Vec::new();
        let n = self.pins.lines.len();
        let mut i: usize = 0;
        while i < n
            invariant
                n == self.pins.lines@.len(),
                i <= n,
                out@.len() == i,
                forall|j: int| 0 <= j < i ==> out@[j] == self.addr_levels()[j],
            decreases n - i,
        {
            out.push(self.pins.lines[i].level());
            i += 1;
        }
        proof {
            assert(out@ =~= self.addr_levels());
        }
        out
    }

    /// Returns whether output-enable is currently asserted (panel blanked).
    pub fn output_enabled_high(&self) -> (r: bool)
        ensures
            r == self.oe_high(),
    {
        self.pins.oe.level()
    }
}

/// Reassembling the six data-line levels read off a cell byte gives back
/// exactly its low six bits.
proof fn lemma_color_bits_of_byte(byte: u8)
    ensures
        color_bits(
            byte & 1 != 0,
            byte & 2 != 0,
            byte & 4 != 0,
            byte & 8 != 0,
            byte & 16 != 0,
            byte & 32 != 0,
        ) == byte & 0x3f,
{
    assert((if byte & 1 != 0 {
        1u8
    } else {
        0u8
    }) | (if byte & 2 != 0 {
        2u8
    } else {
        0u8
    }) | (if byte & 4 != 0 {
        4u8
    } else {
        0u8
    }) | (if byte & 8 != 0 {
        8u8
    } else {
        0u8
    }) | (if byte & 16 != 0 {
        16u8
    } else {
        0u8
    }) | (if byte & 32 != 0 {
        32u8
    } else {
        0u8
    }) == byte & 0x3f) by (bit_vector);
}

/// The row-address cursor after `k` scan calls starting from `r`, each
/// call advancing the cursor by one modulo `h` address rows.
pub open spec fn cursor_after(r: int, k: int, h: int) -> int {
    (r + k) % h
}

/// A single wrap step in concrete terms: while the sum stays under `h` the
/// cursor is the plain sum, and past `h` it comes back down by exactly `h`.
proof fn lemma_cursor_value(r: int, k: int, h: int)
    requires
        0 <= r < h,
        0 <= k <= h,
    ensures
        cursor_after(r, k, h) == if r + k < h {
            r + k
        } else {
            r + k - h
        },
{
    if r + k < h {
        vstd::arithmetic::div_mod::lemma_small_mod((r + k) as nat, h as nat);
    } else {
        vstd::arithmetic::div_mod::lemma_mod_sub_multiples_vanish(r + k, h);
        assert((-h + (r + k)) % h == (r + k) % h);
        vstd::arithmetic::div_mod::lemma_small_mod((r + k - h) as nat, h as nat);
    }
}

/// One column of the built-in test pattern: red on the top half and blue
/// on the bottom for columns 0–31, with green added on both halves from
/// column 32 on. The top-blue and bottom-red data lines are not part of
/// the pattern and keep whatever levels `b0` and `r1` they already carried.
pub open spec fn spec_test_bits(j: int, b0: bool, r1: bool) -> u8 {
    color_bits(true, j >= 32, b0, r1, j >= 32, true)
}

/// One scan call takes the cursor from its value after `k` calls to that
/// value advanced by one modulo `h`.
proof fn lemma_cursor_step(r: int, k: int, h: int)
    requires
        0 <= r < h,
        0 <= k,
    ensures
        cursor_after(r, k + 1, h) == (cursor_after(r, k, h) + 1) % h,
{
    vstd::arithmetic::div_mod::lemma_mod_bound(r + k, h);
    vstd::arithmetic::div_mod::lemma_mod_twice(r + k, h);
    assert(1int % h == if h == 1 {
        0int
    } else {
        1int
    }) by {
        if h == 1 {
            vstd::arithmetic::div_mod::lemma_mod_self_0(h);
        } else {
            vstd::arithmetic::div_mod::lemma_small_mod(1nat, h as nat);
        }
    }
    vstd::arithmetic::div_mod::lemma_add_mod_noop((r + k) % h, 1, h);
    vstd::arithmetic::div_mod::lemma_add_mod_noop(r + k, 1, h);
}

/// The row-address cursors taken over `h` consecutive scan calls starting
/// from `r`, in call order.
pub open spec fn scan_window(r: int, h: int) -> Seq<int> {
    Seq::new(h as nat, |k: int| cursor_after(r, k, h))
}

/// The cursor's trajectory is the one the scan calls produce: each step
/// advances it by one modulo `h`, and over any window of `h` consecutive
/// scan calls the cursor takes every value in `[0, h)` exactly once —
/// every address row is refreshed once per full pass — before returning
/// to where it started.
#[verifier::rlimit(50)]
pub proof fn lemma_active_row_cycles(r: int, h: int)
    requires
        0 <= r < h,
    ensures
        forall|k: int|
            0 <= k ==> cursor_after(r, k + 1, h) == (#[trigger] cursor_after(r, k, h) + 1) % h,
        forall|v: int| 0 <= v < h ==> #[trigger] scan_window(r, h).contains(v),
        scan_window(r, h).no_duplicates(),
        cursor_after(r, h, h) == r,
{
    assert forall|k: int| 0 <= k implies cursor_after(r, k + 1, h) == (#[trigger] cursor_after(
        r,
        k,
        h,
    ) + 1) % h by {
        lemma_cursor_step(r, k, h);
    }
    assert forall|v: int| 0 <= v < h implies #[trigger] scan_window(r, h).contains(v) by {
        let k = if v >= r {
            v - r
        } else {
            v - r + h
        };
        lemma_cursor_value(r, k, h);
        assert(scan_window(r, h)[k] == v);
    }
    assert forall|k1: int, k2: int|
        0 <= k1 < scan_window(r, h).len() && 0 <= k2 < scan_window(r, h).len() && k1
            != k2 implies scan_window(r, h)[k1] != scan_window(r, h)[k2] by {
        lemma_cursor_value(r, k1, h);
        lemma_cursor_value(r, k2, h);
    }
    lemma_cursor_value(r, h, h);
}

} // verus!
