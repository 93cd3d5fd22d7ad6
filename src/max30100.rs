//! Driver for the MAX30100 pulse oximeter and heart-rate sensor.
//!
//! Configuration registers are updated by read-modify-write: the current value
//! is read, the field of interest replaced, and the result written back.

use vstd::prelude::*;

use crate::bus::{Error, I2cBus, Transaction};

verus! {

/// Bus address of the sensor.
pub const DEVICE: u8 = 0x57;

/// Revision ID register.
pub const REV_ID: u8 = 0xFE;

/// Part ID register.
pub const PART_ID: u8 = 0xFF;

/// Interrupt status register.
pub const INT_STATUS: u8 = 0x00;

/// Interrupt enable register.
pub const INT_ENABLE: u8 = 0x01;

/// FIFO write pointer register.
pub const FIFO_WRITE: u8 = 0x02;

/// FIFO overflow counter register.
pub const FIFO_OVERFLOW_COUNTER: u8 = 0x03;

/// FIFO read pointer register.
pub const FIFO_READ: u8 = 0x04;

/// FIFO data register.
pub const FIFO_DATA: u8 = 0x05;

/// Mode configuration register.
pub const MODE_CONF: u8 = 0x06;

/// SpO2 configuration register.
pub const SPO2_CONF: u8 = 0x07;

/// LED current configuration register.
pub const LED_CONF: u8 = 0x09;

/// Integer part of the die temperature.
pub const TEMP_INT: u8 = 0x16;

/// Fractional part of the die temperature, in sixteenths of a degree.
pub const TEMP_FRACTION: u8 = 0x17;

/// Mode register: start a temperature conversion.
pub const MODE_TEMP_EN: u8 = 0x08;

/// SpO2 register: high-resolution enable.
pub const SPO2_HI_RES_EN: u8 = 0x40;

/// Measurement mode, bits 2..0 of the mode register.
#[derive(Debug, Clone, Copy, PartialEq, Eq, Structural)]
pub enum OperatingMode {
    HROnly,
    SPO2HR,
}

impl OperatingMode {
    pub open spec fn spec_code(self) -> u8 {
        match self {
            OperatingMode::HROnly => 0x02,
            OperatingMode::SPO2HR => 0x03,
        }
    }

    #[verifier::when_used_as_spec(spec_code)]
    pub fn code(self) -> (r: u8)
        ensures
            r == self.spec_code(),
    {
        match self {
            OperatingMode::HROnly => 0x02,
            OperatingMode::SPO2HR => 0x03,
        }
    }
}

/// Sample rate, bits 4..2 of the SpO2 register.
#[derive(Debug, Clone, Copy, PartialEq, Eq, Structural)]
pub enum SamplingRate {
    R50Hz,
    R100Hz,
    R167Hz,
    R200Hz,
    R400Hz,
    R600Hz,
    R800Hz,
    R1000Hz,
}

impl SamplingRate {
    pub open spec fn spec_code(self) -> u8 {
        match self {
            SamplingRate::R50Hz => 0x00,
            SamplingRate::R100Hz => 0x01,
            SamplingRate::R167Hz => 0x02,
            SamplingRate::R200Hz => 0x03,
            SamplingRate::R400Hz => 0x04,
            SamplingRate::R600Hz => 0x05,
            SamplingRate::R800Hz => 0x06,
            SamplingRate::R1000Hz => 0x07,
        }
    }

    #[verifier::when_used_as_spec(spec_code)]
    pub fn code(self) -> (r: u8)
        ensures
            r == self.spec_code(),
            r < 8,
    {
        match self {
            SamplingRate::R50Hz => 0x00,
            SamplingRate::R100Hz => 0x01,
            SamplingRate::R167Hz => 0x02,
            SamplingRate::R200Hz => 0x03,
            SamplingRate::R400Hz => 0x04,
            SamplingRate::R600Hz => 0x05,
            SamplingRate::R800Hz => 0x06,
            SamplingRate::R1000Hz => 0x07,
        }
    }
}

/// LED pulse width and ADC resolution, bits 1..0 of the SpO2 register.
#[derive(Debug, Clone, Copy, PartialEq, Eq, Structural)]
pub enum PulseWidth {
    W200UsADC13,
    W400UsADC14,
    W800UsADC15,
    W1600UsADC16,
}

impl PulseWidth {
    pub open spec fn spec_code(self) -> u8 {
        match self {
            PulseWidth::W200UsADC13 => 0x00,
            PulseWidth::W400UsADC14 => 0x01,
            PulseWidth::W800UsADC15 => 0x02,
            PulseWidth::W1600UsADC16 => 0x03,
        }
    }

    #[verifier::when_used_as_spec(spec_code)]
    pub fn code(self) -> (r: u8)
        ensures
            r == self.spec_code(),
    {
        match self {
            PulseWidth::W200UsADC13 => 0x00,
            PulseWidth::W400UsADC14 => 0x01,
            PulseWidth::W800UsADC15 => 0x02,
            PulseWidth::W1600UsADC16 => 0x03,
        }
    }
}

/// LED drive current, one nibble of the LED register.
#[allow(non_camel_case_types)]
#[derive(Debug, Clone, Copy, PartialEq, Eq, Structural)]
pub enum LEDCurrent {
    I0MA,
    I4_4MA,
    I7_6MA,
    I11MA,
    I14_2MA,
    I17_4MA,
    I120_8MA,
    I124MA,
    I127_1MA,
    I130_6MA,
    I133_8MA,
    I137MA,
    I140_2MA,
    I143_6MA,
    I146_8MA,
    I50MA,
}

impl LEDCurrent {
    pub open spec fn spec_code(self) -> u8 {
        match self {
            LEDCurrent::I0MA => 0x00,
            LEDCurrent::I4_4MA => 0x01,
            LEDCurrent::I7_6MA => 0x02,
            LEDCurrent::I11MA => 0x03,
            LEDCurrent::I14_2MA => 0x04,
            LEDCurrent::I17_4MA => 0x05,
            LEDCurrent::I120_8MA => 0x06,
            LEDCurrent::I124MA => 0x07,
            LEDCurrent::I127_1MA => 0x08,
            LEDCurrent::I130_6MA => 0x09,
            LEDCurrent::I133_8MA => 0x0A,
            LEDCurrent::I137MA => 0x0B,
            LEDCurrent::I140_2MA => 0x0C,
            LEDCurrent::I143_6MA => 0x0D,
            LEDCurrent::I146_8MA => 0x0E,
            LEDCurrent::I50MA => 0x0F,
        }
    }

    #[verifier::when_used_as_spec(spec_code)]
    pub fn code(self) -> (r: u8)
        ensures
            r == self.spec_code(),
            r < 16,
    {
        match self {
            LEDCurrent::I0MA => 0x00,
            LEDCurrent::I4_4MA => 0x01,
            LEDCurrent::I7_6MA => 0x02,
            LEDCurrent::I11MA => 0x03,
            LEDCurrent::I14_2MA => 0x04,
            LEDCurrent::I17_4MA => 0x05,
            LEDCurrent::I120_8MA => 0x06,
            LEDCurrent::I124MA => 0x07,
            LEDCurrent::I127_1MA => 0x08,
            LEDCurrent::I130_6MA => 0x09,
            LEDCurrent::I133_8MA => 0x0A,
            LEDCurrent::I137MA => 0x0B,
            LEDCurrent::I140_2MA => 0x0C,
            LEDCurrent::I143_6MA => 0x0D,
            LEDCurrent::I146_8MA => 0x0E,
            LEDCurrent::I50MA => 0x0F,
        }
    }
}

/// Settings applied by [`Max30100::new`].
#[derive(Debug, Clone, Copy, PartialEq, Eq, Structural)]
pub struct Config {
    pub mode: OperatingMode,
    pub sampling_rate: SamplingRate,
    pub pulse_width: PulseWidth,
    pub red_current: LEDCurrent,
    pub infrared_current: LEDCurrent,
}

impl Default for Config {
    /// SpO2 and heart rate, 100 Hz, 1600 us pulses, red 27.1 mA, infrared 50 mA.
    fn default() -> (r: Self)
        ensures
            r == (Config {
                mode: OperatingMode::SPO2HR,
                sampling_rate: SamplingRate::R100Hz,
                pulse_width: PulseWidth::W1600UsADC16,
                red_current: LEDCurrent::I127_1MA,
                infrared_current: LEDCurrent::I50MA,
            }),
    {
        Config {
            mode: OperatingMode::SPO2HR,
            sampling_rate: SamplingRate::R100Hz,
            pulse_width: PulseWidth::W1600UsADC16,
            red_current: LEDCurrent::I127_1MA,
            infrared_current: LEDCurrent::I50MA,
        }
    }
}

/// One FIFO sample: the infrared and red readings.
#[derive(Debug, Clone, Copy, PartialEq, Eq, Structural)]
pub struct FIFO {
    pub infrared: u16,
    pub red: u16,
}

impl Default for FIFO {
    fn default() -> (r: Self)
        ensures
            r == (FIFO { infrared: 0, red: 0 }),
    {
        FIFO { infrared: 0, red: 0 }
    }
}

/// Mode register with its mode field replaced.
pub open spec fn mode_value(current: u8, mode: OperatingMode) -> u8 {
    (current & 0xF8u8) | mode.spec_code()
}

/// SpO2 register with the high-resolution bit set or cleared.
pub open spec fn resolution_value(current: u8, high_resolution: bool) -> u8 {
    if high_resolution {
        current | 0x40u8
    } else {
        current & 0xBFu8
    }
}

/// SpO2 register with its sample-rate field replaced.
pub open spec fn rate_value(current: u8, rate: SamplingRate) -> u8 {
    (current & 0xE3u8) | (rate.spec_code() << 2u8)
}

/// SpO2 register with its pulse-width field replaced.
pub open spec fn width_value(current: u8, width: PulseWidth) -> u8 {
    (current & 0xFCu8) | width.spec_code()
}

/// Mode register with the temperature-conversion bit set.
pub open spec fn temperature_start_value(current: u8) -> u8 {
    current | 0x08u8
}

/// LED register: red current in the high nibble, infrared in the low one.
pub open spec fn led_value(red: LEDCurrent, infrared: LEDCurrent) -> u8 {
    (red.spec_code() << 4u8) | infrared.spec_code()
}

/// Two's-complement value of a byte.
pub open spec fn signed_byte(b: u8) -> int {
    if b < 128 {
        b as int
    } else {
        b as int - 256
    }
}

/// Computes [`mode_value`].
pub fn mode_config(current: u8, mode: OperatingMode) -> (r: u8)
    ensures
        r == mode_value(current, mode),
{
    (current & 0xF8u8) | mode.code()
}

/// Computes [`resolution_value`].
pub fn resolution_config(current: u8, high_resolution: bool) -> (r: u8)
    ensures
        r == resolution_value(current, high_resolution),
{
    if high_resolution {
        current | SPO2_HI_RES_EN
    } else {
        assert(!0x40u8 == 0xBFu8) by (bit_vector);
        current & !SPO2_HI_RES_EN
    }
}

/// Computes [`rate_value`].
pub fn rate_config(current: u8, rate: SamplingRate) -> (r: u8)
    ensures
        r == rate_value(current, rate),
{
    (current & 0xE3u8) | (rate.code() << 2u8)
}

/// Computes [`width_value`].
pub fn width_config(current: u8, width: PulseWidth) -> (r: u8)
    ensures
        r == width_value(current, width),
{
    (current & 0xFCu8) | width.code()
}

/// Computes [`led_value`].
pub fn led_config(red: LEDCurrent, infrared: LEDCurrent) -> (r: u8)
    ensures
        r == led_value(red, infrared),
{
    (red.code() << 4u8) | infrared.code()
}

/// Die temperature in sixteenths of a degree Celsius from the integer
/// register (two's complement) and the fraction register.
pub fn temperature_sixteenths(integer: u8, fraction: u8) -> (r: i16)
    ensures
        r as int == signed_byte(integer) * 16 + fraction as int,
{
    let whole: i16 = if integer < 128 {
        integer as i16
    } else {
        integer as i16 - 256
    };
    whole * 16 + fraction as i16
}

/// Value of two bytes, most significant first.
pub open spec fn be16(high: u8, low: u8) -> u16 {
    (high as int * 256 + low as int) as u16
}

/// Decodes a big-endian 16-bit word.
pub fn decode_word(high: u8, low: u8) -> (r: u16)
    ensures
        r == be16(high, low),
{
    let r: u16 = ((high as u16) << 8u16) | (low as u16);
    assert(((high as u16) << 8u16) | (low as u16) == (high as int * 256 + low as int) as u16)
        by (bit_vector);
    r
}

/// A completed write of `bytes` to `address`.
pub open spec fn write_of(address: u8, bytes: Seq<u8>) -> Transaction {
    Transaction { address, write: true, bytes, ok: true }
}

/// A failed write of `bytes` to `address`.
pub open spec fn failed_write(address: u8, bytes: Seq<u8>) -> Transaction {
    Transaction { address, write: true, bytes, ok: false }
}

/// A completed read of `n` bytes from `address`.
pub open spec fn is_read_of(t: Transaction, address: u8, n: nat) -> bool {
    !t.write && t.ok && t.address == address && t.bytes.len() == n
}

/// A failed read from `address`.
pub open spec fn is_failed_read(t: Transaction, address: u8) -> bool {
    !t.write && !t.ok && t.address == address
}

/// What `after` holds beyond `before`.
pub open spec fn appended(before: Seq<Transaction>, after: Seq<Transaction>) -> Seq<Transaction> {
    after.subrange(before.len() as int, after.len() as int)
}

/// `seg` selects `reg` and reads one byte of it.
pub open spec fn register_read(seg: Seq<Transaction>, address: u8, reg: u8) -> bool {
    &&& seg.len() == 2
    &&& seg[0] == write_of(address, seq![reg])
    &&& is_read_of(seg[1], address, 1)
}

/// `seg` reads `reg`, then writes back `value` of what it read.
pub open spec fn read_modify_write(
    seg: Seq<Transaction>,
    address: u8,
    reg: u8,
    value: spec_fn(u8) -> u8,
) -> bool {
    &&& seg.len() == 3
    &&& register_read(seg.take(2), address, reg)
    &&& seg[2] == write_of(address, seq![reg, value(seg[1].bytes[0])])
}

/// A register read of `reg` that failed, and stopped there: the selection of
/// the register failed, or it completed and the read that followed failed.
pub open spec fn read_cut_short(seg: Seq<Transaction>, address: u8, reg: u8) -> bool {
    ||| seg == seq![failed_write(address, seq![reg])]
    ||| seg.len() == 2 && seg[0] == write_of(address, seq![reg]) && is_failed_read(
        seg[1],
        address,
    )
}

/// A read-modify-write of `reg` that failed, and stopped there: the read
/// failed, with no write attempted, or it completed and the write failed.
pub open spec fn update_cut_short(
    seg: Seq<Transaction>,
    address: u8,
    reg: u8,
    value: spec_fn(u8) -> u8,
) -> bool {
    ||| read_cut_short(seg, address, reg)
    ||| {
        &&& seg.len() == 3
        &&& register_read(seg.take(2), address, reg)
        &&& seg[2] == failed_write(address, seq![reg, value(seg[1].bytes[0])])
    }
}

/// What configuring with `config` did when it failed: the steps before the
/// failing one completed, that step stopped at its failure, and nothing
/// followed.
pub open spec fn configuration_cut_short(log: Seq<Transaction>, address: u8, config: Config) -> bool {
    let mode = |c: u8| mode_value(c, config.mode);
    let rate = |c: u8| rate_value(c, config.sampling_rate);
    let width = |c: u8| width_value(c, config.pulse_width);
    ||| update_cut_short(log, address, MODE_CONF, mode)
    ||| read_modify_write(log.take(3), address, MODE_CONF, mode) && update_cut_short(
        log.skip(3),
        address,
        SPO2_CONF,
        rate,
    )
    ||| read_modify_write(log.take(3), address, MODE_CONF, mode) && read_modify_write(
        log.subrange(3, 6),
        address,
        SPO2_CONF,
        rate,
    ) && update_cut_short(log.skip(6), address, SPO2_CONF, width)
    ||| read_modify_write(log.take(3), address, MODE_CONF, mode) && read_modify_write(
        log.subrange(3, 6),
        address,
        SPO2_CONF,
        rate,
    ) && read_modify_write(log.subrange(6, 9), address, SPO2_CONF, width) && log.len() == 10
        && log[9] == failed_write(
        address,
        seq![LED_CONF, led_value(config.red_current, config.infrared_current)],
    )
}

/// A register read followed by an attempted write of `value` of what was read
/// is a read-modify-write when the write completed, and an update cut short
/// at the write otherwise.
proof fn lemma_read_then_write(
    before: Seq<Transaction>,
    mid: Seq<Transaction>,
    after: Seq<Transaction>,
    address: u8,
    reg: u8,
    value: spec_fn(u8) -> u8,
    complete: bool,
)
    requires
        before.is_prefix_of(mid),
        register_read(appended(before, mid), address, reg),
        after == mid.push(
            Transaction {
                address,
                write: true,
                bytes: seq![reg, value(mid.last().bytes[0])],
                ok: complete,
            },
        ),
    ensures
        before.is_prefix_of(after),
        complete ==> read_modify_write(appended(before, after), address, reg, value),
        !complete ==> update_cut_short(appended(before, after), address, reg, value),
{
    let seg = appended(before, after);
    assert(seg.take(2) =~= appended(before, mid));
    assert(seg[1] == mid.last());
    assert(seg[2] == after.last());
}

/// Computes [`temperature_start_value`].
pub fn temperature_start(current: u8) -> (r: u8)
    ensures
        r == temperature_start_value(current),
{
    current | MODE_TEMP_EN
}

/// A MAX30100 on a two-wire bus.
///
/// The contracts below describe each operation by the transactions it adds
/// to the bus's history, failed ones included.
pub struct Max30100<I2C: I2cBus> {
    i2c: I2C,
    address: u8,
}

impl<I2C: I2cBus> Max30100<I2C> {
    /// Every transaction attempted on the bus, oldest first.
    pub closed spec fn log(&self) -> Seq<Transaction> {
        self.i2c.history()
    }

    /// The bus address the driver talks to.
    pub closed spec fn address(&self) -> u8 {
        self.address
    }

    /// Takes the bus and applies `config`: mode, sample rate, pulse width and
    /// LED currents, in that order, stopping at the first failure.
    pub fn new(i2c: I2C, config: Config) -> (r: Result<Self, Error>)
        ensures
            r is Ok ==> {
                let log = appended(i2c.history(), r->Ok_0.log());
                &&& i2c.history().is_prefix_of(r->Ok_0.log())
                &&& r->Ok_0.address() == DEVICE
                &&& log.len() == 10
                &&& read_modify_write(
                    log.subrange(0, 3),
                    DEVICE,
                    MODE_CONF,
                    |c: u8| mode_value(c, config.mode),
                )
                &&& read_modify_write(
                    log.subrange(3, 6),
                    DEVICE,
                    SPO2_CONF,
                    |c: u8| rate_value(c, config.sampling_rate),
                )
                &&& read_modify_write(
                    log.subrange(6, 9),
                    DEVICE,
                    SPO2_CONF,
                    |c: u8| width_value(c, config.pulse_width),
                )
                &&& log[9] == write_of(
                    DEVICE,
                    seq![LED_CONF, led_value(config.red_current, config.infrared_current)],
                )
            },
            r is Err ==> r == Err::<Self, Error>(Error::Bus),
    {
        let mut this = Max30100 { i2c, address: DEVICE };
        match this.apply_config(config) {
            Ok(()) => {},
            Err(e) => {
                return Err(e);
            },
        }
        Ok(this)
    }

    /// Applies `config`: mode, sample rate, pulse width and LED currents, in
    /// that order, stopping at the first failure.
    fn apply_config(&mut self, config: Config) -> (r: Result<(), Error>)
        ensures
            final(self).address() == old(self).address(),
            old(self).log().is_prefix_of(final(self).log()),
            r is Ok ==> {
                let log = appended(old(self).log(), final(self).log());
                &&& log.len() == 10
                &&& read_modify_write(
                    log.subrange(0, 3),
                    old(self).address(),
                    MODE_CONF,
                    |c: u8| mode_value(c, config.mode),
                )
                &&& read_modify_write(
                    log.subrange(3, 6),
                    old(self).address(),
                    SPO2_CONF,
                    |c: u8| rate_value(c, config.sampling_rate),
                )
                &&& read_modify_write(
                    log.subrange(6, 9),
                    old(self).address(),
                    SPO2_CONF,
                    |c: u8| width_value(c, config.pulse_width),
                )
                &&& log[9] == write_of(
                    old(self).address(),
                    seq![LED_CONF, led_value(config.red_current, config.infrared_current)],
                )
            },
            r is Err ==> r == Err::<(), Error>(Error::Bus) && configuration_cut_short(
                appended(old(self).log(), final(self).log()),
                old(self).address(),
                config,
            ),
    {
        let ghost l0 = self.log();
        let r1 = self.set_mode(config.mode);
        let ghost l1 = self.log();
        if r1.is_err() {
            return Err(Error::Bus);
        }
        let r2 = self.set_sampling_rate(config.sampling_rate);
        let ghost l2 = self.log();
        proof {
            let log = appended(l0, l2);
            assert(log.take(3) =~= appended(l0, l1));
            assert(log.skip(3) =~= appended(l1, l2));
        }
        if r2.is_err() {
            return Err(Error::Bus);
        }
        let r3 = self.set_led_pulse_width(config.pulse_width);
        let ghost l3 = self.log();
        proof {
            let log = appended(l0, l3);
            assert(log.take(3) =~= appended(l0, l1));
            assert(log.subrange(3, 6) =~= appended(l1, l2));
            assert(log.skip(6) =~= appended(l2, l3));
        }
        if r3.is_err() {
            return Err(Error::Bus);
        }
        let r4 = self.set_led_current(config.red_current, config.infrared_current);
        proof {
            let log = appended(l0, self.log());
            assert(log.take(3) =~= appended(l0, l1));
            assert(log.subrange(0, 3) =~= appended(l0, l1));
            assert(log.subrange(3, 6) =~= appended(l1, l2));
            assert(log.subrange(6, 9) =~= appended(l2, l3));
            assert(log[9] == self.log().last());
        }
        if r4.is_err() {
            return Err(Error::Bus);
        }
        Ok(())
    }

    /// Reads the revision ID register.
    pub fn get_revision_id(&mut self) -> (r: Result<u8, Error>)
        ensures
            final(self).address() == old(self).address(),
            old(self).log().is_prefix_of(final(self).log()),
            r is Ok ==> register_read(
                appended(old(self).log(), final(self).log()),
                old(self).address(),
                REV_ID,
            ) && r->Ok_0 == final(self).log().last().bytes[0],
            r is Err ==> r == Err::<u8, Error>(Error::Bus) && read_cut_short(
                appended(old(self).log(), final(self).log()),
                old(self).address(),
                REV_ID,
            ),
    {
        self.read_reg(REV_ID)
    }

    /// Reads the part ID register.
    pub fn get_part_id(&mut self) -> (r: Result<u8, Error>)
        ensures
            final(self).address() == old(self).address(),
            old(self).log().is_prefix_of(final(self).log()),
            r is Ok ==> register_read(
                appended(old(self).log(), final(self).log()),
                old(self).address(),
                PART_ID,
            ) && r->Ok_0 == final(self).log().last().bytes[0],
            r is Err ==> r == Err::<u8, Error>(Error::Bus) && read_cut_short(
                appended(old(self).log(), final(self).log()),
                old(self).address(),
                PART_ID,
            ),
    {
        self.read_reg(PART_ID)
    }

    /// Replaces the mode field of the mode register.
    pub fn set_mode(&mut self, mode: OperatingMode) -> (r: Result<(), Error>)
        ensures
            final(self).address() == old(self).address(),
            old(self).log().is_prefix_of(final(self).log()),
            r is Ok ==> read_modify_write(
                appended(old(self).log(), final(self).log()),
                old(self).address(),
                MODE_CONF,
                |c: u8| mode_value(c, mode),
            ),
            r is Err ==> r == Err::<(), Error>(Error::Bus) && update_cut_short(
                appended(old(self).log(), final(self).log()),
                old(self).address(),
                MODE_CONF,
                |c: u8| mode_value(c, mode),
            ),
    {
        let ghost before = self.log();
        let current = match self.read_reg(MODE_CONF) {
            Ok(v) => v,
            Err(e) => {
                return Err(e);
            },
        };
        let ghost mid = self.log();
        let r = self.write_reg(MODE_CONF, mode_config(current, mode));
        proof {
            lemma_read_then_write(before, mid, self.log(), self.address, MODE_CONF, |c: u8| mode_value(c, mode), r is Ok);
        }
        r
    }

    /// Sets or clears the high-resolution bit of the SpO2 register.
    pub fn set_high_resolution(&mut self, high_resolution: bool) -> (r: Result<(), Error>)
        ensures
            final(self).address() == old(self).address(),
            old(self).log().is_prefix_of(final(self).log()),
            r is Ok ==> read_modify_write(
                appended(old(self).log(), final(self).log()),
                old(self).address(),
                SPO2_CONF,
                |c: u8| resolution_value(c, high_resolution),
            ),
            r is Err ==> r == Err::<(), Error>(Error::Bus) && update_cut_short(
                appended(old(self).log(), final(self).log()),
                old(self).address(),
                SPO2_CONF,
                |c: u8| resolution_value(c, high_resolution),
            ),
    {
        let ghost before = self.log();
        let current = match self.read_reg(SPO2_CONF) {
            Ok(v) => v,
            Err(e) => {
                return Err(e);
            },
        };
        let ghost mid = self.log();
        let r = self.write_reg(SPO2_CONF, resolution_config(current, high_resolution));
        proof {
            lemma_read_then_write(before, mid, self.log(), self.address, SPO2_CONF, |c: u8| resolution_value(c, high_resolution), r is Ok);
        }
        r
    }

    /// Replaces the sample-rate field of the SpO2 register.
    pub fn set_sampling_rate(&mut self, sampling_rate: SamplingRate) -> (r: Result<(), Error>)
        ensures
            final(self).address() == old(self).address(),
            old(self).log().is_prefix_of(final(self).log()),
            r is Ok ==> read_modify_write(
                appended(old(self).log(), final(self).log()),
                old(self).address(),
                SPO2_CONF,
                |c: u8| rate_value(c, sampling_rate),
            ),
            r is Err ==> r == Err::<(), Error>(Error::Bus) && update_cut_short(
                appended(old(self).log(), final(self).log()),
                old(self).address(),
                SPO2_CONF,
                |c: u8| rate_value(c, sampling_rate),
            ),
    {
        let ghost before = self.log();
        let current = match self.read_reg(SPO2_CONF) {
            Ok(v) => v,
            Err(e) => {
                return Err(e);
            },
        };
        let ghost mid = self.log();
        let r = self.write_reg(SPO2_CONF, rate_config(current, sampling_rate));
        proof {
            lemma_read_then_write(before, mid, self.log(), self.address, SPO2_CONF, |c: u8| rate_value(c, sampling_rate), r is Ok);
        }
        r
    }

    /// Replaces the pulse-width field of the SpO2 register.
    pub fn set_led_pulse_width(&mut self, width: PulseWidth) -> (r: Result<(), Error>)
        ensures
            final(self).address() == old(self).address(),
            old(self).log().is_prefix_of(final(self).log()),
            r is Ok ==> read_modify_write(
                appended(old(self).log(), final(self).log()),
                old(self).address(),
                SPO2_CONF,
                |c: u8| width_value(c, width),
            ),
            r is Err ==> r == Err::<(), Error>(Error::Bus) && update_cut_short(
                appended(old(self).log(), final(self).log()),
                old(self).address(),
                SPO2_CONF,
                |c: u8| width_value(c, width),
            ),
    {
        let ghost before = self.log();
        let current = match self.read_reg(SPO2_CONF) {
            Ok(v) => v,
            Err(e) => {
                return Err(e);
            },
        };
        let ghost mid = self.log();
        let r = self.write_reg(SPO2_CONF, width_config(current, width));
        proof {
            lemma_read_then_write(before, mid, self.log(), self.address, SPO2_CONF, |c: u8| width_value(c, width), r is Ok);
        }
        r
    }

    /// Writes both LED currents: red in the high nibble, infrared in the low one.
    pub fn set_led_current(&mut self, red: LEDCurrent, ir: LEDCurrent) -> (r: Result<(), Error>)
        ensures
            final(self).address() == old(self).address(),
            r is Ok ==> final(self).log() == old(self).log().push(
                write_of(old(self).address(), seq![LED_CONF, led_value(red, ir)]),
            ),
            r is Err ==> r == Err::<(), Error>(Error::Bus) && final(self).log() == old(self).log().push(
                failed_write(old(self).address(), seq![LED_CONF, led_value(red, ir)]),
            ),
    {
        self.write_reg(LED_CONF, led_config(red, ir))
    }

    /// Starts a die-temperature conversion by setting the temperature bit of the mode register.
    pub fn read_temperature(&mut self) -> (r: Result<(), Error>)
        ensures
            final(self).address() == old(self).address(),
            old(self).log().is_prefix_of(final(self).log()),
            r is Ok ==> read_modify_write(
                appended(old(self).log(), final(self).log()),
                old(self).address(),
                MODE_CONF,
                |c: u8| temperature_start_value(c),
            ),
            r is Err ==> r == Err::<(), Error>(Error::Bus) && update_cut_short(
                appended(old(self).log(), final(self).log()),
                old(self).address(),
                MODE_CONF,
                |c: u8| temperature_start_value(c),
            ),
    {
        let ghost before = self.log();
        let current = match self.read_reg(MODE_CONF) {
            Ok(v) => v,
            Err(e) => {
                return Err(e);
            },
        };
        let ghost mid = self.log();
        let r = self.write_reg(MODE_CONF, temperature_start(current));
        proof {
            lemma_read_then_write(before, mid, self.log(), self.address, MODE_CONF, |c: u8| temperature_start_value(c), r is Ok);
        }
        r
    }

    /// Reads the two temperature registers and returns the die temperature in
    /// sixteenths of a degree Celsius.
    pub fn get_temperature_sixteenths(&mut self) -> (r: Result<i16, Error>)
        ensures
            final(self).address() == old(self).address(),
            old(self).log().is_prefix_of(final(self).log()),
            r is Ok ==> {
                let seg = appended(old(self).log(), final(self).log());
                &&& seg.len() == 4
                &&& register_read(seg.take(2), old(self).address(), TEMP_INT)
                &&& register_read(seg.skip(2), old(self).address(), TEMP_FRACTION)
                &&& r->Ok_0 as int == signed_byte(seg[1].bytes[0]) * 16 + seg[3].bytes[0] as int
            },
            r is Err ==> {
                let seg = appended(old(self).log(), final(self).log());
                &&& r == Err::<i16, Error>(Error::Bus)
                &&& read_cut_short(seg, old(self).address(), TEMP_INT) || register_read(
                    seg.take(2),
                    old(self).address(),
                    TEMP_INT,
                ) && read_cut_short(seg.skip(2), old(self).address(), TEMP_FRACTION)
            },
    {
        let ghost before = self.log();
        let integer = match self.read_reg(TEMP_INT) {
            Ok(v) => v,
            Err(e) => {
                return Err(e);
            },
        };
        let ghost mid = self.log();
        let fraction = self.read_reg(TEMP_FRACTION);
        proof {
            let seg = appended(before, self.log());
            assert(seg.take(2) =~= appended(before, mid));
            assert(seg.skip(2) =~= appended(mid, self.log()));
        }
        match fraction {
            Ok(f) => Ok(temperature_sixteenths(integer, f)),
            Err(e) => Err(e),
        }
    }

    /// Reads one sample from the FIFO: four bytes, infrared then red, each
    /// most significant byte first.
    pub fn read_fifo(&mut self) -> (r: Result<FIFO, Error>)
        ensures
            final(self).address() == old(self).address(),
            old(self).log().is_prefix_of(final(self).log()),
            r is Ok ==> {
                let seg = appended(old(self).log(), final(self).log());
                let b = seg[1].bytes;
                &&& seg.len() == 2
                &&& seg[0] == write_of(old(self).address(), seq![FIFO_DATA])
                &&& is_read_of(seg[1], old(self).address(), 4)
                &&& r->Ok_0 == (FIFO { infrared: be16(b[0], b[1]), red: be16(b[2], b[3]) })
            },
            r is Err ==> r == Err::<FIFO, Error>(Error::Bus) && read_cut_short(
                appended(old(self).log(), final(self).log()),
                old(self).address(),
                FIFO_DATA,
            ),
    {
        let mut select: Vec<u8> = Vec::new();
        select.push(FIFO_DATA);
        assert(select@ =~= seq![FIFO_DATA]);
        let selected = self.i2c.write(self.address, &select);
        let ghost mid = self.log();
        proof {
            if selected is Ok {
                assert(appended(old(self).log(), mid) =~= seq![write_of(self.address, seq![FIFO_DATA])]);
            } else {
                assert(appended(old(self).log(), mid) =~= seq![failed_write(self.address, seq![FIFO_DATA])]);
            }
        }
        match selected {
            Ok(()) => {},
            Err(_) => {
                return Err(Error::Bus);
            },
        }
        let mut data: Vec<u8> = Vec::new();
        data.push(0u8);
        data.push(0u8);
        data.push(0u8);
        data.push(0u8);
        let read = self.i2c.read(self.address, &mut data);
        proof {
            let seg = appended(old(self).log(), self.log());
            assert(seg[0] == mid.last());
            assert(seg[1] == self.log().last());
            assert(seg.len() == 2);
        }
        match read {
            Ok(()) => {},
            Err(_) => {
                return Err(Error::Bus);
            },
        }
        if data.len() != 4 {
            return Err(Error::Bus);
        }
        Ok(FIFO { infrared: decode_word(data[0], data[1]), red: decode_word(data[2], data[3]) })
    }

    /// Writes `value` to `register`.
    fn write_reg(&mut self, register: u8, value: u8) -> (r: Result<(), Error>)
        ensures
            final(self).address() == old(self).address(),
            final(self).log() == old(self).log().push(
                Transaction {
                    address: old(self).address(),
                    write: true,
                    bytes: seq![register, value],
                    ok: r is Ok,
                },
            ),
            r is Err ==> r == Err::<(), Error>(Error::Bus),
    {
        let mut bytes: Vec<u8> = Vec::new();
        bytes.push(register);
        bytes.push(value);
        assert(bytes@ =~= seq![register, value]);
        match self.i2c.write(self.address, &bytes) {
            Ok(()) => Ok(()),
            Err(_) => Err(Error::Bus),
        }
    }

    /// Selects `register` and reads one byte of it.
    fn read_reg(&mut self, register: u8) -> (r: Result<u8, Error>)
        ensures
            final(self).address() == old(self).address(),
            old(self).log().is_prefix_of(final(self).log()),
            r is Ok ==> register_read(
                appended(old(self).log(), final(self).log()),
                old(self).address(),
                register,
            ) && r->Ok_0 == final(self).log().last().bytes[0],
            r is Err ==> r == Err::<u8, Error>(Error::Bus) && read_cut_short(
                appended(old(self).log(), final(self).log()),
                old(self).address(),
                register,
            ),
    {
        let mut select: Vec<u8> = Vec::new();
        select.push(register);
        assert(select@ =~= seq![register]);
        let selected = self.i2c.write(self.address, &select);
        let ghost mid = self.log();
        proof {
            if selected is Ok {
                assert(appended(old(self).log(), mid) =~= seq![write_of(self.address, seq![register])]);
            } else {
                assert(appended(old(self).log(), mid) =~= seq![failed_write(self.address, seq![register])]);
            }
        }
        match selected {
            Ok(()) => {},
            Err(_) => {
                return Err(Error::Bus);
            },
        }
        let mut value: Vec<u8> = Vec::new();
        value.push(0u8);
        let read = self.i2c.read(self.address, &mut value);
        proof {
            let seg = appended(old(self).log(), self.log());
            assert(seg[0] == mid.last());
            assert(seg[1] == self.log().last());
            assert(seg.len() == 2);
        }
        match read {
            Ok(()) => {},
            Err(_) => {
                return Err(Error::Bus);
            },
        }
        if value.len() != 1 {
            return Err(Error::Bus);
        }
        Ok(value[0])
    }
}

} // verus!
