//! Driver for the AD7705/AD7706 family of 16-bit delta-sigma converters.
//!
//! Every register access is framed by a write to the communication register,
//! which names the register, the channel and the direction of the next transfer.

use vstd::prelude::*;

use crate::bus::{Drive, Error, Exchange, OutputPin, SpiTransfer};

verus! {

/// Register selector, bits RS2..RS0 of the communication register.
#[allow(non_camel_case_types)]
#[derive(Debug, Clone, Copy, PartialEq, Eq, PartialOrd, Ord, Structural)]
pub enum Reg {
    /// Communication register, 8 bit.
    CMM,
    /// Setup register, 8 bit.
    SETUP,
    /// Clock register, 8 bit.
    CLOCK,
    /// Data register, 16 bit, holds the conversion result.
    DATA,
    /// Test register, 8 bit.
    TEST,
    /// No operation.
    NOP,
    /// Offset calibration register, 24 bit.
    OFFSET,
    /// Gain calibration register, 24 bit.
    GAIN,
}

impl Reg {
    pub open spec fn spec_code(self) -> u8 {
        match self {
            Reg::CMM => 0,
            Reg::SETUP => 1,
            Reg::CLOCK => 2,
            Reg::DATA => 3,
            Reg::TEST => 4,
            Reg::NOP => 5,
            Reg::OFFSET => 6,
            Reg::GAIN => 7,
        }
    }

    /// The 3-bit selector of this register.
    #[verifier::when_used_as_spec(spec_code)]
    pub fn code(self) -> (r: u8)
        ensures
            r == self.spec_code(),
            r < 8,
    {
        match self {
            Reg::CMM => 0,
            Reg::SETUP => 1,
            Reg::CLOCK => 2,
            Reg::DATA => 3,
            Reg::TEST => 4,
            Reg::NOP => 5,
            Reg::OFFSET => 6,
            Reg::GAIN => 7,
        }
    }
}

/// Input channel selector, bits CH1..CH0. The AD7705 has the first two only.
#[allow(non_camel_case_types)]
#[derive(Debug, Clone, Copy, PartialEq, Eq, PartialOrd, Ord, Structural)]
pub enum Channel {
    /// AIN1, calibration register pair 0.
    AIN1,
    /// AIN2, calibration register pair 1.
    AIN2,
    /// Common input, calibration register pair 0.
    COMM,
    /// AIN3, calibration register pair 2.
    AIN3,
}

impl Channel {
    pub open spec fn spec_code(self) -> u8 {
        match self {
            Channel::AIN1 => 0,
            Channel::AIN2 => 1,
            Channel::COMM => 2,
            Channel::AIN3 => 3,
        }
    }

    /// The 2-bit selector of this channel.
    #[verifier::when_used_as_spec(spec_code)]
    pub fn code(self) -> (r: u8)
        ensures
            r == self.spec_code(),
            r < 4,
    {
        match self {
            Channel::AIN1 => 0,
            Channel::AIN2 => 1,
            Channel::COMM => 2,
            Channel::AIN3 => 3,
        }
    }
}

/// Output update rate, bits CLK FS1 FS0 of the clock register.
#[derive(Debug, Clone, Copy, PartialEq, Eq, PartialOrd, Ord, Structural)]
pub enum UpdateRate {
    H20,
    H25,
    H100,
    H200,
    H50,
    H60,
    H250,
    H500,
}

impl UpdateRate {
    pub open spec fn spec_code(self) -> u8 {
        match self {
            UpdateRate::H20 => 0,
            UpdateRate::H25 => 1,
            UpdateRate::H100 => 2,
            UpdateRate::H200 => 3,
            UpdateRate::H50 => 4,
            UpdateRate::H60 => 5,
            UpdateRate::H250 => 6,
            UpdateRate::H500 => 7,
        }
    }

    /// The 3-bit rate field.
    #[verifier::when_used_as_spec(spec_code)]
    pub fn code(self) -> (r: u8)
        ensures
            r == self.spec_code(),
            r < 8,
    {
        match self {
            UpdateRate::H20 => 0,
            UpdateRate::H25 => 1,
            UpdateRate::H100 => 2,
            UpdateRate::H200 => 3,
            UpdateRate::H50 => 4,
            UpdateRate::H60 => 5,
            UpdateRate::H250 => 6,
            UpdateRate::H500 => 7,
        }
    }
}

/// Operating mode, bits MD1..MD0 of the setup register. The two system
/// calibrations expect FSYNC high before they start and low after them.
#[derive(Debug, Clone, Copy, PartialEq, Eq, PartialOrd, Ord, Structural)]
pub enum OperatingMode {
    Normal,
    SelfCalibration,
    ZeroScaleCalibration,
    FullScaleCalibration,
}

impl OperatingMode {
    pub open spec fn spec_code(self) -> u8 {
        match self {
            OperatingMode::Normal => 0,
            OperatingMode::SelfCalibration => 1,
            OperatingMode::ZeroScaleCalibration => 2,
            OperatingMode::FullScaleCalibration => 3,
        }
    }

    /// The 2-bit mode field.
    #[verifier::when_used_as_spec(spec_code)]
    pub fn code(self) -> (r: u8)
        ensures
            r == self.spec_code(),
            r < 4,
    {
        match self {
            OperatingMode::Normal => 0,
            OperatingMode::SelfCalibration => 1,
            OperatingMode::ZeroScaleCalibration => 2,
            OperatingMode::FullScaleCalibration => 3,
        }
    }
}

/// Programmable gain, bits G2..G0 of the setup register.
#[derive(Debug, Clone, Copy, PartialEq, Eq, PartialOrd, Ord, Structural)]
pub enum Gain {
    G1,
    G2,
    G4,
    G8,
    G16,
    G32,
    G64,
    G128,
}

impl Gain {
    pub open spec fn spec_code(self) -> u8 {
        match self {
            Gain::G1 => 0,
            Gain::G2 => 1,
            Gain::G4 => 2,
            Gain::G8 => 3,
            Gain::G16 => 4,
            Gain::G32 => 5,
            Gain::G64 => 6,
            Gain::G128 => 7,
        }
    }

    /// The 3-bit gain field.
    #[verifier::when_used_as_spec(spec_code)]
    pub fn code(self) -> (r: u8)
        ensures
            r == self.spec_code(),
            r < 8,
    {
        match self {
            Gain::G1 => 0,
            Gain::G2 => 1,
            Gain::G4 => 2,
            Gain::G8 => 3,
            Gain::G16 => 4,
            Gain::G32 => 5,
            Gain::G64 => 6,
            Gain::G128 => 7,
        }
    }
}

/// Input range, bit B/U of the setup register.
#[derive(Debug, Clone, Copy, PartialEq, Eq, PartialOrd, Ord, Structural)]
pub enum Polarity {
    Unipolar,
    Bipolar,
}

impl Polarity {
    pub open spec fn spec_code(self) -> u8 {
        match self {
            Polarity::Unipolar => 0,
            Polarity::Bipolar => 1,
        }
    }

    /// The 1-bit polarity field.
    #[verifier::when_used_as_spec(spec_code)]
    pub fn code(self) -> (r: u8)
        ensures
            r == self.spec_code(),
            r < 2,
    {
        match self {
            Polarity::Unipolar => 0,
            Polarity::Bipolar => 1,
        }
    }
}

/// Master clock division, bit CLKDIV of the clock register.
#[allow(non_camel_case_types)]
#[derive(Debug, Clone, Copy, PartialEq, Eq, PartialOrd, Ord, Structural)]
pub enum ClockDivider {
    DIV1,
    DIV2,
}

impl ClockDivider {
    pub open spec fn spec_code(self) -> u8 {
        match self {
            ClockDivider::DIV1 => 0,
            ClockDivider::DIV2 => 1,
        }
    }

    /// The 1-bit divider field.
    #[verifier::when_used_as_spec(spec_code)]
    pub fn code(self) -> (r: u8)
        ensures
            r == self.spec_code(),
            r < 2,
    {
        match self {
            ClockDivider::DIV1 => 0,
            ClockDivider::DIV2 => 1,
        }
    }
}

/// How one channel is brought up by [`AD770x::init`].
#[derive(Debug, Clone, Copy, PartialEq, Eq, Structural)]
pub struct ChannelConfig {
    pub clock_divider: ClockDivider,
    pub polarity: Polarity,
    pub gain: Gain,
    pub update_rate: UpdateRate,
}

impl Default for ChannelConfig {
    /// Divider 1, bipolar, gain 1, 25 Hz.
    fn default() -> (r: Self)
        ensures
            r == (ChannelConfig {
                clock_divider: ClockDivider::DIV1,
                polarity: Polarity::Bipolar,
                gain: Gain::G1,
                update_rate: UpdateRate::H25,
            }),
    {
        ChannelConfig {
            clock_divider: ClockDivider::DIV1,
            polarity: Polarity::Bipolar,
            gain: Gain::G1,
            update_rate: UpdateRate::H25,
        }
    }
}

pub open spec fn flag(b: bool) -> u8 {
    if b {
        1
    } else {
        0
    }
}

/// Communication register value that frames the next access:
/// register in bits 6..4, direction (1 = read) in bit 3, channel in bits 1..0.
pub open spec fn comm_byte(reg: Reg, channel: Channel, read: bool) -> u8 {
    (reg.spec_code() << 4u8) | (flag(read) << 3u8) | channel.spec_code()
}

/// Clock register value: disable field from bit 4, divider in bit 3, rate in
/// bits 2..0, with bit 2 (the clock-source bit) cleared.
pub open spec fn clock_byte(clkdis: u8, divider: ClockDivider, rate: UpdateRate) -> u8 {
    ((clkdis << 4u8) | (divider.spec_code() << 3u8) | rate.spec_code()) & 0xfbu8
}

/// Setup register value: mode in bits 7..6, gain in 5..3, polarity in 2,
/// buffer enable in 1, FSYNC in 0.
pub open spec fn setup_byte(
    mode: OperatingMode,
    gain: Gain,
    polarity: Polarity,
    buffered: bool,
    fsync: bool,
) -> u8 {
    (mode.spec_code() << 6u8) | (gain.spec_code() << 3u8) | (polarity.spec_code() << 2u8) | (
    flag(buffered) << 1u8) | flag(fsync)
}

/// Computes [`comm_byte`].
pub fn encode_comm(reg: Reg, channel: Channel, read: bool) -> (r: u8)
    ensures
        r == comm_byte(reg, channel, read),
{
    let rw: u8 = if read {
        1
    } else {
        0
    };
    (reg.code() << 4u8) | (rw << 3u8) | channel.code()
}

/// Computes [`clock_byte`].
pub fn encode_clock(clkdis: u8, divider: ClockDivider, rate: UpdateRate) -> (r: u8)
    ensures
        r == clock_byte(clkdis, divider, rate),
{
    let r: u8 = (clkdis << 4u8) | (divider.code() << 3u8) | rate.code();
    let r: u8 = r & !(1u8 << 2u8);
    assert(!(1u8 << 2u8) == 0xfbu8) by (bit_vector);
    r
}

/// Computes [`setup_byte`].
pub fn encode_setup(
    mode: OperatingMode,
    gain: Gain,
    polarity: Polarity,
    buffered: bool,
    fsync: bool,
) -> (r: u8)
    ensures
        r == setup_byte(mode, gain, polarity, buffered, fsync),
{
    let buf: u8 = if buffered {
        1
    } else {
        0
    };
    let sync: u8 = if fsync {
        1
    } else {
        0
    };
    (mode.code() << 6u8) | (gain.code() << 3u8) | (polarity.code() << 2u8) | (buf << 1u8) | sync
}

/// The communication byte keeps bits 7 and 2 clear, and its register,
/// direction and channel fields read back what was put in.
pub proof fn lemma_comm_byte_fields(reg: Reg, channel: Channel, read: bool)
    ensures
        comm_byte(reg, channel, read) & 0x84u8 == 0,
        (comm_byte(reg, channel, read) >> 4u8) & 7u8 == reg.spec_code(),
        (comm_byte(reg, channel, read) >> 3u8) & 1u8 == flag(read),
        comm_byte(reg, channel, read) & 3u8 == channel.spec_code(),
{
    let r = reg.spec_code();
    let d = flag(read);
    let c = channel.spec_code();
    assert(r < 8 && d < 2 && c < 4);
    assert(((r << 4u8) | (d << 3u8) | c) & 0x84u8 == 0 && (((r << 4u8) | (d << 3u8) | c) >> 4u8)
        & 7u8 == r && (((r << 4u8) | (d << 3u8) | c) >> 3u8) & 1u8 == d && ((r << 4u8) | (d
        << 3u8) | c) & 3u8 == c) by (bit_vector)
        requires
            r < 8,
            d < 2,
            c < 4,
    ;
}

/// Whatever the inputs, the clock byte has bit 2 clear; when the disable
/// value is 0 or 1 it sits in bit 4, the divider in bit 3 and the low two
/// rate bits in bits 1..0.
pub proof fn lemma_clock_byte_fields(clkdis: u8, divider: ClockDivider, rate: UpdateRate)
    ensures
        clock_byte(clkdis, divider, rate) & 4u8 == 0,
        clkdis < 2 ==> clock_byte(clkdis, divider, rate) == (clkdis << 4u8) | (
        divider.spec_code() << 3u8) | (rate.spec_code() & 3u8),
{
    let v = divider.spec_code();
    let f = rate.spec_code();
    assert(v < 2 && f < 8);
    assert((((clkdis << 4u8) | (v << 3u8) | f) & 0xfbu8) & 4u8 == 0) by (bit_vector);
    assert(clkdis < 2 ==> ((clkdis << 4u8) | (v << 3u8) | f) & 0xfbu8 == (clkdis << 4u8) | (v
        << 3u8) | (f & 3u8)) by (bit_vector)
        requires
            v < 2,
            f < 8,
    ;
}

/// The setup byte is the exact sum of its fields, each in its own bits.
pub proof fn lemma_setup_byte_fields(
    mode: OperatingMode,
    gain: Gain,
    polarity: Polarity,
    buffered: bool,
    fsync: bool,
)
    ensures
        setup_byte(mode, gain, polarity, buffered, fsync) as int == mode.spec_code() * 64
            + gain.spec_code() * 8 + polarity.spec_code() * 4 + flag(buffered) * 2 + flag(fsync),
{
    let m = mode.spec_code();
    let g = gain.spec_code();
    let p = polarity.spec_code();
    let b = flag(buffered);
    let s = flag(fsync);
    assert(m < 4 && g < 8 && p < 2 && b < 2 && s < 2);
    assert(((m << 6u8) | (g << 3u8) | (p << 2u8) | (b << 1u8) | s) as int == m * 64 + g * 8 + p
        * 4 + b * 2 + s) by (bit_vector)
        requires
            m < 4,
            g < 8,
            p < 2,
            b < 2,
            s < 2,
    ;
}

/// The bytes sent in each exchange of `seg`.
pub open spec fn sends(seg: Seq<Exchange>) -> Seq<Seq<u8>> {
    seg.map_values(|e: Exchange| e.sent)
}

/// What `after` holds beyond `before`.
pub open spec fn appended<A>(before: Seq<A>, after: Seq<A>) -> Seq<A> {
    after.subrange(before.len() as int, after.len() as int)
}

/// The exchange completed and received as many bytes as it sent.
pub open spec fn sound(e: Exchange) -> bool {
    e.ok && e.received.len() == e.sent.len()
}

pub open spec fn all_sound(seg: Seq<Exchange>) -> bool {
    forall|i: int| 0 <= i < seg.len() ==> sound(#[trigger] seg[i])
}

/// Chip-select drives for `n` framed exchanges: low, then high, each completed.
pub open spec fn framed(n: nat) -> Seq<Drive> {
    Seq::new(2 * n, |i: int| Drive { high: i % 2 == 1, ok: true })
}

/// Every exchange completed, each framed by chip select driven low before
/// it and high after it, and nothing else was attempted.
pub open spec fn clean(drives: Seq<Drive>, seg: Seq<Exchange>) -> bool {
    &&& all_sound(seg)
    &&& drives == framed(seg.len())
}

/// Clean steps, then one framed transfer that failed, after which nothing was
/// attempted: either chip select could not be driven low (no transfer), or it
/// was, the transfer was attempted, and chip select was driven high, with the
/// transfer or that last drive failing.
pub open spec fn cut(drives: Seq<Drive>, seg: Seq<Exchange>) -> bool {
    ||| {
        &&& drives.len() >= 1
        &&& clean(drives.drop_last(), seg)
        &&& drives.last() == Drive { high: false, ok: false }
    }
    ||| {
        &&& seg.len() >= 1
        &&& drives.len() >= 2
        &&& clean(drives.take(drives.len() - 2), seg.drop_last())
        &&& drives[drives.len() - 2] == Drive { high: false, ok: true }
        &&& drives.last().high
        &&& !(seg.last().ok && drives.last().ok)
        &&& seg.last().ok ==> seg.last().received.len() == seg.last().sent.len()
    }
}

/// Between two states of the chip-select line and of the bus, the operation
/// sent `frames`: all of them, each completed, when `complete`; otherwise a
/// prefix of them, stopping at the first failure.
pub open spec fn bus_did(
    d0: Seq<Drive>,
    d1: Seq<Drive>,
    x0: Seq<Exchange>,
    x1: Seq<Exchange>,
    frames: Seq<Seq<u8>>,
    complete: bool,
) -> bool {
    &&& d0.is_prefix_of(d1)
    &&& x0.is_prefix_of(x1)
    &&& if complete {
        &&& clean(appended(d0, d1), appended(x0, x1))
        &&& sends(appended(x0, x1)) == frames
    } else {
        &&& cut(appended(d0, d1), appended(x0, x1))
        &&& sends(appended(x0, x1)).is_prefix_of(frames)
    }
}

/// What one framed transfer of `sent` did: chip select driven low once; if
/// that failed, nothing more and a chip-select error; otherwise one transfer
/// attempt leaving `received` in the buffer, one drive high, and the result
/// [`frame_result`] of those outcomes.
pub open spec fn framed_transfer(
    d0: Seq<Drive>,
    d1: Seq<Drive>,
    x0: Seq<Exchange>,
    x1: Seq<Exchange>,
    sent: Seq<u8>,
    received: Seq<u8>,
    r: Result<(), Error>,
) -> bool {
    let d = appended(d0, d1);
    let x = appended(x0, x1);
    &&& d0.is_prefix_of(d1)
    &&& x0.is_prefix_of(x1)
    &&& d.len() >= 1
    &&& d[0].high == false
    &&& if !d[0].ok {
        &&& d.len() == 1
        &&& x.len() == 0
        &&& r == Err::<(), Error>(Error::ChipSelect)
    } else {
        &&& d.len() == 2
        &&& d[1].high
        &&& x.len() == 1
        &&& x[0].sent == sent
        &&& x[0].received == received
        &&& x[0].ok ==> received.len() == sent.len()
        &&& r == frame_result(true, x[0].ok, received.len() == sent.len(), d[1].ok)
    }
}

/// Outcome of one framed transfer, from whether chip select was asserted,
/// whether the transfer completed, whether it kept the buffer's length and
/// whether chip select was released.
pub open spec fn frame_result(selected: bool, moved: bool, kept: bool, released: bool) -> Result<
    (),
    Error,
> {
    if !selected {
        Err(Error::ChipSelect)
    } else if !moved || !kept {
        Err(Error::Bus)
    } else if !released {
        Err(Error::ChipSelect)
    } else {
        Ok(())
    }
}

/// True when a status byte has DRDY (bit 7, active low) clear.
pub open spec fn ready_status(status: u8) -> bool {
    status & 0x80u8 == 0
}

/// Big-endian value of a two-byte conversion word.
pub open spec fn be16(bytes: Seq<u8>) -> u16 {
    (bytes[0] as int * 256 + bytes[1] as int) as u16
}

/// `(raw * reference) / 65535`, truncated.
pub open spec fn scaled(raw: u16, reference: u16) -> u16 {
    ((raw as int * reference as int) / 65535) as u16
}

/// The two frames of one DRDY poll: a communication-register read for `channel`,
/// then one byte clocked out as 0.
pub open spec fn poll_frames(channel: Channel) -> Seq<Seq<u8>> {
    seq![seq![comm_byte(Reg::CMM, channel, true)], seq![0u8]]
}

/// `n` polls of `channel`, back to back.
pub open spec fn polls(channel: Channel, n: nat) -> Seq<Seq<u8>> {
    Seq::new(
        2 * n,
        |i: int|
            if i % 2 == 0 {
                seq![comm_byte(Reg::CMM, channel, true)]
            } else {
                seq![0u8]
            },
    )
}

/// The frames of a data-register read: its framing byte, then two bytes out as 0.
pub open spec fn data_frames(channel: Channel) -> Seq<Seq<u8>> {
    seq![seq![comm_byte(Reg::DATA, channel, true)], seq![0u8, 0u8]]
}

/// The frames that configure and start self-calibration of `channel`.
pub open spec fn init_frames(channel: Channel, config: ChannelConfig) -> Seq<Seq<u8>> {
    seq![
        seq![comm_byte(Reg::CLOCK, channel, false)],
        seq![clock_byte(0, config.clock_divider, config.update_rate)],
        seq![comm_byte(Reg::SETUP, channel, false)],
        seq![setup_byte(OperatingMode::SelfCalibration, config.gain, config.polarity, false, false)],
    ]
}

/// The frame of a reset: 100 bytes of 0xFF.
pub open spec fn reset_frame() -> Seq<u8> {
    Seq::new(100, |i: int| 0xffu8)
}

/// The status byte returned by the `j`-th poll of a segment made of polls.
pub open spec fn poll_ready(seg: Seq<Exchange>, j: int) -> bool {
    ready_status(seg[2 * j + 1].received[0])
}

/// Every poll that completed within `seg` (at most `n` of them) found the
/// chip busy.
pub open spec fn all_busy(seg: Seq<Exchange>, n: int) -> bool {
    forall|j: int| 0 <= j < n && 2 * j + 1 < seg.len() ==> !#[trigger] poll_ready(seg, j)
}

/// `seg` is `n` polls of `channel` (at least one), of which the last alone
/// found the chip ready.
pub open spec fn polled_until_ready(seg: Seq<Exchange>, channel: Channel, n: nat) -> bool {
    &&& n >= 1
    &&& sends(seg) == polls(channel, n)
    &&& all_busy(seg, n - 1)
    &&& poll_ready(seg, n - 1)
}

/// What a bounded wait for DRDY on `channel` did, given its outcome: on
/// success `n` polls, the last alone finding the chip ready; on timeout
/// `limit` polls, all finding it busy; on a bus or chip-select failure a
/// prefix of `limit` polls ending at the failure, each poll before it
/// finding the chip busy.
pub open spec fn waited(
    d0: Seq<Drive>,
    d1: Seq<Drive>,
    before: Seq<Exchange>,
    after: Seq<Exchange>,
    channel: Channel,
    limit: u32,
    outcome: Result<(), Error>,
) -> bool {
    let seg = appended(before, after);
    match outcome {
        Ok(()) => {
            &&& 1 <= seg.len() / 2 <= limit
            &&& bus_did(d0, d1, before, after, polls(channel, (seg.len() / 2) as nat), true)
            &&& polled_until_ready(seg, channel, (seg.len() / 2) as nat)
        },
        Err(Error::Timeout) => {
            &&& bus_did(d0, d1, before, after, polls(channel, limit as nat), true)
            &&& all_busy(seg, limit as int)
        },
        Err(_) => {
            &&& limit >= 1
            &&& bus_did(d0, d1, before, after, polls(channel, limit as nat), false)
            &&& all_busy(seg, (seg.len() - 1) / 2)
        },
    }
}

/// What `read` did: a successful wait followed by a data read whose two
/// bytes, most significant first, are the result; or a wait that failed; or
/// a successful wait and a data read that failed.
pub open spec fn read_done(
    d0: Seq<Drive>,
    d1: Seq<Drive>,
    before: Seq<Exchange>,
    after: Seq<Exchange>,
    channel: Channel,
    limit: u32,
    r: Result<u16, Error>,
) -> bool {
    match r {
        Ok(v) => {
            &&& exists|dm: Seq<Drive>, mid: Seq<Exchange>|
                #[trigger] waited(d0, dm, before, mid, channel, limit, Ok(())) && bus_did(
                    dm,
                    d1,
                    mid,
                    after,
                    data_frames(channel),
                    true,
                )
            &&& v == be16(after.last().received)
        },
        Err(e) => {
            ||| waited(d0, d1, before, after, channel, limit, Err(e))
            ||| (e != Error::Timeout && exists|dm: Seq<Drive>, mid: Seq<Exchange>|
                #[trigger] waited(d0, dm, before, mid, channel, limit, Ok(())) && bus_did(
                    dm,
                    d1,
                    mid,
                    after,
                    data_frames(channel),
                    false,
                ))
        },
    }
}

/// What `init` did: the four configuration frames followed by a wait with
/// the same outcome, or, on a bus or chip-select failure, a prefix of those
/// frames ending at the failure.
pub open spec fn init_done(
    d0: Seq<Drive>,
    d1: Seq<Drive>,
    before: Seq<Exchange>,
    after: Seq<Exchange>,
    channel: Channel,
    config: ChannelConfig,
    limit: u32,
    r: Result<(), Error>,
) -> bool {
    ||| (exists|dm: Seq<Drive>, mid: Seq<Exchange>|
        #[trigger] bus_did(d0, dm, before, mid, init_frames(channel, config), true) && waited(
            dm,
            d1,
            mid,
            after,
            channel,
            limit,
            r,
        ))
    ||| (r is Err && r != Err::<(), Error>(Error::Timeout) && bus_did(
        d0,
        d1,
        before,
        after,
        init_frames(channel, config),
        false,
    ))
}

/// The first `m` polls are a prefix of the first `n`.
proof fn lemma_polls_prefix(channel: Channel, m: nat, n: nat)
    requires
        m <= n,
    ensures
        polls(channel, m) =~= polls(channel, n).subrange(0, 2 * m as int),
        polls(channel, m) + poll_frames(channel) =~= polls(channel, m + 1),
{
}

/// Clean steps followed by clean steps are clean.
proof fn lemma_clean_concat(da: Seq<Drive>, xa: Seq<Exchange>, db: Seq<Drive>, xb: Seq<Exchange>)
    requires
        clean(da, xa),
        clean(db, xb),
    ensures
        clean(da + db, xa + xb),
{
    let a = xa.len();
    let b = xb.len();
    assert(framed(a) + framed(b) =~= framed(a + b)) by {
        assert forall|i: int| 0 <= i < 2 * (a + b) implies (framed(a) + framed(b))[i] == framed(
            a + b,
        )[i] by {
            if i >= 2 * a {
                assert((i - 2 * a) % 2 == i % 2);
            }
        }
    }
    assert forall|i: int| 0 <= i < (xa + xb).len() implies sound(#[trigger] (xa + xb)[i]) by {
        if i < a {
            assert(sound(xa[i]));
        } else {
            assert(sound(xb[i - a]));
        }
    }
}

/// Clean steps followed by steps cut short are cut short.
proof fn lemma_clean_then_cut(da: Seq<Drive>, xa: Seq<Exchange>, db: Seq<Drive>, xb: Seq<Exchange>)
    requires
        clean(da, xa),
        cut(db, xb),
    ensures
        cut(da + db, xa + xb),
{
    let d = da + db;
    let x = xa + xb;
    if db.len() >= 1 && clean(db.drop_last(), xb) && db.last() == (Drive { high: false, ok: false }) {
        lemma_clean_concat(da, xa, db.drop_last(), xb);
        assert(d.drop_last() =~= da + db.drop_last());
    } else {
        lemma_clean_concat(da, xa, db.take(db.len() - 2), xb.drop_last());
        assert(d.take(d.len() - 2) =~= da + db.take(db.len() - 2));
        assert(x.drop_last() =~= xa + xb.drop_last());
    }
}

/// Doing `first` completely and then `second` does `first + second`;
/// stopping at a failure within `second` does a prefix of `first + second`
/// that stops there.
pub proof fn lemma_did_then(
    d0: Seq<Drive>,
    d1: Seq<Drive>,
    d2: Seq<Drive>,
    x0: Seq<Exchange>,
    x1: Seq<Exchange>,
    x2: Seq<Exchange>,
    first: Seq<Seq<u8>>,
    second: Seq<Seq<u8>>,
    complete: bool,
)
    requires
        bus_did(d0, d1, x0, x1, first, true),
        bus_did(d1, d2, x1, x2, second, complete),
    ensures
        bus_did(d0, d2, x0, x2, first + second, complete),
{
    assert(appended(x0, x2) =~= appended(x0, x1) + appended(x1, x2));
    assert(appended(d0, d2) =~= appended(d0, d1) + appended(d1, d2));
    assert(sends(appended(x0, x2)) =~= sends(appended(x0, x1)) + sends(appended(x1, x2)));
    if complete {
        lemma_clean_concat(appended(d0, d1), appended(x0, x1), appended(d1, d2), appended(x1, x2));
    } else {
        lemma_clean_then_cut(
            appended(d0, d1),
            appended(x0, x1),
            appended(d1, d2),
            appended(x1, x2),
        );
        assert(sends(appended(x0, x2)) =~= (first + second).subrange(
            0,
            sends(appended(x0, x2)).len() as int,
        ));
    }
}

/// A framed transfer of one frame does that frame, completely exactly when
/// it succeeded.
proof fn lemma_framed_transfer(
    d0: Seq<Drive>,
    d1: Seq<Drive>,
    x0: Seq<Exchange>,
    x1: Seq<Exchange>,
    sent: Seq<u8>,
    received: Seq<u8>,
    r: Result<(), Error>,
)
    requires
        framed_transfer(d0, d1, x0, x1, sent, received, r),
    ensures
        bus_did(d0, d1, x0, x1, seq![sent], r is Ok),
        r is Ok ==> x1.len() == x0.len() + 1 && x1.last().received == received && received.len()
            == sent.len(),
{
    let d = appended(d0, d1);
    let x = appended(x0, x1);
    if !d[0].ok {
        assert(d.drop_last() =~= Seq::<Drive>::empty());
        assert(framed(0) =~= Seq::<Drive>::empty());
        assert(sends(x) =~= Seq::<Seq<u8>>::empty());
    } else {
        assert(sends(x) =~= seq![sent]);
        assert(x1.last() == x[0]);
        if r is Ok {
            assert(framed(1) =~= seq![Drive { high: false, ok: true }, Drive { high: true, ok: true }]);
            assert(d =~= framed(1));
        } else {
            assert(d.take(0) =~= Seq::<Drive>::empty());
            assert(x.drop_last() =~= Seq::<Exchange>::empty());
            assert(framed(0) =~= Seq::<Drive>::empty());
        }
    }
}

/// Nothing done is a complete run of no frames.
proof fn lemma_did_nothing(d: Seq<Drive>, x: Seq<Exchange>)
    ensures
        bus_did(d, d, x, x, Seq::<Seq<u8>>::empty(), true),
{
    assert(appended(d, d) =~= Seq::<Drive>::empty());
    assert(appended(x, x) =~= Seq::<Exchange>::empty());
    assert(framed(0) =~= Seq::<Drive>::empty());
    assert(sends(appended(x, x)) =~= Seq::<Seq<u8>>::empty());
}

/// A run cut short within some frames is also one cut short within a longer plan.
proof fn lemma_did_prefix(
    d0: Seq<Drive>,
    d1: Seq<Drive>,
    x0: Seq<Exchange>,
    x1: Seq<Exchange>,
    shorter: Seq<Seq<u8>>,
    longer: Seq<Seq<u8>>,
)
    requires
        bus_did(d0, d1, x0, x1, shorter, false),
        shorter.is_prefix_of(longer),
    ensures
        bus_did(d0, d1, x0, x1, longer, false),
{
    let s = sends(appended(x0, x1));
    assert(s =~= longer.subrange(0, s.len() as int));
}

/// Decides the outcome of a framed transfer: chip select that could not be
/// asserted or released is reported as such, a failed transfer or one that
/// changed the buffer's length as a bus error.
pub fn frame_outcome(selected: bool, moved: bool, kept: bool, released: bool) -> (r: Result<
    (),
    Error,
>)
    ensures
        r == frame_result(selected, moved, kept, released),
{
    if !selected {
        Err(Error::ChipSelect)
    } else if !moved || !kept {
        Err(Error::Bus)
    } else if !released {
        Err(Error::ChipSelect)
    } else {
        Ok(())
    }
}

/// Returns true when a status byte read from the communication register has
/// DRDY clear, that is, when a conversion or calibration result is waiting.
pub fn status_ready(status: u8) -> (r: bool)
    ensures
        r == ready_status(status),
{
    (status & 0x80u8) == 0
}

/// Decodes the two bytes of the data register, most significant first.
pub fn decode_conversion(high: u8, low: u8) -> (r: u16)
    ensures
        r == be16(seq![high, low]),
{
    let r: u16 = ((high as u16) << 8u16) | (low as u16);
    assert(((high as u16) << 8u16) | (low as u16) == (high as int * 256 + low as int) as u16)
        by (bit_vector);
    r
}

/// Scales a raw 16-bit code to the unit of `reference`: `(raw * reference) / 65535`.
pub fn scale_to_reference(raw: u16, reference: u16) -> (r: u16)
    ensures
        r == scaled(raw, reference),
        r <= reference,
{
    proof {
        lemma_scaled_bounds(raw, reference);
    }
    let product: u32 = raw as u32 * reference as u32;
    (product / 65535) as u16
}

/// The scaled value never exceeds the reference, so it fits in 16 bits.
proof fn lemma_scaled_bounds(raw: u16, reference: u16)
    ensures
        (raw as int * reference as int) / 65535 <= reference as int,
        raw as int * reference as int <= 0xffff_ffff,
{
    assert(raw as int * reference as int <= 65535 * reference as int) by (nonlinear_arith)
        requires
            raw <= 65535,
    ;
    assert((raw as int * reference as int) / 65535 <= reference as int) by (nonlinear_arith)
        requires
            raw as int * reference as int <= 65535 * reference as int,
    ;
    assert(raw as int * reference as int <= 65535 * 65535) by (nonlinear_arith)
        requires
            raw <= 65535,
            reference <= 65535,
    ;
}

/// Scaling is non-decreasing in the raw code, maps code 0 to 0 and full
/// scale to at most the reference.
pub proof fn lemma_scaled_monotonic(low: u16, high: u16, reference: u16)
    requires
        low <= high,
    ensures
        scaled(low, reference) <= scaled(high, reference),
        scaled(0, reference) == 0,
        scaled(65535, reference) <= reference,
{
    lemma_scaled_bounds(low, reference);
    lemma_scaled_bounds(high, reference);
    lemma_scaled_bounds(65535, reference);
    assert(low as int * reference as int <= high as int * reference as int) by (nonlinear_arith)
        requires
            low <= high,
    ;
    vstd::arithmetic::div_mod::lemma_div_is_ordered(
        low as int * reference as int,
        high as int * reference as int,
        65535,
    );
}

/// A converter on a serial bus, with its chip-select line.
///
/// The contracts below describe each operation by the transfers it adds to
/// the bus's history and the drives it adds to the chip-select line's.
pub struct AD770x<SPI: SpiTransfer, CS: OutputPin> {
    spi: SPI,
    cs: CS,
    poll_limit: u32,
}

impl<SPI: SpiTransfer, CS: OutputPin> AD770x<SPI, CS> {
    /// Every transfer attempted on the bus, oldest first.
    pub closed spec fn log(&self) -> Seq<Exchange> {
        self.spi.history()
    }

    /// Every drive of chip select attempted, oldest first.
    pub closed spec fn chip_select(&self) -> Seq<Drive> {
        self.cs.drives()
    }

    /// How many DRDY polls a blocking operation makes before giving up.
    pub closed spec fn poll_limit(&self) -> u32 {
        self.poll_limit
    }

    /// Takes the bus and the chip-select line and drives chip select high
    /// (idle), once, before any transfer. `poll_limit` bounds how many DRDY
    /// polls `read` and `init` make.
    pub fn new(spi: SPI, cs: CS, poll_limit: u32) -> (r: Result<Self, Error>)
        ensures
            r is Ok ==> {
                &&& r->Ok_0.log() == spi.history()
                &&& r->Ok_0.chip_select() == cs.drives().push(Drive { high: true, ok: true })
                &&& r->Ok_0.poll_limit() == poll_limit
            },
            r is Err ==> r == Err::<Self, Error>(Error::ChipSelect),
    {
        let mut cs = cs;
        match cs.set_high() {
            Ok(()) => Ok(AD770x { spi, cs, poll_limit }),
            Err(_) => Err(Error::ChipSelect),
        }
    }

    /// Drives chip select low; if that worked, transfers `words` in place once
    /// and drives chip select high once, even when the transfer failed. Nothing
    /// is retried.
    fn transfer_bytes(&mut self, words: &mut Vec<u8>) -> (r: Result<(), Error>)
        ensures
            final(self).poll_limit() == old(self).poll_limit(),
            framed_transfer(
                old(self).chip_select(),
                final(self).chip_select(),
                old(self).log(),
                final(self).log(),
                old(words)@,
                final(words)@,
                r,
            ),
    {
        let ghost d0 = self.chip_select();
        let ghost x0 = self.log();
        let ghost sent = words@;
        let selected = match self.cs.set_low() {
            Ok(()) => true,
            Err(_) => false,
        };
        if !selected {
            assert(appended(d0, self.chip_select()) =~= seq![Drive { high: false, ok: false }]);
            assert(appended(x0, self.log()) =~= Seq::<Exchange>::empty());
            return frame_outcome(false, false, false, false);
        }
        let n = words.len();
        let moved = match self.spi.transfer(words) {
            Ok(()) => true,
            Err(_) => false,
        };
        let kept = words.len() == n;
        let released = match self.cs.set_high() {
            Ok(()) => true,
            Err(_) => false,
        };
        assert(appended(d0, self.chip_select()) =~= seq![
            Drive { high: false, ok: true },
            Drive { high: true, ok: released },
        ]);
        assert(appended(x0, self.log()) =~= seq![
            Exchange { sent: sent, received: words@, ok: moved },
        ]);
        frame_outcome(true, moved, kept, released)
    }

    /// Transfers one byte and returns what came back.
    fn transfer_byte(&mut self, byte: u8) -> (r: Result<u8, Error>)
        ensures
            final(self).poll_limit() == old(self).poll_limit(),
            bus_did(
                old(self).chip_select(),
                final(self).chip_select(),
                old(self).log(),
                final(self).log(),
                seq![seq![byte]],
                r is Ok,
            ),
            r is Ok ==> r->Ok_0 == final(self).log().last().received[0],
            r != Err::<u8, Error>(Error::Timeout),
    {
        let mut words: Vec<u8> = Vec::new();
        words.push(byte);
        assert(words@ =~= seq![byte]);
        let ghost d0 = self.chip_select();
        let ghost x0 = self.log();
        let r = self.transfer_bytes(&mut words);
        proof {
            lemma_framed_transfer(d0, self.chip_select(), x0, self.log(), seq![byte], words@, r);
        }
        match r {
            Ok(()) => Ok(words[0]),
            Err(e) => Err(e),
        }
    }

    /// Writes the communication register: the next access will be to `reg` on
    /// `channel`, reading when `read_write` is true.
    pub fn set_next_operation(&mut self, reg: Reg, channel: Channel, read_write: bool) -> (r: Result<(), Error>)
        ensures
            final(self).poll_limit() == old(self).poll_limit(),
            bus_did(
                old(self).chip_select(),
                final(self).chip_select(),
                old(self).log(),
                final(self).log(),
                seq![seq![comm_byte(reg, channel, read_write)]],
                r is Ok,
            ),
            r != Err::<(), Error>(Error::Timeout),
    {
        let byte = encode_comm(reg, channel, read_write);
        match self.transfer_byte(byte) {
            Ok(_) => Ok(()),
            Err(e) => Err(e),
        }
    }

    /// Writes the clock register; must follow a clock-register write framing.
    pub fn write_clock_register(&mut self, clkdis: u8, clkdiv: ClockDivider, out_update_rate: UpdateRate) -> (r: Result<(), Error>)
        ensures
            final(self).poll_limit() == old(self).poll_limit(),
            bus_did(
                old(self).chip_select(),
                final(self).chip_select(),
                old(self).log(),
                final(self).log(),
                seq![seq![clock_byte(clkdis, clkdiv, out_update_rate)]],
                r is Ok,
            ),
            r != Err::<(), Error>(Error::Timeout),
    {
        let byte = encode_clock(clkdis, clkdiv, out_update_rate);
        match self.transfer_byte(byte) {
            Ok(_) => Ok(()),
            Err(e) => Err(e),
        }
    }

    /// Writes the setup register; must follow a setup-register write framing.
    pub fn write_setup_register(&mut self, mode: OperatingMode, gain: Gain, polarity: Polarity, buffered: bool, fsync: bool) -> (r: Result<(), Error>)
        ensures
            final(self).poll_limit() == old(self).poll_limit(),
            bus_did(
                old(self).chip_select(),
                final(self).chip_select(),
                old(self).log(),
                final(self).log(),
                seq![seq![setup_byte(mode, gain, polarity, buffered, fsync)]],
                r is Ok,
            ),
            r != Err::<(), Error>(Error::Timeout),
    {
        let byte = encode_setup(mode, gain, polarity, buffered, fsync);
        match self.transfer_byte(byte) {
            Ok(_) => Ok(()),
            Err(e) => Err(e),
        }
    }

    /// Frames a communication-register read for `channel`, clocks one byte in
    /// and reports whether its DRDY bit is clear. The chip is left framed as
    /// that communication-register read left it; no other register is selected.
    pub fn data_ready(&mut self, channel: Channel) -> (r: Result<bool, Error>)
        ensures
            final(self).poll_limit() == old(self).poll_limit(),
            bus_did(
                old(self).chip_select(),
                final(self).chip_select(),
                old(self).log(),
                final(self).log(),
                poll_frames(channel),
                r is Ok,
            ),
            r is Ok ==> r->Ok_0 == ready_status(final(self).log().last().received[0]),
            r != Err::<bool, Error>(Error::Timeout),
    {
        let ghost d0 = self.chip_select();
        let ghost x0 = self.log();
        let framed = self.set_next_operation(Reg::CMM, channel, true);
        let ghost d1 = self.chip_select();
        let ghost x1 = self.log();
        proof {
            assert(seq![seq![comm_byte(Reg::CMM, channel, true)]] =~= poll_frames(channel).take(1));
            assert(seq![seq![comm_byte(Reg::CMM, channel, true)]] + seq![seq![0u8]] =~= poll_frames(
                channel,
            ));
        }
        match framed {
            Ok(()) => {},
            Err(e) => {
                proof {
                    lemma_did_prefix(
                        d0,
                        d1,
                        x0,
                        x1,
                        seq![seq![comm_byte(Reg::CMM, channel, true)]],
                        poll_frames(channel),
                    );
                }
                return Err(e);
            },
        }
        let status = self.transfer_byte(0);
        proof {
            lemma_did_then(
                d0,
                d1,
                self.chip_select(),
                x0,
                x1,
                self.log(),
                seq![seq![comm_byte(Reg::CMM, channel, true)]],
                seq![seq![0u8]],
                status is Ok,
            );
        }
        match status {
            Ok(b) => Ok(status_ready(b)),
            Err(e) => Err(e),
        }
    }

    /// Polls DRDY on `channel` until it is clear, at most `poll_limit` times.
    fn wait_ready(&mut self, channel: Channel) -> (r: Result<(), Error>)
        ensures
            final(self).poll_limit() == old(self).poll_limit(),
            waited(
                old(self).chip_select(),
                final(self).chip_select(),
                old(self).log(),
                final(self).log(),
                channel,
                old(self).poll_limit(),
                r,
            ),
    {
        let ghost start = self.log();
        let ghost cs0 = self.chip_select();
        let limit = self.poll_limit;
        let mut polled: u32 = 0;
        proof {
            lemma_did_nothing(cs0, start);
            assert(polls(channel, 0) =~= Seq::<Seq<u8>>::empty());
        }
        while polled < limit
            invariant
                self.poll_limit == limit,
                start == old(self).log(),
                cs0 == old(self).chip_select(),
                limit == old(self).poll_limit(),
                polled <= limit,
                bus_did(cs0, self.chip_select(), start, self.log(), polls(channel, polled as nat), true),
                all_busy(appended(start, self.log()), polled as int),
            decreases limit - polled,
        {
            let ghost before = self.log();
            let ghost cs_before = self.chip_select();
            let answer = self.data_ready(channel);
            let ghost after = self.log();
            proof {
                lemma_did_then(
                    cs0,
                    cs_before,
                    self.chip_select(),
                    start,
                    before,
                    after,
                    polls(channel, polled as nat),
                    poll_frames(channel),
                    answer is Ok,
                );
                lemma_polls_prefix(channel, polled as nat, (polled + 1) as nat);
                let seg0 = appended(start, before);
                let seg = appended(start, after);
                assert(seg.subrange(0, seg0.len() as int) =~= seg0);
                assert forall|j: int| 0 <= j < polled && 2 * j + 1 < seg.len() implies !#[trigger] poll_ready(seg, j) by {
                    assert(seg[2 * j + 1] == seg0[2 * j + 1]);
                    assert(!poll_ready(seg0, j));
                }
                if answer is Ok {
                    assert(seg.len() == 2 * polled + 2);
                    assert(seg[2 * polled + 1] == after.last());
                } else {
                    lemma_polls_prefix(channel, (polled + 1) as nat, limit as nat);
                    lemma_did_prefix(
                        cs0,
                        self.chip_select(),
                        start,
                        after,
                        polls(channel, (polled + 1) as nat),
                        polls(channel, limit as nat),
                    );
                    assert(seg.len() <= 2 * polled + 2);
                }
            }
            match answer {
                Ok(true) => {
                    return Ok(());
                },
                Ok(false) => {
                    polled = polled + 1;
                },
                Err(e) => {
                    return Err(e);
                },
            }
        }
        Err(Error::Timeout)
    }

    /// Clocks the two bytes of the data register in; must follow a
    /// data-register read framing.
    fn read_raw(&mut self) -> (r: Result<u16, Error>)
        ensures
            final(self).poll_limit() == old(self).poll_limit(),
            bus_did(
                old(self).chip_select(),
                final(self).chip_select(),
                old(self).log(),
                final(self).log(),
                seq![seq![0u8, 0u8]],
                r is Ok,
            ),
            r is Ok ==> r->Ok_0 == be16(final(self).log().last().received),
            r != Err::<u16, Error>(Error::Timeout),
    {
        let mut data: Vec<u8> = Vec::new();
        data.push(0u8);
        data.push(0u8);
        assert(data@ =~= seq![0u8, 0u8]);
        let ghost d0 = self.chip_select();
        let ghost x0 = self.log();
        let r = self.transfer_bytes(&mut data);
        proof {
            lemma_framed_transfer(d0, self.chip_select(), x0, self.log(), seq![0u8, 0u8], data@, r);
        }
        match r {
            Ok(()) => {
                let v = decode_conversion(data[0], data[1]);
                assert(seq![data@[0], data@[1]] =~= data@);
                Ok(v)
            },
            Err(e) => Err(e),
        }
    }

    /// Waits until `channel` has a conversion ready, then reads the raw 16-bit code.
    pub fn read(&mut self, channel: Channel) -> (r: Result<u16, Error>)
        ensures
            final(self).poll_limit() == old(self).poll_limit(),
            read_done(
                old(self).chip_select(),
                final(self).chip_select(),
                old(self).log(),
                final(self).log(),
                channel,
                old(self).poll_limit(),
                r,
            ),
    {
        let ghost x0 = self.log();
        let ghost d0 = self.chip_select();
        let limit = Ghost(self.poll_limit());
        match self.wait_ready(channel) {
            Ok(()) => {},
            Err(e) => {
                return Err(e);
            },
        }
        let ghost x1 = self.log();
        let ghost d1 = self.chip_select();
        assert(waited(d0, d1, x0, x1, channel, limit@, Ok(())));
        let framed = self.set_next_operation(Reg::DATA, channel, true);
        let ghost x2 = self.log();
        let ghost d2 = self.chip_select();
        proof {
            assert(seq![seq![comm_byte(Reg::DATA, channel, true)]] =~= data_frames(channel).take(1));
            assert(seq![seq![comm_byte(Reg::DATA, channel, true)]] + seq![seq![0u8, 0u8]]
                =~= data_frames(channel));
        }
        match framed {
            Ok(()) => {},
            Err(e) => {
                proof {
                    lemma_did_prefix(
                        d1,
                        d2,
                        x1,
                        x2,
                        seq![seq![comm_byte(Reg::DATA, channel, true)]],
                        data_frames(channel),
                    );
                }
                return Err(e);
            },
        }
        let raw = self.read_raw();
        proof {
            lemma_did_then(
                d1,
                d2,
                self.chip_select(),
                x1,
                x2,
                self.log(),
                seq![seq![comm_byte(Reg::DATA, channel, true)]],
                seq![seq![0u8, 0u8]],
                raw is Ok,
            );
        }
        raw
    }

    /// Reads `channel` and scales the code to the unit of `vref`:
    /// `(raw * vref) / 65535`, truncated.
    pub fn read_voltage(&mut self, channel: Channel, vref: u16) -> (r: Result<u16, Error>)
        ensures
            final(self).poll_limit() == old(self).poll_limit(),
            read_done(
                old(self).chip_select(),
                final(self).chip_select(),
                old(self).log(),
                final(self).log(),
                channel,
                old(self).poll_limit(),
                match r {
                    Ok(_) => Ok(be16(final(self).log().last().received)),
                    Err(e) => Err(e),
                },
            ),
            r is Ok ==> r->Ok_0 == scaled(be16(final(self).log().last().received), vref),
    {
        match self.read(channel) {
            Ok(raw) => Ok(scale_to_reference(raw, vref)),
            Err(e) => Err(e),
        }
    }

    /// Brings `channel` up: writes its clock register (clock enabled, the
    /// configured divider and rate), then its setup register (self-calibration,
    /// the configured gain and polarity, unbuffered, FSYNC low), then waits
    /// for DRDY, which marks the end of calibration.
    pub fn init(&mut self, channel: Channel, config: ChannelConfig) -> (r: Result<(), Error>)
        ensures
            final(self).poll_limit() == old(self).poll_limit(),
            init_done(
                old(self).chip_select(),
                final(self).chip_select(),
                old(self).log(),
                final(self).log(),
                channel,
                config,
                old(self).poll_limit(),
                r,
            ),
    {
        let ghost l0 = self.log();
        let ghost c0 = self.chip_select();
        let ghost f1 = seq![seq![comm_byte(Reg::CLOCK, channel, false)]];
        let ghost f2 = seq![seq![clock_byte(0, config.clock_divider, config.update_rate)]];
        let ghost f3 = seq![seq![comm_byte(Reg::SETUP, channel, false)]];
        let ghost f4 = seq![
            seq![setup_byte(OperatingMode::SelfCalibration, config.gain, config.polarity, false, false)],
        ];
        proof {
            assert(f1 + f2 + f3 + f4 =~= init_frames(channel, config));
            assert(f1 =~= init_frames(channel, config).take(1));
            assert(f1 + f2 =~= init_frames(channel, config).take(2));
            assert(f1 + f2 + f3 =~= init_frames(channel, config).take(3));
        }
        let r1 = self.set_next_operation(Reg::CLOCK, channel, false);
        let ghost l1 = self.log();
        let ghost c1 = self.chip_select();
        if let Err(e) = r1 {
            proof {
                lemma_did_prefix(c0, c1, l0, l1, f1, init_frames(channel, config));
            }
            return Err(e);
        }
        let r2 = self.write_clock_register(0, config.clock_divider, config.update_rate);
        let ghost l2 = self.log();
        let ghost c2 = self.chip_select();
        proof {
            lemma_did_then(c0, c1, c2, l0, l1, l2, f1, f2, r2 is Ok);
        }
        if let Err(e) = r2 {
            proof {
                lemma_did_prefix(c0, c2, l0, l2, f1 + f2, init_frames(channel, config));
            }
            return Err(e);
        }
        let r3 = self.set_next_operation(Reg::SETUP, channel, false);
        let ghost l3 = self.log();
        let ghost c3 = self.chip_select();
        proof {
            lemma_did_then(c0, c2, c3, l0, l2, l3, f1 + f2, f3, r3 is Ok);
        }
        if let Err(e) = r3 {
            proof {
                lemma_did_prefix(c0, c3, l0, l3, f1 + f2 + f3, init_frames(channel, config));
            }
            return Err(e);
        }
        let r4 = self.write_setup_register(
            OperatingMode::SelfCalibration,
            config.gain,
            config.polarity,
            false,
            false,
        );
        let ghost l4 = self.log();
        let ghost c4 = self.chip_select();
        proof {
            lemma_did_then(c0, c3, c4, l0, l3, l4, f1 + f2 + f3, f4, r4 is Ok);
        }
        if let Err(e) = r4 {
            return Err(e);
        }
        let r = self.wait_ready(channel);
        assert(bus_did(c0, c4, l0, l4, init_frames(channel, config), true));
        r
    }

    /// Clocks out 100 bytes of 0xFF in one framed transfer, which brings the
    /// serial interface back to its initial state whatever it was doing.
    pub fn reset(&mut self) -> (r: Result<(), Error>)
        ensures
            final(self).poll_limit() == old(self).poll_limit(),
            bus_did(
                old(self).chip_select(),
                final(self).chip_select(),
                old(self).log(),
                final(self).log(),
                seq![reset_frame()],
                r is Ok,
            ),
            r != Err::<(), Error>(Error::Timeout),
    {
        let mut words: Vec<u8> = Vec::new();
        let mut i: usize = 0;
        while i < 100
            invariant
                i <= 100,
                words@.len() == i,
                forall|k: int| 0 <= k < i ==> words@[k] == 0xffu8,
            decreases 100 - i,
        {
            words.push(0xffu8);
            i = i + 1;
        }
        assert(words@ =~= reset_frame());
        let ghost d0 = self.chip_select();
        let ghost x0 = self.log();
        let r = self.transfer_bytes(&mut words);
        proof {
            lemma_framed_transfer(d0, self.chip_select(), x0, self.log(), reset_frame(), words@, r);
        }
        r
    }
}

} // verus!
