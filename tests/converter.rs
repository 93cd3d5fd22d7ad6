use std::cell::RefCell;
use std::rc::Rc;

use sensor_drivers::ad770x::{
    decode_conversion, encode_clock, encode_comm, encode_setup, scale_to_reference, status_ready,
    AD770x, Channel, ChannelConfig, ClockDivider, Gain, OperatingMode, Polarity, Reg, UpdateRate,
};
use sensor_drivers::bus::{BusFault, Error, OutputPin, SpiTransfer};

const REGS: [Reg; 8] = [
    Reg::CMM,
    Reg::SETUP,
    Reg::CLOCK,
    Reg::DATA,
    Reg::TEST,
    Reg::NOP,
    Reg::OFFSET,
    Reg::GAIN,
];
const CHANNELS: [Channel; 4] = [Channel::AIN1, Channel::AIN2, Channel::COMM, Channel::AIN3];
const RATES: [UpdateRate; 8] = [
    UpdateRate::H20,
    UpdateRate::H25,
    UpdateRate::H100,
    UpdateRate::H200,
    UpdateRate::H50,
    UpdateRate::H60,
    UpdateRate::H250,
    UpdateRate::H500,
];
const MODES: [OperatingMode; 4] = [
    OperatingMode::Normal,
    OperatingMode::SelfCalibration,
    OperatingMode::ZeroScaleCalibration,
    OperatingMode::FullScaleCalibration,
];
const GAINS: [Gain; 8] = [
    Gain::G1,
    Gain::G2,
    Gain::G4,
    Gain::G8,
    Gain::G16,
    Gain::G32,
    Gain::G64,
    Gain::G128,
];

/// A simulated chip: it answers status reads with the scripted status bytes
/// (repeating the last one) and data reads with `data`.
#[derive(Default)]
struct Chip {
    frames: Vec<Vec<u8>>,
    pin_levels: Vec<bool>,
    statuses: Vec<u8>,
    status_reads: usize,
    data: [u8; 2],
    pending: Option<u8>,
    fail_transfer: bool,
    shorten: bool,
    fail_pin: bool,
    fail_release: bool,
    pin_attempts: usize,
}

struct Spi(Rc<RefCell<Chip>>);
struct Pin(Rc<RefCell<Chip>>);

impl SpiTransfer for Spi {
    fn transfer(&mut self, words: &mut Vec<u8>) -> Result<(), BusFault> {
        let mut chip = self.0.borrow_mut();
        if chip.fail_transfer {
            return Err(BusFault);
        }
        chip.frames.push(words.clone());
        if words.len() == 100 {
            chip.pending = None;
        } else if let Some(comm) = chip.pending.take() {
            let reg = (comm >> 4) & 7;
            let read = comm & 0x08 != 0;
            if read && reg == 0 {
                let i = chip.status_reads.min(chip.statuses.len() - 1);
                words[0] = chip.statuses[i];
                chip.status_reads += 1;
            } else if read && reg == 3 {
                words[0] = chip.data[0];
                words[1] = chip.data[1];
            }
        } else {
            chip.pending = Some(words[0]);
        }
        if chip.shorten {
            words.pop();
        }
        Ok(())
    }
}

impl OutputPin for Pin {
    fn set_high(&mut self) -> Result<(), BusFault> {
        let mut chip = self.0.borrow_mut();
        chip.pin_attempts += 1;
        if chip.fail_pin || chip.fail_release {
            return Err(BusFault);
        }
        chip.pin_levels.push(true);
        Ok(())
    }

    fn set_low(&mut self) -> Result<(), BusFault> {
        let mut chip = self.0.borrow_mut();
        chip.pin_attempts += 1;
        if chip.fail_pin {
            return Err(BusFault);
        }
        chip.pin_levels.push(false);
        Ok(())
    }
}

fn driver(statuses: &[u8], data: [u8; 2], limit: u32) -> (AD770x<Spi, Pin>, Rc<RefCell<Chip>>) {
    let chip = Rc::new(RefCell::new(Chip {
        statuses: statuses.to_vec(),
        data,
        ..Chip::default()
    }));
    let adc = AD770x::new(Spi(chip.clone()), Pin(chip.clone()), limit).unwrap();
    (adc, chip)
}

#[test]
fn comm_byte_layout_for_every_triple() {
    for (r, reg) in REGS.iter().enumerate() {
        for (c, channel) in CHANNELS.iter().enumerate() {
            for read in [false, true] {
                let b = encode_comm(*reg, *channel, read);
                assert_eq!(b, ((r as u8) << 4) | ((read as u8) << 3) | c as u8);
                assert_eq!(b & 0x84, 0);
            }
        }
    }
}

#[test]
fn set_next_operation_sends_one_framed_byte() {
    let (mut adc, chip) = driver(&[0], [0, 0], 1);
    adc.set_next_operation(Reg::DATA, Channel::AIN3, true).unwrap();
    let chip = chip.borrow();
    assert_eq!(chip.frames, vec![vec![0x3B]]);
    assert_eq!(chip.pin_levels, vec![true, false, true]);
}

#[test]
fn clock_byte_has_bit_two_clear() {
    for clkdis in [0u8, 1] {
        for divider in [ClockDivider::DIV1, ClockDivider::DIV2] {
            for (f, rate) in RATES.iter().enumerate() {
                let b = encode_clock(clkdis, divider, *rate);
                assert_eq!(b & 0x04, 0);
                let div = if divider == ClockDivider::DIV2 { 1u8 } else { 0 };
                assert_eq!(b, (clkdis << 4) | (div << 3) | (f as u8 & 3));
            }
        }
    }
    assert_eq!(encode_clock(0, ClockDivider::DIV1, UpdateRate::H50), 0x00);
    assert_eq!(encode_clock(1, ClockDivider::DIV2, UpdateRate::H500), 0x1B);
    for clkdis in 0..=255u8 {
        assert_eq!(encode_clock(clkdis, ClockDivider::DIV2, UpdateRate::H500) & 0x04, 0);
    }
}

#[test]
fn setup_byte_is_sum_of_fields() {
    for (m, mode) in MODES.iter().enumerate() {
        for (g, gain) in GAINS.iter().enumerate() {
            for (p, polarity) in [Polarity::Unipolar, Polarity::Bipolar].iter().enumerate() {
                for buffered in [false, true] {
                    for fsync in [false, true] {
                        let b = encode_setup(*mode, *gain, *polarity, buffered, fsync);
                        let expected = (m << 6) | (g << 3) | (p << 2) | ((buffered as usize) << 1)
                            | fsync as usize;
                        assert_eq!(b as usize, expected);
                    }
                }
            }
        }
    }
}

#[test]
fn register_writes_go_out_as_encoded() {
    let (mut adc, chip) = driver(&[0], [0, 0], 1);
    adc.write_clock_register(0, ClockDivider::DIV2, UpdateRate::H60).unwrap();
    adc.write_setup_register(OperatingMode::FullScaleCalibration, Gain::G128, Polarity::Unipolar, true, true)
        .unwrap();
    assert_eq!(chip.borrow().frames, vec![vec![0x09], vec![0xFB]]);
}

#[test]
fn data_ready_with_all_zero_response() {
    let (mut adc, chip) = driver(&[0x00], [0, 0], 1);
    assert_eq!(adc.data_ready(Channel::AIN1), Ok(true));
    assert_eq!(chip.borrow().frames, vec![vec![0x08], vec![0x00]]);
}

#[test]
fn data_ready_with_all_one_response() {
    let (mut adc, chip) = driver(&[0xFF], [0, 0], 1);
    assert_eq!(adc.data_ready(Channel::AIN2), Ok(false));
    assert_eq!(chip.borrow().frames, vec![vec![0x09], vec![0x00]]);
}

#[test]
fn status_bit_seven_decides() {
    assert!(status_ready(0x00));
    assert!(status_ready(0x7F));
    assert!(!status_ready(0x80));
    assert!(!status_ready(0xFF));
}

#[test]
fn scaling_is_monotonic_and_bounded() {
    for reference in [0u16, 1, 2500, 3300, 65535] {
        assert_eq!(scale_to_reference(0, reference), 0);
        assert!(scale_to_reference(65535, reference) <= reference);
        let mut last = 0;
        for raw in (0..=65535u32).step_by(97) {
            let v = scale_to_reference(raw as u16, reference);
            assert!(v >= last);
            last = v;
        }
    }
    assert_eq!(scale_to_reference(65535, 3300), 3300);
    assert_eq!(scale_to_reference(32768, 5000), 2500);
    assert_eq!(scale_to_reference(1, 65535), 1);
}

#[test]
fn conversion_word_is_big_endian() {
    assert_eq!(decode_conversion(0x12, 0x34), 0x1234);
    assert_eq!(decode_conversion(0xFF, 0x00), 0xFF00);
}

#[test]
fn reset_sends_one_hundred_ones() {
    let (mut adc, chip) = driver(&[0], [0, 0], 1);
    adc.set_next_operation(Reg::SETUP, Channel::AIN1, false).unwrap();
    adc.reset().unwrap();
    let chip = chip.borrow();
    assert_eq!(chip.frames.len(), 2);
    assert_eq!(chip.frames[1], vec![0xFF; 100]);
}

#[test]
fn init_then_read_scenario() {
    let (mut adc, chip) = driver(&[0x00], [0x40, 0x00], 10);
    adc.init(Channel::AIN1, ChannelConfig::default()).unwrap();
    assert_eq!(
        chip.borrow().frames,
        vec![vec![0x20], vec![0x01], vec![0x10], vec![0x44], vec![0x08], vec![0x00]]
    );
    assert_eq!(adc.read(Channel::AIN1), Ok(0x4000));
    assert_eq!(adc.read_voltage(Channel::AIN1, 3300), Ok(825));
    assert_eq!((0x4000u32 * 3300) / 65535, 825);
    let chip = chip.borrow();
    assert_eq!(&chip.frames[6..10], &[vec![0x08], vec![0x00], vec![0x38], vec![0x00, 0x00]]);
}

#[test]
fn read_waits_for_drdy() {
    let (mut adc, chip) = driver(&[0x80, 0x80, 0x00], [0x12, 0x34], 5);
    assert_eq!(adc.read(Channel::AIN2), Ok(0x1234));
    let chip = chip.borrow();
    assert_eq!(chip.status_reads, 3);
    assert_eq!(chip.frames.len(), 8);
    assert_eq!(chip.frames[6], vec![0x39]);
}

#[test]
fn never_ready_times_out_after_the_limit() {
    let (mut adc, chip) = driver(&[0x80], [0x40, 0x00], 7);
    for _ in 0..20 {
        assert_eq!(adc.data_ready(Channel::AIN1), Ok(false));
    }
    assert_eq!(chip.borrow().status_reads, 20);
    assert_eq!(adc.read(Channel::AIN1), Err(Error::Timeout));
    assert_eq!(chip.borrow().status_reads, 27);
    assert_eq!(adc.init(Channel::AIN1, ChannelConfig::default()), Err(Error::Timeout));
    assert_eq!(chip.borrow().status_reads, 34);
    assert!(chip.borrow().frames.iter().all(|f| f != &vec![0x38]));
}

#[test]
fn zero_poll_limit_times_out_without_polling() {
    let (mut adc, chip) = driver(&[0x00], [0, 0], 0);
    assert_eq!(adc.read(Channel::AIN1), Err(Error::Timeout));
    assert!(chip.borrow().frames.is_empty());
}

#[test]
fn new_drives_chip_select_high() {
    let (_adc, chip) = driver(&[0], [0, 0], 1);
    assert_eq!(chip.borrow().pin_levels, vec![true]);
}

#[test]
fn chip_select_failure_is_reported() {
    let chip = Rc::new(RefCell::new(Chip { fail_pin: true, statuses: vec![0], ..Chip::default() }));
    let r = AD770x::new(Spi(chip.clone()), Pin(chip.clone()), 1);
    assert!(matches!(r, Err(Error::ChipSelect)));
    let (mut adc, chip) = driver(&[0], [0, 0], 1);
    chip.borrow_mut().fail_pin = true;
    assert_eq!(adc.reset(), Err(Error::ChipSelect));
}

#[test]
fn bus_failure_is_reported() {
    let (mut adc, chip) = driver(&[0], [0, 0], 3);
    chip.borrow_mut().fail_transfer = true;
    assert_eq!(adc.data_ready(Channel::AIN1), Err(Error::Bus));
    assert_eq!(adc.read(Channel::AIN1), Err(Error::Bus));
    assert_eq!(adc.init(Channel::AIN1, ChannelConfig::default()), Err(Error::Bus));
}

#[test]
fn short_transfer_is_a_bus_failure() {
    let (mut adc, chip) = driver(&[0], [0, 0], 3);
    chip.borrow_mut().shorten = true;
    assert_eq!(adc.set_next_operation(Reg::CMM, Channel::AIN1, true), Err(Error::Bus));
}

#[test]
fn default_channel_config() {
    let c = ChannelConfig::default();
    assert_eq!(c.clock_divider, ClockDivider::DIV1);
    assert_eq!(c.polarity, Polarity::Bipolar);
    assert_eq!(c.gain, Gain::G1);
    assert_eq!(c.update_rate, UpdateRate::H25);
}

#[test]
fn every_exchange_is_framed_by_chip_select() {
    let (mut adc, chip) = driver(&[0x80, 0x00], [0x40, 0x00], 4);
    adc.init(Channel::AIN2, ChannelConfig::default()).unwrap();
    adc.read(Channel::AIN2).unwrap();
    adc.reset().unwrap();
    let chip = chip.borrow();
    let mut expected = vec![true];
    for _ in 0..chip.frames.len() {
        expected.push(false);
        expected.push(true);
    }
    assert_eq!(chip.pin_levels, expected);
}

#[test]
fn failed_release_is_a_chip_select_error() {
    let (mut adc, chip) = driver(&[0x00], [0, 0], 1);
    chip.borrow_mut().fail_release = true;
    assert_eq!(adc.set_next_operation(Reg::SETUP, Channel::AIN1, false), Err(Error::ChipSelect));
    assert_eq!(chip.borrow().frames, vec![vec![0x10]]);
}

#[test]
fn failed_select_is_not_retried() {
    let (mut adc, chip) = driver(&[0x00], [0, 0], 5);
    chip.borrow_mut().fail_pin = true;
    let before = chip.borrow().pin_attempts;
    assert_eq!(adc.read(Channel::AIN1), Err(Error::ChipSelect));
    assert_eq!(chip.borrow().pin_attempts, before + 1);
    assert!(chip.borrow().frames.is_empty());
}

#[test]
fn failed_transfer_still_releases_and_stops() {
    let (mut adc, chip) = driver(&[0x00], [0, 0], 5);
    chip.borrow_mut().fail_transfer = true;
    assert_eq!(adc.init(Channel::AIN1, ChannelConfig::default()), Err(Error::Bus));
    assert_eq!(chip.borrow().pin_levels, vec![true, false, true]);
}
