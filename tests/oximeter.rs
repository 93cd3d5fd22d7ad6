use std::cell::RefCell;
use std::rc::Rc;

use sensor_drivers::bus::{BusFault, Error, I2cBus};
use sensor_drivers::max30100::{
    led_config, mode_config, rate_config, resolution_config, temperature_sixteenths, width_config,
    Config, LEDCurrent, Max30100, OperatingMode, PulseWidth, SamplingRate, DEVICE, FIFO,
    LED_CONF, MODE_CONF, PART_ID, REV_ID, SPO2_CONF, TEMP_FRACTION, TEMP_INT,
};

/// A simulated sensor: a register file addressed by the last byte written.
struct Sensor {
    regs: [u8; 256],
    pointer: u8,
    writes: Vec<(u8, Vec<u8>)>,
    reads: usize,
    fail: bool,
    fail_after: Option<usize>,
    calls: usize,
}

struct Bus(Rc<RefCell<Sensor>>);

impl I2cBus for Bus {
    fn write(&mut self, address: u8, bytes: &Vec<u8>) -> Result<(), BusFault> {
        let mut s = self.0.borrow_mut();
        s.calls += 1;
        if s.fail || address != DEVICE || s.fail_after.is_some_and(|n| s.calls > n) {
            return Err(BusFault);
        }
        s.writes.push((address, bytes.clone()));
        s.pointer = bytes[0];
        if bytes.len() > 1 {
            let p = s.pointer as usize;
            s.regs[p] = bytes[1];
        }
        Ok(())
    }

    fn read(&mut self, address: u8, buffer: &mut Vec<u8>) -> Result<(), BusFault> {
        let mut s = self.0.borrow_mut();
        s.calls += 1;
        if s.fail || address != DEVICE || s.fail_after.is_some_and(|n| s.calls > n) {
            return Err(BusFault);
        }
        s.reads += 1;
        let p = s.pointer as usize;
        for (i, b) in buffer.iter_mut().enumerate() {
            *b = s.regs[p + i];
        }
        Ok(())
    }
}

fn sensor(regs: &[(u8, u8)]) -> Rc<RefCell<Sensor>> {
    let mut s = Sensor {
        regs: [0; 256],
        pointer: 0,
        writes: Vec::new(),
        reads: 0,
        fail: false,
        fail_after: None,
        calls: 0,
    };
    for (r, v) in regs {
        s.regs[*r as usize] = *v;
    }
    Rc::new(RefCell::new(s))
}

#[test]
fn new_applies_the_configuration() {
    let s = sensor(&[(MODE_CONF, 0xFF), (SPO2_CONF, 0xFF)]);
    let _dev = Max30100::new(Bus(s.clone()), Config::default()).unwrap();
    let s = s.borrow();
    assert_eq!(s.regs[MODE_CONF as usize], 0xFB);
    assert_eq!(s.regs[SPO2_CONF as usize], 0xE7);
    assert_eq!(s.regs[LED_CONF as usize], 0x8F);
    assert_eq!(s.reads, 3);
    assert_eq!(s.writes.len(), 7);
}

#[test]
fn default_config() {
    let c = Config::default();
    assert_eq!(c.mode, OperatingMode::SPO2HR);
    assert_eq!(c.sampling_rate, SamplingRate::R100Hz);
    assert_eq!(c.pulse_width, PulseWidth::W1600UsADC16);
    assert_eq!(c.red_current, LEDCurrent::I127_1MA);
    assert_eq!(c.infrared_current, LEDCurrent::I50MA);
}

#[test]
fn ids_are_read_from_their_registers() {
    let s = sensor(&[(REV_ID, 0x03), (PART_ID, 0x11)]);
    let mut dev = Max30100::new(Bus(s.clone()), Config::default()).unwrap();
    assert_eq!(dev.get_revision_id(), Ok(0x03));
    assert_eq!(dev.get_part_id(), Ok(0x11));
}

#[test]
fn mode_update_keeps_the_upper_bits() {
    let s = sensor(&[]);
    let mut dev = Max30100::new(Bus(s.clone()), Config::default()).unwrap();
    s.borrow_mut().regs[MODE_CONF as usize] = 0xC5;
    dev.set_mode(OperatingMode::HROnly).unwrap();
    assert_eq!(s.borrow().regs[MODE_CONF as usize], 0xC2);
    assert_eq!(mode_config(0xC5, OperatingMode::HROnly), 0xC2);
    assert_eq!(mode_config(0x00, OperatingMode::SPO2HR), 0x03);
}

#[test]
fn high_resolution_toggles_one_bit() {
    let s = sensor(&[]);
    let mut dev = Max30100::new(Bus(s.clone()), Config::default()).unwrap();
    s.borrow_mut().regs[SPO2_CONF as usize] = 0x07;
    dev.set_high_resolution(true).unwrap();
    assert_eq!(s.borrow().regs[SPO2_CONF as usize], 0x47);
    dev.set_high_resolution(false).unwrap();
    assert_eq!(s.borrow().regs[SPO2_CONF as usize], 0x07);
    assert_eq!(resolution_config(0xFF, false), 0xBF);
    assert_eq!(resolution_config(0x00, true), 0x40);
}

#[test]
fn sampling_rate_and_pulse_width_fields() {
    let s = sensor(&[]);
    let mut dev = Max30100::new(Bus(s.clone()), Config::default()).unwrap();
    s.borrow_mut().regs[SPO2_CONF as usize] = 0xFF;
    dev.set_sampling_rate(SamplingRate::R50Hz).unwrap();
    assert_eq!(s.borrow().regs[SPO2_CONF as usize], 0xE3);
    dev.set_led_pulse_width(PulseWidth::W200UsADC13).unwrap();
    assert_eq!(s.borrow().regs[SPO2_CONF as usize], 0xE0);
    assert_eq!(rate_config(0x00, SamplingRate::R1000Hz), 0x1C);
    assert_eq!(width_config(0x40, PulseWidth::W800UsADC15), 0x42);
}

#[test]
fn led_currents_share_one_register() {
    let s = sensor(&[]);
    let mut dev = Max30100::new(Bus(s.clone()), Config::default()).unwrap();
    dev.set_led_current(LEDCurrent::I4_4MA, LEDCurrent::I146_8MA).unwrap();
    assert_eq!(s.borrow().regs[LED_CONF as usize], 0x1E);
    assert_eq!(led_config(LEDCurrent::I50MA, LEDCurrent::I0MA), 0xF0);
}

#[test]
fn temperature_conversion_and_reading() {
    let s = sensor(&[(TEMP_INT, 0x19), (TEMP_FRACTION, 0x04)]);
    let mut dev = Max30100::new(Bus(s.clone()), Config::default()).unwrap();
    let before = s.borrow().regs[MODE_CONF as usize];
    dev.read_temperature().unwrap();
    assert_eq!(s.borrow().regs[MODE_CONF as usize], before | 0x08);
    assert_eq!(dev.get_temperature_sixteenths(), Ok(25 * 16 + 4));
    assert_eq!(temperature_sixteenths(0xFE, 0x08), -24);
    assert_eq!(temperature_sixteenths(0x80, 0x00), -2048);
}

#[test]
fn fifo_sample_is_big_endian() {
    let s = sensor(&[]);
    let mut dev = Max30100::new(Bus(s.clone()), Config::default()).unwrap();
    // the simulated register file lays the four FIFO bytes out from its data address on
    s.borrow_mut().regs[5..9].copy_from_slice(&[0x12, 0x34, 0xAB, 0xCD]);
    assert_eq!(dev.read_fifo(), Ok(FIFO { infrared: 0x1234, red: 0xABCD }));
    assert_eq!(FIFO::default(), FIFO { infrared: 0, red: 0 });
}

#[test]
fn bus_failure_surfaces_as_error() {
    let s = sensor(&[]);
    s.borrow_mut().fail = true;
    assert!(matches!(Max30100::new(Bus(s.clone()), Config::default()), Err(Error::Bus)));
    let s = sensor(&[]);
    let mut dev = Max30100::new(Bus(s.clone()), Config::default()).unwrap();
    s.borrow_mut().fail = true;
    assert_eq!(dev.get_part_id(), Err(Error::Bus));
    assert_eq!(dev.read_fifo(), Err(Error::Bus));
    assert_eq!(dev.set_mode(OperatingMode::HROnly), Err(Error::Bus));
}

#[test]
fn new_stops_at_the_first_failure() {
    for n in 0..10 {
        let s = sensor(&[]);
        s.borrow_mut().fail_after = Some(n);
        assert!(matches!(Max30100::new(Bus(s.clone()), Config::default()), Err(Error::Bus)));
        assert_eq!(s.borrow().calls, n + 1);
    }
    let s = sensor(&[]);
    s.borrow_mut().fail_after = Some(10);
    assert!(Max30100::new(Bus(s.clone()), Config::default()).is_ok());
    assert_eq!(s.borrow().calls, 10);
}

#[test]
fn failed_read_leaves_the_register_alone() {
    let s = sensor(&[]);
    let mut dev = Max30100::new(Bus(s.clone()), Config::default()).unwrap();
    s.borrow_mut().regs[SPO2_CONF as usize] = 0x07;
    let calls = s.borrow().calls;
    s.borrow_mut().fail_after = Some(calls + 1);
    assert_eq!(dev.set_high_resolution(true), Err(Error::Bus));
    assert_eq!(s.borrow().calls, calls + 2);
    assert_eq!(s.borrow().regs[SPO2_CONF as usize], 0x07);
    s.borrow_mut().fail_after = Some(calls + 2);
    assert_eq!(dev.get_revision_id(), Err(Error::Bus));
    assert_eq!(s.borrow().calls, calls + 3);
}
