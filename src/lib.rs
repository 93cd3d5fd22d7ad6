//! Drivers for an AD7705/AD7706 delta-sigma converter and a MAX30100 pulse
//! oximeter, written against small bus traits so that the register protocol
//! can be verified independently of any particular HAL.

pub mod ad770x;
pub mod bus;
pub mod max30100;
pub mod sampling;
