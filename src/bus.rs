//! The bus primitives the drivers consume, and the record of what crossed them.

use vstd::prelude::*;

verus! {

/// A failure reported by a bus or pin implementation.
#[derive(Debug, Clone, Copy, PartialEq, Eq, Structural)]
pub struct BusFault;

/// Errors surfaced by the drivers.
#[derive(Debug, Clone, Copy, PartialEq, Eq, Structural)]
pub enum Error {
    /// The data transfer primitive failed, or handed back a buffer of another length.
    Bus,
    /// The chip-select line could not be driven.
    ChipSelect,
    /// The chip did not report ready within the configured number of polls.
    Timeout,
}

/// A full-duplex serial transfer: each byte of `words` is sent and replaced by
/// the byte clocked in at the same time.
pub trait SpiTransfer {
    /// Every transfer attempted on this bus, oldest first, with its outcome.
    /// An implementation that keeps no such model has this placeholder, and
    /// the contract of `transfer` is then a requirement nothing here checks.
    closed spec fn history(&self) -> Seq<Exchange> {
        Seq::empty()
    }

    /// Records the attempt; a completed transfer keeps the length of `words`.
    fn transfer(&mut self, words: &mut Vec<u8>) -> (r: Result<(), BusFault>)
        ensures
            final(self).history() == old(self).history().push(
                Exchange { sent: old(words)@, received: final(words)@, ok: r is Ok },
            ),
            r is Ok ==> final(words)@.len() == old(words)@.len(),
    ;
}

/// A digital output line, used as chip select.
pub trait OutputPin {
    /// Every drive of this line attempted, oldest first, with its outcome.
    /// An implementation that keeps no such model has this placeholder, and
    /// the contracts of `set_high` and `set_low` are then requirements nothing
    /// here checks.
    closed spec fn drives(&self) -> Seq<Drive> {
        Seq::empty()
    }

    fn set_high(&mut self) -> (r: Result<(), BusFault>)
        ensures
            final(self).drives() == old(self).drives().push(Drive { high: true, ok: r is Ok }),
    ;

    fn set_low(&mut self) -> (r: Result<(), BusFault>)
        ensures
            final(self).drives() == old(self).drives().push(Drive { high: false, ok: r is Ok }),
    ;
}

/// A two-wire bus master addressing 7-bit devices.
pub trait I2cBus {
    /// Every transaction attempted on this bus, oldest first, with its
    /// outcome. An implementation that keeps no such model has this
    /// placeholder, and the contracts of `write` and `read` are then
    /// requirements nothing here checks.
    closed spec fn history(&self) -> Seq<Transaction> {
        Seq::empty()
    }

    /// Writes `bytes` to the device at `address`, recording the attempt.
    fn write(&mut self, address: u8, bytes: &Vec<u8>) -> (r: Result<(), BusFault>)
        ensures
            final(self).history() == old(self).history().push(
                Transaction { address, write: true, bytes: bytes@, ok: r is Ok },
            ),
    ;

    /// Fills `buffer` with bytes read from the device at `address`, recording
    /// the attempt; a completed read keeps the length of `buffer`.
    fn read(&mut self, address: u8, buffer: &mut Vec<u8>) -> (r: Result<(), BusFault>)
        ensures
            final(self).history() == old(self).history().push(
                Transaction { address, write: false, bytes: final(buffer)@, ok: r is Ok },
            ),
            r is Ok ==> final(buffer)@.len() == old(buffer)@.len(),
    ;
}

/// One attempted two-wire transaction: the bytes written to, or read from,
/// `address`, and whether it completed.
pub struct Transaction {
    pub address: u8,
    pub write: bool,
    pub bytes: Seq<u8>,
    pub ok: bool,
}

/// One attempted transfer: the bytes sent, what the buffer held afterwards,
/// and whether it completed.
pub struct Exchange {
    pub sent: Seq<u8>,
    pub received: Seq<u8>,
    pub ok: bool,
}

/// One attempted drive of an output line: to which level, and whether it
/// completed.
pub struct Drive {
    pub high: bool,
    pub ok: bool,
}

} // verus!
