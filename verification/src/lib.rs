//! Driver for the nRF24L01(+) 2.4 GHz transceiver and its Enhanced
//! ShockBurst link protocol.
//!
//! The chip is reached over a full-duplex serial bus and two lines, CE and
//! CSN. [`registers`] holds the register map and [`command`] the framing
//! of the serial protocol. [`device`] has what the driver needs from the
//! platform and the transport that the rest is written against, [`trace`]
//! the model of what the driver does on the wire, [`wiring`] the lines and
//! the bus with their trace, and [`radio`] the transport itself.
//! [`config`] has the settings that can be changed in any mode, and
//! [`standby`], [`rx`] and [`tx`] the three operating modes.
//! [`operating_mode`] configures the chip as a whole for receiving or
//! transmitting, and [`blocking`] sees whole jobs through.

pub mod bits;
pub mod blocking;
pub mod ce;
pub mod command;
pub mod config;
pub mod device;
pub mod error;
pub mod operating_mode;
pub mod payload;
pub mod radio;
pub mod registers;
pub mod rx;
pub mod setup;
pub mod standby;
pub mod trace;
pub mod tx;
pub mod wiring;

pub use crate::ce::{CEPin, Level};
pub use crate::config::{Configuration, CrcMode, DataRate};
pub use crate::device::{Delay, Device, DigitalOutput, FullDuplex};
pub use crate::error::Error;
pub use crate::operating_mode::{OperatingMode, PALevel, RXConfig, TXConfig};
pub use crate::payload::Payload;
pub use crate::radio::NRF24L01;
pub use crate::registers::{MAX_ADDR_BYTES, MIN_ADDR_BYTES, PIPES_COUNT};
pub use crate::rx::RxMode;
pub use crate::standby::StandbyMode;
pub use crate::trace::Event;
pub use crate::tx::TxMode;
pub use crate::wiring::LineFault;
