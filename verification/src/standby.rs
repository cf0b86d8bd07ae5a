//! Standby: the mode between receiving and transmitting.

use crate::bits::with_bit;
use crate::config::{config_written, reconfigured, Configuration};
use crate::device::Device;
use crate::error::Error;
use crate::registers::Config;
use crate::rx::RxMode;
use crate::trace::Event;
use crate::tx::TxMode;
use vstd::prelude::*;

verus! {

/// The chip in Standby-I: powered up, CE low, ready to be configured or to
/// go into receive or transmit mode.
pub struct StandbyMode<D: Device> {
    device: D,
}

/// `config` with the power bit set.
pub open spec fn powered_up(config: Config) -> Config {
    Config(with_bit(config.0, 1, true))
}

/// `config` with the primary role set to receiver (`true`) or transmitter
/// (`false`).
pub open spec fn with_role(config: Config, receiver: bool) -> Config {
    Config(with_bit(config.0, 0, receiver))
}

/// `after` is `before` once it has taken the receiver role and raised CE:
/// CONFIG is written where the role was not set yet, and raising CE is the
/// last thing done.
pub open spec fn listening<D: Device>(before: D, after: D) -> bool {
    let target = with_role(before.config(), true);
    &&& after.config() == target
    &&& after.trace().len() > 0
    &&& after.trace().last() == Event::CeHigh
    &&& config_written(before.config(), before.trace(), after.trace().drop_last(), target, true)
}

impl<D: Device> StandbyMode<D> {
    /// Powers the chip up and takes it over in standby. Where the bus
    /// fails the device is handed back with the error.
    pub fn power_up(device: D) -> (r: Result<Self, (D, Error<D::Error>)>)
        ensures
            match r {
                Ok(standby) => reconfigured(
                    device,
                    standby.inner(),
                    powered_up(device.config()),
                    true,
                ),
                Err((returned, e)) => {
                    &&& reconfigured(device, returned, powered_up(device.config()), false)
                    &&& e is SpiError
                },
            },
    {
        let mut device = device;
        let r = device.update_config(
            |config: &mut Config|
                ensures
                    *final(config) == powered_up(*old(config))
                {
                    config.set_pwr_up(true);
                },
        );
        match r {
            Ok(_) => Ok(StandbyMode { device }),
            Err(e) => Err((device, e)),
        }
    }

    /// Takes over a chip that is powered up with CE low.
    pub(crate) fn new(device: D) -> (standby: Self)
        ensures
            standby.inner() == device,
    {
        StandbyMode { device }
    }

    /// Lowers CE and takes the chip over in standby.
    pub(crate) fn from_rx_tx(device: D) -> (standby: Self)
        ensures
            standby.inner().trace() == device.trace().push(Event::CeLow),
            standby.inner().config() == device.config(),
    {
        let mut device = device;
        device.ce_disable();
        StandbyMode { device }
    }

    /// Goes into receive mode: sets the receiver role in CONFIG, then
    /// raises CE. Where the bus fails the chip stays in standby, and the
    /// standby mode is handed back with the error.
    pub fn rx(self) -> (r: Result<RxMode<D>, (Self, Error<D::Error>)>)
        ensures
            match r {
                Ok(rx) => listening(self.inner(), rx.inner()),
                Err((standby, e)) => {
                    &&& reconfigured(
                        self.inner(),
                        standby.inner(),
                        with_role(self.inner().config(), true),
                        false,
                    )
                    &&& e is SpiError
                },
            },
    {
        let mut device = self.device;
        let r = device.update_config(
            |config: &mut Config|
                ensures
                    *final(config) == with_role(*old(config), true)
                {
                    config.set_prim_rx(true);
                },
        );
        match r {
            Ok(_) => {
                let ghost written = device.trace();
                device.ce_enable();
                assert(device.trace().drop_last() =~= written);
                Ok(RxMode::new(device))
            },
            Err(e) => Err((StandbyMode { device }, e)),
        }
    }

    /// Goes into transmit mode: sets the transmitter role in CONFIG. CE
    /// stays low until something is sent. Where the bus fails the chip
    /// stays in standby, and the standby mode is handed back with the
    /// error.
    pub fn tx(self) -> (r: Result<TxMode<D>, (Self, Error<D::Error>)>)
        ensures
            match r {
                Ok(tx) => reconfigured(
                    self.inner(),
                    tx.inner(),
                    with_role(self.inner().config(), false),
                    true,
                ),
                Err((standby, e)) => {
                    &&& reconfigured(
                        self.inner(),
                        standby.inner(),
                        with_role(self.inner().config(), false),
                        false,
                    )
                    &&& e is SpiError
                },
            },
    {
        let mut device = self.device;
        let r = device.update_config(
            |config: &mut Config|
                ensures
                    *final(config) == with_role(*old(config), false)
                {
                    config.set_prim_rx(false);
                },
        );
        match r {
            Ok(_) => Ok(TxMode::new(device)),
            Err(e) => Err((StandbyMode { device }, e)),
        }
    }
}

impl<D: Device> Configuration for StandbyMode<D> {
    type Inner = D;

    closed spec fn inner(&self) -> D {
        self.device
    }

    fn device(&mut self) -> (device: &mut D) {
        &mut self.device
    }
}

} // verus!
