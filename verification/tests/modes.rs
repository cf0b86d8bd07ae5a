use nrf24l01::command::Command;
use nrf24l01::registers::{Config, Register, Status};
use nrf24l01::{Configuration, Device, Error, StandbyMode};

// A device that keeps what is written to it and can be told to fail.
struct Fake {
    shadow: Config,
    written: Vec<Vec<u8>>,
    ce: Vec<bool>,
    broken: bool,
}

impl Fake {
    fn new(shadow: u8) -> Fake {
        Fake { shadow: Config(shadow), written: Vec::new(), ce: Vec::new(), broken: false }
    }
}

impl Device for Fake {
    type Error = &'static str;

    // The two that follow serve proofs only and are never called.
    fn trace(&self) -> vstd::seq::Seq<nrf24l01::Event> {
        unreachable!()
    }

    fn config(&self) -> Config {
        unreachable!()
    }

    fn ce_enable(&mut self) {
        self.ce.push(true);
    }

    fn ce_disable(&mut self) {
        self.ce.push(false);
    }

    fn send_command<C: Command>(
        &mut self,
        command: &C,
    ) -> Result<(Status, C::Response), Error<&'static str>> {
        let mut buf = vec![0u8; command.len()];
        command.encode(&mut buf);
        if self.broken {
            return Err(Error::SpiError("broken"));
        }
        self.written.push(buf.clone());
        buf[0] = 0x0E;
        Ok((Status(0x0E), C::decode_response(&buf)))
    }

    fn write_register<R: Register>(
        &mut self,
        register: R,
    ) -> Result<Status, Error<&'static str>> {
        let mut buf = vec![0u8; 1 + register.write_len()];
        buf[0] = 0x20 | R::addr();
        register.encode(&mut buf[1..]);
        if self.broken {
            return Err(Error::SpiError("broken"));
        }
        self.written.push(buf);
        Ok(Status(0x0E))
    }

    fn read_register<R: Register>(&mut self) -> Result<(Status, R), Error<&'static str>> {
        if self.broken {
            return Err(Error::SpiError("broken"));
        }
        let data = vec![0u8; R::read_len()];
        Ok((Status(0x0E), R::decode(&data)))
    }

    fn update_config<F, R>(&mut self, f: F) -> Result<R, Error<&'static str>>
    where
        F: FnOnce(&mut Config) -> R,
    {
        let mut config = self.shadow;
        let result = f(&mut config);
        if config != self.shadow {
            self.write_register(config)?;
            self.shadow = config;
        }
        Ok(result)
    }
}

#[test]
fn powering_up_writes_config_with_the_power_bit() {
    let mut standby = StandbyMode::power_up(Fake::new(0x08)).ok().unwrap();
    assert_eq!(standby.device().written, vec![vec![0x20, 0x0A]]);
    assert_eq!(standby.device().shadow, Config(0x0A));
}

#[test]
fn powering_up_a_powered_chip_writes_nothing() {
    let mut standby = StandbyMode::power_up(Fake::new(0x0E)).ok().unwrap();
    assert!(standby.device().written.is_empty());
    assert_eq!(standby.device().shadow, Config(0x0E));
}

#[test]
fn a_failed_power_up_hands_the_device_back() {
    let mut device = Fake::new(0x08);
    device.broken = true;
    match StandbyMode::power_up(device) {
        Err((device, Error::SpiError("broken"))) => {
            assert_eq!(device.shadow, Config(0x08));
            assert!(device.written.is_empty());
        }
        _ => panic!("the bus was broken"),
    }
}

#[test]
fn modes_change_ce_and_role_on_any_device() {
    let standby = StandbyMode::power_up(Fake::new(0x0A)).ok().unwrap();
    let mut rx = standby.rx().ok().unwrap();
    assert_eq!(rx.device().written, vec![vec![0x20, 0x0B]]);
    assert_eq!(rx.device().ce, vec![true]);
    let standby = rx.standby();
    let mut tx = standby.tx().ok().unwrap();
    assert_eq!(tx.device().written, vec![vec![0x20, 0x0B], vec![0x20, 0x0A]]);
    assert_eq!(tx.device().ce, vec![true, false]);
}
