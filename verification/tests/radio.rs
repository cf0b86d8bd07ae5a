use nrf24l01::command::ReadRxPayloadWidth;
use nrf24l01::registers::{Config, Feature, Register, RfCh, RxAddrP0, RxAddrP1, SetupRetr};
use nrf24l01::wiring::Wiring;
use nrf24l01::{
    CEPin, Configuration, CrcMode, DataRate, Delay, Device, DigitalOutput, Error, FullDuplex,
    LineFault, OperatingMode, PALevel, Payload, RXConfig, StandbyMode, TXConfig, NRF24L01,
};
use std::cell::RefCell;
use std::collections::VecDeque;
use std::rc::Rc;

// A chip that lives in memory, and the lines and bus that lead to it.

#[derive(Clone, Debug, PartialEq)]
enum Seen {
    CeHigh,
    CeLow,
    CsnLow,
    CsnHigh,
    Transfer(Vec<u8>, Vec<u8>),
    Failed(Vec<u8>),
    Pause(u64),
}

#[derive(Debug, PartialEq)]
struct BusFault;

#[derive(Debug, PartialEq)]
struct PinFault(&'static str);

struct Chip {
    registers: [u8; 0x20],
    rx_addr_p0: Vec<u8>,
    rx_addr_p1: Vec<u8>,
    tx_addr: Vec<u8>,
    tx_fifo: VecDeque<(u8, Vec<u8>, bool)>,
    rx_fifo: VecDeque<(u8, Vec<u8>)>,
    ce: bool,
    csn: bool,
    last_seen: Option<Vec<u8>>,
    forced_width: Option<u8>,
    transfers_until_fault: Option<usize>,
    link: Option<(bool, u8)>,
    refill: usize,
    stuck_ce: bool,
    stuck_csn: bool,
    carriers: Vec<u8>,
    seen: Vec<Seen>,
}

impl Chip {
    fn new() -> Rc<RefCell<Chip>> {
        let mut registers = [0u8; 0x20];
        registers[0x00] = 0x08;
        registers[0x01] = 0x3F;
        registers[0x02] = 0x03;
        registers[0x03] = 0x03;
        registers[0x04] = 0x03;
        registers[0x05] = 0x02;
        registers[0x06] = 0x0E;
        registers[0x0C] = 0xC3;
        registers[0x0D] = 0xC4;
        registers[0x0E] = 0xC5;
        registers[0x0F] = 0xC6;
        Rc::new(RefCell::new(Chip {
            registers,
            rx_addr_p0: vec![0xE7; 5],
            rx_addr_p1: vec![0xC2; 5],
            tx_addr: vec![0xE7; 5],
            tx_fifo: VecDeque::new(),
            rx_fifo: VecDeque::new(),
            ce: false,
            csn: true,
            last_seen: None,
            forced_width: None,
            transfers_until_fault: None,
            link: None,
            refill: 0,
            stuck_ce: false,
            stuck_csn: false,
            carriers: Vec::new(),
            seen: Vec::new(),
        }))
    }

    fn status(&self) -> u8 {
        let pipe = match self.rx_fifo.front() {
            Some((pipe, _)) => *pipe,
            None => 7,
        };
        let full = if self.tx_fifo.len() >= 3 { 1 } else { 0 };
        (self.registers[0x07] & 0x70) | (pipe << 1) | full
    }

    fn fifo_status(&self) -> u8 {
        let mut value = 0u8;
        if self.rx_fifo.is_empty() {
            value |= 0x01;
        }
        if self.rx_fifo.len() >= 3 {
            value |= 0x02;
        }
        if self.tx_fifo.is_empty() {
            value |= 0x10;
        }
        if self.tx_fifo.len() >= 3 {
            value |= 0x20;
        }
        value
    }

    fn width(&self) -> usize {
        (self.registers[0x03] & 0x03) as usize + 2
    }

    fn exchange(&mut self, buf: &mut [u8]) {
        let status = self.status();
        let opcode = buf[0];
        let data: Vec<u8> = buf[1..].to_vec();
        buf[0] = status;
        match opcode {
            0x00..=0x1F => {
                let answer: Vec<u8> = match opcode {
                    0x0A => self.rx_addr_p0.clone(),
                    0x0B => self.rx_addr_p1.clone(),
                    0x10 => self.tx_addr.clone(),
                    0x07 => vec![status],
                    0x09 => vec![if self.carriers.contains(&self.registers[0x05]) { 1 } else { 0 }],
                    0x17 => vec![self.fifo_status()],
                    _ => vec![self.registers[opcode as usize]],
                };
                for (i, slot) in buf[1..].iter_mut().enumerate() {
                    *slot = if i < answer.len() { answer[i] } else { 0 };
                }
            }
            0x20..=0x3F => {
                let register = opcode & 0x1F;
                match register {
                    0x0A => self.rx_addr_p0 = data,
                    0x0B => self.rx_addr_p1 = data,
                    0x10 => self.tx_addr = data,
                    0x07 => self.registers[0x07] &= !(data[0] & 0x70),
                    _ => self.registers[register as usize] = data[0],
                }
            }
            0x60 => {
                buf[1] = match self.forced_width {
                    Some(width) => width,
                    None => match self.rx_fifo.front() {
                        Some((_, payload)) => payload.len() as u8,
                        None => 0,
                    },
                };
            }
            0x61 => {
                if let Some((_, payload)) = self.rx_fifo.pop_front() {
                    for (i, slot) in buf[1..].iter_mut().enumerate() {
                        *slot = if i < payload.len() { payload[i] } else { 0 };
                    }
                }
            }
            0xA0 => {
                if self.tx_fifo.len() < 3 {
                    self.tx_fifo.push_back((0, data, false));
                }
            }
            0xA8..=0xAD => {
                if self.tx_fifo.len() < 3 {
                    self.tx_fifo.push_back((opcode & 0x07, data, false));
                }
            }
            0xE1 => self.tx_fifo.clear(),
            0xE2 => self.rx_fifo.clear(),
            _ => {}
        }
    }

    // What the chip does by itself when CE rises in the transmitter role.
    fn transmit(&mut self) {
        if self.registers[0x00] & 0x01 != 0 || self.tx_fifo.is_empty() {
            return;
        }
        match self.link {
            Some((true, retries)) => {
                self.tx_fifo.pop_front();
                if self.refill > 0 {
                    self.refill -= 1;
                    self.tx_fifo.push_back((0, vec![0x55], false));
                }
                self.registers[0x07] |= 0x20;
                self.registers[0x08] = retries & 0x0F;
            }
            Some((false, retries)) => {
                self.registers[0x07] |= 0x10;
                self.registers[0x08] = retries & 0x0F;
            }
            None => {}
        }
    }

    fn frames(&self) -> Vec<Vec<u8>> {
        self.seen
            .iter()
            .filter_map(|seen| match seen {
                Seen::Transfer(sent, _) => Some(sent.clone()),
                Seen::Failed(sent) => Some(sent.clone()),
                _ => None,
            })
            .collect()
    }

    fn pipe_of(&self, address: &[u8]) -> Option<u8> {
        let width = self.width();
        let enabled = self.registers[0x02];
        if enabled & 1 != 0 && self.rx_addr_p0[..width] == address[..width] {
            return Some(0);
        }
        if enabled & 2 != 0 && self.rx_addr_p1[..width] == address[..width] {
            return Some(1);
        }
        for pipe in 2u8..6 {
            if enabled & (1 << pipe) != 0
                && self.registers[0x0A + pipe as usize] == address[0]
                && self.rx_addr_p1[1..width] == address[1..width]
            {
                return Some(pipe);
            }
        }
        None
    }
}

// Carries the packet at the head of the sender's queue over the air once.
// `fresh` tells whether the packet is a new one or the last one again.
fn on_air(sender: &Rc<RefCell<Chip>>, receiver: &Rc<RefCell<Chip>>, fresh: bool) -> bool {
    let mut tx = sender.borrow_mut();
    let mut rx = receiver.borrow_mut();
    if !tx.ce || !rx.ce || rx.registers[0x00] & 0x03 != 0x03 {
        return false;
    }
    let packet = match tx.tx_fifo.front() {
        Some((_, payload, _)) => payload.clone(),
        None => match (&tx.last_seen, fresh) {
            (Some(payload), false) => payload.clone(),
            _ => return false,
        },
    };
    let pipe = match rx.pipe_of(&tx.tx_addr.clone()) {
        Some(pipe) => pipe,
        None => return false,
    };
    if fresh {
        let acknowledged = match rx.tx_fifo.front() {
            Some((p, _, sent)) => *p == pipe && *sent,
            None => false,
        };
        if acknowledged {
            rx.tx_fifo.pop_front();
        }
        rx.rx_fifo.push_back((pipe, packet.clone()));
        rx.registers[0x07] |= 0x40;
    }
    let riding = match rx.tx_fifo.front_mut() {
        Some((p, payload, sent)) if *p == pipe => {
            *sent = true;
            Some(payload.clone())
        }
        _ => None,
    };
    if fresh {
        tx.tx_fifo.pop_front();
        tx.last_seen = Some(packet);
        tx.registers[0x07] |= 0x20;
        if let Some(payload) = riding {
            tx.rx_fifo.push_back((0, payload));
            tx.registers[0x07] |= 0x40;
        }
    }
    true
}

enum Which {
    Ce,
    Csn,
}

struct Line {
    chip: Rc<RefCell<Chip>>,
    which: Which,
}

impl DigitalOutput for Line {
    type Error = PinFault;

    fn set_high(&mut self) -> Result<(), PinFault> {
        let mut chip = self.chip.borrow_mut();
        match self.which {
            Which::Ce => {
                if chip.stuck_ce {
                    return Err(PinFault("CE"));
                }
                chip.ce = true;
                chip.seen.push(Seen::CeHigh);
                chip.transmit();
            }
            Which::Csn => {
                if chip.stuck_csn {
                    return Err(PinFault("CSN"));
                }
                chip.csn = true;
                chip.seen.push(Seen::CsnHigh);
            }
        }
        Ok(())
    }

    fn set_low(&mut self) -> Result<(), PinFault> {
        let mut chip = self.chip.borrow_mut();
        match self.which {
            Which::Ce => {
                if chip.stuck_ce {
                    return Err(PinFault("CE"));
                }
                chip.ce = false;
                chip.seen.push(Seen::CeLow);
            }
            Which::Csn => {
                if chip.stuck_csn {
                    return Err(PinFault("CSN"));
                }
                chip.csn = false;
                chip.seen.push(Seen::CsnLow);
            }
        }
        Ok(())
    }
}

struct Bus {
    chip: Rc<RefCell<Chip>>,
}

impl FullDuplex for Bus {
    type Error = BusFault;

    fn transfer(&mut self, buf: &mut [u8; 33], len: usize) -> Result<(), BusFault> {
        let mut chip = self.chip.borrow_mut();
        assert!(!chip.csn || chip.stuck_csn, "transfer while CSN is high");
        let buf = &mut buf[..len];
        let sent = buf.to_vec();
        if let Some(left) = chip.transfers_until_fault {
            if left == 0 {
                chip.seen.push(Seen::Failed(sent));
                return Err(BusFault);
            }
            chip.transfers_until_fault = Some(left - 1);
        }
        chip.exchange(buf);
        chip.seen.push(Seen::Transfer(sent, buf.to_vec()));
        Ok(())
    }
}

struct Timer {
    chip: Rc<RefCell<Chip>>,
}

impl Delay for Timer {
    fn delay_us(&mut self, micros: u32) {
        self.chip.borrow_mut().seen.push(Seen::Pause(micros as u64));
    }

    fn delay_ms(&mut self, millis: u32) {
        self.chip.borrow_mut().seen.push(Seen::Pause(millis as u64 * 1000));
    }
}

type Radio = NRF24L01<Line, Line, Bus>;

fn wire(chip: &Rc<RefCell<Chip>>) -> (Line, Line, Bus) {
    (
        Line { chip: chip.clone(), which: Which::Ce },
        Line { chip: chip.clone(), which: Which::Csn },
        Bus { chip: chip.clone() },
    )
}

fn start(chip: &Rc<RefCell<Chip>>) -> StandbyMode<Radio> {
    let (ce, csn, spi) = wire(chip);
    let standby = NRF24L01::new(ce, csn, spi).unwrap();
    chip.borrow_mut().seen.clear();
    standby
}

fn bracketed(sent: &[u8], received: &[u8]) -> Vec<Seen> {
    vec![Seen::CsnLow, Seen::Transfer(sent.to_vec(), received.to_vec()), Seen::CsnHigh]
}

#[test]
fn setting_up_touches_the_wire_in_order() {
    let chip = Chip::new();
    let (ce, csn, spi) = wire(&chip);
    let standby = NRF24L01::new(ce, csn, spi);
    assert!(standby.is_ok());
    let seen = chip.borrow().seen.clone();
    let mut expected = vec![Seen::CeLow, Seen::CsnHigh];
    expected.extend(bracketed(&[0x20, 0x08], &[0x0E, 0x08]));
    expected.extend(bracketed(&[0x03, 0x00], &[0x0E, 0x03]));
    expected.extend(bracketed(&[0x20, 0x0A], &[0x0E, 0x0A]));
    assert_eq!(seen, expected);
    assert_eq!(chip.borrow().registers[0x00], 0x0A);
}

#[test]
fn a_chip_that_is_not_there_is_reported() {
    let chip = Chip::new();
    chip.borrow_mut().registers[0x03] = 0x00;
    let (ce, csn, spi) = wire(&chip);
    match NRF24L01::new(ce, csn, spi) {
        Err(Error::NotConnected) => {}
        _ => panic!("a width code of zero must not pass"),
    }
    assert_eq!(chip.borrow().frames(), vec![vec![0x20, 0x08], vec![0x03, 0x00]]);

    for code in 1..=3u8 {
        let chip = Chip::new();
        chip.borrow_mut().registers[0x03] = code;
        let (ce, csn, spi) = wire(&chip);
        assert!(NRF24L01::new(ce, csn, spi).is_ok());
    }
}

#[test]
fn a_bus_fault_while_setting_up_is_handed_on() {
    for good in 0..3usize {
        let chip = Chip::new();
        chip.borrow_mut().transfers_until_fault = Some(good);
        let (ce, csn, spi) = wire(&chip);
        match NRF24L01::new(ce, csn, spi) {
            Err(Error::SpiError(BusFault)) => {}
            _ => panic!("the fault must come back"),
        }
        assert!(chip.borrow().csn, "CSN must be high after a fault");
        assert_eq!(chip.borrow().seen.last(), Some(&Seen::CsnHigh));
        assert_eq!(chip.borrow().frames().len(), good + 1);
    }
}

#[test]
fn the_wiring_passes_every_call_on() {
    let chip = Chip::new();
    let (ce, csn, spi) = wire(&chip);
    let mut wiring = Wiring::new(ce, csn, spi);
    let mut timer = Timer { chip: chip.clone() };
    assert!(chip.borrow().seen.is_empty());
    assert!(!wiring.ce_is_high());
    wiring.ce_high();
    assert!(wiring.ce_is_high());
    wiring.pause_us(&mut timer, 130);
    wiring.select();
    let mut buf = [0u8; 33];
    buf[0] = 0x05;
    buf[2] = 0x99;
    assert_eq!(wiring.transfer(&mut buf, 2), Ok(()));
    assert_eq!(&buf[..3], &[0x0E, 0x02, 0x99]);
    wiring.deselect();
    wiring.pause_ms(&mut timer, 2);
    wiring.ce_low();
    assert!(!wiring.ce_is_high());
    assert_eq!(
        chip.borrow().seen,
        vec![
            Seen::CeHigh,
            Seen::Pause(130),
            Seen::CsnLow,
            Seen::Transfer(vec![0x05, 0x00], vec![0x0E, 0x02]),
            Seen::CsnHigh,
            Seen::Pause(2000),
            Seen::CeLow,
        ]
    );
    wiring.select();
    chip.borrow_mut().transfers_until_fault = Some(0);
    assert_eq!(wiring.transfer(&mut buf, 1), Err(BusFault));
    wiring.deselect();
    assert_eq!(wiring.take_line_fault(), None);
    chip.borrow_mut().stuck_ce = true;
    wiring.ce_high();
    wiring.ce_low();
    chip.borrow_mut().stuck_csn = true;
    wiring.select();
    assert_eq!(wiring.take_line_fault(), Some(LineFault::Ce(PinFault("CE"))));
    wiring.deselect();
    assert_eq!(wiring.take_line_fault(), Some(LineFault::Csn(PinFault("CSN"))));
    assert_eq!(wiring.take_line_fault(), None);
}

#[test]
fn a_command_is_bracketed_by_csn() {
    let chip = Chip::new();
    let mut standby = start(&chip);
    let (status, register) = standby.device().read_register::<RfCh>().unwrap();
    assert_eq!(status.0, 0x0E);
    assert_eq!(register.rf_ch(), 2);
    assert_eq!(chip.borrow().seen, bracketed(&[0x05, 0x00], &[0x0E, 0x02]));

    chip.borrow_mut().seen.clear();
    let status = standby.device().write_register(RfCh(76)).unwrap();
    assert_eq!(status.0, 0x0E);
    assert_eq!(chip.borrow().seen, bracketed(&[0x25, 76], &[0x0E, 76]));
    assert_eq!(chip.borrow().registers[0x05], 76);

    chip.borrow_mut().seen.clear();
    let (status, width) = standby.device().send_command(&ReadRxPayloadWidth).unwrap();
    assert_eq!(status.rx_p_no(), 7);
    assert_eq!(width, 0);
    assert_eq!(chip.borrow().seen, bracketed(&[0x60, 0x00], &[0x0E, 0x00]));
}

#[test]
fn csn_is_raised_when_the_bus_fails() {
    let chip = Chip::new();
    let mut standby = start(&chip);
    chip.borrow_mut().transfers_until_fault = Some(0);
    let failed = standby.device().write_register(RfCh(76));
    assert!(matches!(failed, Err(Error::SpiError(BusFault))));
    assert_eq!(
        chip.borrow().seen,
        vec![Seen::CsnLow, Seen::Failed(vec![0x25, 76]), Seen::CsnHigh]
    );
    assert_eq!(chip.borrow().registers[0x05], 2);
}

#[test]
fn ce_follows_enable_and_disable() {
    let chip = Chip::new();
    let mut standby = start(&chip);
    assert!(!standby.device().ce_is_high());
    standby.device().ce_enable();
    assert!(chip.borrow().ce);
    assert!(standby.device().ce_is_high());
    standby.device().ce_disable();
    assert!(!chip.borrow().ce);
    assert!(!standby.device().ce_is_high());
    assert_eq!(chip.borrow().seen, vec![Seen::CeHigh, Seen::CeLow]);
}

#[test]
fn ce_is_low_while_the_work_is_done() {
    let chip = Chip::new();
    let mut standby = start(&chip);
    standby.device().ce_enable();
    chip.borrow_mut().seen.clear();
    let channel = standby
        .device()
        .with_ce_disabled(|device: &mut Radio| device.read_register::<RfCh>().unwrap().1.rf_ch());
    assert_eq!(channel, 2);
    let mut expected = vec![Seen::CeLow];
    expected.extend(bracketed(&[0x05, 0x00], &[0x0E, 0x02]));
    expected.push(Seen::CeHigh);
    assert_eq!(chip.borrow().seen, expected);
    assert!(chip.borrow().ce);
}

#[test]
fn the_shadow_of_config_follows_what_is_written() {
    let chip = Chip::new();
    let mut standby = start(&chip);
    let before = standby
        .device()
        .update_config(|config: &mut Config| {
            let before = config.0;
            config.set_mask_rx_dr(true);
            before
        })
        .unwrap();
    assert_eq!(before, 0x0A);
    let after = standby.device().update_config(|config: &mut Config| config.0).unwrap();
    assert_eq!(after, 0x4A);
    assert_eq!(chip.borrow().frames(), vec![vec![0x20, 0x4A]]);
}

#[test]
fn config_is_written_only_when_it_changes() {
    let chip = Chip::new();
    let mut standby = start(&chip);
    standby.set_crc(CrcMode::OneByte).unwrap();
    assert!(chip.borrow().frames().is_empty());

    standby.set_crc(CrcMode::TwoBytes).unwrap();
    assert_eq!(chip.borrow().frames(), vec![vec![0x20, 0x0E]]);
    standby.set_crc(CrcMode::TwoBytes).unwrap();
    assert_eq!(chip.borrow().frames().len(), 1);

    standby.set_crc(CrcMode::Disabled).unwrap();
    assert_eq!(chip.borrow().frames().last(), Some(&vec![0x20, 0x02]));

    standby.set_interrupt_mask(true, false, true).unwrap();
    assert_eq!(chip.borrow().frames().last(), Some(&vec![0x20, 0x52]));
    assert_eq!(chip.borrow().frames().len(), 3);
    standby.set_interrupt_mask(true, false, true).unwrap();
    assert_eq!(chip.borrow().frames().len(), 3);
    standby.set_interrupt_mask(false, true, false).unwrap();
    assert_eq!(chip.borrow().frames().last(), Some(&vec![0x20, 0x22]));
}

#[test]
fn a_failed_config_write_leaves_the_shadow_alone() {
    let chip = Chip::new();
    let mut standby = start(&chip);
    chip.borrow_mut().transfers_until_fault = Some(0);
    assert!(standby.set_crc(CrcMode::TwoBytes).is_err());
    chip.borrow_mut().transfers_until_fault = None;
    standby.set_crc(CrcMode::TwoBytes).unwrap();
    assert_eq!(chip.borrow().frames(), vec![vec![0x20, 0x0E], vec![0x20, 0x0E]]);
    assert_eq!(chip.borrow().registers[0x00], 0x0E);
}

#[test]
fn a_register_is_written_back_only_when_it_changes() {
    let chip = Chip::new();
    let mut standby = start(&chip);
    let was = standby
        .device()
        .update_register::<Feature, _, _>(|feature: &mut Feature| {
            let was = feature.0;
            feature.set_en_dpl(true);
            was
        })
        .unwrap();
    assert_eq!(was, 0);
    assert_eq!(chip.borrow().frames(), vec![vec![0x1D, 0x00], vec![0x3D, 0x04]]);

    chip.borrow_mut().seen.clear();
    let was = standby
        .device()
        .update_register::<Feature, _, _>(|feature: &mut Feature| {
            let was = feature.0;
            feature.set_en_dpl(true);
            was
        })
        .unwrap();
    assert_eq!(was, 0x04);
    assert_eq!(chip.borrow().frames(), vec![vec![0x1D, 0x00]]);
}

#[test]
fn channel_and_radio_settings() {
    let chip = Chip::new();
    let mut standby = start(&chip);
    assert_eq!(standby.get_frequency().unwrap(), 2);
    standby.set_frequency(108).unwrap();
    assert_eq!(standby.get_frequency().unwrap(), 108);
    standby.set_frequency(200).unwrap();
    assert_eq!(standby.get_frequency().unwrap(), 125);
    assert_eq!(
        chip.borrow().frames(),
        vec![vec![0x05, 0], vec![0x25, 108], vec![0x05, 0], vec![0x25, 125], vec![0x05, 0]]
    );

    chip.borrow_mut().seen.clear();
    standby.set_rf(&DataRate::R250Kbps, 2).unwrap();
    standby.set_rf(&DataRate::R2Mbps, 3).unwrap();
    standby.set_auto_retransmit(2, 3).unwrap();
    standby.set_auto_retransmit(200, 16).unwrap();
    assert_eq!(
        chip.borrow().frames(),
        vec![vec![0x26, 0x24], vec![0x26, 0x0E], vec![0x24, 0x23], vec![0x24, 0xFF]]
    );
}

#[test]
fn pipe_switches() {
    let chip = Chip::new();
    let mut standby = start(&chip);
    standby.set_pipes_rx_enable(&[true, true, false, false, false, true]).unwrap();
    assert_eq!(chip.borrow().registers[0x02], 0b0010_0011);
    standby.set_auto_ack(&[true, false, true, false, true, false]).unwrap();
    assert_eq!(chip.borrow().registers[0x01], 0b0001_0101);
    assert_eq!(standby.get_auto_ack().unwrap(), [true, false, true, false, true, false]);
    assert_eq!(
        chip.borrow().frames(),
        vec![vec![0x22, 0x23], vec![0x21, 0x15], vec![0x01, 0x00]]
    );
}

#[test]
fn address_width_is_the_code_plus_two() {
    for code in 1..=3u8 {
        let chip = Chip::new();
        let mut standby = start(&chip);
        chip.borrow_mut().registers[0x03] = code;
        assert_eq!(standby.get_address_width().unwrap(), code + 2);
        assert_eq!(chip.borrow().frames(), vec![vec![0x03, 0x00]]);
    }
}

#[test]
fn addresses_read_back_as_set() {
    let address = *b"abcde";
    for width in 3..=5usize {
        for pipe in 0..2usize {
            let chip = Chip::new();
            let mut standby = start(&chip);
            chip.borrow_mut().registers[0x03] = (width - 2) as u8;
            standby.set_rx_addr(pipe, &address[..width]).unwrap();
            let mut frame = vec![0x2A + pipe as u8];
            frame.extend_from_slice(&address[..width]);
            assert_eq!(chip.borrow().frames(), vec![frame]);
            let stored = if pipe == 0 {
                let (_, register) = standby.device().read_register::<RxAddrP0>().unwrap();
                let mut bytes = vec![0u8; 5];
                register.encode(&mut bytes);
                bytes
            } else {
                let (_, register) = standby.device().read_register::<RxAddrP1>().unwrap();
                let mut bytes = vec![0u8; 5];
                register.encode(&mut bytes);
                bytes
            };
            assert_eq!(&stored[..width], &address[..width]);
        }
        for pipe in 2..6usize {
            let chip = Chip::new();
            let mut standby = start(&chip);
            standby.set_rx_addr(pipe, &address[..width]).unwrap();
            assert_eq!(chip.borrow().frames(), vec![vec![0x2A + pipe as u8, b'a']]);
            assert_eq!(chip.borrow().registers[0x0A + pipe], b'a');
        }
        let chip = Chip::new();
        let mut standby = start(&chip);
        standby.set_tx_addr(&address[..width]).unwrap();
        assert_eq!(chip.borrow().tx_addr, address[..width].to_vec());
    }
}

#[test]
fn a_single_byte_sets_the_address_of_pipes_2_to_5() {
    let chip = Chip::new();
    let mut standby = start(&chip);
    standby.set_rx_addr(2, &[0x11]).unwrap();
    standby.set_rx_addr(3, &[0x22]).unwrap();
    standby.set_rx_addr(4, &[0x33]).unwrap();
    standby.set_rx_addr(5, &[0x44]).unwrap();
    assert_eq!(
        chip.borrow().frames(),
        vec![vec![0x2C, 0x11], vec![0x2D, 0x22], vec![0x2E, 0x33], vec![0x2F, 0x44]]
    );
}

#[test]
fn a_pipe_above_5_is_refused_without_touching_the_bus() {
    let chip = Chip::new();
    let mut standby = start(&chip);
    for pipe in [6usize, 7, 100, usize::MAX] {
        assert!(matches!(standby.set_rx_addr(pipe, b"abcde"), Err(Error::InvalidPipe)));
    }
    assert!(chip.borrow().seen.is_empty());
}

#[test]
fn interrupts_are_fetched_with_a_nop_and_cleared_by_writing_ones() {
    let chip = Chip::new();
    let mut standby = start(&chip);
    chip.borrow_mut().registers[0x07] = 0x50;
    assert_eq!(standby.get_interrupts().unwrap(), (true, false, true));
    chip.borrow_mut().registers[0x07] = 0x20;
    assert_eq!(standby.get_interrupts().unwrap(), (false, true, false));
    chip.borrow_mut().registers[0x07] = 0x70;
    standby.clear_interrupts().unwrap();
    assert_eq!(chip.borrow().registers[0x07], 0x00);
    assert_eq!(standby.get_interrupts().unwrap(), (false, false, false));
    assert_eq!(
        chip.borrow().frames(),
        vec![vec![0xFF], vec![0xFF], vec![0x27, 0x70], vec![0xFF]]
    );
}

#[test]
fn flushes() {
    let chip = Chip::new();
    let mut standby = start(&chip);
    chip.borrow_mut().rx_fifo.push_back((0, vec![1]));
    chip.borrow_mut().tx_fifo.push_back((0, vec![2], false));
    standby.flush_rx().unwrap();
    assert!(chip.borrow().rx_fifo.is_empty());
    assert_eq!(chip.borrow().tx_fifo.len(), 1);
    standby.flush_tx().unwrap();
    assert!(chip.borrow().tx_fifo.is_empty());
    assert_eq!(chip.borrow().frames(), vec![vec![0xE2], vec![0xE1]]);
}

#[test]
fn static_payload_lengths() {
    let chip = Chip::new();
    let mut standby = start(&chip);
    standby
        .set_pipes_rx_lengths(&[Some(32), Some(1), Some(0), Some(8), Some(16), Some(0x45)])
        .unwrap();
    assert_eq!(
        chip.borrow().frames(),
        vec![
            vec![0x3C, 0x00],
            vec![0x31, 32],
            vec![0x32, 1],
            vec![0x33, 0],
            vec![0x34, 8],
            vec![0x35, 16],
            vec![0x36, 0x05],
        ]
    );
}

#[test]
fn dynamic_payload_lengths_switch_the_feature_on() {
    let chip = Chip::new();
    let mut standby = start(&chip);
    chip.borrow_mut().registers[0x1D] = 0x02;
    standby.set_pipes_rx_lengths(&[None, Some(4), None, Some(4), Some(4), Some(4)]).unwrap();
    assert_eq!(
        chip.borrow().frames(),
        vec![
            vec![0x1D, 0x00],
            vec![0x3D, 0x06],
            vec![0x3C, 0b0000_0101],
            vec![0x31, 0],
            vec![0x32, 4],
            vec![0x33, 0],
            vec![0x34, 4],
            vec![0x35, 4],
            vec![0x36, 4],
        ]
    );
    assert_eq!(chip.borrow().registers[0x1D], 0x06);

    chip.borrow_mut().seen.clear();
    standby.set_pipes_rx_lengths(&[None; 6]).unwrap();
    assert_eq!(chip.borrow().frames()[0], vec![0x1D, 0x00]);
    assert_eq!(chip.borrow().frames()[1], vec![0x3C, 0x3F]);
    assert_eq!(chip.borrow().frames().len(), 8);
}

#[test]
fn setting_lengths_stops_at_the_first_fault() {
    let chip = Chip::new();
    let mut standby = start(&chip);
    chip.borrow_mut().transfers_until_fault = Some(2);
    assert!(standby.set_pipes_rx_lengths(&[Some(1); 6]).is_err());
    assert_eq!(
        chip.borrow().frames(),
        vec![vec![0x3C, 0x00], vec![0x31, 1], vec![0x32, 1]]
    );
    assert_eq!(chip.borrow().seen.last(), Some(&Seen::CsnHigh));
}

#[test]
fn standby_to_receive_and_back() {
    let chip = Chip::new();
    let standby = start(&chip);
    let rx = standby.rx().ok().unwrap();
    assert!(chip.borrow().ce);
    assert_eq!(chip.borrow().registers[0x00], 0x0B);
    let mut expected = bracketed(&[0x20, 0x0B], &[0x0E, 0x0B]);
    expected.push(Seen::CeHigh);
    assert_eq!(chip.borrow().seen, expected);

    chip.borrow_mut().seen.clear();
    let standby = rx.standby();
    assert!(!chip.borrow().ce);
    assert_eq!(chip.borrow().seen, vec![Seen::CeLow]);

    chip.borrow_mut().seen.clear();
    let rx = standby.rx().ok().unwrap();
    assert_eq!(chip.borrow().seen, vec![Seen::CeHigh]);
    let _ = rx;
}

#[test]
fn standby_to_transmit_leaves_ce_low() {
    let chip = Chip::new();
    let standby = start(&chip);
    let tx = standby.tx().ok().unwrap();
    assert!(!chip.borrow().ce);
    assert!(chip.borrow().seen.is_empty());
    let standby = tx.standby(10).ok().unwrap();
    let rx = standby.rx().ok().unwrap();
    let standby = rx.standby();
    chip.borrow_mut().seen.clear();
    let _tx = standby.tx().ok().unwrap();
    assert_eq!(chip.borrow().seen, bracketed(&[0x20, 0x0A], &[0x0E, 0x0A]));
    assert!(!chip.borrow().ce);
}

#[test]
fn a_failed_transition_hands_the_mode_back() {
    let chip = Chip::new();
    let standby = start(&chip);
    chip.borrow_mut().transfers_until_fault = Some(0);
    let (mut standby, error) = match standby.rx() {
        Err(back) => back,
        Ok(_) => panic!("the bus was broken"),
    };
    assert_eq!(error, Error::SpiError(BusFault));
    assert!(!chip.borrow().ce);
    chip.borrow_mut().transfers_until_fault = None;
    standby.set_frequency(7).unwrap();
    assert!(standby.rx().is_ok());
    assert_eq!(chip.borrow().registers[0x00], 0x0B);
}

#[test]
fn power_up_takes_over_a_device() {
    let chip = Chip::new();
    let mut standby = start(&chip);
    standby.device().power_down().unwrap();
    assert_eq!(chip.borrow().registers[0x00], 0x08);
    let (ce, csn, spi) = wire(&chip);
    let fresh = NRF24L01::new(ce, csn, spi).ok().unwrap();
    let _ = fresh;
    assert_eq!(chip.borrow().registers[0x00], 0x0A);
}

#[test]
fn can_read_reports_the_pipe_and_clears_interrupts() {
    let chip = Chip::new();
    let mut rx = start(&chip).rx().ok().unwrap();
    chip.borrow_mut().seen.clear();
    chip.borrow_mut().registers[0x07] = 0x70;
    chip.borrow_mut().rx_fifo.push_back((3, b"hello".to_vec()));
    assert_eq!(rx.can_read().unwrap(), Some(3));
    assert_eq!(chip.borrow().registers[0x07], 0x00);
    assert_eq!(chip.borrow().frames(), vec![vec![0x27, 0x70], vec![0x17, 0x00]]);
    assert_eq!(rx.read().unwrap().as_ref(), b"hello");
    assert_eq!(rx.can_read().unwrap(), None);
}

#[test]
fn can_read_after_the_queue_is_drained_keeps_returning_none() {
    let chip = Chip::new();
    let mut rx = start(&chip).rx().ok().unwrap();
    chip.borrow_mut().rx_fifo.push_back((0, b"one".to_vec()));
    chip.borrow_mut().rx_fifo.push_back((1, b"two".to_vec()));
    assert_eq!(rx.can_read().unwrap(), Some(0));
    rx.read().unwrap();
    assert_eq!(rx.can_read().unwrap(), Some(1));
    rx.read().unwrap();
    let registers = chip.borrow().registers;
    chip.borrow_mut().seen.clear();
    for _ in 0..5 {
        assert_eq!(rx.can_read().unwrap(), None);
    }
    assert_eq!(chip.borrow().registers, registers);
    assert!(chip.borrow().rx_fifo.is_empty());
    assert!(chip.borrow().ce);
    let frames = chip.borrow().frames();
    assert_eq!(frames.len(), 10);
    for pair in frames.chunks(2) {
        assert_eq!(pair, [vec![0x27, 0x70], vec![0x17, 0x00]]);
    }
}

#[test]
fn receive_queue_state() {
    let chip = Chip::new();
    let mut rx = start(&chip).rx().ok().unwrap();
    assert!(rx.is_empty().unwrap());
    assert!(!rx.is_full().unwrap());
    for _ in 0..3 {
        chip.borrow_mut().rx_fifo.push_back((0, vec![1]));
    }
    assert!(!rx.is_empty().unwrap());
    assert!(rx.is_full().unwrap());
    assert!(!rx.has_carrier().unwrap());
    chip.borrow_mut().carriers = vec![2];
    assert!(rx.has_carrier().unwrap());
    assert_eq!(chip.borrow().frames().last(), Some(&vec![0x09, 0x00]));
}

#[test]
fn a_width_of_zero_gives_an_empty_payload_and_no_payload_read() {
    let chip = Chip::new();
    let mut rx = start(&chip).rx().ok().unwrap();
    chip.borrow_mut().seen.clear();
    let payload = rx.read().unwrap();
    assert_eq!(payload.len(), 0);
    assert_eq!(chip.borrow().frames(), vec![vec![0x60, 0x00]]);
}

#[test]
fn a_width_above_32_flushes_the_receive_queue() {
    for width in [33u8, 64, 255] {
        let chip = Chip::new();
        let mut rx = start(&chip).rx().ok().unwrap();
        chip.borrow_mut().seen.clear();
        chip.borrow_mut().rx_fifo.push_back((0, vec![9; 32]));
        chip.borrow_mut().forced_width = Some(width);
        let payload = rx.read().unwrap();
        assert_eq!(payload.len(), 0);
        assert_eq!(chip.borrow().frames(), vec![vec![0x60, 0x00], vec![0xE2]]);
        assert!(chip.borrow().rx_fifo.is_empty());
    }
}

#[test]
fn a_full_payload_is_read_whole() {
    let chip = Chip::new();
    let mut rx = start(&chip).rx().ok().unwrap();
    chip.borrow_mut().seen.clear();
    let packet: Vec<u8> = (1..=32u8).collect();
    chip.borrow_mut().rx_fifo.push_back((0, packet.clone()));
    let payload = rx.read().unwrap();
    assert_eq!(payload.as_ref(), &packet[..]);
    let frames = chip.borrow().frames();
    assert_eq!(frames[0], vec![0x60, 0x00]);
    assert_eq!(frames[1].len(), 33);
    assert_eq!(frames[1][0], 0x61);
    assert!(frames[1][1..].iter().all(|byte| *byte == 0));
}

#[test]
fn send_queues_and_raises_ce() {
    let chip = Chip::new();
    let mut tx = start(&chip).tx().ok().unwrap();
    chip.borrow_mut().seen.clear();
    assert!(tx.can_send().unwrap());
    assert!(tx.is_empty().unwrap());
    chip.borrow_mut().seen.clear();
    tx.send(b"sendtest").unwrap();
    let mut expected = bracketed(&[0x17, 0x00], &[0x0E, 0x11]);
    let frame = [0xA0, b's', b'e', b'n', b'd', b't', b'e', b's', b't'];
    expected.extend(bracketed(&frame, &[0x0E, b's', b'e', b'n', b'd', b't', b'e', b's', b't']));
    expected.push(Seen::CeHigh);
    assert_eq!(chip.borrow().seen, expected);
    assert!(chip.borrow().ce);
    assert!(!tx.is_empty().unwrap());
    assert!(!tx.is_full().unwrap());
}

#[test]
fn the_fourth_packet_meets_a_full_queue() {
    let chip = Chip::new();
    let mut tx = start(&chip).tx().ok().unwrap();
    tx.send(b"one").unwrap();
    tx.send(b"two").unwrap();
    tx.send(b"three").unwrap();
    assert!(tx.is_full().unwrap());
    assert!(!tx.can_send().unwrap());
    chip.borrow_mut().seen.clear();
    assert!(matches!(tx.send(b"four"), Err(Error::QueueFull)));
    assert_eq!(chip.borrow().frames(), vec![vec![0x17, 0x00]]);
    let queued: Vec<Vec<u8>> =
        chip.borrow().tx_fifo.iter().map(|(_, payload, _)| payload.clone()).collect();
    assert_eq!(queued, vec![b"one".to_vec(), b"two".to_vec(), b"three".to_vec()]);
}

#[test]
fn a_packet_of_33_bytes_is_refused_before_the_bus_is_touched() {
    let chip = Chip::new();
    let mut tx = start(&chip).tx().ok().unwrap();
    chip.borrow_mut().seen.clear();
    assert!(matches!(tx.send(&[0u8; 33]), Err(Error::PayloadTooLarge)));
    assert!(chip.borrow().seen.is_empty());
    assert!(tx.send(&[0u8; 32]).is_ok());
}

#[test]
fn waiting_lowers_ce_once_the_queue_is_empty() {
    let chip = Chip::new();
    let mut tx = start(&chip).tx().ok().unwrap();
    chip.borrow_mut().seen.clear();
    assert_eq!(tx.wait_empty(5), Ok(true));
    let mut expected = bracketed(&[0x17, 0x00], &[0x0E, 0x11]);
    expected.push(Seen::CeLow);
    assert_eq!(chip.borrow().seen, expected);
}

#[test]
fn waiting_gives_up_when_the_polls_run_out() {
    let chip = Chip::new();
    let mut tx = start(&chip).tx().ok().unwrap();
    tx.send(b"stuck").unwrap();
    chip.borrow_mut().seen.clear();
    assert_eq!(tx.wait_empty(0), Ok(false));
    assert!(chip.borrow().seen.is_empty());
    assert_eq!(tx.wait_empty(3), Ok(false));
    let mut round = bracketed(&[0x17, 0x00], &[0x0E, 0x01]);
    round.push(Seen::CeHigh);
    let expected: Vec<Seen> = round.iter().cloned().cycle().take(12).collect();
    assert_eq!(chip.borrow().seen, expected);
    assert!(chip.borrow().ce);
    assert_eq!(chip.borrow().tx_fifo.len(), 1);
}

#[test]
fn a_packet_that_cannot_be_delivered_is_flushed() {
    let chip = Chip::new();
    let mut tx = start(&chip).tx().ok().unwrap();
    tx.send(b"one").unwrap();
    tx.send(b"two").unwrap();
    chip.borrow_mut().registers[0x07] = 0x10;
    chip.borrow_mut().seen.clear();
    assert_eq!(tx.poll_empty(), Ok(false));
    assert_eq!(
        chip.borrow().frames(),
        vec![vec![0x17, 0x00], vec![0xE1], vec![0x27, 0x30]]
    );
    assert!(chip.borrow().tx_fifo.is_empty());
    assert_eq!(chip.borrow().registers[0x07], 0x00);

    chip.borrow_mut().seen.clear();
    assert_eq!(tx.wait_empty(5), Ok(true));
    assert_eq!(chip.borrow().frames(), vec![vec![0x17, 0x00]]);
    assert!(!chip.borrow().ce);
}

#[test]
fn waiting_goes_on_after_a_flush() {
    let chip = Chip::new();
    let mut tx = start(&chip).tx().ok().unwrap();
    tx.send(b"one").unwrap();
    chip.borrow_mut().registers[0x07] = 0x10;
    chip.borrow_mut().seen.clear();
    assert_eq!(tx.wait_empty(10), Ok(true));
    let mut expected = bracketed(&[0x17, 0x00], &[0x1E, 0x01]);
    expected.push(Seen::CeHigh);
    expected.extend(bracketed(&[0xE1], &[0x1E]));
    expected.extend(bracketed(&[0x27, 0x30], &[0x1E, 0x30]));
    expected.extend(bracketed(&[0x17, 0x00], &[0x0E, 0x11]));
    expected.push(Seen::CeLow);
    assert_eq!(chip.borrow().seen, expected);
}

#[test]
fn leaving_transmit_mode_waits_for_the_queue() {
    let chip = Chip::new();
    let mut tx = start(&chip).tx().ok().unwrap();
    tx.send(b"one").unwrap();
    let (mut tx, error) = match tx.standby(4) {
        Err(back) => back,
        Ok(_) => panic!("the queue is not empty"),
    };
    assert_eq!(error, None);
    assert!(chip.borrow().ce);
    chip.borrow_mut().transfers_until_fault = Some(0);
    let (tx, error) = match { tx.send(b"x").ok(); tx.standby(4) } {
        Err(back) => back,
        Ok(_) => panic!("the bus is broken"),
    };
    assert_eq!(error, Some(Error::SpiError(BusFault)));
    chip.borrow_mut().transfers_until_fault = None;
    chip.borrow_mut().tx_fifo.clear();
    chip.borrow_mut().seen.clear();
    let standby = tx.standby(4).ok().unwrap();
    let mut expected = bracketed(&[0x17, 0x00], &[0x0E, 0x11]);
    expected.push(Seen::CeLow);
    expected.push(Seen::CeLow);
    assert_eq!(chip.borrow().seen, expected);
    let _ = standby;
}

#[test]
fn transmission_statistics() {
    let chip = Chip::new();
    let mut tx = start(&chip).tx().ok().unwrap();
    chip.borrow_mut().registers[0x08] = 0x3C;
    let observed = tx.observe().unwrap();
    assert_eq!(observed.plos_cnt(), 3);
    assert_eq!(observed.arc_cnt(), 12);
    assert_eq!(chip.borrow().frames().last(), Some(&vec![0x08, 0x00]));
}

#[test]
fn ce_pin_remembers_and_restores_its_level() {
    let chip = Chip::new();
    let mut pin = CEPin::new(Line { chip: chip.clone(), which: Which::Ce });
    assert!(!pin.is_high());
    assert!(chip.borrow().seen.is_empty());
    pin.up().unwrap();
    assert!(pin.is_high());
    pin.save_state();
    pin.down().unwrap();
    assert!(!pin.is_high());
    assert!(!chip.borrow().ce);
    pin.restore_state().unwrap();
    assert!(pin.is_high());
    assert!(chip.borrow().ce);
    pin.down().unwrap();
    pin.save_state();
    pin.up().unwrap();
    pin.restore_state().unwrap();
    assert!(!pin.is_high());
    assert_eq!(
        chip.borrow().seen,
        vec![
            Seen::CeHigh,
            Seen::CeLow,
            Seen::CeHigh,
            Seen::CeLow,
            Seen::CeHigh,
            Seen::CeLow
        ]
    );
}

#[test]
fn a_ce_pin_that_fails_keeps_its_level() {
    let chip = Chip::new();
    let mut pin = CEPin::new(Line { chip: chip.clone(), which: Which::Ce });
    chip.borrow_mut().stuck_ce = true;
    assert_eq!(pin.up(), Err(PinFault("CE")));
    assert!(!pin.is_high());
    chip.borrow_mut().stuck_ce = false;
    pin.up().unwrap();
    pin.save_state();
    chip.borrow_mut().stuck_ce = true;
    assert_eq!(pin.down(), Err(PinFault("CE")));
    assert!(pin.is_high());
    assert_eq!(pin.restore_state(), Err(PinFault("CE")));
    assert!(pin.is_high());
    assert_eq!(chip.borrow().seen, vec![Seen::CeHigh]);
}

#[test]
fn the_first_failure_of_a_line_is_kept_aside() {
    let chip = Chip::new();
    let mut standby = start(&chip);
    assert_eq!(standby.device().take_line_fault(), None);
    chip.borrow_mut().stuck_csn = true;
    chip.borrow_mut().csn = false;
    standby.device().write_register(RfCh(7)).unwrap();
    chip.borrow_mut().stuck_ce = true;
    standby.device().ce_enable();
    assert!(!standby.device().ce_is_high());
    chip.borrow_mut().stuck_csn = false;
    chip.borrow_mut().stuck_ce = false;
    standby.device().ce_enable();
    assert!(standby.device().ce_is_high());
    assert_eq!(standby.device().take_line_fault(), Some(LineFault::Csn(PinFault("CSN"))));
    assert_eq!(standby.device().take_line_fault(), None);

    chip.borrow_mut().stuck_ce = true;
    standby.device().ce_disable();
    chip.borrow_mut().stuck_ce = false;
    assert!(standby.device().ce_is_high());
    assert_eq!(standby.device().take_line_fault(), Some(LineFault::Ce(PinFault("CE"))));
    standby.device().ce_disable();
    assert_eq!(standby.device().take_line_fault(), None);
    assert!(!standby.device().ce_is_high());
}

#[test]
fn setting_up_with_a_stuck_line_keeps_the_failure() {
    let chip = Chip::new();
    chip.borrow_mut().stuck_ce = true;
    let (ce, csn, spi) = wire(&chip);
    chip.borrow_mut().csn = false;
    let mut standby = NRF24L01::new(ce, csn, spi).ok().unwrap();
    assert_eq!(standby.device().take_line_fault(), Some(LineFault::Ce(PinFault("CE"))));
    assert_eq!(chip.borrow().frames().len(), 3);
}

#[test]
fn configuring_a_transmitter() {
    let chip = Chip::new();
    let mut standby = start(&chip);
    let config = TXConfig {
        channel: 108,
        pa_level: PALevel::Low,
        pipe0_address: *b"abcde",
        max_retries: 3,
        retry_delay: 2,
        ..Default::default()
    };
    standby.device().configure(&OperatingMode::TX(config)).unwrap();
    assert_eq!(chip.borrow().seen[0], Seen::CeLow);
    assert_eq!(
        chip.borrow().frames(),
        vec![
            vec![0x21, 0x3F],
            vec![0x3C, 0x3F],
            vec![0x3D, 0x06],
            vec![0x26, 0x02],
            vec![0x25, 108],
            vec![0x2A, b'a', b'b', b'c', b'd', b'e'],
            vec![0x30, b'a', b'b', b'c', b'd', b'e'],
            vec![0x22, 0x01],
            vec![0x24, 0x23],
            vec![0x20, 0x4E],
        ]
    );
    assert!(!standby.device().is_receiver());
    assert_eq!(standby.get_frequency().unwrap(), 108);
    let (_, retr) = standby.device().read_register::<SetupRetr>().unwrap();
    assert_eq!(retr.arc(), 3);
    assert_eq!(retr.ard(), 2);
}

#[test]
fn configuring_again_writes_config_again() {
    let chip = Chip::new();
    let mut standby = start(&chip);
    for _ in 0..2 {
        chip.borrow_mut().seen.clear();
        let config = TXConfig {
            channel: 108,
            pa_level: PALevel::Low,
            pipe0_address: *b"abcde",
            max_retries: 3,
            retry_delay: 2,
            ..Default::default()
        };
        standby.device().configure(&OperatingMode::TX(config)).unwrap();
        let frames = chip.borrow().frames();
        assert_eq!(frames.len(), 10);
        assert_eq!(frames[8], vec![0x24, 0x23]);
        assert_eq!(frames[9], vec![0x20, 0x4E]);
    }
    chip.borrow_mut().registers[0x00] = 0x08;
    let config = TXConfig { pipe0_address: *b"abcde", ..Default::default() };
    standby.device().configure(&OperatingMode::TX(config)).unwrap();
    assert_eq!(chip.borrow().registers[0x00], 0x4E);
    for _ in 0..2 {
        chip.borrow_mut().seen.clear();
        let config = RXConfig { pipe0_address: *b"abcde", ..Default::default() };
        standby.device().configure(&OperatingMode::RX(config)).unwrap();
        assert_eq!(chip.borrow().frames().last(), Some(&vec![0x20, 0x3F]));
    }
}

#[test]
fn a_failed_config_write_in_configure_leaves_the_role_alone() {
    let chip = Chip::new();
    let mut standby = start(&chip);
    chip.borrow_mut().transfers_until_fault = Some(7);
    let config = RXConfig { pipe0_address: *b"abcde", ..Default::default() };
    assert_eq!(
        standby.device().configure(&OperatingMode::RX(config)),
        Err(Error::SpiError(BusFault))
    );
    assert_eq!(chip.borrow().frames().last(), Some(&vec![0x20, 0x3F]));
    assert!(!standby.device().is_receiver());
}

#[test]
fn powering_up_and_down_writes_config_every_time() {
    let chip = Chip::new();
    let mut standby = start(&chip);
    let radio = standby.device();
    radio.power_up().unwrap();
    radio.power_up().unwrap();
    radio.power_down().unwrap();
    radio.power_down().unwrap();
    radio.power_up().unwrap();
    assert_eq!(
        chip.borrow().frames(),
        vec![
            vec![0x20, 0x0A],
            vec![0x20, 0x0A],
            vec![0x20, 0x08],
            vec![0x20, 0x08],
            vec![0x20, 0x0A]
        ]
    );
    let lows = chip.borrow().seen.iter().filter(|seen| **seen == Seen::CeLow).count();
    assert_eq!(lows, 2);
    assert_eq!(chip.borrow().seen[6], Seen::CeLow);

    chip.borrow_mut().transfers_until_fault = Some(0);
    assert_eq!(radio.power_down(), Err(Error::SpiError(BusFault)));
    chip.borrow_mut().transfers_until_fault = None;
    assert!(radio.power_down().is_ok());
}

#[test]
fn writing_config_sets_the_shadow() {
    let chip = Chip::new();
    let mut standby = start(&chip);
    standby.device().write_config(Config(0x0B)).unwrap();
    assert!(standby.device().is_receiver());
    standby.device().write_config(Config(0x0B)).unwrap();
    assert_eq!(chip.borrow().frames(), vec![vec![0x20, 0x0B], vec![0x20, 0x0B]]);
    chip.borrow_mut().seen.clear();
    chip.borrow_mut().transfers_until_fault = Some(0);
    assert!(standby.device().write_config(Config(0x0A)).is_err());
    chip.borrow_mut().transfers_until_fault = None;
    assert!(standby.device().is_receiver());
    chip.borrow_mut().seen.clear();
    let shadow = standby.device().update_config(|config: &mut Config| config.0).unwrap();
    assert_eq!(shadow, 0x0B);
    assert!(chip.borrow().seen.is_empty());
}

#[test]
fn starting_writes_reads_and_powers_up() {
    let chip = Chip::new();
    let mut standby = start(&chip);
    standby.device().write_config(Config(0x7F)).unwrap();
    chip.borrow_mut().seen.clear();
    assert_eq!(standby.device().start(), Ok(()));
    let mut expected = bracketed(&[0x20, 0x08], &[0x0E, 0x08]);
    expected.extend(bracketed(&[0x03, 0x00], &[0x0E, 0x03]));
    expected.extend(bracketed(&[0x20, 0x0A], &[0x0E, 0x0A]));
    assert_eq!(chip.borrow().seen, expected);
    assert!(!standby.device().is_receiver());
}

#[test]
fn starting_stops_at_a_chip_that_is_not_there() {
    for code in [0x00u8, 0xFC, 0x04] {
        let chip = Chip::new();
        let mut standby = start(&chip);
        chip.borrow_mut().registers[0x03] = code;
        assert_eq!(standby.device().start(), Err(Error::NotConnected));
        assert_eq!(chip.borrow().frames(), vec![vec![0x20, 0x08], vec![0x03, 0x00]]);
        assert_eq!(chip.borrow().registers[0x00], 0x08);
    }
    for code in [0x01u8, 0x02, 0x03, 0xFF] {
        let chip = Chip::new();
        let mut standby = start(&chip);
        chip.borrow_mut().registers[0x03] = code;
        assert_eq!(standby.device().start(), Ok(()));
    }
}

#[test]
fn starting_stops_at_a_bus_fault() {
    for good in 0..3usize {
        let chip = Chip::new();
        let mut standby = start(&chip);
        chip.borrow_mut().transfers_until_fault = Some(good);
        assert_eq!(standby.device().start(), Err(Error::SpiError(BusFault)));
        assert_eq!(chip.borrow().frames().len(), good + 1);
        chip.borrow_mut().transfers_until_fault = None;
        chip.borrow_mut().seen.clear();
        let shadow = standby.device().update_config(|config: &mut Config| config.0).unwrap();
        assert_eq!(shadow, if good == 0 { 0x0A } else { 0x08 });
    }
}

#[test]
fn sending_step_by_step() {
    let chip = Chip::new();
    let mut standby = transmitter(&chip);
    let mut timer = Timer { chip: chip.clone() };
    let radio = standby.device();
    assert_eq!(radio.ready_to_send(), Ok(false));
    radio.push(0, b"one").unwrap();
    chip.borrow_mut().seen.clear();
    assert_eq!(radio.ready_to_send(), Ok(true));
    assert_eq!(chip.borrow().frames(), vec![vec![0x27, 0x30], vec![0x17, 0x00]]);

    chip.borrow_mut().seen.clear();
    radio.start_packet(&mut timer);
    assert_eq!(chip.borrow().seen, vec![Seen::CeHigh, Seen::Pause(10), Seen::CeLow]);

    chip.borrow_mut().seen.clear();
    assert_eq!(radio.look_for_ack(&mut timer), Ok(None));
    let mut expected = vec![Seen::Pause(360)];
    expected.extend(bracketed(&[0x08, 0x00], &[0x0E, 0x00]));
    assert_eq!(chip.borrow().seen, expected);

    chip.borrow_mut().tx_fifo.clear();
    chip.borrow_mut().registers[0x07] = 0x20;
    chip.borrow_mut().registers[0x08] = 0x47;
    chip.borrow_mut().seen.clear();
    assert_eq!(radio.look_for_ack(&mut timer), Ok(Some((7, false))));
    assert_eq!(chip.borrow().frames(), vec![vec![0x08, 0x00], vec![0x17, 0x00]]);

    chip.borrow_mut().registers[0x07] = 0x30;
    chip.borrow_mut().seen.clear();
    assert_eq!(radio.look_for_ack(&mut timer), Err(Error::MaxRetransmitsExceeded));
    assert_eq!(chip.borrow().frames(), vec![vec![0x08, 0x00], vec![0x27, 0x10]]);
    assert_eq!(chip.borrow().registers[0x07] & 0x70, 0x20);

    chip.borrow_mut().seen.clear();
    assert_eq!(radio.end_sending(), Ok(()));
    assert_eq!(chip.borrow().seen, bracketed(&[0x27, 0x20], &[0x2E, 0x20]));
    assert_eq!(chip.borrow().registers[0x07] & 0x70, 0x00);
}

#[test]
fn configuring_a_receiver_with_all_pipes() {
    let chip = Chip::new();
    let mut standby = start(&chip);
    let config = RXConfig {
        data_rate: DataRate::R2Mbps,
        channel: 200,
        pa_level: PALevel::Max,
        pipe0_address: *b"abcde",
        pipe1_address: Some(*b"12345"),
        pipe2_addr_lsb: Some(b'2'),
        pipe3_addr_lsb: None,
        pipe4_addr_lsb: Some(b'4'),
        pipe5_addr_lsb: Some(b'5'),
    };
    standby.device().configure(&OperatingMode::RX(config)).unwrap();
    assert_eq!(
        chip.borrow().frames(),
        vec![
            vec![0x21, 0x3F],
            vec![0x3C, 0x3F],
            vec![0x3D, 0x06],
            vec![0x26, 0x0E],
            vec![0x25, 125],
            vec![0x2A, b'a', b'b', b'c', b'd', b'e'],
            vec![0x2B, b'1', b'2', b'3', b'4', b'5'],
            vec![0x2C, b'2'],
            vec![0x2E, b'4'],
            vec![0x2F, b'5'],
            vec![0x22, 0b0011_0111],
            vec![0x20, 0x3F],
        ]
    );
    assert!(standby.device().is_receiver());
}

#[test]
fn configuring_a_plain_receiver() {
    let chip = Chip::new();
    let mut standby = start(&chip);
    let config = RXConfig {
        channel: 108,
        pa_level: PALevel::Low,
        pipe0_address: *b"abcde",
        ..Default::default()
    };
    standby.device().configure(&OperatingMode::RX(config)).unwrap();
    let frames = chip.borrow().frames();
    assert_eq!(frames.len(), 8);
    assert_eq!(frames[6], vec![0x22, 0x01]);
    assert_eq!(frames[7], vec![0x20, 0x3F]);
}

#[test]
fn configuring_stops_at_the_first_fault() {
    for good in 0..10usize {
        let chip = Chip::new();
        let mut standby = start(&chip);
        chip.borrow_mut().transfers_until_fault = Some(good);
        let config = TXConfig { pipe0_address: *b"abcde", ..Default::default() };
        let outcome = standby.device().configure(&OperatingMode::TX(config));
        assert_eq!(outcome, Err(Error::SpiError(BusFault)));
        assert_eq!(chip.borrow().frames().len(), good + 1);
        assert!(chip.borrow().csn);
        assert!(!standby.device().is_receiver());
    }
}

#[test]
fn listening_and_standing_by() {
    let chip = Chip::new();
    let mut standby = start(&chip);
    let radio = standby.device();
    radio.listen();
    assert!(!chip.borrow().ce, "a transmitter does not listen");
    let config = RXConfig { pipe0_address: *b"abcde", ..Default::default() };
    radio.configure(&OperatingMode::RX(config)).unwrap();
    radio.listen();
    assert!(chip.borrow().ce);
    radio.standby();
    assert!(!chip.borrow().ce);
    radio.listen();
    radio.power_down().unwrap();
    assert!(!chip.borrow().ce);
    assert_eq!(chip.borrow().registers[0x00], 0x3D);
    radio.power_up().unwrap();
    assert_eq!(chip.borrow().registers[0x00], 0x3F);
    assert!(!radio.data_available().unwrap());
    chip.borrow_mut().rx_fifo.push_back((0, vec![1]));
    assert!(radio.data_available().unwrap());
    radio.flush_input().unwrap();
    assert!(!radio.data_available().unwrap());
    chip.borrow_mut().tx_fifo.push_back((0, vec![1], false));
    radio.flush_output().unwrap();
    assert!(chip.borrow().tx_fifo.is_empty());
    assert!(radio.is_connected().unwrap());
}

#[test]
fn the_fourth_push_meets_a_full_queue() {
    let chip = Chip::new();
    let mut standby = start(&chip);
    let radio = standby.device();
    let config = TXConfig { pipe0_address: *b"abcde", ..Default::default() };
    radio.configure(&OperatingMode::TX(config)).unwrap();
    radio.push(0, b"one").unwrap();
    radio.push(0, b"two").unwrap();
    radio.push(9, b"three").unwrap();
    chip.borrow_mut().seen.clear();
    assert_eq!(radio.push(0, b"four"), Err(Error::QueueFull));
    assert_eq!(chip.borrow().frames(), vec![vec![0x17, 0x00]]);
    let queued: Vec<Vec<u8>> =
        chip.borrow().tx_fifo.iter().map(|(_, payload, _)| payload.clone()).collect();
    assert_eq!(queued, vec![b"one".to_vec(), b"two".to_vec(), b"three".to_vec()]);
    radio.flush_output().unwrap();
    assert!(radio.push(0, b"four").is_ok());
}

#[test]
fn push_checks_length_and_pipe_before_the_bus() {
    let chip = Chip::new();
    let mut standby = start(&chip);
    let radio = standby.device();
    let config = RXConfig { pipe0_address: *b"abcde", ..Default::default() };
    radio.configure(&OperatingMode::RX(config)).unwrap();
    chip.borrow_mut().seen.clear();
    assert_eq!(radio.push(0, &[0u8; 33]), Err(Error::PayloadTooLarge));
    assert_eq!(radio.push(6, b"late"), Err(Error::InvalidPipe));
    assert_eq!(radio.push(255, b"late"), Err(Error::InvalidPipe));
    assert!(chip.borrow().seen.is_empty());
    radio.push(5, b"ack").unwrap();
    assert_eq!(
        chip.borrow().frames(),
        vec![vec![0x17, 0x00], vec![0xAD, b'a', b'c', b'k']]
    );
    assert!(!chip.borrow().ce);
}

#[test]
fn a_packet_travels_from_transmitter_to_receiver() {
    let there = Chip::new();
    let here = Chip::new();
    let mut receiver = start(&here);
    let config = RXConfig { channel: 108, pipe0_address: *b"abcde", ..Default::default() };
    receiver.device().configure(&OperatingMode::RX(config)).unwrap();
    let mut receiver = receiver.rx().ok().unwrap();

    let mut sender = start(&there);
    let config = TXConfig { channel: 108, pipe0_address: *b"abcde", ..Default::default() };
    sender.device().configure(&OperatingMode::TX(config)).unwrap();
    let mut sender = sender.tx().ok().unwrap();
    sender.send(b"sendtest").unwrap();
    assert!(on_air(&there, &here, true));

    assert_eq!(receiver.can_read().unwrap(), Some(0));
    let payload = receiver.read().unwrap();
    assert_eq!(payload.len(), 8);
    assert_eq!(payload.as_ref(), b"sendtest");
    assert_eq!(receiver.can_read().unwrap(), None);
    assert_eq!(sender.wait_empty(3), Ok(true));
}

#[test]
fn an_ack_payload_stays_queued_until_a_different_packet_arrives() {
    let there = Chip::new();
    let here = Chip::new();
    let mut receiver = start(&here);
    let config = RXConfig { pipe0_address: *b"abcde", ..Default::default() };
    receiver.device().configure(&OperatingMode::RX(config)).unwrap();
    receiver.device().push(0, b"ack payload").unwrap();
    let mut receiver = receiver.rx().ok().unwrap();

    let mut sender = start(&there);
    let config = TXConfig { pipe0_address: *b"abcde", ..Default::default() };
    sender.device().configure(&OperatingMode::TX(config)).unwrap();
    let mut sender = sender.tx().ok().unwrap();

    sender.send(b"first").unwrap();
    assert!(on_air(&there, &here, true));
    let standby = sender.standby(3).ok().unwrap();
    let mut listening = standby.rx().ok().unwrap();
    assert_eq!(listening.can_read().unwrap(), Some(0));
    assert_eq!(listening.read().unwrap().as_ref(), b"ack payload");
    assert_eq!(here.borrow().tx_fifo.len(), 1);

    let mut sender = listening.standby().tx().ok().unwrap();
    there.borrow_mut().ce = true;
    assert!(on_air(&there, &here, false));
    assert_eq!(here.borrow().tx_fifo.len(), 1, "the same packet again keeps the payload");
    there.borrow_mut().ce = false;

    sender.send(b"second").unwrap();
    assert!(on_air(&there, &here, true));
    assert!(here.borrow().tx_fifo.is_empty(), "a different packet empties the queue");

    assert_eq!(receiver.can_read().unwrap(), Some(0));
    assert_eq!(receiver.read().unwrap().as_ref(), b"first");
    assert_eq!(receiver.can_read().unwrap(), Some(0));
    assert_eq!(receiver.read().unwrap().as_ref(), b"second");
}

fn transmitter(chip: &Rc<RefCell<Chip>>) -> StandbyMode<Radio> {
    let mut standby = start(chip);
    let config = TXConfig { pipe0_address: *b"abcde", max_retries: 5, ..Default::default() };
    standby.device().configure(&OperatingMode::TX(config)).unwrap();
    chip.borrow_mut().seen.clear();
    standby
}

#[test]
fn sending_with_nothing_queued_only_clears_flags() {
    let chip = Chip::new();
    let mut standby = transmitter(&chip);
    let mut timer = Timer { chip: chip.clone() };
    chip.borrow_mut().registers[0x07] = 0x30;
    assert_eq!(standby.device().send(&mut timer, 10), Ok(Some(0)));
    let mut expected = bracketed(&[0x27, 0x30], &[0x3E, 0x30]);
    expected.extend(bracketed(&[0x17, 0x00], &[0x0E, 0x11]));
    expected.extend(bracketed(&[0x27, 0x20], &[0x0E, 0x20]));
    assert_eq!(chip.borrow().seen, expected);
}

#[test]
fn sending_counts_the_retransmissions_of_every_packet() {
    let chip = Chip::new();
    let mut standby = transmitter(&chip);
    let mut timer = Timer { chip: chip.clone() };
    standby.device().push(0, b"one").unwrap();
    standby.device().push(0, b"two").unwrap();
    chip.borrow_mut().seen.clear();
    chip.borrow_mut().link = Some((true, 2));
    assert_eq!(standby.device().send(&mut timer, 10), Ok(Some(4)));
    assert!(chip.borrow().tx_fifo.is_empty());
    assert!(!chip.borrow().ce);
    let mut expected = bracketed(&[0x27, 0x30], &[0x0E, 0x30]);
    expected.extend(bracketed(&[0x17, 0x00], &[0x0E, 0x01]));
    expected.extend(vec![Seen::CeHigh, Seen::Pause(10), Seen::CeLow, Seen::Pause(360)]);
    expected.extend(bracketed(&[0x08, 0x00], &[0x2E, 0x02]));
    expected.extend(bracketed(&[0x17, 0x00], &[0x2E, 0x01]));
    expected.extend(vec![Seen::CeHigh, Seen::Pause(10), Seen::CeLow, Seen::Pause(360)]);
    expected.extend(bracketed(&[0x08, 0x00], &[0x2E, 0x02]));
    expected.extend(bracketed(&[0x17, 0x00], &[0x2E, 0x11]));
    expected.extend(bracketed(&[0x27, 0x20], &[0x2E, 0x20]));
    assert_eq!(chip.borrow().seen, expected);
    assert_eq!(chip.borrow().registers[0x07] & 0x70, 0);
}

#[test]
fn sending_reports_a_packet_that_was_never_acknowledged() {
    let chip = Chip::new();
    let mut standby = transmitter(&chip);
    let mut timer = Timer { chip: chip.clone() };
    standby.device().push(0, b"lost").unwrap();
    chip.borrow_mut().seen.clear();
    chip.borrow_mut().link = Some((false, 5));
    assert_eq!(standby.device().send(&mut timer, 10), Err(Error::MaxRetransmitsExceeded));
    assert_eq!(chip.borrow().tx_fifo.len(), 1, "the packet stays queued");
    assert_eq!(chip.borrow().registers[0x07] & 0x70, 0);
    assert_eq!(
        chip.borrow().frames(),
        vec![vec![0x27, 0x30], vec![0x17, 0x00], vec![0x08, 0x00], vec![0x27, 0x10]]
    );
    standby.device().flush_output().unwrap();
    assert!(chip.borrow().tx_fifo.is_empty());
}

#[test]
fn sending_gives_up_when_the_looks_run_out() {
    let chip = Chip::new();
    let mut standby = transmitter(&chip);
    let mut timer = Timer { chip: chip.clone() };
    standby.device().push(0, b"slow").unwrap();
    chip.borrow_mut().seen.clear();
    assert_eq!(standby.device().send(&mut timer, 3), Ok(None));
    assert_eq!(
        chip.borrow().frames(),
        vec![
            vec![0x27, 0x30],
            vec![0x17, 0x00],
            vec![0x08, 0x00],
            vec![0x08, 0x00],
            vec![0x08, 0x00]
        ]
    );
    let pauses: Vec<Seen> = chip
        .borrow()
        .seen
        .iter()
        .filter(|seen| matches!(seen, Seen::Pause(_)))
        .cloned()
        .collect();
    assert_eq!(
        pauses,
        vec![Seen::Pause(10), Seen::Pause(360), Seen::Pause(360), Seen::Pause(360)]
    );
    assert_eq!(standby.device().send(&mut timer, 0), Ok(None));
}

#[test]
fn the_retransmission_count_wraps_like_a_byte() {
    let chip = Chip::new();
    let mut standby = transmitter(&chip);
    let mut timer = Timer { chip: chip.clone() };
    chip.borrow_mut().link = Some((true, 15));
    for _ in 0..3 {
        standby.device().push(0, b"x").unwrap();
    }
    assert_eq!(standby.device().send(&mut timer, 100), Ok(Some(45)));

    standby.device().push(0, b"x").unwrap();
    chip.borrow_mut().refill = 17;
    assert_eq!(standby.device().send(&mut timer, 100), Ok(Some(14)));
    assert!(chip.borrow().tx_fifo.is_empty());
}

#[test]
fn reading_all_gathers_the_packets_in_order() {
    let chip = Chip::new();
    let mut standby = start(&chip);
    let config = RXConfig { pipe0_address: *b"abcde", ..Default::default() };
    standby.device().configure(&OperatingMode::RX(config)).unwrap();
    standby.device().listen();
    chip.borrow_mut().rx_fifo.push_back((0, b"one".to_vec()));
    chip.borrow_mut().rx_fifo.push_back((1, b"two".to_vec()));
    chip.borrow_mut().rx_fifo.push_back((0, b"three".to_vec()));
    chip.borrow_mut().registers[0x07] = 0x40;
    chip.borrow_mut().seen.clear();
    let packets = standby.device().read_all().unwrap();
    let bodies: Vec<Vec<u8>> = packets.iter().map(|packet| packet.as_ref().to_vec()).collect();
    assert_eq!(bodies, vec![b"one".to_vec(), b"two".to_vec(), b"three".to_vec()]);
    assert!(chip.borrow().ce, "CE is back where it was");
    assert_eq!(chip.borrow().registers[0x07] & 0x40, 0);
    let seen = chip.borrow().seen.clone();
    assert_eq!(seen.first(), Some(&Seen::CeLow));
    assert_eq!(seen.last(), Some(&Seen::CeHigh));
    assert_eq!(
        chip.borrow().frames(),
        vec![
            vec![0x17, 0x00],
            vec![0x60, 0x00],
            vec![0x61, 0, 0, 0],
            vec![0x17, 0x00],
            vec![0x60, 0x00],
            vec![0x61, 0, 0, 0],
            vec![0x17, 0x00],
            vec![0x60, 0x00],
            vec![0x61, 0, 0, 0, 0, 0],
            vec![0x17, 0x00],
            vec![0x27, 0x40],
        ]
    );
}

#[test]
fn reading_all_from_an_empty_queue() {
    let chip = Chip::new();
    let mut standby = start(&chip);
    let packets = standby.device().read_all().unwrap();
    assert!(packets.is_empty());
    let mut expected = vec![Seen::CeLow];
    expected.extend(bracketed(&[0x17, 0x00], &[0x0E, 0x11]));
    expected.extend(bracketed(&[0x27, 0x40], &[0x0E, 0x40]));
    expected.push(Seen::CeLow);
    assert_eq!(chip.borrow().seen, expected);
    assert!(matches!(standby.device().read_next(), Ok(None)));
}

#[test]
fn reading_next_takes_one_packet() {
    let chip = Chip::new();
    let mut standby = start(&chip);
    chip.borrow_mut().rx_fifo.push_back((2, b"only".to_vec()));
    let packet = standby.device().read_next().unwrap().unwrap();
    assert_eq!(packet.as_ref(), b"only");
    assert_eq!(
        chip.borrow().frames(),
        vec![vec![0x17, 0x00], vec![0x60, 0x00], vec![0x61, 0, 0, 0, 0]]
    );
    assert!(matches!(standby.device().read_next(), Ok(None)));
}

#[test]
fn reading_all_leaves_out_what_the_chip_reports_as_empty() {
    let chip = Chip::new();
    let mut standby = start(&chip);
    chip.borrow_mut().rx_fifo.push_back((0, b"x".to_vec()));
    chip.borrow_mut().forced_width = Some(0);
    let packets = standby.device().read_all().unwrap();
    assert!(packets.is_empty());
    assert_eq!(chip.borrow().frames().len(), 255 * 2 + 1);
    assert_eq!(chip.borrow().rx_fifo.len(), 1);
}

#[test]
fn reading_all_stops_at_a_fault_with_ce_low() {
    let chip = Chip::new();
    let mut standby = start(&chip);
    standby.device().ce_enable();
    chip.borrow_mut().rx_fifo.push_back((0, b"x".to_vec()));
    chip.borrow_mut().transfers_until_fault = Some(2);
    assert!(matches!(standby.device().read_all(), Err(Error::SpiError(BusFault))));
    assert!(!chip.borrow().ce);
    assert!(chip.borrow().csn);
}

#[test]
fn scanning_counts_the_carriers_on_each_channel() {
    let chip = Chip::new();
    let mut standby = start(&chip);
    let config = RXConfig { pipe0_address: *b"abcde", ..Default::default() };
    standby.device().configure(&OperatingMode::RX(config)).unwrap();
    chip.borrow_mut().seen.clear();
    chip.borrow_mut().carriers = vec![5, 108, 125];
    let mut timer = Timer { chip: chip.clone() };
    let mut table = [0u32; 126];
    table[7] = 40;
    table[108] = 2;
    standby.device().scan(&mut timer, 3, 2, &mut table).unwrap();
    for channel in 0..126usize {
        let expected = match channel {
            5 | 125 => 3,
            108 => 5,
            7 => 40,
            _ => 0,
        };
        assert_eq!(table[channel], expected, "channel {}", channel);
    }
    assert_eq!(chip.borrow().registers[0x01], 0x00);
    let seen = chip.borrow().seen.clone();
    assert_eq!(seen.len(), 3 + 3 * 126 * 9);
    assert_eq!(&seen[..3], &bracketed(&[0x21, 0x00], &[0x0E, 0x00])[..]);
    let mut first = bracketed(&[0x25, 0x00], &[0x0E, 0x00]);
    first.extend(vec![Seen::CeHigh, Seen::Pause(2000), Seen::CeLow]);
    first.extend(bracketed(&[0x09, 0x00], &[0x0E, 0x00]));
    assert_eq!(&seen[3..12], &first[..]);
    let frames = chip.borrow().frames();
    assert_eq!(frames[1 + 2 * 5], vec![0x25, 5]);
    assert_eq!(frames[frames.len() - 2], vec![0x25, 125]);
    assert!(!chip.borrow().ce);
}

#[test]
fn scanning_zero_rounds_only_switches_acknowledgement_off() {
    let chip = Chip::new();
    let mut standby = start(&chip);
    let mut timer = Timer { chip: chip.clone() };
    let mut table = [9u32; 126];
    standby.device().scan(&mut timer, 0, 50, &mut table).unwrap();
    assert_eq!(table, [9u32; 126]);
    assert_eq!(chip.borrow().frames(), vec![vec![0x21, 0x00]]);
}

#[test]
fn scanning_as_a_transmitter_leaves_ce_low() {
    let chip = Chip::new();
    let mut standby = start(&chip);
    let mut timer = Timer { chip: chip.clone() };
    let mut table = [0u32; 126];
    chip.borrow_mut().carriers = vec![0];
    standby.device().scan(&mut timer, 1, 1, &mut table).unwrap();
    assert_eq!(table[0], 1);
    assert!(!chip.borrow().seen.contains(&Seen::CeHigh));
    assert_eq!(chip.borrow().seen.len(), 3 + 126 * 8);
}

#[test]
fn scanning_stops_at_a_fault() {
    let chip = Chip::new();
    let mut standby = start(&chip);
    let mut timer = Timer { chip: chip.clone() };
    let mut table = [0u32; 126];
    chip.borrow_mut().carriers = vec![0, 1, 2];
    chip.borrow_mut().transfers_until_fault = Some(4);
    assert_eq!(
        standby.device().scan(&mut timer, 2, 1, &mut table),
        Err(Error::SpiError(BusFault))
    );
    assert_eq!(table[0], 1);
    assert_eq!(table[1], 0);
    assert_eq!(chip.borrow().frames().len(), 5);
}
