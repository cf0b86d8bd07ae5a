use nrf24l01::command::{
    Command, FlushRx, FlushTx, Nop, ReadRegister, ReadRxPayload, ReadRxPayloadWidth,
    WriteAckPayload, WriteRegister, WriteTxPayload,
};
use nrf24l01::config::{rf_ch, rf_setup, setup_retr};
use nrf24l01::registers::{Config, FifoStatus, RxAddrP0, SetupRetr, TxAddr};
use nrf24l01::setup::{clock_mhz, spi_mode, Phase, Polarity};
use nrf24l01::{CrcMode, DataRate, Error, PALevel, Payload};

fn frame<C: Command>(command: &C) -> Vec<u8> {
    let mut buf = vec![0x55u8; command.len()];
    command.encode(&mut buf);
    buf
}

#[test]
fn payload_copies_up_to_32_bytes() {
    let payload = Payload::new(b"sendtest");
    assert_eq!(payload.len(), 8);
    assert_eq!(payload.as_ref(), b"sendtest");
    assert_eq!(&payload[..], b"sendtest");

    let empty = Payload::new(&[]);
    assert_eq!(empty.len(), 0);
    assert_eq!(empty.as_ref(), &[] as &[u8]);

    let long: Vec<u8> = (0..40u8).collect();
    let cut = Payload::new(&long);
    assert_eq!(cut.len(), 32);
    assert_eq!(cut.as_ref(), &long[..32]);

    let full: Vec<u8> = (100..132u8).collect();
    assert_eq!(Payload::new(&full).as_ref(), &full[..]);
}

#[test]
fn read_register_frame() {
    let command = ReadRegister::<FifoStatus>::new();
    assert_eq!(command.len(), 2);
    assert_eq!(frame(&command), vec![0x17, 0x00]);
    let register = ReadRegister::<FifoStatus>::decode_response(&[0x0E, 0x11]);
    assert_eq!(register.0, 0x11);

    let command = ReadRegister::<TxAddr>::new();
    assert_eq!(command.len(), 6);
    assert_eq!(frame(&command), vec![0x10, 0, 0, 0, 0, 0]);
    let register = ReadRegister::<TxAddr>::decode_response(&[0x0E, 1, 2, 3, 4, 5]);
    assert!(nrf24l01::registers::Register::same_as(&register, &TxAddr::new(&[1, 2, 3, 4, 5])));
}

#[test]
fn write_register_frame() {
    let command = WriteRegister::new(Config(0x0A));
    assert_eq!(command.len(), 2);
    assert_eq!(frame(&command), vec![0x20, 0x0A]);

    let command = WriteRegister::new(SetupRetr(0x23));
    assert_eq!(frame(&command), vec![0x24, 0x23]);

    let command = WriteRegister::new(RxAddrP0::new(b"abcde"));
    assert_eq!(command.len(), 6);
    assert_eq!(frame(&command), vec![0x2A, b'a', b'b', b'c', b'd', b'e']);

    let command = WriteRegister::new(TxAddr::new(b"abc"));
    assert_eq!(command.len(), 4);
    assert_eq!(frame(&command), vec![0x30, b'a', b'b', b'c']);
}

#[test]
fn payload_frames() {
    let command = ReadRxPayload::new(8);
    assert_eq!(command.len(), 9);
    assert_eq!(frame(&command), vec![0x61, 0, 0, 0, 0, 0, 0, 0, 0]);
    let payload = ReadRxPayload::decode_response(&[0x40, b'h', b'i']);
    assert_eq!(payload.as_ref(), b"hi");

    let command = ReadRxPayload::new(0);
    assert_eq!(frame(&command), vec![0x61]);
    assert_eq!(ReadRxPayload::decode_response(&[0x0E]).len(), 0);

    let command = WriteTxPayload::new(b"sendtest");
    assert_eq!(command.len(), 9);
    assert_eq!(frame(&command), vec![0xA0, b's', b'e', b'n', b'd', b't', b'e', b's', b't']);

    let command = WriteTxPayload::new(&[]);
    assert_eq!(frame(&command), vec![0xA0]);

    for pipe in 0..6u8 {
        let command = WriteAckPayload::new(pipe, b"ok");
        assert_eq!(command.len(), 3);
        assert_eq!(frame(&command), vec![0xA8 | pipe, b'o', b'k']);
    }

    assert_eq!(ReadRxPayloadWidth.len(), 2);
    assert_eq!(frame(&ReadRxPayloadWidth), vec![0x60, 0x00]);
    assert_eq!(ReadRxPayloadWidth::decode_response(&[0x0E, 17]), 17);
}

#[test]
fn one_byte_commands() {
    assert_eq!(FlushTx.len(), 1);
    assert_eq!(frame(&FlushTx), vec![0xE1]);
    assert_eq!(FlushRx.len(), 1);
    assert_eq!(frame(&FlushRx), vec![0xE2]);
    assert_eq!(Nop.len(), 1);
    assert_eq!(frame(&Nop), vec![0xFF]);
}

#[test]
fn channel_is_capped_at_125() {
    assert_eq!(rf_ch(0).0, 0);
    assert_eq!(rf_ch(108).0, 108);
    assert_eq!(rf_ch(125).0, 125);
    assert_eq!(rf_ch(126).0, 125);
    assert_eq!(rf_ch(255).0, 125);
}

#[test]
fn rf_setup_for_each_rate_and_power() {
    assert_eq!(rf_setup(&DataRate::R1Mbps, 0).0, 0b0000_0000);
    assert_eq!(rf_setup(&DataRate::R1Mbps, 1).0, 0b0000_0010);
    assert_eq!(rf_setup(&DataRate::R1Mbps, 2).0, 0b0000_0100);
    assert_eq!(rf_setup(&DataRate::R1Mbps, 3).0, 0b0000_0110);
    assert_eq!(rf_setup(&DataRate::R250Kbps, 0).0, 0b0010_0000);
    assert_eq!(rf_setup(&DataRate::R250Kbps, 3).0, 0b0010_0110);
    assert_eq!(rf_setup(&DataRate::R2Mbps, 0).0, 0b0000_1000);
    assert_eq!(rf_setup(&DataRate::R2Mbps, 1).0, 0b0000_1010);
}

#[test]
fn retransmission_is_capped_at_15() {
    assert_eq!(setup_retr(2, 3).0, 0x23);
    assert_eq!(setup_retr(0, 0).0, 0x00);
    assert_eq!(setup_retr(15, 15).0, 0xFF);
    assert_eq!(setup_retr(16, 3).0, 0xF3);
    assert_eq!(setup_retr(2, 200).0, 0x2F);
}

#[test]
fn crc_modes_set_two_bits() {
    let mut config = Config(0b0111_0011);
    CrcMode::Disabled.set_config(&mut config);
    assert_eq!(config.0, 0b0111_0011);
    CrcMode::OneByte.set_config(&mut config);
    assert_eq!(config.0, 0b0111_1011);
    CrcMode::TwoBytes.set_config(&mut config);
    assert_eq!(config.0, 0b0111_1111);
    CrcMode::Disabled.set_config(&mut config);
    assert_eq!(config.0, 0b0111_0011);
}

#[test]
fn defaults_and_levels() {
    assert_eq!(DataRate::default(), DataRate::R1Mbps);
    assert_eq!(PALevel::default(), PALevel::Min);
    assert_eq!(PALevel::Min.power(), 0);
    assert_eq!(PALevel::Low.power(), 1);
    assert_eq!(PALevel::High.power(), 2);
    assert_eq!(PALevel::Max.power(), 3);
}

#[test]
fn bus_setup() {
    let mode = spi_mode();
    assert_eq!(mode.polarity, Polarity::IdleLow);
    assert_eq!(mode.phase, Phase::CaptureOnFirstTransition);
    assert_eq!(clock_mhz(), 8);
}

#[test]
fn bus_errors_are_wrapped() {
    let error: Error<u8> = Error::from(7);
    assert_eq!(error, Error::SpiError(7));
    assert_ne!(error, Error::NotConnected);
}
