use nrf24l01::bits::{get_bit, get_field, set_bit, set_field};
use nrf24l01::registers::{
    Config, Dynpd, EnAa, EnRxaddr, Feature, FifoStatus, ObserveTx, Register, RfCh, RfSetup,
    RxAddrP0, RxAddrP1, RxAddrP2, RxAddrP3, RxAddrP4, RxAddrP5, RxPwP0, RxPwP1, RxPwP2, RxPwP3,
    RxPwP4, RxPwP5, SetupAw, SetupRetr, Status, TxAddr, CD,
};
use nrf24l01::{MAX_ADDR_BYTES, MIN_ADDR_BYTES, PIPES_COUNT};

fn wire_form<R: Register>(register: &R) -> Vec<u8> {
    let mut buf = vec![0xAAu8; register.write_len()];
    register.encode(&mut buf);
    buf
}

fn round_trip_byte<R: Register>(make: fn(u8) -> R, byte_of: fn(&R) -> u8, addr: u8) {
    assert_eq!(R::addr(), addr);
    assert_eq!(R::read_len(), 1);
    for value in 0..=255u8 {
        let register = make(value);
        assert_eq!(register.write_len(), 1);
        let bytes = wire_form(&register);
        assert_eq!(bytes, vec![value]);
        let back = R::decode(&bytes);
        assert!(back.same_as(&register));
        assert_eq!(byte_of(&back), value);
    }
}

#[test]
fn constants_of_the_chip() {
    assert_eq!(PIPES_COUNT, 6);
    assert_eq!(MIN_ADDR_BYTES, 3);
    assert_eq!(MAX_ADDR_BYTES, 5);
}

#[test]
fn bits_are_counted_from_the_low_end() {
    assert!(get_bit(0b0000_1000, 3));
    assert!(!get_bit(0b0000_1000, 2));
    assert_eq!(set_bit(0, 7, true), 0x80);
    assert_eq!(set_bit(0xFF, 0, false), 0xFE);
    assert_eq!(set_bit(0x10, 4, true), 0x10);
}

#[test]
fn fields_are_cut_to_their_mask() {
    assert_eq!(get_field(0b1010_0110, 4, 0x0F), 0b1010);
    assert_eq!(get_field(0b1010_0110, 1, 0x03), 0b11);
    assert_eq!(set_field(0, 4, 0x0F, 0x2), 0x20);
    assert_eq!(set_field(0xFF, 1, 0x03, 0), 0xF9);
    assert_eq!(set_field(0, 0, 0x0F, 0x1F), 0x0F);
}

#[test]
fn every_one_byte_register_round_trips() {
    round_trip_byte(Config, |r| r.0, 0x00);
    round_trip_byte(EnAa, |r| r.0, 0x01);
    round_trip_byte(EnRxaddr, |r| r.0, 0x02);
    round_trip_byte(SetupAw, |r| r.0, 0x03);
    round_trip_byte(SetupRetr, |r| r.0, 0x04);
    round_trip_byte(RfCh, |r| r.0, 0x05);
    round_trip_byte(RfSetup, |r| r.0, 0x06);
    round_trip_byte(Status, |r| r.0, 0x07);
    round_trip_byte(ObserveTx, |r| r.0, 0x08);
    round_trip_byte(CD, |r| r.0, 0x09);
    round_trip_byte(RxAddrP2, |r| r.0, 0x0C);
    round_trip_byte(RxAddrP3, |r| r.0, 0x0D);
    round_trip_byte(RxAddrP4, |r| r.0, 0x0E);
    round_trip_byte(RxAddrP5, |r| r.0, 0x0F);
    round_trip_byte(RxPwP0, |r| r.0, 0x11);
    round_trip_byte(RxPwP1, |r| r.0, 0x12);
    round_trip_byte(RxPwP2, |r| r.0, 0x13);
    round_trip_byte(RxPwP3, |r| r.0, 0x14);
    round_trip_byte(RxPwP4, |r| r.0, 0x15);
    round_trip_byte(RxPwP5, |r| r.0, 0x16);
    round_trip_byte(FifoStatus, |r| r.0, 0x17);
    round_trip_byte(Dynpd, |r| r.0, 0x1C);
    round_trip_byte(Feature, |r| r.0, 0x1D);
}

#[test]
fn address_registers_round_trip_at_every_width() {
    let address = [0x61u8, 0x62, 0x63, 0x64, 0x65];
    for width in 3..=5usize {
        let base = RxAddrP0::new(&address[..width]);
        assert_eq!(base.write_len(), width);
        assert_eq!(wire_form(&base), address[..width].to_vec());
        assert!(RxAddrP0::decode(&wire_form(&base)).same_as(&base));

        let next = RxAddrP1::new(&address[..width]);
        assert_eq!(wire_form(&next), address[..width].to_vec());
        assert!(RxAddrP1::decode(&wire_form(&next)).same_as(&next));

        let tx = TxAddr::new(&address[..width]);
        assert_eq!(wire_form(&tx), address[..width].to_vec());
        assert!(TxAddr::decode(&wire_form(&tx)).same_as(&tx));
    }
    assert_eq!(RxAddrP0::addr(), 0x0A);
    assert_eq!(RxAddrP1::addr(), 0x0B);
    assert_eq!(TxAddr::addr(), 0x10);
    assert_eq!(RxAddrP0::read_len(), 5);
}

#[test]
fn address_registers_differ_by_length_and_bytes() {
    let short = TxAddr::new(&[1, 2, 3]);
    let padded = TxAddr::new(&[1, 2, 3, 0]);
    let other = TxAddr::new(&[1, 2, 4]);
    assert!(!short.same_as(&padded));
    assert!(!short.same_as(&other));
    assert!(short.same_as(&TxAddr::new(&[1, 2, 3])));
}

#[test]
fn one_byte_address_registers_take_their_byte() {
    assert_eq!(RxAddrP2::new(&[0xC3]).0, 0xC3);
    assert_eq!(RxAddrP3::new(&[0xC4]).0, 0xC4);
    assert_eq!(RxAddrP4::new(&[0xC5]).0, 0xC5);
    assert_eq!(RxAddrP5::new(&[0xC6]).0, 0xC6);
    assert_eq!(CD::new(&[0x01]).0, 0x01);
}

#[test]
fn config_bits_sit_where_the_datasheet_puts_them() {
    let mut config = Config(0);
    config.set_mask_rx_dr(true);
    assert_eq!(config.0, 0b0100_0000);
    config.set_mask_tx_ds(true);
    assert_eq!(config.0, 0b0110_0000);
    config.set_mask_max_rt(true);
    assert_eq!(config.0, 0b0111_0000);
    config.set_en_crc(true);
    assert_eq!(config.0, 0b0111_1000);
    config.set_crco(true);
    assert_eq!(config.0, 0b0111_1100);
    config.set_pwr_up(true);
    assert_eq!(config.0, 0b0111_1110);
    config.set_prim_rx(true);
    assert_eq!(config.0, 0b0111_1111);
    assert!(config.mask_rx_dr() && config.mask_tx_ds() && config.mask_max_rt());
    assert!(config.en_crc() && config.crco() && config.pwr_up() && config.prim_rx());
    config.set_en_crc(false);
    assert_eq!(config.0, 0b0111_0111);
    assert!(!config.en_crc());
    assert!(config.crco());
}

#[test]
fn config_fields_read_back_in_every_combination() {
    for value in 0..128u8 {
        let flags = [
            value & 1 != 0,
            value & 2 != 0,
            value & 4 != 0,
            value & 8 != 0,
            value & 16 != 0,
            value & 32 != 0,
            value & 64 != 0,
        ];
        let mut config = Config(0);
        config.set_prim_rx(flags[0]);
        config.set_pwr_up(flags[1]);
        config.set_crco(flags[2]);
        config.set_en_crc(flags[3]);
        config.set_mask_max_rt(flags[4]);
        config.set_mask_tx_ds(flags[5]);
        config.set_mask_rx_dr(flags[6]);
        assert_eq!(config.0, value);
        let back = Config::decode(&wire_form(&config));
        assert_eq!(
            [
                back.prim_rx(),
                back.pwr_up(),
                back.crco(),
                back.en_crc(),
                back.mask_max_rt(),
                back.mask_tx_ds(),
                back.mask_rx_dr(),
            ],
            flags
        );
    }
}

#[test]
fn status_fields() {
    let status = Status(0b0100_1110);
    assert!(status.rx_dr());
    assert!(!status.tx_ds());
    assert!(!status.max_rt());
    assert_eq!(status.rx_p_no(), 7);
    assert!(!status.tx_full());
    let status = Status(0b0011_0011);
    assert!(!status.rx_dr());
    assert!(status.tx_ds());
    assert!(status.max_rt());
    assert_eq!(status.rx_p_no(), 1);
    assert!(status.tx_full());
    let mut clear = Status(0);
    clear.set_rx_dr(true);
    clear.set_tx_ds(true);
    clear.set_max_rt(true);
    assert_eq!(clear.0, 0x70);
}

#[test]
fn fifo_status_fields() {
    let fifo = FifoStatus(0b0101_0001);
    assert!(fifo.tx_reuse());
    assert!(!fifo.tx_full());
    assert!(fifo.tx_empty());
    assert!(!fifo.rx_full());
    assert!(fifo.rx_empty());
    let fifo = FifoStatus(0b0010_0010);
    assert!(!fifo.tx_reuse());
    assert!(fifo.tx_full());
    assert!(!fifo.tx_empty());
    assert!(fifo.rx_full());
    assert!(!fifo.rx_empty());
}

#[test]
fn multi_bit_fields() {
    let mut aw = SetupAw(0);
    aw.set_aw(3);
    assert_eq!(aw.0, 0b11);
    assert_eq!(aw.aw(), 3);
    aw.set_aw(0b101);
    assert_eq!(aw.aw(), 1);

    let mut retr = SetupRetr(0);
    retr.set_ard(2);
    retr.set_arc(3);
    assert_eq!(retr.0, 0x23);
    assert_eq!(retr.ard(), 2);
    assert_eq!(retr.arc(), 3);
    retr.set_ard(15);
    assert_eq!(retr.0, 0xF3);

    let mut channel = RfCh(0);
    channel.set_rf_ch(108);
    assert_eq!(channel.0, 108);
    assert_eq!(channel.rf_ch(), 108);
    channel.set_rf_ch(0xFF);
    assert_eq!(channel.0, 0x7F);

    let mut rf = RfSetup(0);
    rf.set_rf_pwr(3);
    assert_eq!(rf.0, 0b0000_0110);
    rf.set_rf_dr_low(true);
    assert_eq!(rf.0, 0b0010_0110);
    rf.set_rf_dr_high(true);
    assert_eq!(rf.0, 0b0010_1110);
    assert_eq!(rf.rf_pwr(), 3);
    assert!(rf.rf_dr_low() && rf.rf_dr_high());

    let observe = ObserveTx(0xA5);
    assert_eq!(observe.plos_cnt(), 0xA);
    assert_eq!(observe.arc_cnt(), 0x5);

    let mut width = RxPwP3(0);
    width.set(32);
    assert_eq!(width.0, 32);
    assert_eq!(width.get(), 32);
    width.set(0x45);
    assert_eq!(width.get(), 0x05);

    let mut feature = Feature(0);
    feature.set_en_dpl(true);
    assert_eq!(feature.0, 0b100);
    feature.set_en_ack_pay(true);
    assert_eq!(feature.0, 0b110);
    feature.set_en_dyn_ack(true);
    assert_eq!(feature.0, 0b111);
    assert!(feature.en_dpl() && feature.en_ack_pay() && feature.en_dyn_ack());

    assert!(CD(1).cd());
    assert!(!CD(0xFE).cd());
}

#[test]
fn pipe_flags_have_bit_index_equal_to_pipe_index() {
    let bools = [true, false, true, true, false, false];
    let aa = EnAa::from_bools(&bools);
    assert_eq!(aa.0, 0b0000_1101);
    assert_eq!(aa.to_bools(), bools);
    let rx = EnRxaddr::from_bools(&bools);
    assert_eq!(rx.0, 0b0000_1101);
    assert_eq!(rx.to_bools(), bools);
    let dynpd = Dynpd::from_bools(&bools);
    assert_eq!(dynpd.0, 0b0000_1101);
    assert_eq!(dynpd.to_bools(), bools);

    assert_eq!(EnAa::from_bools(&[false; 6]).0, 0);
    assert_eq!(EnAa::from_bools(&[true; 6]).0, 0x3F);
    assert_eq!(EnAa(0xFF).to_bools(), [true; 6]);

    for value in 0..64u8 {
        let register = EnRxaddr(value);
        assert_eq!(EnRxaddr::from_bools(&register.to_bools()).0, value);
    }

    let mut register = Dynpd(0);
    register.set_dpl_p(5, true);
    assert_eq!(register.0, 0b0010_0000);
    assert!(register.dpl_p(5));
    assert!(!register.dpl_p(4));
    register.set_dpl_p(5, false);
    assert_eq!(register.0, 0);
    let mut register = EnAa(0);
    register.set_enaa_p(0, true);
    assert!(register.enaa_p(0));
    let mut register = EnRxaddr(0);
    register.set_erx_p(2, true);
    assert!(register.erx_p(2));
    assert_eq!(register.0, 0b100);
}

#[test]
fn setting_one_field_leaves_the_others_alone() {
    for value in 0..=255u8 {
        for x in 0..16u8 {
            let mut retr = SetupRetr(value);
            retr.set_ard(x);
            assert_eq!(retr.arc(), value & 0x0F);
            assert_eq!(retr.ard(), x);
            let mut retr = SetupRetr(value);
            retr.set_arc(x);
            assert_eq!(retr.ard(), value >> 4);
            assert_eq!(retr.arc(), x);
        }
        for power in 0..4u8 {
            let mut rf = RfSetup(value);
            rf.set_rf_pwr(power);
            assert_eq!(rf.rf_dr_low(), value & 0x20 != 0);
            assert_eq!(rf.rf_dr_high(), value & 0x08 != 0);
            assert_eq!(rf.0 & !0x06, value & !0x06);
        }
        for on in [false, true] {
            let mut rf = RfSetup(value);
            rf.set_rf_dr_low(on);
            assert_eq!(rf.rf_pwr(), (value >> 1) & 0x03);
            assert_eq!(rf.0 & !0x20, value & !0x20);
            let mut status = Status(value);
            status.set_tx_ds(on);
            assert_eq!(status.rx_p_no(), (value >> 1) & 0x07);
            assert_eq!(status.0 & !0x20, value & !0x20);
            let mut config = Config(value);
            config.set_pwr_up(on);
            assert_eq!(config.0 & !0x02, value & !0x02);
        }
    }
}
