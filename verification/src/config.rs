//! Settings of the chip that can be changed in any operating mode.

use crate::bits::{
    bit, lemma_field_bounded, lemma_with_bit_keeps_field, lemma_with_bit_reads_back,
    lemma_with_field_keeps_bit, lemma_with_field_keeps_field, with_bit, with_field,
};
use crate::command::{read_frame, write_frame, FlushRx, FlushTx, Nop};
use crate::device::{register_in, status_in, write_step, Device};
use crate::error::Error;
use crate::registers::{
    lemma_field_geometry, packed_flags, pipe_flags, valid_address_width, Config, Dynpd, EnAa,
    EnRxaddr, Feature, Register, RfCh, RfSetup, RxAddrP0, RxAddrP1, RxAddrP2, RxAddrP3, RxAddrP4,
    RxAddrP5, RxPwP0, RxPwP1, RxPwP2, RxPwP3, RxPwP4, RxPwP5, SetupAw, SetupRetr, Status, TxAddr,
    MAX_ADDR_BYTES, PIPES_COUNT,
};
use crate::trace::{
    aborted, completed, completed_at, extends_by, failed_at, last_reply, lemma_ran_none, ran,
    reply_at, Event,
};
use vstd::prelude::*;

verus! {

/// Supported air data rates.
#[derive(Debug, PartialEq, Eq, Structural, Copy, Clone)]
pub enum DataRate {
    /// 250 Kbps
    R250Kbps,
    /// 1 Mbps
    R1Mbps,
    /// 2 Mbps
    R2Mbps,
}

impl Default for DataRate {
    fn default() -> (rate: DataRate)
        ensures
            rate == DataRate::R1Mbps,
    {
        DataRate::R1Mbps
    }
}

/// Supported CRC modes.
#[derive(Debug, PartialEq, Eq, Structural, Copy, Clone)]
pub enum CrcMode {
    /// Disable all CRC generation/checking
    Disabled,
    /// One byte checksum
    OneByte,
    /// Two bytes checksum
    TwoBytes,
}

impl CrcMode {
    /// Whether a CRC is in use at all.
    pub open spec fn enabled(&self) -> bool {
        !(self is Disabled)
    }

    /// Whether the CRC has two bytes.
    pub open spec fn two_bytes(&self) -> bool {
        self is TwoBytes
    }

    /// `config` with its two CRC bits set for this mode.
    pub open spec fn applied_to(&self, config: Config) -> Config {
        Config(with_bit(with_bit(config.0, 3, self.enabled()), 2, self.two_bytes()))
    }

    /// Sets the two CRC bits of `config` for this mode and leaves the rest
    /// of it alone.
    pub fn set_config(&self, config: &mut Config)
        ensures
            *final(config) == self.applied_to(*old(config)),
            final(config).en_crc() == self.enabled(),
            final(config).crco() == self.two_bytes(),
            forall|i: u8|
                i < 8 && i != 3 && i != 2 ==> bit(final(config).0, i) == bit(old(config).0, i),
    {
        let (en_crc, crco) = match *self {
            CrcMode::Disabled => (false, false),
            CrcMode::OneByte => (true, false),
            CrcMode::TwoBytes => (true, true),
        };
        config.set_en_crc(en_crc);
        let ghost middle = config.0;
        config.set_crco(crco);
        proof {
            assert forall|i: u8| i < 8 implies bit(config.0, i) == (if i == 2 {
                crco
            } else if i == 3 {
                en_crc
            } else {
                bit(old(config).0, i)
            }) by {
                lemma_with_bit_reads_back(old(config).0, 3, en_crc, i);
                lemma_with_bit_reads_back(middle, 2, crco, i);
            }
        }
    }
}

/// The channel that is set when `freq_offset` is asked for: channels run
/// from 0 to 125, and anything above is taken as 125.
pub open spec fn capped_channel(freq_offset: u8) -> u8 {
    if freq_offset <= 125 {
        freq_offset
    } else {
        125
    }
}

/// A retransmit delay or count as it is set: anything above 15 is taken as
/// 15.
pub open spec fn capped_nibble(value: u8) -> u8 {
    if value <= 15 {
        value
    } else {
        15
    }
}

/// RF_SETUP for a data rate and an output power from 0 to 3: the power in
/// bits 2 and 1, bit 5 for 250 kbps, bit 3 for 2 Mbps, nothing else.
pub open spec fn rf_setup_value(rate: DataRate, power: u8) -> RfSetup {
    RfSetup(
        (2 * power + match rate {
            DataRate::R250Kbps => 0x20int,
            DataRate::R1Mbps => 0x00int,
            DataRate::R2Mbps => 0x08int,
        }) as u8,
    )
}

/// SETUP_RETR for a delay and a count, each capped at 15: the delay in the
/// high four bits, the count in the low four.
pub open spec fn setup_retr_value(delay: u8, count: u8) -> SetupRetr {
    SetupRetr((16 * capped_nibble(delay) + capped_nibble(count)) as u8)
}

/// `config` with its three interrupt mask bits set as given.
pub open spec fn masked_config(
    config: Config,
    data_ready_rx: bool,
    data_sent_tx: bool,
    max_retransmits_tx: bool,
) -> Config {
    Config(
        with_bit(
            with_bit(with_bit(config.0, 6, data_ready_rx), 5, data_sent_tx),
            4,
            max_retransmits_tx,
        ),
    )
}

/// STATUS with the three interrupt flags set, which written to the chip
/// clears all three.
pub open spec fn all_interrupts() -> Status {
    Status(0x70)
}

/// Computes RF_CH for a channel, capped at 125.
pub fn rf_ch(freq_offset: u8) -> (register: RfCh)
    ensures
        register == RfCh(capped_channel(freq_offset)),
        register.rf_ch() == capped_channel(freq_offset),
{
    let channel = if freq_offset <= 125 {
        freq_offset
    } else {
        125
    };
    let mut register = RfCh(0);
    register.set_rf_ch(channel);
    assert(with_field(0, 0, 0x7f, channel) == channel) by (bit_vector)
        requires
            channel <= 125,
    ;
    assert(channel & 0x7f == channel) by (bit_vector)
        requires
            channel <= 125,
    ;
    register
}

/// Computes RF_SETUP for a data rate and an output power from 0 (-18 dBm)
/// to 3 (0 dBm).
pub fn rf_setup(rate: &DataRate, power: u8) -> (register: RfSetup)
    requires
        power < 4,
    ensures
        register == rf_setup_value(*rate, power),
        register.rf_pwr() == power,
        register.rf_dr_low() == (*rate is R250Kbps),
        register.rf_dr_high() == (*rate is R2Mbps),
        forall|i: u8| i < 8 && i != 5 && i != 3 && i != 2 && i != 1 ==> !bit(register.0, i),
{
    let mut register = RfSetup(0);
    register.set_rf_pwr(power);
    let ghost with_power = register.0;

    let (dr_low, dr_high) = match *rate {
        DataRate::R250Kbps => (true, false),
        DataRate::R1Mbps => (false, false),
        DataRate::R2Mbps => (false, true),
    };
    register.set_rf_dr_low(dr_low);
    let ghost with_low = register.0;
    register.set_rf_dr_high(dr_high);

    proof {
        lemma_field_geometry();
        assert(power & 0x03 == power) by (bit_vector)
            requires
                power < 4,
        ;
        assert(!bit(0x03u8 << 1u8, 5) && !bit(0x03u8 << 1u8, 3) && !bit(0x03u8 << 1u8, 0) && !bit(
            0x03u8 << 1u8,
            4,
        ) && !bit(0x03u8 << 1u8, 6) && !bit(0x03u8 << 1u8, 7)) by (bit_vector);
        lemma_with_bit_keeps_field(with_power, 5, dr_low, 1, 0x03);
        lemma_with_bit_keeps_field(with_low, 3, dr_high, 1, 0x03);
        lemma_with_bit_reads_back(with_low, 3, dr_high, 5);
        assert forall|i: u8| i < 8 && i != 5 && i != 3 && i != 2 && i != 1 implies !bit(
            register.0,
            i,
        ) by {
            assert(!bit(0u8, i)) by (bit_vector);
            lemma_with_field_keeps_bit(0, 1, 0x03, power, i);
            lemma_with_bit_reads_back(with_power, 5, dr_low, i);
            lemma_with_bit_reads_back(with_low, 3, dr_high, i);
        }
        assert(with_field(0, 1, 0x03, power) == 2 * power) by (bit_vector)
            requires
                power < 4,
        ;
        assert(with_bit(with_power, 5, false) == with_power && with_bit(with_power, 5, true)
            == with_power + 0x20) by (bit_vector)
            requires
                with_power < 8,
        ;
        assert(with_bit(with_low, 3, false) == with_low && with_bit(with_low, 3, true) == with_low
            + 0x08) by (bit_vector)
            requires
                with_low < 8 || 0x20 <= with_low < 0x28,
        ;
    }
    register
}

/// Computes SETUP_RETR for a retransmit delay and count, each capped at 15.
pub fn setup_retr(delay: u8, count: u8) -> (register: SetupRetr)
    ensures
        register == setup_retr_value(delay, count),
        register.ard() == capped_nibble(delay),
        register.arc() == capped_nibble(count),
{
    let delay = if delay <= 15 {
        delay
    } else {
        15
    };
    let count = if count <= 15 {
        count
    } else {
        15
    };
    let mut register = SetupRetr(0);
    register.set_ard(delay);
    let ghost with_delay = register.0;
    register.set_arc(count);
    proof {
        lemma_field_geometry();
        assert(delay & 0x0f == delay && count & 0x0f == count && (0x0fu8 << 0u8) & (0x0fu8 << 4u8)
            == 0) by (bit_vector)
            requires
                delay <= 15,
                count <= 15,
        ;
        lemma_with_field_keeps_field(with_delay, 0, 0x0f, count, 4, 0x0f);
        assert(with_field(with_field(0, 4, 0x0f, delay), 0, 0x0f, count) == 16 * delay + count)
            by (bit_vector)
            requires
                delay <= 15,
                count <= 15,
        ;
    }
    register
}

/// The frame that sets the receive address of a pipe: pipes 0 and 1 take
/// the whole address, pipes 2 to 5 its least significant byte, which comes
/// first.
pub open spec fn rx_addr_frame(pipe_no: int, addr: Seq<u8>) -> Seq<u8> {
    if pipe_no < 2 {
        seq![0x20u8 | (0x0A + pipe_no) as u8] + addr
    } else {
        seq![0x20u8 | (0x0A + pipe_no) as u8, addr[0]]
    }
}

/// Whether `addr` can be the receive address of pipe `pipe_no`: three to
/// five bytes, or for pipes 2 to 5 the one byte that they keep.
pub open spec fn rx_addr_fits(pipe_no: int, addr: Seq<u8>) -> bool {
    ||| valid_address_width(addr.len() as int)
    ||| 2 <= pipe_no && addr.len() == 1
}

/// An address of three to five bytes that is set on pipe 0 or 1 reads
/// back as it was set: where a read of the pipe's address register
/// returns, behind the status byte, the bytes that were written when the
/// address was set, the register that is read starts with the address.
pub proof fn lemma_rx_addr_reads_back(pipe_no: int, addr: Seq<u8>, reply: Seq<u8>)
    requires
        0 <= pipe_no < 2,
        valid_address_width(addr.len() as int),
        reply.len() == 1 + MAX_ADDR_BYTES,
        reply.subrange(1, 1 + addr.len() as int) == rx_addr_frame(pipe_no, addr).skip(1),
    ensures
        pipe_no == 0 ==> {
            &&& rx_addr_frame(pipe_no, addr)[0] == 0x20u8 | read_frame::<RxAddrP0>()[0]
            &&& register_in::<RxAddrP0>(reply).bytes().subrange(0, addr.len() as int) == addr
        },
        pipe_no == 1 ==> {
            &&& rx_addr_frame(pipe_no, addr)[0] == 0x20u8 | read_frame::<RxAddrP1>()[0]
            &&& register_in::<RxAddrP1>(reply).bytes().subrange(0, addr.len() as int) == addr
        },
{
    RxAddrP0::lemma_read_parses(reply.skip(1));
    RxAddrP1::lemma_read_parses(reply.skip(1));
    assert(rx_addr_frame(pipe_no, addr).skip(1) =~= addr);
    assert(reply.skip(1).subrange(0, addr.len() as int) =~= reply.subrange(
        1,
        1 + addr.len() as int,
    ));
}

/// Of an address that is set on one of pipes 2 to 5 the first byte reads
/// back: where a read of the pipe's address register returns, behind the
/// status byte, the byte that was written when the address was set, the
/// register that is read holds the first byte of the address.
pub proof fn lemma_rx_addr_lsb_reads_back(pipe_no: int, addr: Seq<u8>, reply: Seq<u8>)
    requires
        2 <= pipe_no < PIPES_COUNT,
        rx_addr_fits(pipe_no, addr),
        reply.len() == 2,
        reply[1] == rx_addr_frame(pipe_no, addr)[1],
    ensures
        pipe_no == 2 ==> register_in::<RxAddrP2>(reply) == RxAddrP2(addr[0]),
        pipe_no == 3 ==> register_in::<RxAddrP3>(reply) == RxAddrP3(addr[0]),
        pipe_no == 4 ==> register_in::<RxAddrP4>(reply) == RxAddrP4(addr[0]),
        pipe_no == 5 ==> register_in::<RxAddrP5>(reply) == RxAddrP5(addr[0]),
{
}

/// For each pipe, whether its payload length is dynamic.
pub open spec fn dynamic_flags(lengths: Seq<Option<u8>>) -> Seq<bool> {
    Seq::new(PIPES_COUNT as nat, |i: int| lengths[i] is None)
}

/// Whether the payload length of any pipe is dynamic.
pub open spec fn any_dynamic(lengths: Seq<Option<u8>>) -> bool {
    exists|i: int| 0 <= i < PIPES_COUNT && (#[trigger] lengths[i]) is None
}

/// The static payload length that is written for a pipe: the length given,
/// cut to six bits, and zero for a pipe whose length is dynamic.
pub open spec fn rx_pw_byte(length: Option<u8>) -> u8 {
    match length {
        Some(len) => len % 64,
        None => 0,
    }
}

/// Cutting a byte to six bits leaves its remainder modulo 64.
pub proof fn lemma_cut_to_six_bits(len: u8)
    ensures
        with_field(0, 0, 0x3f, len) == len % 64,
{
    assert(with_field(0, 0, 0x3f, len) == len % 64) by (bit_vector);
}

/// What is written to set the payload lengths, once dynamic payload length
/// is switched on where it is needed: DYNPD, then the static length of
/// each pipe.
pub open spec fn rx_lengths_script(lengths: Seq<Option<u8>>) -> Seq<Seq<u8>> {
    seq![
        write_frame(Dynpd(packed_flags(dynamic_flags(lengths), PIPES_COUNT as nat))),
        write_frame(RxPwP0(rx_pw_byte(lengths[0]))),
        write_frame(RxPwP1(rx_pw_byte(lengths[1]))),
        write_frame(RxPwP2(rx_pw_byte(lengths[2]))),
        write_frame(RxPwP3(rx_pw_byte(lengths[3]))),
        write_frame(RxPwP4(rx_pw_byte(lengths[4]))),
        write_frame(RxPwP5(rx_pw_byte(lengths[5]))),
    ]
}

/// Dynamic payload length was switched on in FEATURE: the register was
/// read, and written back with EN_DPL set and its other bits as read only
/// where EN_DPL was clear. `ok` tells whether the bus carried that.
pub open spec fn dpl_switched_on(before: Seq<Event>, after: Seq<Event>, ok: bool) -> bool {
    let at = before.len() as int;
    let was = register_in::<Feature>(reply_at(after, at));
    let now = Feature(with_bit(was.0, 2, true));
    if ok {
        &&& completed_at(after, at, read_frame::<Feature>())
        &&& if now == was {
            extends_by(before, after, 3)
        } else {
            &&& extends_by(before, after, 6)
            &&& completed_at(after, at + 3, write_frame(now))
        }
    } else {
        ||| aborted(before, after, read_frame::<Feature>())
        ||| {
            &&& extends_by(before, after, 6)
            &&& completed_at(after, at, read_frame::<Feature>())
            &&& now != was
            &&& failed_at(after, at + 3, write_frame(now))
        }
    }
}

/// What setting the payload lengths does on the wire. Where any pipe is
/// dynamic, dynamic payload length is switched on first; then DYNPD and
/// the six static lengths are written. The first exchange that fails ends
/// it.
pub open spec fn rx_lengths_set(
    before: Seq<Event>,
    after: Seq<Event>,
    lengths: Seq<Option<u8>>,
    ok: bool,
) -> bool {
    if any_dynamic(lengths) {
        exists|middle: Seq<Event>, switched: bool|
            {
                &&& #[trigger] dpl_switched_on(before, middle, switched)
                &&& if switched {
                    ran(middle, after, rx_lengths_script(lengths), ok)
                } else {
                    !ok && after == middle
                }
            }
    } else {
        ran(before, after, rx_lengths_script(lengths), ok)
    }
}

/// `after` is `before` once it has run one exchange of `frame` and done
/// nothing else; `ok` tells whether the bus carried the exchange.
pub open spec fn exchanged<D: Device>(before: D, after: D, frame: Seq<u8>, ok: bool) -> bool {
    &&& after.config() == before.config()
    &&& if ok {
        completed(before.trace(), after.trace(), frame)
    } else {
        aborted(before.trace(), after.trace(), frame)
    }
}

/// What bringing CONFIG to `target` does on the wire, for a shadow that
/// holds `shadow`: nothing where the two are the same, else one write of
/// `target`. `ok` tells whether that went well.
pub open spec fn config_written(
    shadow: Config,
    before: Seq<Event>,
    after: Seq<Event>,
    target: Config,
    ok: bool,
) -> bool {
    if ok {
        if target == shadow {
            after == before
        } else {
            completed(before, after, write_frame(target))
        }
    } else {
        &&& target != shadow
        &&& aborted(before, after, write_frame(target))
    }
}

/// `after` is `before` once its CONFIG has been brought to `target`: where
/// the shadow held `target` already nothing was done, else `target` was
/// written; `ok` tells whether that went well, and where it did not the
/// shadow is as before.
pub open spec fn reconfigured<D: Device>(before: D, after: D, target: Config, ok: bool) -> bool {
    &&& after.config() == (if ok {
        target
    } else {
        before.config()
    })
    &&& config_written(before.config(), before.trace(), after.trace(), target, ok)
}

/// `after` is `before` once `target` has been written to its CONFIG,
/// whatever the shadow held: `ok` tells whether the write went well, and
/// the shadow holds `target` where it did and is as before where it did
/// not.
pub open spec fn config_rewritten<D: Device>(
    before: D,
    after: D,
    target: Config,
    ok: bool,
) -> bool {
    if ok {
        &&& after.config() == target
        &&& completed(before.trace(), after.trace(), write_frame(target))
    } else {
        &&& after.config() == before.config()
        &&& aborted(before.trace(), after.trace(), write_frame(target))
    }
}

/// Whether an error is one of the bus.
pub open spec fn bus_failure<T, E>(r: Result<T, Error<E>>) -> bool {
    r matches Err(e) ==> e is SpiError
}

/// Configuration methods, the same in every operating mode.
pub trait Configuration {
    /// The transport underneath.
    type Inner: Device;

    /// The transport as it stands.
    spec fn inner(&self) -> Self::Inner;

    /// Hands out the transport.
    fn device(&mut self) -> (device: &mut Self::Inner)
        ensures
            *device == old(self).inner(),
            final(self).inner() == *final(device),
    ;

    /// Discards all received packets that have not been read yet.
    fn flush_rx(&mut self) -> (r: Result<(), Error<<Self::Inner as Device>::Error>>)
        ensures
            exchanged(old(self).inner(), final(self).inner(), seq![0xE2u8], r is Ok),
            bus_failure(r),
    {
        match self.device().send_command(&FlushRx) {
            Ok(_) => Ok(()),
            Err(e) => Err(e),
        }
    }

    /// Discards all packets that wait to be sent.
    fn flush_tx(&mut self) -> (r: Result<(), Error<<Self::Inner as Device>::Error>>)
        ensures
            exchanged(old(self).inner(), final(self).inner(), seq![0xE1u8], r is Ok),
            bus_failure(r),
    {
        match self.device().send_command(&FlushTx) {
            Ok(_) => Ok(()),
            Err(e) => Err(e),
        }
    }

    /// Reads the channel from RF_CH.
    fn get_frequency(&mut self) -> (r: Result<u8, Error<<Self::Inner as Device>::Error>>)
        ensures
            exchanged(old(self).inner(), final(self).inner(), read_frame::<RfCh>(), r is Ok),
            bus_failure(r),
            r matches Ok(freq_offset) ==> freq_offset == register_in::<RfCh>(
                last_reply(final(self).inner().trace()),
            ).rf_ch(),
    {
        match self.device().read_register::<RfCh>() {
            Ok((_, register)) => Ok(register.rf_ch()),
            Err(e) => Err(e),
        }
    }

    /// Writes the channel to RF_CH; a channel above 125 is set as 125.
    fn set_frequency(&mut self, freq_offset: u8) -> (r: Result<
        (),
        Error<<Self::Inner as Device>::Error>,
    >)
        ensures
            exchanged(
                old(self).inner(),
                final(self).inner(),
                write_frame(RfCh(capped_channel(freq_offset))),
                r is Ok,
            ),
            bus_failure(r),
    {
        let register = rf_ch(freq_offset);
        match self.device().write_register(register) {
            Ok(_) => Ok(()),
            Err(e) => Err(e),
        }
    }

    /// Writes data rate and output power to RF_SETUP. `power` runs from
    /// `0` (-18 dBm) to `3` (0 dBm).
    fn set_rf(&mut self, rate: &DataRate, power: u8) -> (r: Result<
        (),
        Error<<Self::Inner as Device>::Error>,
    >)
        requires
            power < 4,
        ensures
            exchanged(
                old(self).inner(),
                final(self).inner(),
                write_frame(rf_setup_value(*rate, power)),
                r is Ok,
            ),
            bus_failure(r),
    {
        let register = rf_setup(rate, power);
        match self.device().write_register(register) {
            Ok(_) => Ok(()),
            Err(e) => Err(e),
        }
    }

    /// Sets the CRC mode in CONFIG.
    fn set_crc(&mut self, mode: CrcMode) -> (r: Result<(), Error<<Self::Inner as Device>::Error>>)
        ensures
            reconfigured(
                old(self).inner(),
                final(self).inner(),
                mode.applied_to(old(self).inner().config()),
                r is Ok,
            ),
            bus_failure(r),
    {
        self.device().update_config(
            |config: &mut Config|
                ensures
                    *final(config) == mode.applied_to(*old(config))
                {
                    mode.set_config(config);
                },
        )
    }

    /// Sets the interrupt masks in CONFIG. A masked interrupt (`true`)
    /// does not show on the IRQ line; an unmasked one (`false`) does.
    fn set_interrupt_mask(
        &mut self,
        data_ready_rx: bool,
        data_sent_tx: bool,
        max_retransmits_tx: bool,
    ) -> (r: Result<(), Error<<Self::Inner as Device>::Error>>)
        ensures
            reconfigured(
                old(self).inner(),
                final(self).inner(),
                masked_config(
                    old(self).inner().config(),
                    data_ready_rx,
                    data_sent_tx,
                    max_retransmits_tx,
                ),
                r is Ok,
            ),
            bus_failure(r),
    {
        self.device().update_config(
            |config: &mut Config|
                ensures
                    *final(config) == masked_config(
                        *old(config),
                        data_ready_rx,
                        data_sent_tx,
                        max_retransmits_tx,
                    )
                {
                    config.set_mask_rx_dr(data_ready_rx);
                    config.set_mask_tx_ds(data_sent_tx);
                    config.set_mask_max_rt(max_retransmits_tx);
                },
        )
    }

    /// Enables the receive addresses of the pipes whose entry is `true`
    /// and disables the others.
    fn set_pipes_rx_enable(&mut self, bools: &[bool; PIPES_COUNT]) -> (r: Result<
        (),
        Error<<Self::Inner as Device>::Error>,
    >)
        ensures
            exchanged(
                old(self).inner(),
                final(self).inner(),
                write_frame(EnRxaddr(packed_flags(bools@, PIPES_COUNT as nat))),
                r is Ok,
            ),
            bus_failure(r),
    {
        match self.device().write_register(EnRxaddr::from_bools(bools)) {
            Ok(_) => Ok(()),
            Err(e) => Err(e),
        }
    }

    /// Sets the receive address of pipe `pipe_no`. Pipes 0 and 1 take an
    /// address of three to five bytes; pipes 2 to 5 keep only its least
    /// significant byte, the first, and share the others with pipe 1. A
    /// pipe number above 5 is refused before anything is put on the bus.
    fn set_rx_addr(&mut self, pipe_no: usize, addr: &[u8]) -> (r: Result<
        (),
        Error<<Self::Inner as Device>::Error>,
    >)
        requires
            pipe_no < PIPES_COUNT ==> rx_addr_fits(pipe_no as int, addr@),
        ensures
            pipe_no >= PIPES_COUNT ==> (r matches Err(Error::InvalidPipe)) && final(self).inner()
                == old(self).inner(),
            pipe_no < PIPES_COUNT ==> bus_failure(r) && exchanged(
                old(self).inner(),
                final(self).inner(),
                rx_addr_frame(pipe_no as int, addr@),
                r is Ok,
            ),
    {
        let written = match pipe_no {
            0 => {
                let register = RxAddrP0::new(addr);
                self.device().write_register(register)
            },
            1 => {
                let register = RxAddrP1::new(addr);
                self.device().write_register(register)
            },
            2 => {
                let register = RxAddrP2(addr[0]);
                assert(write_frame(register) =~= rx_addr_frame(2, addr@));
                self.device().write_register(register)
            },
            3 => {
                let register = RxAddrP3(addr[0]);
                assert(write_frame(register) =~= rx_addr_frame(3, addr@));
                self.device().write_register(register)
            },
            4 => {
                let register = RxAddrP4(addr[0]);
                assert(write_frame(register) =~= rx_addr_frame(4, addr@));
                self.device().write_register(register)
            },
            5 => {
                let register = RxAddrP5(addr[0]);
                assert(write_frame(register) =~= rx_addr_frame(5, addr@));
                self.device().write_register(register)
            },
            _ => {
                return Err(Error::InvalidPipe);
            },
        };
        match written {
            Ok(_) => Ok(()),
            Err(e) => Err(e),
        }
    }

    /// Sets the destination address of transmitted packets, of three to
    /// five bytes.
    fn set_tx_addr(&mut self, addr: &[u8]) -> (r: Result<
        (),
        Error<<Self::Inner as Device>::Error>,
    >)
        requires
            valid_address_width(addr@.len() as int),
        ensures
            exchanged(
                old(self).inner(),
                final(self).inner(),
                seq![0x20u8 | 0x10u8] + addr@,
                r is Ok,
            ),
            bus_failure(r),
    {
        let register = TxAddr::new(addr);
        match self.device().write_register(register) {
            Ok(_) => Ok(()),
            Err(e) => Err(e),
        }
    }

    /// Configures automatic retransmission; delay and count are each
    /// capped at 15. `set_auto_retransmit(0, 0)` switches it off.
    fn set_auto_retransmit(&mut self, delay: u8, count: u8) -> (r: Result<
        (),
        Error<<Self::Inner as Device>::Error>,
    >)
        ensures
            exchanged(
                old(self).inner(),
                final(self).inner(),
                write_frame(setup_retr_value(delay, count)),
                r is Ok,
            ),
            bus_failure(r),
    {
        let register = setup_retr(delay, count);
        match self.device().write_register(register) {
            Ok(_) => Ok(()),
            Err(e) => Err(e),
        }
    }

    /// Reads for each pipe whether it acknowledges packets automatically.
    fn get_auto_ack(&mut self) -> (r: Result<
        [bool; PIPES_COUNT],
        Error<<Self::Inner as Device>::Error>,
    >)
        ensures
            exchanged(old(self).inner(), final(self).inner(), read_frame::<EnAa>(), r is Ok),
            bus_failure(r),
            r matches Ok(bools) ==> bools@ == pipe_flags(
                register_in::<EnAa>(last_reply(final(self).inner().trace())).0,
            ),
    {
        match self.device().read_register::<EnAa>() {
            Ok((_, register)) => Ok(register.to_bools()),
            Err(e) => Err(e),
        }
    }

    /// Sets for each pipe whether it acknowledges packets automatically.
    fn set_auto_ack(&mut self, bools: &[bool; PIPES_COUNT]) -> (r: Result<
        (),
        Error<<Self::Inner as Device>::Error>,
    >)
        ensures
            exchanged(
                old(self).inner(),
                final(self).inner(),
                write_frame(EnAa(packed_flags(bools@, PIPES_COUNT as nat))),
                r is Ok,
            ),
            bus_failure(r),
    {
        let register = EnAa::from_bools(bools);
        match self.device().write_register(register) {
            Ok(_) => Ok(()),
            Err(e) => Err(e),
        }
    }

    /// Reads the address width in bytes: the code in SETUP_AW plus two.
    fn get_address_width(&mut self) -> (r: Result<u8, Error<<Self::Inner as Device>::Error>>)
        ensures
            exchanged(old(self).inner(), final(self).inner(), read_frame::<SetupAw>(), r is Ok),
            bus_failure(r),
            r matches Ok(width) ==> width == 2 + register_in::<SetupAw>(
                last_reply(final(self).inner().trace()),
            ).aw(),
    {
        match self.device().read_register::<SetupAw>() {
            Ok((_, register)) => {
                proof {
                    lemma_field_bounded(register.0, 0, 0x03);
                }
                Ok(2 + register.aw())
            },
            Err(e) => Err(e),
        }
    }

    /// Fetches the pending interrupts as `(RX_DR, TX_DS, MAX_RT)`: data has
    /// arrived, a packet has been sent, a packet has used up its
    /// retransmissions.
    fn get_interrupts(&mut self) -> (r: Result<
        (bool, bool, bool),
        Error<<Self::Inner as Device>::Error>,
    >)
        ensures
            exchanged(old(self).inner(), final(self).inner(), seq![0xFFu8], r is Ok),
            bus_failure(r),
            r matches Ok(flags) ==> {
                let status = status_in(last_reply(final(self).inner().trace()));
                flags == (status.rx_dr(), status.tx_ds(), status.max_rt())
            },
    {
        match self.device().send_command(&Nop) {
            Ok((status, _)) => Ok((status.rx_dr(), status.tx_ds(), status.max_rt())),
            Err(e) => Err(e),
        }
    }

    /// Clears all three interrupts by writing their flags to STATUS.
    fn clear_interrupts(&mut self) -> (r: Result<(), Error<<Self::Inner as Device>::Error>>)
        ensures
            exchanged(
                old(self).inner(),
                final(self).inner(),
                write_frame(all_interrupts()),
                r is Ok,
            ),
            bus_failure(r),
    {
        let mut clear = Status(0);
        clear.set_rx_dr(true);
        clear.set_tx_ds(true);
        clear.set_max_rt(true);
        assert(with_bit(with_bit(with_bit(0, 6, true), 5, true), 4, true) == 0x70) by (bit_vector);
        match self.device().write_register(clear) {
            Ok(_) => Ok(()),
            Err(e) => Err(e),
        }
    }

    /// Sets the payload length of each pipe: `None` for a dynamic length,
    /// `Some(len)` for a static length of `len` bytes, cut to six bits.
    ///
    /// Where any pipe is dynamic, dynamic payload length is switched on in
    /// FEATURE, whose other bits stay as they are.
    fn set_pipes_rx_lengths(&mut self, lengths: &[Option<u8>; PIPES_COUNT]) -> (r: Result<
        (),
        Error<<Self::Inner as Device>::Error>,
    >)
        ensures
            final(self).inner().config() == old(self).inner().config(),
            rx_lengths_set(
                old(self).inner().trace(),
                final(self).inner().trace(),
                lengths@,
                r is Ok,
            ),
            bus_failure(r),
    {
        let ghost before = self.inner().trace();
        let ghost script = rx_lengths_script(lengths@);

        // Enable dynamic payload lengths
        let mut bools = [true; PIPES_COUNT];
        let mut dynamic = false;
        let mut i: usize = 0;
        while i < PIPES_COUNT
            invariant
                i <= PIPES_COUNT,
                forall|j: int| 0 <= j < i ==> bools@[j] == (lengths@[j] is None),
                dynamic == (exists|j: int| 0 <= j < i && (#[trigger] lengths@[j]) is None),
            decreases PIPES_COUNT - i,
        {
            bools[i] = lengths[i].is_none();
            dynamic = dynamic || bools[i];
            i += 1;
        }
        assert(bools@ =~= dynamic_flags(lengths@));
        let dynpd = Dynpd::from_bools(&bools);
        if dynamic {
            let switched = self.device().update_register::<Feature, _, _>(
                |feature: &mut Feature|
                    ensures
                        *final(feature) == Feature(with_bit(old(feature).0, 2, true))
                    {
                        feature.set_en_dpl(true);
                    },
            );
            match switched {
                Ok(_) => {
                    assert(dpl_switched_on(before, self.inner().trace(), true));
                },
                Err(e) => {
                    assert(dpl_switched_on(before, self.inner().trace(), false));
                    return Err(e);
                },
            }
        }
        let ghost middle = self.inner().trace();
        proof {
            lemma_ran_none(middle);
            assert(script.subrange(0, 0) =~= Seq::<Seq<u8>>::empty());
        }
        write_step(self.device(), dynpd, Ghost(middle), Ghost(script), Ghost(0))?;

        // Set static payload lengths
        let mut register = RxPwP0(0);
        register.set(lengths[0].unwrap_or(0));
        proof {
            lemma_cut_to_six_bits(lengths@[0].unwrap_or(0));
        }
        write_step(self.device(), register, Ghost(middle), Ghost(script), Ghost(1))?;

        let mut register = RxPwP1(0);
        register.set(lengths[1].unwrap_or(0));
        proof {
            lemma_cut_to_six_bits(lengths@[1].unwrap_or(0));
        }
        write_step(self.device(), register, Ghost(middle), Ghost(script), Ghost(2))?;

        let mut register = RxPwP2(0);
        register.set(lengths[2].unwrap_or(0));
        proof {
            lemma_cut_to_six_bits(lengths@[2].unwrap_or(0));
        }
        write_step(self.device(), register, Ghost(middle), Ghost(script), Ghost(3))?;

        let mut register = RxPwP3(0);
        register.set(lengths[3].unwrap_or(0));
        proof {
            lemma_cut_to_six_bits(lengths@[3].unwrap_or(0));
        }
        write_step(self.device(), register, Ghost(middle), Ghost(script), Ghost(4))?;

        let mut register = RxPwP4(0);
        register.set(lengths[4].unwrap_or(0));
        proof {
            lemma_cut_to_six_bits(lengths@[4].unwrap_or(0));
        }
        write_step(self.device(), register, Ghost(middle), Ghost(script), Ghost(5))?;

        let mut register = RxPwP5(0);
        register.set(lengths[5].unwrap_or(0));
        proof {
            lemma_cut_to_six_bits(lengths@[5].unwrap_or(0));
        }
        write_step(self.device(), register, Ghost(middle), Ghost(script), Ghost(6))?;

        proof {
            assert(script.subrange(0, 7) =~= script);
            if dynamic {
                assert(dpl_switched_on(before, middle, true));
            }
        }

        Ok(())
    }
}

} // verus!
