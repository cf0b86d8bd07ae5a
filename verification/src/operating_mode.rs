//! Configuring the chip as a whole, as a receiver or as a transmitter.

use crate::command::write_frame;
use crate::config::{
    bus_failure, capped_channel, rf_ch, rf_setup, rf_setup_value, setup_retr, setup_retr_value,
    DataRate,
};
use crate::device::{write_step, Device, DigitalOutput, FullDuplex};
use crate::error::Error;
use crate::radio::NRF24L01;
use crate::registers::{
    packed_flags, Config, Dynpd, EnAa, EnRxaddr, Feature, Register, RfCh, RxAddrP0, RxAddrP1,
    RxAddrP2, RxAddrP3, RxAddrP4, RxAddrP5, TxAddr,
};
use crate::trace::{aborted, completed, exchanged_all, lemma_prefix_of, lemma_ran_none, ran, Event};
use vstd::array::array_as_slice;
use vstd::prelude::*;

verus! {

/// Supported power amplifier levels.
#[derive(Debug, PartialEq, Eq, Structural, Copy, Clone)]
pub enum PALevel {
    /// -18 dBm, 7.0 mA DC current consumption, few meters range.
    Min,
    /// -12 dBM, 7.5 mA DC current consumption.
    Low,
    /// -6 dBm, 9.0 mA DC current consumption.
    High,
    /// 0 dBm, 11.3 mA DC current consumption, up to 100 meters range.
    Max,
}

impl Default for PALevel {
    fn default() -> (level: PALevel)
        ensures
            level == PALevel::Min,
    {
        PALevel::Min
    }
}

impl PALevel {
    /// The level as the two bits of RF_PWR.
    #[verifier::allow_in_spec]
    pub fn power(self) -> u8
        returns
            match self {
                PALevel::Min => 0u8,
                PALevel::Low => 1u8,
                PALevel::High => 2u8,
                PALevel::Max => 3u8,
            },
    {
        match self {
            PALevel::Min => 0,
            PALevel::Low => 1,
            PALevel::High => 2,
            PALevel::Max => 3,
        }
    }
}

/// Receiver mode configuration
#[derive(Debug)]
pub struct RXConfig {
    /// data rate, defaults to `DataRate::R1Mbps`.
    pub data_rate: DataRate,
    /// channel, in the range [0, 125], defaults to 0.
    ///
    /// The RF channel frequency F is set according to the formula:
    ///
    /// F = 2400 + `channel` Mhz
    ///
    /// Any `channel` value above 125 is capped to 125.
    pub channel: u8,
    /// Powel level, defaults to `PALevel::Min`.
    pub pa_level: PALevel,
    /// Pipe 0 address
    ///
    /// This is the receiving base address.
    ///
    /// Typically, this is the only address you need to set, unless you
    /// need a multiceiver configuration. In that case, you can enable up to
    /// five additional receiving pipes.
    ///
    /// The address is in little endian order: the first byte is the least significant one.
    ///
    /// You must provide a valid address for Pipe 0.
    pub pipe0_address: [u8; 5],
    /// Pipe 1 address, defaults to None (disabled)
    ///
    /// All pipes 2-5 share the 4 most significant bytes with the pipe 1 address, so
    /// you only need to provide the least significant byte to enable one of those pipes or
    /// set it to None to disable it (default).
    pub pipe1_address: Option<[u8; 5]>,
    /// Pipe 2 LSB, defaults to None (disabled)
    pub pipe2_addr_lsb: Option<u8>,
    /// Pipe 3 LSB, defaults to None (disabled)
    pub pipe3_addr_lsb: Option<u8>,
    /// Pipe 4 LSB, defaults to None (disabled)
    pub pipe4_addr_lsb: Option<u8>,
    /// Pipe 5 LSB, defaults to None (disabled)
    pub pipe5_addr_lsb: Option<u8>,
}

impl Default for RXConfig {
    fn default() -> (config: RXConfig)
        ensures
            config.data_rate == DataRate::R1Mbps,
            config.channel == 0,
            config.pa_level == PALevel::Min,
            config.pipe0_address@ == seq![0u8, 0u8, 0u8, 0u8, 0u8],
            config.pipe1_address is None,
            config.pipe2_addr_lsb is None,
            config.pipe3_addr_lsb is None,
            config.pipe4_addr_lsb is None,
            config.pipe5_addr_lsb is None,
    {
        let config = RXConfig {
            data_rate: DataRate::R1Mbps,
            channel: 0,
            pa_level: PALevel::Min,
            pipe0_address: [0, 0, 0, 0, 0],
            pipe1_address: None,
            pipe2_addr_lsb: None,
            pipe3_addr_lsb: None,
            pipe4_addr_lsb: None,
            pipe5_addr_lsb: None,
        };
        assert(config.pipe0_address@ =~= seq![0u8, 0u8, 0u8, 0u8, 0u8]);
        config
    }
}

/// Transmitter mode configuration
#[derive(Debug)]
pub struct TXConfig {
    /// data rate, defaults to `DataRate::R1Mbps`
    ///
    /// Both Transmitter and Receiver ends should use the same data rate.
    pub data_rate: DataRate,
    /// channel, in the range [0, 125], defaults to 0.
    ///
    /// The RF channel frequency F is set according to the formula:
    ///
    /// F = 2400 + `channel` Mhz
    ///
    /// Any `channel` value above 125 is capped to 125.
    ///
    /// Both Transmitter and Receiver ends should use the same channel.
    pub channel: u8,
    /// Powel level, defaults to `PALevel::Min`.
    pub pa_level: PALevel,
    /// Max number of retries before giving up when trying to send a packet.
    ///
    /// 0 <= `max_retries` <= 15. Default is 0. Any value above 15 is capped to 15.
    pub max_retries: u8,
    /// Delay (in steps of 250µs) between retries.
    ///
    /// Actual delay = 250 + `retry_delay` * 250 [µs]
    ///
    /// 0 <= `retry_delay` <= 15. Default is 0, recommended is > 1.
    /// Any value above 15 is capped to 15.
    pub retry_delay: u8,
    /// Destination address, should match an address on the receiver end.
    ///
    /// This is also the address on which ACK packets are received.
    /// The address is in little endian order: the first byte is the least significant one.
    pub pipe0_address: [u8; 5],
}

impl Default for TXConfig {
    fn default() -> (config: TXConfig)
        ensures
            config.data_rate == DataRate::R1Mbps,
            config.channel == 0,
            config.pa_level == PALevel::Min,
            config.max_retries == 0,
            config.retry_delay == 0,
            config.pipe0_address@ == seq![0u8, 0u8, 0u8, 0u8, 0u8],
    {
        let config = TXConfig {
            data_rate: DataRate::R1Mbps,
            channel: 0,
            pa_level: PALevel::Min,
            max_retries: 0,
            retry_delay: 0,
            pipe0_address: [0, 0, 0, 0, 0],
        };
        assert(config.pipe0_address@ =~= seq![0u8, 0u8, 0u8, 0u8, 0u8]);
        config
    }
}

/// The Operating mode, either Receiver or Transmitter.
#[derive(Debug)]
pub enum OperatingMode {
    /// Primary receiver
    RX(RXConfig),
    /// Primary transmitter
    TX(TXConfig),
}

/// The frame that writes a full address of five bytes to the address
/// register at `register`.
pub open spec fn full_address_frame(register: u8, address: [u8; 5]) -> Seq<u8> {
    seq![0x20u8 | register] + address@
}

/// The frames that set the address of pipe 1: one where the pipe has an
/// address, none where it has not.
pub open spec fn pipe1_frames(address: Option<[u8; 5]>) -> Seq<Seq<u8>> {
    match address {
        Some(address) => seq![full_address_frame(0x0B, address)],
        None => Seq::empty(),
    }
}

/// The frames that set the last address byte of one of pipes 2 to 5, whose
/// address register is at `register`: one where the pipe has one, none
/// where it has not.
pub open spec fn lsb_frames(register: u8, lsb: Option<u8>) -> Seq<Seq<u8>> {
    match lsb {
        Some(lsb) => seq![seq![0x20u8 | register, lsb]],
        None => Seq::empty(),
    }
}

/// The pipes that a receiver configuration enables: pipe 0, and each other
/// pipe that has an address.
pub open spec fn enabled_pipes(config: RXConfig) -> Seq<bool> {
    seq![
        true,
        config.pipe1_address is Some,
        config.pipe2_addr_lsb is Some,
        config.pipe3_addr_lsb is Some,
        config.pipe4_addr_lsb is Some,
        config.pipe5_addr_lsb is Some,
    ]
}

/// What is written first whatever the mode: automatic acknowledgement and
/// dynamic payload length on all six pipes, and in FEATURE dynamic payload
/// length and payloads in acknowledgements.
pub open spec fn common_script() -> Seq<Seq<u8>> {
    seq![
        write_frame(EnAa(0b0011_1111)),
        write_frame(Dynpd(0b0011_1111)),
        write_frame(Feature(0b0000_0110)),
    ]
}

/// What is written for the pipes of a receiver beyond pipe 0: the address
/// of each that has one, then the set of enabled pipes.
pub open spec fn pipes_script(config: RXConfig) -> Seq<Seq<u8>> {
    pipe1_frames(config.pipe1_address) + (lsb_frames(0x0C, config.pipe2_addr_lsb) + (lsb_frames(
        0x0D,
        config.pipe3_addr_lsb,
    ) + (lsb_frames(0x0E, config.pipe4_addr_lsb) + (lsb_frames(0x0F, config.pipe5_addr_lsb)
        + seq![write_frame(EnRxaddr(packed_flags(enabled_pipes(config), 6)))]))))
}

/// The script that configures a receiver starts with the three writes
/// common to both modes and three of its own, and goes on with what is
/// written for the further pipes.
pub proof fn lemma_receiver_script(config: RXConfig)
    ensures
        ({
            let script = common_script() + receiver_script(config);
            &&& script.subrange(0, 6).len() == 6
            &&& script == script.subrange(0, 6) + pipes_script(config)
            &&& script[3] == write_frame(rf_setup_value(config.data_rate, config.pa_level.power()))
            &&& script[4] == write_frame(RfCh(capped_channel(config.channel)))
            &&& script[5] == full_address_frame(0x0A, config.pipe0_address)
        }),
{
    let script = common_script() + receiver_script(config);
    assert(script =~= script.subrange(0, 6) + pipes_script(config));
}

/// The frame that writes the last address byte of a pipe is the one that
/// the script of a receiver holds for it.
pub proof fn lemma_lsb_frames<R: Register>(register: Option<R>, lsb: Option<u8>)
    requires
        register is Some <==> lsb is Some,
        register matches Some(register) ==> register.bytes() == seq![lsb->0],
    ensures
        match register {
            Some(register) => lsb_frames(R::address(), lsb) == seq![write_frame(register)],
            None => lsb_frames(R::address(), lsb) == Seq::<Seq<u8>>::empty(),
        },
{
    if let Some(register) = register {
        assert(write_frame(register) =~= seq![0x20u8 | R::address(), lsb->0]);
    }
}

/// What is written to configure a receiver: data rate and power, channel,
/// the address of pipe 0, the address of each further pipe that has one,
/// and the set of enabled pipes.
pub open spec fn receiver_script(config: RXConfig) -> Seq<Seq<u8>> {
    seq![
        write_frame(rf_setup_value(config.data_rate, config.pa_level.power())),
        write_frame(RfCh(capped_channel(config.channel))),
        full_address_frame(0x0A, config.pipe0_address),
    ] + pipes_script(config)
}

/// What is written to configure a transmitter: data rate and power,
/// channel, the destination address as address of pipe 0, where the
/// acknowledgements arrive, and as transmit address, pipe 0 as the only
/// enabled pipe, and the retransmission settings, each capped at 15.
pub open spec fn transmitter_script(config: TXConfig) -> Seq<Seq<u8>> {
    seq![
        write_frame(rf_setup_value(config.data_rate, config.pa_level.power())),
        write_frame(RfCh(capped_channel(config.channel))),
        full_address_frame(0x0A, config.pipe0_address),
        full_address_frame(0x10, config.pipe0_address),
        write_frame(EnRxaddr(1)),
        write_frame(setup_retr_value(config.retry_delay, config.max_retries)),
    ]
}

/// Everything that is written to configure the chip for a mode, but for
/// CONFIG itself.
pub open spec fn configure_script(mode: OperatingMode) -> Seq<Seq<u8>> {
    common_script() + match mode {
        OperatingMode::RX(config) => receiver_script(config),
        OperatingMode::TX(config) => transmitter_script(config),
    }
}

/// CONFIG for a mode, powered up. A receiver has a two-byte CRC, the
/// receiver role, and only the data-ready interrupt on the IRQ line; a
/// transmitter has a two-byte CRC, the transmitter role, and the data-sent
/// and retransmit-limit interrupts on the IRQ line.
pub open spec fn mode_config(mode: OperatingMode) -> Config {
    match mode {
        OperatingMode::RX(_) => Config(0b0011_1111),
        OperatingMode::TX(_) => Config(0b0100_1110),
    }
}

/// What configuring does. CE is lowered, the script of the mode is run,
/// and the value of the mode is written to CONFIG, which powers the chip
/// up, whatever CONFIG held before. The first exchange that fails ends it,
/// and the shadow of CONFIG changes only when CONFIG has been written.
pub open spec fn configured(
    shadow: Config,
    before: Seq<Event>,
    after: Seq<Event>,
    after_shadow: Config,
    mode: OperatingMode,
    ok: bool,
) -> bool {
    exists|middle: Seq<Event>, all: bool|
        {
            &&& #[trigger] ran(before.push(Event::CeLow), middle, configure_script(mode), all)
            &&& if all {
                if ok {
                    &&& completed(middle, after, write_frame(mode_config(mode)))
                    &&& after_shadow == mode_config(mode)
                } else {
                    &&& aborted(middle, after, write_frame(mode_config(mode)))
                    &&& after_shadow == shadow
                }
            } else {
                &&& !ok
                &&& after == middle
                &&& after_shadow == shadow
            }
        }
}

impl<CE: DigitalOutput, CSN: DigitalOutput, SPI: FullDuplex> NRF24L01<CE, CSN, SPI> {
    /// Writes data rate and power level as step `k` of `script`.
    fn setup_rf(
        &mut self,
        rate: DataRate,
        level: PALevel,
        Ghost(start): Ghost<Seq<Event>>,
        Ghost(script): Ghost<Seq<Seq<u8>>>,
        Ghost(k): Ghost<int>,
    ) -> (r: Result<(), Error<SPI::Error>>)
        requires
            0 <= k < script.len(),
            script[k] == write_frame(rf_setup_value(rate, level.power())),
            exchanged_all(start, old(self).trace(), script.subrange(0, k)),
        ensures
            final(self).config() == old(self).config(),
            match r {
                Ok(_) => exchanged_all(start, final(self).trace(), script.subrange(0, k + 1)),
                Err(e) => e is SpiError && ran(start, final(self).trace(), script, false),
            },
    {
        let register = rf_setup(&rate, level.power());
        write_step(self, register, Ghost(start), Ghost(script), Ghost(k))
    }

    /// Writes the channel, capped at 125, as step `k` of `script`.
    fn set_channel(
        &mut self,
        channel: u8,
        Ghost(start): Ghost<Seq<Event>>,
        Ghost(script): Ghost<Seq<Seq<u8>>>,
        Ghost(k): Ghost<int>,
    ) -> (r: Result<(), Error<SPI::Error>>)
        requires
            0 <= k < script.len(),
            script[k] == write_frame(RfCh(capped_channel(channel))),
            exchanged_all(start, old(self).trace(), script.subrange(0, k)),
        ensures
            final(self).config() == old(self).config(),
            match r {
                Ok(_) => exchanged_all(start, final(self).trace(), script.subrange(0, k + 1)),
                Err(e) => e is SpiError && ran(start, final(self).trace(), script, false),
            },
    {
        let register = rf_ch(channel);
        write_step(self, register, Ghost(start), Ghost(script), Ghost(k))
    }

    /// Writes the five bytes of `address` to the address register `R` as
    /// step `k` of `script`.
    fn set_full_address<R: Register>(
        &mut self,
        register: R,
        address: [u8; 5],
        Ghost(start): Ghost<Seq<Event>>,
        Ghost(script): Ghost<Seq<Seq<u8>>>,
        Ghost(k): Ghost<int>,
    ) -> (r: Result<(), Error<SPI::Error>>)
        requires
            register.wf(),
            register.bytes() == address@,
            0 <= k < script.len(),
            script[k] == full_address_frame(R::address(), address),
            exchanged_all(start, old(self).trace(), script.subrange(0, k)),
        ensures
            final(self).config() == old(self).config(),
            match r {
                Ok(_) => exchanged_all(start, final(self).trace(), script.subrange(0, k + 1)),
                Err(e) => e is SpiError && ran(start, final(self).trace(), script, false),
            },
    {
        write_step(self, register, Ghost(start), Ghost(script), Ghost(k))
    }

    /// Writes `register`, where there is one, as the next piece of
    /// `script`, of which `k` steps have been run and `rest` comes after
    /// the piece.
    fn write_if_some<R: Register>(
        &mut self,
        register: Option<R>,
        Ghost(start): Ghost<Seq<Event>>,
        Ghost(script): Ghost<Seq<Seq<u8>>>,
        Ghost(k): Ghost<int>,
        Ghost(piece): Ghost<Seq<Seq<u8>>>,
        Ghost(rest): Ghost<Seq<Seq<u8>>>,
    ) -> (r: Result<(), Error<SPI::Error>>)
        requires
            match register {
                Some(register) => register.wf() && piece == seq![write_frame(register)],
                None => piece == Seq::<Seq<u8>>::empty(),
            },
            0 <= k,
            script.subrange(0, k).len() == k,
            script == script.subrange(0, k) + (piece + rest),
            exchanged_all(start, old(self).trace(), script.subrange(0, k)),
        ensures
            final(self).config() == old(self).config(),
            match r {
                Ok(_) => {
                    &&& exchanged_all(
                        start,
                        final(self).trace(),
                        script.subrange(0, k + piece.len()),
                    )
                    &&& script.subrange(0, k + piece.len()).len() == k + piece.len()
                    &&& script == script.subrange(0, k + piece.len()) + rest
                },
                Err(e) => e is SpiError && ran(start, final(self).trace(), script, false),
            },
    {
        match register {
            Some(register) => {
                proof {
                    assert(script =~= script.subrange(0, k) + seq![write_frame(register)] + rest);
                    lemma_prefix_of(script, script.subrange(0, k), write_frame(register), rest);
                }
                write_step(self, register, Ghost(start), Ghost(script), Ghost(k))?;
                assert(script =~= script.subrange(0, k + 1) + rest);
                Ok(())
            },
            None => {
                assert(script =~= script.subrange(0, k) + rest);
                Ok(())
            },
        }
    }

    /// Runs the receiver's part of the script that configures the chip.
    fn configure_receiver(
        &mut self,
        config: &RXConfig,
        Ghost(start): Ghost<Seq<Event>>,
        Ghost(script): Ghost<Seq<Seq<u8>>>,
    ) -> (r: Result<(), Error<SPI::Error>>)
        requires
            script == common_script() + receiver_script(*config),
            exchanged_all(start, old(self).trace(), script.subrange(0, 3)),
        ensures
            final(self).config() == old(self).config(),
            ran(start, final(self).trace(), script, r is Ok),
            bus_failure(r),
    {
        proof {
            lemma_receiver_script(*config);
        }
        // set data rate
        // set PA level
        self.setup_rf(config.data_rate, config.pa_level, Ghost(start), Ghost(script), Ghost(3))?;
        // set channel
        self.set_channel(config.channel, Ghost(start), Ghost(script), Ghost(4))?;
        // set Pipe 0 address
        let address = config.pipe0_address;
        let register = RxAddrP0::new(array_as_slice(&address));
        self.set_full_address(register, address, Ghost(start), Ghost(script), Ghost(5))?;
        // further pipes
        self.configure_pipes(config, Ghost(start), Ghost(script))
    }

    /// Sets the addresses of pipes 1 to 5, as far as they have one, and
    /// enables the pipes that have an address.
    fn configure_pipes(
        &mut self,
        config: &RXConfig,
        Ghost(start): Ghost<Seq<Event>>,
        Ghost(script): Ghost<Seq<Seq<u8>>>,
    ) -> (r: Result<(), Error<SPI::Error>>)
        requires
            script.subrange(0, 6).len() == 6,
            script == script.subrange(0, 6) + pipes_script(*config),
            exchanged_all(start, old(self).trace(), script.subrange(0, 6)),
        ensures
            final(self).config() == old(self).config(),
            ran(start, final(self).trace(), script, r is Ok),
            bus_failure(r),
    {
        let ghost piece1 = pipe1_frames(config.pipe1_address);
        let ghost piece2 = lsb_frames(0x0C, config.pipe2_addr_lsb);
        let ghost piece3 = lsb_frames(0x0D, config.pipe3_addr_lsb);
        let ghost piece4 = lsb_frames(0x0E, config.pipe4_addr_lsb);
        let ghost piece5 = lsb_frames(0x0F, config.pipe5_addr_lsb);
        let ghost last = seq![write_frame(EnRxaddr(packed_flags(enabled_pipes(*config), 6)))];
        let ghost tail5 = piece5 + last;
        let ghost tail4 = piece4 + tail5;
        let ghost tail3 = piece3 + tail4;
        let ghost tail2 = piece2 + tail3;

        // Pipe 1
        let ghost k: int = 6;
        let register = match config.pipe1_address {
            Some(address) => Some(RxAddrP1::new(array_as_slice(&address))),
            None => None,
        };
        self.write_if_some(
            register,
            Ghost(start),
            Ghost(script),
            Ghost(k),
            Ghost(piece1),
            Ghost(tail2),
        )?;
        // Pipe 2
        let ghost k = k + piece1.len();
        let register = match config.pipe2_addr_lsb {
            Some(lsb) => Some(RxAddrP2(lsb)),
            None => None,
        };
        proof {
            lemma_lsb_frames(register, config.pipe2_addr_lsb);
        }
        self.write_if_some(
            register,
            Ghost(start),
            Ghost(script),
            Ghost(k),
            Ghost(piece2),
            Ghost(tail3),
        )?;
        // Pipe 3
        let ghost k = k + piece2.len();
        let register = match config.pipe3_addr_lsb {
            Some(lsb) => Some(RxAddrP3(lsb)),
            None => None,
        };
        proof {
            lemma_lsb_frames(register, config.pipe3_addr_lsb);
        }
        self.write_if_some(
            register,
            Ghost(start),
            Ghost(script),
            Ghost(k),
            Ghost(piece3),
            Ghost(tail4),
        )?;
        // Pipe 4
        let ghost k = k + piece3.len();
        let register = match config.pipe4_addr_lsb {
            Some(lsb) => Some(RxAddrP4(lsb)),
            None => None,
        };
        proof {
            lemma_lsb_frames(register, config.pipe4_addr_lsb);
        }
        self.write_if_some(
            register,
            Ghost(start),
            Ghost(script),
            Ghost(k),
            Ghost(piece4),
            Ghost(tail5),
        )?;
        // Pipe 5
        let ghost k = k + piece4.len();
        let register = match config.pipe5_addr_lsb {
            Some(lsb) => Some(RxAddrP5(lsb)),
            None => None,
        };
        proof {
            lemma_lsb_frames(register, config.pipe5_addr_lsb);
        }
        self.write_if_some(
            register,
            Ghost(start),
            Ghost(script),
            Ghost(k),
            Ghost(piece5),
            Ghost(last),
        )?;
        // Enable configured pipes
        let ghost k = k + piece5.len();
        let enabled = [
            true,
            config.pipe1_address.is_some(),
            config.pipe2_addr_lsb.is_some(),
            config.pipe3_addr_lsb.is_some(),
            config.pipe4_addr_lsb.is_some(),
            config.pipe5_addr_lsb.is_some(),
        ];
        assert(enabled@ =~= enabled_pipes(*config));
        let register = EnRxaddr::from_bools(&enabled);
        proof {
            lemma_prefix_of(script, script.subrange(0, k), write_frame(register), Seq::empty());
        }
        write_step(self, register, Ghost(start), Ghost(script), Ghost(k))?;
        assert(script.subrange(0, k + 1) =~= script);
        Ok(())
    }

    /// Runs the transmitter's part of the script that configures the chip.
    fn configure_transmitter(
        &mut self,
        config: &TXConfig,
        Ghost(start): Ghost<Seq<Event>>,
        Ghost(script): Ghost<Seq<Seq<u8>>>,
    ) -> (r: Result<(), Error<SPI::Error>>)
        requires
            script == common_script() + transmitter_script(*config),
            exchanged_all(start, old(self).trace(), script.subrange(0, 3)),
        ensures
            final(self).config() == old(self).config(),
            ran(start, final(self).trace(), script, r is Ok),
            bus_failure(r),
    {
        // set data rate
        // set PA level
        self.setup_rf(config.data_rate, config.pa_level, Ghost(start), Ghost(script), Ghost(3))?;
        // set channel
        self.set_channel(config.channel, Ghost(start), Ghost(script), Ghost(4))?;
        // set destination and Pipe 0 address
        let address = config.pipe0_address;
        let register = RxAddrP0::new(array_as_slice(&address));
        self.set_full_address(register, address, Ghost(start), Ghost(script), Ghost(5))?;
        let register = TxAddr::new(array_as_slice(&address));
        self.set_full_address(register, address, Ghost(start), Ghost(script), Ghost(6))?;
        // disable other pipes
        write_step(self, EnRxaddr(1), Ghost(start), Ghost(script), Ghost(7))?;
        // retransmission settings
        let register = setup_retr(config.retry_delay, config.max_retries);
        write_step(self, register, Ghost(start), Ghost(script), Ghost(8))?;
        assert(script.subrange(0, 9) =~= script);
        Ok(())
    }

    /// Configure the device as Primary Receiver (PRX) or Primary Transmitter (PTX),
    /// set all its properties for proper operation and power it up.
    ///
    /// The device remain in standby until `self.listen()` (RX mode)
    /// or `self.send()` (TX mode) is called.
    ///
    /// All commands work when the device is in standby (recommended) as well as
    /// active state.
    pub fn configure(&mut self, mode: &OperatingMode) -> (r: Result<(), Error<SPI::Error>>)
        ensures
            configured(
                old(self).config(),
                old(self).trace(),
                final(self).trace(),
                final(self).config(),
                *mode,
                r is Ok,
            ),
            bus_failure(r),
    {
        let ghost script = configure_script(*mode);
        self.ce_disable();
        let ghost start = self.trace();
        proof {
            lemma_ran_none(start);
            assert(script.subrange(0, 0) =~= Seq::<Seq<u8>>::empty());
        }
        // auto acknowlegement
        let mut written = write_step(
            self,
            EnAa(0b0011_1111),
            Ghost(start),
            Ghost(script),
            Ghost(0),
        );
        // dynamic payload and payload with ACK
        if written.is_ok() {
            written = write_step(
                self,
                Dynpd(0b0011_1111),
                Ghost(start),
                Ghost(script),
                Ghost(1),
            );
        }
        if written.is_ok() {
            written = write_step(
                self,
                Feature(0b0000_0110),
                Ghost(start),
                Ghost(script),
                Ghost(2),
            );
        }
        // Mode specific configuration
        if written.is_ok() {
            written = match mode {
                OperatingMode::RX(config) => self.configure_receiver(
                    config,
                    Ghost(start),
                    Ghost(script),
                ),
                OperatingMode::TX(config) => self.configure_transmitter(
                    config,
                    Ghost(start),
                    Ghost(script),
                ),
            };
        }
        assert(ran(start, self.trace(), script, written is Ok));
        match written {
            Ok(_) => {},
            Err(e) => {
                return Err(e);
            },
        }
        // Go!
        let target = match mode {
            OperatingMode::RX(_) => Config(0b0011_1111),
            OperatingMode::TX(_) => Config(0b0100_1110),
        };
        self.write_config(target)
    }
}

} // verus!
