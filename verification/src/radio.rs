//! The transport: the chip behind its two lines and its bus.

use crate::bits::{lemma_field_bounded, with_bit};
use crate::ce::Level;
use crate::command::{
    ack_payload_opcode, read_frame, write_frame, Command, FlushRx, FlushTx, ReadRegister,
    WriteAckPayload, WriteRegister, WriteTxPayload, MAX_FRAME_BYTES,
};
use crate::config::{bus_failure, config_rewritten, exchanged, Configuration};
use crate::device::{register_in, Delay, Device, DigitalOutput, FullDuplex};
use crate::error::Error;
use crate::payload::MAX_PAYLOAD_BYTES;
use crate::registers::{Config, FifoStatus, Register, SetupAw, Status, PIPES_COUNT};
use crate::standby::{powered_up, StandbyMode};
use crate::trace::{
    aborted, broke_off, completed, completed_at, exchange, exchanged_all, failed_exchange,
    last_reply, lemma_grown_keeps, lemma_ran_none, lemma_ran_one_more, lemma_ran_then_failed,
    reply_at, Event,
};
use crate::tx::{queue_payload, queued, tx_payload_frame};
use crate::wiring::{first_kept, LineFault, Wiring};
use vstd::array::array_as_slice;
use vstd::prelude::*;
use vstd::slice::slice_subrange;

verus! {

/// What driving CE to `level` shows as.
pub open spec fn level_event(level: Level) -> Event {
    match level {
        Level::High => Event::CeHigh,
        Level::Low => Event::CeLow,
    }
}

/// `config` with the power bit cleared.
pub open spec fn powered_down(config: Config) -> Config {
    Config(with_bit(config.0, 1, false))
}

/// CONFIG as it is first written: CRC on, everything else off.
pub open spec fn initial_config() -> Config {
    Config(0b0000_1000)
}

/// Whether SETUP_AW holds what an nRF24L01 can hold there: a code for an
/// address width of three to five bytes.
pub open spec fn plausible(setup_aw: SetupAw) -> bool {
    3 <= 2 + setup_aw.aw() <= 5
}

/// What starting the chip puts on the wire: the first CONFIG, a read of
/// SETUP_AW, and CONFIG with the power bit set.
pub open spec fn start_script() -> Seq<Seq<u8>> {
    seq![
        write_frame(initial_config()),
        read_frame::<SetupAw>(),
        write_frame(powered_up(initial_config())),
    ]
}

/// What starting the chip does and returns, for a shadow of CONFIG that
/// held `shadow`. The first CONFIG is written and SETUP_AW is read. Where
/// it does not hold what an nRF24L01 can hold there, the result is
/// `NotConnected` and nothing more is done; else CONFIG is written with the
/// power bit set. A failure of the bus ends it where it occurs. The shadow
/// holds what was last written to CONFIG.
pub open spec fn started<E>(
    shadow: Config,
    before: Seq<Event>,
    after: Seq<Event>,
    after_shadow: Config,
    r: Result<(), Error<E>>,
) -> bool {
    let at = before.len() as int;
    let read = register_in::<SetupAw>(reply_at(after, at + 3));
    match r {
        Ok(_) => {
            &&& exchanged_all(before, after, start_script())
            &&& plausible(read)
            &&& after_shadow == powered_up(initial_config())
        },
        Err(Error::NotConnected) => {
            &&& exchanged_all(before, after, start_script().subrange(0, 2))
            &&& !plausible(read)
            &&& after_shadow == initial_config()
        },
        Err(Error::SpiError(_)) => {
            &&& broke_off(before, after, start_script())
            &&& after.len() == at + 9 ==> plausible(read)
            &&& after_shadow == (if after.len() == at + 3 {
                shadow
            } else {
                initial_config()
            })
        },
        Err(_) => false,
    }
}

/// What a device has done that has been set up: CE low and CSN high, the
/// first CONFIG written, SETUP_AW read and found plausible, and the chip
/// powered up.
pub open spec fn set_up<D: Device>(device: D) -> bool {
    let trace = device.trace();
    &&& trace.len() == 11
    &&& trace[0] == Event::CeLow
    &&& trace[1] == Event::CsnHigh
    &&& completed_at(trace, 2, write_frame(initial_config()))
    &&& completed_at(trace, 5, read_frame::<SetupAw>())
    &&& plausible(register_in::<SetupAw>(reply_at(trace, 5)))
    &&& completed_at(trace, 8, write_frame(powered_up(initial_config())))
    &&& device.config() == powered_up(initial_config())
}

/// What queueing a payload does. A payload of more than 32 bytes is
/// refused with nothing done, and so is, for a receiver, a pipe above 5.
/// A transmitter queues the payload for transmission, whatever the pipe; a
/// receiver queues it for the acknowledgement of the next packet on the
/// pipe. A full queue refuses it.
pub open spec fn pushed<E>(
    shadow: Config,
    before: Seq<Event>,
    after: Seq<Event>,
    pipe_num: u8,
    data: Seq<u8>,
    r: Result<(), Error<E>>,
) -> bool {
    if data.len() > MAX_PAYLOAD_BYTES {
        &&& r matches Err(Error::PayloadTooLarge)
        &&& after == before
    } else if shadow.prim_rx() && pipe_num >= PIPES_COUNT {
        &&& r matches Err(Error::InvalidPipe)
        &&& after == before
    } else if shadow.prim_rx() {
        queued(before, after, seq![ack_payload_opcode(pipe_num)] + data, r)
    } else {
        queued(before, after, tx_payload_frame(data), r)
    }
}

/// The chip behind its CE line, its CSN line and its bus, with a shadow of
/// its CONFIG register.
pub struct NRF24L01<CE: DigitalOutput, CSN: DigitalOutput, SPI> {
    wiring: Wiring<CE, CSN, SPI>,
    config: Config,
}

impl<CE: DigitalOutput, CSN: DigitalOutput, SPI: FullDuplex> NRF24L01<CE, CSN, SPI> {
    /// The level that CE was last driven to without a failure.
    pub closed spec fn ce_level(&self) -> Level {
        self.wiring.ce_level()
    }

    /// The first failure of a line since one was last taken.
    pub closed spec fn line_fault(&self) -> Option<LineFault<CE::Error, CSN::Error>> {
        self.wiring.line_fault()
    }

    /// Hands out the first failure of the CE or CSN line since the last
    /// call, if there was one. The calls that drive the lines go on
    /// whatever the lines do, as the chip gives no answer to them; this is
    /// where a caller learns that a line did not follow.
    pub fn take_line_fault(&mut self) -> (fault: Option<LineFault<CE::Error, CSN::Error>>)
        ensures
            fault == old(self).line_fault(),
            final(self).line_fault() is None,
            final(self).trace() == old(self).trace(),
            final(self).config() == old(self).config(),
            final(self).ce_level() == old(self).ce_level(),
    {
        self.wiring.take_line_fault()
    }

    /// Takes over the lines and the bus and sets the chip up: lowers CE,
    /// raises CSN, and starts the chip as [`NRF24L01::start`] does. The
    /// chip is then in standby.
    pub fn new(ce: CE, csn: CSN, spi: SPI) -> (r: Result<StandbyMode<Self>, Error<SPI::Error>>)
        ensures
            match r {
                Ok(standby) => set_up(standby.inner()),
                Err(e) => e is SpiError || e is NotConnected,
            },
    {
        let mut wiring = Wiring::new(ce, csn, spi);
        wiring.ce_low();
        wiring.deselect();
        let mut device = NRF24L01 { wiring, config: Config(0b0000_1000) };
        let ghost before = device.trace();
        match device.start() {
            Ok(_) => {
                proof {
                    let after = device.trace();
                    assert(before.len() == 2 && before[0] == Event::CeLow && before[1]
                        == Event::CsnHigh);
                    assert(after.subrange(0, 2) == before);
                    assert(after[0] == after.subrange(0, 2)[0]);
                    assert(after[1] == after.subrange(0, 2)[1]);
                    assert(start_script()[0] == write_frame(initial_config()));
                    assert(start_script()[1] == read_frame::<SetupAw>());
                    assert(start_script()[2] == write_frame(powered_up(initial_config())));
                    assert(completed_at(after, 2, start_script()[0]));
                    assert(completed_at(after, 5, start_script()[1]));
                    assert(completed_at(after, 8, start_script()[2]));
                }
                Ok(StandbyMode::new(device))
            },
            Err(e) => Err(e),
        }
    }

    /// Starts the chip: writes a first CONFIG, checks that the chip
    /// answers like an nRF24L01, and powers it up.
    ///
    /// The check is a read of SETUP_AW, which must hold the code of an
    /// address width of three to five bytes; else the result is
    /// `NotConnected`, and the chip is not powered up.
    pub fn start(&mut self) -> (r: Result<(), Error<SPI::Error>>)
        ensures
            started(
                old(self).config(),
                old(self).trace(),
                final(self).trace(),
                final(self).config(),
                r,
            ),
    {
        let ghost before = self.trace();
        let ghost script = start_script();
        let ghost nothing = Seq::<Seq<u8>>::empty();
        proof {
            lemma_ran_none(before);
            assert(script.subrange(0, 0) =~= nothing);
        }
        let mut config = Config(0b0000_1000);
        match self.write_config(config) {
            Ok(_) => {},
            Err(e) => {
                proof {
                    lemma_ran_then_failed(
                        before,
                        before,
                        self.trace(),
                        nothing,
                        write_frame(config),
                        script,
                    );
                }
                return Err(e);
            },
        }
        let ghost written = self.trace();
        proof {
            lemma_ran_one_more(before, before, written, nothing, write_frame(config));
            assert(nothing.push(write_frame(config)) =~= script.subrange(0, 1));
        }
        let valid = match self.is_connected() {
            Ok(valid) => valid,
            Err(e) => {
                proof {
                    lemma_ran_then_failed(
                        before,
                        written,
                        self.trace(),
                        script.subrange(0, 1),
                        read_frame::<SetupAw>(),
                        script,
                    );
                }
                return Err(e);
            },
        };
        let ghost probed = self.trace();
        proof {
            lemma_ran_one_more(
                before,
                written,
                probed,
                script.subrange(0, 1),
                read_frame::<SetupAw>(),
            );
            assert(script.subrange(0, 1).push(read_frame::<SetupAw>()) =~= script.subrange(0, 2));
        }
        if !valid {
            return Err(Error::NotConnected);
        }
        config.set_pwr_up(true);
        match self.write_config(config) {
            Ok(_) => {},
            Err(e) => {
                proof {
                    lemma_ran_then_failed(
                        before,
                        probed,
                        self.trace(),
                        script.subrange(0, 2),
                        write_frame(config),
                        script,
                    );
                    lemma_grown_keeps(probed, self.trace(), 3, before.len() as int + 3);
                }
                return Err(e);
            },
        }
        proof {
            lemma_ran_one_more(
                before,
                probed,
                self.trace(),
                script.subrange(0, 2),
                write_frame(config),
            );
            assert(script.subrange(0, 2).push(write_frame(config)) =~= script);
            lemma_grown_keeps(probed, self.trace(), 3, before.len() as int + 3);
        }
        Ok(())
    }

    /// Writes `config` to CONFIG, whatever the shadow holds, and takes it
    /// as the shadow once it is written.
    pub fn write_config(&mut self, config: Config) -> (r: Result<(), Error<SPI::Error>>)
        ensures
            config_rewritten(*old(self), *final(self), config, r is Ok),
            bus_failure(r),
    {
        match self.write_register(config) {
            Ok(_) => {
                self.config = config;
                Ok(())
            },
            Err(e) => Err(e),
        }
    }

    /// Reads SETUP_AW and tells whether it holds what an nRF24L01 can hold
    /// there.
    pub fn is_connected(&mut self) -> (r: Result<bool, Error<SPI::Error>>)
        ensures
            exchanged(*old(self), *final(self), read_frame::<SetupAw>(), r is Ok),
            bus_failure(r),
            r matches Ok(valid) ==> valid == plausible(
                register_in::<SetupAw>(last_reply(final(self).trace())),
            ),
    {
        match self.read_register::<SetupAw>() {
            Ok((_, setup_aw)) => {
                proof {
                    lemma_field_bounded(setup_aw.0, 0, 0x03);
                }
                let width = 2 + setup_aw.aw();
                Ok(3 <= width && width <= 5)
            },
            Err(e) => Err(e),
        }
    }

    /// Whether CE was last driven high.
    pub fn ce_is_high(&self) -> (high: bool)
        ensures
            high == (self.ce_level() == Level::High),
    {
        self.wiring.ce_is_high()
    }

    /// Lets `micros` microseconds pass.
    pub(crate) fn pause_us<T: Delay>(&mut self, timer: &mut T, micros: u32)
        ensures
            final(self).config() == old(self).config(),
            final(self).trace() == old(self).trace().push(Event::Pause { micros: micros as nat }),
            final(self).ce_level() == old(self).ce_level(),
    {
        self.wiring.pause_us(timer, micros);
    }

    /// Lets `millis` milliseconds pass.
    pub(crate) fn pause_ms<T: Delay>(&mut self, timer: &mut T, millis: u32)
        ensures
            final(self).config() == old(self).config(),
            final(self).trace() == old(self).trace().push(
                Event::Pause { micros: millis as nat * 1000 },
            ),
            final(self).ce_level() == old(self).ce_level(),
    {
        self.wiring.pause_ms(timer, millis);
    }

    /// Whether the chip was last configured as a receiver.
    pub fn is_receiver(&self) -> (receiver: bool)
        ensures
            receiver == self.config().prim_rx(),
    {
        self.config.prim_rx()
    }

    /// Power down the device.
    ///
    /// The power consumption is minimum in this mode, and the device ceases all operation.
    /// It only accepts configuration commands.
    pub fn power_down(&mut self) -> (r: Result<(), Error<SPI::Error>>)
        ensures
            final(self).config() == (if r is Ok {
                powered_down(old(self).config())
            } else {
                old(self).config()
            }),
            final(self).trace().len() > old(self).trace().len(),
            final(self).trace()[old(self).trace().len() as int] == Event::CeLow,
            if r is Ok {
                completed(
                    old(self).trace().push(Event::CeLow),
                    final(self).trace(),
                    write_frame(powered_down(old(self).config())),
                )
            } else {
                aborted(
                    old(self).trace().push(Event::CeLow),
                    final(self).trace(),
                    write_frame(powered_down(old(self).config())),
                )
            },
            bus_failure(r),
    {
        let ghost before = self.trace();
        self.ce_disable();
        let ghost lowered = self.trace();
        let mut config = self.config;
        config.set_pwr_up(false);
        let r = self.write_config(config);
        proof {
            assert(self.trace().subrange(0, lowered.len() as int) == lowered);
            assert(self.trace()[before.len() as int] == lowered[before.len() as int]);
        }
        r
    }

    /// Power the device up for full operation.
    pub fn power_up(&mut self) -> (r: Result<(), Error<SPI::Error>>)
        ensures
            config_rewritten(*old(self), *final(self), powered_up(old(self).config()), r is Ok),
            bus_failure(r),
    {
        let mut config = self.config;
        config.set_pwr_up(true);
        self.write_config(config)
    }

    /// Put the device in standby (RX Mode)
    ///
    /// Only used in RX mode to suspend active listening.
    /// In TX mode, standby is the default state when not sending data.
    pub fn standby(&mut self)
        ensures
            final(self).trace() == old(self).trace().push(Event::CeLow),
            final(self).config() == old(self).config(),
    {
        self.ce_disable();
    }

    /// (RX mode only) Wake up and activate receiver.
    ///
    /// In RX mode, call this function after a `.configure(...)`, `.standby()` or `power_up()` to
    /// accept incoming packets. For a transmitter the call does nothing.
    pub fn listen(&mut self)
        ensures
            final(self).config() == old(self).config(),
            final(self).trace() == (if old(self).config().prim_rx() {
                old(self).trace().push(Event::CeHigh)
            } else {
                old(self).trace()
            }),
    {
        if self.is_receiver() {
            self.ce_enable();
        }
    }

    /// Is there any incoming data to read?
    ///
    /// Works in both RX and TX modes. In TX mode, this function returns true if
    /// a ACK payload has been received.
    pub fn data_available(&mut self) -> (r: Result<bool, Error<SPI::Error>>)
        ensures
            exchanged(*old(self), *final(self), read_frame::<FifoStatus>(), r is Ok),
            bus_failure(r),
            r matches Ok(available) ==> available == !register_in::<FifoStatus>(
                last_reply(final(self).trace()),
            ).rx_empty(),
    {
        match self.read_register::<FifoStatus>() {
            Ok((_, fifo_status)) => Ok(!fifo_status.rx_empty()),
            Err(e) => Err(e),
        }
    }

    /// Queue (FIFO) data to be sent, one packet at a time.
    ///
    /// In TX mode, `pipe_num` is ignored. In RX mode, this function queues an ACK payload
    /// for the next message to arrive on `pipe_num`, which must be one of 0 to 5.
    ///
    /// The maximum size for a packet is 32 bytes.
    ///
    /// You can store a maximun of 3 payloads in the FIFO queue.
    ///
    /// **Note** : The payloads remain in the queue until the end of an _Enhanced Shockburst_ ™
    /// transaction:
    ///
    /// * In TX mode, a payload is removed from the send queue if and only if
    /// it has been successfully sent, that is, an ACK (with or without payload) has
    /// been received for it.
    ///
    /// * In RX mode, an ACK payload is removed from the queue if and only if
    /// it has been sent AND the pipe receives a new message, different from
    /// the one the ACK payload responded to. This is because the receiver has
    /// no mean to know whether the transmitter has received the ACK until
    /// it receives a new, different message from the same transmitter.
    /// So, it keeps the ACK payload under hand in case the transmitter resends the same
    /// packet over again.
    pub fn push(&mut self, pipe_num: u8, data: &[u8]) -> (r: Result<(), Error<SPI::Error>>)
        ensures
            final(self).config() == old(self).config(),
            pushed(old(self).config(), old(self).trace(), final(self).trace(), pipe_num, data@, r),
    {
        if data.len() > MAX_PAYLOAD_BYTES {
            return Err(Error::PayloadTooLarge);
        }
        if self.is_receiver() {
            if pipe_num as usize >= PIPES_COUNT {
                return Err(Error::InvalidPipe);
            }
            let command = WriteAckPayload::new(pipe_num, data);
            queue_payload(self, &command)
        } else {
            let command = WriteTxPayload::new(data);
            queue_payload(self, &command)
        }
    }

    /// Clear input queue.
    ///
    /// In RX mode, use only when device is in standby.
    pub fn flush_input(&mut self) -> (r: Result<(), Error<SPI::Error>>)
        ensures
            exchanged(*old(self), *final(self), seq![0xE2u8], r is Ok),
            bus_failure(r),
    {
        match self.send_command(&FlushRx) {
            Ok(_) => Ok(()),
            Err(e) => Err(e),
        }
    }

    /// Clear output queue.
    ///
    /// In RX mode, use only when device is in standby.
    pub fn flush_output(&mut self) -> (r: Result<(), Error<SPI::Error>>)
        ensures
            exchanged(*old(self), *final(self), seq![0xE1u8], r is Ok),
            bus_failure(r),
    {
        match self.send_command(&FlushTx) {
            Ok(_) => Ok(()),
            Err(e) => Err(e),
        }
    }
}

impl<CE: DigitalOutput, CSN: DigitalOutput, SPI: FullDuplex> Device for NRF24L01<CE, CSN, SPI> {
    type Error = SPI::Error;

    closed spec fn trace(&self) -> Seq<Event> {
        self.wiring.trace()
    }

    closed spec fn config(&self) -> Config {
        self.config
    }

    fn ce_enable(&mut self)
        ensures
            first_kept(old(self).line_fault(), final(self).line_fault()),
            final(self).line_fault() is None ==> final(self).ce_level() == Level::High,
    {
        self.wiring.ce_high();
    }

    fn ce_disable(&mut self)
        ensures
            first_kept(old(self).line_fault(), final(self).line_fault()),
            final(self).line_fault() is None ==> final(self).ce_level() == Level::Low,
    {
        self.wiring.ce_low();
    }

    fn send_command<C: Command>(&mut self, command: &C) -> (r: Result<
        (Status, C::Response),
        Error<SPI::Error>,
    >)
        ensures
            final(self).ce_level() == old(self).ce_level(),
            first_kept(old(self).line_fault(), final(self).line_fault()),
    {
        let ghost before = self.trace();
        let len = command.len();
        let mut buf = [0u8; MAX_FRAME_BYTES];
        command.encode(&mut buf);
        let ghost frame = buf@.subrange(0, len as int);

        self.wiring.select();
        let transfer_result = self.wiring.transfer(&mut buf, len);
        self.wiring.deselect();
        let ghost reply = buf@.subrange(0, len as int);
        proof {
            assert(self.trace().subrange(0, before.len() as int) =~= before);
        }

        match transfer_result {
            Err(e) => {
                proof {
                    assert(self.trace().subrange(before.len() as int, before.len() as int + 3)
                        =~= failed_exchange(frame));
                }
                Err(Error::from(e))
            },
            Ok(_) => {
                proof {
                    assert(self.trace().subrange(before.len() as int, before.len() as int + 3)
                        =~= exchange(frame, reply));
                    command.lemma_reply_answers(reply);
                }
                let received = slice_subrange(array_as_slice(&buf), 0, len);
                let status = Status(received[0]);
                let response = C::decode_response(received);
                Ok((status, response))
            },
        }
    }

    fn write_register<R: Register>(&mut self, register: R) -> (r: Result<
        Status,
        Error<SPI::Error>,
    >)
        ensures
            final(self).ce_level() == old(self).ce_level(),
            first_kept(old(self).line_fault(), final(self).line_fault()),
    {
        let command = WriteRegister::new(register);
        match self.send_command(&command) {
            Ok((status, _)) => Ok(status),
            Err(e) => Err(e),
        }
    }

    fn read_register<R: Register>(&mut self) -> (r: Result<(Status, R), Error<SPI::Error>>)
        ensures
            final(self).ce_level() == old(self).ce_level(),
            first_kept(old(self).line_fault(), final(self).line_fault()),
    {
        let command = ReadRegister::<R>::new();
        self.send_command(&command)
    }

    fn update_config<F, R>(&mut self, f: F) -> (r: Result<R, Error<SPI::Error>>) where
        F: FnOnce(&mut Config) -> R,

        ensures
            final(self).ce_level() == old(self).ce_level(),
            first_kept(old(self).line_fault(), final(self).line_fault()),
    {
        let old_config = self.config;
        let mut config = old_config;
        let result = f(&mut config);

        if config != old_config {
            match self.write_register(config) {
                Ok(_) => {},
                Err(e) => {
                    return Err(e);
                },
            }
            self.config = config;
        }
        Ok(result)
    }
}

} // verus!
