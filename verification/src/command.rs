//! The commands of the chip's serial protocol and their wire framing.
//!
//! Every exchange starts with a command byte; while it is clocked out the
//! chip clocks in its STATUS register. The bytes that follow carry the
//! command's data in one direction or the other. A command therefore fixes
//! the whole outgoing frame ([`Command::frame`]), and the chip's reply, of
//! the same length, is read according to the command
//! ([`Command::decodes_to`]).

use core::marker::PhantomData;
use crate::payload::{truncated, Payload, MAX_PAYLOAD_BYTES};
use crate::registers::{Register, MAX_ADDR_BYTES, PIPES_COUNT};
use vstd::array::array_as_slice;
use vstd::prelude::*;
use vstd::slice::slice_subrange;

verus! {

/// Longest frame of the protocol: a command byte and a full payload.
pub const MAX_FRAME_BYTES: usize = 33;

/// `n` zero bytes: what is clocked out while data is clocked in.
pub open spec fn zeros(n: nat) -> Seq<u8> {
    Seq::new(n, |i: int| 0u8)
}

/// The frame that reads register `R`: its address, then as many bytes as
/// the register is wide.
pub open spec fn read_frame<R: Register>() -> Seq<u8> {
    seq![R::address()] + zeros(R::read_width())
}

/// The frame that writes `register`: its address with bit 5 set, then the
/// register's bytes.
pub open spec fn write_frame<R: Register>(register: R) -> Seq<u8> {
    seq![0x20u8 | R::address()] + register.bytes()
}

/// The command byte of a register read is the register's address, from
/// `0x00` to `0x1D`, and that of a register write is the address with bit 5
/// set, from `0x20` to `0x3D`: neither is the command byte of a payload, a
/// flush or a no-op.
pub proof fn lemma_register_opcodes<R: Register>(register: R)
    ensures
        read_frame::<R>()[0] == R::address(),
        read_frame::<R>()[0] <= 0x1D,
        write_frame(register)[0] == 0x20u8 | R::address(),
        0x20 <= write_frame(register)[0] <= 0x3D,
{
    R::lemma_address_in_map();
    let address = R::address();
    assert(0x20 <= 0x20u8 | address <= 0x3D) by (bit_vector)
        requires
            address <= 0x1D,
    ;
}

/// One exchange with the chip.
pub trait Command {
    /// What the chip's reply is read as.
    type Response;

    /// Whether the command can be put on the wire.
    spec fn wf(&self) -> bool;

    /// The bytes clocked out, command byte first.
    spec fn frame(&self) -> Seq<u8>;

    /// Whether a reply is long enough to be read.
    spec fn answers(reply: Seq<u8>) -> bool;

    /// Whether `response` is what `reply` says, where `reply` is everything
    /// that was clocked in, status byte included.
    spec fn decodes_to(reply: Seq<u8>, response: Self::Response) -> bool;

    /// Length of the exchange in bytes.
    fn len(&self) -> (n: usize)
        requires
            self.wf(),
        ensures
            n == self.frame().len(),
            1 <= n <= MAX_FRAME_BYTES,
    ;

    /// Writes the outgoing frame to the front of `buf`, whatever `buf`
    /// held there before.
    fn encode(&self, buf: &mut [u8])
        requires
            self.wf(),
            old(buf)@.len() >= self.frame().len(),
        ensures
            final(buf)@.len() == old(buf)@.len(),
            final(buf)@.subrange(0, self.frame().len() as int) == self.frame(),
    ;

    /// Reads the response from everything that was clocked in.
    fn decode_response(data: &[u8]) -> (response: Self::Response)
        requires
            Self::answers(data@),
        ensures
            Self::decodes_to(data@, response),
    ;

    /// A reply as long as the frame can always be read.
    proof fn lemma_reply_answers(&self, reply: Seq<u8>)
        requires
            self.wf(),
            reply.len() == self.frame().len(),
        ensures
            Self::answers(reply),
    ;
}

/// Sets the bytes of `buf` from index `from` up to index `to` to zero.
fn clear_range(buf: &mut [u8], from: usize, to: usize)
    requires
        from <= to <= old(buf)@.len(),
    ensures
        final(buf)@.len() == old(buf)@.len(),
        final(buf)@.subrange(0, to as int) == old(buf)@.subrange(0, from as int) + zeros(
            (to - from) as nat,
        ),
{
    let mut i: usize = from;
    while i < to
        invariant
            buf@.len() == old(buf)@.len(),
            from <= i <= to <= buf@.len(),
            forall|k: int| 0 <= k < from ==> buf@[k] == old(buf)@[k],
            forall|k: int| from <= k < i ==> buf@[k] == 0,
        decreases to - i,
    {
        buf[i] = 0;
        i += 1;
    }
    assert(buf@.subrange(0, to as int) =~= old(buf)@.subrange(0, from as int) + zeros(
        (to - from) as nat,
    ));
}

/// Copies the first `len` bytes of `data` into `buf` behind its first
/// byte.
fn copy_behind_first(buf: &mut [u8], data: &[u8], len: usize)
    requires
        len <= data@.len(),
        1 + len <= old(buf)@.len(),
    ensures
        final(buf)@.len() == old(buf)@.len(),
        final(buf)@.subrange(0, 1 + len) == seq![old(buf)@[0]] + data@.subrange(0, len as int),
{
    let mut i: usize = 0;
    while i < len
        invariant
            len <= data@.len(),
            buf@.len() == old(buf)@.len(),
            1 + len <= buf@.len(),
            i <= len,
            buf@[0] == old(buf)@[0],
            forall|k: int| 0 <= k < i ==> buf@[k + 1] == data@[k],
        decreases len - i,
    {
        buf[i + 1] = data[i];
        i += 1;
    }
    assert(buf@.subrange(0, 1 + len) =~= seq![old(buf)@[0]] + data@.subrange(0, len as int));
}

/// Reads register `R`: command byte `R::addr()`, then as many bytes as the
/// register is wide.
pub struct ReadRegister<R: Register> {
    register: PhantomData<R>,
}

impl<R: Register> ReadRegister<R> {
    /// The command that reads register `R`.
    pub fn new() -> (command: Self)
        ensures
            command.wf(),
    {
        ReadRegister { register: PhantomData }
    }
}

impl<R: Register> Command for ReadRegister<R> {
    type Response = R;

    open spec fn wf(&self) -> bool {
        true
    }

    open spec fn frame(&self) -> Seq<u8> {
        read_frame::<R>()
    }

    open spec fn answers(reply: Seq<u8>) -> bool {
        reply.len() == 1 + R::read_width()
    }

    open spec fn decodes_to(reply: Seq<u8>, response: R) -> bool {
        &&& response == R::parse(reply.skip(1))
        &&& response.wf()
    }

    fn len(&self) -> (n: usize) {
        1 + R::read_len()
    }

    fn encode(&self, buf: &mut [u8]) {
        buf[0] = R::addr();
        clear_range(buf, 1, 1 + R::read_len());
        assert(buf@.subrange(0, 1 + R::read_width() as int) =~= self.frame());
    }

    fn decode_response(data: &[u8]) -> (response: R) {
        proof {
            R::lemma_read_parses(data@.skip(1));
        }
        R::decode(slice_subrange(data, 1, data.len()))
    }

    proof fn lemma_reply_answers(&self, reply: Seq<u8>) {
    }
}

/// Writes a register: command byte `0x20 | R::addr()`, then the register's
/// bytes.
pub struct WriteRegister<R: Register> {
    register: R,
}

impl<R: Register> WriteRegister<R> {
    /// The register value that the command writes.
    pub closed spec fn value(&self) -> R {
        self.register
    }

    /// The command that writes `register`.
    pub fn new(register: R) -> (command: Self)
        ensures
            command.value() == register,
    {
        WriteRegister { register }
    }
}

impl<R: Register> Command for WriteRegister<R> {
    type Response = ();

    open spec fn wf(&self) -> bool {
        self.value().wf()
    }

    open spec fn frame(&self) -> Seq<u8> {
        write_frame(self.value())
    }

    open spec fn answers(reply: Seq<u8>) -> bool {
        true
    }

    open spec fn decodes_to(reply: Seq<u8>, response: ()) -> bool {
        true
    }

    fn len(&self) -> (n: usize) {
        1 + self.register.write_len()
    }

    fn encode(&self, buf: &mut [u8]) {
        let width = self.register.write_len();
        let mut data: [u8; MAX_ADDR_BYTES] = [0, 0, 0, 0, 0];
        self.register.encode(&mut data);
        buf[0] = 0x20 | R::addr();
        copy_behind_first(buf, array_as_slice(&data), width);
        assert(buf@.subrange(0, 1 + width) =~= self.frame());
    }

    fn decode_response(data: &[u8]) -> (response: ()) {
    }

    proof fn lemma_reply_answers(&self, reply: Seq<u8>) {
    }
}

/// Reads the payload at the head of the receive queue: command byte
/// `0x61`, then the payload's bytes.
pub struct ReadRxPayload {
    payload_width: usize,
}

impl ReadRxPayload {
    /// Number of payload bytes that the command clocks in.
    pub closed spec fn width(&self) -> nat {
        self.payload_width as nat
    }

    /// The command that reads a payload of `payload_width` bytes.
    pub fn new(payload_width: usize) -> (command: Self)
        ensures
            command.width() == payload_width,
    {
        ReadRxPayload { payload_width }
    }
}

impl Command for ReadRxPayload {
    type Response = Payload;

    open spec fn wf(&self) -> bool {
        self.width() <= MAX_PAYLOAD_BYTES
    }

    open spec fn frame(&self) -> Seq<u8> {
        seq![0x61u8] + zeros(self.width())
    }

    open spec fn answers(reply: Seq<u8>) -> bool {
        reply.len() >= 1
    }

    open spec fn decodes_to(reply: Seq<u8>, response: Payload) -> bool {
        response@ == truncated(reply.skip(1))
    }

    fn len(&self) -> (n: usize) {
        1 + self.payload_width
    }

    fn encode(&self, buf: &mut [u8]) {
        buf[0] = 0x61;
        clear_range(buf, 1, 1 + self.payload_width);
        assert(buf@.subrange(0, 1 + self.payload_width) =~= self.frame());
    }

    fn decode_response(data: &[u8]) -> (response: Payload) {
        Payload::new(slice_subrange(data, 1, data.len()))
    }

    proof fn lemma_reply_answers(&self, reply: Seq<u8>) {
    }
}

/// Queues a payload for transmission: command byte `0xA0`, then the data.
pub struct WriteTxPayload<'a> {
    data: &'a [u8],
}

impl<'a> WriteTxPayload<'a> {
    /// The bytes that the command queues.
    pub closed spec fn data(&self) -> Seq<u8> {
        self.data@
    }

    /// The command that queues `data` for transmission.
    pub fn new(data: &'a [u8]) -> (command: Self)
        ensures
            command.data() == data@,
    {
        WriteTxPayload { data }
    }
}

impl<'a> Command for WriteTxPayload<'a> {
    type Response = ();

    open spec fn wf(&self) -> bool {
        self.data().len() <= MAX_PAYLOAD_BYTES
    }

    open spec fn frame(&self) -> Seq<u8> {
        seq![0xA0u8] + self.data()
    }

    open spec fn answers(reply: Seq<u8>) -> bool {
        true
    }

    open spec fn decodes_to(reply: Seq<u8>, response: ()) -> bool {
        true
    }

    fn len(&self) -> (n: usize) {
        1 + self.data.len()
    }

    fn encode(&self, buf: &mut [u8]) {
        buf[0] = 0xA0;
        copy_behind_first(buf, self.data, self.data.len());
        assert(buf@.subrange(0, 1 + self.data@.len() as int) =~= self.frame());
    }

    fn decode_response(data: &[u8]) -> (response: ()) {
    }

    proof fn lemma_reply_answers(&self, reply: Seq<u8>) {
    }
}

/// The command byte that queues an acknowledgement payload for `pipe`.
pub open spec fn ack_payload_opcode(pipe: u8) -> u8 {
    0xA8u8 | pipe
}

/// Queues a payload to ride on the acknowledgement of the next packet
/// received on one pipe: command byte `0xA8 | pipe`, then the data.
pub struct WriteAckPayload<'a> {
    pipe: u8,
    data: &'a [u8],
}

impl<'a> WriteAckPayload<'a> {
    /// The pipe whose next acknowledgement carries the payload.
    pub closed spec fn pipe(&self) -> u8 {
        self.pipe
    }

    /// The bytes that the command queues.
    pub closed spec fn data(&self) -> Seq<u8> {
        self.data@
    }

    /// The command that queues `data` for the next acknowledgement on
    /// `pipe`.
    pub fn new(pipe: u8, data: &'a [u8]) -> (command: Self)
        ensures
            command.pipe() == pipe,
            command.data() == data@,
    {
        WriteAckPayload { pipe, data }
    }
}

impl<'a> Command for WriteAckPayload<'a> {
    type Response = ();

    open spec fn wf(&self) -> bool {
        &&& self.pipe() < PIPES_COUNT
        &&& self.data().len() <= MAX_PAYLOAD_BYTES
    }

    open spec fn frame(&self) -> Seq<u8> {
        seq![ack_payload_opcode(self.pipe())] + self.data()
    }

    open spec fn answers(reply: Seq<u8>) -> bool {
        true
    }

    open spec fn decodes_to(reply: Seq<u8>, response: ()) -> bool {
        true
    }

    fn len(&self) -> (n: usize) {
        1 + self.data.len()
    }

    fn encode(&self, buf: &mut [u8]) {
        buf[0] = 0xA8 | self.pipe;
        copy_behind_first(buf, self.data, self.data.len());
        assert(buf@.subrange(0, 1 + self.data@.len() as int) =~= self.frame());
    }

    fn decode_response(data: &[u8]) -> (response: ()) {
    }

    proof fn lemma_reply_answers(&self, reply: Seq<u8>) {
    }
}

/// Asks for the length of the payload at the head of the receive queue:
/// command byte `0x60`, then one byte.
pub struct ReadRxPayloadWidth;

impl Command for ReadRxPayloadWidth {
    type Response = u8;

    open spec fn wf(&self) -> bool {
        true
    }

    open spec fn frame(&self) -> Seq<u8> {
        seq![0x60u8, 0u8]
    }

    open spec fn answers(reply: Seq<u8>) -> bool {
        reply.len() >= 2
    }

    open spec fn decodes_to(reply: Seq<u8>, response: u8) -> bool {
        response == reply[1]
    }

    fn len(&self) -> (n: usize) {
        2
    }

    fn encode(&self, buf: &mut [u8]) {
        buf[0] = 0x60;
        buf[1] = 0;
        assert(buf@.subrange(0, 2) =~= self.frame());
    }

    fn decode_response(data: &[u8]) -> (response: u8) {
        data[1]
    }

    proof fn lemma_reply_answers(&self, reply: Seq<u8>) {
    }
}

/// Discards everything in the transmit queue: command byte `0xE1`.
pub struct FlushTx;

impl Command for FlushTx {
    type Response = ();

    open spec fn wf(&self) -> bool {
        true
    }

    open spec fn frame(&self) -> Seq<u8> {
        seq![0xE1u8]
    }

    open spec fn answers(reply: Seq<u8>) -> bool {
        true
    }

    open spec fn decodes_to(reply: Seq<u8>, response: ()) -> bool {
        true
    }

    fn len(&self) -> (n: usize) {
        1
    }

    fn encode(&self, buf: &mut [u8]) {
        buf[0] = 0xE1;
        assert(buf@.subrange(0, 1) =~= self.frame());
    }

    fn decode_response(data: &[u8]) -> (response: ()) {
    }

    proof fn lemma_reply_answers(&self, reply: Seq<u8>) {
    }
}

/// Discards everything in the receive queue: command byte `0xE2`.
pub struct FlushRx;

impl Command for FlushRx {
    type Response = ();

    open spec fn wf(&self) -> bool {
        true
    }

    open spec fn frame(&self) -> Seq<u8> {
        seq![0xE2u8]
    }

    open spec fn answers(reply: Seq<u8>) -> bool {
        true
    }

    open spec fn decodes_to(reply: Seq<u8>, response: ()) -> bool {
        true
    }

    fn len(&self) -> (n: usize) {
        1
    }

    fn encode(&self, buf: &mut [u8]) {
        buf[0] = 0xE2;
        assert(buf@.subrange(0, 1) =~= self.frame());
    }

    fn decode_response(data: &[u8]) -> (response: ()) {
    }

    proof fn lemma_reply_answers(&self, reply: Seq<u8>) {
    }
}

/// Does nothing but fetch the status byte: command byte `0xFF`.
pub struct Nop;

impl Command for Nop {
    type Response = ();

    open spec fn wf(&self) -> bool {
        true
    }

    open spec fn frame(&self) -> Seq<u8> {
        seq![0xFFu8]
    }

    open spec fn answers(reply: Seq<u8>) -> bool {
        true
    }

    open spec fn decodes_to(reply: Seq<u8>, response: ()) -> bool {
        true
    }

    fn len(&self) -> (n: usize) {
        1
    }

    fn encode(&self, buf: &mut [u8]) {
        buf[0] = 0xFF;
        assert(buf@.subrange(0, 1) =~= self.frame());
    }

    fn decode_response(data: &[u8]) -> (response: ()) {
    }

    proof fn lemma_reply_answers(&self, reply: Seq<u8>) {
    }
}

} // verus!
