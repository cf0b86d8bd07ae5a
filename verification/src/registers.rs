//! The register map: one type for each register of the chip that the driver
//! touches, with the bit layout of its fields.
//!
//! A register is modelled by the bytes it holds. A one-byte register is a
//! wrapper around that byte and its accessors are defined by [`bit`] and
//! [`field`] on it; an address register is a string of three to five bytes.
//! Every register type can be written to the wire and read back from it, and
//! reading back what was written gives the same value
//! ([`Register::lemma_round_trip`]).

use crate::bits::{
    bit, field, field_fits, get_bit, get_field, lemma_with_bit_keeps_field,
    lemma_with_bit_reads_back, lemma_with_field_keeps_bit, lemma_with_field_keeps_field, set_bit,
    set_field, with_bit, with_field,
};
use vstd::prelude::*;

verus! {

/// Number of receive pipes.
pub const PIPES_COUNT: usize = 6;

/// Shortest address that the chip supports, in bytes.
pub const MIN_ADDR_BYTES: usize = 3;

/// Longest address that the chip supports, in bytes.
pub const MAX_ADDR_BYTES: usize = 5;

/// Highest address of the register map.
pub const LAST_ADDRESS: u8 = 0x1D;

/// A register of the chip: a value with a fixed address and a wire form.
pub trait Register: Sized {
    /// Address in the register map.
    spec fn address() -> u8;

    /// Number of data bytes that a read of this register clocks in.
    spec fn read_width() -> nat;

    /// Whether this value is one that the type's constructors can produce.
    spec fn wf(&self) -> bool;

    /// The data bytes of this value, in wire order.
    spec fn bytes(&self) -> Seq<u8>;

    /// Whether `data` is the wire form of some value of this type.
    spec fn parses(data: Seq<u8>) -> bool;

    /// The value whose wire form is `data`.
    spec fn parse(data: Seq<u8>) -> Self;

    /// Address in the register map, which ends at `0x1D`.
    fn addr() -> (a: u8)
        ensures
            a == Self::address(),
            a <= LAST_ADDRESS,
    ;

    /// Number of data bytes to clock in when reading.
    fn read_len() -> (n: usize)
        ensures
            n == Self::read_width(),
            1 <= n <= MAX_ADDR_BYTES,
    ;

    /// Number of data bytes to clock out when writing this value.
    fn write_len(&self) -> (n: usize)
        requires
            self.wf(),
        ensures
            n == self.bytes().len(),
            1 <= n <= MAX_ADDR_BYTES,
    ;

    /// Writes the wire form to the front of `buf`.
    fn encode(&self, buf: &mut [u8])
        requires
            self.wf(),
            old(buf)@.len() >= self.bytes().len(),
        ensures
            final(buf)@.len() == old(buf)@.len(),
            final(buf)@.subrange(0, self.bytes().len() as int) == self.bytes(),
    ;

    /// Reads a value from its wire form.
    fn decode(buf: &[u8]) -> (r: Self)
        requires
            Self::parses(buf@),
        ensures
            r == Self::parse(buf@),
            r.wf(),
    ;

    /// Value equality, by which a write that would change nothing is
    /// recognised.
    fn same_as(&self, other: &Self) -> (same: bool)
        ensures
            same == (*self == *other),
    ;

    /// The register lies inside the register map.
    proof fn lemma_address_in_map()
        ensures
            Self::address() <= LAST_ADDRESS,
    ;

    /// Decoding what was encoded gives the value back.
    proof fn lemma_round_trip(&self)
        requires
            self.wf(),
        ensures
            Self::parses(self.bytes()),
            Self::parse(self.bytes()) == *self,
    ;

    /// Whatever a read returns can be decoded, and the value it decodes to
    /// has what was read as its wire form.
    proof fn lemma_read_parses(data: Seq<u8>)
        requires
            data.len() == Self::read_width(),
        ensures
            Self::parses(data),
            Self::parse(data).wf(),
            Self::parse(data).bytes() == data,
    ;
}

/// The fields of the register map all lie inside their byte.
pub proof fn lemma_field_geometry()
    ensures
        field_fits(0, 0x03),
        field_fits(0, 0x0f),
        field_fits(4, 0x0f),
        field_fits(0, 0x7f),
        field_fits(1, 0x03),
        field_fits(1, 0x07),
        field_fits(0, 0x3f),
{
    assert(((0x03u8 << 0u8) >> 0u8 == 0x03u8) && ((0x0fu8 << 0u8) >> 0u8 == 0x0fu8) && ((0x0fu8
        << 4u8) >> 4u8 == 0x0fu8) && ((0x7fu8 << 0u8) >> 0u8 == 0x7fu8) && ((0x03u8 << 1u8) >> 1u8
        == 0x03u8) && ((0x07u8 << 1u8) >> 1u8 == 0x07u8) && ((0x3fu8 << 0u8) >> 0u8 == 0x3fu8))
        by (bit_vector);
}

/// Where the fields of the registers with more than one field lie: the
/// two halves of SETUP_RETR do not overlap, neither rate bit of RF_SETUP
/// lies in its power field, and no interrupt flag of STATUS lies in its
/// pipe number.
pub proof fn lemma_field_masks()
    ensures
        (0x0fu8 << 4u8) & (0x0fu8 << 0u8) == 0,
        (0x0fu8 << 0u8) & (0x0fu8 << 4u8) == 0,
        !bit(0x03u8 << 1u8, 5),
        !bit(0x03u8 << 1u8, 3),
        !bit(0x07u8 << 1u8, 6),
        !bit(0x07u8 << 1u8, 5),
        !bit(0x07u8 << 1u8, 4),
{
    assert((0x0fu8 << 4u8) & (0x0fu8 << 0u8) == 0 && (0x0fu8 << 0u8) & (0x0fu8 << 4u8) == 0
        && !bit(0x03u8 << 1u8, 5) && !bit(0x03u8 << 1u8, 3) && !bit(0x07u8 << 1u8, 6) && !bit(
        0x07u8 << 1u8,
        5,
    ) && !bit(0x07u8 << 1u8, 4)) by (bit_vector);
}

/// The per-pipe flags of a register byte: entry `i` is bit `i`.
pub open spec fn pipe_flags(value: u8) -> Seq<bool> {
    Seq::new(PIPES_COUNT as nat, |i: int| bit(value, i as u8))
}

/// Whether `value` holds exactly the flags `flags` in its low six bits and
/// nothing above them.
pub open spec fn holds_pipe_flags(value: u8, flags: Seq<bool>) -> bool {
    forall|i: u8| i < 8 ==> #[trigger] bit(value, i) == (i < PIPES_COUNT && flags[i as int])
}

/// The byte whose bits `0` to `upto - 1` are the first `upto` of `flags`
/// and whose other bits are clear.
pub open spec fn packed_flags(flags: Seq<bool>, upto: nat) -> u8
    decreases upto,
{
    if upto == 0 {
        0
    } else {
        with_bit(packed_flags(flags, (upto - 1) as nat), (upto - 1) as u8, flags[upto - 1])
    }
}

/// Packs six per-pipe flags into a byte, bit index equal to pipe index.
fn pack_pipe_flags(bools: &[bool; PIPES_COUNT]) -> (value: u8)
    ensures
        value == packed_flags(bools@, PIPES_COUNT as nat),
        holds_pipe_flags(value, bools@),
        pipe_flags(value) == bools@,
{
    let mut value: u8 = 0;
    assert(forall|j: u8| j < 8 ==> !#[trigger] bit(0u8, j)) by {
        assert(forall|j: u8| j < 8 ==> 0u8 & (1u8 << j) == 0u8) by (bit_vector);
    }
    let mut i: usize = 0;
    while i < PIPES_COUNT
        invariant
            i <= PIPES_COUNT,
            value == packed_flags(bools@, i as nat),
            forall|j: u8| j < 8 ==> #[trigger] bit(value, j) == (j < i && bools@[j as int]),
        decreases PIPES_COUNT - i,
    {
        let ghost before = value;
        value = set_bit(value, i as u8, bools[i]);
        assert forall|j: u8| j < 8 implies #[trigger] bit(value, j) == (j < i + 1
            && bools@[j as int]) by {
            lemma_with_bit_reads_back(before, i as u8, bools@[i as int], j);
        }
        i += 1;
    }
    assert(pipe_flags(value) =~= bools@);
    value
}

/// Unpacks the low six bits of a byte into per-pipe flags.
fn unpack_pipe_flags(value: u8) -> (bools: [bool; PIPES_COUNT])
    ensures
        bools@ == pipe_flags(value),
{
    let mut bools = [true; PIPES_COUNT];
    let mut i: usize = 0;
    while i < PIPES_COUNT
        invariant
            i <= PIPES_COUNT,
            forall|j: int| 0 <= j < i ==> bools@[j] == bit(value, j as u8),
        decreases PIPES_COUNT - i,
    {
        bools[i] = get_bit(value, i as u8);
        i += 1;
    }
    assert(bools@ =~= pipe_flags(value));
    bools
}

/// CONFIG: interrupt masks, CRC, power and primary role.
#[derive(Clone, Copy, PartialEq, Eq, Structural, Debug)]
pub struct Config(pub u8);

impl Config {
    /// Whether the data-ready interrupt is kept off the IRQ line.
    #[verifier::allow_in_spec]
    pub fn mask_rx_dr(&self) -> bool
        returns
            bit(self.0, 6),
    {
        get_bit(self.0, 6)
    }

    /// Masks or unmasks the data-ready interrupt.
    pub fn set_mask_rx_dr(&mut self, value: bool)
        ensures
            final(self).0 == with_bit(old(self).0, 6, value),
            final(self).mask_rx_dr() == value,
            forall|other: u8|
                other < 8 && other != 6 ==> bit(final(self).0, other) == bit(old(self).0, other),
    {
        self.0 = set_bit(self.0, 6, value);
    }

    /// Whether the data-sent interrupt is kept off the IRQ line.
    #[verifier::allow_in_spec]
    pub fn mask_tx_ds(&self) -> bool
        returns
            bit(self.0, 5),
    {
        get_bit(self.0, 5)
    }

    /// Masks or unmasks the data-sent interrupt.
    pub fn set_mask_tx_ds(&mut self, value: bool)
        ensures
            final(self).0 == with_bit(old(self).0, 5, value),
            final(self).mask_tx_ds() == value,
            forall|other: u8|
                other < 8 && other != 5 ==> bit(final(self).0, other) == bit(old(self).0, other),
    {
        self.0 = set_bit(self.0, 5, value);
    }

    /// Whether the retransmit-limit interrupt is kept off the IRQ line.
    #[verifier::allow_in_spec]
    pub fn mask_max_rt(&self) -> bool
        returns
            bit(self.0, 4),
    {
        get_bit(self.0, 4)
    }

    /// Masks or unmasks the retransmit-limit interrupt.
    pub fn set_mask_max_rt(&mut self, value: bool)
        ensures
            final(self).0 == with_bit(old(self).0, 4, value),
            final(self).mask_max_rt() == value,
            forall|other: u8|
                other < 8 && other != 4 ==> bit(final(self).0, other) == bit(old(self).0, other),
    {
        self.0 = set_bit(self.0, 4, value);
    }

    /// Whether a CRC is generated and checked.
    #[verifier::allow_in_spec]
    pub fn en_crc(&self) -> bool
        returns
            bit(self.0, 3),
    {
        get_bit(self.0, 3)
    }

    /// Switches the CRC on or off.
    pub fn set_en_crc(&mut self, value: bool)
        ensures
            final(self).0 == with_bit(old(self).0, 3, value),
            final(self).en_crc() == value,
            forall|other: u8|
                other < 8 && other != 3 ==> bit(final(self).0, other) == bit(old(self).0, other),
    {
        self.0 = set_bit(self.0, 3, value);
    }

    /// CRC length: clear for one byte, set for two.
    #[verifier::allow_in_spec]
    pub fn crco(&self) -> bool
        returns
            bit(self.0, 2),
    {
        get_bit(self.0, 2)
    }

    /// Selects a one-byte (`false`) or two-byte (`true`) CRC.
    pub fn set_crco(&mut self, value: bool)
        ensures
            final(self).0 == with_bit(old(self).0, 2, value),
            final(self).crco() == value,
            forall|other: u8|
                other < 8 && other != 2 ==> bit(final(self).0, other) == bit(old(self).0, other),
    {
        self.0 = set_bit(self.0, 2, value);
    }

    /// Whether the chip is powered up.
    #[verifier::allow_in_spec]
    pub fn pwr_up(&self) -> bool
        returns
            bit(self.0, 1),
    {
        get_bit(self.0, 1)
    }

    /// Powers the chip up or down.
    pub fn set_pwr_up(&mut self, value: bool)
        ensures
            final(self).0 == with_bit(old(self).0, 1, value),
            final(self).pwr_up() == value,
            forall|other: u8|
                other < 8 && other != 1 ==> bit(final(self).0, other) == bit(old(self).0, other),
    {
        self.0 = set_bit(self.0, 1, value);
    }

    /// Primary role: set for receiver, clear for transmitter.
    #[verifier::allow_in_spec]
    pub fn prim_rx(&self) -> bool
        returns
            bit(self.0, 0),
    {
        get_bit(self.0, 0)
    }

    /// Selects the receiver (`true`) or transmitter (`false`) role.
    pub fn set_prim_rx(&mut self, value: bool)
        ensures
            final(self).0 == with_bit(old(self).0, 0, value),
            final(self).prim_rx() == value,
            forall|other: u8|
                other < 8 && other != 0 ==> bit(final(self).0, other) == bit(old(self).0, other),
    {
        self.0 = set_bit(self.0, 0, value);
    }
}

impl Register for Config {
    open spec fn address() -> u8 {
        0x00
    }

    open spec fn read_width() -> nat {
        1
    }

    open spec fn wf(&self) -> bool {
        true
    }

    open spec fn bytes(&self) -> Seq<u8> {
        seq![self.0]
    }

    open spec fn parses(data: Seq<u8>) -> bool {
        data.len() == 1
    }

    open spec fn parse(data: Seq<u8>) -> Self {
        Config(data[0])
    }

    fn addr() -> (a: u8) {
        0x00
    }

    fn read_len() -> (n: usize) {
        1
    }

    fn write_len(&self) -> (n: usize) {
        1
    }

    fn encode(&self, buf: &mut [u8]) {
        buf[0] = self.0;
        assert(buf@.subrange(0, 1) =~= self.bytes());
    }

    fn decode(buf: &[u8]) -> (r: Self) {
        Config(buf[0])
    }

    fn same_as(&self, other: &Self) -> (same: bool) {
        self.0 == other.0
    }

    proof fn lemma_address_in_map() {
    }

    proof fn lemma_round_trip(&self) {
    }

    proof fn lemma_read_parses(data: Seq<u8>) {
        assert(seq![data[0]] =~= data);
    }
}

/// EN_AA: automatic acknowledgement, one flag per pipe.
#[derive(Clone, Copy, PartialEq, Eq, Structural, Debug)]
pub struct EnAa(pub u8);

impl EnAa {
    /// Whether packets are acknowledged automatically on pipe `pipe_no`.
    #[verifier::allow_in_spec]
    pub fn enaa_p(&self, pipe_no: usize) -> bool
        requires
            pipe_no < 8,
        returns
            bit(self.0, pipe_no as u8),
    {
        get_bit(self.0, pipe_no as u8)
    }

    /// Sets the flag of pipe `pipe_no` and leaves the others as they were.
    pub fn set_enaa_p(&mut self, pipe_no: usize, enable: bool)
        requires
            pipe_no < 8,
        ensures
            final(self).0 == with_bit(old(self).0, pipe_no as u8, enable),
            final(self).enaa_p(pipe_no) == enable,
            forall|other: u8|
                other < 8 && other != pipe_no ==> bit(final(self).0, other) == bit(
                    old(self).0,
                    other,
                ),
    {
        self.0 = set_bit(self.0, pipe_no as u8, enable);
    }

    /// The register that holds exactly these flags, bit index equal to
    /// pipe index, and no bit above them.
    pub fn from_bools(bools: &[bool; PIPES_COUNT]) -> (register: Self)
        ensures
            register.0 == packed_flags(bools@, PIPES_COUNT as nat),
            holds_pipe_flags(register.0, bools@),
            pipe_flags(register.0) == bools@,
    {
        EnAa(pack_pipe_flags(bools))
    }

    /// The flags of the six pipes, entry `i` for pipe `i`.
    pub fn to_bools(&self) -> (bools: [bool; PIPES_COUNT])
        ensures
            bools@ == pipe_flags(self.0),
    {
        unpack_pipe_flags(self.0)
    }
}

impl Register for EnAa {
    open spec fn address() -> u8 {
        0x01
    }

    open spec fn read_width() -> nat {
        1
    }

    open spec fn wf(&self) -> bool {
        true
    }

    open spec fn bytes(&self) -> Seq<u8> {
        seq![self.0]
    }

    open spec fn parses(data: Seq<u8>) -> bool {
        data.len() == 1
    }

    open spec fn parse(data: Seq<u8>) -> Self {
        EnAa(data[0])
    }

    fn addr() -> (a: u8) {
        0x01
    }

    fn read_len() -> (n: usize) {
        1
    }

    fn write_len(&self) -> (n: usize) {
        1
    }

    fn encode(&self, buf: &mut [u8]) {
        buf[0] = self.0;
        assert(buf@.subrange(0, 1) =~= self.bytes());
    }

    fn decode(buf: &[u8]) -> (r: Self) {
        EnAa(buf[0])
    }

    fn same_as(&self, other: &Self) -> (same: bool) {
        self.0 == other.0
    }

    proof fn lemma_address_in_map() {
    }

    proof fn lemma_round_trip(&self) {
    }

    proof fn lemma_read_parses(data: Seq<u8>) {
        assert(seq![data[0]] =~= data);
    }
}

/// EN_RXADDR: enabled receive addresses, one flag per pipe.
#[derive(Clone, Copy, PartialEq, Eq, Structural, Debug)]
pub struct EnRxaddr(pub u8);

impl EnRxaddr {
    /// Whether the receive address is enabled for pipe `pipe_no`.
    #[verifier::allow_in_spec]
    pub fn erx_p(&self, pipe_no: usize) -> bool
        requires
            pipe_no < 8,
        returns
            bit(self.0, pipe_no as u8),
    {
        get_bit(self.0, pipe_no as u8)
    }

    /// Sets the flag of pipe `pipe_no` and leaves the others as they were.
    pub fn set_erx_p(&mut self, pipe_no: usize, enable: bool)
        requires
            pipe_no < 8,
        ensures
            final(self).0 == with_bit(old(self).0, pipe_no as u8, enable),
            final(self).erx_p(pipe_no) == enable,
            forall|other: u8|
                other < 8 && other != pipe_no ==> bit(final(self).0, other) == bit(
                    old(self).0,
                    other,
                ),
    {
        self.0 = set_bit(self.0, pipe_no as u8, enable);
    }

    /// The register that holds exactly these flags, bit index equal to
    /// pipe index, and no bit above them.
    pub fn from_bools(bools: &[bool; PIPES_COUNT]) -> (register: Self)
        ensures
            register.0 == packed_flags(bools@, PIPES_COUNT as nat),
            holds_pipe_flags(register.0, bools@),
            pipe_flags(register.0) == bools@,
    {
        EnRxaddr(pack_pipe_flags(bools))
    }

    /// The flags of the six pipes, entry `i` for pipe `i`.
    pub fn to_bools(&self) -> (bools: [bool; PIPES_COUNT])
        ensures
            bools@ == pipe_flags(self.0),
    {
        unpack_pipe_flags(self.0)
    }
}

impl Register for EnRxaddr {
    open spec fn address() -> u8 {
        0x02
    }

    open spec fn read_width() -> nat {
        1
    }

    open spec fn wf(&self) -> bool {
        true
    }

    open spec fn bytes(&self) -> Seq<u8> {
        seq![self.0]
    }

    open spec fn parses(data: Seq<u8>) -> bool {
        data.len() == 1
    }

    open spec fn parse(data: Seq<u8>) -> Self {
        EnRxaddr(data[0])
    }

    fn addr() -> (a: u8) {
        0x02
    }

    fn read_len() -> (n: usize) {
        1
    }

    fn write_len(&self) -> (n: usize) {
        1
    }

    fn encode(&self, buf: &mut [u8]) {
        buf[0] = self.0;
        assert(buf@.subrange(0, 1) =~= self.bytes());
    }

    fn decode(buf: &[u8]) -> (r: Self) {
        EnRxaddr(buf[0])
    }

    fn same_as(&self, other: &Self) -> (same: bool) {
        self.0 == other.0
    }

    proof fn lemma_address_in_map() {
    }

    proof fn lemma_round_trip(&self) {
    }

    proof fn lemma_read_parses(data: Seq<u8>) {
        assert(seq![data[0]] =~= data);
    }
}

/// SETUP_AW: width of the addresses, common to all pipes.
#[derive(Clone, Copy, PartialEq, Eq, Structural, Debug)]
pub struct SetupAw(pub u8);

impl SetupAw {
    /// Address width code: `1` for three bytes, `2` for four, `3` for five.
    #[verifier::allow_in_spec]
    pub fn aw(&self) -> u8
        returns
            field(self.0, 0, 0x03),
    {
        proof {
            lemma_field_geometry();
        }
        get_field(self.0, 0, 0x03)
    }

    /// Sets the address width code, cut to two bits.
    pub fn set_aw(&mut self, value: u8)
        ensures
            final(self).0 == with_field(old(self).0, 0, 0x03, value),
            final(self).aw() == value & 0x03,
    {
        proof {
            lemma_field_geometry();
        }
        self.0 = set_field(self.0, 0, 0x03, value);
    }
}

impl Register for SetupAw {
    open spec fn address() -> u8 {
        0x03
    }

    open spec fn read_width() -> nat {
        1
    }

    open spec fn wf(&self) -> bool {
        true
    }

    open spec fn bytes(&self) -> Seq<u8> {
        seq![self.0]
    }

    open spec fn parses(data: Seq<u8>) -> bool {
        data.len() == 1
    }

    open spec fn parse(data: Seq<u8>) -> Self {
        SetupAw(data[0])
    }

    fn addr() -> (a: u8) {
        0x03
    }

    fn read_len() -> (n: usize) {
        1
    }

    fn write_len(&self) -> (n: usize) {
        1
    }

    fn encode(&self, buf: &mut [u8]) {
        buf[0] = self.0;
        assert(buf@.subrange(0, 1) =~= self.bytes());
    }

    fn decode(buf: &[u8]) -> (r: Self) {
        SetupAw(buf[0])
    }

    fn same_as(&self, other: &Self) -> (same: bool) {
        self.0 == other.0
    }

    proof fn lemma_address_in_map() {
    }

    proof fn lemma_round_trip(&self) {
    }

    proof fn lemma_read_parses(data: Seq<u8>) {
        assert(seq![data[0]] =~= data);
    }
}

/// SETUP_RETR: automatic retransmission.
#[derive(Clone, Copy, PartialEq, Eq, Structural, Debug)]
pub struct SetupRetr(pub u8);

impl SetupRetr {
    /// Retransmit delay, in steps of 250 microseconds above 250.
    #[verifier::allow_in_spec]
    pub fn ard(&self) -> u8
        returns
            field(self.0, 4, 0x0f),
    {
        proof {
            lemma_field_geometry();
        }
        get_field(self.0, 4, 0x0f)
    }

    /// Sets the retransmit delay, cut to four bits.
    pub fn set_ard(&mut self, value: u8)
        ensures
            final(self).0 == with_field(old(self).0, 4, 0x0f, value),
            final(self).ard() == value & 0x0f,
            final(self).arc() == old(self).arc(),
    {
        proof {
            lemma_field_geometry();
            lemma_field_masks();
            lemma_with_field_keeps_field(self.0, 4, 0x0f, value, 0, 0x0f);
        }
        self.0 = set_field(self.0, 4, 0x0f, value);
    }

    /// Number of retransmissions before giving up.
    #[verifier::allow_in_spec]
    pub fn arc(&self) -> u8
        returns
            field(self.0, 0, 0x0f),
    {
        proof {
            lemma_field_geometry();
        }
        get_field(self.0, 0, 0x0f)
    }

    /// Sets the retransmit count, cut to four bits.
    pub fn set_arc(&mut self, value: u8)
        ensures
            final(self).0 == with_field(old(self).0, 0, 0x0f, value),
            final(self).arc() == value & 0x0f,
            final(self).ard() == old(self).ard(),
    {
        proof {
            lemma_field_geometry();
            lemma_field_masks();
            lemma_with_field_keeps_field(self.0, 0, 0x0f, value, 4, 0x0f);
        }
        self.0 = set_field(self.0, 0, 0x0f, value);
    }
}

impl Register for SetupRetr {
    open spec fn address() -> u8 {
        0x04
    }

    open spec fn read_width() -> nat {
        1
    }

    open spec fn wf(&self) -> bool {
        true
    }

    open spec fn bytes(&self) -> Seq<u8> {
        seq![self.0]
    }

    open spec fn parses(data: Seq<u8>) -> bool {
        data.len() == 1
    }

    open spec fn parse(data: Seq<u8>) -> Self {
        SetupRetr(data[0])
    }

    fn addr() -> (a: u8) {
        0x04
    }

    fn read_len() -> (n: usize) {
        1
    }

    fn write_len(&self) -> (n: usize) {
        1
    }

    fn encode(&self, buf: &mut [u8]) {
        buf[0] = self.0;
        assert(buf@.subrange(0, 1) =~= self.bytes());
    }

    fn decode(buf: &[u8]) -> (r: Self) {
        SetupRetr(buf[0])
    }

    fn same_as(&self, other: &Self) -> (same: bool) {
        self.0 == other.0
    }

    proof fn lemma_address_in_map() {
    }

    proof fn lemma_round_trip(&self) {
    }

    proof fn lemma_read_parses(data: Seq<u8>) {
        assert(seq![data[0]] =~= data);
    }
}

/// RF_CH: the radio channel.
#[derive(Clone, Copy, PartialEq, Eq, Structural, Debug)]
pub struct RfCh(pub u8);

impl RfCh {
    /// Channel number; the carrier is at 2400 MHz plus this many MHz.
    #[verifier::allow_in_spec]
    pub fn rf_ch(&self) -> u8
        returns
            field(self.0, 0, 0x7f),
    {
        proof {
            lemma_field_geometry();
        }
        get_field(self.0, 0, 0x7f)
    }

    /// Sets the channel number, cut to seven bits.
    pub fn set_rf_ch(&mut self, value: u8)
        ensures
            final(self).0 == with_field(old(self).0, 0, 0x7f, value),
            final(self).rf_ch() == value & 0x7f,
    {
        proof {
            lemma_field_geometry();
        }
        self.0 = set_field(self.0, 0, 0x7f, value);
    }
}

impl Register for RfCh {
    open spec fn address() -> u8 {
        0x05
    }

    open spec fn read_width() -> nat {
        1
    }

    open spec fn wf(&self) -> bool {
        true
    }

    open spec fn bytes(&self) -> Seq<u8> {
        seq![self.0]
    }

    open spec fn parses(data: Seq<u8>) -> bool {
        data.len() == 1
    }

    open spec fn parse(data: Seq<u8>) -> Self {
        RfCh(data[0])
    }

    fn addr() -> (a: u8) {
        0x05
    }

    fn read_len() -> (n: usize) {
        1
    }

    fn write_len(&self) -> (n: usize) {
        1
    }

    fn encode(&self, buf: &mut [u8]) {
        buf[0] = self.0;
        assert(buf@.subrange(0, 1) =~= self.bytes());
    }

    fn decode(buf: &[u8]) -> (r: Self) {
        RfCh(buf[0])
    }

    fn same_as(&self, other: &Self) -> (same: bool) {
        self.0 == other.0
    }

    proof fn lemma_address_in_map() {
    }

    proof fn lemma_round_trip(&self) {
    }

    proof fn lemma_read_parses(data: Seq<u8>) {
        assert(seq![data[0]] =~= data);
    }
}

/// RF_SETUP: air data rate and output power.
#[derive(Clone, Copy, PartialEq, Eq, Structural, Debug)]
pub struct RfSetup(pub u8);

impl RfSetup {
    /// Set for 250 kbps.
    #[verifier::allow_in_spec]
    pub fn rf_dr_low(&self) -> bool
        returns
            bit(self.0, 5),
    {
        get_bit(self.0, 5)
    }

    /// Selects or deselects 250 kbps.
    pub fn set_rf_dr_low(&mut self, value: bool)
        ensures
            final(self).0 == with_bit(old(self).0, 5, value),
            final(self).rf_dr_low() == value,
            forall|other: u8|
                other < 8 && other != 5 ==> bit(final(self).0, other) == bit(old(self).0, other),
            final(self).rf_pwr() == old(self).rf_pwr(),
    {
        proof {
            lemma_field_geometry();
            lemma_field_masks();
            lemma_with_bit_keeps_field(self.0, 5, value, 1, 0x03);
        }
        self.0 = set_bit(self.0, 5, value);
    }

    /// Set for 2 Mbps.
    #[verifier::allow_in_spec]
    pub fn rf_dr_high(&self) -> bool
        returns
            bit(self.0, 3),
    {
        get_bit(self.0, 3)
    }

    /// Selects or deselects 2 Mbps.
    pub fn set_rf_dr_high(&mut self, value: bool)
        ensures
            final(self).0 == with_bit(old(self).0, 3, value),
            final(self).rf_dr_high() == value,
            forall|other: u8|
                other < 8 && other != 3 ==> bit(final(self).0, other) == bit(old(self).0, other),
            final(self).rf_pwr() == old(self).rf_pwr(),
    {
        proof {
            lemma_field_geometry();
            lemma_field_masks();
            lemma_with_bit_keeps_field(self.0, 3, value, 1, 0x03);
        }
        self.0 = set_bit(self.0, 3, value);
    }

    /// Output power: `0` is -18 dBm, `1` -12 dBm, `2` -6 dBm, `3` 0 dBm.
    #[verifier::allow_in_spec]
    pub fn rf_pwr(&self) -> u8
        returns
            field(self.0, 1, 0x03),
    {
        proof {
            lemma_field_geometry();
        }
        get_field(self.0, 1, 0x03)
    }

    /// Sets the output power, cut to two bits.
    pub fn set_rf_pwr(&mut self, value: u8)
        ensures
            final(self).0 == with_field(old(self).0, 1, 0x03, value),
            final(self).rf_pwr() == value & 0x03,
            final(self).rf_dr_low() == old(self).rf_dr_low(),
            final(self).rf_dr_high() == old(self).rf_dr_high(),
    {
        proof {
            lemma_field_geometry();
            lemma_field_masks();
            lemma_with_field_keeps_bit(self.0, 1, 0x03, value, 5);
            lemma_with_field_keeps_bit(self.0, 1, 0x03, value, 3);
        }
        self.0 = set_field(self.0, 1, 0x03, value);
    }
}

impl Register for RfSetup {
    open spec fn address() -> u8 {
        0x06
    }

    open spec fn read_width() -> nat {
        1
    }

    open spec fn wf(&self) -> bool {
        true
    }

    open spec fn bytes(&self) -> Seq<u8> {
        seq![self.0]
    }

    open spec fn parses(data: Seq<u8>) -> bool {
        data.len() == 1
    }

    open spec fn parse(data: Seq<u8>) -> Self {
        RfSetup(data[0])
    }

    fn addr() -> (a: u8) {
        0x06
    }

    fn read_len() -> (n: usize) {
        1
    }

    fn write_len(&self) -> (n: usize) {
        1
    }

    fn encode(&self, buf: &mut [u8]) {
        buf[0] = self.0;
        assert(buf@.subrange(0, 1) =~= self.bytes());
    }

    fn decode(buf: &[u8]) -> (r: Self) {
        RfSetup(buf[0])
    }

    fn same_as(&self, other: &Self) -> (same: bool) {
        self.0 == other.0
    }

    proof fn lemma_address_in_map() {
    }

    proof fn lemma_round_trip(&self) {
    }

    proof fn lemma_read_parses(data: Seq<u8>) {
        assert(seq![data[0]] =~= data);
    }
}

/// STATUS: shifted out by the chip as the first byte of every exchange.
#[derive(Clone, Copy, PartialEq, Eq, Structural, Debug)]
pub struct Status(pub u8);

impl Status {
    /// Data has arrived in the receive queue.
    #[verifier::allow_in_spec]
    pub fn rx_dr(&self) -> bool
        returns
            bit(self.0, 6),
    {
        get_bit(self.0, 6)
    }

    /// Marks the data-ready flag; written as `true` it clears the flag on the chip.
    pub fn set_rx_dr(&mut self, value: bool)
        ensures
            final(self).0 == with_bit(old(self).0, 6, value),
            final(self).rx_dr() == value,
            forall|other: u8|
                other < 8 && other != 6 ==> bit(final(self).0, other) == bit(old(self).0, other),
            final(self).rx_p_no() == old(self).rx_p_no(),
    {
        proof {
            lemma_field_geometry();
            lemma_field_masks();
            lemma_with_bit_keeps_field(self.0, 6, value, 1, 0x07);
        }
        self.0 = set_bit(self.0, 6, value);
    }

    /// A packet has been sent (and acknowledged, where that is on).
    #[verifier::allow_in_spec]
    pub fn tx_ds(&self) -> bool
        returns
            bit(self.0, 5),
    {
        get_bit(self.0, 5)
    }

    /// Marks the data-sent flag; written as `true` it clears the flag on the chip.
    pub fn set_tx_ds(&mut self, value: bool)
        ensures
            final(self).0 == with_bit(old(self).0, 5, value),
            final(self).tx_ds() == value,
            forall|other: u8|
                other < 8 && other != 5 ==> bit(final(self).0, other) == bit(old(self).0, other),
            final(self).rx_p_no() == old(self).rx_p_no(),
    {
        proof {
            lemma_field_geometry();
            lemma_field_masks();
            lemma_with_bit_keeps_field(self.0, 5, value, 1, 0x07);
        }
        self.0 = set_bit(self.0, 5, value);
    }

    /// The packet at the head of the transmit queue has used up its retransmissions.
    #[verifier::allow_in_spec]
    pub fn max_rt(&self) -> bool
        returns
            bit(self.0, 4),
    {
        get_bit(self.0, 4)
    }

    /// Marks the retransmit-limit flag; written as `true` it clears the flag on the chip.
    pub fn set_max_rt(&mut self, value: bool)
        ensures
            final(self).0 == with_bit(old(self).0, 4, value),
            final(self).max_rt() == value,
            forall|other: u8|
                other < 8 && other != 4 ==> bit(final(self).0, other) == bit(old(self).0, other),
            final(self).rx_p_no() == old(self).rx_p_no(),
    {
        proof {
            lemma_field_geometry();
            lemma_field_masks();
            lemma_with_bit_keeps_field(self.0, 4, value, 1, 0x07);
        }
        self.0 = set_bit(self.0, 4, value);
    }

    /// Pipe of the packet at the head of the receive queue; `7` when the queue is empty.
    #[verifier::allow_in_spec]
    pub fn rx_p_no(&self) -> u8
        returns
            field(self.0, 1, 0x07),
    {
        proof {
            lemma_field_geometry();
        }
        get_field(self.0, 1, 0x07)
    }

    /// The transmit queue is full.
    #[verifier::allow_in_spec]
    pub fn tx_full(&self) -> bool
        returns
            bit(self.0, 0),
    {
        get_bit(self.0, 0)
    }
}

impl Register for Status {
    open spec fn address() -> u8 {
        0x07
    }

    open spec fn read_width() -> nat {
        1
    }

    open spec fn wf(&self) -> bool {
        true
    }

    open spec fn bytes(&self) -> Seq<u8> {
        seq![self.0]
    }

    open spec fn parses(data: Seq<u8>) -> bool {
        data.len() == 1
    }

    open spec fn parse(data: Seq<u8>) -> Self {
        Status(data[0])
    }

    fn addr() -> (a: u8) {
        0x07
    }

    fn read_len() -> (n: usize) {
        1
    }

    fn write_len(&self) -> (n: usize) {
        1
    }

    fn encode(&self, buf: &mut [u8]) {
        buf[0] = self.0;
        assert(buf@.subrange(0, 1) =~= self.bytes());
    }

    fn decode(buf: &[u8]) -> (r: Self) {
        Status(buf[0])
    }

    fn same_as(&self, other: &Self) -> (same: bool) {
        self.0 == other.0
    }

    proof fn lemma_address_in_map() {
    }

    proof fn lemma_round_trip(&self) {
    }

    proof fn lemma_read_parses(data: Seq<u8>) {
        assert(seq![data[0]] =~= data);
    }
}

/// OBSERVE_TX: transmission statistics.
#[derive(Clone, Copy, PartialEq, Eq, Structural, Debug)]
pub struct ObserveTx(pub u8);

impl ObserveTx {
    /// Packets lost since the channel was last set.
    #[verifier::allow_in_spec]
    pub fn plos_cnt(&self) -> u8
        returns
            field(self.0, 4, 0x0f),
    {
        proof {
            lemma_field_geometry();
        }
        get_field(self.0, 4, 0x0f)
    }

    /// Retransmissions of the current packet.
    #[verifier::allow_in_spec]
    pub fn arc_cnt(&self) -> u8
        returns
            field(self.0, 0, 0x0f),
    {
        proof {
            lemma_field_geometry();
        }
        get_field(self.0, 0, 0x0f)
    }
}

impl Register for ObserveTx {
    open spec fn address() -> u8 {
        0x08
    }

    open spec fn read_width() -> nat {
        1
    }

    open spec fn wf(&self) -> bool {
        true
    }

    open spec fn bytes(&self) -> Seq<u8> {
        seq![self.0]
    }

    open spec fn parses(data: Seq<u8>) -> bool {
        data.len() == 1
    }

    open spec fn parse(data: Seq<u8>) -> Self {
        ObserveTx(data[0])
    }

    fn addr() -> (a: u8) {
        0x08
    }

    fn read_len() -> (n: usize) {
        1
    }

    fn write_len(&self) -> (n: usize) {
        1
    }

    fn encode(&self, buf: &mut [u8]) {
        buf[0] = self.0;
        assert(buf@.subrange(0, 1) =~= self.bytes());
    }

    fn decode(buf: &[u8]) -> (r: Self) {
        ObserveTx(buf[0])
    }

    fn same_as(&self, other: &Self) -> (same: bool) {
        self.0 == other.0
    }

    proof fn lemma_address_in_map() {
    }

    proof fn lemma_round_trip(&self) {
    }

    proof fn lemma_read_parses(data: Seq<u8>) {
        assert(seq![data[0]] =~= data);
    }
}

/// CD: carrier detect (received power detector on later chips).
#[derive(Clone, Copy, PartialEq, Eq, Structural, Debug)]
pub struct CD(pub u8);

impl CD {
    /// Builds the register from its one data byte.
    pub fn new(data: &[u8]) -> (register: Self)
        requires
            data@.len() == 1,
        ensures
            register.0 == data@[0],
    {
        CD(data[0])
    }

    /// Whether a carrier is detected on the current channel.
    #[verifier::allow_in_spec]
    pub fn cd(&self) -> bool
        returns
            bit(self.0, 0),
    {
        get_bit(self.0, 0)
    }
}

impl Register for CD {
    open spec fn address() -> u8 {
        0x09
    }

    open spec fn read_width() -> nat {
        1
    }

    open spec fn wf(&self) -> bool {
        true
    }

    open spec fn bytes(&self) -> Seq<u8> {
        seq![self.0]
    }

    open spec fn parses(data: Seq<u8>) -> bool {
        data.len() == 1
    }

    open spec fn parse(data: Seq<u8>) -> Self {
        CD(data[0])
    }

    fn addr() -> (a: u8) {
        0x09
    }

    fn read_len() -> (n: usize) {
        1
    }

    fn write_len(&self) -> (n: usize) {
        1
    }

    fn encode(&self, buf: &mut [u8]) {
        buf[0] = self.0;
        assert(buf@.subrange(0, 1) =~= self.bytes());
    }

    fn decode(buf: &[u8]) -> (r: Self) {
        CD(buf[0])
    }

    fn same_as(&self, other: &Self) -> (same: bool) {
        self.0 == other.0
    }

    proof fn lemma_address_in_map() {
    }

    proof fn lemma_round_trip(&self) {
    }

    proof fn lemma_read_parses(data: Seq<u8>) {
        assert(seq![data[0]] =~= data);
    }
}

/// The address held by `data`, padded with zeros to the full width.
pub open spec fn padded_address(data: Seq<u8>) -> Seq<u8> {
    Seq::new(MAX_ADDR_BYTES as nat, |i: int| if i < data.len() { data[i] } else { 0u8 })
}

/// Whether `len` is an address width that the chip supports.
pub open spec fn valid_address_width(len: int) -> bool {
    MIN_ADDR_BYTES <= len <= MAX_ADDR_BYTES
}

/// Copies an address of three to five bytes into zero-padded storage.
fn load_address(buf: &[u8]) -> (addr: [u8; MAX_ADDR_BYTES])
    requires
        valid_address_width(buf@.len() as int),
    ensures
        addr@ == padded_address(buf@),
{
    let mut addr: [u8; MAX_ADDR_BYTES] = [0, 0, 0, 0, 0];
    let len = buf.len();
    let mut i: usize = 0;
    while i < len
        invariant
            len == buf@.len(),
            i <= len <= MAX_ADDR_BYTES,
            forall|k: int| 0 <= k < i ==> addr@[k] == buf@[k],
            forall|k: int| i <= k < MAX_ADDR_BYTES ==> addr@[k] == 0,
        decreases len - i,
    {
        addr[i] = buf[i];
        i += 1;
    }
    assert(addr@ =~= padded_address(buf@));
    addr
}

/// Copies the first `len` bytes of a stored address to the front of `buf`.
fn store_address(addr: &[u8; MAX_ADDR_BYTES], len: usize, buf: &mut [u8])
    requires
        len <= MAX_ADDR_BYTES,
        len <= old(buf)@.len(),
    ensures
        final(buf)@.len() == old(buf)@.len(),
        final(buf)@.subrange(0, len as int) == addr@.subrange(0, len as int),
{
    let mut i: usize = 0;
    while i < len
        invariant
            buf@.len() == old(buf)@.len(),
            i <= len <= MAX_ADDR_BYTES,
            len <= buf@.len(),
            forall|k: int| 0 <= k < i ==> buf@[k] == addr@[k],
        decreases len - i,
    {
        buf[i] = addr[i];
        i += 1;
    }
    assert(buf@.subrange(0, len as int) =~= addr@.subrange(0, len as int));
}

/// Compares two stored addresses byte by byte.
fn same_address(a: &[u8; MAX_ADDR_BYTES], b: &[u8; MAX_ADDR_BYTES]) -> (same: bool)
    ensures
        same == (*a == *b),
{
    let mut i: usize = 0;
    while i < MAX_ADDR_BYTES
        invariant
            i <= MAX_ADDR_BYTES,
            forall|k: int| 0 <= k < i ==> a@[k] == b@[k],
        decreases MAX_ADDR_BYTES - i,
    {
        if a[i] != b[i] {
            return false;
        }
        i += 1;
    }
    assert(*a =~= *b);
    true
}

/// RX_ADDR_P0: receive address of pipe 0, three to five bytes.
#[derive(Clone, Copy, Debug)]
pub struct RxAddrP0 {
    addr: [u8; MAX_ADDR_BYTES],
    len: u8,
}

impl RxAddrP0 {
    /// The address, least significant byte first.
    pub closed spec fn view(&self) -> Seq<u8> {
        self.addr@.subrange(0, self.len as int)
    }

    /// The register that holds the address `buf`, of three to five bytes.
    pub fn new(buf: &[u8]) -> (register: Self)
        requires
            valid_address_width(buf@.len() as int),
        ensures
            register@ == buf@,
            register.wf(),
            register == Self::parse(buf@),
    {
        Self::decode(buf)
    }
}

impl Register for RxAddrP0 {
    open spec fn address() -> u8 {
        0x0A
    }

    open spec fn read_width() -> nat {
        MAX_ADDR_BYTES as nat
    }

    closed spec fn wf(&self) -> bool {
        &&& valid_address_width(self.len as int)
        &&& self.addr@ == padded_address(self@)
    }

    open spec fn bytes(&self) -> Seq<u8> {
        self@
    }

    open spec fn parses(data: Seq<u8>) -> bool {
        valid_address_width(data.len() as int)
    }

    closed spec fn parse(data: Seq<u8>) -> Self {
        RxAddrP0 {
            addr: [
                padded_address(data)[0],
                padded_address(data)[1],
                padded_address(data)[2],
                padded_address(data)[3],
                padded_address(data)[4],
            ],
            len: data.len() as u8,
        }
    }

    fn addr() -> (a: u8) {
        0x0A
    }

    fn read_len() -> (n: usize) {
        MAX_ADDR_BYTES
    }

    fn write_len(&self) -> (n: usize) {
        self.len as usize
    }

    fn encode(&self, buf: &mut [u8]) {
        store_address(&self.addr, self.len as usize, buf);
    }

    fn decode(buf: &[u8]) -> (r: Self) {
        assert(Self::parses(buf@));
        let addr = load_address(buf);
        let r = RxAddrP0 { addr, len: buf.len() as u8 };
        proof {
            assert(r@ =~= buf@);
            assert(r.addr =~= Self::parse(buf@).addr);
        }
        r
    }

    fn same_as(&self, other: &Self) -> (same: bool) {
        self.len == other.len && same_address(&self.addr, &other.addr)
    }

    proof fn lemma_address_in_map() {
    }

    proof fn lemma_round_trip(&self) {
        assert(self@.len() == self.len);
        assert(Self::parse(self.bytes()).addr =~= self.addr);
    }

    proof fn lemma_read_parses(data: Seq<u8>) {
        let r = Self::parse(data);
        assert(r.addr@ =~= padded_address(data));
        assert(r@ =~= data);
    }
}

/// RX_ADDR_P1: receive address of pipe 1, three to five bytes. Pipes 2 to
/// 5 share all but its least significant byte.
#[derive(Clone, Copy, Debug)]
pub struct RxAddrP1 {
    addr: [u8; MAX_ADDR_BYTES],
    len: u8,
}

impl RxAddrP1 {
    /// The address, least significant byte first.
    pub closed spec fn view(&self) -> Seq<u8> {
        self.addr@.subrange(0, self.len as int)
    }

    /// The register that holds the address `buf`, of three to five bytes.
    pub fn new(buf: &[u8]) -> (register: Self)
        requires
            valid_address_width(buf@.len() as int),
        ensures
            register@ == buf@,
            register.wf(),
            register == Self::parse(buf@),
    {
        Self::decode(buf)
    }
}

impl Register for RxAddrP1 {
    open spec fn address() -> u8 {
        0x0B
    }

    open spec fn read_width() -> nat {
        MAX_ADDR_BYTES as nat
    }

    closed spec fn wf(&self) -> bool {
        &&& valid_address_width(self.len as int)
        &&& self.addr@ == padded_address(self@)
    }

    open spec fn bytes(&self) -> Seq<u8> {
        self@
    }

    open spec fn parses(data: Seq<u8>) -> bool {
        valid_address_width(data.len() as int)
    }

    closed spec fn parse(data: Seq<u8>) -> Self {
        RxAddrP1 {
            addr: [
                padded_address(data)[0],
                padded_address(data)[1],
                padded_address(data)[2],
                padded_address(data)[3],
                padded_address(data)[4],
            ],
            len: data.len() as u8,
        }
    }

    fn addr() -> (a: u8) {
        0x0B
    }

    fn read_len() -> (n: usize) {
        MAX_ADDR_BYTES
    }

    fn write_len(&self) -> (n: usize) {
        self.len as usize
    }

    fn encode(&self, buf: &mut [u8]) {
        store_address(&self.addr, self.len as usize, buf);
    }

    fn decode(buf: &[u8]) -> (r: Self) {
        assert(Self::parses(buf@));
        let addr = load_address(buf);
        let r = RxAddrP1 { addr, len: buf.len() as u8 };
        proof {
            assert(r@ =~= buf@);
            assert(r.addr =~= Self::parse(buf@).addr);
        }
        r
    }

    fn same_as(&self, other: &Self) -> (same: bool) {
        self.len == other.len && same_address(&self.addr, &other.addr)
    }

    proof fn lemma_address_in_map() {
    }

    proof fn lemma_round_trip(&self) {
        assert(self@.len() == self.len);
        assert(Self::parse(self.bytes()).addr =~= self.addr);
    }

    proof fn lemma_read_parses(data: Seq<u8>) {
        let r = Self::parse(data);
        assert(r.addr@ =~= padded_address(data));
        assert(r@ =~= data);
    }
}

/// RX_ADDR_P2: least significant address byte of pipe 2.
#[derive(Clone, Copy, PartialEq, Eq, Structural, Debug)]
pub struct RxAddrP2(pub u8);

impl RxAddrP2 {
    /// Builds the register from its one data byte.
    pub fn new(data: &[u8]) -> (register: Self)
        requires
            data@.len() == 1,
        ensures
            register.0 == data@[0],
    {
        RxAddrP2(data[0])
    }
}

impl Register for RxAddrP2 {
    open spec fn address() -> u8 {
        0x0C
    }

    open spec fn read_width() -> nat {
        1
    }

    open spec fn wf(&self) -> bool {
        true
    }

    open spec fn bytes(&self) -> Seq<u8> {
        seq![self.0]
    }

    open spec fn parses(data: Seq<u8>) -> bool {
        data.len() == 1
    }

    open spec fn parse(data: Seq<u8>) -> Self {
        RxAddrP2(data[0])
    }

    fn addr() -> (a: u8) {
        0x0C
    }

    fn read_len() -> (n: usize) {
        1
    }

    fn write_len(&self) -> (n: usize) {
        1
    }

    fn encode(&self, buf: &mut [u8]) {
        buf[0] = self.0;
        assert(buf@.subrange(0, 1) =~= self.bytes());
    }

    fn decode(buf: &[u8]) -> (r: Self) {
        RxAddrP2(buf[0])
    }

    fn same_as(&self, other: &Self) -> (same: bool) {
        self.0 == other.0
    }

    proof fn lemma_address_in_map() {
    }

    proof fn lemma_round_trip(&self) {
    }

    proof fn lemma_read_parses(data: Seq<u8>) {
        assert(seq![data[0]] =~= data);
    }
}

/// RX_ADDR_P3: least significant address byte of pipe 3.
#[derive(Clone, Copy, PartialEq, Eq, Structural, Debug)]
pub struct RxAddrP3(pub u8);

impl RxAddrP3 {
    /// Builds the register from its one data byte.
    pub fn new(data: &[u8]) -> (register: Self)
        requires
            data@.len() == 1,
        ensures
            register.0 == data@[0],
    {
        RxAddrP3(data[0])
    }
}

impl Register for RxAddrP3 {
    open spec fn address() -> u8 {
        0x0D
    }

    open spec fn read_width() -> nat {
        1
    }

    open spec fn wf(&self) -> bool {
        true
    }

    open spec fn bytes(&self) -> Seq<u8> {
        seq![self.0]
    }

    open spec fn parses(data: Seq<u8>) -> bool {
        data.len() == 1
    }

    open spec fn parse(data: Seq<u8>) -> Self {
        RxAddrP3(data[0])
    }

    fn addr() -> (a: u8) {
        0x0D
    }

    fn read_len() -> (n: usize) {
        1
    }

    fn write_len(&self) -> (n: usize) {
        1
    }

    fn encode(&self, buf: &mut [u8]) {
        buf[0] = self.0;
        assert(buf@.subrange(0, 1) =~= self.bytes());
    }

    fn decode(buf: &[u8]) -> (r: Self) {
        RxAddrP3(buf[0])
    }

    fn same_as(&self, other: &Self) -> (same: bool) {
        self.0 == other.0
    }

    proof fn lemma_address_in_map() {
    }

    proof fn lemma_round_trip(&self) {
    }

    proof fn lemma_read_parses(data: Seq<u8>) {
        assert(seq![data[0]] =~= data);
    }
}

/// RX_ADDR_P4: least significant address byte of pipe 4.
#[derive(Clone, Copy, PartialEq, Eq, Structural, Debug)]
pub struct RxAddrP4(pub u8);

impl RxAddrP4 {
    /// Builds the register from its one data byte.
    pub fn new(data: &[u8]) -> (register: Self)
        requires
            data@.len() == 1,
        ensures
            register.0 == data@[0],
    {
        RxAddrP4(data[0])
    }
}

impl Register for RxAddrP4 {
    open spec fn address() -> u8 {
        0x0E
    }

    open spec fn read_width() -> nat {
        1
    }

    open spec fn wf(&self) -> bool {
        true
    }

    open spec fn bytes(&self) -> Seq<u8> {
        seq![self.0]
    }

    open spec fn parses(data: Seq<u8>) -> bool {
        data.len() == 1
    }

    open spec fn parse(data: Seq<u8>) -> Self {
        RxAddrP4(data[0])
    }

    fn addr() -> (a: u8) {
        0x0E
    }

    fn read_len() -> (n: usize) {
        1
    }

    fn write_len(&self) -> (n: usize) {
        1
    }

    fn encode(&self, buf: &mut [u8]) {
        buf[0] = self.0;
        assert(buf@.subrange(0, 1) =~= self.bytes());
    }

    fn decode(buf: &[u8]) -> (r: Self) {
        RxAddrP4(buf[0])
    }

    fn same_as(&self, other: &Self) -> (same: bool) {
        self.0 == other.0
    }

    proof fn lemma_address_in_map() {
    }

    proof fn lemma_round_trip(&self) {
    }

    proof fn lemma_read_parses(data: Seq<u8>) {
        assert(seq![data[0]] =~= data);
    }
}

/// RX_ADDR_P5: least significant address byte of pipe 5.
#[derive(Clone, Copy, PartialEq, Eq, Structural, Debug)]
pub struct RxAddrP5(pub u8);

impl RxAddrP5 {
    /// Builds the register from its one data byte.
    pub fn new(data: &[u8]) -> (register: Self)
        requires
            data@.len() == 1,
        ensures
            register.0 == data@[0],
    {
        RxAddrP5(data[0])
    }
}

impl Register for RxAddrP5 {
    open spec fn address() -> u8 {
        0x0F
    }

    open spec fn read_width() -> nat {
        1
    }

    open spec fn wf(&self) -> bool {
        true
    }

    open spec fn bytes(&self) -> Seq<u8> {
        seq![self.0]
    }

    open spec fn parses(data: Seq<u8>) -> bool {
        data.len() == 1
    }

    open spec fn parse(data: Seq<u8>) -> Self {
        RxAddrP5(data[0])
    }

    fn addr() -> (a: u8) {
        0x0F
    }

    fn read_len() -> (n: usize) {
        1
    }

    fn write_len(&self) -> (n: usize) {
        1
    }

    fn encode(&self, buf: &mut [u8]) {
        buf[0] = self.0;
        assert(buf@.subrange(0, 1) =~= self.bytes());
    }

    fn decode(buf: &[u8]) -> (r: Self) {
        RxAddrP5(buf[0])
    }

    fn same_as(&self, other: &Self) -> (same: bool) {
        self.0 == other.0
    }

    proof fn lemma_address_in_map() {
    }

    proof fn lemma_round_trip(&self) {
    }

    proof fn lemma_read_parses(data: Seq<u8>) {
        assert(seq![data[0]] =~= data);
    }
}

/// TX_ADDR: destination address of transmitted packets, three to five
/// bytes.
#[derive(Clone, Copy, Debug)]
pub struct TxAddr {
    addr: [u8; MAX_ADDR_BYTES],
    len: u8,
}

impl TxAddr {
    /// The address, least significant byte first.
    pub closed spec fn view(&self) -> Seq<u8> {
        self.addr@.subrange(0, self.len as int)
    }

    /// The register that holds the address `buf`, of three to five bytes.
    pub fn new(buf: &[u8]) -> (register: Self)
        requires
            valid_address_width(buf@.len() as int),
        ensures
            register@ == buf@,
            register.wf(),
            register == Self::parse(buf@),
    {
        Self::decode(buf)
    }
}

impl Register for TxAddr {
    open spec fn address() -> u8 {
        0x10
    }

    open spec fn read_width() -> nat {
        MAX_ADDR_BYTES as nat
    }

    closed spec fn wf(&self) -> bool {
        &&& valid_address_width(self.len as int)
        &&& self.addr@ == padded_address(self@)
    }

    open spec fn bytes(&self) -> Seq<u8> {
        self@
    }

    open spec fn parses(data: Seq<u8>) -> bool {
        valid_address_width(data.len() as int)
    }

    closed spec fn parse(data: Seq<u8>) -> Self {
        TxAddr {
            addr: [
                padded_address(data)[0],
                padded_address(data)[1],
                padded_address(data)[2],
                padded_address(data)[3],
                padded_address(data)[4],
            ],
            len: data.len() as u8,
        }
    }

    fn addr() -> (a: u8) {
        0x10
    }

    fn read_len() -> (n: usize) {
        MAX_ADDR_BYTES
    }

    fn write_len(&self) -> (n: usize) {
        self.len as usize
    }

    fn encode(&self, buf: &mut [u8]) {
        store_address(&self.addr, self.len as usize, buf);
    }

    fn decode(buf: &[u8]) -> (r: Self) {
        assert(Self::parses(buf@));
        let addr = load_address(buf);
        let r = TxAddr { addr, len: buf.len() as u8 };
        proof {
            assert(r@ =~= buf@);
            assert(r.addr =~= Self::parse(buf@).addr);
        }
        r
    }

    fn same_as(&self, other: &Self) -> (same: bool) {
        self.len == other.len && same_address(&self.addr, &other.addr)
    }

    proof fn lemma_address_in_map() {
    }

    proof fn lemma_round_trip(&self) {
        assert(self@.len() == self.len);
        assert(Self::parse(self.bytes()).addr =~= self.addr);
    }

    proof fn lemma_read_parses(data: Seq<u8>) {
        let r = Self::parse(data);
        assert(r.addr@ =~= padded_address(data));
        assert(r@ =~= data);
    }
}

/// RX_PW_P0: static payload length of pipe 0.
#[derive(Clone, Copy, PartialEq, Eq, Structural, Debug)]
pub struct RxPwP0(pub u8);

impl RxPwP0 {
    /// Number of bytes in a payload received on this pipe.
    #[verifier::allow_in_spec]
    pub fn get(&self) -> u8
        returns
            field(self.0, 0, 0x3f),
    {
        proof {
            lemma_field_geometry();
        }
        get_field(self.0, 0, 0x3f)
    }

    /// Sets the payload length, cut to six bits.
    pub fn set(&mut self, value: u8)
        ensures
            final(self).0 == with_field(old(self).0, 0, 0x3f, value),
            final(self).get() == value & 0x3f,
    {
        proof {
            lemma_field_geometry();
        }
        self.0 = set_field(self.0, 0, 0x3f, value);
    }
}

impl Register for RxPwP0 {
    open spec fn address() -> u8 {
        0x11
    }

    open spec fn read_width() -> nat {
        1
    }

    open spec fn wf(&self) -> bool {
        true
    }

    open spec fn bytes(&self) -> Seq<u8> {
        seq![self.0]
    }

    open spec fn parses(data: Seq<u8>) -> bool {
        data.len() == 1
    }

    open spec fn parse(data: Seq<u8>) -> Self {
        RxPwP0(data[0])
    }

    fn addr() -> (a: u8) {
        0x11
    }

    fn read_len() -> (n: usize) {
        1
    }

    fn write_len(&self) -> (n: usize) {
        1
    }

    fn encode(&self, buf: &mut [u8]) {
        buf[0] = self.0;
        assert(buf@.subrange(0, 1) =~= self.bytes());
    }

    fn decode(buf: &[u8]) -> (r: Self) {
        RxPwP0(buf[0])
    }

    fn same_as(&self, other: &Self) -> (same: bool) {
        self.0 == other.0
    }

    proof fn lemma_address_in_map() {
    }

    proof fn lemma_round_trip(&self) {
    }

    proof fn lemma_read_parses(data: Seq<u8>) {
        assert(seq![data[0]] =~= data);
    }
}

/// RX_PW_P1: static payload length of pipe 1.
#[derive(Clone, Copy, PartialEq, Eq, Structural, Debug)]
pub struct RxPwP1(pub u8);

impl RxPwP1 {
    /// Number of bytes in a payload received on this pipe.
    #[verifier::allow_in_spec]
    pub fn get(&self) -> u8
        returns
            field(self.0, 0, 0x3f),
    {
        proof {
            lemma_field_geometry();
        }
        get_field(self.0, 0, 0x3f)
    }

    /// Sets the payload length, cut to six bits.
    pub fn set(&mut self, value: u8)
        ensures
            final(self).0 == with_field(old(self).0, 0, 0x3f, value),
            final(self).get() == value & 0x3f,
    {
        proof {
            lemma_field_geometry();
        }
        self.0 = set_field(self.0, 0, 0x3f, value);
    }
}

impl Register for RxPwP1 {
    open spec fn address() -> u8 {
        0x12
    }

    open spec fn read_width() -> nat {
        1
    }

    open spec fn wf(&self) -> bool {
        true
    }

    open spec fn bytes(&self) -> Seq<u8> {
        seq![self.0]
    }

    open spec fn parses(data: Seq<u8>) -> bool {
        data.len() == 1
    }

    open spec fn parse(data: Seq<u8>) -> Self {
        RxPwP1(data[0])
    }

    fn addr() -> (a: u8) {
        0x12
    }

    fn read_len() -> (n: usize) {
        1
    }

    fn write_len(&self) -> (n: usize) {
        1
    }

    fn encode(&self, buf: &mut [u8]) {
        buf[0] = self.0;
        assert(buf@.subrange(0, 1) =~= self.bytes());
    }

    fn decode(buf: &[u8]) -> (r: Self) {
        RxPwP1(buf[0])
    }

    fn same_as(&self, other: &Self) -> (same: bool) {
        self.0 == other.0
    }

    proof fn lemma_address_in_map() {
    }

    proof fn lemma_round_trip(&self) {
    }

    proof fn lemma_read_parses(data: Seq<u8>) {
        assert(seq![data[0]] =~= data);
    }
}

/// RX_PW_P2: static payload length of pipe 2.
#[derive(Clone, Copy, PartialEq, Eq, Structural, Debug)]
pub struct RxPwP2(pub u8);

impl RxPwP2 {
    /// Number of bytes in a payload received on this pipe.
    #[verifier::allow_in_spec]
    pub fn get(&self) -> u8
        returns
            field(self.0, 0, 0x3f),
    {
        proof {
            lemma_field_geometry();
        }
        get_field(self.0, 0, 0x3f)
    }

    /// Sets the payload length, cut to six bits.
    pub fn set(&mut self, value: u8)
        ensures
            final(self).0 == with_field(old(self).0, 0, 0x3f, value),
            final(self).get() == value & 0x3f,
    {
        proof {
            lemma_field_geometry();
        }
        self.0 = set_field(self.0, 0, 0x3f, value);
    }
}

impl Register for RxPwP2 {
    open spec fn address() -> u8 {
        0x13
    }

    open spec fn read_width() -> nat {
        1
    }

    open spec fn wf(&self) -> bool {
        true
    }

    open spec fn bytes(&self) -> Seq<u8> {
        seq![self.0]
    }

    open spec fn parses(data: Seq<u8>) -> bool {
        data.len() == 1
    }

    open spec fn parse(data: Seq<u8>) -> Self {
        RxPwP2(data[0])
    }

    fn addr() -> (a: u8) {
        0x13
    }

    fn read_len() -> (n: usize) {
        1
    }

    fn write_len(&self) -> (n: usize) {
        1
    }

    fn encode(&self, buf: &mut [u8]) {
        buf[0] = self.0;
        assert(buf@.subrange(0, 1) =~= self.bytes());
    }

    fn decode(buf: &[u8]) -> (r: Self) {
        RxPwP2(buf[0])
    }

    fn same_as(&self, other: &Self) -> (same: bool) {
        self.0 == other.0
    }

    proof fn lemma_address_in_map() {
    }

    proof fn lemma_round_trip(&self) {
    }

    proof fn lemma_read_parses(data: Seq<u8>) {
        assert(seq![data[0]] =~= data);
    }
}

/// RX_PW_P3: static payload length of pipe 3.
#[derive(Clone, Copy, PartialEq, Eq, Structural, Debug)]
pub struct RxPwP3(pub u8);

impl RxPwP3 {
    /// Number of bytes in a payload received on this pipe.
    #[verifier::allow_in_spec]
    pub fn get(&self) -> u8
        returns
            field(self.0, 0, 0x3f),
    {
        proof {
            lemma_field_geometry();
        }
        get_field(self.0, 0, 0x3f)
    }

    /// Sets the payload length, cut to six bits.
    pub fn set(&mut self, value: u8)
        ensures
            final(self).0 == with_field(old(self).0, 0, 0x3f, value),
            final(self).get() == value & 0x3f,
    {
        proof {
            lemma_field_geometry();
        }
        self.0 = set_field(self.0, 0, 0x3f, value);
    }
}

impl Register for RxPwP3 {
    open spec fn address() -> u8 {
        0x14
    }

    open spec fn read_width() -> nat {
        1
    }

    open spec fn wf(&self) -> bool {
        true
    }

    open spec fn bytes(&self) -> Seq<u8> {
        seq![self.0]
    }

    open spec fn parses(data: Seq<u8>) -> bool {
        data.len() == 1
    }

    open spec fn parse(data: Seq<u8>) -> Self {
        RxPwP3(data[0])
    }

    fn addr() -> (a: u8) {
        0x14
    }

    fn read_len() -> (n: usize) {
        1
    }

    fn write_len(&self) -> (n: usize) {
        1
    }

    fn encode(&self, buf: &mut [u8]) {
        buf[0] = self.0;
        assert(buf@.subrange(0, 1) =~= self.bytes());
    }

    fn decode(buf: &[u8]) -> (r: Self) {
        RxPwP3(buf[0])
    }

    fn same_as(&self, other: &Self) -> (same: bool) {
        self.0 == other.0
    }

    proof fn lemma_address_in_map() {
    }

    proof fn lemma_round_trip(&self) {
    }

    proof fn lemma_read_parses(data: Seq<u8>) {
        assert(seq![data[0]] =~= data);
    }
}

/// RX_PW_P4: static payload length of pipe 4.
#[derive(Clone, Copy, PartialEq, Eq, Structural, Debug)]
pub struct RxPwP4(pub u8);

impl RxPwP4 {
    /// Number of bytes in a payload received on this pipe.
    #[verifier::allow_in_spec]
    pub fn get(&self) -> u8
        returns
            field(self.0, 0, 0x3f),
    {
        proof {
            lemma_field_geometry();
        }
        get_field(self.0, 0, 0x3f)
    }

    /// Sets the payload length, cut to six bits.
    pub fn set(&mut self, value: u8)
        ensures
            final(self).0 == with_field(old(self).0, 0, 0x3f, value),
            final(self).get() == value & 0x3f,
    {
        proof {
            lemma_field_geometry();
        }
        self.0 = set_field(self.0, 0, 0x3f, value);
    }
}

impl Register for RxPwP4 {
    open spec fn address() -> u8 {
        0x15
    }

    open spec fn read_width() -> nat {
        1
    }

    open spec fn wf(&self) -> bool {
        true
    }

    open spec fn bytes(&self) -> Seq<u8> {
        seq![self.0]
    }

    open spec fn parses(data: Seq<u8>) -> bool {
        data.len() == 1
    }

    open spec fn parse(data: Seq<u8>) -> Self {
        RxPwP4(data[0])
    }

    fn addr() -> (a: u8) {
        0x15
    }

    fn read_len() -> (n: usize) {
        1
    }

    fn write_len(&self) -> (n: usize) {
        1
    }

    fn encode(&self, buf: &mut [u8]) {
        buf[0] = self.0;
        assert(buf@.subrange(0, 1) =~= self.bytes());
    }

    fn decode(buf: &[u8]) -> (r: Self) {
        RxPwP4(buf[0])
    }

    fn same_as(&self, other: &Self) -> (same: bool) {
        self.0 == other.0
    }

    proof fn lemma_address_in_map() {
    }

    proof fn lemma_round_trip(&self) {
    }

    proof fn lemma_read_parses(data: Seq<u8>) {
        assert(seq![data[0]] =~= data);
    }
}

/// RX_PW_P5: static payload length of pipe 5.
#[derive(Clone, Copy, PartialEq, Eq, Structural, Debug)]
pub struct RxPwP5(pub u8);

impl RxPwP5 {
    /// Number of bytes in a payload received on this pipe.
    #[verifier::allow_in_spec]
    pub fn get(&self) -> u8
        returns
            field(self.0, 0, 0x3f),
    {
        proof {
            lemma_field_geometry();
        }
        get_field(self.0, 0, 0x3f)
    }

    /// Sets the payload length, cut to six bits.
    pub fn set(&mut self, value: u8)
        ensures
            final(self).0 == with_field(old(self).0, 0, 0x3f, value),
            final(self).get() == value & 0x3f,
    {
        proof {
            lemma_field_geometry();
        }
        self.0 = set_field(self.0, 0, 0x3f, value);
    }
}

impl Register for RxPwP5 {
    open spec fn address() -> u8 {
        0x16
    }

    open spec fn read_width() -> nat {
        1
    }

    open spec fn wf(&self) -> bool {
        true
    }

    open spec fn bytes(&self) -> Seq<u8> {
        seq![self.0]
    }

    open spec fn parses(data: Seq<u8>) -> bool {
        data.len() == 1
    }

    open spec fn parse(data: Seq<u8>) -> Self {
        RxPwP5(data[0])
    }

    fn addr() -> (a: u8) {
        0x16
    }

    fn read_len() -> (n: usize) {
        1
    }

    fn write_len(&self) -> (n: usize) {
        1
    }

    fn encode(&self, buf: &mut [u8]) {
        buf[0] = self.0;
        assert(buf@.subrange(0, 1) =~= self.bytes());
    }

    fn decode(buf: &[u8]) -> (r: Self) {
        RxPwP5(buf[0])
    }

    fn same_as(&self, other: &Self) -> (same: bool) {
        self.0 == other.0
    }

    proof fn lemma_address_in_map() {
    }

    proof fn lemma_round_trip(&self) {
    }

    proof fn lemma_read_parses(data: Seq<u8>) {
        assert(seq![data[0]] =~= data);
    }
}

/// FIFO_STATUS: fill state of the receive and transmit queues.
#[derive(Clone, Copy, PartialEq, Eq, Structural, Debug)]
pub struct FifoStatus(pub u8);

impl FifoStatus {
    /// The last transmitted payload is being reused.
    #[verifier::allow_in_spec]
    pub fn tx_reuse(&self) -> bool
        returns
            bit(self.0, 6),
    {
        get_bit(self.0, 6)
    }

    /// The transmit queue is full.
    #[verifier::allow_in_spec]
    pub fn tx_full(&self) -> bool
        returns
            bit(self.0, 5),
    {
        get_bit(self.0, 5)
    }

    /// The transmit queue is empty.
    #[verifier::allow_in_spec]
    pub fn tx_empty(&self) -> bool
        returns
            bit(self.0, 4),
    {
        get_bit(self.0, 4)
    }

    /// The receive queue is full.
    #[verifier::allow_in_spec]
    pub fn rx_full(&self) -> bool
        returns
            bit(self.0, 1),
    {
        get_bit(self.0, 1)
    }

    /// The receive queue is empty.
    #[verifier::allow_in_spec]
    pub fn rx_empty(&self) -> bool
        returns
            bit(self.0, 0),
    {
        get_bit(self.0, 0)
    }
}

impl Register for FifoStatus {
    open spec fn address() -> u8 {
        0x17
    }

    open spec fn read_width() -> nat {
        1
    }

    open spec fn wf(&self) -> bool {
        true
    }

    open spec fn bytes(&self) -> Seq<u8> {
        seq![self.0]
    }

    open spec fn parses(data: Seq<u8>) -> bool {
        data.len() == 1
    }

    open spec fn parse(data: Seq<u8>) -> Self {
        FifoStatus(data[0])
    }

    fn addr() -> (a: u8) {
        0x17
    }

    fn read_len() -> (n: usize) {
        1
    }

    fn write_len(&self) -> (n: usize) {
        1
    }

    fn encode(&self, buf: &mut [u8]) {
        buf[0] = self.0;
        assert(buf@.subrange(0, 1) =~= self.bytes());
    }

    fn decode(buf: &[u8]) -> (r: Self) {
        FifoStatus(buf[0])
    }

    fn same_as(&self, other: &Self) -> (same: bool) {
        self.0 == other.0
    }

    proof fn lemma_address_in_map() {
    }

    proof fn lemma_round_trip(&self) {
    }

    proof fn lemma_read_parses(data: Seq<u8>) {
        assert(seq![data[0]] =~= data);
    }
}

/// DYNPD: dynamic payload length, one flag per pipe.
#[derive(Clone, Copy, PartialEq, Eq, Structural, Debug)]
pub struct Dynpd(pub u8);

impl Dynpd {
    /// Whether the payload length is dynamic on pipe `pipe_no`.
    #[verifier::allow_in_spec]
    pub fn dpl_p(&self, pipe_no: usize) -> bool
        requires
            pipe_no < 8,
        returns
            bit(self.0, pipe_no as u8),
    {
        get_bit(self.0, pipe_no as u8)
    }

    /// Sets the flag of pipe `pipe_no` and leaves the others as they were.
    pub fn set_dpl_p(&mut self, pipe_no: usize, enable: bool)
        requires
            pipe_no < 8,
        ensures
            final(self).0 == with_bit(old(self).0, pipe_no as u8, enable),
            final(self).dpl_p(pipe_no) == enable,
            forall|other: u8|
                other < 8 && other != pipe_no ==> bit(final(self).0, other) == bit(
                    old(self).0,
                    other,
                ),
    {
        self.0 = set_bit(self.0, pipe_no as u8, enable);
    }

    /// The register that holds exactly these flags, bit index equal to
    /// pipe index, and no bit above them.
    pub fn from_bools(bools: &[bool; PIPES_COUNT]) -> (register: Self)
        ensures
            register.0 == packed_flags(bools@, PIPES_COUNT as nat),
            holds_pipe_flags(register.0, bools@),
            pipe_flags(register.0) == bools@,
    {
        Dynpd(pack_pipe_flags(bools))
    }

    /// The flags of the six pipes, entry `i` for pipe `i`.
    pub fn to_bools(&self) -> (bools: [bool; PIPES_COUNT])
        ensures
            bools@ == pipe_flags(self.0),
    {
        unpack_pipe_flags(self.0)
    }
}

impl Register for Dynpd {
    open spec fn address() -> u8 {
        0x1C
    }

    open spec fn read_width() -> nat {
        1
    }

    open spec fn wf(&self) -> bool {
        true
    }

    open spec fn bytes(&self) -> Seq<u8> {
        seq![self.0]
    }

    open spec fn parses(data: Seq<u8>) -> bool {
        data.len() == 1
    }

    open spec fn parse(data: Seq<u8>) -> Self {
        Dynpd(data[0])
    }

    fn addr() -> (a: u8) {
        0x1C
    }

    fn read_len() -> (n: usize) {
        1
    }

    fn write_len(&self) -> (n: usize) {
        1
    }

    fn encode(&self, buf: &mut [u8]) {
        buf[0] = self.0;
        assert(buf@.subrange(0, 1) =~= self.bytes());
    }

    fn decode(buf: &[u8]) -> (r: Self) {
        Dynpd(buf[0])
    }

    fn same_as(&self, other: &Self) -> (same: bool) {
        self.0 == other.0
    }

    proof fn lemma_address_in_map() {
    }

    proof fn lemma_round_trip(&self) {
    }

    proof fn lemma_read_parses(data: Seq<u8>) {
        assert(seq![data[0]] =~= data);
    }
}

/// FEATURE: optional features of the link protocol.
#[derive(Clone, Copy, PartialEq, Eq, Structural, Debug)]
pub struct Feature(pub u8);

impl Feature {
    /// Whether dynamic payload length is enabled.
    #[verifier::allow_in_spec]
    pub fn en_dpl(&self) -> bool
        returns
            bit(self.0, 2),
    {
        get_bit(self.0, 2)
    }

    /// Enables or disables dynamic payload length.
    pub fn set_en_dpl(&mut self, value: bool)
        ensures
            final(self).0 == with_bit(old(self).0, 2, value),
            final(self).en_dpl() == value,
            forall|other: u8|
                other < 8 && other != 2 ==> bit(final(self).0, other) == bit(old(self).0, other),
    {
        self.0 = set_bit(self.0, 2, value);
    }

    /// Whether acknowledgements may carry a payload.
    #[verifier::allow_in_spec]
    pub fn en_ack_pay(&self) -> bool
        returns
            bit(self.0, 1),
    {
        get_bit(self.0, 1)
    }

    /// Enables or disables payloads in acknowledgements.
    pub fn set_en_ack_pay(&mut self, value: bool)
        ensures
            final(self).0 == with_bit(old(self).0, 1, value),
            final(self).en_ack_pay() == value,
            forall|other: u8|
                other < 8 && other != 1 ==> bit(final(self).0, other) == bit(old(self).0, other),
    {
        self.0 = set_bit(self.0, 1, value);
    }

    /// Whether single packets may ask for no acknowledgement.
    #[verifier::allow_in_spec]
    pub fn en_dyn_ack(&self) -> bool
        returns
            bit(self.0, 0),
    {
        get_bit(self.0, 0)
    }

    /// Enables or disables packets that ask for no acknowledgement.
    pub fn set_en_dyn_ack(&mut self, value: bool)
        ensures
            final(self).0 == with_bit(old(self).0, 0, value),
            final(self).en_dyn_ack() == value,
            forall|other: u8|
                other < 8 && other != 0 ==> bit(final(self).0, other) == bit(old(self).0, other),
    {
        self.0 = set_bit(self.0, 0, value);
    }
}

impl Register for Feature {
    open spec fn address() -> u8 {
        0x1D
    }

    open spec fn read_width() -> nat {
        1
    }

    open spec fn wf(&self) -> bool {
        true
    }

    open spec fn bytes(&self) -> Seq<u8> {
        seq![self.0]
    }

    open spec fn parses(data: Seq<u8>) -> bool {
        data.len() == 1
    }

    open spec fn parse(data: Seq<u8>) -> Self {
        Feature(data[0])
    }

    fn addr() -> (a: u8) {
        0x1D
    }

    fn read_len() -> (n: usize) {
        1
    }

    fn write_len(&self) -> (n: usize) {
        1
    }

    fn encode(&self, buf: &mut [u8]) {
        buf[0] = self.0;
        assert(buf@.subrange(0, 1) =~= self.bytes());
    }

    fn decode(buf: &[u8]) -> (r: Self) {
        Feature(buf[0])
    }

    fn same_as(&self, other: &Self) -> (same: bool) {
        self.0 == other.0
    }

    proof fn lemma_address_in_map() {
    }

    proof fn lemma_round_trip(&self) {
    }

    proof fn lemma_read_parses(data: Seq<u8>) {
        assert(seq![data[0]] =~= data);
    }
}

} // verus!
