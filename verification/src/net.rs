//! Packets: the byte-level encoding of the values that cross the network.
//!
//! A `bool` is one byte, 0 or 1. A `u32` is four bytes and a `u64` eight, least
//! significant byte first. A message starts with a one-byte tag.

use vstd::prelude::*;

verus! {

/// Identifies a participant of a battle.
pub type ClientId = u32;

/// Why a message cannot be taken. The functions that check a message answer
/// with one of these; the functions that take a message over take only
/// messages that pass the check.
#[derive(Clone, Copy, Debug, PartialEq, Eq, Structural)]
pub enum ProtocolError {
    /// The message ended before the value was complete.
    Truncated,
    /// A byte held a value that the encoding does not use.
    InvalidValue,
    /// The message is well-formed but not of the kind that was expected.
    UnexpectedTag,
    /// A plan names a ship that is not part of this battle.
    UnknownShip,
    /// A plan names a module slot that its target ship does not have.
    UnknownModule,
    /// A plan powers a module that cannot run or that its ship cannot afford.
    PowerMismatch,
    /// A message arrived in a phase of the round that does not take it.
    OutOfTurn,
}

/// The kind of a message, sent as its first byte.
#[derive(Clone, Copy, Debug, PartialEq, Eq, Structural)]
pub enum PacketId {
    /// The plans of one participant, sent when planning ends.
    Plan,
    /// The plans of every ship and the results of the simulation.
    SimResults,
}

/// The byte that stands for `true`.
pub const TRUE_BYTE: u8 = 1;

/// The byte that stands for `false`.
pub const FALSE_BYTE: u8 = 0;

/// The tag of a `Plan` message.
pub const PLAN_TAG: u8 = 0;

/// The tag of a `SimResults` message.
pub const SIM_RESULTS_TAG: u8 = 1;

/// The encoding of a `bool`.
pub open spec fn bool_bytes(v: bool) -> Seq<u8> {
    seq![if v { TRUE_BYTE } else { FALSE_BYTE }]
}

/// The encoding of a `u32`: four bytes, least significant first.
pub open spec fn u32_bytes(v: u32) -> Seq<u8> {
    seq![
        (v % 256) as u8,
        (v / 0x100 % 256) as u8,
        (v / 0x1_0000 % 256) as u8,
        (v / 0x100_0000 % 256) as u8,
    ]
}

/// The encoding of a `u64`: eight bytes, least significant first, which is the
/// low half as a `u32` and then the high half.
pub open spec fn u64_bytes(v: u64) -> Seq<u8> {
    u32_bytes((v % 0x1_0000_0000) as u32) + u32_bytes((v / 0x1_0000_0000) as u32)
}

/// The encoding of a message tag.
pub open spec fn id_bytes(id: PacketId) -> Seq<u8> {
    seq![
        match id {
            PacketId::Plan => PLAN_TAG,
            PacketId::SimResults => SIM_RESULTS_TAG,
        },
    ]
}

/// The number that the first four bytes of `s` encode.
pub open spec fn u32_value(s: Seq<u8>) -> int
    recommends
        s.len() >= 4,
{
    s[0] as int + 0x100 * (s[1] as int) + 0x1_0000 * (s[2] as int) + 0x100_0000 * (s[3] as int)
}

/// The number that the first eight bytes of `s` encode.
pub open spec fn u64_value(s: Seq<u8>) -> int
    recommends
        s.len() >= 8,
{
    u32_value(s) + 0x1_0000_0000 * u32_value(s.skip(4))
}

/// What reading a `bool` from the front of `s` gives.
pub open spec fn parsed_bool(s: Seq<u8>) -> Result<bool, ProtocolError> {
    if s.len() < 1 {
        Err(ProtocolError::Truncated)
    } else if s[0] == TRUE_BYTE {
        Ok(true)
    } else if s[0] == FALSE_BYTE {
        Ok(false)
    } else {
        Err(ProtocolError::InvalidValue)
    }
}

/// What reading a `u32` from the front of `s` gives.
pub open spec fn parsed_u32(s: Seq<u8>) -> Result<u32, ProtocolError> {
    if s.len() < 4 {
        Err(ProtocolError::Truncated)
    } else {
        Ok(u32_value(s) as u32)
    }
}

/// What reading a `u64` from the front of `s` gives.
pub open spec fn parsed_u64(s: Seq<u8>) -> Result<u64, ProtocolError> {
    if s.len() < 8 {
        Err(ProtocolError::Truncated)
    } else {
        Ok(u64_value(s) as u64)
    }
}

/// What reading a message tag from the front of `s` gives.
pub open spec fn parsed_id(s: Seq<u8>) -> Result<PacketId, ProtocolError> {
    if s.len() < 1 {
        Err(ProtocolError::Truncated)
    } else if s[0] == PLAN_TAG {
        Ok(PacketId::Plan)
    } else if s[0] == SIM_RESULTS_TAG {
        Ok(PacketId::SimResults)
    } else {
        Err(ProtocolError::InvalidValue)
    }
}

/// What checking the tag at the front of `s` against `expected` gives.
pub open spec fn expected_id(s: Seq<u8>, expected: PacketId) -> Result<(), ProtocolError> {
    match parsed_id(s) {
        Err(e) => Err(e),
        Ok(id) => if id == expected {
            Ok(())
        } else {
            Err(ProtocolError::UnexpectedTag)
        },
    }
}

/// A `bool` that was written is read back, and what followed it is left.
pub proof fn lemma_bool_round_trip(v: bool, rest: Seq<u8>)
    ensures
        parsed_bool(bool_bytes(v) + rest) == Ok::<bool, ProtocolError>(v),
        (bool_bytes(v) + rest).skip(1) == rest,
{
    assert((bool_bytes(v) + rest)[0] == bool_bytes(v)[0]);
    assert((bool_bytes(v) + rest).skip(1) =~= rest);
}

/// A `u32` that was written is read back, and what followed it is left.
pub proof fn lemma_u32_round_trip(v: u32, rest: Seq<u8>)
    ensures
        parsed_u32(u32_bytes(v) + rest) == Ok::<u32, ProtocolError>(v),
        (u32_bytes(v) + rest).skip(4) == rest,
{
    let s = u32_bytes(v) + rest;
    assert(s[0] == u32_bytes(v)[0]);
    assert(s[1] == u32_bytes(v)[1]);
    assert(s[2] == u32_bytes(v)[2]);
    assert(s[3] == u32_bytes(v)[3]);
    assert(u32_value(s) == v);
    assert(s.skip(4) =~= rest);
}

/// A `u64` that was written is read back, and what followed it is left.
pub proof fn lemma_u64_round_trip(v: u64, rest: Seq<u8>)
    ensures
        parsed_u64(u64_bytes(v) + rest) == Ok::<u64, ProtocolError>(v),
        (u64_bytes(v) + rest).skip(8) == rest,
{
    let lo = (v % 0x1_0000_0000) as u32;
    let hi = (v / 0x1_0000_0000) as u32;
    let s = u64_bytes(v) + rest;
    let tail = u32_bytes(hi) + rest;
    assert(s =~= u32_bytes(lo) + tail);
    lemma_u32_round_trip(lo, tail);
    lemma_u32_round_trip(hi, rest);
    assert(s.skip(8) =~= s.skip(4).skip(4));
}

/// A message tag that was written is read back, and what followed it is left.
pub proof fn lemma_id_round_trip(id: PacketId, rest: Seq<u8>)
    ensures
        parsed_id(id_bytes(id) + rest) == Ok::<PacketId, ProtocolError>(id),
        (id_bytes(id) + rest).skip(1) == rest,
{
    assert((id_bytes(id) + rest)[0] == id_bytes(id)[0]);
    assert((id_bytes(id) + rest).skip(1) =~= rest);
}

/// A message being written.
pub struct OutPacket {
    bytes: Vec<u8>,
}

impl View for OutPacket {
    type V = Seq<u8>;

    /// The bytes written so far.
    closed spec fn view(&self) -> Seq<u8> {
        self.bytes@
    }
}

impl OutPacket {
    /// An empty message.
    pub fn new() -> (packet: OutPacket)
        ensures
            packet@ == Seq::<u8>::empty(),
    {
        OutPacket { bytes: Vec::new() }
    }

    /// Appends a message tag.
    pub fn write_id(&mut self, id: PacketId)
        ensures
            final(self)@ == old(self)@ + id_bytes(id),
    {
        let tag: u8 = match id {
            PacketId::Plan => PLAN_TAG,
            PacketId::SimResults => SIM_RESULTS_TAG,
        };
        self.bytes.push(tag);
        assert(self.bytes@ =~= old(self).bytes@ + id_bytes(id));
    }

    /// Appends a `bool`.
    pub fn write_bool(&mut self, v: bool)
        ensures
            final(self)@ == old(self)@ + bool_bytes(v),
    {
        let byte: u8 = if v { TRUE_BYTE } else { FALSE_BYTE };
        self.bytes.push(byte);
        assert(self.bytes@ =~= old(self).bytes@ + bool_bytes(v));
    }

    /// Appends a `u32`.
    pub fn write_u32(&mut self, v: u32)
        ensures
            final(self)@ == old(self)@ + u32_bytes(v),
    {
        self.bytes.push((v % 256) as u8);
        self.bytes.push((v / 0x100 % 256) as u8);
        self.bytes.push((v / 0x1_0000 % 256) as u8);
        self.bytes.push((v / 0x100_0000 % 256) as u8);
        assert(self.bytes@ =~= old(self).bytes@ + u32_bytes(v));
    }

    /// Appends a `u64`.
    pub fn write_u64(&mut self, v: u64)
        ensures
            final(self)@ == old(self)@ + u64_bytes(v),
    {
        self.write_u32((v % 0x1_0000_0000) as u32);
        self.write_u32((v / 0x1_0000_0000) as u32);
        assert(self@ =~= old(self)@ + u64_bytes(v));
    }

    /// The number of bytes written so far.
    pub fn len(&self) -> (n: usize)
        ensures
            n == self@.len(),
    {
        self.bytes.len()
    }

    /// The finished message.
    pub fn into_bytes(self) -> (bytes: Vec<u8>)
        ensures
            bytes@ == self@,
    {
        self.bytes
    }
}

/// A received message, read from front to back.
pub struct InPacket {
    bytes: Vec<u8>,
    pos: usize,
}

impl View for InPacket {
    type V = Seq<u8>;

    /// The bytes that have not been read yet.
    open spec fn view(&self) -> Seq<u8> {
        self.content().skip(self.consumed() as int)
    }
}

impl InPacket {
    #[verifier::type_invariant]
    spec fn in_bounds(self) -> bool {
        self.pos <= self.bytes@.len()
    }

    /// The whole message as it was received.
    pub closed spec fn content(&self) -> Seq<u8> {
        self.bytes@
    }

    /// The number of bytes that have been read.
    pub closed spec fn consumed(&self) -> nat {
        self.pos as nat
    }

    /// A message that holds `bytes`, with nothing read yet.
    pub fn new(bytes: Vec<u8>) -> (packet: InPacket)
        ensures
            packet.content() == bytes@,
            packet.consumed() == 0,
            packet@ == bytes@,
    {
        let packet = InPacket { bytes, pos: 0 };
        assert(packet@ =~= bytes@);
        packet
    }

    /// A message that holds a copy of `bytes`, with nothing read yet.
    pub fn copy_of(bytes: &Vec<u8>) -> (packet: InPacket)
        ensures
            packet.content() == bytes@,
            packet.consumed() == 0,
            packet@ == bytes@,
    {
        let mut copy: Vec<u8> = Vec::new();
        let mut i: usize = 0;
        while i < bytes.len()
            invariant
                i <= bytes.len(),
                copy@ == bytes@.take(i as int),
            decreases bytes.len() - i,
        {
            copy.push(bytes[i]);
            assert(copy@ =~= bytes@.take(i + 1));
            i = i + 1;
        }
        assert(copy@ =~= bytes@);
        InPacket::new(copy)
    }

    /// The number of bytes that have not been read yet.
    pub fn remaining(&self) -> (n: usize)
        ensures
            n == self@.len(),
            self.consumed() + n == self.content().len(),
    {
        proof {
            use_type_invariant(self);
        }
        self.bytes.len() - self.pos
    }

    /// The place that reading has reached, for `reset`.
    pub fn mark(&self) -> (mark: usize)
        ensures
            mark == self.consumed(),
    {
        self.pos
    }

    /// Goes back to a place that `mark` gave earlier.
    pub fn reset(&mut self, mark: usize)
        requires
            mark <= old(self).consumed(),
        ensures
            final(self).content() == old(self).content(),
            final(self).consumed() == mark,
    {
        proof {
            use_type_invariant(&*self);
        }
        self.pos = mark;
    }

    /// Reads a message tag. A packet that could not be read is left as it was.
    pub fn read_id(&mut self) -> (r: Result<PacketId, ProtocolError>)
        ensures
            r == parsed_id(old(self)@),
            final(self).content() == old(self).content(),
            final(self).consumed() == old(self).consumed() + (if r is Ok { 1nat } else { 0nat }),
            final(self)@ == if r is Ok { old(self)@.skip(1) } else { old(self)@ },
    {
        proof {
            use_type_invariant(&*self);
        }
        if self.bytes.len() - self.pos < 1 {
            return Err(ProtocolError::Truncated);
        }
        assert(self@.skip(1) =~= self.bytes@.skip(self.pos + 1));
        let byte: u8 = self.bytes[self.pos];
        assert(byte == self@[0]);
        if byte == PLAN_TAG {
            self.pos = self.pos + 1;
            Ok(PacketId::Plan)
        } else if byte == SIM_RESULTS_TAG {
            self.pos = self.pos + 1;
            Ok(PacketId::SimResults)
        } else {
            Err(ProtocolError::InvalidValue)
        }
    }

    /// Reads a message tag and checks that it is the expected one. A packet
    /// that was refused is left as it was.
    pub fn expect_id(&mut self, expected: PacketId) -> (r: Result<(), ProtocolError>)
        ensures
            r == expected_id(old(self)@, expected),
            final(self).content() == old(self).content(),
            final(self).consumed() == old(self).consumed() + (if r is Ok { 1nat } else { 0nat }),
            final(self)@ == if r is Ok { old(self)@.skip(1) } else { old(self)@ },
    {
        let mark = self.mark();
        match self.read_id() {
            Err(e) => Err(e),
            Ok(id) => {
                let same = match (id, expected) {
                    (PacketId::Plan, PacketId::Plan) => true,
                    (PacketId::SimResults, PacketId::SimResults) => true,
                    _ => false,
                };
                if same {
                    Ok(())
                } else {
                    self.reset(mark);
                    Err(ProtocolError::UnexpectedTag)
                }
            },
        }
    }

    /// Reads a `bool`. A packet that could not be read is left as it was.
    pub fn read_bool(&mut self) -> (r: Result<bool, ProtocolError>)
        ensures
            r == parsed_bool(old(self)@),
            final(self).content() == old(self).content(),
            final(self).consumed() == old(self).consumed() + (if r is Ok { 1nat } else { 0nat }),
            final(self)@ == if r is Ok { old(self)@.skip(1) } else { old(self)@ },
    {
        proof {
            use_type_invariant(&*self);
        }
        if self.bytes.len() - self.pos < 1 {
            return Err(ProtocolError::Truncated);
        }
        assert(self@.skip(1) =~= self.bytes@.skip(self.pos + 1));
        let byte: u8 = self.bytes[self.pos];
        assert(byte == self@[0]);
        if byte == TRUE_BYTE {
            self.pos = self.pos + 1;
            Ok(true)
        } else if byte == FALSE_BYTE {
            self.pos = self.pos + 1;
            Ok(false)
        } else {
            Err(ProtocolError::InvalidValue)
        }
    }

    /// Reads a `u32`. A packet that could not be read is left as it was.
    pub fn read_u32(&mut self) -> (r: Result<u32, ProtocolError>)
        ensures
            r == parsed_u32(old(self)@),
            final(self).content() == old(self).content(),
            final(self).consumed() == old(self).consumed() + (if r is Ok { 4nat } else { 0nat }),
            final(self)@ == if r is Ok { old(self)@.skip(4) } else { old(self)@ },
    {
        proof {
            use_type_invariant(&*self);
        }
        if self.bytes.len() - self.pos < 4 {
            return Err(ProtocolError::Truncated);
        }
        assert(self@.skip(4) =~= self.bytes@.skip(self.pos + 4));
        let v = self.u32_at(self.pos);
        self.pos = self.pos + 4;
        Ok(v)
    }

    /// Reads a `u64`. A packet that could not be read is left as it was.
    pub fn read_u64(&mut self) -> (r: Result<u64, ProtocolError>)
        ensures
            r == parsed_u64(old(self)@),
            final(self).content() == old(self).content(),
            final(self).consumed() == old(self).consumed() + (if r is Ok { 8nat } else { 0nat }),
            final(self)@ == if r is Ok { old(self)@.skip(8) } else { old(self)@ },
    {
        proof {
            use_type_invariant(&*self);
        }
        if self.bytes.len() - self.pos < 8 {
            return Err(ProtocolError::Truncated);
        }
        assert(self@.skip(8) =~= self.bytes@.skip(self.pos + 8));
        let lo = self.u32_at(self.pos);
        let hi = self.u32_at(self.pos + 4);
        assert(self.bytes@.skip(self.pos as int).skip(4) =~= self.bytes@.skip(self.pos + 4));
        self.pos = self.pos + 8;
        Ok(lo as u64 + 0x1_0000_0000 * (hi as u64))
    }

    /// The `u32` whose encoding starts at byte `at`.
    fn u32_at(&self, at: usize) -> (v: u32)
        requires
            at + 4 <= self.bytes.len(),
        ensures
            v == u32_value(self.bytes@.skip(at as int)),
    {
        let b0 = self.bytes[at] as u32;
        let b1 = self.bytes[at + 1] as u32;
        let b2 = self.bytes[at + 2] as u32;
        let b3 = self.bytes[at + 3] as u32;
        b0 + 0x100 * b1 + 0x1_0000 * b2 + 0x100_0000 * b3
    }
}

} // verus!
