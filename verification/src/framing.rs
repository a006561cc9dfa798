//! Messages between nodes: how they are cut into packets of a fixed size,
//! and how a message that arrives packet by packet is put together.

use vstd::prelude::*;
use vstd::slice::slice_index_get;

verus! {

/// The speed of the bus, in kilohertz.
pub const I2C_SPEED: u32 = 1000;

/// The smallest and the largest number of a level.
pub const LEVEL_MIN: u8 = 5;

pub const LEVEL_MAX: u8 = 15;

/// The smallest and the largest side of a zone.
pub const ZONE_DIM_MIN: u8 = 7;

pub const ZONE_DIM_MAX: u8 = 10;

/// The number of bytes in a packet.
pub const PACKET_SIZE: usize = 255;

/// The byte that ends a message.
pub const END_OF_MESSAGE: u8 = 10;

/// The address of a node on the bus.
pub type I2cAdr = u8;

/// Why a value could not be turned into bytes, or bytes into a value.
#[derive(Debug, Clone, PartialEq, Eq)]
pub struct CodecError {
    pub reason: String,
}

/// What can be sent over the bus.
pub trait I2cCom<T> {
    /// The value as bytes that can be sent.
    fn encode(&self) -> Result<Vec<u8>, CodecError>;

    /// The value that the bytes stand for: the inverse of `encode`.
    fn decode_from(&self, data: &[u8]) -> Result<T, CodecError>;
}

/// The number of packets that a message of `len` bytes takes.
pub open spec fn packets_for(len: nat) -> nat {
    if len % (PACKET_SIZE as nat) == 0 {
        len / (PACKET_SIZE as nat)
    } else {
        len / (PACKET_SIZE as nat) + 1
    }
}

/// A message filled up with zeros to whole packets.
pub open spec fn padded_message(message: Seq<u8>) -> Seq<u8> {
    Seq::new(
        packets_for(message.len()) * (PACKET_SIZE as nat),
        |i: int|
            if i < message.len() {
                message[i]
            } else {
                0u8
            },
    )
}

/// Whole packets hold the whole message.
pub proof fn lemma_packets_hold(len: nat)
    ensures
        len <= packets_for(len) * PACKET_SIZE < len + PACKET_SIZE,
        len == 0 <==> packets_for(len) == 0,
{
    let p = PACKET_SIZE as int;
    vstd::arithmetic::div_mod::lemma_fundamental_div_mod(len as int, p);
    let q = (len as int) / p;
    assert(p * q == q * p) by (nonlinear_arith);
    assert((q + 1) * p == q * p + p) by (nonlinear_arith);
    if len == 0 {
    } else if q == 0 {
        assert(len % (PACKET_SIZE as nat) == len);
    } else {
        assert(q * p >= p) by (nonlinear_arith)
            requires
                q >= 1,
                p > 0,
        ;
    }
}

/// The number of packets that a message of `len` bytes takes.
pub fn packet_count(len: usize) -> (n: usize)
    ensures
        n == packets_for(len as nat),
{
    if len % PACKET_SIZE == 0 {
        len / PACKET_SIZE
    } else {
        len / PACKET_SIZE + 1
    }
}

/// The number of packets of a message of `len` bytes that are written to
/// the bus: all that the message takes but the last.
pub fn packets_written(len: usize) -> (n: usize)
    requires
        len > 0,
    ensures
        n == packets_for(len as nat) - 1,
{
    proof {
        lemma_packets_hold(len as nat);
    }
    packet_count(len) - 1
}

/// The message filled up with zeros to whole packets.
pub fn padded(message: &[u8]) -> (out: Vec<u8>)
    requires
        message@.len() + PACKET_SIZE <= usize::MAX,
    ensures
        out@ == padded_message(message@),
{
    let len = message.len();
    proof {
        lemma_packets_hold(len as nat);
    }
    let whole = packet_count(len) * PACKET_SIZE;
    let mut out: Vec<u8> = Vec::new();
    let mut i: usize = 0;
    while i < whole
        invariant
            i <= whole,
            len == message@.len(),
            len <= whole,
            out@.len() == i,
            forall|j: int| 0 <= j < i ==> out@[j] == if j < len {
                message@[j]
            } else {
                0u8
            },
        decreases whole - i,
    {
        if i < len {
            out.push(*slice_index_get(message, i));
        } else {
            out.push(0);
        }
        i = i + 1;
    }
    assert(out@ =~= padded_message(message@));
    out
}

/// Packet number `i` of a message that was filled up to whole packets, if
/// the message has that many.
pub fn packet(whole: &Vec<u8>, i: usize) -> (out: Option<Vec<u8>>)
    ensures
        out is Some == ((i + 1) * PACKET_SIZE <= whole@.len()),
        out is Some ==> out->0@ == whole@.subrange(i * PACKET_SIZE, (i + 1) * PACKET_SIZE),
{
    let size = whole.len();
    assert(i * PACKET_SIZE + PACKET_SIZE == (i + 1) * PACKET_SIZE) by (nonlinear_arith);
    if i >= size / PACKET_SIZE {
        assert((i + 1) * PACKET_SIZE > size) by (nonlinear_arith)
            requires
                i >= size / PACKET_SIZE,
                size / PACKET_SIZE * PACKET_SIZE + size % PACKET_SIZE == size,
                size % PACKET_SIZE < PACKET_SIZE,
        ;
        return None;
    }
    assert(i * PACKET_SIZE + PACKET_SIZE <= size) by (nonlinear_arith)
        requires
            i < size / PACKET_SIZE,
            size / PACKET_SIZE * PACKET_SIZE + size % PACKET_SIZE == size,
            size % PACKET_SIZE >= 0,
    ;
    let start = i * PACKET_SIZE;
    let mut out: Vec<u8> = Vec::new();
    let mut k: usize = 0;
    while k < PACKET_SIZE
        invariant
            k <= PACKET_SIZE,
            start == i * PACKET_SIZE,
            start + PACKET_SIZE <= whole@.len(),
            whole@.len() <= usize::MAX,
            out@.len() == k,
            forall|j: int| 0 <= j < k ==> out@[j] == whole@[start + j],
        decreases PACKET_SIZE - k,
    {
        out.push(whole[start + k]);
        k = k + 1;
    }
    assert(out@ =~= whole@.subrange(start as int, start + PACKET_SIZE));
    Some(out)
}

/// Whether the packet holds the byte that ends a message.
pub fn ends_message(packet: &[u8]) -> (r: bool)
    ensures
        r == packet@.contains(END_OF_MESSAGE),
{
    let mut i: usize = 0;
    while i < packet.len()
        invariant
            i <= packet@.len(),
            forall|j: int| 0 <= j < i ==> packet@[j] != END_OF_MESSAGE,
        decreases packet@.len() - i,
    {
        if *slice_index_get(packet, i) == END_OF_MESSAGE {
            return true;
        }
        i = i + 1;
    }
    false
}

/// Whether the byte with which a node answers a command says that no
/// message follows.
pub fn no_reply(status: u8) -> (r: bool)
    ensures
        r == (status == 1),
{
    status == 1
}

/// The length of a message as the sixteen bits that announce it, if it is
/// short enough for them.
pub fn msg_len(message: &[u8]) -> (len: Option<u16>)
    ensures
        len == (if message@.len() <= u16::MAX {
            Some(message@.len() as u16)
        } else {
            None
        }),
{
    let n = message.len();
    if n <= 65535 {
        Some(n as u16)
    } else {
        None
    }
}

/// A message that arrives packet by packet.
#[derive(Debug, Clone, PartialEq, Eq)]
pub struct Inbox {
    /// The bytes received so far.
    pub received: Vec<u8>,
    /// Whether a packet with the end of the message has arrived.
    pub complete: bool,
}

impl Inbox {
    /// An inbox into which nothing has arrived.
    pub fn new() -> (inbox: Inbox)
        ensures
            inbox.received@ == Seq::<u8>::empty(),
            !inbox.complete,
    {
        Inbox { received: Vec::new(), complete: false }
    }

    /// Takes the next packet: its bytes are added to those received, and
    /// the message is complete once a packet holds its end. The result
    /// says whether another packet is to be read.
    pub fn accept(&mut self, packet: &[u8]) -> (more: bool)
        ensures
            final(self).received@ == old(self).received@ + packet@,
            final(self).complete == (old(self).complete || packet@.contains(END_OF_MESSAGE)),
            more == !final(self).complete,
    {
        let mut i: usize = 0;
        while i < packet.len()
            invariant
                i <= packet@.len(),
                self.complete == old(self).complete,
                self.received@ == old(self).received@ + packet@.subrange(0, i as int),
            decreases packet@.len() - i,
        {
            self.received.push(*slice_index_get(packet, i));
            assert(packet@.subrange(0, i as int).push(packet@[i as int]) =~= packet@.subrange(0, i + 1));
            i = i + 1;
        }
        assert(packet@.subrange(0, packet@.len() as int) =~= packet@);
        if ends_message(packet) {
            self.complete = true;
        }
        !self.complete
    }
}

} // verus!
