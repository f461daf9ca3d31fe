//! Framing of the client's first packets and what the proxy makes of them.
//!
//! A frame is a VarInt length followed by that many bytes. The proxy forwards
//! every byte it reads unchanged; besides, it looks for a handshake or a login
//! start among the first frames.

use vstd::prelude::*;
use crate::varint::{decode_varint, varint_len, varint_value};

verus! {

/// The longest frame body the proxy inspects.
pub const MAX_FRAME_LENGTH: i32 = 1024;

/// The longest frame, prefix included, that is still decoded as a packet.
pub const MAX_INSPECTED_LENGTH: usize = 20000;

/// What the client declared it wants to do next in its handshake.
#[derive(Clone, Copy, Debug, PartialEq, Eq, Structural)]
pub enum ConnectionIntent {
    Handshake,
    Game,
    Status,
    Login,
}

/// A handshake (`ClientIntentionPacket`): the first packet of every
/// connection, for a status ping and for a login alike.
#[derive(Clone, Debug)]
pub struct HandshakePacket {
    pub protocol_version: u32,
    pub hostname: String,
    pub port: u16,
    pub intention: ConnectionIntent,
}

/// A packet a client sends while logging in.
#[derive(Clone, Debug)]
pub enum LoginPacket {
    /// The login start, carrying the player's name.
    Hello { username: String },
    /// The encryption response.
    Key,
    /// A reply to a plugin query.
    CustomQuery,
}

/// A packet the proxy recognised among the client's first frames.
#[derive(Clone, Debug)]
#[allow(inconsistent_fields)]
pub enum PossiblePacket {
    LoginStart { packet: LoginPacket },
    Status { packet: HandshakePacket },
}

/// Rewrites a 1.18 login start frame into the 1.19 layout: the declared length
/// grows by two and two empty optional fields (no public key, no profile id)
/// are appended.
pub open spec fn adapted_frame(bytes: Seq<u8>) -> Seq<u8> {
    seq![(bytes[0] + 2) as u8] + bytes.skip(1) + seq![0u8, 0u8]
}

/// Adapts a 1.18 login start frame so that a 1.19 decoder reads it.
///
/// The first byte, the frame length, must leave room for the added two.
pub fn adapt_from_1_18(bytes: &Vec<u8>) -> (r: Vec<u8>)
    requires
        bytes.len() > 0,
        bytes[0] < 254,
    ensures
        r@ == adapted_frame(bytes@),
{
    let mut clone = bytes.clone();
    proof {
        assert(clone@ =~= bytes@);
    }
    let first = clone[0] + 2;
    clone.set(0, first);
    clone.push(0);
    clone.push(0);
    proof {
        assert(clone@ =~= adapted_frame(bytes@));
    }
    clone
}

/// Checks that a frame body starts with packet id 0, the id of both the
/// handshake and the login start. Returns the verdict and the bytes of the id.
pub fn safe_check_packet_id(bytes: &[u8]) -> (r: (bool, Vec<u8>))
    ensures
        r.0 == (varint_value(bytes@) == 0),
        r.1@ == bytes@.subrange(0, varint_len(bytes@) as int),
{
    let (id, consumed) = decode_varint(bytes);
    (id == 0, consumed)
}

/// How many body bytes to read after a frame length of `len`: none when the
/// length is zero or above `MAX_FRAME_LENGTH`, else `len`.
pub fn frame_body_length(len: i32) -> (r: Option<usize>)
    requires
        len >= 0,
    ensures
        r == (if len == 0 || len > MAX_FRAME_LENGTH {
            None::<usize>
        } else {
            Some(len as usize)
        }),
{
    if len > MAX_FRAME_LENGTH || len == 0 {
        None
    } else {
        Some(len as usize)
    }
}

/// Puts a frame together from the bytes of its length and the body bytes that
/// could be read. Returns the body, or nothing when the body does not start
/// with packet id 0, and every byte read, to be forwarded.
pub fn assemble_frame(prefix: Vec<u8>, body: Vec<u8>) -> (r: (Vec<u8>, Vec<u8>))
    ensures
        r.1@ == prefix@ + body@,
        r.0@ == (if varint_value(body@) == 0 {
            body@
        } else {
            Seq::<u8>::empty()
        }),
{
    let mut forwarded = prefix;
    let mut tail = body.clone();
    proof {
        assert(tail@ =~= body@);
    }
    forwarded.append(&mut tail);
    let (valid, _) = safe_check_packet_id(body.as_slice());
    if valid {
        (body, forwarded)
    } else {
        (Vec::new(), forwarded)
    }
}

/// Whether a frame is worth decoding: something was read, its body passed the
/// packet id check, and it is not oversized.
pub open spec fn candidate_frame(read: Seq<u8>, forwarded: Seq<u8>) -> bool {
    forwarded.len() <= MAX_INSPECTED_LENGTH && forwarded.len() != 0 && read.len() != 0
}

/// Whether a frame is worth decoding (see `candidate_frame`).
pub fn frame_is_candidate(read: &[u8], forwarded: &[u8]) -> (r: bool)
    ensures
        r == candidate_frame(read@, forwarded@),
{
    !(forwarded.len() > MAX_INSPECTED_LENGTH || forwarded.len() == 0 || read.len() == 0)
}

/// Picks the packet of a frame.
///
/// `read` and `forwarded` are what `assemble_frame` returned. `handshake` is
/// the frame decoded as a handshake, and `login` the adapted frame
/// (`adapt_from_1_18`) decoded as a login packet; the decoding is left to the
/// caller. A handshake wins over a login packet; a frame that is no candidate
/// yields nothing.
pub fn try_get_packet(
    read: &[u8],
    forwarded: &[u8],
    handshake: Option<HandshakePacket>,
    login: Option<LoginPacket>,
) -> (r: Option<PossiblePacket>)
    ensures
        r == (if !candidate_frame(read@, forwarded@) {
            None::<PossiblePacket>
        } else {
            match handshake {
                Some(h) => Some(PossiblePacket::Status { packet: h }),
                None => match login {
                    Some(l) => Some(PossiblePacket::LoginStart { packet: l }),
                    None => None,
                },
            }
        }),
{
    if !frame_is_candidate(read, forwarded) {
        return None;
    }
    match handshake {
        Some(h) => Some(PossiblePacket::Status { packet: h }),
        None => match login {
            Some(l) => Some(PossiblePacket::LoginStart { packet: l }),
            None => None,
        },
    }
}

/// Adapting a frame keeps its body and adds exactly two bytes.
pub proof fn lemma_adapt_adds_two(bytes: Seq<u8>)
    requires
        bytes.len() > 0,
        bytes[0] < 254,
    ensures
        adapted_frame(bytes).len() == bytes.len() + 2,
        adapted_frame(bytes)[0] == bytes[0] + 2,
        adapted_frame(bytes).subrange(1, bytes.len() as int) == bytes.skip(1),
        adapted_frame(bytes)[bytes.len() as int] == 0,
        adapted_frame(bytes)[bytes.len() + 1int] == 0,
{
    assert(adapted_frame(bytes).subrange(1, bytes.len() as int) =~= bytes.skip(1));
}

} // verus!
