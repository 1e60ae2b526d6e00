//! Per-peer protocol state machine.
//!
//! One `PeerConnection` exists per remote endpoint.  The connection walks
//! `Uninitialized → Connecting → Handshaking → SteadyState` and ends in
//! `Closed` or `Errored`.  All decisions — what a received message means,
//! what to send back, which block to claim next, what to persist — are made
//! here on plain values; the surrounding code owns the transport, performs
//! the sends, reads and file writes, and feeds every received message back
//! in.

use crate::download::spec_block_len;
use crate::download::spec_first_unclaimed;
use crate::download::spec_record_block;
use crate::download::Download;
use crate::messages::spec_encode;
use crate::messages::spec_u32_from_be_bytes;
use crate::messages::u32_from_be;
use crate::messages::copy_range;
use crate::messages::Message;
use crate::messages::MessageFrame;
use crate::messages::MessageType;
use crate::messages::BLOCK_BYTES;
use crate::tracker::Peer;
use vstd::prelude::*;

verus! {

/// Interest-and-choke status, for either side of a connection.
#[derive(Clone, Copy, Debug, PartialEq, Eq, Structural)]
pub enum PeerStatus {
    Chocked,
    Interested,
}

/// Lifecycle of one peer connection.
#[derive(Clone, Copy, Debug, PartialEq, Eq, Structural)]
pub enum ConnectionState {
    Uninitialized,
    Connecting,
    Handshaking,
    SteadyState,
    Closed,
    Errored,
}

/// One connection to a remote peer: its endpoint, the interest/choke pair,
/// the peer's advertised piece bitfield, and where in the lifecycle the
/// connection stands.  The transport handle lives outside the library.
pub struct PeerConnection {
    pub peer: Peer,
    pub am_status: Option<PeerStatus>,
    pub peer_status: Option<PeerStatus>,
    pub bitfield: Vec<u8>,
    pub state: ConnectionState,
}

/// The ASCII bytes of the 19-byte protocol name that opens every handshake.
pub open spec fn spec_protocol_name() -> Seq<u8> {
    seq![
        66u8,
        105u8,
        116u8,
        84u8,
        111u8,
        114u8,
        114u8,
        101u8,
        110u8,
        116u8,
        32u8,
        112u8,
        114u8,
        111u8,
        116u8,
        111u8,
        99u8,
        111u8,
        108u8,
    ]
}

/// A handshake preamble: the protocol-name length byte, the protocol name,
/// eight zeroed reserved bytes, the 20-byte info-hash of the swarm, and the
/// 20-byte id of the sending client.
pub open spec fn spec_handshake(info_hash: Seq<u8>, peer_id: Seq<u8>) -> Seq<u8> {
    seq![19u8] + spec_protocol_name() + seq![0u8, 0u8, 0u8, 0u8, 0u8, 0u8, 0u8, 0u8] + info_hash
        + peer_id
}

/// A responder's handshake this client accepts: the same shape back, with
/// the exact protocol-name literal and the same info-hash that was sent.
/// The responder's own peer id (the final 20 bytes) may be anything.
pub open spec fn spec_handshake_reply_ok(reply: Seq<u8>, info_hash: Seq<u8>) -> bool {
    &&& reply.len() == 68
    &&& reply[0] == 19
    &&& reply.subrange(1, 20) == spec_protocol_name()
    &&& reply.subrange(28, 48) == info_hash
}

/// The protocol name as bytes.
fn protocol_name() -> (r: Vec<u8>)
    ensures
        r@ == spec_protocol_name(),
{
    let mut r: Vec<u8> = Vec::new();
    r.push(66);
    r.push(105);
    r.push(116);
    r.push(84);
    r.push(111);
    r.push(114);
    r.push(114);
    r.push(101);
    r.push(110);
    r.push(116);
    r.push(32);
    r.push(112);
    r.push(114);
    r.push(111);
    r.push(116);
    r.push(111);
    r.push(99);
    r.push(111);
    r.push(108);
    assert(r@ =~= spec_protocol_name());
    r
}

impl PeerConnection {
    /// Registers a connection for a discovered peer; nothing is connected
    /// yet.
    pub fn new(peer: Peer) -> (c: PeerConnection)
        ensures
            c.peer == peer,
            c.am_status is None,
            c.peer_status is None,
            c.bitfield@ == Seq::<u8>::empty(),
            c.state is Uninitialized,
    {
        PeerConnection {
            peer,
            am_status: None,
            peer_status: None,
            bitfield: Vec::new(),
            state: ConnectionState::Uninitialized,
        }
    }

    /// The transport to the peer's endpoint is being opened.
    pub fn begin_connect(&mut self)
        requires
            old(self).state is Uninitialized,
        ensures
            *final(self) == (PeerConnection { state: ConnectionState::Connecting, ..*old(self) }),
    {
        self.state = ConnectionState::Connecting;
    }

    /// The transport is open; the handshake round-trip comes next.
    pub fn connected(&mut self)
        requires
            old(self).state is Connecting,
        ensures
            *final(self) == (PeerConnection { state: ConnectionState::Handshaking, ..*old(self) }),
    {
        self.state = ConnectionState::Handshaking;
    }

    /// A transport-level failure: fatal for this one connection only.
    pub fn transport_error(&mut self)
        ensures
            *final(self) == (PeerConnection { state: ConnectionState::Errored, ..*old(self) }),
    {
        self.state = ConnectionState::Errored;
    }

    /// The connection's loop ended because no block remained to claim.
    pub fn close(&mut self)
        ensures
            *final(self) == (PeerConnection { state: ConnectionState::Closed, ..*old(self) }),
    {
        self.state = ConnectionState::Closed;
    }

    /// The handshake preamble to send: protocol literal, zeroed reserved
    /// bytes, the swarm's info-hash and this client's peer id.
    pub fn handshake_message(info_hash: &Vec<u8>, peer_id: &Vec<u8>) -> (r: Vec<u8>)
        requires
            info_hash@.len() == 20,
            peer_id@.len() == 20,
        ensures
            r@ == spec_handshake(info_hash@, peer_id@),
            r@.len() == 68,
    {
        let mut r: Vec<u8> = Vec::new();
        r.push(19);
        let proto = protocol_name();
        let mut i: usize = 0;
        while i < proto.len()
            invariant
                i <= proto@.len(),
                proto@ == spec_protocol_name(),
                r@ == seq![19u8] + proto@.subrange(0, i as int),
            decreases proto@.len() - i,
        {
            r.push(proto[i]);
            i += 1;
            assert(r@ =~= seq![19u8] + proto@.subrange(0, i as int));
        }
        assert(proto@.subrange(0, 19) =~= proto@);
        r.push(0);
        r.push(0);
        r.push(0);
        r.push(0);
        r.push(0);
        r.push(0);
        r.push(0);
        r.push(0);
        assert(r@ =~= seq![19u8] + spec_protocol_name() + seq![
            0u8,
            0u8,
            0u8,
            0u8,
            0u8,
            0u8,
            0u8,
            0u8,
        ]);
        let mut i: usize = 0;
        while i < info_hash.len()
            invariant
                i <= info_hash@.len(),
                info_hash@.len() == 20,
                r@ == seq![19u8] + spec_protocol_name() + seq![0u8, 0u8, 0u8, 0u8, 0u8, 0u8, 0u8, 0u8]
                    + info_hash@.subrange(0, i as int),
            decreases info_hash@.len() - i,
        {
            r.push(info_hash[i]);
            i += 1;
            assert(r@ =~= seq![19u8] + spec_protocol_name() + seq![
                0u8,
                0u8,
                0u8,
                0u8,
                0u8,
                0u8,
                0u8,
                0u8,
            ] + info_hash@.subrange(0, i as int));
        }
        assert(info_hash@.subrange(0, 20) =~= info_hash@);
        let mut i: usize = 0;
        while i < peer_id.len()
            invariant
                i <= peer_id@.len(),
                peer_id@.len() == 20,
                info_hash@.len() == 20,
                r@ == seq![19u8] + spec_protocol_name() + seq![0u8, 0u8, 0u8, 0u8, 0u8, 0u8, 0u8, 0u8]
                    + info_hash@ + peer_id@.subrange(0, i as int),
            decreases peer_id@.len() - i,
        {
            r.push(peer_id[i]);
            i += 1;
            assert(r@ =~= seq![19u8] + spec_protocol_name() + seq![
                0u8,
                0u8,
                0u8,
                0u8,
                0u8,
                0u8,
                0u8,
                0u8,
            ] + info_hash@ + peer_id@.subrange(0, i as int));
        }
        assert(peer_id@.subrange(0, 20) =~= peer_id@);
        assert(r@ =~= spec_handshake(info_hash@, peer_id@));
        r
    }

    /// Validates the responder's handshake.  On the exact protocol literal
    /// and a matching info-hash the connection enters its steady state; any
    /// mismatch is a fatal handshake error for this connection.
    pub fn complete_handshake(&mut self, reply: &Vec<u8>, info_hash: &Vec<u8>) -> (ok: bool)
        requires
            old(self).state is Handshaking,
            info_hash@.len() == 20,
        ensures
            ok == spec_handshake_reply_ok(reply@, info_hash@),
            ok ==> *final(self) == (PeerConnection {
                state: ConnectionState::SteadyState,
                ..*old(self)
            }),
            !ok ==> *final(self) == (PeerConnection {
                state: ConnectionState::Errored,
                ..*old(self)
            }),
    {
        let mut ok = reply.len() == 68;
        if ok {
            ok = reply[0] == 19;
        }
        if ok {
            let proto = protocol_name();
            let mut i: usize = 0;
            while i < 19 && ok
                invariant
                    i <= 19,
                    reply@.len() == 68,
                    proto@ == spec_protocol_name(),
                    ok ==> forall|k: int| 0 <= k < i ==> reply@[1 + k] == proto@[k],
                    !ok ==> reply@.subrange(1, 20) != spec_protocol_name(),
                decreases 19 - i, (if ok { 1int } else { 0int }),
            {
                if reply[1 + i] != proto[i] {
                    assert(reply@.subrange(1, 20)[i as int] == reply@[1 + i as int]);
                    ok = false;
                } else {
                    i += 1;
                }
            }
            if ok {
                assert(reply@.subrange(1, 20) =~= spec_protocol_name());
            }
        }
        if ok {
            let mut i: usize = 0;
            while i < 20 && ok
                invariant
                    i <= 20,
                    reply@.len() == 68,
                    info_hash@.len() == 20,
                    reply@.subrange(1, 20) == spec_protocol_name(),
                    reply@[0] == 19,
                    ok ==> forall|k: int| 0 <= k < i ==> reply@[28 + k] == info_hash@[k],
                    !ok ==> reply@.subrange(28, 48) != info_hash@,
                decreases 20 - i, (if ok { 1int } else { 0int }),
            {
                if reply[28 + i] != info_hash[i] {
                    assert(reply@.subrange(28, 48)[i as int] == reply@[28 + i as int]);
                    ok = false;
                } else {
                    i += 1;
                }
            }
            if ok {
                assert(reply@.subrange(28, 48) =~= info_hash@);
            }
        }
        if ok {
            self.state = ConnectionState::SteadyState;
        } else {
            self.state = ConnectionState::Errored;
        }
        ok
    }
}

/// What the surrounding loop must do after one handled message: bytes to
/// send back, a verified piece to persist (its ordinal and bytes) before
/// anything further is requested, whether the download is complete for this
/// connection, and whether the message was malformed (fatal for this
/// connection alone).
pub struct StepActions {
    pub reply: Option<Vec<u8>>,
    pub persist: Option<(usize, Vec<u8>)>,
    pub complete: bool,
    pub failed: bool,
}

/// The step neither sends, persists, completes nor fails.
pub open spec fn spec_no_actions(r: StepActions) -> bool {
    &&& r.reply is None
    &&& r.persist is None
    &&& !r.complete
    &&& !r.failed
}

/// The step changed nothing and only reports a malformed message.
pub open spec fn spec_failed_step(
    pre: PeerConnection,
    post: PeerConnection,
    pre_d: Download,
    post_d: Download,
    r: StepActions,
) -> bool {
    &&& post == pre
    &&& post_d == pre_d
    &&& r.reply is None
    &&& r.persist is None
    &&& !r.complete
    &&& r.failed
}

/// The request frame for block `b` of piece `p` of `d`: its byte offset
/// inside the piece and its exact length, which for a final short block is
/// the remainder.
pub open spec fn spec_request_for(d: Download, p: int, b: int) -> Seq<u8> {
    spec_encode(
        MessageFrame::Request {
            piece_index: p as u32,
            byte_offset: (b * (BLOCK_BYTES as int)) as u32,
            amount: spec_block_len(d.pieces@[p].length as int, b) as u32,
        },
    )
}

/// Claiming the next block of work: when `pre` still has an unclaimed
/// block, the first one (in scan order) is now marked `Downloading` and the
/// reply is the request for exactly that block; when none remains the store
/// is untouched and the connection's work is complete.
pub open spec fn spec_claim_and_request(
    pre: Download,
    post: Download,
    reply: Option<Vec<u8>>,
    complete: bool,
) -> bool {
    match spec_first_unclaimed(pre) {
        Some((p, b)) => {
            &&& Download::spec_claimed(pre, post, p, b)
            &&& !complete
            &&& (reply matches Some(m) && m@ == spec_request_for(pre, p, b))
        },
        None => {
            &&& post == pre
            &&& reply is None
            &&& complete
        },
    }
}

/// `bits` with bit `i` set, most-significant-bit-first within each byte;
/// out-of-range bits leave the sequence unchanged.
pub open spec fn spec_set_bit(bits: Seq<u8>, i: int) -> Seq<u8> {
    if 0 <= i && i / 8 < bits.len() {
        bits.update(i / 8, bits[i / 8] | (128u8 >> ((i % 8) as u8)))
    } else {
        bits
    }
}

/// A piece message the store can accept: index in range, offset on a block
/// boundary inside that piece, and exactly the block's expected bytes.
pub open spec fn spec_piece_payload_valid(d: Download, payload: Seq<u8>) -> bool {
    let pi = spec_u32_from_be_bytes(payload.subrange(1, 5)) as int;
    let off = spec_u32_from_be_bytes(payload.subrange(5, 9)) as int;
    &&& payload.len() >= 9
    &&& pi < d.pieces@.len()
    &&& off % (BLOCK_BYTES as int) == 0
    &&& off / (BLOCK_BYTES as int) < d.pieces@[pi].content@.len()
    &&& payload.len() - 9 == spec_block_len(
        d.pieces@[pi].length as int,
        off / (BLOCK_BYTES as int),
    )
}

/// Recording block `b` of piece `pi`: only that piece changes, and it
/// changes as `spec_record_block` says; `rv` is the assembled piece handed
/// back when this block completed and verified the piece.
pub open spec fn spec_recorded(
    pre_d: Download,
    post_d: Download,
    pi: int,
    data: Seq<u8>,
    b: int,
    rv: Option<Seq<u8>>,
) -> bool {
    &&& post_d.pieces@.len() == pre_d.pieces@.len()
    &&& forall|i: int|
        0 <= i < pre_d.pieces@.len() && i != pi ==> #[trigger] post_d.pieces@[i]
            == pre_d.pieces@[i]
    &&& spec_record_block(pre_d.pieces@[pi], post_d.pieces@[pi], data, b, rv)
}

/// An accepted piece message: the block is recorded as
/// `spec_record_block` says, a verified piece's bytes are handed up under
/// its ordinal, and the next block of work is claimed from the store the
/// recording left behind.
pub open spec fn spec_piece_step(
    pre_d: Download,
    post_d: Download,
    payload: Seq<u8>,
    r: StepActions,
) -> bool {
    &&& !r.failed
    &&& (r.persist matches Some((idx, _v)) ==> idx == spec_u32_from_be_bytes(
        payload.subrange(1, 5),
    ) as int)
    &&& exists|mid: Download|
        {
            &&& spec_recorded(
                pre_d,
                mid,
                spec_u32_from_be_bytes(payload.subrange(1, 5)) as int,
                payload.subrange(9, payload.len() as int),
                (spec_u32_from_be_bytes(payload.subrange(5, 9)) as int) / (BLOCK_BYTES as int),
                match r.persist {
                    Some((_idx, v)) => Some(v@),
                    None => None,
                },
            )
            &&& #[trigger] spec_claim_and_request(mid, post_d, r.reply, r.complete)
        }
}

/// One step of the steady-state loop: what the message did to
/// the connection and to the shared store, and which actions the caller
/// owes.  `payload` is the framed message after its length field: empty for
/// a keep-alive, else the type byte and the type-specific payload.
pub open spec fn spec_step(
    pre: PeerConnection,
    post: PeerConnection,
    pre_d: Download,
    post_d: Download,
    payload: Seq<u8>,
    r: StepActions,
) -> bool {
    if payload.len() == 0 {
        // a keep-alive is answered with a keep-alive
        &&& post == pre
        &&& post_d == pre_d
        &&& (r.reply matches Some(m) && m@ == spec_encode(MessageFrame::KeepAlive))
        &&& r.persist is None
        &&& !r.complete
        &&& !r.failed
    } else {
        let t = payload[0];
        if t == 0 {
            // choke: stop issuing requests until unchoked
            &&& post == (PeerConnection { am_status: Some(PeerStatus::Chocked), ..pre })
            &&& post_d == pre_d
            &&& spec_no_actions(r)
        } else if t == 1 {
            // unchoke: claim the next block and request it, or finish
            &&& post == (PeerConnection { am_status: Some(PeerStatus::Interested), ..pre })
            &&& spec_claim_and_request(pre_d, post_d, r.reply, r.complete)
            &&& r.persist is None
            &&& !r.failed
        } else if t == 4 {
            // have: record the announced piece in the peer's bitfield
            if payload.len() == 5 {
                &&& post.peer == pre.peer
                &&& post.am_status == pre.am_status
                &&& post.peer_status == pre.peer_status
                &&& post.state == pre.state
                &&& post.bitfield@ == spec_set_bit(
                    pre.bitfield@,
                    spec_u32_from_be_bytes(payload.subrange(1, 5)) as int,
                )
                &&& post_d == pre_d
                &&& spec_no_actions(r)
            } else {
                spec_failed_step(pre, post, pre_d, post_d, r)
            }
        } else if t == 5 {
            // bitfield: record the peer's advertised availability, answer
            // with interest
            &&& post.peer == pre.peer
            &&& post.am_status == pre.am_status
            &&& post.peer_status == pre.peer_status
            &&& post.state == pre.state
            &&& post.bitfield@ == payload.subrange(1, payload.len() as int)
            &&& post_d == pre_d
            &&& (r.reply matches Some(m) && m@ == spec_encode(MessageFrame::Interested))
            &&& r.persist is None
            &&& !r.complete
            &&& !r.failed
        } else if t == 7 {
            // piece: record the block; on a completed and verified piece
            // hand its bytes up for persisting; then claim the next block
            if spec_piece_payload_valid(pre_d, payload) {
                &&& post == pre
                &&& spec_piece_step(pre_d, post_d, payload, r)
            } else {
                spec_failed_step(pre, post, pre_d, post_d, r)
            }
        } else {
            // the peer's own interest signals, requests and cancels, port
            // announcements, extension traffic and unknown types are
            // ignored, never fatal
            &&& post == pre
            &&& post_d == pre_d
            &&& spec_no_actions(r)
        }
    }
}

/// Claims the first unclaimed block and builds the request for it.
fn claim_and_request(download: &mut Download) -> (r: (Option<Vec<u8>>, bool))
    requires
        old(download).wf(),
        old(download).pieces@.len() <= u32::MAX,
    ensures
        final(download).wf(),
        final(download).pieces@.len() == old(download).pieces@.len(),
        spec_claim_and_request(*old(download), *final(download), r.0, r.1),
{
    match download.find_first_block() {
        Some((p, b)) => {
            let piece_len: u64 = download.pieces[p].length;
            let amount: u32 = crate::download::block_len_of(piece_len, b);
            proof {
                crate::download::lemma_block_count_bounds(piece_len as int);
                let bb = BLOCK_BYTES as int;
                let q = crate::download::spec_block_count(piece_len as int);
                assert(0 <= (b as int) * bb && (b as int) * bb <= (q - 1) * bb)
                    by (nonlinear_arith)
                    requires
                        0 <= (b as int) < q,
                        0 < bb,
                ;
            }
            let offset64: u64 = (b as u64) * (BLOCK_BYTES as u64);
            let claimed = download.claim_block(p, b);
            assert(claimed);
            let reply = Message::request_with_length(p as u32, offset64 as u32, amount);
            (Some(reply), false)
        },
        None => (None, true),
    }
}

impl PeerConnection {
    /// Handles one framed inbound message in the steady state: updates this
    /// connection and the shared store, and reports what the caller must do
    /// — send the reply, persist the verified piece (before requesting
    /// further work), end the loop on completion, or drop the connection on
    /// a malformed message.
    #[verifier::rlimit(60)]
    pub fn handle_message(&mut self, download: &mut Download, message: &Vec<u8>) -> (r:
        StepActions)
        requires
            old(self).state is SteadyState,
            old(download).wf(),
            old(download).pieces@.len() <= u32::MAX,
        ensures
            final(download).wf(),
            final(download).pieces@.len() == old(download).pieces@.len(),
            spec_step(*old(self), *final(self), *old(download), *final(download), message@, r),
    {
        if message.len() == 0 {
            return StepActions {
                reply: Some(Message::keep_alive()),
                persist: None,
                complete: false,
                failed: false,
            };
        }
        let t = message[0];
        match MessageType::from_byte(t) {
            Some(MessageType::Choke) => {
                self.am_status = Some(PeerStatus::Chocked);
                StepActions { reply: None, persist: None, complete: false, failed: false }
            },
            Some(MessageType::Unchoke) => {
                self.am_status = Some(PeerStatus::Interested);
                let (reply, complete) = claim_and_request(download);
                StepActions { reply, persist: None, complete, failed: false }
            },
            Some(MessageType::Have) => {
                if message.len() == 5 {
                    let piece_index = u32_from_be(message[1], message[2], message[3], message[4]);
                    assert(message@.subrange(1, 5) =~= seq![
                        message@[1],
                        message@[2],
                        message@[3],
                        message@[4],
                    ]);
                    let byte: usize = (piece_index / 8) as usize;
                    if byte < self.bitfield.len() {
                        let mask: u8 = 128u8 >> ((piece_index % 8) as u8);
                        let cur = self.bitfield[byte];
                        self.bitfield[byte] = cur | mask;
                    }
                    StepActions { reply: None, persist: None, complete: false, failed: false }
                } else {
                    StepActions { reply: None, persist: None, complete: false, failed: true }
                }
            },
            Some(MessageType::Bitfield) => {
                self.bitfield = copy_range(message, 1, message.len());
                StepActions {
                    reply: Some(Message::interested()),
                    persist: None,
                    complete: false,
                    failed: false,
                }
            },
            Some(MessageType::Piece) => {
                if message.len() < 9 {
                    return StepActions {
                        reply: None,
                        persist: None,
                        complete: false,
                        failed: true,
                    };
                }
                let piece_index = u32_from_be(message[1], message[2], message[3], message[4]);
                let byte_offset = u32_from_be(message[5], message[6], message[7], message[8]);
                proof {
                    assert(message@.subrange(1, 5) =~= seq![
                        message@[1],
                        message@[2],
                        message@[3],
                        message@[4],
                    ]);
                    assert(message@.subrange(5, 9) =~= seq![
                        message@[5],
                        message@[6],
                        message@[7],
                        message@[8],
                    ]);
                }
                let pi = piece_index as usize;
                if pi >= download.pieces.len() {
                    return StepActions {
                        reply: None,
                        persist: None,
                        complete: false,
                        failed: true,
                    };
                }
                if byte_offset % BLOCK_BYTES != 0 {
                    return StepActions {
                        reply: None,
                        persist: None,
                        complete: false,
                        failed: true,
                    };
                }
                let b = (byte_offset / BLOCK_BYTES) as usize;
                if b >= download.pieces[pi].content.len() {
                    return StepActions {
                        reply: None,
                        persist: None,
                        complete: false,
                        failed: true,
                    };
                }
                let expected = crate::download::block_len_of(download.pieces[pi].length, b);
                if message.len() - 9 != expected as usize {
                    return StepActions {
                        reply: None,
                        persist: None,
                        complete: false,
                        failed: true,
                    };
                }
                assert(spec_piece_payload_valid(*download, message@));
                let block = copy_range(message, 9, message.len());
                let res = download.set_block(block.as_slice(), pi, byte_offset as usize);
                let ghost mid = *download;
                let persist = match res {
                    Some(v) => Some((pi, v)),
                    None => None,
                };
                let ghost rv = match &persist {
                    Some((_idx, v)) => Some(v@),
                    None => None,
                };
                let (reply, complete) = claim_and_request(download);
                let r = StepActions { reply, persist, complete, failed: false };
                proof {
                    let data = message@.subrange(9, message@.len() as int);
                    let spec_pi = spec_u32_from_be_bytes(message@.subrange(1, 5)) as int;
                    let spec_off = spec_u32_from_be_bytes(message@.subrange(5, 9)) as int;
                    let spec_b = spec_off / (BLOCK_BYTES as int);
                    let rvv = match &r.persist {
                        Some((_idx, v)) => Some(v@),
                        None => None,
                    };
                    assert(spec_pi == pi as int);
                    assert(spec_b == (byte_offset as int) / (BLOCK_BYTES as int));
                    assert(rvv == rv);
                    assert(block@ =~= data);
                    assert(spec_piece_payload_valid(*old(download), message@));
                    assert(spec_recorded(*old(download), mid, spec_pi, data, spec_b, rvv));
                    assert(spec_claim_and_request(mid, *download, r.reply, r.complete));
                }
                r
            },
            Some(MessageType::Extended) => {
                StepActions { reply: None, persist: None, complete: false, failed: false }
            },
            _ => {
                StepActions { reply: None, persist: None, complete: false, failed: false }
            },
        }
    }
}

} // verus!
