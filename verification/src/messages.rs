//! Wire message codec for the peer protocol.
//!
//! Every steady-state message is length-prefixed: a 4-byte big-endian count of
//! the bytes that follow (zero for a keep-alive), then a 1-byte message type
//! and a type-specific payload.  `MessageFrame` is the mathematical model of
//! one framed message; `spec_encode` and `spec_decode` fix the byte format,
//! and the executable encoders and the decoder are proved against them.

use crate::download::Download;
use crate::parse_torrent::TorrentFile;
use vstd::prelude::*;

verus! {

/// Number of bytes requested per block: the unit of transfer inside a piece.
pub const BLOCK_BYTES: u32 = 16384;

/// Namespace for the outbound message constructors and the decoder.
pub struct Message {}

/// The message type identifiers of the peer protocol, in wire order.
#[derive(Clone, Copy, Debug, PartialEq, Eq, Structural)]
pub enum MessageType {
    Choke,
    Unchoke,
    Interested,
    NotInterested,
    Have,
    Bitfield,
    Request,
    Piece,
    Cancel,
    Port,
    KeepAlive,
    Extended,
}

impl MessageType {
    /// The identifier byte of this message type.  A keep-alive has no type
    /// byte on the wire; it reuses the first free identifier, as the
    /// extension identifier 20 is fixed by the protocol.
    pub open spec fn spec_byte(self) -> u8 {
        match self {
            MessageType::Choke => 0,
            MessageType::Unchoke => 1,
            MessageType::Interested => 2,
            MessageType::NotInterested => 3,
            MessageType::Have => 4,
            MessageType::Bitfield => 5,
            MessageType::Request => 6,
            MessageType::Piece => 7,
            MessageType::Cancel => 8,
            MessageType::Port => 9,
            MessageType::KeepAlive => 10,
            MessageType::Extended => 20,
        }
    }

    /// Fallible identifier-to-variant conversion; unknown bytes yield `None`
    /// and the connection loop must treat them as ignorable, not fatal.
    pub open spec fn spec_from_byte(b: u8) -> Option<MessageType> {
        if b == 0 {
            Some(MessageType::Choke)
        } else if b == 1 {
            Some(MessageType::Unchoke)
        } else if b == 2 {
            Some(MessageType::Interested)
        } else if b == 3 {
            Some(MessageType::NotInterested)
        } else if b == 4 {
            Some(MessageType::Have)
        } else if b == 5 {
            Some(MessageType::Bitfield)
        } else if b == 6 {
            Some(MessageType::Request)
        } else if b == 7 {
            Some(MessageType::Piece)
        } else if b == 8 {
            Some(MessageType::Cancel)
        } else if b == 9 {
            Some(MessageType::Port)
        } else if b == 10 {
            Some(MessageType::KeepAlive)
        } else if b == 20 {
            Some(MessageType::Extended)
        } else {
            None
        }
    }

    pub fn as_byte(&self) -> (r: u8)
        ensures
            r == self.spec_byte(),
    {
        match self {
            MessageType::Choke => 0,
            MessageType::Unchoke => 1,
            MessageType::Interested => 2,
            MessageType::NotInterested => 3,
            MessageType::Have => 4,
            MessageType::Bitfield => 5,
            MessageType::Request => 6,
            MessageType::Piece => 7,
            MessageType::Cancel => 8,
            MessageType::Port => 9,
            MessageType::KeepAlive => 10,
            MessageType::Extended => 20,
        }
    }

    pub fn from_byte(b: u8) -> (r: Option<MessageType>)
        ensures
            r == MessageType::spec_from_byte(b),
    {
        if b == 0 {
            Some(MessageType::Choke)
        } else if b == 1 {
            Some(MessageType::Unchoke)
        } else if b == 2 {
            Some(MessageType::Interested)
        } else if b == 3 {
            Some(MessageType::NotInterested)
        } else if b == 4 {
            Some(MessageType::Have)
        } else if b == 5 {
            Some(MessageType::Bitfield)
        } else if b == 6 {
            Some(MessageType::Request)
        } else if b == 7 {
            Some(MessageType::Piece)
        } else if b == 8 {
            Some(MessageType::Cancel)
        } else if b == 9 {
            Some(MessageType::Port)
        } else if b == 10 {
            Some(MessageType::KeepAlive)
        } else if b == 20 {
            Some(MessageType::Extended)
        } else {
            None
        }
    }
}

/// The four bytes of `x` in big-endian order.
pub open spec fn spec_u32_to_be_bytes(x: u32) -> Seq<u8> {
    seq![
        ((x >> 24) & 0xff) as u8,
        ((x >> 16) & 0xff) as u8,
        ((x >> 8) & 0xff) as u8,
        (x & 0xff) as u8,
    ]
}

/// The value of four big-endian bytes.
pub open spec fn spec_u32_from_be_bytes(s: Seq<u8>) -> u32
    recommends
        s.len() == 4,
{
    (((s[0] as u32) << 24) | ((s[1] as u32) << 16) | ((s[2] as u32) << 8) | (s[3] as u32)) as u32
}

pub proof fn lemma_u32_be_bytes_round_trip(x: u32)
    ensures
        spec_u32_to_be_bytes(x).len() == 4,
        spec_u32_from_be_bytes(spec_u32_to_be_bytes(x)) == x,
{
    let s = spec_u32_to_be_bytes(x);
    assert(((((((x >> 24) & 0xff) as u8) as u32) << 24) | (((((x >> 16) & 0xff) as u8) as u32)
        << 16) | (((((x >> 8) & 0xff) as u8) as u32) << 8) | (((x & 0xff) as u8) as u32)) as u32
        == x) by (bit_vector);
}

/// Appends the big-endian bytes of `x`.
pub fn push_u32_be(out: &mut Vec<u8>, x: u32)
    ensures
        final(out)@ == old(out)@ + spec_u32_to_be_bytes(x),
{
    out.push(((x >> 24) & 0xff) as u8);
    out.push(((x >> 16) & 0xff) as u8);
    out.push(((x >> 8) & 0xff) as u8);
    out.push((x & 0xff) as u8);
    assert(out@ =~= old(out)@ + spec_u32_to_be_bytes(x));
}

/// Reads a `u32` from four big-endian bytes.
pub fn u32_from_be(b0: u8, b1: u8, b2: u8, b3: u8) -> (r: u32)
    ensures
        r == spec_u32_from_be_bytes(seq![b0, b1, b2, b3]),
{
    (((b0 as u32) << 24) | ((b1 as u32) << 16) | ((b2 as u32) << 8) | (b3 as u32)) as u32
}

impl Message {
    /// A keep-alive: a zero length field and nothing else.
    pub fn keep_alive() -> (r: Vec<u8>)
        ensures
            r@ == spec_encode(MessageFrame::KeepAlive),
    {
        let mut message: Vec<u8> = Vec::new();
        push_u32_be(&mut message, 0);
        message
    }

    pub fn choke() -> (r: Vec<u8>)
        ensures
            r@ == spec_encode(MessageFrame::Choke),
    {
        let mut message: Vec<u8> = Vec::new();
        push_u32_be(&mut message, 1);
        message.push(0);
        assert(message@ =~= spec_encode(MessageFrame::Choke));
        message
    }

    pub fn unchoke() -> (r: Vec<u8>)
        ensures
            r@ == spec_encode(MessageFrame::Unchoke),
    {
        let mut message: Vec<u8> = Vec::new();
        push_u32_be(&mut message, 1);
        message.push(1);
        assert(message@ =~= spec_encode(MessageFrame::Unchoke));
        message
    }

    pub fn interested() -> (r: Vec<u8>)
        ensures
            r@ == spec_encode(MessageFrame::Interested),
    {
        let mut message: Vec<u8> = Vec::new();
        push_u32_be(&mut message, 1);
        message.push(2);
        assert(message@ =~= spec_encode(MessageFrame::Interested));
        message
    }

    pub fn not_interested() -> (r: Vec<u8>)
        ensures
            r@ == spec_encode(MessageFrame::NotInterested),
    {
        let mut message: Vec<u8> = Vec::new();
        push_u32_be(&mut message, 1);
        message.push(3);
        assert(message@ =~= spec_encode(MessageFrame::NotInterested));
        message
    }

    /// Announces that the piece with the given ordinal is fully available.
    pub fn have(piece_index: u32) -> (r: Vec<u8>)
        ensures
            r@ == spec_encode(MessageFrame::Have { piece_index }),
    {
        let mut message: Vec<u8> = Vec::new();
        push_u32_be(&mut message, 5);
        message.push(4);
        push_u32_be(&mut message, piece_index);
        assert(message@ =~= spec_encode(MessageFrame::Have { piece_index }));
        message
    }
}

impl Message {
    /// A request for `amount` bytes of a piece, starting at `byte_offset`.
    pub fn request_with_length(piece_index: u32, byte_offset: u32, amount: u32) -> (r: Vec<u8>)
        ensures
            r@ == spec_encode(MessageFrame::Request { piece_index, byte_offset, amount }),
    {
        let mut message: Vec<u8> = Vec::new();
        push_u32_be(&mut message, 13);
        message.push(6);
        push_u32_be(&mut message, piece_index);
        push_u32_be(&mut message, byte_offset);
        push_u32_be(&mut message, amount);
        assert(message@ =~= spec_encode(
            MessageFrame::Request { piece_index, byte_offset, amount },
        ));
        message
    }

    /// A request for one whole block: `piece_offset` is the block ordinal
    /// inside the piece, so the byte offset is `piece_offset * BLOCK_BYTES`
    /// and the requested length is the full block size.
    pub fn request(piece_index: u32, piece_offset: u32) -> (r: Vec<u8>)
        requires
            piece_offset * BLOCK_BYTES <= u32::MAX,
        ensures
            r@ == spec_encode(
                MessageFrame::Request {
                    piece_index,
                    byte_offset: (piece_offset * BLOCK_BYTES) as u32,
                    amount: BLOCK_BYTES,
                },
            ),
    {
        Message::request_with_length(piece_index, piece_offset * BLOCK_BYTES, BLOCK_BYTES)
    }

    /// A piece message carrying the block that starts at `byte_offset`.
    pub fn piece(piece_index: u32, byte_offset: u32, block: &Vec<u8>) -> (r: Vec<u8>)
        requires
            block@.len() + 9 <= u32::MAX,
        ensures
            r@ == spec_encode(
                MessageFrame::Piece { piece_index, byte_offset, data: block@ },
            ),
    {
        let mut message: Vec<u8> = Vec::new();
        push_u32_be(&mut message, (block.len() as u32) + 9);
        message.push(7);
        push_u32_be(&mut message, piece_index);
        push_u32_be(&mut message, byte_offset);
        let mut i: usize = 0;
        while i < block.len()
            invariant
                i <= block@.len(),
                message@ == spec_u32_to_be_bytes((block@.len() + 9) as u32) + seq![7u8]
                    + spec_u32_to_be_bytes(piece_index) + spec_u32_to_be_bytes(byte_offset)
                    + block@.subrange(0, i as int),
            decreases block@.len() - i,
        {
            message.push(block[i]);
            i += 1;
            assert(message@ =~= spec_u32_to_be_bytes((block@.len() + 9) as u32) + seq![7u8]
                + spec_u32_to_be_bytes(piece_index) + spec_u32_to_be_bytes(byte_offset)
                + block@.subrange(0, i as int));
        }
        assert(message@ =~= spec_encode(
            MessageFrame::Piece { piece_index, byte_offset, data: block@ },
        ));
        message
    }

    /// Cancels an earlier request for `amount` bytes at `byte_offset`.
    pub fn cancel(piece_index: u32, byte_offset: u32, amount: u32) -> (r: Vec<u8>)
        ensures
            r@ == spec_encode(MessageFrame::Cancel { piece_index, byte_offset, amount }),
    {
        let mut message: Vec<u8> = Vec::new();
        push_u32_be(&mut message, 13);
        message.push(8);
        push_u32_be(&mut message, piece_index);
        push_u32_be(&mut message, byte_offset);
        push_u32_be(&mut message, amount);
        assert(message@ =~= spec_encode(
            MessageFrame::Cancel { piece_index, byte_offset, amount },
        ));
        message
    }

    /// Announces the port this client listens on.
    pub fn port(port: u16) -> (r: Vec<u8>)
        ensures
            r@ == spec_encode(MessageFrame::Port { port }),
    {
        let mut message: Vec<u8> = Vec::new();
        push_u32_be(&mut message, 3);
        message.push(9);
        message.push(((port >> 8) & 0xff) as u8);
        message.push((port & 0xff) as u8);
        assert(message@ =~= spec_encode(MessageFrame::Port { port }));
        message
    }
}

/// Mathematical model of one framed wire message.
pub enum MessageFrame {
    KeepAlive,
    Choke,
    Unchoke,
    Interested,
    NotInterested,
    Have { piece_index: u32 },
    Bitfield { bits: Seq<u8> },
    Request { piece_index: u32, byte_offset: u32, amount: u32 },
    Piece { piece_index: u32, byte_offset: u32, data: Seq<u8> },
    Cancel { piece_index: u32, byte_offset: u32, amount: u32 },
    Port { port: u16 },
    Extended { payload: Seq<u8> },
    Unknown { type_byte: u8, payload: Seq<u8> },
}

/// Whether a frame fits the wire format: its payload must be countable by the
/// 4-byte length field, and `Unknown` is not an outbound construction.
pub open spec fn spec_encodable(m: MessageFrame) -> bool {
    match m {
        MessageFrame::Bitfield { bits } => bits.len() + 1 <= u32::MAX,
        MessageFrame::Piece { data, .. } => data.len() + 9 <= u32::MAX,
        MessageFrame::Extended { payload } => payload.len() + 1 <= u32::MAX,
        MessageFrame::Unknown { .. } => false,
        _ => true,
    }
}

/// The exact bytes of a frame: length field, type byte, payload.
pub open spec fn spec_encode(m: MessageFrame) -> Seq<u8>
    recommends
        spec_encodable(m),
{
    match m {
        MessageFrame::KeepAlive => spec_u32_to_be_bytes(0),
        MessageFrame::Choke => spec_u32_to_be_bytes(1) + seq![0u8],
        MessageFrame::Unchoke => spec_u32_to_be_bytes(1) + seq![1u8],
        MessageFrame::Interested => spec_u32_to_be_bytes(1) + seq![2u8],
        MessageFrame::NotInterested => spec_u32_to_be_bytes(1) + seq![3u8],
        MessageFrame::Have { piece_index } => spec_u32_to_be_bytes(5) + seq![4u8]
            + spec_u32_to_be_bytes(piece_index),
        MessageFrame::Bitfield { bits } => spec_u32_to_be_bytes((bits.len() + 1) as u32)
            + seq![5u8] + bits,
        MessageFrame::Request { piece_index, byte_offset, amount } => spec_u32_to_be_bytes(13)
            + seq![6u8] + spec_u32_to_be_bytes(piece_index) + spec_u32_to_be_bytes(byte_offset)
            + spec_u32_to_be_bytes(amount),
        MessageFrame::Piece { piece_index, byte_offset, data } => spec_u32_to_be_bytes(
            (data.len() + 9) as u32,
        ) + seq![7u8] + spec_u32_to_be_bytes(piece_index) + spec_u32_to_be_bytes(byte_offset)
            + data,
        MessageFrame::Cancel { piece_index, byte_offset, amount } => spec_u32_to_be_bytes(13)
            + seq![8u8] + spec_u32_to_be_bytes(piece_index) + spec_u32_to_be_bytes(byte_offset)
            + spec_u32_to_be_bytes(amount),
        MessageFrame::Port { port } => spec_u32_to_be_bytes(3) + seq![9u8]
            + seq![((port >> 8) & 0xff) as u8, (port & 0xff) as u8],
        MessageFrame::Extended { payload } => spec_u32_to_be_bytes((payload.len() + 1) as u32)
            + seq![20u8] + payload,
        MessageFrame::Unknown { type_byte, payload } => spec_u32_to_be_bytes(
            (payload.len() + 1) as u32,
        ) + seq![type_byte] + payload,
    }
}

/// Whether a piece counts as available for the local bitfield: its verified
/// content is present (and possibly already on disk).
pub open spec fn spec_piece_available(p: crate::download::Piece) -> bool {
    p.status is ShaVerified || p.status is WrittenToDisk
}

/// Bit `i` of the local bitfield: set exactly for an available piece.
pub open spec fn spec_bit_at(pieces: Seq<crate::download::Piece>, i: int) -> bool {
    0 <= i < pieces.len() && spec_piece_available(pieces[i])
}

/// The value of the first `k` bits of byte `j` of the bitfield, packed
/// most-significant-bit-first: piece `8 * j` lands in the top bit.
pub open spec fn spec_pack_val(pieces: Seq<crate::download::Piece>, j: int, k: int) -> int
    decreases k,
{
    if k <= 0 {
        0
    } else {
        2 * spec_pack_val(pieces, j, k - 1) + (if spec_bit_at(pieces, 8 * j + (k - 1)) {
            1int
        } else {
            0int
        })
    }
}

/// The packed piece bitfield: one bit per piece, zero-padded in the final
/// byte.
pub open spec fn spec_pack_bits(pieces: Seq<crate::download::Piece>) -> Seq<u8> {
    Seq::new(((pieces.len() + 7) / 8) as nat, |j: int| spec_pack_val(pieces, j, 8) as u8)
}

proof fn lemma_pack_val_bound(pieces: Seq<crate::download::Piece>, j: int, k: int)
    requires
        0 <= k <= 8,
    ensures
        0 <= spec_pack_val(pieces, j, k) < vstd::arithmetic::power2::pow2(k as nat),
    decreases k,
{
    vstd::arithmetic::power2::lemma2_to64();
    if k > 0 {
        lemma_pack_val_bound(pieces, j, k - 1);
    }
}

impl Message {
    /// The bitfield announcement: one bit per piece of the download, set
    /// for the pieces whose verified content is already present locally.
    pub fn bitfield(torrent: &TorrentFile, download: &Download) -> (r: Vec<u8>)
        requires
            torrent.info.wf(),
            download.pieces@.len() == torrent.info.spec_num_pieces(),
            torrent.info.spec_num_pieces() + 7 <= u32::MAX,
        ensures
            r@ == spec_encode(
                MessageFrame::Bitfield { bits: spec_pack_bits(download.pieces@) },
            ),
    {
        let size: u32 = crate::parse_torrent::bitfield_size(torrent);
        let n: usize = download.pieces.len();
        let nbytes: usize = (n + 7) / 8;
        assert(nbytes == size);
        let ghost pieces = download.pieces@;
        let mut bits: Vec<u8> = Vec::new();
        let mut j: usize = 0;
        while j < nbytes
            invariant
                pieces == download.pieces@,
                n == pieces.len(),
                n + 7 <= u32::MAX,
                nbytes == (n + 7) / 8,
                j <= nbytes,
                bits@.len() == j,
                forall|jj: int|
                    0 <= jj < j ==> #[trigger] bits@[jj] == spec_pack_val(pieces, jj, 8) as u8,
            decreases nbytes - j,
        {
            proof {
                vstd::arithmetic::div_mod::lemma_fundamental_div_mod((n + 7) as int, 8);
                assert(8 * (j as int) <= 8 * (nbytes - 1)) by (nonlinear_arith)
                    requires
                        0 <= (j as int) <= nbytes - 1,
                ;
            }
            proof {
                vstd::arithmetic::power2::lemma2_to64();
            }
            let mut b: u32 = 0;
            let mut k: usize = 0;
            while k < 8
                invariant
                    pieces == download.pieces@,
                    n == pieces.len(),
                    j < nbytes,
                    8 * (j as int) + 8 <= n + 7,
                    k <= 8,
                    b == spec_pack_val(pieces, j as int, k as int),
                    0 <= b < vstd::arithmetic::power2::pow2(k as nat),
                decreases 8 - k,
            {
                proof {
                    vstd::arithmetic::power2::lemma2_to64();
                    lemma_pack_val_bound(pieces, j as int, k as int);
                }
                let idx: usize = 8 * j + k;
                let avail = idx < n && matches!(
                    download.pieces[idx].status,
                    crate::download::PieceStatus::ShaVerified
                        | crate::download::PieceStatus::WrittenToDisk,
                );
                assert(avail == spec_bit_at(pieces, 8 * (j as int) + (k as int)));
                b = 2 * b + (if avail {
                    1
                } else {
                    0
                });
                k += 1;
            }
            proof {
                vstd::arithmetic::power2::lemma2_to64();
                lemma_pack_val_bound(pieces, j as int, 8);
            }
            bits.push(b as u8);
            j += 1;
        }
        assert(bits@ =~= spec_pack_bits(pieces));
        let mut message: Vec<u8> = Vec::new();
        push_u32_be(&mut message, size + 1);
        message.push(5);
        let mut i: usize = 0;
        while i < bits.len()
            invariant
                i <= bits@.len(),
                bits@.len() + 1 <= u32::MAX,
                message@ == spec_u32_to_be_bytes((bits@.len() + 1) as u32) + seq![5u8]
                    + bits@.subrange(0, i as int),
            decreases bits@.len() - i,
        {
            message.push(bits[i]);
            i += 1;
            assert(message@ =~= spec_u32_to_be_bytes((bits@.len() + 1) as u32) + seq![5u8]
                + bits@.subrange(0, i as int));
        }
        assert(bits@.subrange(0, bits@.len() as int) =~= bits@);
        assert(message@ =~= spec_encode(MessageFrame::Bitfield { bits: spec_pack_bits(pieces) }));
        message
    }
}

/// The frame a well-formed byte string decodes to, or `None` where the
/// length field does not match the delivered bytes or a fixed-size payload
/// has the wrong size.  Unrecognized type bytes in a well-formed frame
/// decode to `Unknown`, never to `None`.
pub open spec fn spec_decode(s: Seq<u8>) -> Option<MessageFrame> {
    if s.len() < 4 {
        None
    } else {
        let len = spec_u32_from_be_bytes(s.subrange(0, 4));
        if s.len() != 4 + len {
            None
        } else if len == 0 {
            Some(MessageFrame::KeepAlive)
        } else {
            let t = s[4];
            let payload = s.subrange(5, s.len() as int);
            if t == 0 {
                if len == 1 {
                    Some(MessageFrame::Choke)
                } else {
                    None
                }
            } else if t == 1 {
                if len == 1 {
                    Some(MessageFrame::Unchoke)
                } else {
                    None
                }
            } else if t == 2 {
                if len == 1 {
                    Some(MessageFrame::Interested)
                } else {
                    None
                }
            } else if t == 3 {
                if len == 1 {
                    Some(MessageFrame::NotInterested)
                } else {
                    None
                }
            } else if t == 4 {
                if len == 5 {
                    Some(MessageFrame::Have {
                        piece_index: spec_u32_from_be_bytes(s.subrange(5, 9)),
                    })
                } else {
                    None
                }
            } else if t == 5 {
                Some(MessageFrame::Bitfield { bits: payload })
            } else if t == 6 {
                if len == 13 {
                    Some(MessageFrame::Request {
                        piece_index: spec_u32_from_be_bytes(s.subrange(5, 9)),
                        byte_offset: spec_u32_from_be_bytes(s.subrange(9, 13)),
                        amount: spec_u32_from_be_bytes(s.subrange(13, 17)),
                    })
                } else {
                    None
                }
            } else if t == 7 {
                if len >= 9 {
                    Some(MessageFrame::Piece {
                        piece_index: spec_u32_from_be_bytes(s.subrange(5, 9)),
                        byte_offset: spec_u32_from_be_bytes(s.subrange(9, 13)),
                        data: s.subrange(13, s.len() as int),
                    })
                } else {
                    None
                }
            } else if t == 8 {
                if len == 13 {
                    Some(MessageFrame::Cancel {
                        piece_index: spec_u32_from_be_bytes(s.subrange(5, 9)),
                        byte_offset: spec_u32_from_be_bytes(s.subrange(9, 13)),
                        amount: spec_u32_from_be_bytes(s.subrange(13, 17)),
                    })
                } else {
                    None
                }
            } else if t == 9 {
                if len == 3 {
                    Some(MessageFrame::Port {
                        port: (((s[5] as u16) << 8) | (s[6] as u16)) as u16,
                    })
                } else {
                    None
                }
            } else if t == 20 {
                Some(MessageFrame::Extended { payload })
            } else {
                Some(MessageFrame::Unknown { type_byte: t, payload })
            }
        }
    }
}

/// Executable form of a decoded frame; its view is the `MessageFrame` model.
#[derive(Debug, Clone, PartialEq)]
pub enum Decoded {
    KeepAlive,
    Choke,
    Unchoke,
    Interested,
    NotInterested,
    Have { piece_index: u32 },
    Bitfield { bits: Vec<u8> },
    Request { piece_index: u32, byte_offset: u32, amount: u32 },
    Piece { piece_index: u32, byte_offset: u32, data: Vec<u8> },
    Cancel { piece_index: u32, byte_offset: u32, amount: u32 },
    Port { port: u16 },
    Extended { payload: Vec<u8> },
    Unknown { type_byte: u8, payload: Vec<u8> },
}

impl View for Decoded {
    type V = MessageFrame;

    open spec fn view(&self) -> MessageFrame {
        match self {
            Decoded::KeepAlive => MessageFrame::KeepAlive,
            Decoded::Choke => MessageFrame::Choke,
            Decoded::Unchoke => MessageFrame::Unchoke,
            Decoded::Interested => MessageFrame::Interested,
            Decoded::NotInterested => MessageFrame::NotInterested,
            Decoded::Have { piece_index } => MessageFrame::Have { piece_index: *piece_index },
            Decoded::Bitfield { bits } => MessageFrame::Bitfield { bits: bits@ },
            Decoded::Request { piece_index, byte_offset, amount } => MessageFrame::Request {
                piece_index: *piece_index,
                byte_offset: *byte_offset,
                amount: *amount,
            },
            Decoded::Piece { piece_index, byte_offset, data } => MessageFrame::Piece {
                piece_index: *piece_index,
                byte_offset: *byte_offset,
                data: data@,
            },
            Decoded::Cancel { piece_index, byte_offset, amount } => MessageFrame::Cancel {
                piece_index: *piece_index,
                byte_offset: *byte_offset,
                amount: *amount,
            },
            Decoded::Port { port } => MessageFrame::Port { port: *port },
            Decoded::Extended { payload } => MessageFrame::Extended { payload: payload@ },
            Decoded::Unknown { type_byte, payload } => MessageFrame::Unknown {
                type_byte: *type_byte,
                payload: payload@,
            },
        }
    }
}

impl Message {
    /// Decodes one framed message, length field included.
    pub fn decode(frame: &Vec<u8>) -> (r: Option<Decoded>)
        ensures
            match r {
                Some(d) => spec_decode(frame@) == Some(d@),
                None => spec_decode(frame@) is None,
            },
    {
        if frame.len() < 4 {
            return None;
        }
        let len = u32_from_be(frame[0], frame[1], frame[2], frame[3]);
        assert(frame@.subrange(0, 4) =~= seq![frame@[0], frame@[1], frame@[2], frame@[3]]);
        if frame.len() - 4 != len as usize {
            return None;
        }
        if len == 0 {
            return Some(Decoded::KeepAlive);
        }
        let t = frame[4];
        if t == 0 {
            if len == 1 {
                Some(Decoded::Choke)
            } else {
                None
            }
        } else if t == 1 {
            if len == 1 {
                Some(Decoded::Unchoke)
            } else {
                None
            }
        } else if t == 2 {
            if len == 1 {
                Some(Decoded::Interested)
            } else {
                None
            }
        } else if t == 3 {
            if len == 1 {
                Some(Decoded::NotInterested)
            } else {
                None
            }
        } else if t == 4 {
            if len == 5 {
                let piece_index = u32_from_be(frame[5], frame[6], frame[7], frame[8]);
                assert(frame@.subrange(5, 9) =~= seq![frame@[5], frame@[6], frame@[7], frame@[8]]);
                Some(Decoded::Have { piece_index })
            } else {
                None
            }
        } else if t == 5 {
            let bits = copy_range(frame, 5, frame.len());
            Some(Decoded::Bitfield { bits })
        } else if t == 6 {
            if len == 13 {
                let piece_index = u32_from_be(frame[5], frame[6], frame[7], frame[8]);
                let byte_offset = u32_from_be(frame[9], frame[10], frame[11], frame[12]);
                let amount = u32_from_be(frame[13], frame[14], frame[15], frame[16]);
                assert(frame@.subrange(5, 9) =~= seq![frame@[5], frame@[6], frame@[7], frame@[8]]);
                assert(frame@.subrange(9, 13) =~= seq![
                    frame@[9],
                    frame@[10],
                    frame@[11],
                    frame@[12],
                ]);
                assert(frame@.subrange(13, 17) =~= seq![
                    frame@[13],
                    frame@[14],
                    frame@[15],
                    frame@[16],
                ]);
                Some(Decoded::Request { piece_index, byte_offset, amount })
            } else {
                None
            }
        } else if t == 7 {
            if len >= 9 {
                let piece_index = u32_from_be(frame[5], frame[6], frame[7], frame[8]);
                let byte_offset = u32_from_be(frame[9], frame[10], frame[11], frame[12]);
                let data = copy_range(frame, 13, frame.len());
                assert(frame@.subrange(5, 9) =~= seq![frame@[5], frame@[6], frame@[7], frame@[8]]);
                assert(frame@.subrange(9, 13) =~= seq![
                    frame@[9],
                    frame@[10],
                    frame@[11],
                    frame@[12],
                ]);
                Some(Decoded::Piece { piece_index, byte_offset, data })
            } else {
                None
            }
        } else if t == 8 {
            if len == 13 {
                let piece_index = u32_from_be(frame[5], frame[6], frame[7], frame[8]);
                let byte_offset = u32_from_be(frame[9], frame[10], frame[11], frame[12]);
                let amount = u32_from_be(frame[13], frame[14], frame[15], frame[16]);
                assert(frame@.subrange(5, 9) =~= seq![frame@[5], frame@[6], frame@[7], frame@[8]]);
                assert(frame@.subrange(9, 13) =~= seq![
                    frame@[9],
                    frame@[10],
                    frame@[11],
                    frame@[12],
                ]);
                assert(frame@.subrange(13, 17) =~= seq![
                    frame@[13],
                    frame@[14],
                    frame@[15],
                    frame@[16],
                ]);
                Some(Decoded::Cancel { piece_index, byte_offset, amount })
            } else {
                None
            }
        } else if t == 9 {
            if len == 3 {
                let port = (((frame[5] as u16) << 8) | (frame[6] as u16)) as u16;
                Some(Decoded::Port { port })
            } else {
                None
            }
        } else if t == 20 {
            let payload = copy_range(frame, 5, frame.len());
            Some(Decoded::Extended { payload })
        } else {
            let payload = copy_range(frame, 5, frame.len());
            Some(Decoded::Unknown { type_byte: t, payload })
        }
    }
}

/// Copies `v[from..to]` into a fresh vector.
pub fn copy_range(v: &Vec<u8>, from: usize, to: usize) -> (r: Vec<u8>)
    requires
        from <= to <= v@.len(),
    ensures
        r@ == v@.subrange(from as int, to as int),
{
    let mut r: Vec<u8> = Vec::new();
    let mut i: usize = from;
    while i < to
        invariant
            from <= i <= to <= v@.len(),
            r@ == v@.subrange(from as int, i as int),
        decreases to - i,
    {
        r.push(v[i]);
        i += 1;
        assert(r@ =~= v@.subrange(from as int, i as int));
    }
    r
}

/// Encoding then decoding is the identity: every outbound construction
/// (keep-alive, choke, unchoke, interested, not-interested, have, bitfield,
/// request, and likewise piece, cancel, port and extended) comes back from
/// `spec_decode` exactly as it went into `spec_encode`.
pub proof fn lemma_decode_encode(m: MessageFrame)
    requires
        spec_encodable(m),
    ensures
        spec_decode(spec_encode(m)) == Some(m),
{
    let s = spec_encode(m);
    match m {
        MessageFrame::KeepAlive => {
            lemma_u32_be_bytes_round_trip(0);
            assert(s.subrange(0, 4) =~= spec_u32_to_be_bytes(0));
        },
        MessageFrame::Choke => {
            lemma_u32_be_bytes_round_trip(1);
            assert(s.subrange(0, 4) =~= spec_u32_to_be_bytes(1));
        },
        MessageFrame::Unchoke => {
            lemma_u32_be_bytes_round_trip(1);
            assert(s.subrange(0, 4) =~= spec_u32_to_be_bytes(1));
        },
        MessageFrame::Interested => {
            lemma_u32_be_bytes_round_trip(1);
            assert(s.subrange(0, 4) =~= spec_u32_to_be_bytes(1));
        },
        MessageFrame::NotInterested => {
            lemma_u32_be_bytes_round_trip(1);
            assert(s.subrange(0, 4) =~= spec_u32_to_be_bytes(1));
        },
        MessageFrame::Have { piece_index } => {
            lemma_u32_be_bytes_round_trip(5);
            lemma_u32_be_bytes_round_trip(piece_index);
            assert(s.subrange(0, 4) =~= spec_u32_to_be_bytes(5));
            assert(s.subrange(5, 9) =~= spec_u32_to_be_bytes(piece_index));
        },
        MessageFrame::Bitfield { bits } => {
            let len = (bits.len() + 1) as u32;
            lemma_u32_be_bytes_round_trip(len);
            assert(s.subrange(0, 4) =~= spec_u32_to_be_bytes(len));
            assert(s[4] == 5u8);
            assert(s.subrange(5, s.len() as int) =~= bits);
        },
        MessageFrame::Request { piece_index, byte_offset, amount } => {
            lemma_u32_be_bytes_round_trip(13);
            lemma_u32_be_bytes_round_trip(piece_index);
            lemma_u32_be_bytes_round_trip(byte_offset);
            lemma_u32_be_bytes_round_trip(amount);
            assert(s.subrange(0, 4) =~= spec_u32_to_be_bytes(13));
            assert(s.subrange(5, 9) =~= spec_u32_to_be_bytes(piece_index));
            assert(s.subrange(9, 13) =~= spec_u32_to_be_bytes(byte_offset));
            assert(s.subrange(13, 17) =~= spec_u32_to_be_bytes(amount));
        },
        MessageFrame::Piece { piece_index, byte_offset, data } => {
            let len = (data.len() + 9) as u32;
            lemma_u32_be_bytes_round_trip(len);
            lemma_u32_be_bytes_round_trip(piece_index);
            lemma_u32_be_bytes_round_trip(byte_offset);
            assert(s.subrange(0, 4) =~= spec_u32_to_be_bytes(len));
            assert(s.subrange(5, 9) =~= spec_u32_to_be_bytes(piece_index));
            assert(s.subrange(9, 13) =~= spec_u32_to_be_bytes(byte_offset));
            assert(s.subrange(13, s.len() as int) =~= data);
        },
        MessageFrame::Cancel { piece_index, byte_offset, amount } => {
            lemma_u32_be_bytes_round_trip(13);
            lemma_u32_be_bytes_round_trip(piece_index);
            lemma_u32_be_bytes_round_trip(byte_offset);
            lemma_u32_be_bytes_round_trip(amount);
            assert(s.subrange(0, 4) =~= spec_u32_to_be_bytes(13));
            assert(s.subrange(5, 9) =~= spec_u32_to_be_bytes(piece_index));
            assert(s.subrange(9, 13) =~= spec_u32_to_be_bytes(byte_offset));
            assert(s.subrange(13, 17) =~= spec_u32_to_be_bytes(amount));
        },
        MessageFrame::Port { port } => {
            lemma_u32_be_bytes_round_trip(3);
            assert(s.subrange(0, 4) =~= spec_u32_to_be_bytes(3));
            assert((((((port >> 8) & 0xff) as u8 as u16) << 8) | ((port & 0xff) as u8 as u16))
                as u16 == port) by (bit_vector);
        },
        MessageFrame::Extended { payload } => {
            let len = (payload.len() + 1) as u32;
            lemma_u32_be_bytes_round_trip(len);
            assert(s.subrange(0, 4) =~= spec_u32_to_be_bytes(len));
            assert(s.subrange(5, s.len() as int) =~= payload);
        },
        MessageFrame::Unknown { .. } => {},
    }
}

} // verus!
