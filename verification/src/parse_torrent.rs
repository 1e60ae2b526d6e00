//! The metadata descriptor of a swarm, as the library models it.
//!
//! The descriptor arrives from outside as an opaque file; whatever parses it
//! hands the library these plain values: the content name, the nominal piece
//! length, the total content length, and the concatenated 20-byte piece
//! hashes.

use vstd::prelude::*;

verus! {

/// One file entry of a multi-file descriptor.  Multi-file downloads are out
/// of scope; the entries only ride along so the info dictionary can be
/// re-encoded faithfully.
#[derive(Debug, Clone)]
pub struct File {
    pub path: Vec<String>,
    pub length: i64,
    pub md5sum: Option<String>,
}

/// The info dictionary of the descriptor.
#[derive(Debug, Clone)]
pub struct Info {
    pub name: String,
    /// Concatenation of each piece's 20-byte content hash.
    pub pieces: Vec<u8>,
    /// Nominal number of bytes per piece; the final piece may be shorter.
    pub piece_length: i64,
    pub md5sum: Option<String>,
    pub length: Option<i64>,
    pub files: Option<Vec<File>>,
    pub private: Option<u8>,
    pub path: Option<Vec<String>>,
    pub root_hash: Option<String>,
}

impl Info {
    /// The total content length, read from the single-file `length` field.
    pub open spec fn spec_total_length(self) -> int {
        match self.length {
            Some(t) => t as int,
            None => 0,
        }
    }

    /// Number of pieces: the total length divided by the piece length,
    /// rounded up.
    pub open spec fn spec_num_pieces(self) -> int {
        (self.spec_total_length() + self.piece_length - 1) / (self.piece_length as int)
    }

    /// The byte length of piece `i`: the nominal piece length, except that
    /// the final piece holds only the remainder.
    pub open spec fn spec_piece_len(self, i: int) -> int
        recommends
            0 <= i < self.spec_num_pieces(),
    {
        if i == self.spec_num_pieces() - 1 {
            self.spec_total_length() - i * self.piece_length
        } else {
            self.piece_length as int
        }
    }

    /// A descriptor the piece store can be built from: a positive piece
    /// length that the wire's 4-byte offsets can address, a known positive
    /// total length that arithmetic on this machine can hold, and one
    /// 20-byte hash per piece.
    pub open spec fn wf(self) -> bool {
        &&& 0 < self.piece_length <= u32::MAX
        &&& self.length matches Some(t) && 0 < t <= i64::MAX - self.piece_length
        &&& self.pieces@.len() == 20 * self.spec_num_pieces()
    }
}

/// The whole descriptor: the info dictionary plus the tracker's announce
/// address.
#[derive(Debug, Clone)]
pub struct TorrentFile {
    pub info: Info,
    pub announce: String,
}

/// Number of bytes a piece bitfield needs: one bit per piece, rounded up to
/// whole bytes.
pub fn bitfield_size(torrent: &TorrentFile) -> (r: u32)
    requires
        torrent.info.wf(),
        torrent.info.spec_num_pieces() + 7 <= u32::MAX,
    ensures
        r == (torrent.info.spec_num_pieces() + 7) / 8,
{
    let total: i64 = match torrent.info.length {
        Some(t) => t,
        None => 0,
    };
    let number_of_pieces: i64 = (total + torrent.info.piece_length - 1)
        / torrent.info.piece_length;
    ((number_of_pieces as u32) + 7) / 8
}

} // verus!
