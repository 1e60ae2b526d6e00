use torrent_client::download::{Block, Download, PieceStatus};
use torrent_client::messages::{Decoded, Message, MessageType, BLOCK_BYTES};
use torrent_client::parse_torrent::{Info, TorrentFile};

#[test]
fn request_message() {
    assert_eq!(
        Message::request(0, 0),
        vec![0, 0, 0, 13, 6, 0, 0, 0, 0, 0, 0, 0, 0, 0, 0, 64, 0]
    );
}

#[test]
fn keep_alive_is_a_bare_zero_length() {
    assert_eq!(Message::keep_alive(), vec![0, 0, 0, 0]);
}

#[test]
fn status_messages_carry_only_their_type_byte() {
    assert_eq!(Message::choke(), vec![0, 0, 0, 1, 0]);
    assert_eq!(Message::unchoke(), vec![0, 0, 0, 1, 1]);
    assert_eq!(Message::interested(), vec![0, 0, 0, 1, 2]);
    assert_eq!(Message::not_interested(), vec![0, 0, 0, 1, 3]);
}

#[test]
fn have_carries_the_piece_index_big_endian() {
    assert_eq!(Message::have(0x01020304), vec![0, 0, 0, 5, 4, 1, 2, 3, 4]);
}

#[test]
fn request_scales_the_block_ordinal_to_a_byte_offset() {
    let m = Message::request(7, 3);
    assert_eq!(
        m,
        vec![0, 0, 0, 13, 6, 0, 0, 0, 7, 0, 0, 0xC0, 0, 0, 0, 0x40, 0]
    );
    assert_eq!(u32::from_be_bytes([m[9], m[10], m[11], m[12]]), 3 * BLOCK_BYTES);
}

#[test]
fn request_with_length_encodes_a_short_final_block() {
    let m = Message::request_with_length(1, 16384, 100);
    assert_eq!(m, vec![0, 0, 0, 13, 6, 0, 0, 0, 1, 0, 0, 0x40, 0, 0, 0, 0, 100]);
}

#[test]
fn piece_message_frames_its_block() {
    let block = vec![0xAA, 0xBB, 0xCC];
    let m = Message::piece(2, 16384, &block);
    assert_eq!(
        m,
        vec![0, 0, 0, 12, 7, 0, 0, 0, 2, 0, 0, 0x40, 0, 0xAA, 0xBB, 0xCC]
    );
}

#[test]
fn cancel_mirrors_request_under_its_own_type() {
    let m = Message::cancel(7, 0xC000, 16384);
    assert_eq!(
        m,
        vec![0, 0, 0, 13, 8, 0, 0, 0, 7, 0, 0, 0xC0, 0, 0, 0, 0x40, 0]
    );
}

#[test]
fn port_carries_two_bytes() {
    assert_eq!(Message::port(6881), vec![0, 0, 0, 3, 9, 0x1A, 0xE1]);
}

#[test]
fn decode_inverts_every_outbound_construction() {
    assert_eq!(Message::decode(&Message::keep_alive()), Some(Decoded::KeepAlive));
    assert_eq!(Message::decode(&Message::choke()), Some(Decoded::Choke));
    assert_eq!(Message::decode(&Message::unchoke()), Some(Decoded::Unchoke));
    assert_eq!(Message::decode(&Message::interested()), Some(Decoded::Interested));
    assert_eq!(
        Message::decode(&Message::not_interested()),
        Some(Decoded::NotInterested)
    );
    assert_eq!(
        Message::decode(&Message::have(123456)),
        Some(Decoded::Have { piece_index: 123456 })
    );
    assert_eq!(
        Message::decode(&Message::request(9, 2)),
        Some(Decoded::Request {
            piece_index: 9,
            byte_offset: 2 * BLOCK_BYTES,
            amount: BLOCK_BYTES,
        })
    );
    let block = vec![1, 2, 3, 4, 5];
    assert_eq!(
        Message::decode(&Message::piece(3, 32768, &block)),
        Some(Decoded::Piece {
            piece_index: 3,
            byte_offset: 32768,
            data: block,
        })
    );
    assert_eq!(
        Message::decode(&Message::cancel(3, 32768, 16384)),
        Some(Decoded::Cancel {
            piece_index: 3,
            byte_offset: 32768,
            amount: 16384,
        })
    );
    assert_eq!(
        Message::decode(&Message::port(6881)),
        Some(Decoded::Port { port: 6881 })
    );
}

#[test]
fn decode_round_trips_a_bitfield() {
    let torrent = two_piece_torrent();
    let mut download = Download::from(&torrent);
    download.pieces[1].status = PieceStatus::ShaVerified;
    for b in download.pieces[1].content.iter_mut() {
        *b = Block::Downloaded(Vec::new());
    }
    let m = Message::bitfield(&torrent, &download);
    assert_eq!(
        Message::decode(&m),
        Some(Decoded::Bitfield { bits: vec![0b0100_0000] })
    );
}

#[test]
fn decode_rejects_a_length_field_that_lies() {
    // claims one payload byte, delivers none
    assert_eq!(Message::decode(&vec![0, 0, 0, 1]), None);
    // claims none, delivers one
    assert_eq!(Message::decode(&vec![0, 0, 0, 0, 0]), None);
    // too short for a length field at all
    assert_eq!(Message::decode(&vec![0, 0]), None);
}

#[test]
fn decode_rejects_wrong_fixed_payload_sizes() {
    // have with a 2-byte index
    assert_eq!(Message::decode(&vec![0, 0, 0, 3, 4, 1, 2]), None);
    // request with a truncated body
    assert_eq!(Message::decode(&vec![0, 0, 0, 5, 6, 1, 2, 3, 4]), None);
    // piece without index and offset
    assert_eq!(Message::decode(&vec![0, 0, 0, 5, 7, 1, 2, 3, 4]), None);
}

#[test]
fn decode_keeps_unknown_types_well_framed() {
    assert_eq!(
        Message::decode(&vec![0, 0, 0, 2, 42, 7]),
        Some(Decoded::Unknown {
            type_byte: 42,
            payload: vec![7],
        })
    );
    assert_eq!(
        Message::decode(&vec![0, 0, 0, 1, 20]),
        Some(Decoded::Extended { payload: vec![] })
    );
}

#[test]
fn message_type_bytes_round_trip() {
    let types = [
        (MessageType::Choke, 0u8),
        (MessageType::Unchoke, 1),
        (MessageType::Interested, 2),
        (MessageType::NotInterested, 3),
        (MessageType::Have, 4),
        (MessageType::Bitfield, 5),
        (MessageType::Request, 6),
        (MessageType::Piece, 7),
        (MessageType::Cancel, 8),
        (MessageType::Port, 9),
        (MessageType::KeepAlive, 10),
        (MessageType::Extended, 20),
    ];
    for (t, b) in types {
        assert_eq!(t.as_byte(), b);
        assert_eq!(MessageType::from_byte(b), Some(t));
    }
    assert_eq!(MessageType::from_byte(11), None);
    assert_eq!(MessageType::from_byte(255), None);
}

#[test]
fn bitfield_packs_most_significant_bit_first() {
    // nine pieces: two bytes, one padding-heavy
    let torrent = torrent_with(9, 16384, 9 * 16384);
    let mut download = Download::from(&torrent);
    for i in [0usize, 8] {
        download.pieces[i].status = PieceStatus::WrittenToDisk;
        for b in download.pieces[i].content.iter_mut() {
            *b = Block::Downloaded(Vec::new());
        }
    }
    let m = Message::bitfield(&torrent, &download);
    assert_eq!(m, vec![0, 0, 0, 3, 5, 0b1000_0000, 0b1000_0000]);
}

fn torrent_with(num_pieces: usize, piece_length: i64, total: i64) -> TorrentFile {
    TorrentFile {
        info: Info {
            name: String::from("content"),
            pieces: vec![0; 20 * num_pieces],
            piece_length,
            md5sum: None,
            length: Some(total),
            files: None,
            private: None,
            path: None,
            root_hash: None,
        },
        announce: String::from("http://tracker.example/announce"),
    }
}

fn two_piece_torrent() -> TorrentFile {
    torrent_with(2, 16384, 2 * 16384)
}
