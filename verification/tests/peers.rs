use sha1::Digest;
use sha1::Sha1;
use torrent_client::download::{Block, Download, PieceStatus};
use torrent_client::messages::Message;
use torrent_client::parse_torrent::{Info, TorrentFile};
use torrent_client::peers::{ConnectionState, PeerConnection, PeerStatus};
use torrent_client::tracker::Peer;

fn sha1_bytes(data: &[u8]) -> Vec<u8> {
    let mut hasher = Sha1::new();
    hasher.update(data);
    hasher.finalize().to_vec()
}

fn a_peer() -> Peer {
    Peer {
        peer_id: None,
        ip: String::from("10.0.0.1"),
        port: 6881,
    }
}

fn steady_connection() -> PeerConnection {
    let mut c = PeerConnection::new(a_peer());
    c.begin_connect();
    c.connected();
    let info_hash = vec![7u8; 20];
    let reply = valid_reply(&info_hash);
    assert!(c.complete_handshake(&reply, &info_hash));
    c
}

fn valid_reply(info_hash: &[u8]) -> Vec<u8> {
    let mut reply = vec![19u8];
    reply.extend_from_slice(b"BitTorrent protocol");
    reply.extend_from_slice(&[0u8; 8]);
    reply.extend_from_slice(info_hash);
    reply.extend_from_slice(&[9u8; 20]);
    reply
}

fn torrent_for(content: &[Vec<u8>], piece_length: i64) -> TorrentFile {
    let total: i64 = content.iter().map(|p| p.len() as i64).sum();
    let mut hashes = Vec::new();
    for piece in content {
        hashes.extend(sha1_bytes(piece));
    }
    TorrentFile {
        info: Info {
            name: String::from("content"),
            pieces: hashes,
            piece_length,
            md5sum: None,
            length: Some(total),
            files: None,
            private: None,
            path: None,
            root_hash: None,
        },
        announce: String::from("http://tracker.example/announce"),
    }
}

fn pattern(len: usize, seed: u8) -> Vec<u8> {
    (0..len).map(|i| (i as u8).wrapping_mul(17).wrapping_add(seed)).collect()
}

fn piece_message(piece_index: u32, byte_offset: u32, block: &[u8]) -> Vec<u8> {
    // the payload after the length field: type byte, index, offset, block
    let mut m = vec![7u8];
    m.extend_from_slice(&piece_index.to_be_bytes());
    m.extend_from_slice(&byte_offset.to_be_bytes());
    m.extend_from_slice(block);
    m
}

#[test]
fn connection_lifecycle_walks_the_states() {
    let mut c = PeerConnection::new(a_peer());
    assert_eq!(c.state, ConnectionState::Uninitialized);
    c.begin_connect();
    assert_eq!(c.state, ConnectionState::Connecting);
    c.connected();
    assert_eq!(c.state, ConnectionState::Handshaking);
    let info_hash = vec![7u8; 20];
    assert!(c.complete_handshake(&valid_reply(&info_hash), &info_hash));
    assert_eq!(c.state, ConnectionState::SteadyState);
}

#[test]
fn connect_failure_ends_only_this_connection() {
    let mut c = PeerConnection::new(a_peer());
    c.begin_connect();
    c.transport_error();
    assert_eq!(c.state, ConnectionState::Errored);
}

#[test]
fn handshake_message_has_the_fixed_preamble() {
    let info_hash = vec![5u8; 20];
    let peer_id = vec![b'x'; 20];
    let m = PeerConnection::handshake_message(&info_hash, &peer_id);
    assert_eq!(m.len(), 68);
    assert_eq!(m[0], 19);
    assert_eq!(&m[1..20], b"BitTorrent protocol");
    assert_eq!(&m[20..28], &[0u8; 8]);
    assert_eq!(&m[28..48], &info_hash[..]);
    assert_eq!(&m[48..68], &peer_id[..]);
}

#[test]
fn handshake_reply_with_wrong_protocol_is_fatal() {
    let mut c = PeerConnection::new(a_peer());
    c.begin_connect();
    c.connected();
    let info_hash = vec![7u8; 20];
    let mut reply = valid_reply(&info_hash);
    reply[1] = b'b';
    assert!(!c.complete_handshake(&reply, &info_hash));
    assert_eq!(c.state, ConnectionState::Errored);
}

#[test]
fn handshake_reply_with_wrong_info_hash_is_fatal() {
    let mut c = PeerConnection::new(a_peer());
    c.begin_connect();
    c.connected();
    let info_hash = vec![7u8; 20];
    let mut reply = valid_reply(&info_hash);
    reply[30] ^= 0xFF;
    assert!(!c.complete_handshake(&reply, &info_hash));
    assert_eq!(c.state, ConnectionState::Errored);
}

#[test]
fn handshake_reply_of_wrong_shape_is_fatal() {
    let mut c = PeerConnection::new(a_peer());
    c.begin_connect();
    c.connected();
    let info_hash = vec![7u8; 20];
    let mut reply = valid_reply(&info_hash);
    reply.pop();
    assert!(!c.complete_handshake(&reply, &info_hash));
    assert_eq!(c.state, ConnectionState::Errored);
}

#[test]
fn keep_alive_is_answered_in_kind() {
    let contents = [pattern(100, 1)];
    let torrent = torrent_for(&contents, 100);
    let mut download = Download::from(&torrent);
    let mut c = steady_connection();
    let r = c.handle_message(&mut download, &Vec::new());
    assert_eq!(r.reply, Some(Message::keep_alive()));
    assert!(r.persist.is_none());
    assert!(!r.complete);
    assert!(!r.failed);
}

#[test]
fn choke_stops_requests() {
    let contents = [pattern(100, 1)];
    let torrent = torrent_for(&contents, 100);
    let mut download = Download::from(&torrent);
    let mut c = steady_connection();
    let r = c.handle_message(&mut download, &vec![0]);
    assert_eq!(c.am_status, Some(PeerStatus::Chocked));
    assert!(r.reply.is_none());
    assert!(!r.failed);
}

#[test]
fn unchoke_claims_and_requests_the_first_block() {
    let contents = [pattern(16384 + 100, 1)];
    let torrent = torrent_for(&contents, 16384 + 100);
    let mut download = Download::from(&torrent);
    let mut c = steady_connection();
    let r = c.handle_message(&mut download, &vec![1]);
    assert_eq!(c.am_status, Some(PeerStatus::Interested));
    assert_eq!(r.reply, Some(Message::request(0, 0)));
    assert!(!r.complete);
    assert!(matches!(download.pieces[0].content[0], Block::Downloading));
}

#[test]
fn unchoke_with_nothing_left_signals_completion() {
    let contents = [pattern(100, 1)];
    let torrent = torrent_for(&contents, 100);
    let mut download = Download::from(&torrent);
    assert!(download.claim_block(0, 0));
    let mut c = steady_connection();
    let r = c.handle_message(&mut download, &vec![1]);
    assert!(r.reply.is_none());
    assert!(r.complete);
}

#[test]
fn bitfield_is_recorded_and_answered_with_interest() {
    let contents = [pattern(100, 1)];
    let torrent = torrent_for(&contents, 100);
    let mut download = Download::from(&torrent);
    let mut c = steady_connection();
    let r = c.handle_message(&mut download, &vec![5, 0b1010_0000]);
    assert_eq!(c.bitfield, vec![0b1010_0000]);
    assert_eq!(r.reply, Some(Message::interested()));
    assert!(!r.failed);
}

#[test]
fn have_sets_the_peers_bit() {
    let contents = [pattern(100, 1)];
    let torrent = torrent_for(&contents, 100);
    let mut download = Download::from(&torrent);
    let mut c = steady_connection();
    c.handle_message(&mut download, &vec![5, 0, 0]);
    let mut have = vec![4u8];
    have.extend_from_slice(&9u32.to_be_bytes());
    let r = c.handle_message(&mut download, &have);
    assert_eq!(c.bitfield, vec![0, 0b0100_0000]);
    assert!(!r.failed);
}

#[test]
fn short_have_is_a_framing_error() {
    let contents = [pattern(100, 1)];
    let torrent = torrent_for(&contents, 100);
    let mut download = Download::from(&torrent);
    let mut c = steady_connection();
    let r = c.handle_message(&mut download, &vec![4, 0, 0]);
    assert!(r.failed);
}

#[test]
fn piece_message_completes_verifies_and_persists() {
    let content = pattern(16384 + 100, 3);
    let torrent = torrent_for(&[content.clone()], 16384 + 100);
    let mut download = Download::from(&torrent);
    let mut c = steady_connection();

    let first = c.handle_message(&mut download, &piece_message(0, 0, &content[..16384]));
    assert!(first.persist.is_none());
    assert!(!first.failed);
    // the engine keeps requesting: the remaining short block
    assert_eq!(first.reply, Some(Message::request_with_length(0, 16384, 100)));

    let second = c.handle_message(&mut download, &piece_message(0, 16384, &content[16384..]));
    assert_eq!(second.persist, Some((0, content.clone())));
    assert!(second.complete);
    assert!(second.reply.is_none());
    assert_eq!(download.pieces[0].status, PieceStatus::ShaVerified);
}

#[test]
fn corrupt_piece_is_not_persisted_and_stays_claimable() {
    let content = pattern(100, 3);
    let torrent = torrent_for(&[content.clone()], 100);
    let mut download = Download::from(&torrent);
    let mut c = steady_connection();
    let mut corrupted = content.clone();
    corrupted[0] ^= 0x01;
    let r = c.handle_message(&mut download, &piece_message(0, 0, &corrupted));
    assert!(r.persist.is_none());
    assert!(!r.failed);
    // the failed piece was reset and immediately claimed again
    assert_eq!(r.reply, Some(Message::request_with_length(0, 0, 100)));
    assert!(matches!(download.pieces[0].content[0], Block::Downloading));
}

#[test]
fn malformed_piece_message_is_fatal() {
    let content = pattern(100, 3);
    let torrent = torrent_for(&[content.clone()], 100);
    let mut download = Download::from(&torrent);
    let mut c = steady_connection();
    // index out of range
    let r = c.handle_message(&mut download, &piece_message(9, 0, &content));
    assert!(r.failed);
    // offset not on a block boundary
    let r = c.handle_message(&mut download, &piece_message(0, 5, &content));
    assert!(r.failed);
    // wrong block length
    let r = c.handle_message(&mut download, &piece_message(0, 0, &content[..50]));
    assert!(r.failed);
    // truncated header
    let r = c.handle_message(&mut download, &vec![7, 0, 0]);
    assert!(r.failed);
}

#[test]
fn unknown_messages_are_ignored_not_fatal() {
    let contents = [pattern(100, 1)];
    let torrent = torrent_for(&contents, 100);
    let mut download = Download::from(&torrent);
    let mut c = steady_connection();
    for payload in [vec![2u8], vec![3], vec![6, 1, 2], vec![9, 1, 2], vec![20, 42], vec![99]] {
        let r = c.handle_message(&mut download, &payload);
        assert!(!r.failed);
        assert!(r.reply.is_none());
        assert!(!r.complete);
    }
}
