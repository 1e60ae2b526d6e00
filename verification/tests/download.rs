use sha1::Digest;
use sha1::Sha1;
use torrent_client::download::{Block, Download, PieceStatus};
use torrent_client::parse_torrent::{Info, TorrentFile};

fn sha1_bytes(data: &[u8]) -> Vec<u8> {
    let mut hasher = Sha1::new();
    hasher.update(data);
    hasher.finalize().to_vec()
}

fn torrent_for(content: &[Vec<u8>], piece_length: i64) -> TorrentFile {
    let total: i64 = content.iter().map(|p| p.len() as i64).sum();
    let mut hashes = Vec::new();
    for piece in content {
        hashes.extend(sha1_bytes(piece));
    }
    TorrentFile {
        info: Info {
            name: String::from("content"),
            pieces: hashes,
            piece_length,
            md5sum: None,
            length: Some(total),
            files: None,
            private: None,
            path: None,
            root_hash: None,
        },
        announce: String::from("http://tracker.example/announce"),
    }
}

fn pattern(len: usize, seed: u8) -> Vec<u8> {
    (0..len).map(|i| (i as u8).wrapping_mul(31).wrapping_add(seed)).collect()
}

#[test]
fn from_sizes_pieces_and_blocks() {
    // three pieces; the last is short, and so is its last block
    let p0 = pattern(40000, 1);
    let p1 = pattern(40000, 2);
    let p2 = pattern(10000, 3);
    let torrent = torrent_for(&[p0, p1, p2], 40000);
    let download = Download::from(&torrent);
    assert_eq!(download.pieces.len(), 3);
    for piece in &download.pieces {
        assert_eq!(piece.status, PieceStatus::NotStarted);
        assert_eq!(piece.original_sha1.len(), 20);
        assert!(piece.content.iter().all(|b| *b == Block::NotStarted));
    }
    assert_eq!(download.pieces[0].length, 40000);
    assert_eq!(download.pieces[2].length, 10000);
    // 40000 bytes: two full 16384-byte blocks and a 7232-byte remainder
    assert_eq!(download.pieces[0].content.len(), 3);
    // 10000 bytes: one short block
    assert_eq!(download.pieces[2].content.len(), 1);
}

#[test]
fn find_first_unclaimed_block_scans_in_order() {
    let contents = [pattern(16384, 1), pattern(16384, 2), pattern(16384, 3)];
    let torrent = torrent_for(&contents, 16384);
    let mut download = Download::from(&torrent);
    // pieces 0 and 1 fully downloaded and verified
    for i in 0..2 {
        let r = download.set_block(&contents[i], i, 0);
        assert!(r.is_some());
        assert_eq!(download.pieces[i].status, PieceStatus::ShaVerified);
    }
    assert_eq!(download.find_first_block(), Some((2, 0)));
}

#[test]
fn find_first_block_skips_claimed_blocks() {
    let contents = [pattern(40000, 1)];
    let torrent = torrent_for(&contents, 40000);
    let mut download = Download::from(&torrent);
    assert_eq!(download.find_first_block(), Some((0, 0)));
    assert!(download.claim_block(0, 0));
    assert_eq!(download.find_first_block(), Some((0, 1)));
}

#[test]
fn find_first_block_reports_exhaustion() {
    let contents = [pattern(100, 1)];
    let torrent = torrent_for(&contents, 100);
    let mut download = Download::from(&torrent);
    assert!(download.claim_block(0, 0));
    assert_eq!(download.find_first_block(), None);
}

#[test]
fn claim_block_is_exclusive_until_reset() {
    let contents = [pattern(16384, 9)];
    let torrent = torrent_for(&contents, 16384);
    let mut download = Download::from(&torrent);
    assert!(download.claim_block(0, 0));
    // the second sequential claim of the same block must not succeed
    assert!(!download.claim_block(0, 0));
    assert!(matches!(download.pieces[0].content[0], Block::Downloading));
}

#[test]
fn it_sets_invalid_pieces() {
    let contents = [pattern(262144, 7)];
    let torrent = torrent_for(&contents, 262144);
    let mut download = Download::from(&torrent);
    download.set_piece(&vec![0; torrent.info.piece_length as usize], 0);
    assert_eq!(download.pieces[0].status, PieceStatus::NotStarted);
}

#[test]
fn set_piece_rejects_wrong_length_bytes() {
    let contents = [pattern(16384, 4)];
    let torrent = torrent_for(&contents, 16384);
    let mut download = Download::from(&torrent);
    download.set_piece(&pattern(16000, 4), 0);
    assert_eq!(download.pieces[0].status, PieceStatus::NotStarted);
    assert!(download.pieces[0].content.iter().all(|b| *b == Block::NotStarted));
}

#[test]
fn set_piece_rejects_a_flipped_byte() {
    let contents = [pattern(16384, 4)];
    let torrent = torrent_for(&contents, 16384);
    let mut download = Download::from(&torrent);
    let mut corrupted = contents[0].clone();
    corrupted[1000] ^= 0xFF;
    download.set_piece(&corrupted, 0);
    assert_eq!(download.pieces[0].status, PieceStatus::NotStarted);
    assert!(download.pieces[0].content.iter().all(|b| *b == Block::NotStarted));
}

#[test]
fn set_piece_accepts_matching_bytes() {
    let contents = [pattern(40000, 5)];
    let torrent = torrent_for(&contents, 40000);
    let mut download = Download::from(&torrent);
    download.set_piece(&contents[0], 0);
    assert_eq!(download.pieces[0].status, PieceStatus::ShaVerified);
    let mut assembled = Vec::new();
    for block in &download.pieces[0].content {
        match block {
            Block::Downloaded(bytes) => assembled.extend_from_slice(bytes),
            _ => panic!("block not downloaded after a verified set_piece"),
        }
    }
    assert_eq!(assembled, contents[0]);
}

#[test]
fn record_all_blocks_verifies_and_returns_the_piece() {
    // one full block plus a short remainder
    let content = pattern(16384 + 100, 6);
    let torrent = torrent_for(&[content.clone()], 16384 + 100);
    let mut download = Download::from(&torrent);
    assert_eq!(download.pieces[0].content.len(), 2);
    let first = download.set_block(&content[..16384], 0, 0);
    assert!(first.is_none());
    let second = download.set_block(&content[16384..], 0, 16384);
    assert_eq!(second, Some(content.clone()));
    assert_eq!(download.pieces[0].status, PieceStatus::ShaVerified);
}

#[test]
fn short_final_block_is_hashed_at_its_truncated_length() {
    // the nominal piece length is not a multiple of the block size
    let piece_len = 3 * 16384 + 4242;
    let content = pattern(piece_len, 8);
    let torrent = torrent_for(&[content.clone()], piece_len as i64);
    let mut download = Download::from(&torrent);
    assert_eq!(download.pieces[0].content.len(), 4);
    let mut result = None;
    for b in 0..4 {
        let start = b * 16384;
        let end = (start + 16384).min(piece_len);
        result = download.set_block(&content[start..end], 0, start);
    }
    assert_eq!(result, Some(content));
    assert_eq!(download.pieces[0].status, PieceStatus::ShaVerified);
}

#[test]
fn corrupt_completion_resets_the_piece_for_reclaiming() {
    let content = pattern(16384 + 100, 6);
    let torrent = torrent_for(&[content.clone()], 16384 + 100);
    let mut download = Download::from(&torrent);
    assert!(download.set_block(&content[..16384], 0, 0).is_none());
    let mut corrupted_tail = content[16384..].to_vec();
    corrupted_tail[0] ^= 0x01;
    let r = download.set_block(&corrupted_tail, 0, 16384);
    assert!(r.is_none());
    assert_eq!(download.pieces[0].status, PieceStatus::NotStarted);
    assert!(download.pieces[0].content.iter().all(|b| *b == Block::NotStarted));
    // the discarded piece is eligible again, from its first block
    assert_eq!(download.find_first_block(), Some((0, 0)));
}

#[test]
fn verified_piece_hash_matches_its_descriptor() {
    let content = pattern(16384, 2);
    let torrent = torrent_for(&[content.clone()], 16384);
    let mut download = Download::from(&torrent);
    let r = download.set_block(&content, 0, 0);
    assert_eq!(r, Some(content.clone()));
    // ShaVerified pieces assemble to bytes whose digest is the expected hash
    assert_eq!(sha1_bytes(&content), download.pieces[0].original_sha1);
}

#[test]
fn mark_written_records_durability() {
    let content = pattern(100, 1);
    let torrent = torrent_for(&[content.clone()], 100);
    let mut download = Download::from(&torrent);
    assert!(download.set_block(&content, 0, 0).is_some());
    assert_eq!(download.pieces[0].status, PieceStatus::ShaVerified);
    download.mark_written(0);
    assert_eq!(download.pieces[0].status, PieceStatus::WrittenToDisk);
}
