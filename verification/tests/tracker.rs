use sha1::Digest;
use torrent_client::bencode::encode_info;
use torrent_client::parse_torrent::{File, Info};
use torrent_client::tracker::{get_encoded_info_hash, get_info_hash, peers_from_bytes};

fn minimal_info() -> Info {
    Info {
        name: "test".to_string(),
        pieces: vec![0; 20],
        piece_length: 20,
        md5sum: None,
        length: None,
        files: None,
        private: None,
        path: None,
        root_hash: None,
    }
}

#[test]
fn calculate_info_hash() {
    let info = minimal_info();
    let info_hash = get_encoded_info_hash(&info);
    assert_eq!(
        info_hash,
        "%D3%FA%63%53%76%EC%A2%AF%67%04%85%08%03%09%59%2A%47%63%2B%66"
    );
}

#[test]
fn info_hash_is_twenty_bytes_of_the_canonical_encoding() {
    let info = minimal_info();
    let hash = get_info_hash(&info);
    assert_eq!(hash.len(), 20);
    let mut hasher = sha1::Sha1::new();
    hasher.update(encode_info(&info));
    assert_eq!(hash, hasher.finalize().to_vec());
}

#[test]
fn encode_info_writes_sorted_keys_and_skips_absent_fields() {
    let info = minimal_info();
    let mut expected: Vec<u8> = Vec::new();
    expected.extend_from_slice(b"d4:name4:test12:piece lengthi20e6:pieces20:");
    expected.extend_from_slice(&[0; 20]);
    expected.extend_from_slice(b"e");
    assert_eq!(encode_info(&info), expected);
}

#[test]
fn encode_info_renders_every_field() {
    let info = Info {
        name: "n".to_string(),
        pieces: vec![0xAB; 20],
        piece_length: 262144,
        md5sum: Some("d41d8cd9".to_string()),
        length: Some(-7),
        files: Some(vec![File {
            path: vec!["a".to_string(), "b.iso".to_string()],
            length: 1234,
            md5sum: None,
        }]),
        private: Some(1),
        path: Some(vec!["dir".to_string()]),
        root_hash: Some("r".to_string()),
    };
    let mut expected: Vec<u8> = Vec::new();
    expected.extend_from_slice(b"d");
    expected.extend_from_slice(b"5:filesld6:lengthi1234e4:pathl1:a5:b.isoeee");
    expected.extend_from_slice(b"6:lengthi-7e");
    expected.extend_from_slice(b"6:md5sum8:d41d8cd9");
    expected.extend_from_slice(b"4:name1:n");
    expected.extend_from_slice(b"4:pathl3:dire");
    expected.extend_from_slice(b"12:piece lengthi262144e");
    expected.extend_from_slice(b"6:pieces20:");
    expected.extend_from_slice(&[0xAB; 20]);
    expected.extend_from_slice(b"7:privatei1e");
    expected.extend_from_slice(b"9:root hash1:r");
    expected.extend_from_slice(b"e");
    assert_eq!(encode_info(&info), expected);
}

#[test]
fn peers_come_from_six_byte_chunks() {
    let bytes = vec![1, 2, 3, 4, 0x1A, 0xE1, 10, 0, 0, 255, 0, 80];
    let peers = peers_from_bytes(&bytes);
    assert_eq!(peers.len(), 2);
    assert_eq!(peers[0].ip, "1.2.3.4");
    assert_eq!(peers[0].port, 6881);
    assert!(peers[0].peer_id.is_none());
    assert_eq!(peers[1].ip, "10.0.0.255");
    assert_eq!(peers[1].port, 80);
}

#[test]
fn trailing_partial_chunk_is_ignored() {
    let bytes = vec![127, 0, 0, 1, 0x00, 0x50, 9, 9, 9];
    let peers = peers_from_bytes(&bytes);
    assert_eq!(peers.len(), 1);
    assert_eq!(peers[0].ip, "127.0.0.1");
    assert_eq!(peers[0].port, 80);
}

#[test]
fn no_complete_chunk_means_no_peers() {
    assert_eq!(peers_from_bytes(&Vec::new()).len(), 0);
    assert_eq!(peers_from_bytes(&vec![1, 2, 3, 4, 5]).len(), 0);
}
