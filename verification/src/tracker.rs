//! Types and logic around the tracker's answer: the peers it advertises and
//! the info-hash that identifies the swarm towards tracker and peers.
//!
//! The network exchange itself happens outside the library; what arrives is
//! handed in as plain bytes and values.

use crate::bencode::encode_info;
use crate::bencode::spec_bencoded_info;
use crate::hashing::sha1_digest;
use crate::hashing::sha1_of;
use crate::parse_torrent::Info;
use vstd::prelude::*;

verus! {

/// One remote peer as the tracker advertises it.
#[derive(Debug, Clone)]
pub struct Peer {
    pub peer_id: Option<String>,
    pub ip: String,
    pub port: i64,
}

/// The tracker's answer to an announce request.
#[derive(Debug)]
pub struct TrackerResponse {
    pub failure_reason: Option<bool>,
    pub warning_message: Option<bool>,
    /// Seconds the client should wait between regular tracker requests.
    pub interval: u32,
    pub tracker_id: Option<String>,
    pub complete: Option<u32>,
    pub incomplete: Option<u32>,
    pub peers: Vec<Peer>,
}

/// The swarm's identity: the 20-byte digest of the canonically serialized
/// info dictionary.
pub fn get_info_hash(info: &Info) -> (r: Vec<u8>)
    ensures
        r@ == sha1_of(spec_bencoded_info(*info)),
        r@.len() == 20,
{
    let encoded = encode_info(info);
    sha1_digest(encoded.as_slice())
}

/// The character for the hex digit `d`, upper case.
pub open spec fn spec_hex_char(d: int) -> char
    recommends
        0 <= d < 16,
{
    if d < 10 {
        (48 + d) as char
    } else {
        (55 + d) as char
    }
}

/// A byte rendered for a URL query: a percent sign and two uppercase hex
/// digits.
pub open spec fn spec_percent_str(b: u8) -> Seq<char> {
    seq!['%', spec_hex_char((b as int) / 16), spec_hex_char((b as int) % 16)]
}

/// The percent-rendering of the bytes of `s` from index `i` on.
pub open spec fn spec_percent_encoded_from(s: Seq<u8>, i: int) -> Seq<char>
    decreases s.len() - i,
{
    if i < 0 || i >= s.len() {
        seq![]
    } else {
        spec_percent_str(s[i]) + spec_percent_encoded_from(s, i + 1)
    }
}

/// Every byte of `s` percent-rendered, in order.
pub open spec fn spec_percent_encoded(s: Seq<u8>) -> Seq<char> {
    spec_percent_encoded_from(s, 0)
}

/// Relies on `percent_encoding::percent_encode_byte`: for every byte it
/// returns the three-character string `%XX`, the byte's value in two
/// uppercase hex digits.
#[verifier::external_body]
fn percent_byte(b: u8) -> (r: &'static str)
    ensures
        r@ == spec_percent_str(b),
{
    percent_encoding::percent_encode_byte(b)
}

/// The info-hash rendered for a tracker announce URL: each of its 20 bytes
/// percent-encoded.
pub fn get_encoded_info_hash(info: &Info) -> (r: String)
    ensures
        r@ == spec_percent_encoded(sha1_of(spec_bencoded_info(*info))),
{
    let hash = get_info_hash(info);
    let mut s = String::new();
    let mut i: usize = 0;
    while i < hash.len()
        invariant
            i <= hash@.len(),
            s@ + spec_percent_encoded_from(hash@, i as int) == spec_percent_encoded_from(
                hash@,
                0,
            ),
        decreases hash@.len() - i,
    {
        s.append(percent_byte(hash[i]));
        i += 1;
        assert(s@ + spec_percent_encoded_from(hash@, i as int) =~= spec_percent_encoded_from(
            hash@,
            0,
        ));
    }
    assert(s@ =~= spec_percent_encoded_from(hash@, 0));
    s
}

/// The decimal digits of `n` as characters, most significant first.
pub open spec fn spec_dec_chars(n: int) -> Seq<char>
    recommends
        n >= 0,
    decreases n,
{
    if n < 10 {
        seq![(48 + n) as char]
    } else {
        spec_dec_chars(n / 10) + seq![(48 + n % 10) as char]
    }
}

/// The dotted-decimal rendering of an IPv4 address.
pub open spec fn spec_ip_chars(a: u8, b: u8, c: u8, d: u8) -> Seq<char> {
    spec_dec_chars(a as int) + seq!['.'] + spec_dec_chars(b as int) + seq!['.'] + spec_dec_chars(
        c as int,
    ) + seq!['.'] + spec_dec_chars(d as int)
}

/// The single-character string for the decimal digit `d`.
fn digit_str(d: u8) -> (r: &'static str)
    requires
        d < 10,
    ensures
        r@ == seq![(48 + d as int) as char],
{
    let r: &'static str = match d {
        0 => "0",
        1 => "1",
        2 => "2",
        3 => "3",
        4 => "4",
        5 => "5",
        6 => "6",
        7 => "7",
        8 => "8",
        _ => "9",
    };
    proof {
        reveal_strlit("0");
        reveal_strlit("1");
        reveal_strlit("2");
        reveal_strlit("3");
        reveal_strlit("4");
        reveal_strlit("5");
        reveal_strlit("6");
        reveal_strlit("7");
        reveal_strlit("8");
        reveal_strlit("9");
        assert(r@ =~= seq![(48 + d as int) as char]);
    }
    r
}

/// Appends the decimal rendering of `n`.
fn append_u8_dec(s: &mut String, n: u8)
    ensures
        final(s)@ == old(s)@ + spec_dec_chars(n as int),
    decreases n,
{
    if n >= 10 {
        append_u8_dec(s, n / 10);
    }
    s.append(digit_str(n % 10));
    assert(s@ =~= old(s)@ + spec_dec_chars(n as int));
}

/// The dotted-decimal address string of four octets.
fn ip_string(a: u8, b: u8, c: u8, d: u8) -> (r: String)
    ensures
        r@ == spec_ip_chars(a, b, c, d),
{
    let mut s = String::new();
    proof {
        reveal_strlit(".");
    }
    append_u8_dec(&mut s, a);
    s.append(".");
    append_u8_dec(&mut s, b);
    s.append(".");
    append_u8_dec(&mut s, c);
    s.append(".");
    append_u8_dec(&mut s, d);
    assert(s@ =~= spec_ip_chars(a, b, c, d));
    s
}

/// Decodes the tracker's compact peer list: each complete 6-byte chunk is
/// one peer, four address octets followed by a big-endian port; a trailing
/// partial chunk is ignored.
pub fn peers_from_bytes(bytes: &Vec<u8>) -> (r: Vec<Peer>)
    ensures
        r@.len() == bytes@.len() / 6,
        forall|c: int|
            0 <= c < r@.len() ==> {
                let p = #[trigger] r@[c];
                &&& p.peer_id is None
                &&& p.ip@ == spec_ip_chars(
                    bytes@[6 * c],
                    bytes@[6 * c + 1],
                    bytes@[6 * c + 2],
                    bytes@[6 * c + 3],
                )
                &&& p.port == 256 * (bytes@[6 * c + 4] as int) + (bytes@[6 * c + 5] as int)
            },
{
    let mut peers: Vec<Peer> = Vec::new();
    let mut base: usize = 0;
    let ghost n = bytes@.len() as int;
    while bytes.len() - base >= 6
        invariant
            n == bytes@.len(),
            base <= n,
            base % 6 == 0,
            peers@.len() == base / 6,
            forall|c: int|
                0 <= c < peers@.len() ==> {
                    let p = #[trigger] peers@[c];
                    &&& p.peer_id is None
                    &&& p.ip@ == spec_ip_chars(
                        bytes@[6 * c],
                        bytes@[6 * c + 1],
                        bytes@[6 * c + 2],
                        bytes@[6 * c + 3],
                    )
                    &&& p.port == 256 * (bytes@[6 * c + 4] as int) + (bytes@[6 * c + 5] as int)
                },
        decreases n - base,
    {
        let a = bytes[base];
        let b = bytes[base + 1];
        let c = bytes[base + 2];
        let d = bytes[base + 3];
        let hi = bytes[base + 4];
        let lo = bytes[base + 5];
        let ip = ip_string(a, b, c, d);
        let port: i64 = ((hi as i64) << 8) | (lo as i64);
        assert(((hi as i64) << 8) | (lo as i64) == 256 * (hi as i64) + (lo as i64))
            by (bit_vector);
        let ghost idx = base as int / 6;
        proof {
            assert(6 * idx == base);
            assert((base + 6) % 6 == 0 && (base + 6) / 6 == idx + 1);
        }
        peers.push(Peer { peer_id: None, ip, port });
        base += 6;
    }
    proof {
        assert(n - base < 6);
        vstd::arithmetic::div_mod::lemma_fundamental_div_mod(n, 6);
        assert(base / 6 == n / 6) by (nonlinear_arith)
            requires
                base % 6 == 0,
                0 <= base <= n,
                n - base < 6,
        ;
    }
    peers
}

} // verus!
