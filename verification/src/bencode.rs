//! A verified encoder for the metadata descriptor's info dictionary.
//!
//! The swarm's identity is the 20-byte digest of the info dictionary in its
//! canonical serialized form: a dictionary with its keys in ascending byte
//! order, integers as `i<decimal>e`, byte strings as `<length>:<bytes>`,
//! lists as `l...e`, and entries whose value is absent left out entirely.
//! `spec_bencoded_info` fixes those bytes for the library's `Info` model and
//! `encode_info` is proved to produce exactly them.

use crate::parse_torrent::File;
use crate::parse_torrent::Info;
use vstd::prelude::*;

verus! {

/// The decimal digits of `n`, most significant first.
pub open spec fn spec_dec_digits(n: int) -> Seq<u8>
    recommends
        n >= 0,
    decreases n,
{
    if n < 10 {
        seq![(48 + n) as u8]
    } else {
        spec_dec_digits(n / 10) + seq![(48 + n % 10) as u8]
    }
}

/// The decimal form of `n`, a minus sign first when it is negative.
pub open spec fn spec_dec_signed(n: int) -> Seq<u8> {
    if n < 0 {
        seq![45u8] + spec_dec_digits(-n)
    } else {
        spec_dec_digits(n)
    }
}

/// A bencoded integer: `i`, the decimal value, `e`.
pub open spec fn spec_bc_int(n: int) -> Seq<u8> {
    seq![105u8] + spec_dec_signed(n) + seq![101u8]
}

/// A bencoded byte string: its length in decimal, a colon, the bytes.
pub open spec fn spec_bc_bytes(s: Seq<u8>) -> Seq<u8> {
    spec_dec_digits(s.len() as int) + seq![58u8] + s
}

/// A bencoded text string: the byte string of its UTF-8 bytes.
pub open spec fn spec_bc_str(s: Seq<char>) -> Seq<u8> {
    spec_bc_bytes(vstd::utf8::encode_utf8(s))
}

/// The concatenated bencodings of the strings of `l` from index `i` on.
pub open spec fn spec_bc_str_seq_from(l: Seq<Seq<char>>, i: int) -> Seq<u8>
    decreases l.len() - i,
{
    if i < 0 || i >= l.len() {
        seq![]
    } else {
        spec_bc_str(l[i]) + spec_bc_str_seq_from(l, i + 1)
    }
}

/// A bencoded list of text strings.
pub open spec fn spec_bc_str_list(l: Seq<Seq<char>>) -> Seq<u8> {
    seq![108u8] + spec_bc_str_seq_from(l, 0) + seq![101u8]
}

/// One file entry as a bencoded dictionary, keys in ascending byte order
/// and absent values left out.
pub open spec fn spec_bc_file(f: File) -> Seq<u8> {
    seq![100u8] + spec_key_length() + spec_bc_int(f.length as int) + (match f.md5sum {
        Some(s) => spec_key_md5sum() + spec_bc_str(s@),
        None => seq![],
    }) + spec_key_path() + spec_bc_str_list(f.path.deep_view()) + seq![101u8]
}

/// The concatenated bencodings of the file entries of `l` from index `i`
/// on.
pub open spec fn spec_bc_file_seq_from(l: Seq<File>, i: int) -> Seq<u8>
    decreases l.len() - i,
{
    if i < 0 || i >= l.len() {
        seq![]
    } else {
        spec_bc_file(l[i]) + spec_bc_file_seq_from(l, i + 1)
    }
}

/// A bencoded list of file entries.
pub open spec fn spec_bc_file_list(l: Seq<File>) -> Seq<u8> {
    seq![108u8] + spec_bc_file_seq_from(l, 0) + seq![101u8]
}

/// The already-serialized dictionary key `files`: its byte length in
/// decimal, a colon, and the key itself.
pub open spec fn spec_key_files() -> Seq<u8> {
    seq![53u8, 58u8, 102u8, 105u8, 108u8, 101u8, 115u8]
}

/// The already-serialized dictionary key `length`: its byte length in
/// decimal, a colon, and the key itself.
pub open spec fn spec_key_length() -> Seq<u8> {
    seq![54u8, 58u8, 108u8, 101u8, 110u8, 103u8, 116u8, 104u8]
}

/// The already-serialized dictionary key `md5sum`: its byte length in
/// decimal, a colon, and the key itself.
pub open spec fn spec_key_md5sum() -> Seq<u8> {
    seq![54u8, 58u8, 109u8, 100u8, 53u8, 115u8, 117u8, 109u8]
}

/// The already-serialized dictionary key `name`: its byte length in
/// decimal, a colon, and the key itself.
pub open spec fn spec_key_name() -> Seq<u8> {
    seq![52u8, 58u8, 110u8, 97u8, 109u8, 101u8]
}

/// The already-serialized dictionary key `path`: its byte length in
/// decimal, a colon, and the key itself.
pub open spec fn spec_key_path() -> Seq<u8> {
    seq![52u8, 58u8, 112u8, 97u8, 116u8, 104u8]
}

/// The already-serialized dictionary key `piece length`: its byte length in
/// decimal, a colon, and the key itself.
pub open spec fn spec_key_piece_length() -> Seq<u8> {
    seq![49u8, 50u8, 58u8, 112u8, 105u8, 101u8, 99u8, 101u8, 32u8, 108u8, 101u8, 110u8, 103u8, 116u8, 104u8]
}

/// The already-serialized dictionary key `pieces`: its byte length in
/// decimal, a colon, and the key itself.
pub open spec fn spec_key_pieces() -> Seq<u8> {
    seq![54u8, 58u8, 112u8, 105u8, 101u8, 99u8, 101u8, 115u8]
}

/// The already-serialized dictionary key `private`: its byte length in
/// decimal, a colon, and the key itself.
pub open spec fn spec_key_private() -> Seq<u8> {
    seq![55u8, 58u8, 112u8, 114u8, 105u8, 118u8, 97u8, 116u8, 101u8]
}

/// The already-serialized dictionary key `root hash`: its byte length in
/// decimal, a colon, and the key itself.
pub open spec fn spec_key_root_hash() -> Seq<u8> {
    seq![57u8, 58u8, 114u8, 111u8, 111u8, 116u8, 32u8, 104u8, 97u8, 115u8, 104u8]
}


/// The canonical serialized info dictionary: every present field under its
/// key, keys in ascending byte order.
pub open spec fn spec_bencoded_info(info: Info) -> Seq<u8> {
    seq![100u8] + (match info.files {
        Some(fs) => spec_key_files() + spec_bc_file_list(fs@),
        None => seq![],
    }) + (match info.length {
        Some(n) => spec_key_length() + spec_bc_int(n as int),
        None => seq![],
    }) + (match info.md5sum {
        Some(s) => spec_key_md5sum() + spec_bc_str(s@),
        None => seq![],
    }) + spec_key_name() + spec_bc_str(info.name@) + (match info.path {
        Some(p) => spec_key_path() + spec_bc_str_list(p.deep_view()),
        None => seq![],
    }) + spec_key_piece_length() + spec_bc_int(info.piece_length as int) + spec_key_pieces()
        + spec_bc_bytes(info.pieces@) + (match info.private {
        Some(v) => spec_key_private() + spec_bc_int(v as int),
        None => seq![],
    }) + (match info.root_hash {
        Some(s) => spec_key_root_hash() + spec_bc_str(s@),
        None => seq![],
    }) + seq![101u8]
}

fn push_key_files(out: &mut Vec<u8>)
    ensures
        final(out)@ == old(out)@ + spec_key_files(),
{
    out.push(53);
    out.push(58);
    out.push(102);
    out.push(105);
    out.push(108);
    out.push(101);
    out.push(115);
    assert(out@ =~= old(out)@ + spec_key_files());
}

fn push_key_length(out: &mut Vec<u8>)
    ensures
        final(out)@ == old(out)@ + spec_key_length(),
{
    out.push(54);
    out.push(58);
    out.push(108);
    out.push(101);
    out.push(110);
    out.push(103);
    out.push(116);
    out.push(104);
    assert(out@ =~= old(out)@ + spec_key_length());
}

fn push_key_md5sum(out: &mut Vec<u8>)
    ensures
        final(out)@ == old(out)@ + spec_key_md5sum(),
{
    out.push(54);
    out.push(58);
    out.push(109);
    out.push(100);
    out.push(53);
    out.push(115);
    out.push(117);
    out.push(109);
    assert(out@ =~= old(out)@ + spec_key_md5sum());
}

fn push_key_name(out: &mut Vec<u8>)
    ensures
        final(out)@ == old(out)@ + spec_key_name(),
{
    out.push(52);
    out.push(58);
    out.push(110);
    out.push(97);
    out.push(109);
    out.push(101);
    assert(out@ =~= old(out)@ + spec_key_name());
}

fn push_key_path(out: &mut Vec<u8>)
    ensures
        final(out)@ == old(out)@ + spec_key_path(),
{
    out.push(52);
    out.push(58);
    out.push(112);
    out.push(97);
    out.push(116);
    out.push(104);
    assert(out@ =~= old(out)@ + spec_key_path());
}

fn push_key_piece_length(out: &mut Vec<u8>)
    ensures
        final(out)@ == old(out)@ + spec_key_piece_length(),
{
    out.push(49);
    out.push(50);
    out.push(58);
    out.push(112);
    out.push(105);
    out.push(101);
    out.push(99);
    out.push(101);
    out.push(32);
    out.push(108);
    out.push(101);
    out.push(110);
    out.push(103);
    out.push(116);
    out.push(104);
    assert(out@ =~= old(out)@ + spec_key_piece_length());
}

fn push_key_pieces(out: &mut Vec<u8>)
    ensures
        final(out)@ == old(out)@ + spec_key_pieces(),
{
    out.push(54);
    out.push(58);
    out.push(112);
    out.push(105);
    out.push(101);
    out.push(99);
    out.push(101);
    out.push(115);
    assert(out@ =~= old(out)@ + spec_key_pieces());
}

fn push_key_private(out: &mut Vec<u8>)
    ensures
        final(out)@ == old(out)@ + spec_key_private(),
{
    out.push(55);
    out.push(58);
    out.push(112);
    out.push(114);
    out.push(105);
    out.push(118);
    out.push(97);
    out.push(116);
    out.push(101);
    assert(out@ =~= old(out)@ + spec_key_private());
}

fn push_key_root_hash(out: &mut Vec<u8>)
    ensures
        final(out)@ == old(out)@ + spec_key_root_hash(),
{
    out.push(57);
    out.push(58);
    out.push(114);
    out.push(111);
    out.push(111);
    out.push(116);
    out.push(32);
    out.push(104);
    out.push(97);
    out.push(115);
    out.push(104);
    assert(out@ =~= old(out)@ + spec_key_root_hash());
}


/// Appends the decimal digits of `n`.
fn push_u64_dec(out: &mut Vec<u8>, n: u64)
    ensures
        final(out)@ == old(out)@ + spec_dec_digits(n as int),
    decreases n,
{
    if n >= 10 {
        push_u64_dec(out, n / 10);
    }
    out.push(((n % 10) as u8) + 48);
    assert(out@ =~= old(out)@ + spec_dec_digits(n as int));
}

/// Appends the decimal form of `n`, minus sign included.
fn push_i64_dec(out: &mut Vec<u8>, n: i64)
    ensures
        final(out)@ == old(out)@ + spec_dec_signed(n as int),
{
    if n >= 0 {
        push_u64_dec(out, n as u64);
    } else {
        out.push(45);
        let mag: u64 = if n == i64::MIN {
            9223372036854775808u64
        } else {
            (-n) as u64
        };
        assert(mag == -(n as int));
        push_u64_dec(out, mag);
        assert(out@ =~= old(out)@ + spec_dec_signed(n as int));
    }
}

/// Appends a bencoded integer.
fn push_bc_int(out: &mut Vec<u8>, n: i64)
    ensures
        final(out)@ == old(out)@ + spec_bc_int(n as int),
{
    out.push(105);
    push_i64_dec(out, n);
    out.push(101);
    assert(out@ =~= old(out)@ + spec_bc_int(n as int));
}

/// Appends raw bytes.
fn push_bytes(out: &mut Vec<u8>, data: &[u8])
    ensures
        final(out)@ == old(out)@ + data@,
{
    let mut i: usize = 0;
    while i < data.len()
        invariant
            i <= data@.len(),
            out@ == old(out)@ + data@.subrange(0, i as int),
        decreases data@.len() - i,
    {
        out.push(*vstd::slice::slice_index_get(data, i));
        i += 1;
        assert(out@ =~= old(out)@ + data@.subrange(0, i as int));
    }
    assert(data@.subrange(0, data@.len() as int) =~= data@);
}

/// Appends a bencoded byte string.
fn push_bc_bytes(out: &mut Vec<u8>, data: &[u8])
    ensures
        final(out)@ == old(out)@ + spec_bc_bytes(data@),
{
    push_u64_dec(out, data.len() as u64);
    out.push(58);
    push_bytes(out, data);
    assert(out@ =~= old(out)@ + spec_bc_bytes(data@));
}

/// Appends a bencoded text string.
fn push_bc_str(out: &mut Vec<u8>, s: &str)
    ensures
        final(out)@ == old(out)@ + spec_bc_str(s@),
{
    push_bc_bytes(out, s.as_bytes());
}

/// Appends a bencoded list of text strings.
fn push_bc_str_list(out: &mut Vec<u8>, l: &Vec<String>)
    ensures
        final(out)@ == old(out)@ + spec_bc_str_list(l.deep_view()),
{
    out.push(108);
    let ghost base = out@;
    let mut i: usize = 0;
    while i < l.len()
        invariant
            i <= l@.len(),
            l.deep_view().len() == l@.len(),
            out@.len() >= base.len(),
            out@.subrange(0, base.len() as int) == base,
            out@.subrange(base.len() as int, out@.len() as int)
                + spec_bc_str_seq_from(l.deep_view(), i as int) == spec_bc_str_seq_from(
                l.deep_view(),
                0,
            ),
        decreases l@.len() - i,
    {
        proof {
            assert(l.deep_view()[i as int] == l@[i as int]@);
        }
        push_bc_str(out, l[i].as_str());
        i += 1;
        assert(out@.subrange(0, base.len() as int) =~= base);
        assert(out@.subrange(base.len() as int, out@.len() as int) + spec_bc_str_seq_from(
            l.deep_view(),
            i as int,
        ) =~= spec_bc_str_seq_from(l.deep_view(), 0));
    }
    assert(spec_bc_str_seq_from(l.deep_view(), i as int) =~= Seq::<u8>::empty());
    assert(out@ =~= base + spec_bc_str_seq_from(l.deep_view(), 0));
    out.push(101);
    assert(out@ =~= old(out)@ + spec_bc_str_list(l.deep_view()));
}

/// Appends one bencoded file entry.
fn push_bc_file(out: &mut Vec<u8>, f: &File)
    ensures
        final(out)@ == old(out)@ + spec_bc_file(*f),
{
    out.push(100);
    push_key_length(out);
    push_bc_int(out, f.length);
    match &f.md5sum {
        Some(s) => {
            push_key_md5sum(out);
            push_bc_str(out, s.as_str());
        },
        None => {},
    }
    push_key_path(out);
    push_bc_str_list(out, &f.path);
    out.push(101);
    assert(out@ =~= old(out)@ + spec_bc_file(*f));
}

/// Appends a bencoded list of file entries.
fn push_bc_file_list(out: &mut Vec<u8>, l: &Vec<File>)
    ensures
        final(out)@ == old(out)@ + spec_bc_file_list(l@),
{
    out.push(108);
    let ghost base = out@;
    let mut i: usize = 0;
    while i < l.len()
        invariant
            i <= l@.len(),
            out@.len() >= base.len(),
            out@.subrange(0, base.len() as int) == base,
            out@.subrange(base.len() as int, out@.len() as int) + spec_bc_file_seq_from(
                l@,
                i as int,
            ) == spec_bc_file_seq_from(l@, 0),
        decreases l@.len() - i,
    {
        push_bc_file(out, &l[i]);
        i += 1;
        assert(out@.subrange(0, base.len() as int) =~= base);
        assert(out@.subrange(base.len() as int, out@.len() as int) + spec_bc_file_seq_from(
            l@,
            i as int,
        ) =~= spec_bc_file_seq_from(l@, 0));
    }
    assert(spec_bc_file_seq_from(l@, i as int) =~= Seq::<u8>::empty());
    assert(out@ =~= base + spec_bc_file_seq_from(l@, 0));
    out.push(101);
    assert(out@ =~= old(out)@ + spec_bc_file_list(l@));
}

/// The canonical serialized form of the info dictionary.
pub fn encode_info(info: &Info) -> (r: Vec<u8>)
    ensures
        r@ == spec_bencoded_info(*info),
{
    let mut out: Vec<u8> = Vec::new();
    out.push(100);
    let ghost mut acc = seq![100u8];
    assert(out@ =~= acc);
    match &info.files {
        Some(fs) => {
            push_key_files(&mut out);
            push_bc_file_list(&mut out, fs);
        },
        None => {},
    }
    proof {
        acc = acc + (match &info.files {
            Some(fs) => spec_key_files() + spec_bc_file_list(fs@),
            None => Seq::<u8>::empty(),
        });
        assert(out@ =~= acc);
    }
    match &info.length {
        Some(n) => {
            push_key_length(&mut out);
            push_bc_int(&mut out, *n);
        },
        None => {},
    }
    proof {
        acc = acc + (match &info.length {
            Some(n) => spec_key_length() + spec_bc_int(n as int),
            None => Seq::<u8>::empty(),
        });
        assert(out@ =~= acc);
    }
    match &info.md5sum {
        Some(s) => {
            push_key_md5sum(&mut out);
            push_bc_str(&mut out, s.as_str());
        },
        None => {},
    }
    proof {
        acc = acc + (match &info.md5sum {
            Some(s) => spec_key_md5sum() + spec_bc_str(s@),
            None => Seq::<u8>::empty(),
        });
        assert(out@ =~= acc);
    }
    push_key_name(&mut out);
    push_bc_str(&mut out, info.name.as_str());
    proof {
        acc = acc + spec_key_name() + spec_bc_str(info.name@);
        assert(out@ =~= acc);
    }
    match &info.path {
        Some(p) => {
            push_key_path(&mut out);
            push_bc_str_list(&mut out, p);
        },
        None => {},
    }
    proof {
        acc = acc + (match &info.path {
            Some(p) => spec_key_path() + spec_bc_str_list(p.deep_view()),
            None => Seq::<u8>::empty(),
        });
        assert(out@ =~= acc);
    }
    push_key_piece_length(&mut out);
    push_bc_int(&mut out, info.piece_length);
    push_key_pieces(&mut out);
    push_bc_bytes(&mut out, info.pieces.as_slice());
    proof {
        acc = acc + spec_key_piece_length() + spec_bc_int(info.piece_length as int)
            + spec_key_pieces() + spec_bc_bytes(info.pieces@);
        assert(out@ =~= acc);
    }
    match &info.private {
        Some(v) => {
            push_key_private(&mut out);
            push_bc_int(&mut out, *v as i64);
        },
        None => {},
    }
    proof {
        acc = acc + (match &info.private {
            Some(v) => spec_key_private() + spec_bc_int(v as int),
            None => Seq::<u8>::empty(),
        });
        assert(out@ =~= acc);
    }
    match &info.root_hash {
        Some(s) => {
            push_key_root_hash(&mut out);
            push_bc_str(&mut out, s.as_str());
        },
        None => {},
    }
    proof {
        acc = acc + (match &info.root_hash {
            Some(s) => spec_key_root_hash() + spec_bc_str(s@),
            None => Seq::<u8>::empty(),
        });
        assert(out@ =~= acc);
    }
    out.push(101);
    proof {
        acc = acc + seq![101u8];
        assert(out@ =~= acc);
        assert(acc =~= spec_bencoded_info(*info));
    }
    out
}

} // verus!
