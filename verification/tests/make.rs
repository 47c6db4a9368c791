use mktorrent::error::TorrentError;
use mktorrent::make::{make_torrent, PIECE_LENGTH};
use mktorrent::memory::Cursor;
use mktorrent::read::{ByteReader, MakeReader, ReadError};
use serde_bencode::value::Value;
use sha1::{Digest, Sha1};

fn entries() -> Vec<(u64, String)> {
    vec![(3, String::from("a.txt")), (0, String::from("empty")), (2, String::from("b.txt"))]
}

fn sources() -> Vec<Cursor> {
    vec![Cursor::new(b"abc".to_vec()), Cursor::new(Vec::new()), Cursor::new(b"de".to_vec())]
}

fn make(entries: &Vec<(u64, String)>, sources: Vec<Cursor>) -> Result<Vec<u8>, TorrentError> {
    make_torrent(String::from("demo"), String::from("http://t/a"), 1, entries, sources)
}

/// A source outside the library: it does not open where it holds nothing, and where
/// `unreadable` is set its reader fails behind the data.
struct Broken {
    data: Vec<u8>,
    unreadable: bool,
}

struct BrokenReader {
    data: Vec<u8>,
    pos: usize,
    unreadable: bool,
}

impl ByteReader for BrokenReader {
    fn read(&mut self, buf: &mut [u8]) -> Result<usize, ReadError> {
        if self.unreadable && self.pos == self.data.len() {
            return Err(ReadError::Failed(String::from("unreadable")));
        }
        let n = buf.len().min(self.data.len() - self.pos);
        buf[..n].copy_from_slice(&self.data[self.pos..self.pos + n]);
        self.pos += n;
        Ok(n)
    }
}

impl MakeReader for Broken {
    type Reader = BrokenReader;

    fn make_reader(self) -> Result<BrokenReader, String> {
        if self.data.is_empty() {
            Err(String::from("missing"))
        } else {
            Ok(BrokenReader { data: self.data, pos: 0, unreadable: self.unreadable })
        }
    }
}

fn broken(data: &[u8], unreadable: bool) -> Broken {
    Broken { data: data.to_vec(), unreadable }
}

#[test]
fn the_piece_length_is_fixed() {
    assert_eq!(PIECE_LENGTH, 262144);
}

#[test]
fn a_descriptor_is_made_from_files_and_their_contents() {
    let mut expected = Vec::new();
    expected.extend_from_slice(b"d8:announce10:http://t/a13:creation datei1e8:encoding5:UTF-8");
    expected.extend_from_slice(b"4:infod5:filesl");
    expected.extend_from_slice(b"d6:lengthi3e4:pathl5:a.txtee");
    expected.extend_from_slice(b"d6:lengthi0e4:pathl5:emptyee");
    expected.extend_from_slice(b"d6:lengthi2e4:pathl5:b.txtee");
    expected.extend_from_slice(b"e");
    expected.extend_from_slice(b"4:name4:demo12:piece lengthi262144e6:pieces20:");
    expected.extend_from_slice(&Sha1::digest(b"abcde"));
    expected.extend_from_slice(b"ee");
    assert_eq!(make(&entries(), sources()), Ok(expected));
}

#[test]
fn a_descriptor_of_no_files_has_no_pieces() {
    let mut expected = Vec::new();
    expected.extend_from_slice(b"d8:announce10:http://t/a13:creation datei1e8:encoding5:UTF-8");
    expected.extend_from_slice(b"4:infod5:filesle4:name4:demo12:piece lengthi262144e6:pieces0:ee");
    assert_eq!(make(&Vec::new(), Vec::new()), Ok(expected.clone()));
    assert_eq!(make(&Vec::new(), vec![Cursor::new(Vec::new())]), Ok(expected));
}

#[test]
fn the_pieces_of_a_descriptor_are_the_digests_in_order() {
    let data: Vec<u8> = (0..600000u32).map(|i| (i % 253) as u8).collect();
    let entries = vec![(300000, String::from("left")), (300000, String::from("right"))];
    let halves = vec![Cursor::new(data[..300000].to_vec()), Cursor::new(data[300000..].to_vec())];
    let bytes = make(&entries, halves).unwrap();
    let decoded: Value = serde_bencode::from_bytes(&bytes).unwrap();
    let info = match decoded {
        Value::Dict(mut top) => match top.remove(&b"info".to_vec()) {
            Some(Value::Dict(info)) => info,
            _ => panic!("no info"),
        },
        _ => panic!("no dictionary"),
    };
    let mut pieces = Vec::new();
    pieces.extend_from_slice(&Sha1::digest(&data[..262144]));
    pieces.extend_from_slice(&Sha1::digest(&data[262144..524288]));
    pieces.extend_from_slice(&Sha1::digest(&data[524288..]));
    assert_eq!(info.get(&b"pieces".to_vec()), Some(&Value::Bytes(pieces)));
    assert_eq!(info.get(&b"piece length".to_vec()), Some(&Value::Int(262144)));
}

#[test]
fn making_twice_gives_the_same_bytes() {
    assert_eq!(make(&entries(), sources()), make(&entries(), sources()));
    let joined = vec![Cursor::new(b"abcde".to_vec())];
    let chunked = vec![
        Cursor::with_chunk(b"a".to_vec(), 1),
        Cursor::with_chunk(b"bcd".to_vec(), 2),
        Cursor::with_chunk(b"e".to_vec(), 3),
    ];
    assert_eq!(make(&entries(), joined), make(&entries(), chunked));
}

#[test]
fn a_truncated_file_is_a_length_mismatch() {
    let cursors = |parts: [&[u8]; 3]| parts.iter().map(|p| Cursor::new(p.to_vec())).collect();
    let truncated: Vec<Cursor> = cursors([b"ab", b"", b"de"]);
    assert_eq!(make(&entries(), truncated), Err(TorrentError::LengthMismatch));
    let grown: Vec<Cursor> = cursors([b"abc", b"x", b"de"]);
    assert_eq!(make(&entries(), grown), Err(TorrentError::LengthMismatch));
    assert_eq!(make(&entries(), Vec::new()), Err(TorrentError::LengthMismatch));
    assert_eq!(make(&Vec::new(), sources()), Err(TorrentError::LengthMismatch));
}

#[test]
fn a_file_truncated_by_a_whole_piece_is_a_length_mismatch() {
    let declared = vec![(2 * PIECE_LENGTH as u64, String::from("big"))];
    let actual = vec![Cursor::new(vec![7u8; PIECE_LENGTH])];
    assert_eq!(make(&declared, actual), Err(TorrentError::LengthMismatch));
}

#[test]
fn a_failing_source_fails_the_making() {
    let declared = vec![(3, String::from("a")), (0, String::from("b"))];
    let missing = vec![broken(b"abc", false), broken(b"", false)];
    assert_eq!(
        make_torrent(String::from("demo"), String::from("t"), 1, &declared, missing),
        Err(TorrentError::SourceOpenFailure(String::from("missing")))
    );
    let first_missing = vec![broken(b"", false), broken(b"abc", false)];
    assert_eq!(
        make_torrent(String::from("demo"), String::from("t"), 1, &declared, first_missing),
        Err(TorrentError::SourceOpenFailure(String::from("missing")))
    );
    let unreadable = vec![broken(b"abc", true)];
    assert_eq!(
        make_torrent(String::from("demo"), String::from("t"), 1, &declared, unreadable),
        Err(TorrentError::StreamReadFailure(String::from("unreadable")))
    );
    let readable = vec![broken(b"abc", false)];
    assert!(make_torrent(String::from("demo"), String::from("t"), 1, &declared, readable).is_ok());
}
