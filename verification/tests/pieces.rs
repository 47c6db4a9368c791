use mktorrent::digest::expected_pieces;
use mktorrent::error::TorrentError;
use mktorrent::make::PIECE_LENGTH;
use mktorrent::memory::Cursor;
use mktorrent::pieces::{flatten_digests, hash_pieces, hash_stream};
use mktorrent::read::{ByteReader, CatRead, MakeReader, ReadError};
use sha1::{Digest, Sha1};

fn hex(text: &str) -> [u8; 20] {
    let mut bytes = [0u8; 20];
    for i in 0..20 {
        bytes[i] = u8::from_str_radix(&text[2 * i..2 * i + 2], 16).unwrap();
    }
    bytes
}

fn pattern(len: usize) -> Vec<u8> {
    (0..len).map(|i| (i * 31 % 251) as u8).collect()
}

fn sha1_of(data: &[u8]) -> [u8; 20] {
    Sha1::digest(data).into()
}

/// A source outside the library that cannot be opened.
struct Missing;

/// A reader that is never made.
struct Never;

impl ByteReader for Never {
    fn read(&mut self, _buf: &mut [u8]) -> Result<usize, ReadError> {
        Ok(0)
    }
}

impl MakeReader for Missing {
    type Reader = Never;

    fn make_reader(self) -> Result<Never, String> {
        Err(String::from("no such file"))
    }
}

#[test]
fn a_digest_is_the_sha1_of_the_piece() {
    let (total, table) = hash_pieces(vec![Cursor::new(b"abc".to_vec())], 16).unwrap();
    assert_eq!(total, 3);
    assert_eq!(table, vec![hex("a9993e364706816aba3e25717850c26c9cd0d89d")]);
    let (total, table) = hash_pieces(vec![Cursor::new(b"hello world".to_vec())], 11).unwrap();
    assert_eq!(total, 11);
    assert_eq!(table, vec![hex("2aae6c35c94fcfb415dbe95f408b9ce91ee846ed")]);
}

#[test]
fn no_bytes_give_no_digest() {
    let (total, table) = hash_pieces(Vec::<Cursor>::new(), PIECE_LENGTH).unwrap();
    assert_eq!((total, table.len()), (0, 0));
    let (total, table) = hash_pieces(vec![Cursor::new(Vec::new())], PIECE_LENGTH).unwrap();
    assert_eq!((total, table.len()), (0, 0));
    let empty = vec![Cursor::new(Vec::new()), Cursor::new(Vec::new())];
    let (total, table) = hash_pieces(empty, PIECE_LENGTH).unwrap();
    assert_eq!((total, table.len()), (0, 0));
}

#[test]
fn one_full_piece_gives_one_digest() {
    let data = pattern(PIECE_LENGTH);
    let (total, table) = hash_pieces(vec![Cursor::new(data.clone())], PIECE_LENGTH).unwrap();
    assert_eq!(total, 262144);
    assert_eq!(table, vec![sha1_of(&data)]);
}

#[test]
fn one_byte_over_a_piece_gives_a_second_digest_of_that_byte() {
    let mut data = pattern(PIECE_LENGTH);
    data.push(b'a');
    let (total, table) = hash_pieces(vec![Cursor::new(data.clone())], PIECE_LENGTH).unwrap();
    assert_eq!(total, 262145);
    assert_eq!(table.len(), 2);
    assert_eq!(table[0], sha1_of(&data[..PIECE_LENGTH]));
    assert_eq!(table[1], hex("86f7e437faa5a7fce15d1ddcb9eaeaea377667b8"));
    assert_eq!(table[1], sha1_of(b"a"));
}

#[test]
fn file_boundaries_do_not_move_the_pieces() {
    let data = pattern(600000);
    let whole = vec![Cursor::new(data.clone())];
    let halves = vec![Cursor::new(data[..300000].to_vec()), Cursor::new(data[300000..].to_vec())];
    let one = hash_pieces(whole, PIECE_LENGTH).unwrap();
    let two = hash_pieces(halves, PIECE_LENGTH).unwrap();
    assert_eq!(one, two);
    assert_eq!(one.0, 600000);
    assert_eq!(
        one.1,
        vec![sha1_of(&data[..262144]), sha1_of(&data[262144..524288]), sha1_of(&data[524288..])]
    );
}

#[test]
fn hashing_twice_gives_the_same_table() {
    let data = pattern(1000);
    let first = hash_pieces(vec![Cursor::with_chunk(data.clone(), 7)], 64).unwrap();
    let second = hash_pieces(vec![Cursor::new(data.clone())], 64).unwrap();
    assert_eq!(first, second);
    assert_eq!(first.1.len(), 16);
    assert_eq!(first.1[15], sha1_of(&data[960..]));
}

#[test]
fn an_empty_file_between_two_others_changes_no_digest() {
    let data = pattern(100);
    let with_empty = vec![
        Cursor::new(data[..40].to_vec()),
        Cursor::new(Vec::new()),
        Cursor::new(data[40..].to_vec()),
    ];
    let without = vec![Cursor::new(data[..40].to_vec()), Cursor::new(data[40..].to_vec())];
    let one = hash_pieces(with_empty, 32).unwrap();
    assert_eq!(one, hash_pieces(without, 32).unwrap());
    assert_eq!(one.0, 100);
    let cuts = [&data[..32], &data[32..64], &data[64..96], &data[96..]];
    assert_eq!(one.1, cuts.iter().map(|piece| sha1_of(piece)).collect::<Vec<[u8; 20]>>());
}

#[test]
fn a_stream_is_hashed_from_where_it_stands() {
    let mut cat = CatRead::new(Cursor::new(b"abcd".to_vec()), vec![Cursor::new(b"efgh".to_vec())]);
    let mut skipped = [0u8; 3];
    assert_eq!(cat.read(&mut skipped), Ok(3));
    let (total, table) = hash_stream(&mut cat, 4).unwrap();
    assert_eq!(total, 5);
    assert_eq!(table, vec![sha1_of(b"defg"), sha1_of(b"h")]);
    assert_eq!(hash_stream(&mut cat, 4), Ok((0, Vec::new())));
}

#[test]
fn a_source_that_does_not_open_fails_the_hashing() {
    assert_eq!(
        hash_pieces(vec![Missing], 4),
        Err(TorrentError::SourceOpenFailure(String::from("no such file")))
    );
}

#[test]
fn the_number_of_pieces_is_the_length_over_the_piece_length_rounded_up() {
    assert_eq!(expected_pieces(0, 262144), 0);
    assert_eq!(expected_pieces(1, 262144), 1);
    assert_eq!(expected_pieces(262143, 262144), 1);
    assert_eq!(expected_pieces(262144, 262144), 1);
    assert_eq!(expected_pieces(262145, 262144), 2);
    assert_eq!(expected_pieces(600000, 262144), 3);
    assert_eq!(expected_pieces(u64::MAX, 1), u64::MAX);
    assert_eq!(expected_pieces(u64::MAX, 2), 9223372036854775808);
    assert_eq!(expected_pieces(u64::MAX, u64::MAX), 1);
}

#[test]
fn a_table_is_flattened_in_order() {
    let table = vec![[1u8; 20], [2u8; 20]];
    let mut expected = vec![1u8; 20];
    expected.extend_from_slice(&[2u8; 20]);
    assert_eq!(flatten_digests(&table), expected);
    assert_eq!(flatten_digests(&Vec::new()), Vec::<u8>::new());
}
