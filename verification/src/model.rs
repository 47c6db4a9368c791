use crate::bencode::{
    bencoding, dict_of, encode_value, trees, value_bytes, value_dict, value_int, value_list,
    value_tree, Tree,
};
use crate::digest::{digests, expected_pieces, piece_count};
use crate::error::TorrentError;
use crate::pieces::flatten_digests;
use serde_bencode::value::Value;
use vstd::prelude::*;
use vstd::slice::slice_to_vec;
use vstd::string::*;
use vstd::utf8::{encode_utf8, is_ascii_chars_encode_utf8};

verus! {

/// The byte string that stands for the text `chars` in a descriptor: its UTF-8 encoding.
pub open spec fn text_bytes(chars: Seq<char>) -> Seq<u8> {
    encode_utf8(chars)
}

/// The bytes of `text`.
fn bytes_of(text: &str) -> (bytes: Vec<u8>)
    ensures
        bytes@ == text_bytes(text@),
{
    slice_to_vec(text.as_bytes())
}

/// One file of the collection.
#[derive(Debug)]
pub struct File {
    /// The segments of the file's path below the collection's root.
    pub path: Vec<String>,
    /// The file's length in bytes.
    pub length: i64,
}

/// What a [`File`] holds.
pub struct FileView {
    pub path: Seq<Seq<char>>,
    pub length: int,
}

impl View for File {
    type V = FileView;

    open spec fn view(&self) -> FileView {
        FileView {
            path: self.path@.map_values(|segment: String| segment@),
            length: self.length as int,
        }
    }
}

/// The byte string that stands for a text.
pub open spec fn text_tree(chars: Seq<char>) -> Tree {
    Tree::Bytes(text_bytes(chars))
}

/// The dictionary that stands for a file in a descriptor.
pub open spec fn file_tree(file: FileView) -> Tree {
    Tree::Dict(
        map![
            text_bytes("length"@) => Tree::Integer(file.length),
            text_bytes("path"@) => Tree::List(file.path.map_values(|s: Seq<char>| text_tree(s))),
        ],
    )
}

impl File {
    /// The `serde_bencode` value that stands for the file.
    pub fn to_value(&self) -> (value: Value)
        ensures
            value_tree(value) == file_tree(self@),
    {
        let mut segments: Vec<Value> = Vec::new();
        let mut i: usize = 0;
        while i < self.path.len()
            invariant
                i <= self.path@.len(),
                trees(segments@) == self@.path.take(i as int).map_values(
                    |s: Seq<char>| text_tree(s),
                ),
            decreases self.path@.len() - i,
        {
            let ghost before = segments@;
            let segment = value_bytes(bytes_of(self.path[i].as_str()));
            let ghost tree = value_tree(segment);
            segments.push(segment);
            proof {
                assert(trees(segments@) =~= trees(before).push(tree));
                assert(self@.path.take(i + 1) =~= self@.path.take(i as int).push(
                    self@.path[i as int],
                ));
                assert(trees(segments@) =~= self@.path.take(i + 1).map_values(
                    |s: Seq<char>| text_tree(s),
                ));
            }
            i += 1;
        }
        assert(self@.path.take(i as int) == self@.path);
        let mut entries: Vec<(Vec<u8>, Value)> = Vec::new();
        entries.push((bytes_of("length"), value_int(self.length)));
        entries.push((bytes_of("path"), value_list(segments)));
        proof {
            reveal_strlit("length");
            reveal_strlit("path");
            is_ascii_chars_encode_utf8("length"@);
            is_ascii_chars_encode_utf8("path"@);
            reveal_with_fuel(dict_of, 3);
        }
        value_dict(entries)
    }
}

/// The metadata of a collection: its name, the digests of its pieces and its files.
#[derive(Debug)]
pub struct Info {
    /// The name of the collection.
    pub name: String,
    /// The digests of the pieces, one after the other.
    pub pieces: Vec<u8>,
    /// The number of bytes of a piece.
    pub piece_length: i64,
    /// The files, in the order in which their contents were hashed.
    pub files: Vec<File>,
}

/// What an [`Info`] holds.
pub struct InfoView {
    pub name: Seq<char>,
    pub pieces: Seq<u8>,
    pub piece_length: int,
    pub files: Seq<FileView>,
}

impl View for Info {
    type V = InfoView;

    open spec fn view(&self) -> InfoView {
        InfoView {
            name: self.name@,
            pieces: self.pieces@,
            piece_length: self.piece_length as int,
            files: self.files@.map_values(|file: File| file@),
        }
    }
}

/// The dictionary that stands for the metadata in a descriptor.
pub open spec fn info_tree(info: InfoView) -> Tree {
    Tree::Dict(
        map![
            text_bytes("files"@) => Tree::List(info.files.map_values(|f: FileView| file_tree(f))),
            text_bytes("name"@) => text_tree(info.name),
            text_bytes("piece length"@) => Tree::Integer(info.piece_length),
            text_bytes("pieces"@) => Tree::Bytes(info.pieces),
        ],
    )
}

/// The sum of the lengths that the entries declare.
pub open spec fn declared_total(entries: Seq<(u64, String)>) -> nat
    decreases entries.len(),
{
    if entries.len() == 0 {
        0
    } else {
        declared_total(entries.drop_last()) + entries.last().0 as nat
    }
}

/// Whether a descriptor can hold the piece length and each declared length: it keeps
/// them as `i64`.
pub open spec fn representable(entries: Seq<(u64, String)>, piece_length: usize) -> bool {
    &&& piece_length <= i64::MAX
    &&& forall|i: int| 0 <= i < entries.len() ==> (#[trigger] entries[i]).0 <= i64::MAX
}

/// The file records of the entries: each with its declared length and its path as one
/// segment.
pub open spec fn listed_files(entries: Seq<(u64, String)>) -> Seq<FileView> {
    entries.map_values(
        |entry: (u64, String)| FileView { path: seq![entry.1@], length: entry.0 as int },
    )
}

impl Info {
    /// Holds what was hashed against what was declared and assembles the metadata.
    ///
    /// `entries` holds the declared length and the path of each file, in the order in
    /// which the contents were read; `total_length` and `table` are the number of bytes
    /// read and the digests of the pieces. Three things are asked, in this order: the
    /// declared lengths must add up to `total_length`; `table` must hold one digest for
    /// each piece of that many bytes; the piece length and the declared lengths must fit
    /// the descriptor's integers.
    pub fn build(
        name: String,
        piece_length: usize,
        entries: &Vec<(u64, String)>,
        total_length: u64,
        table: &Vec<[u8; 20]>,
    ) -> (r: Result<Info, TorrentError>)
        requires
            piece_length > 0,
        ensures
            r == Err::<Info, TorrentError>(TorrentError::LengthMismatch) <==> declared_total(
                entries@,
            ) != total_length,
            r == Err::<Info, TorrentError>(TorrentError::PieceCountMismatch) <==> {
                &&& declared_total(entries@) == total_length
                &&& table@.len() != piece_count(total_length as nat, piece_length as nat)
            },
            r == Err::<Info, TorrentError>(TorrentError::EncodingFailure) <==> {
                &&& declared_total(entries@) == total_length
                &&& table@.len() == piece_count(total_length as nat, piece_length as nat)
                &&& !representable(entries@, piece_length)
            },
            r is Err ==> r->Err_0 is LengthMismatch || r->Err_0 is PieceCountMismatch
                || r->Err_0 is EncodingFailure,
            r matches Ok(info) ==> info@ == (InfoView {
                name: name@,
                pieces: digests(table@).flatten(),
                piece_length: piece_length as int,
                files: listed_files(entries@),
            }),
    {
        let mut sum: u64 = 0;
        let mut i: usize = 0;
        while i < entries.len()
            invariant
                i <= entries@.len(),
                sum == declared_total(entries@.take(i as int)),
                sum <= total_length,
            decreases entries@.len() - i,
        {
            let length = entries[i].0;
            proof {
                assert(entries@.take(i + 1).drop_last() == entries@.take(i as int));
                lemma_declared_total_grows(entries@, i + 1);
            }
            if length > total_length - sum {
                return Err(TorrentError::LengthMismatch);
            }
            sum = sum + length;
            i += 1;
        }
        proof {
            assert(entries@.take(i as int) == entries@);
        }
        if sum != total_length {
            return Err(TorrentError::LengthMismatch);
        }
        if table.len() as u64 != expected_pieces(total_length, piece_length as u64) {
            return Err(TorrentError::PieceCountMismatch);
        }
        if piece_length as u64 > i64::MAX as u64 {
            return Err(TorrentError::EncodingFailure);
        }
        let mut files: Vec<File> = Vec::new();
        let mut j: usize = 0;
        while j < entries.len()
            invariant
                j <= entries@.len(),
                files@.len() == j,
                piece_length <= i64::MAX,
                declared_total(entries@) == total_length,
                table@.len() == piece_count(total_length as nat, piece_length as nat),
                forall|k: int| 0 <= k < j ==> (#[trigger] entries@[k]).0 <= i64::MAX,
                forall|k: int| 0 <= k < j ==> (#[trigger] files@[k])@ == listed_files(entries@)[k],
            decreases entries@.len() - j,
        {
            let length = entries[j].0;
            if length > i64::MAX as u64 {
                return Err(TorrentError::EncodingFailure);
            }
            let mut path: Vec<String> = Vec::new();
            path.push(entries[j].1.clone());
            let file = File { path, length: length as i64 };
            assert(file@.path =~= seq![entries@[j as int].1@]);
            files.push(file);
            j += 1;
        }
        let info = Info {
            name,
            pieces: flatten_digests(table),
            piece_length: piece_length as i64,
            files,
        };
        assert(info@.files =~= listed_files(entries@));
        Ok(info)
    }

    /// The `serde_bencode` value that stands for the metadata.
    pub fn to_value(&self) -> (value: Value)
        ensures
            value_tree(value) == info_tree(self@),
    {
        let mut files: Vec<Value> = Vec::new();
        let mut i: usize = 0;
        while i < self.files.len()
            invariant
                i <= self.files@.len(),
                trees(files@) == self@.files.take(i as int).map_values(
                    |f: FileView| file_tree(f),
                ),
            decreases self.files@.len() - i,
        {
            let ghost before = files@;
            let file = self.files[i].to_value();
            let ghost tree = value_tree(file);
            files.push(file);
            proof {
                assert(trees(files@) =~= trees(before).push(tree));
                assert(self@.files.take(i + 1) =~= self@.files.take(i as int).push(
                    self@.files[i as int],
                ));
                assert(trees(files@) =~= self@.files.take(i + 1).map_values(
                    |f: FileView| file_tree(f),
                ));
            }
            i += 1;
        }
        assert(self@.files.take(i as int) == self@.files);
        let mut entries: Vec<(Vec<u8>, Value)> = Vec::new();
        entries.push((bytes_of("files"), value_list(files)));
        entries.push((bytes_of("name"), value_bytes(bytes_of(self.name.as_str()))));
        entries.push((bytes_of("piece length"), value_int(self.piece_length)));
        entries.push((bytes_of("pieces"), value_bytes(slice_to_vec(self.pieces.as_slice()))));
        proof {
            reveal_strlit("files");
            reveal_strlit("name");
            reveal_strlit("piece length");
            reveal_strlit("pieces");
            is_ascii_chars_encode_utf8("files"@);
            is_ascii_chars_encode_utf8("name"@);
            is_ascii_chars_encode_utf8("piece length"@);
            is_ascii_chars_encode_utf8("pieces"@);
            reveal_with_fuel(dict_of, 5);
        }
        value_dict(entries)
    }
}

/// The lengths declared by the first `n` entries add up to no more than those of all.
proof fn lemma_declared_total_grows(entries: Seq<(u64, String)>, n: int)
    requires
        0 <= n <= entries.len(),
    ensures
        declared_total(entries.take(n)) <= declared_total(entries),
    decreases entries.len() - n,
{
    if n < entries.len() {
        assert(entries.take(n + 1).drop_last() == entries.take(n));
        lemma_declared_total_grows(entries, n + 1);
    } else {
        assert(entries.take(n) == entries);
    }
}

/// A descriptor: the metadata of a collection with its tracker, the name of the text
/// encoding and the time of creation.
#[derive(Debug)]
pub struct Torrent {
    info: Info,
    announce: String,
    encoding: String,
    creation_date: i64,
}

/// What a [`Torrent`] holds.
pub struct TorrentView {
    pub info: InfoView,
    pub announce: Seq<char>,
    pub encoding: Seq<char>,
    pub creation_date: int,
}

/// The dictionary that stands for a descriptor on the wire.
pub open spec fn torrent_tree(torrent: TorrentView) -> Tree {
    Tree::Dict(
        map![
            text_bytes("announce"@) => text_tree(torrent.announce),
            text_bytes("creation date"@) => Tree::Integer(torrent.creation_date),
            text_bytes("encoding"@) => text_tree(torrent.encoding),
            text_bytes("info"@) => info_tree(torrent.info),
        ],
    )
}

impl View for Torrent {
    type V = TorrentView;

    closed spec fn view(&self) -> TorrentView {
        TorrentView {
            info: self.info@,
            announce: self.announce@,
            encoding: self.encoding@,
            creation_date: self.creation_date as int,
        }
    }
}

impl Torrent {
    /// The descriptor of `info` with the tracker `announce`, created at `creation_date`
    /// (seconds since the epoch). Its text encoding is named "UTF-8".
    pub fn new(announce: String, creation_date: i64, info: Info) -> (torrent: Self)
        ensures
            torrent@ == (TorrentView {
                info: info@,
                announce: announce@,
                encoding: "UTF-8"@,
                creation_date: creation_date as int,
            }),
    {
        Torrent { info, announce, encoding: "UTF-8".to_string(), creation_date }
    }

    /// The `serde_bencode` value that stands for the descriptor.
    pub fn to_value(&self) -> (value: Value)
        ensures
            value_tree(value) == torrent_tree(self@),
    {
        let mut entries: Vec<(Vec<u8>, Value)> = Vec::new();
        entries.push((bytes_of("announce"), value_bytes(bytes_of(self.announce.as_str()))));
        entries.push((bytes_of("creation date"), value_int(self.creation_date)));
        entries.push((bytes_of("encoding"), value_bytes(bytes_of(self.encoding.as_str()))));
        entries.push((bytes_of("info"), self.info.to_value()));
        proof {
            reveal_strlit("announce");
            reveal_strlit("creation date");
            reveal_strlit("encoding");
            reveal_strlit("info");
            is_ascii_chars_encode_utf8("announce"@);
            is_ascii_chars_encode_utf8("creation date"@);
            is_ascii_chars_encode_utf8("encoding"@);
            is_ascii_chars_encode_utf8("info"@);
            reveal_with_fuel(dict_of, 5);
        }
        value_dict(entries)
    }

    /// The metadata of the collection.
    pub fn info(&self) -> (info: &Info)
        ensures
            info@ == self@.info,
    {
        &self.info
    }

    /// The tracker's address.
    pub fn announce(&self) -> (announce: &String)
        ensures
            announce@ == self@.announce,
    {
        &self.announce
    }

    /// The name of the text encoding.
    pub fn encoding(&self) -> (encoding: &String)
        ensures
            encoding@ == self@.encoding,
    {
        &self.encoding
    }

    /// The time of creation, in seconds since the epoch.
    pub fn creation_date(&self) -> (creation_date: i64)
        ensures
            creation_date == self@.creation_date,
    {
        self.creation_date
    }

    /// The descriptor in the wire format, as `serde_bencode` writes it.
    pub fn encode(&self) -> (r: Result<Vec<u8>, TorrentError>)
        ensures
            match r {
                Ok(bytes) => bencoding(torrent_tree(self@)) == Some(bytes@),
                Err(e) => e is EncodingFailure && bencoding(torrent_tree(self@)) is None,
            },
    {
        let value = self.to_value();
        match encode_value(&value) {
            Ok(bytes) => Ok(bytes),
            Err(_) => Err(TorrentError::EncodingFailure),
        }
    }
}

/// Two descriptors that hold the same values are written as the same bytes, or both
/// fail to be written.
pub proof fn lemma_encoding_is_determined(one: Torrent, other: Torrent)
    requires
        one@ == other@,
    ensures
        bencoding(torrent_tree(one@)) == bencoding(torrent_tree(other@)),
{
}

} // verus!
