use crate::bencode::bencoding;
use crate::digest::{digest_list, digests, lemma_flat_table_length, piece_count};
use crate::error::TorrentError;
use crate::model::{
    declared_total, listed_files, representable, torrent_tree, Info, InfoView, Torrent,
    TorrentView,
};
use crate::pieces::hash_pieces;
use crate::read::{all_faithful, all_reliable, concat_contents, MakeReader};
use vstd::prelude::*;

verus! {

/// The number of bytes of a piece.
pub const PIECE_LENGTH: usize = 0x40000;

/// The descriptor of a collection called `name` with the tracker `tracker`, created at
/// `creation_date`, whose files are those of `entries` and whose pieces have the digests
/// `pieces`.
pub open spec fn described(
    name: Seq<char>,
    tracker: Seq<char>,
    creation_date: int,
    entries: Seq<(u64, String)>,
    pieces: Seq<u8>,
) -> TorrentView {
    TorrentView {
        info: InfoView {
            name,
            pieces,
            piece_length: PIECE_LENGTH as int,
            files: listed_files(entries),
        },
        announce: tracker,
        encoding: "UTF-8"@,
        creation_date,
    }
}

/// Hashes the contents of `sources` as one stream, holds the result against the lengths
/// that `entries` declare, and returns the descriptor in the wire format.
///
/// `entries` holds the declared length and the path of each file, `sources` the files'
/// contents in the same order. No bytes are returned unless the declared lengths add up
/// to the number of bytes hashed and there is one digest for each piece of that many
/// bytes. Of faithful sources the number of digests is never wrong: a file that holds
/// more or less than was declared shows as a mismatch of the lengths.
pub fn make_torrent<S: MakeReader>(
    name: String,
    tracker: String,
    creation_date: i64,
    entries: &Vec<(u64, String)>,
    sources: Vec<S>,
) -> (r: Result<Vec<u8>, TorrentError>)
    ensures
        r matches Ok(bytes) ==> exists|pieces: Seq<u8>|
            {
                &&& pieces.len() == 20 * piece_count(
                    declared_total(entries@),
                    PIECE_LENGTH as nat,
                )
                &&& #[trigger] bencoding(
                    torrent_tree(
                        described(name@, tracker@, creation_date as int, entries@, pieces),
                    ),
                ) == Some(bytes@)
            },
        all_faithful(sources@) ==> {
            let stream = concat_contents(sources@);
            let pieces = digest_list(stream, PIECE_LENGTH as nat).flatten();
            let encoded = bencoding(
                torrent_tree(described(name@, tracker@, creation_date as int, entries@, pieces)),
            );
            &&& r matches Ok(bytes) ==> {
                &&& declared_total(entries@) == stream.len()
                &&& representable(entries@, PIECE_LENGTH)
                &&& encoded == Some(bytes@)
            }
            &&& r matches Err(TorrentError::LengthMismatch) ==> declared_total(entries@)
                != stream.len()
            &&& r matches Err(TorrentError::EncodingFailure) ==> {
                &&& declared_total(entries@) == stream.len()
                &&& !representable(entries@, PIECE_LENGTH) || encoded is None
            }
            &&& !(r matches Err(TorrentError::PieceCountMismatch))
        },
        all_reliable(sources@) ==> {
            let stream = concat_contents(sources@);
            let pieces = digest_list(stream, PIECE_LENGTH as nat).flatten();
            let encoded = bencoding(
                torrent_tree(described(name@, tracker@, creation_date as int, entries@, pieces)),
            );
            if stream.len() > u64::MAX {
                r matches Err(e) && e is StreamReadFailure
            } else if declared_total(entries@) != stream.len() {
                r == Err::<Vec<u8>, TorrentError>(TorrentError::LengthMismatch)
            } else if !representable(entries@, PIECE_LENGTH) || encoded is None {
                r == Err::<Vec<u8>, TorrentError>(TorrentError::EncodingFailure)
            } else {
                r matches Ok(bytes) && Some(bytes@) == encoded
            }
        },
{
    let (total, table) = match hash_pieces(sources, PIECE_LENGTH) {
        Ok(hashed) => hashed,
        Err(e) => {
            return Err(e);
        },
    };
    let info = match Info::build(name, PIECE_LENGTH, entries, total, &table) {
        Ok(info) => info,
        Err(e) => {
            return Err(e);
        },
    };
    let torrent = Torrent::new(tracker, creation_date, info);
    let r = torrent.encode();
    proof {
        let pieces = digests(table@).flatten();
        lemma_flat_table_length(table@);
        assert(torrent@ == described(name@, tracker@, creation_date as int, entries@, pieces));
    }
    r
}

} // verus!
