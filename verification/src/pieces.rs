use crate::digest::{digest_list, digests, lemma_digest_list_push, piece_count, sha1_sum};
use crate::error::TorrentError;
use crate::read::{all_faithful, all_reliable, concat_contents, opened, CatRead, MakeReader};
use vstd::prelude::*;
use vstd::slice::slice_subrange;

verus! {

/// Reads the contents of `sources`, one after the other, as one stream, and returns the
/// number of bytes read and one SHA-1 digest for each piece of `piece_length` bytes.
///
/// The pieces are cut by the offset in the stream alone: where one source ends and the
/// next begins plays no part. No source gives no bytes and no digest.
pub fn hash_pieces<S: MakeReader>(sources: Vec<S>, piece_length: usize) -> (r: Result<
    (u64, Vec<[u8; 20]>),
    TorrentError,
>)
    requires
        piece_length > 0,
    ensures
        r matches Err(e) ==> e is SourceOpenFailure || e is StreamReadFailure,
        all_reliable(sources@) ==> (r is Ok <==> concat_contents(sources@).len() <= u64::MAX),
        all_reliable(sources@) ==> (r matches Err(e) ==> e is StreamReadFailure),
        all_faithful(sources@) ==> (r matches Ok((total, table)) ==> {
            &&& total == concat_contents(sources@).len()
            &&& table@.len() == piece_count(total as nat, piece_length as nat)
            &&& digests(table@) == digest_list(concat_contents(sources@), piece_length as nat)
        }),
{
    let mut sources = sources;
    if sources.len() == 0 {
        return Ok((0, Vec::new()));
    }
    let first = sources.remove(0);
    let initial = match opened(first.make_reader()) {
        Ok(reader) => reader,
        Err(e) => {
            return Err(e);
        },
    };
    let mut cat = CatRead::new(initial, sources);
    hash_stream(&mut cat, piece_length)
}

/// Reads `cat` to its end in pieces of `piece_length` bytes and returns the number of
/// bytes read and one SHA-1 digest for each piece, in stream order.
///
/// Every piece but the last is full; the last holds what is left and is hashed at its
/// own length. The count of bytes is kept in a `u64`: a stream that is longer fails.
pub fn hash_stream<S: MakeReader>(cat: &mut CatRead<S>, piece_length: usize) -> (r: Result<
    (u64, Vec<[u8; 20]>),
    TorrentError,
>)
    requires
        piece_length > 0,
    ensures
        r matches Err(e) ==> e is SourceOpenFailure || e is StreamReadFailure,
        old(cat).reliable() ==> {
            &&& final(cat).reliable()
            &&& r is Ok <==> old(cat)@.len() <= u64::MAX
            &&& r matches Err(e) ==> e is StreamReadFailure
        },
        old(cat).faithful() ==> {
            &&& final(cat).faithful()
            &&& r matches Ok((total, table)) ==> {
                &&& total == old(cat)@.len()
                &&& table@.len() == piece_count(total as nat, piece_length as nat)
                &&& digests(table@) == digest_list(old(cat)@, piece_length as nat)
                &&& final(cat)@.len() == 0
            }
        },
{
    let mut buf: Vec<u8> = vec![0u8; piece_length];
    let mut table: Vec<[u8; 20]> = Vec::new();
    let mut total: u64 = 0;
    proof {
        cat.lemma_reliable_is_faithful();
    }
    loop
        invariant
            piece_length > 0,
            buf.len() == piece_length,
            old(cat).reliable() ==> cat.reliable() && old(cat).faithful(),
            old(cat).faithful() ==> {
                &&& cat.faithful()
                &&& total <= old(cat)@.len()
                &&& cat@ == old(cat)@.skip(total as int)
                &&& cat@.len() > 0 ==> total as int % piece_length as int == 0
                &&& digests(table@) == digest_list(
                    old(cat)@.take(total as int),
                    piece_length as nat,
                )
            },
        decreases u64::MAX - total,
    {
        let ghost stream = cat@;
        let len = match cat.read(buf.as_mut_slice()) {
            Ok(len) => len,
            Err(e) => {
                return Err(e);
            },
        };
        if len == 0 {
            proof {
                if old(cat).faithful() {
                    assert(old(cat)@.take(total as int) == old(cat)@);
                }
            }
            return Ok((total, table));
        }
        if len as u64 > u64::MAX - total {
            return Err(TorrentError::StreamReadFailure("stream too long".to_string()));
        }
        let digest = sha1_sum(slice_subrange(buf.as_slice(), 0, len));
        table.push(digest);
        proof {
            if old(cat).faithful() {
                let head = old(cat)@.take(total as int);
                let tail = stream.take(len as int);
                assert(head + tail == old(cat)@.take(total + len));
                lemma_digest_list_push(head, tail, piece_length as nat);
                if cat@.len() > 0 {
                    assert((total + len) % (piece_length as int) == 0) by (nonlinear_arith)
                        requires
                            total as int % (piece_length as int) == 0,
                            len == piece_length,
                            piece_length > 0,
                    ;
                }
            }
        }
        total = total + len as u64;
    }
}

/// The digests of `table` one after the other.
pub fn flatten_digests(table: &Vec<[u8; 20]>) -> (bytes: Vec<u8>)
    ensures
        bytes@ == digests(table@).flatten(),
        bytes@.len() == 20 * table@.len(),
{
    let mut bytes: Vec<u8> = Vec::new();
    let mut i: usize = 0;
    while i < table.len()
        invariant
            i <= table@.len(),
            bytes@ == digests(table@.take(i as int)).flatten(),
            bytes@.len() == 20 * i,
        decreases table@.len() - i,
    {
        bytes.extend_from_slice(table[i].as_slice());
        proof {
            let digest = table@[i as int]@;
            assert(digests(table@.take(i + 1)) == digests(table@.take(i as int)).push(digest));
            digests(table@.take(i as int)).lemma_flatten_push(digest);
        }
        i += 1;
    }
    proof {
        assert(table@.take(i as int) == table@);
    }
    bytes
}

} // verus!
