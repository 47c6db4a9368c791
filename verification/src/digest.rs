use crate::read::{concat_contents, MakeReader};
use sha1::{Digest, Sha1};
use vstd::arithmetic::div_mod::{lemma_fundamental_div_mod, lemma_fundamental_div_mod_converse};
use vstd::prelude::*;

verus! {

/// The SHA-1 digest of `data`.
pub uninterp spec fn sha1_digest(data: Seq<u8>) -> Seq<u8>;

/// Calls `sha1::Sha1::digest` on `data`. The contract names the result as a function of
/// the bytes of `data`; it does not say what the digest is. That it has twenty bytes
/// stands in the type.
#[verifier::external_body]
pub(crate) fn sha1_sum(data: &[u8]) -> (digest: [u8; 20])
    ensures
        digest@ == sha1_digest(data@),
{
    Sha1::digest(data).into()
}

/// The number of pieces of `piece_length` bytes that `total` bytes fill, the last one
/// perhaps only in part.
pub open spec fn piece_count(total: nat, piece_length: nat) -> nat {
    if piece_length == 0 {
        0
    } else if total % piece_length == 0 {
        total / piece_length
    } else {
        total / piece_length + 1
    }
}

/// The number of pieces that `total` bytes fill.
pub fn expected_pieces(total: u64, piece_length: u64) -> (count: u64)
    requires
        piece_length > 0,
    ensures
        count == piece_count(total as nat, piece_length as nat),
{
    let full = total / piece_length;
    if total % piece_length == 0 {
        full
    } else {
        assert(full < u64::MAX) by (nonlinear_arith)
            requires
                full == total / piece_length,
                total % piece_length != 0,
                piece_length > 0,
                total <= u64::MAX,
        ;
        full + 1
    }
}

/// The bytes of piece `i` of `stream`: `piece_length` of them from offset
/// `i * piece_length` on, or those that are left where the stream ends before.
pub open spec fn piece(stream: Seq<u8>, piece_length: nat, i: int) -> Seq<u8> {
    let start = i * piece_length;
    let end = if start + piece_length <= stream.len() {
        start + piece_length
    } else {
        stream.len() as int
    };
    stream.subrange(start, end)
}

/// The pieces of `stream`, in stream order.
pub open spec fn pieces(stream: Seq<u8>, piece_length: nat) -> Seq<Seq<u8>> {
    Seq::new(piece_count(stream.len(), piece_length), |i: int| piece(stream, piece_length, i))
}

/// One digest for each piece of `stream`, in the order of the pieces.
pub open spec fn digest_list(stream: Seq<u8>, piece_length: nat) -> Seq<Seq<u8>> {
    pieces(stream, piece_length).map_values(|bytes: Seq<u8>| sha1_digest(bytes))
}

/// The digests of a table, each as a sequence of bytes.
pub open spec fn digests(table: Seq<[u8; 20]>) -> Seq<Seq<u8>> {
    table.map_values(|digest: [u8; 20]| digest@)
}

/// A table of digests, flattened, has twenty bytes for each digest.
pub proof fn lemma_flat_table_length(table: Seq<[u8; 20]>)
    ensures
        digests(table).flatten().len() == 20 * table.len(),
    decreases table.len(),
{
    if table.len() > 0 {
        lemma_flat_table_length(table.drop_last());
        assert(digests(table) =~= digests(table.drop_last()).push(table.last()@));
        digests(table.drop_last()).lemma_flatten_push(table.last()@);
    }
}

/// The number of pieces is the least count whose pieces hold `total` bytes: it is zero
/// only for no bytes, and the last piece is never empty.
pub proof fn lemma_piece_count_bounds(total: nat, piece_length: nat)
    requires
        piece_length > 0,
    ensures
        piece_count(total, piece_length) * piece_length >= total,
        total > (piece_count(total, piece_length) - 1) * piece_length,
        piece_count(total, piece_length) == 0 <==> total == 0,
{
    let d = piece_length as int;
    let q = total as int / d;
    let r = total as int % d;
    lemma_fundamental_div_mod(total as int, d);
    assert(0 <= r < d);
    assert(d * (q + 1) == d * q + d) by (nonlinear_arith);
    assert(d * (q - 1) == d * q - d) by (nonlinear_arith);
    assert(q * d == d * q) by (nonlinear_arith);
    assert((q + 1) * d == d * (q + 1)) by (nonlinear_arith);
    assert((q - 1) * d == d * (q - 1)) by (nonlinear_arith);
    assert(q >= 0) by (nonlinear_arith)
        requires
            total == d * q + r,
            0 <= r < d,
            total >= 0,
    ;
    if q != 0 {
        assert(d * q >= d) by (nonlinear_arith)
            requires
                q >= 1,
                d > 0,
        ;
    }
}

/// Every piece but the last has `piece_length` bytes, and the last has what is left: at
/// least one byte and at most `piece_length`.
pub proof fn lemma_piece_length(stream: Seq<u8>, piece_length: nat, i: int)
    requires
        piece_length > 0,
        0 <= i < piece_count(stream.len(), piece_length),
    ensures
        i < piece_count(stream.len(), piece_length) - 1 ==> piece(stream, piece_length, i).len()
            == piece_length,
        i == piece_count(stream.len(), piece_length) - 1 ==> piece(stream, piece_length, i).len()
            == stream.len() - i * piece_length,
        0 < piece(stream, piece_length, i).len() <= piece_length,
{
    let d = piece_length as int;
    let count = piece_count(stream.len(), piece_length) as int;
    lemma_piece_count_bounds(stream.len(), piece_length);
    assert(0 <= i * d) by (nonlinear_arith)
        requires
            0 <= i,
            d > 0,
    ;
    assert(i * d + d == (i + 1) * d) by (nonlinear_arith);
    if i < count - 1 {
        assert((i + 1) * d <= (count - 1) * d) by (nonlinear_arith)
            requires
                i + 1 <= count - 1,
                d > 0,
        ;
    }
}

/// Two lists of sources that hold the same bytes in all have the same digests, wherever
/// one source ends and the next begins.
pub proof fn lemma_boundaries_do_not_matter<S: MakeReader, T: MakeReader>(
    one: Seq<S>,
    other: Seq<T>,
    piece_length: nat,
)
    requires
        concat_contents(one) == concat_contents(other),
    ensures
        digest_list(concat_contents(one), piece_length) == digest_list(
            concat_contents(other),
            piece_length,
        ),
{
}

/// A stream of `k` full pieces has `k` pieces.
pub proof fn lemma_piece_count_full(k: nat, piece_length: nat)
    requires
        piece_length > 0,
    ensures
        piece_count(k * piece_length, piece_length) == k,
{
    lemma_fundamental_div_mod_converse((k * piece_length) as int, piece_length as int, k as int, 0);
}

/// A stream of `k` full pieces and `rest` more bytes, at least one and at most a piece,
/// has `k + 1` pieces.
pub proof fn lemma_piece_count_more(k: nat, rest: nat, piece_length: nat)
    requires
        0 < rest <= piece_length,
    ensures
        piece_count(k * piece_length + rest, piece_length) == k + 1,
{
    let d = piece_length as int;
    if rest < piece_length {
        lemma_fundamental_div_mod_converse(k * d + rest, d, k as int, rest as int);
    } else {
        assert((k + 1) * d == k * d + d) by (nonlinear_arith);
        lemma_fundamental_div_mod_converse(k * d + rest, d, k as int + 1, 0);
    }
}

/// Appending up to one piece to a stream of full pieces appends its digest to the list.
pub proof fn lemma_digest_list_push(head: Seq<u8>, tail: Seq<u8>, piece_length: nat)
    requires
        piece_length > 0,
        head.len() % piece_length == 0,
        0 < tail.len() <= piece_length,
    ensures
        digest_list(head + tail, piece_length) == digest_list(head, piece_length).push(
            sha1_digest(tail),
        ),
{
    lemma_pieces_push(head, tail, piece_length);
    assert(digest_list(head + tail, piece_length) =~= digest_list(head, piece_length).push(
        sha1_digest(tail),
    ));
}

/// The pieces of a stream, one after the other, are the stream: no byte is left out,
/// none is added, none stands in two pieces.
pub proof fn lemma_pieces_cover_stream(stream: Seq<u8>, piece_length: nat)
    requires
        piece_length > 0,
    ensures
        pieces(stream, piece_length).flatten() == stream,
    decreases stream.len(),
{
    let count = piece_count(stream.len(), piece_length);
    lemma_piece_count_bounds(stream.len(), piece_length);
    if count > 0 {
        let cut = (count - 1) * piece_length;
        assert(0 <= cut) by (nonlinear_arith)
            requires
                cut == (count - 1) * piece_length,
                count >= 1,
        ;
        assert(count * piece_length == cut + piece_length) by (nonlinear_arith)
            requires
                cut == (count - 1) * piece_length,
        ;
        let head = stream.take(cut);
        let tail = stream.skip(cut);
        assert(head + tail =~= stream);
        lemma_piece_count_full((count - 1) as nat, piece_length);
        lemma_fundamental_div_mod_converse(cut, piece_length as int, count - 1, 0);
        lemma_pieces_push(head, tail, piece_length);
        lemma_pieces_cover_stream(head, piece_length);
        pieces(head, piece_length).lemma_flatten_push(tail);
    }
}

/// Appending up to one piece to a stream of full pieces appends it to the pieces.
pub proof fn lemma_pieces_push(head: Seq<u8>, tail: Seq<u8>, piece_length: nat)
    requires
        piece_length > 0,
        head.len() % piece_length == 0,
        0 < tail.len() <= piece_length,
    ensures
        pieces(head + tail, piece_length) == pieces(head, piece_length).push(tail),
{
    let d = piece_length as int;
    let k = head.len() as int / d;
    lemma_fundamental_div_mod(head.len() as int, d);
    assert(k >= 0) by (nonlinear_arith)
        requires
            head.len() == d * k,
            d > 0,
    ;
    lemma_piece_count_full(k as nat, piece_length);
    lemma_piece_count_more(k as nat, tail.len(), piece_length);
    let whole = head + tail;
    let left = pieces(whole, piece_length);
    let right = pieces(head, piece_length).push(tail);
    assert forall|i: int| 0 <= i < k + 1 implies left[i] == right[i] by {
        if i < k {
            assert((i + 1) * d <= k * d) by (nonlinear_arith)
                requires
                    i + 1 <= k,
                    d > 0,
            ;
            assert((i + 1) * d == i * d + d) by (nonlinear_arith);
            assert(0 <= i * d) by (nonlinear_arith)
                requires
                    0 <= i,
                    d > 0,
            ;
        }
    }
}

} // verus!
