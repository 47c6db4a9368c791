use crate::error::TorrentError;
use vstd::prelude::*;
use vstd::slice::slice_subrange;

verus! {

/// The most often that one call of [`CatRead::read`] tries again after an
/// interrupted read before it gives up.
pub const MAX_INTERRUPTS: u64 = u64::MAX;

/// The number of bytes that [`CatRead::read_to_end`] asks for at a time.
pub const READ_CHUNK: usize = 8192;

/// Why a single read on a byte stream delivered nothing.
#[derive(Debug, PartialEq, Eq)]
pub enum ReadError {
    /// The read was interrupted before any byte was transferred; it may be tried again.
    Interrupted,
    /// The stream failed; the text describes the failure.
    Failed(String),
}

/// An open stream of bytes, read front to back.
///
/// Nothing is taken on trust from an implementation. What `read` promises, it promises of
/// a stream that is [`faithful`](ByteReader::faithful), and a stream is faithful only
/// where its implementation says so and proves it.
pub trait ByteReader {
    /// The bytes that have not been read yet, in the order in which they will come.
    open spec fn remaining(&self) -> Seq<u8> {
        Seq::empty()
    }

    /// Whether the stream keeps to `remaining`: a read delivers bytes from its front and
    /// takes them off, and a read that fails takes nothing.
    open spec fn faithful(&self) -> bool {
        false
    }

    /// Whether the stream is faithful and no read on it ever reports an error.
    open spec fn reliable(&self) -> bool {
        false
    }

    /// Moves bytes from the front of the stream to the front of `buf` and returns how many.
    ///
    /// A result of `Ok(0)` on a buffer that has room means that the stream is at its end.
    fn read(&mut self, buf: &mut [u8]) -> (r: Result<usize, ReadError>)
        ensures
            final(buf)@.len() == old(buf)@.len(),
            old(self).reliable() ==> old(self).faithful() && r is Ok,
            old(self).faithful() ==> {
                &&& final(self).faithful()
                &&& final(self).reliable() == old(self).reliable()
                &&& match r {
                    Ok(n) => {
                        &&& n <= old(buf)@.len()
                        &&& n <= old(self).remaining().len()
                        &&& n == 0 ==> old(buf)@.len() == 0 || old(self).remaining().len() == 0
                        &&& final(buf)@.take(n as int) == old(self).remaining().take(n as int)
                        &&& final(self).remaining() == old(self).remaining().skip(n as int)
                    },
                    Err(_) => final(self).remaining() == old(self).remaining(),
                }
            },
    ;
}

/// Something that can be opened, when its turn comes, as a stream of bytes.
///
/// As with [`ByteReader`], `make_reader` promises something only of a source that is
/// [`faithful`](MakeReader::faithful).
pub trait MakeReader {
    type Reader: ByteReader;

    /// The bytes that a stream opened on this source delivers.
    open spec fn content(&self) -> Seq<u8> {
        Seq::empty()
    }

    /// Whether the source, where it opens, gives a faithful stream over `content`.
    open spec fn faithful(&self) -> bool {
        false
    }

    /// Whether the source is faithful, always opens, and gives a reliable stream.
    open spec fn reliable(&self) -> bool {
        false
    }

    /// Opens the source. An error carries a description of the failure.
    fn make_reader(self) -> (r: Result<Self::Reader, String>)
        ensures
            self.reliable() ==> self.faithful() && r is Ok,
            self.faithful() ==> (r matches Ok(reader) ==> {
                &&& reader.faithful()
                &&& reader.remaining() == self.content()
                &&& reader.reliable() == self.reliable()
            }),
    ;
}

/// The contents of `sources` one after the other, in the order of the list.
pub open spec fn concat_contents<S: MakeReader>(sources: Seq<S>) -> Seq<u8>
    decreases sources.len(),
{
    if sources.len() == 0 {
        Seq::empty()
    } else {
        sources[0].content() + concat_contents(sources.drop_first())
    }
}

/// The sum of the lengths of the contents of `sources`.
pub open spec fn total_length<S: MakeReader>(sources: Seq<S>) -> nat
    decreases sources.len(),
{
    if sources.len() == 0 {
        0
    } else {
        sources[0].content().len() + total_length(sources.drop_first())
    }
}

/// Whether every source of the list is faithful.
pub open spec fn all_faithful<S: MakeReader>(sources: Seq<S>) -> bool {
    forall|i: int| 0 <= i < sources.len() ==> (#[trigger] sources[i]).faithful()
}

/// Whether every source of the list is reliable.
pub open spec fn all_reliable<S: MakeReader>(sources: Seq<S>) -> bool {
    forall|i: int|
        0 <= i < sources.len() ==> (#[trigger] sources[i]).faithful() && sources[i].reliable()
}

/// How [`CatRead::read`] goes on after one read on the open stream.
#[derive(Debug, PartialEq, Eq)]
pub enum Step {
    /// The buffer is full: the call returns.
    Full,
    /// This many bytes came, and there is room for more: read again.
    Again(usize),
    /// The open stream is at its end: go on with the next source, or return if none is left.
    Advance,
    /// The read was interrupted: try once more.
    Retry,
    /// The read was interrupted once too often: the call fails.
    GiveUp,
    /// The read failed: the call fails with this description.
    Fail(String),
    /// The read claims more bytes than there was room for: the call fails.
    Overrun,
}

/// The step that follows a read into `room` free bytes that returned `outcome`, after
/// `interrupts` interrupted reads in the same call.
pub open spec fn step_of(room: usize, interrupts: u64, outcome: Result<usize, ReadError>) -> Step {
    match outcome {
        Ok(n) => if n > room {
            Step::Overrun
        } else if n == room {
            Step::Full
        } else if n == 0 {
            Step::Advance
        } else {
            Step::Again(n)
        },
        Err(ReadError::Interrupted) => if interrupts < MAX_INTERRUPTS {
            Step::Retry
        } else {
            Step::GiveUp
        },
        Err(ReadError::Failed(text)) => Step::Fail(text),
    }
}

/// Decides how [`CatRead::read`] goes on after a read into `room` free bytes of its buffer
/// that returned `outcome`, after `interrupts` interrupted reads in the same call.
pub fn next_step(room: usize, interrupts: u64, outcome: Result<usize, ReadError>) -> (step: Step)
    ensures
        step == step_of(room, interrupts, outcome),
{
    match outcome {
        Ok(n) => {
            if n > room {
                Step::Overrun
            } else if n == room {
                Step::Full
            } else if n == 0 {
                Step::Advance
            } else {
                Step::Again(n)
            }
        },
        Err(ReadError::Interrupted) => {
            if interrupts < MAX_INTERRUPTS {
                Step::Retry
            } else {
                Step::GiveUp
            }
        },
        Err(ReadError::Failed(text)) => Step::Fail(text),
    }
}

/// What opening a source gives to the one who asked for it: the stream, or the failure
/// as the error of a source that does not open.
pub fn opened<R>(outcome: Result<R, String>) -> (r: Result<R, TorrentError>)
    ensures
        r == match outcome {
            Ok(reader) => Ok::<R, TorrentError>(reader),
            Err(text) => Err::<R, TorrentError>(TorrentError::SourceOpenFailure(text)),
        },
{
    match outcome {
        Ok(reader) => Ok(reader),
        Err(text) => Err(TorrentError::SourceOpenFailure(text)),
    }
}

/// Reads a list of sources as one stream: each source is opened when the one before it
/// is at its end, and at most one is open at a time.
pub struct CatRead<S: MakeReader> {
    sources: Vec<S>,
    current: S::Reader,
}

impl<S: MakeReader> CatRead<S> {
    /// The bytes that are still to come: the rest of the open stream, then the contents
    /// of the sources that have not been opened.
    pub closed spec fn view(&self) -> Seq<u8> {
        self.current.remaining() + concat_contents(self.sources@)
    }

    /// Whether the open stream and every source still to be opened are faithful.
    pub closed spec fn faithful(&self) -> bool {
        self.current.faithful() && all_faithful(self.sources@)
    }

    /// Whether the open stream and every source still to be opened are reliable.
    pub closed spec fn reliable(&self) -> bool {
        self.current.faithful() && self.current.reliable() && all_reliable(self.sources@)
    }

    /// A reliable stream is faithful.
    pub proof fn lemma_reliable_is_faithful(&self)
        ensures
            self.reliable() ==> self.faithful(),
    {
    }

    /// A stream that delivers what is left of `initial` and then the contents of `sources`.
    pub fn new(initial: S::Reader, sources: Vec<S>) -> (cat: Self)
        ensures
            cat@ == initial.remaining() + concat_contents(sources@),
            cat.faithful() == (initial.faithful() && all_faithful(sources@)),
            cat.reliable() == (initial.faithful() && initial.reliable() && all_reliable(
                sources@,
            )),
    {
        CatRead { sources, current: initial }
    }

    /// Fills `buf` from the front of the stream, across source boundaries, and returns the
    /// number of bytes written: the length of `buf`, or less where the stream ends first.
    ///
    /// The result is `Ok(0)` only for an empty buffer or at the end of the stream. An
    /// interrupted read is tried again, up to [`MAX_INTERRUPTS`] times in one call; any
    /// other failure of a read, or of opening the next source, ends the call with an error.
    /// After an error the stream has lost some of its front: the bytes that were read
    /// before the failure and, where a source did not open, that source.
    pub fn read(&mut self, buf: &mut [u8]) -> (r: Result<usize, TorrentError>)
        ensures
            final(buf)@.len() == old(buf)@.len(),
            r matches Ok(n) ==> n <= old(buf)@.len(),
            r matches Err(e) ==> e is SourceOpenFailure || e is StreamReadFailure,
            old(buf)@.len() == 0 ==> r == Ok::<usize, TorrentError>(0) && *final(self) == *old(
                self,
            ),
            old(self).reliable() ==> r is Ok && final(self).reliable(),
            old(self).faithful() ==> {
                &&& final(self).faithful()
                &&& match r {
                    Ok(n) => {
                        &&& n == if old(buf)@.len() <= old(self)@.len() {
                            old(buf)@.len()
                        } else {
                            old(self)@.len()
                        }
                        &&& final(buf)@.take(n as int) == old(self)@.take(n as int)
                        &&& final(self)@ == old(self)@.skip(n as int)
                    },
                    Err(_) => exists|k: int|
                        0 <= k <= old(self)@.len() && final(self)@ == old(self)@.skip(k),
                }
            },
    {
        let capacity = buf.len();
        if capacity == 0 {
            return Ok(0);
        }
        let mut filled: usize = 0;
        let mut interrupts: u64 = 0;
        loop
            invariant
                filled < capacity == buf@.len(),
                buf@.len() == old(buf)@.len(),
                old(self).reliable() ==> self.reliable(),
                old(self).faithful() ==> {
                    &&& self.faithful()
                    &&& filled <= old(self)@.len()
                    &&& buf@.take(filled as int) == old(self)@.take(filled as int)
                    &&& self@ == old(self)@.skip(filled as int)
                },
            decreases self.sources.len(), capacity - filled, MAX_INTERRUPTS - interrupts,
        {
            let ghost before = buf@;
            let ghost stream = self@;
            let ghost current = self.current.remaining();
            let (head, tail) = buf.split_at_mut(filled);
            let outcome = self.current.read(tail);
            proof {
                assert(buf@.take(filled as int) == before.take(filled as int));
                assert(buf@.skip(filled as int) == tail@);
                if old(self).faithful() {
                    assert(stream.take(current.len() as int) == current);
                }
            }
            match next_step(capacity - filled, interrupts, outcome) {
                Step::Full => {
                    proof {
                        if old(self).faithful() {
                            lemma_filled_more(
                                old(self)@,
                                stream,
                                current,
                                buf@,
                                tail@,
                                filled as int,
                                capacity - filled,
                            );
                        }
                    }
                    return Ok(capacity);
                },
                Step::Again(n) => {
                    proof {
                        if old(self).faithful() {
                            lemma_filled_more(
                                old(self)@,
                                stream,
                                current,
                                buf@,
                                tail@,
                                filled as int,
                                n as int,
                            );
                        }
                    }
                    filled = filled + n;
                },
                Step::Advance => {
                    if self.sources.len() == 0 {
                        return Ok(filled);
                    }
                    let next = self.sources.remove(0);
                    match opened(next.make_reader()) {
                        Ok(reader) => {
                            self.current = reader;
                        },
                        Err(e) => {
                            proof {
                                if old(self).faithful() {
                                    let gone = filled + next.content().len();
                                    assert(stream =~= next.content() + concat_contents(
                                        self.sources@,
                                    ));
                                    assert(self@ =~= stream.skip(next.content().len() as int));
                                    assert(self@ =~= old(self)@.skip(gone));
                                }
                            }
                            return Err(e);
                        },
                    }
                },
                Step::Retry => {
                    interrupts = interrupts + 1;
                },
                Step::GiveUp => {
                    return Err(TorrentError::StreamReadFailure("interrupted".to_string()));
                },
                Step::Fail(text) => {
                    return Err(TorrentError::StreamReadFailure(text));
                },
                Step::Overrun => {
                    return Err(
                        TorrentError::StreamReadFailure("read past the buffer".to_string()),
                    );
                },
            }
        }
    }

    /// Reads the stream to its end, appends the bytes to `out`, and returns how many
    /// there were. The count is kept in a `usize`: a stream that is longer fails. After
    /// an error `out` has gained a front of the stream: what came before the call of
    /// [`read`](CatRead::read) that failed.
    pub fn read_to_end(&mut self, out: &mut Vec<u8>) -> (r: Result<usize, TorrentError>)
        ensures
            r matches Err(e) ==> e is SourceOpenFailure || e is StreamReadFailure,
            old(self).reliable() ==> final(self).reliable() && (r is Ok <==> old(self)@.len()
                <= usize::MAX),
            old(self).faithful() ==> {
                &&& final(self).faithful()
                &&& match r {
                    Ok(n) => {
                        &&& n == old(self)@.len()
                        &&& final(out)@ == old(out)@ + old(self)@
                        &&& final(self)@.len() == 0
                    },
                    Err(_) => exists|k: int|
                        0 <= k <= old(self)@.len() && final(out)@ == old(out)@ + old(
                            self,
                        )@.take(k),
                }
            },
    {
        let mut chunk: Vec<u8> = vec![0u8; READ_CHUNK];
        let mut count: usize = 0;
        loop
            invariant
                chunk.len() == READ_CHUNK,
                old(self).reliable() ==> self.reliable(),
                old(self).faithful() ==> {
                    &&& self.faithful()
                    &&& count <= old(self)@.len()
                    &&& self@ == old(self)@.skip(count as int)
                    &&& out@ == old(out)@ + old(self)@.take(count as int)
                },
            decreases usize::MAX - count,
        {
            let n = match self.read(chunk.as_mut_slice()) {
                Ok(n) => n,
                Err(e) => {
                    return Err(e);
                },
            };
            if n == 0 {
                return Ok(count);
            }
            if n > usize::MAX - count {
                return Err(TorrentError::StreamReadFailure("stream too long".to_string()));
            }
            out.extend_from_slice(slice_subrange(chunk.as_slice(), 0, n));
            count = count + n;
        }
    }
}

/// The stream of a list of sources has as many bytes as the sources hold together.
pub proof fn lemma_concat_length<S: MakeReader>(sources: Seq<S>)
    ensures
        concat_contents(sources).len() == total_length(sources),
    decreases sources.len(),
{
    if sources.len() > 0 {
        lemma_concat_length(sources.drop_first());
    }
}

/// The stream of two lists of sources, one after the other, is the stream of the first
/// followed by the stream of the second.
pub proof fn lemma_concat_append<S: MakeReader>(left: Seq<S>, right: Seq<S>)
    ensures
        concat_contents(left + right) == concat_contents(left) + concat_contents(right),
    decreases left.len(),
{
    if left.len() > 0 {
        lemma_concat_append(left.drop_first(), right);
        assert((left + right).drop_first() == left.drop_first() + right);
        assert(concat_contents(left + right) == left[0].content() + (concat_contents(
            left.drop_first(),
        ) + concat_contents(right)));
    }
}

/// The stream holds the bytes of each source in their order, behind those of the sources
/// before it: byte `i` of source `k` stands at the offset that the sources before `k`
/// fill, plus `i`.
pub proof fn lemma_concat_index<S: MakeReader>(sources: Seq<S>, k: int, i: int)
    requires
        0 <= k < sources.len(),
        0 <= i < sources[k].content().len(),
    ensures
        total_length(sources.take(k)) + i < concat_contents(sources).len(),
        concat_contents(sources)[total_length(sources.take(k)) + i] == sources[k].content()[i],
{
    let before = sources.take(k);
    let after = sources.skip(k);
    assert(sources == before + after);
    lemma_concat_append(before, after);
    lemma_concat_length(before);
}

/// A source without bytes adds nothing to the stream: what stands before it and what
/// stands behind it follow one another as if it were not there.
pub proof fn lemma_empty_source_skipped<S: MakeReader>(before: Seq<S>, empty: S, after: Seq<S>)
    requires
        empty.content().len() == 0,
    ensures
        concat_contents(before + seq![empty] + after) == concat_contents(before + after),
{
    lemma_concat_append(before + seq![empty], after);
    lemma_concat_append(before, seq![empty]);
    lemma_concat_append(before, after);
    assert(seq![empty].drop_first() == Seq::<S>::empty());
    assert(concat_contents(seq![empty]) == empty.content() + concat_contents(
        Seq::<S>::empty(),
    ));
}

/// After `got` more bytes from the front of `current` went to the buffer behind the first
/// `filled` bytes, the first `filled + got` bytes of the buffer are those of the stream.
proof fn lemma_filled_more(
    whole: Seq<u8>,
    stream: Seq<u8>,
    current: Seq<u8>,
    buf: Seq<u8>,
    tail: Seq<u8>,
    filled: int,
    got: int,
)
    requires
        0 <= filled <= whole.len(),
        stream == whole.skip(filled),
        0 <= got <= current.len(),
        current.len() <= stream.len(),
        current == stream.take(current.len() as int),
        filled + got <= buf.len(),
        buf.take(filled) == whole.take(filled),
        tail == buf.skip(filled),
        tail.take(got) == current.take(got),
    ensures
        filled + got <= whole.len(),
        buf.take(filled + got) == whole.take(filled + got),
        stream.skip(got) == whole.skip(filled + got),
{
    assert(buf.take(filled + got) =~= whole.take(filled + got)) by {
        assert forall|i: int| 0 <= i < filled + got implies buf[i] == whole[i] by {
            if i < filled {
                assert(whole[i] == whole.take(filled)[i]);
            } else {
                let j = i - filled;
                assert(current.take(got)[j] == current[j]);
            }
        }
    }
}

} // verus!
