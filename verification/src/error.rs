use vstd::prelude::*;

verus! {

/// Why a descriptor could not be produced.
#[derive(Debug, PartialEq, Eq)]
pub enum TorrentError {
    /// A source could not be opened when its turn came; the text describes the failure.
    SourceOpenFailure(String),
    /// Reading from an open source failed; the text describes the failure.
    StreamReadFailure(String),
    /// The number of bytes read differs from the sum of the declared file lengths.
    LengthMismatch,
    /// The number of digests differs from the number of pieces that the length calls for.
    PieceCountMismatch,
    /// A value of the descriptor cannot be written in the wire format.
    EncodingFailure,
}

impl TorrentError {
    /// The words that describe the error.
    pub open spec fn text(&self) -> Seq<char> {
        match self {
            TorrentError::SourceOpenFailure(text) => text@,
            TorrentError::StreamReadFailure(text) => text@,
            TorrentError::LengthMismatch => "Wrong length"@,
            TorrentError::PieceCountMismatch => "Wrong number of piece hashes"@,
            TorrentError::EncodingFailure => "Cannot encode the descriptor"@,
        }
    }

    /// A description of the error for a reader: the text of the failure where the error
    /// carries one, fixed words otherwise.
    pub fn describe(&self) -> (text: String)
        ensures
            text@ == self.text(),
    {
        match self {
            TorrentError::SourceOpenFailure(text) => text.clone(),
            TorrentError::StreamReadFailure(text) => text.clone(),
            TorrentError::LengthMismatch => "Wrong length".to_string(),
            TorrentError::PieceCountMismatch => "Wrong number of piece hashes".to_string(),
            TorrentError::EncodingFailure => "Cannot encode the descriptor".to_string(),
        }
    }
}

} // verus!
