use crate::tokenizers::models::Token;
use vstd::prelude::*;

verus! {

/// One piece of metadata the citation-assembly layer gathers around a
/// citation token: pin-cites, years, courts, party names and the like, each
/// an owned slice of the input text.
#[derive(Debug, Ord, PartialOrd, Eq, PartialEq, Hash, Clone)]
pub enum CitationMetadata {
    Parenthetical(Vec<u8>),
    PinCite(Vec<u8>),
    Year(Vec<u8>),
    Court(Vec<u8>),
    Plaintiff(Vec<u8>),
    Defendant(Vec<u8>),
    Extra(Vec<u8>),
    AntecedentGuess(Vec<u8>),
    Volume(Vec<u8>),
}

/// The token a citation was built from, its index in the full stream, the
/// span the citation covers, and the data gathered around it.
pub struct CitationSource {
    pub token: Token,
    pub index: usize,
    pub span_start: Option<usize>,
    pub span_end: Option<usize>,
    pub groups: Vec<(Vec<u8>, Vec<u8>)>,
    pub metadata: Vec<CitationMetadata>,
}

/// A citation record the out-of-scope assembly layer produces from the token
/// stream. This engine only defines the shape; building these records is the
/// consumer's job.
pub enum Citation {
    Resource { source: CitationSource, pin_cite: Option<Vec<u8>>, year: Option<Vec<u8>> },
    Law {
        source: CitationSource,
        publisher: Option<Vec<u8>>,
        day: Option<Vec<u8>>,
        month: Option<Vec<u8>>,
    },
    Journal { source: CitationSource },
    Case {
        source: CitationSource,
        pin_cite: Option<Vec<u8>>,
        year: Option<Vec<u8>>,
        court: Option<Vec<u8>>,
    },
    /// A standard, fully named citation: the kind that marks the first time a
    /// document is cited.
    FullCase {
        source: CitationSource,
        pin_cite: Option<Vec<u8>>,
        year: Option<Vec<u8>>,
        court: Option<Vec<u8>>,
        plaintiff: Option<Vec<u8>>,
        defendant: Option<Vec<u8>>,
        extra: Option<Vec<u8>>,
    },
    /// A short-form citation made after a full citation already appeared:
    /// it lacks a full case name and usually points at a different page.
    ShortCase {
        source: CitationSource,
        pin_cite: Option<Vec<u8>>,
        year: Option<Vec<u8>>,
        court: Option<Vec<u8>>,
        antecedent_guess: Option<Vec<u8>>,
    },
    /// A citation through "supra" to something above in the document.
    Supra {
        source: CitationSource,
        pin_cite: Option<Vec<u8>>,
        year: Option<Vec<u8>>,
        court: Option<Vec<u8>>,
        antecedent_guess: Option<Vec<u8>>,
        volume: Option<Vec<u8>>,
    },
    /// An "id." or "ibid." citation to the document referenced immediately
    /// before; only the pin-cite after the token carries information.
    Id {
        source: CitationSource,
        pin_cite: Option<Vec<u8>>,
        year: Option<Vec<u8>>,
        court: Option<Vec<u8>>,
        antecedent_guess: Option<Vec<u8>>,
        volume: Option<Vec<u8>>,
    },
    /// A recognized citation that fits no other kind.
    Unknown { source: CitationSource },
}

} // verus!
