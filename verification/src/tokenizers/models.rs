use crate::tokenizers::extractors::{clone_bytes, ExtraView, TokenExtractorExtra};
use vstd::prelude::*;

verus! {

/// Payload of every token kind other than `Word` and `Space`: the matched
/// substring, its half-open byte span in the input text, the owning
/// extractor's edition metadata, and the named capture groups of the match.
#[derive(Debug, PartialEq, Eq)]
pub struct TokenData {
    pub data: Vec<u8>,
    pub start: usize,
    pub end: usize,
    pub extra: TokenExtractorExtra,
    pub groups: Vec<(Vec<u8>, Vec<u8>)>,
}

/// Mathematical model of a [`TokenData`].
#[verifier::ext_equal]
pub ghost struct TokenDataView {
    pub data: Seq<u8>,
    pub start: int,
    pub end: int,
    pub extra: ExtraView,
    pub groups: Seq<(Seq<u8>, Seq<u8>)>,
}

impl View for TokenData {
    type V = TokenDataView;

    open spec fn view(&self) -> TokenDataView {
        TokenDataView {
            data: self.data@,
            start: self.start as int,
            end: self.end as int,
            extra: self.extra@,
            groups: self.groups.deep_view(),
        }
    }
}

impl DeepView for TokenData {
    type V = TokenDataView;

    open spec fn deep_view(&self) -> TokenDataView {
        self.view()
    }
}

/// Copy a capture-group list.
fn clone_groups(v: &Vec<(Vec<u8>, Vec<u8>)>) -> (r: Vec<(Vec<u8>, Vec<u8>)>)
    ensures
        r.deep_view() == v.deep_view(),
{
    let mut r: Vec<(Vec<u8>, Vec<u8>)> = Vec::new();
    let mut i: usize = 0;
    while i < v.len()
        invariant
            i <= v.len(),
            r@.len() == i,
            forall|j: int| 0 <= j < i ==> r@[j].deep_view() == v@[j].deep_view(),
        decreases v.len() - i,
    {
        let pair = (clone_bytes(&v[i].0), clone_bytes(&v[i].1));
        r.push(pair);
        i = i + 1;
        proof {
            assert(r@[i - 1].deep_view().0 =~= v@[i - 1].deep_view().0);
            assert(r@[i - 1].deep_view().1 =~= v@[i - 1].deep_view().1);
        }
    }
    proof {
        assert(r.deep_view() =~= v.deep_view());
    }
    r
}

impl Clone for TokenData {
    fn clone(&self) -> (r: Self)
        ensures
            r@ == self@,
    {
        TokenData {
            data: clone_bytes(&self.data),
            start: self.start,
            end: self.end,
            extra: self.extra.clone(),
            groups: clone_groups(&self.groups),
        }
    }
}

/// One element of the token stream produced by `tokenize`.
///
/// `Word` and `Space` are plain-text filler; every other kind was produced by
/// an extractor and carries a [`TokenData`] payload.
#[derive(Debug, PartialEq, Eq)]
pub enum Token {
    /// A run of non-space bytes that no extractor claimed.
    Word(Vec<u8>),
    /// A single space character that separated two words.
    Space,
    /// Text matching a citation pattern generated from the reporter dataset.
    Citation(TokenData),
    /// A word containing a section symbol.
    Section(TokenData),
    /// The word "supra", with or without surrounding punctuation.
    Supra(TokenData),
    /// The word "id." or "ibid.".
    Id(TokenData),
    /// A break between paragraphs.
    Paragraph(TokenData),
    /// One of the fixed citation stop words, such as "v" or "see".
    StopWord(TokenData),
}

/// Mathematical model of a [`Token`].
#[verifier::ext_equal]
pub ghost enum TokenView {
    Word(Seq<u8>),
    Space,
    Citation(TokenDataView),
    Section(TokenDataView),
    Supra(TokenDataView),
    Id(TokenDataView),
    Paragraph(TokenDataView),
    StopWord(TokenDataView),
}

impl View for Token {
    type V = TokenView;

    open spec fn view(&self) -> TokenView {
        match self {
            Token::Word(w) => TokenView::Word(w@),
            Token::Space => TokenView::Space,
            Token::Citation(d) => TokenView::Citation(d@),
            Token::Section(d) => TokenView::Section(d@),
            Token::Supra(d) => TokenView::Supra(d@),
            Token::Id(d) => TokenView::Id(d@),
            Token::Paragraph(d) => TokenView::Paragraph(d@),
            Token::StopWord(d) => TokenView::StopWord(d@),
        }
    }
}

impl DeepView for Token {
    type V = TokenView;

    open spec fn deep_view(&self) -> TokenView {
        self.view()
    }
}

impl TokenView {
    /// Whether this token kind is citation-relevant, i.e. carries a payload.
    pub open spec fn is_content(self) -> bool {
        !(self is Word || self is Space)
    }

    /// The payload of a citation-relevant token.
    pub open spec fn data_view(self) -> TokenDataView
        recommends
            self.is_content(),
    {
        match self {
            TokenView::Citation(d) => d,
            TokenView::Section(d) => d,
            TokenView::Supra(d) => d,
            TokenView::Id(d) => d,
            TokenView::Paragraph(d) => d,
            TokenView::StopWord(d) => d,
            TokenView::Word(_) => arbitrary(),
            TokenView::Space => arbitrary(),
        }
    }

    /// The bytes of input text this token stands for: its matched span for
    /// citation-relevant tokens, the word itself for `Word`, and the one
    /// separator byte a `Space` replaced.
    pub open spec fn text_view(self) -> Seq<u8> {
        match self {
            TokenView::Word(w) => w,
            TokenView::Space => seq![32u8],
            _ => self.data_view().data,
        }
    }
}

impl Clone for Token {
    fn clone(&self) -> (r: Self)
        ensures
            r@ == self@,
    {
        match self {
            Token::Word(w) => Token::Word(clone_bytes(w)),
            Token::Space => Token::Space,
            Token::Citation(d) => Token::Citation(d.clone()),
            Token::Section(d) => Token::Section(d.clone()),
            Token::Supra(d) => Token::Supra(d.clone()),
            Token::Id(d) => Token::Id(d.clone()),
            Token::Paragraph(d) => Token::Paragraph(d.clone()),
            Token::StopWord(d) => Token::StopWord(d.clone()),
        }
    }
}

impl Token {
    /// The payload of a citation-relevant token.
    ///
    /// `Word` and `Space` tokens have no payload, so they are excluded by
    /// precondition rather than by a runtime failure.
    fn data(&self) -> (r: &TokenData)
        requires
            self@.is_content(),
        ensures
            r@ == self@.data_view(),
    {
        match self {
            Token::Citation(d) => d,
            Token::Section(d) => d,
            Token::Supra(d) => d,
            Token::Id(d) => d,
            Token::Paragraph(d) => d,
            Token::StopWord(d) => d,
            Token::Word(_) => unreached(),
            Token::Space => unreached(),
        }
    }

    /// Start byte offset of a citation-relevant token's span.
    pub fn start(&self) -> (r: usize)
        requires
            self@.is_content(),
        ensures
            r == self@.data_view().start,
    {
        self.data().start
    }

    /// End byte offset (exclusive) of a citation-relevant token's span.
    pub fn end(&self) -> (r: usize)
        requires
            self@.is_content(),
        ensures
            r == self@.data_view().end,
    {
        self.data().end
    }

    /// Attempt to combine two tokens that matched the same logical citation.
    ///
    /// No merge rule is currently defined: the first match at a given start
    /// offset wins and exact duplicates are dropped by the overlap rule in
    /// `tokenize`, which therefore never needs to call this.
    pub fn merge(&self, _other: &Self) -> (r: Option<Self>)
        ensures
            r is None,
    {
        None
    }
}

/// The closed set of token kinds an extractor can be configured to emit.
#[derive(Clone, Copy, PartialEq, Eq, Structural)]
pub enum TokenFactories {
    Paragraph,
    Id,
    Supra,
    Citation,
    StopWord,
    Section,
}

/// Wrap a payload in the token kind this factory stands for.
pub open spec fn apply_factory(f: TokenFactories, d: TokenDataView) -> TokenView {
    match f {
        TokenFactories::Paragraph => TokenView::Paragraph(d),
        TokenFactories::Id => TokenView::Id(d),
        TokenFactories::Supra => TokenView::Supra(d),
        TokenFactories::Citation => TokenView::Citation(d),
        TokenFactories::Section => TokenView::Section(d),
        TokenFactories::StopWord => TokenView::StopWord(d),
    }
}

/// A strategy for turning a match payload into a token of a fixed kind.
pub trait TokenFactory {
    /// The token kind this factory emits.
    spec fn factory(&self) -> TokenFactories;

    /// Build the token of this factory's kind around `data`.
    fn create(&self, data: TokenData) -> (t: Token)
        ensures
            t@ == apply_factory(self.factory(), data@),
    ;
}

impl TokenFactory for TokenFactories {
    open spec fn factory(&self) -> TokenFactories {
        *self
    }

    fn create(&self, data: TokenData) -> (t: Token)
        ensures
            t@ == apply_factory(self.factory(), data@),
    {
        match self {
            TokenFactories::Paragraph => Token::Paragraph(data),
            TokenFactories::Id => Token::Id(data),
            TokenFactories::Supra => Token::Supra(data),
            TokenFactories::Citation => Token::Citation(data),
            TokenFactories::Section => Token::Section(data),
            TokenFactories::StopWord => Token::StopWord(data),
        }
    }
}

} // verus!
