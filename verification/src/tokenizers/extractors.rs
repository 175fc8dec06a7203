use crate::bytestrings::{
    bytes_contain, bytes_equal, contains_bytes, list_contains_bytes, str_bytes, subvec,
};
use crate::regexes::{
    id_regex, nonalphanum_boundaries_re, paragraph_regex, section_regex, section_symbol,
    short_cite_re, short_cite_spec, stop_word_regex, stop_words, stop_words_spec, supra_regex,
    ResolvedRegex,
};
use crate::tokenizers::models::{
    apply_factory, Token, TokenData, TokenDataView, TokenFactories, TokenFactory, TokenView,
};
use crate::EyeciteError;
use reporters_db::regexes::{RegexOrNested, RegexTemplate};
use std::collections::HashMap;
use vstd::prelude::*;
use vstd::string::StringSliceAdditionalSpecFns;

verus! {

/// A reporter edition's validity window and optional custom regex templates.
///
/// The engine carries this metadata through to the tokens it emits; it never
/// interprets the dates itself. Dates are kept as the dataset's ISO-8601
/// strings, encoded as UTF-8 bytes like every other payload in this crate.
#[derive(Debug, PartialEq, Eq)]
pub struct Edition {
    pub start: Option<Vec<u8>>,
    pub end: Option<Vec<u8>>,
    pub regexes: Option<Vec<Vec<u8>>>,
}

/// Mathematical model of an [`Edition`].
#[verifier::ext_equal]
pub ghost struct EditionView {
    pub start: Option<Seq<u8>>,
    pub end: Option<Seq<u8>>,
    pub regexes: Option<Seq<Seq<u8>>>,
}

impl View for Edition {
    type V = EditionView;

    open spec fn view(&self) -> EditionView {
        EditionView {
            start: match self.start {
                Some(s) => Some(s@),
                None => None,
            },
            end: match self.end {
                Some(s) => Some(s@),
                None => None,
            },
            regexes: match self.regexes {
                Some(rs) => Some(rs.deep_view()),
                None => None,
            },
        }
    }
}

impl DeepView for Edition {
    type V = EditionView;

    open spec fn deep_view(&self) -> EditionView {
        self.view()
    }
}

impl Clone for Edition {
    fn clone(&self) -> (r: Self)
        ensures
            r@ == self@,
    {
        Edition {
            start: match &self.start {
                Some(s) => Some(clone_bytes(s)),
                None => None,
            },
            end: match &self.end {
                Some(s) => Some(clone_bytes(s)),
                None => None,
            },
            regexes: match &self.regexes {
                Some(rs) => Some(clone_byte_lists(rs)),
                None => None,
            },
        }
    }
}

/// Copy a byte string.
pub fn clone_bytes(v: &Vec<u8>) -> (r: Vec<u8>)
    ensures
        r@ == v@,
{
    let mut r: Vec<u8> = Vec::new();
    let mut i: usize = 0;
    while i < v.len()
        invariant
            i <= v.len(),
            r@ == v@.subrange(0, i as int),
        decreases v.len() - i,
    {
        r.push(v[i]);
        i = i + 1;
        proof {
            assert(r@ =~~= v@.subrange(0, i as int));
        }
    }
    proof {
        assert(r@ =~~= v@);
    }
    r
}

/// Copy a list of byte strings.
pub fn clone_byte_lists(v: &Vec<Vec<u8>>) -> (r: Vec<Vec<u8>>)
    ensures
        r.deep_view() == v.deep_view(),
{
    let mut r: Vec<Vec<u8>> = Vec::new();
    let mut i: usize = 0;
    while i < v.len()
        invariant
            i <= v.len(),
            r@.len() == i,
            forall|j: int| 0 <= j < i ==> r@[j].deep_view() == v@[j].deep_view(),
        decreases v.len() - i,
    {
        r.push(clone_bytes(&v[i]));
        i = i + 1;
        proof {
            assert(r@[i - 1].deep_view() =~= v@[i - 1].deep_view());
        }
    }
    proof {
        assert(r.deep_view() =~= v.deep_view());
    }
    r
}

/// Edition metadata attached to every extractor: which exact editions and
/// which historical name variations produced its pattern, and whether the
/// pattern recognizes short-form citations.
#[derive(Debug, PartialEq, Eq)]
pub struct TokenExtractorExtra {
    pub exact_editions: Vec<Edition>,
    pub variation_editions: Vec<Edition>,
    pub short: bool,
}

/// Mathematical model of a [`TokenExtractorExtra`].
#[verifier::ext_equal]
pub ghost struct ExtraView {
    pub exact_editions: Seq<EditionView>,
    pub variation_editions: Seq<EditionView>,
    pub short: bool,
}

impl View for TokenExtractorExtra {
    type V = ExtraView;

    open spec fn view(&self) -> ExtraView {
        ExtraView {
            exact_editions: self.exact_editions.deep_view(),
            variation_editions: self.variation_editions.deep_view(),
            short: self.short,
        }
    }
}

impl DeepView for TokenExtractorExtra {
    type V = ExtraView;

    open spec fn deep_view(&self) -> ExtraView {
        self.view()
    }
}

/// Copy a list of editions.
fn clone_editions(v: &Vec<Edition>) -> (r: Vec<Edition>)
    ensures
        r.deep_view() == v.deep_view(),
{
    let mut r: Vec<Edition> = Vec::new();
    let mut i: usize = 0;
    while i < v.len()
        invariant
            i <= v.len(),
            r@.len() == i,
            forall|j: int| 0 <= j < i ==> r@[j].deep_view() == v@[j].deep_view(),
        decreases v.len() - i,
    {
        r.push(v[i].clone());
        i = i + 1;
    }
    proof {
        assert(r.deep_view() =~= v.deep_view());
    }
    r
}

impl Clone for TokenExtractorExtra {
    fn clone(&self) -> (r: Self)
        ensures
            r@ == self@,
    {
        TokenExtractorExtra {
            exact_editions: clone_editions(&self.exact_editions),
            variation_editions: clone_editions(&self.variation_editions),
            short: self.short,
        }
    }
}

impl TokenExtractorExtra {
    /// The metadata of an extractor that carries no edition information.
    pub fn empty() -> (r: TokenExtractorExtra)
        ensures
            r@ == (ExtraView { exact_editions: Seq::empty(), variation_editions: Seq::empty(), short: false }),
    {
        let r = TokenExtractorExtra { exact_editions: Vec::new(), variation_editions: Vec::new(), short: false };
        proof {
            assert(r@ =~~= ExtraView {
                exact_editions: Seq::<EditionView>::empty(),
                variation_editions: Seq::<EditionView>::empty(),
                short: false,
            });
        }
        r
    }
}

// ---------- Trusted view of the regex engine ----------

#[verifier::external_type_specification]
#[verifier::external_body]
pub struct ExRegex(regex::bytes::Regex);

/// The pattern text a compiled regex was built from.
pub uninterp spec fn regex_pattern_spec(re: regex::bytes::Regex) -> Seq<u8>;

/// The case-insensitivity flag a compiled regex was built with.
pub uninterp spec fn regex_ci_spec(re: regex::bytes::Regex) -> bool;

/// Whether `pattern` compiles as a regular expression under the given case
/// flag (which requires it to be valid UTF-8 text).
pub uninterp spec fn regex_compiles(pattern: Seq<u8>, ignore_case: bool) -> bool;

/// One raw capture: the span of the pattern's first capture group, if it
/// participated, and the name and span of every participating named group.
pub type RawCapture = (Option<(usize, usize)>, Vec<(Vec<u8>, usize, usize)>);

/// Ghost form of one raw capture.
pub type RawCaptureView = (Option<(usize, usize)>, Seq<(Seq<u8>, usize, usize)>);

/// Every capture a compiled pattern finds in a text, in match order. The
/// result is a function of the pattern, its case flag and the text alone.
pub uninterp spec fn caps_of(pattern: Seq<u8>, ignore_case: bool, text: Seq<u8>) -> Seq<
    RawCaptureView,
>;

/// Spans of a raw capture lie inside a text of length `n`.
pub open spec fn cap_wf(c: RawCaptureView, n: int) -> bool {
    &&& (c.0 matches Some(se) ==> se.0 <= se.1 && se.1 <= n)
    &&& forall|j: int|
        0 <= j < c.1.len() ==> (#[trigger] c.1[j]).1 <= c.1[j].2 && c.1[j].2 <= n
}

/// Relies on regex::bytes::RegexBuilder: `new(pattern).case_insensitive(ci).build()`
/// compiles the pattern text and returns `Ok` exactly when it is a valid
/// regular expression; the pattern bytes must be valid UTF-8 to reach the
/// builder at all, so invalid UTF-8 is reported as a failure too.
#[verifier::external_body]
fn build_regex(pattern: &Vec<u8>, ignore_case: bool) -> (r: Result<regex::bytes::Regex, String>)
    ensures
        (r is Ok) == regex_compiles(pattern@, ignore_case),
        r matches Ok(re) ==> regex_pattern_spec(re) == pattern@ && regex_ci_spec(re)
            == ignore_case,
{
    let s = match std::str::from_utf8(pattern.as_slice()) {
        Ok(s) => s,
        Err(e) => return Err(e.to_string()),
    };
    match regex::bytes::RegexBuilder::new(s).case_insensitive(ignore_case).build() {
        Ok(re) => Ok(re),
        Err(e) => Err(e.to_string()),
    }
}

/// Relies on regex::bytes::Regex::clone: a clone is the same compiled pattern.
#[verifier::external_body]
fn clone_regex(re: &regex::bytes::Regex) -> (r: regex::bytes::Regex)
    ensures
        regex_pattern_spec(r) == regex_pattern_spec(*re),
        regex_ci_spec(r) == regex_ci_spec(*re),
{
    re.clone()
}

/// Relies on regex::bytes::Regex::{captures_iter, capture_names},
/// Captures::{get, name} and Match::{start, end}: captures are produced in
/// match order, a `Match`'s start and end are byte offsets into the haystack
/// with `start <= end <= text.len()`, and the whole list is a function of the
/// compiled pattern, its case flag and the text alone.
#[verifier::external_body]
fn regex_captures(re: &regex::bytes::Regex, text: &Vec<u8>) -> (r: Vec<RawCapture>)
    ensures
        r.deep_view() == caps_of(regex_pattern_spec(*re), regex_ci_spec(*re), text@),
        forall|i: int| 0 <= i < r@.len() ==> cap_wf(#[trigger] r.deep_view()[i], text@.len() as int),
{
    let names: Vec<&str> = re.capture_names().flatten().collect();
    re.captures_iter(text.as_slice())
        .map(|c| {
            (
                c.get(1).map(|m| (m.start(), m.end())),
                names
                    .iter()
                    .filter_map(|n| c.name(n).map(|m| (n.as_bytes().to_vec(), m.start(), m.end())))
                    .collect(),
            )
        })
        .collect()
}

/// The upper-case form of an ASCII letter byte; any other byte is kept.
pub open spec fn upper_byte(b: u8) -> u8 {
    if 97 <= b <= 122 {
        (b - 32) as u8
    } else {
        b
    }
}

/// The text with every ASCII letter upper-cased.
pub open spec fn upper_bytes(s: Seq<u8>) -> Seq<u8> {
    s.map_values(|b: u8| upper_byte(b))
}

/// The text with its first byte upper-cased.
pub open spec fn capitalized_bytes(s: Seq<u8>) -> Seq<u8> {
    if s.len() == 0 {
        s
    } else {
        seq![upper_byte(s[0])] + s.skip(1)
    }
}

/// The distinct case variants a case-insensitive trigger string is
/// registered under: as written, capitalized, and fully upper-cased. The
/// automaton matches triggers byte-exactly while these extractors' regexes
/// ignore case, so without the variants a capitalized stop word would never
/// be surfaced.
pub open spec fn case_variants(s: Seq<u8>) -> Seq<Seq<u8>> {
    crate::tokenizers::dedup_append(
        Seq::empty(),
        seq![s, capitalized_bytes(s), upper_bytes(s)],
    )
}

/// The case variants of each string, string by string.
pub open spec fn case_variants_all(ss: Seq<Seq<u8>>) -> Seq<Seq<u8>>
    decreases ss.len(),
{
    if ss.len() == 0 {
        Seq::empty()
    } else {
        case_variants(ss[0]) + case_variants_all(ss.skip(1))
    }
}

/// The upper-case form of a byte string.
fn upper_vec(v: &Vec<u8>) -> (r: Vec<u8>)
    ensures
        r@ == upper_bytes(v@),
{
    let mut r: Vec<u8> = Vec::new();
    let mut i: usize = 0;
    while i < v.len()
        invariant
            i <= v@.len(),
            r@.len() == i,
            forall|j: int| 0 <= j < i ==> r@[j] == upper_byte(v@[j]),
        decreases v@.len() - i,
    {
        let b = v[i];
        if 97 <= b && b <= 122 {
            r.push(b - 32);
        } else {
            r.push(b);
        }
        i = i + 1;
    }
    proof {
        assert(r@ =~= upper_bytes(v@));
    }
    r
}

/// The capitalized form of a byte string.
fn capitalize_vec(v: &Vec<u8>) -> (r: Vec<u8>)
    ensures
        r@ == capitalized_bytes(v@),
{
    let mut r = clone_bytes(v);
    if r.len() > 0 {
        let b = r[0];
        if 97 <= b && b <= 122 {
            r.set(0, b - 32);
        }
    }
    proof {
        assert(r@ =~= capitalized_bytes(v@));
    }
    r
}

/// Expand each trigger string into its distinct case variants.
fn with_case_variants(ss: &Vec<Vec<u8>>) -> (r: Vec<Vec<u8>>)
    ensures
        r.deep_view() == case_variants_all(ss.deep_view()),
{
    let ghost ssv = ss.deep_view();
    let mut r: Vec<Vec<u8>> = Vec::new();
    let mut i: usize = 0;
    proof {
        assert(ssv.skip(0) =~= ssv);
        assert(r.deep_view() + case_variants_all(ssv) =~= case_variants_all(ssv));
    }
    while i < ss.len()
        invariant
            i <= ss@.len(),
            ssv == ss.deep_view(),
            ssv.len() == ss@.len(),
            r.deep_view() + case_variants_all(ssv.skip(i as int)) == case_variants_all(ssv),
        decreases ss@.len() - i,
    {
        proof {
            assert(ssv.skip(i as int)[0] == ssv[i as int]);
            assert(ssv.skip(i as int).skip(1) =~= ssv.skip(i + 1));
            assert(ssv[i as int] =~= ss@[i as int]@);
        }
        let s = &ss[i];
        let cap = capitalize_vec(s);
        let up = upper_vec(s);
        let mut vs: Vec<Vec<u8>> = Vec::new();
        vs.push(clone_bytes(s));
        proof {
            let three = seq![ssv[i as int], capitalized_bytes(ssv[i as int]), upper_bytes(ssv[i as int])];
            assert(crate::tokenizers::dedup_append(
                Seq::<Seq<u8>>::empty(),
                Seq::<Seq<u8>>::empty(),
            ) == Seq::<Seq<u8>>::empty());
            assert(three.take(1) =~= Seq::<Seq<u8>>::empty().push(three[0]));
            lemma_dedup_append_step(Seq::empty(), three[0]);
            assert(vs.deep_view() =~~= crate::tokenizers::dedup_append(
                Seq::empty(),
                three.take(1),
            ));
        }
        if !list_contains_bytes(&vs, &cap) {
            vs.push(clone_bytes(&cap));
        }
        proof {
            let three = seq![ssv[i as int], capitalized_bytes(ssv[i as int]), upper_bytes(ssv[i as int])];
            assert(three.take(2) =~= three.take(1).push(three[1]));
            lemma_dedup_append_step(three.take(1), three[1]);
            assert(vs.deep_view() =~~= crate::tokenizers::dedup_append(
                Seq::empty(),
                three.take(2),
            ));
        }
        if !list_contains_bytes(&vs, &up) {
            vs.push(clone_bytes(&up));
        }
        proof {
            let three = seq![ssv[i as int], capitalized_bytes(ssv[i as int]), upper_bytes(ssv[i as int])];
            assert(three.take(3) =~= three.take(2).push(three[2]));
            lemma_dedup_append_step(three.take(2), three[2]);
            assert(three.take(3) =~= three);
            assert(vs.deep_view() =~~= case_variants(ssv[i as int]));
        }
        let mut k: usize = 0;
        let ghost before = r.deep_view();
        while k < vs.len()
            invariant
                k <= vs@.len(),
                r.deep_view() == before + vs.deep_view().take(k as int),
            decreases vs@.len() - k,
        {
            let ghost b2 = r.deep_view();
            r.push(clone_bytes(&vs[k]));
            k = k + 1;
            proof {
                assert(r.deep_view()[r.deep_view().len() - 1] =~= vs.deep_view()[k - 1]);
                assert(r.deep_view() =~= b2.push(vs.deep_view()[k - 1]));
                assert(r.deep_view() =~= before + vs.deep_view().take(k as int));
            }
        }
        proof {
            assert(vs.deep_view().take(vs.deep_view().len() as int) =~= vs.deep_view());
            assert(r.deep_view() =~= before + case_variants(ssv[i as int]));
            assert(r.deep_view() + case_variants_all(ssv.skip(i + 1)) =~= case_variants_all(ssv));
        }
        i = i + 1;
    }
    proof {
        assert(ssv.skip(i as int) =~= Seq::<Seq<u8>>::empty());
        assert(case_variants_all(ssv.skip(i as int)) =~= Seq::<Seq<u8>>::empty());
        assert(r.deep_view() =~= case_variants_all(ssv));
    }
    r
}

/// One step of first-occurrence folding: appending one more string.
pub proof fn lemma_dedup_append_step(xs: Seq<Seq<u8>>, x: Seq<u8>)
    ensures
        crate::tokenizers::dedup_append(Seq::empty(), xs.push(x)) == (
        if crate::tokenizers::dedup_append(Seq::empty(), xs).contains(x) {
            crate::tokenizers::dedup_append(Seq::empty(), xs)
        } else {
            crate::tokenizers::dedup_append(Seq::empty(), xs).push(x)
        }),
{
    lemma_dedup_append_push(Seq::empty(), xs, x);
}

/// Folding `xs.push(x)` folds `xs` first and then offers `x` once.
pub proof fn lemma_dedup_append_push(acc: Seq<Seq<u8>>, xs: Seq<Seq<u8>>, x: Seq<u8>)
    ensures
        crate::tokenizers::dedup_append(acc, xs.push(x)) == (
        if crate::tokenizers::dedup_append(acc, xs).contains(x) {
            crate::tokenizers::dedup_append(acc, xs)
        } else {
            crate::tokenizers::dedup_append(acc, xs).push(x)
        }),
    decreases xs.len(),
{
    if xs.len() == 0 {
        assert(xs.push(x)[0] == x);
        assert(xs.push(x).skip(1) =~= Seq::<Seq<u8>>::empty());
        let acc2 = if acc.contains(x) {
            acc
        } else {
            acc.push(x)
        };
        assert(crate::tokenizers::dedup_append(acc2, Seq::<Seq<u8>>::empty()) == acc2);
    } else {
        assert(xs.push(x)[0] == xs[0]);
        assert(xs.push(x).skip(1) =~= xs.skip(1).push(x));
        let acc2 = if acc.contains(xs[0]) {
            acc
        } else {
            acc.push(xs[0])
        };
        assert(crate::tokenizers::dedup_append(acc, xs) == crate::tokenizers::dedup_append(
            acc2,
            xs.skip(1),
        ));
        lemma_dedup_append_push(acc2, xs.skip(1), x);
    }
}

// ---------- Matches ----------

/// A single match of an extractor's pattern: the span of the pattern's first
/// capture group and the participating named groups with their spans.
pub struct TokenMatch {
    pub start: usize,
    pub end: usize,
    pub groups: Vec<(Vec<u8>, usize, usize)>,
}

/// Mathematical model of a [`TokenMatch`].
#[verifier::ext_equal]
pub ghost struct TokenMatchView {
    pub start: usize,
    pub end: usize,
    pub groups: Seq<(Seq<u8>, usize, usize)>,
}

impl View for TokenMatch {
    type V = TokenMatchView;

    open spec fn view(&self) -> TokenMatchView {
        TokenMatchView { start: self.start, end: self.end, groups: self.groups.deep_view() }
    }
}

impl DeepView for TokenMatch {
    type V = TokenMatchView;

    open spec fn deep_view(&self) -> TokenMatchView {
        self.view()
    }
}

/// A match's spans lie inside a text of length `n`.
pub open spec fn match_bounds(m: TokenMatchView, n: int) -> bool {
    &&& m.start <= m.end
    &&& m.end <= n
    &&& forall|j: int|
        0 <= j < m.groups.len() ==> (#[trigger] m.groups[j]).1 <= m.groups[j].2 && m.groups[j].2
            <= n
}

/// The matches among a capture list: captures where the pattern's first
/// group participated, in order.
pub open spec fn caps_to_matches(cs: Seq<RawCaptureView>) -> Seq<TokenMatchView>
    decreases cs.len(),
{
    if cs.len() == 0 {
        Seq::empty()
    } else {
        let rest = caps_to_matches(cs.skip(1));
        match cs[0].0 {
            Some(se) => seq![
                TokenMatchView { start: se.0, end: se.1, groups: cs[0].1 },
            ] + rest,
            None => rest,
        }
    }
}

/// Copy a group-span list.
fn clone_group_spans(v: &Vec<(Vec<u8>, usize, usize)>) -> (r: Vec<(Vec<u8>, usize, usize)>)
    ensures
        r.deep_view() == v.deep_view(),
{
    let mut r: Vec<(Vec<u8>, usize, usize)> = Vec::new();
    let mut i: usize = 0;
    while i < v.len()
        invariant
            i <= v.len(),
            r@.len() == i,
            forall|j: int| 0 <= j < i ==> r@[j].deep_view() == v@[j].deep_view(),
        decreases v.len() - i,
    {
        let entry = (crate::bytestrings::subvec(&v[i].0, 0, v[i].0.len()), v[i].1, v[i].2);
        r.push(entry);
        i = i + 1;
        proof {
            assert(v@[i - 1].0@.subrange(0, v@[i - 1].0@.len() as int) =~= v@[i - 1].0@);
            assert(r@[i - 1].deep_view().0 =~= v@[i - 1].deep_view().0);
        }
    }
    proof {
        assert(r.deep_view() =~= v.deep_view());
    }
    r
}

// ---------- Extractors ----------

/// Mathematical model of a [`TokenExtractor`].
#[verifier::ext_equal]
pub ghost struct ExtractorView {
    pub pattern: Seq<u8>,
    pub factory: TokenFactories,
    pub extra: ExtraView,
    pub strings: Seq<Seq<u8>>,
    pub ignore_case: bool,
}

/// One compiled citation pattern: the regex, the kind of token it emits, the
/// edition metadata it attaches, the trigger strings the prefilter uses for
/// it, and its case flag. Built once and never mutated afterwards.
pub struct TokenExtractor {
    pub regex: ResolvedRegex,
    pub token_factory: TokenFactories,
    pub extra: TokenExtractorExtra,
    pub strings: Vec<Vec<u8>>,
    pub ignore_case: bool,
    built_regex: regex::bytes::Regex,
}

impl View for TokenExtractor {
    type V = ExtractorView;

    closed spec fn view(&self) -> ExtractorView {
        ExtractorView {
            pattern: self.regex@,
            factory: self.token_factory,
            extra: self.extra@,
            strings: self.strings.deep_view(),
            ignore_case: self.ignore_case,
        }
    }
}

impl DeepView for TokenExtractor {
    type V = ExtractorView;

    open spec fn deep_view(&self) -> ExtractorView {
        self.view()
    }
}

/// The token an extractor builds from one match over `text`.
pub open spec fn token_of_match(e: ExtractorView, m: TokenMatchView, text: Seq<u8>) -> TokenView {
    apply_factory(
        e.factory,
        TokenDataView {
            data: text.subrange(m.start as int, m.end as int),
            start: m.start as int,
            end: m.end as int,
            extra: e.extra,
            groups: m.groups.map_values(
                |g: (Seq<u8>, usize, usize)| (g.0, text.subrange(g.1 as int, g.2 as int)),
            ),
        },
    )
}

/// Every token an extractor produces over `text`, in match order.
pub open spec fn extractor_tokens(e: ExtractorView, text: Seq<u8>) -> Seq<TokenView> {
    caps_to_matches(caps_of(e.pattern, e.ignore_case, text)).map_values(
        |m: TokenMatchView| token_of_match(e, m, text),
    )
}

/// Every token a list of extractors produces over `text`, extractor by
/// extractor.
pub open spec fn extract_all(es: Seq<ExtractorView>, text: Seq<u8>) -> Seq<TokenView>
    decreases es.len(),
{
    if es.len() == 0 {
        Seq::empty()
    } else {
        extractor_tokens(es[0], text) + extract_all(es.skip(1), text)
    }
}

/// A token built from a bounded match is a well-formed raw match for `text`.
pub proof fn lemma_token_of_match_wf(e: ExtractorView, m: TokenMatchView, text: Seq<u8>)
    requires
        match_bounds(m, text.len() as int),
    ensures
        crate::tokenizers::match_wf(token_of_match(e, m, text), text),
{
    let t = token_of_match(e, m, text);
    assert(t.is_content());
    assert(t.data_view().start == m.start as int);
}

impl TokenExtractor {
    /// The compiled regex agrees with the declared pattern and case flag.
    pub closed spec fn wf(&self) -> bool {
        &&& regex_pattern_spec(self.built_regex) == self.regex@
        &&& regex_ci_spec(self.built_regex) == self.ignore_case
    }

    /// Compile an extractor. Fails exactly when the pattern is not a valid
    /// regular expression.
    pub fn new(
        regex: ResolvedRegex,
        token_factory: TokenFactories,
        ignore_case: bool,
        strings: Vec<Vec<u8>>,
        extra: TokenExtractorExtra,
    ) -> (r: Result<TokenExtractor, EyeciteError>)
        ensures
            (r is Ok) == regex_compiles(regex@, ignore_case),
            r matches Ok(e) ==> e.wf() && e@ == (ExtractorView {
                pattern: regex@,
                factory: token_factory,
                extra: extra@,
                strings: strings.deep_view(),
                ignore_case,
            }),
            r matches Err(err) ==> err is RegexError,
    {
        match build_regex(regex.value(), ignore_case) {
            Ok(built) => Ok(
                TokenExtractor {
                    regex,
                    token_factory,
                    extra,
                    strings,
                    ignore_case,
                    built_regex: built,
                },
            ),
            Err(message) => Err(EyeciteError::RegexError { message }),
        }
    }

    /// The trigger strings this extractor registered for the prefilter.
    pub fn strings_list(&self) -> (r: &Vec<Vec<u8>>)
        ensures
            r.deep_view() == self@.strings,
    {
        &self.strings
    }

    /// A copy of this extractor sharing no storage with it.
    pub fn duplicate(&self) -> (r: TokenExtractor)
        requires
            self.wf(),
        ensures
            r.wf(),
            r@ == self@,
    {
        let r = TokenExtractor {
            regex: ResolvedRegex::of(subvec(self.regex.value(), 0, self.regex.value().len())),
            token_factory: self.token_factory,
            extra: self.extra.clone(),
            strings: clone_byte_lists(&self.strings),
            ignore_case: self.ignore_case,
            built_regex: clone_regex(&self.built_regex),
        };
        proof {
            assert(self.regex@.subrange(0, self.regex@.len() as int) =~= self.regex@);
            assert(r@ =~~= self@);
        }
        r
    }

    /// Every match of this extractor's pattern in `text`, in match order.
    /// Matches in which the pattern's first capture group did not participate
    /// carry no span and are skipped.
    pub fn get_matches(&self, text: &Vec<u8>) -> (r: Vec<TokenMatch>)
        requires
            self.wf(),
        ensures
            r.deep_view() == caps_to_matches(caps_of(self@.pattern, self@.ignore_case, text@)),
            forall|i: int|
                0 <= i < r@.len() ==> match_bounds(#[trigger] r.deep_view()[i], text@.len() as int),
    {
        let caps = regex_captures(&self.built_regex, text);
        let ghost capsv = caps.deep_view();
        let mut r: Vec<TokenMatch> = Vec::new();
        let mut i: usize = 0;
        proof {
            assert(capsv.skip(0) =~= capsv);
            assert(r.deep_view() + caps_to_matches(capsv) =~= caps_to_matches(capsv));
        }
        while i < caps.len()
            invariant
                i <= caps@.len(),
                capsv == caps.deep_view(),
                capsv.len() == caps@.len(),
                forall|k: int| 0 <= k < capsv.len() ==> cap_wf(#[trigger] capsv[k], text@.len() as int),
                r.deep_view() + caps_to_matches(capsv.skip(i as int)) == caps_to_matches(capsv),
                forall|k: int|
                    0 <= k < r@.len() ==> match_bounds(
                        #[trigger] r.deep_view()[k],
                        text@.len() as int,
                    ),
            decreases caps@.len() - i,
        {
            let ghost before = r.deep_view();
            proof {
                assert(capsv.skip(i as int)[0] == capsv[i as int]);
                assert(capsv.skip(i as int).skip(1) =~= capsv.skip(i + 1));
            }
            match caps[i].0 {
                Some((s, e)) => {
                    let groups = clone_group_spans(&caps[i].1);
                    let m = TokenMatch { start: s, end: e, groups };
                    proof {
                        assert(m@ =~~= (TokenMatchView {
                            start: capsv[i as int].0->Some_0.0,
                            end: capsv[i as int].0->Some_0.1,
                            groups: capsv[i as int].1,
                        }));
                    }
                    r.push(m);
                    proof {
                        assert(r.deep_view() =~= before.push(m@));
                        assert(r.deep_view() + caps_to_matches(capsv.skip(i + 1))
                            =~= caps_to_matches(capsv));
                    }
                },
                None => {
                    proof {
                        assert(r.deep_view() + caps_to_matches(capsv.skip(i + 1))
                            =~= caps_to_matches(capsv));
                    }
                },
            }
            i = i + 1;
        }
        proof {
            assert(capsv.skip(i as int) =~= Seq::<RawCaptureView>::empty());
            assert(r.deep_view() =~= caps_to_matches(capsv));
        }
        r
    }

    /// Build the token for one match: slice the matched span and each group's
    /// span out of `text` and wrap them in this extractor's token kind.
    pub fn get_token(&self, token_match: TokenMatch, text: &Vec<u8>) -> (t: Token)
        requires
            match_bounds(token_match@, text@.len() as int),
        ensures
            t@ == token_of_match(self@, token_match@, text@),
            t@.is_content(),
    {
        let data = subvec(text, token_match.start, token_match.end);
        let mut groups: Vec<(Vec<u8>, Vec<u8>)> = Vec::new();
        let mut i: usize = 0;
        let ghost target = token_match@.groups.map_values(
            |g: (Seq<u8>, usize, usize)| (g.0, text@.subrange(g.1 as int, g.2 as int)),
        );
        while i < token_match.groups.len()
            invariant
                i <= token_match.groups@.len(),
                match_bounds(token_match@, text@.len() as int),
                target == token_match@.groups.map_values(
                    |g: (Seq<u8>, usize, usize)| (g.0, text@.subrange(g.1 as int, g.2 as int)),
                ),
                groups@.len() == i,
                forall|j: int| 0 <= j < i ==> groups.deep_view()[j] == target[j],
            decreases token_match.groups@.len() - i,
        {
            let g = &token_match.groups[i];
            proof {
                assert((token_match@.groups[i as int]).1 == token_match.groups@[i as int].1);
                assert((token_match@.groups[i as int]).2 == token_match.groups@[i as int].2);
            }
            let name = subvec(&g.0, 0, g.0.len());
            let value = subvec(text, g.1, g.2);
            groups.push((name, value));
            i = i + 1;
            proof {
                assert(token_match@.groups[i - 1].0.subrange(
                    0,
                    token_match@.groups[i - 1].0.len() as int,
                ) =~= token_match@.groups[i - 1].0);
                assert(groups.deep_view()[i - 1] =~~= target[i - 1]);
            }
        }
        let token_data = TokenData {
            data,
            start: token_match.start,
            end: token_match.end,
            extra: self.extra.clone(),
            groups,
        };
        proof {
            assert(groups.deep_view() =~= target);
            assert(token_data@ =~~= (TokenDataView {
                data: text@.subrange(token_match@.start as int, token_match@.end as int),
                start: token_match@.start as int,
                end: token_match@.end as int,
                extra: self@.extra,
                groups: target,
            }));
        }
        let t = self.token_factory.create(token_data);
        t
    }
}

// ---------- Trusted view of the reference dataset ----------

/// One reporter of the reference dataset, reduced to the fields this engine
/// reads: its editions by abbreviation, and its historical name variations
/// as (variation, canonical abbreviation) pairs.
pub struct ReporterEntry {
    pub editions: Vec<(Vec<u8>, Edition)>,
    pub variations: Vec<(Vec<u8>, Vec<u8>)>,
}

/// Mathematical model of a [`ReporterEntry`].
#[verifier::ext_equal]
pub ghost struct ReporterEntryView {
    pub editions: Seq<(Seq<u8>, EditionView)>,
    pub variations: Seq<(Seq<u8>, Seq<u8>)>,
}

impl View for ReporterEntry {
    type V = ReporterEntryView;

    open spec fn view(&self) -> ReporterEntryView {
        ReporterEntryView {
            editions: self.editions.deep_view(),
            variations: self.variations.deep_view(),
        }
    }
}

impl DeepView for ReporterEntry {
    type V = ReporterEntryView;

    open spec fn deep_view(&self) -> ReporterEntryView {
        self.view()
    }
}

#[verifier::external_type_specification]
#[verifier::external_body]
pub struct ExReporter(reporters_db::reporters::Reporter);

/// Relies on reporters_db::reporters::reporters: every reporter of the
/// compiled-in dataset, in its iteration order. Nothing is promised about
/// the dataset's contents.
#[verifier::external_body]
fn load_reporter_list() -> Vec<reporters_db::reporters::Reporter> {
    reporters_db::reporters::reporters()
        .entries()
        .flat_map(|(_key, list)| list.iter().cloned())
        .collect()
}

/// Relies on the generated Reporter and Edition types of reporters_db:
/// copies one reporter's editions and name variations into plain values.
#[verifier::external_body]
fn convert_reporter(rep: &reporters_db::reporters::Reporter) -> ReporterEntry {
    ReporterEntry {
        editions: rep.editions.entries().map(|(n, e)| (n.as_bytes().to_vec(), Edition {
            start: e.start.map(|s| s.as_bytes().to_vec()),
            end: e.end.map(|s| s.as_bytes().to_vec()),
            regexes: e.regexes.map(|rs| rs.iter().map(|x| x.as_bytes().to_vec()).collect()),
        })).collect(),
        variations: rep.variations.map(|m| m.entries().map(
            |(k, v)| (k.as_bytes().to_vec(), v.as_bytes().to_vec()),
        ).collect()).unwrap_or_default(),
    }
}

// ---------- Trusted view of the template machinery ----------

/// Relies on reporters_db::regexes::{raw_regexes, RegexOrNested::add,
/// RegexTemplate::of} and reporters_db::utils::process_variables: loads the
/// dataset's template variables, adds the given `full_cite` and `page`
/// templates into their nested slots, then flattens and resolves the
/// variables. Returns `None` when either slot is missing or not nested, or a
/// template is not UTF-8 text. The pairs come out of a hash map, so their
/// order is arbitrary, but the keys are distinct.
#[verifier::external_body]
fn load_regex_variables(full_cite: &Vec<u8>, page: &Vec<u8>) -> (r: Option<
    Vec<(Vec<u8>, Vec<u8>)>,
>)
    ensures
        r matches Some(v) ==> forall|i: int, j: int|
            0 <= i < j < v@.len() ==> v.deep_view()[i].0 != v.deep_view()[j].0,
{
    let fc = std::str::from_utf8(full_cite.as_slice()).ok()?;
    let pg = std::str::from_utf8(page.as_slice()).ok()?;
    let mut raw = reporters_db::regexes::raw_regexes();
    match raw.get_mut("full_cite") {
        Some(e) if matches!(e, RegexOrNested::Nested(_)) => e.add("", RegexTemplate::of(fc)),
        _ => return None,
    }
    match raw.get_mut("page") {
        Some(e) if matches!(e, RegexOrNested::Nested(_)) => e.add("", RegexTemplate::of(pg)),
        _ => return None,
    }
    Some(reporters_db::utils::process_variables(raw).into_iter().map(
        |(k, v)| (k.into_bytes(), String::from(v).into_bytes()),
    ).collect())
}

/// The variable map a pair list stands for; a later pair wins its key.
pub open spec fn pairs_map(v: Seq<(Seq<u8>, Seq<u8>)>) -> Map<Seq<u8>, Seq<u8>>
    decreases v.len(),
{
    if v.len() == 0 {
        Map::empty()
    } else {
        pairs_map(v.drop_last()).insert(v.last().0, v.last().1)
    }
}

/// What repeated template substitution of `template` under a variable map
/// returns.
pub uninterp spec fn substituted(template: Seq<u8>, vars: Map<Seq<u8>, Seq<u8>>) -> Seq<u8>;

/// Relies on reporters_db::utils::recursive_substitute and
/// RegexTemplate::{of, resolve}: substitutes `$name` placeholders from the
/// variable map repeatedly, up to that crate's fixed depth, and returns the
/// result, a function of the template and the map alone. Templates and
/// variables are UTF-8 text.
#[verifier::external_body]
fn substitute_template(template: &Vec<u8>, vars: &Vec<(Vec<u8>, Vec<u8>)>) -> (r: Vec<u8>)
    ensures
        r@ == substituted(template@, pairs_map(vars.deep_view())),
{
    let map = vars.iter().map(|(k, v)| (
        String::from_utf8_lossy(k).into_owned(),
        RegexTemplate::of(String::from_utf8_lossy(v).into_owned()),
    )).collect();
    let t = RegexTemplate::of(String::from_utf8_lossy(template).into_owned());
    String::from(reporters_db::utils::recursive_substitute(t, &map)).into_bytes()
}

/// What one substitution pass replacing `$name` by `value` returns.
pub uninterp spec fn resolved_once(template: Seq<u8>, name: Seq<u8>, value: Seq<u8>) -> Seq<u8>;

/// Relies on reporters_db::regexes::RegexTemplate::{of, resolve}: one
/// substitution pass over the template with a single variable, a function of
/// its three inputs alone.
#[verifier::external_body]
fn resolve_template_var(template: &Vec<u8>, name: &Vec<u8>, value: &Vec<u8>) -> (r: Vec<u8>)
    ensures
        r@ == resolved_once(template@, name@, value@),
{
    let mut map = HashMap::new();
    map.insert(
        String::from_utf8_lossy(name).into_owned(),
        RegexTemplate::of(String::from_utf8_lossy(value).into_owned()),
    );
    String::from(RegexTemplate::of(String::from_utf8_lossy(template).into_owned()).resolve(&map))
        .into_bytes()
}

/// A regular-expression meta character: one of the bytes regex::escape puts
/// a backslash before. No meta character is outside ASCII, so multi-byte
/// UTF-8 sequences never hold one.
pub open spec fn is_meta_byte(b: u8) -> bool {
    b == 92 || b == 46 || b == 43 || b == 42 || b == 63 || b == 40 || b == 41 || b == 124 || b
        == 91 || b == 93 || b == 123 || b == 125 || b == 94 || b == 36 || b == 35 || b == 38 || b
        == 45 || b == 126
}

/// The text with a backslash put before every meta character: on UTF-8 text
/// this is what regex::escape returns.
pub open spec fn regex_escaped(s: Seq<u8>) -> Seq<u8>
    decreases s.len(),
{
    if s.len() == 0 {
        Seq::empty()
    } else if is_meta_byte(s[0]) {
        seq![92u8, s[0]] + regex_escaped(s.skip(1))
    } else {
        seq![s[0]] + regex_escaped(s.skip(1))
    }
}

/// Escape a byte string for literal use inside a regular expression.
fn escape_regex_text(s: &Vec<u8>) -> (r: Vec<u8>)
    ensures
        r@ == regex_escaped(s@),
{
    let mut r: Vec<u8> = Vec::new();
    let mut i: usize = 0;
    proof {
        assert(s@.skip(0) =~= s@);
        assert(r@ + regex_escaped(s@) =~= regex_escaped(s@));
    }
    while i < s.len()
        invariant
            i <= s@.len(),
            r@ + regex_escaped(s@.skip(i as int)) == regex_escaped(s@),
        decreases s@.len() - i,
    {
        let b = s[i];
        proof {
            assert(s@.skip(i as int)[0] == s@[i as int]);
            assert(s@.skip(i as int).skip(1) =~= s@.skip(i + 1));
        }
        if b == 92 || b == 46 || b == 43 || b == 42 || b == 63 || b == 40 || b == 41 || b == 124
            || b == 91 || b == 93 || b == 123 || b == 125 || b == 94 || b == 36 || b == 35 || b
            == 38 || b == 45 || b == 126 {
            r.push(92);
        }
        r.push(b);
        i = i + 1;
        proof {
            assert(r@ + regex_escaped(s@.skip(i as int)) =~= regex_escaped(s@));
        }
    }
    proof {
        assert(s@.skip(i as int) =~= Seq::<u8>::empty());
        assert(r@ =~= regex_escaped(s@));
    }
    r
}

// ---------- Template resolution checks ----------

/// An ASCII word byte: a letter, a digit or an underscore.
pub open spec fn is_word_byte(b: u8) -> bool {
    (48 <= b <= 57) || (65 <= b <= 90) || (97 <= b <= 122) || b == 95
}

/// Whether the text still holds a `$name` template placeholder.
pub open spec fn has_placeholder(s: Seq<u8>) -> bool {
    exists|i: int| 0 <= i < s.len() - 1 && s[i] == 36u8 && is_word_byte(s[#[trigger] (i + 1)])
}

/// Decide `has_placeholder` for a concrete byte string.
fn contains_placeholder(v: &Vec<u8>) -> (r: bool)
    ensures
        r == has_placeholder(v@),
{
    let n = v.len();
    if n == 0 {
        return false;
    }
    let mut i: usize = 0;
    while i + 1 < n
        invariant
            n == v@.len(),
            0 < n,
            i < n,
            forall|j: int| 0 <= j < i ==> !(v@[j] == 36u8 && is_word_byte(v@[#[trigger] (j + 1)])),
        decreases v.len() - i,
    {
        let b = v[i];
        let c = v[i + 1];
        if b == 36 && ((48 <= c && c <= 57) || (65 <= c && c <= 90) || (97 <= c && c <= 122) || c
            == 95) {
            return true;
        }
        i = i + 1;
    }
    false
}

/// The escaped edition names joined into a regex alternation.
pub open spec fn alternation_rest(names: Seq<Seq<u8>>) -> Seq<u8>
    decreases names.len(),
{
    if names.len() == 0 {
        Seq::empty()
    } else {
        seq![124u8] + regex_escaped(names[0]) + alternation_rest(names.skip(1))
    }
}

pub open spec fn escaped_alternation(names: Seq<Seq<u8>>) -> Seq<u8> {
    if names.len() == 0 {
        Seq::empty()
    } else {
        regex_escaped(names[0]) + alternation_rest(names.skip(1))
    }
}

/// Substitute the `$edition` placeholder with the alternation of the escaped
/// edition names, and demand that nothing is left unresolved: the edition is
/// the last thing to resolve.
fn substitute_edition(template: &Vec<u8>, names: &Vec<Vec<u8>>) -> (r: Result<
    Vec<u8>,
    EyeciteError,
>)
    requires
        names@.len() >= 1,
    ensures
        (r is Ok) == !has_placeholder(
            resolved_once(
                template@,
                "edition".spec_bytes(),
                escaped_alternation(names.deep_view()),
            ),
        ),
        r matches Ok(v) ==> v@ == resolved_once(
            template@,
            "edition".spec_bytes(),
            escaped_alternation(names.deep_view()),
        ),
        r matches Err(e) ==> e is TemplateError,
{
    let ghost namesv = names.deep_view();
    let mut joined = escape_regex_text(&names[0]);
    let mut i: usize = 1;
    proof {
        assert(namesv.skip(0) =~= namesv);
        assert(namesv[0] =~= names@[0]@);
        assert(joined@ + alternation_rest(namesv.skip(1)) == escaped_alternation(namesv)
            || namesv.skip(1).len() == 0);
    }
    while i < names.len()
        invariant
            1 <= i <= names@.len(),
            namesv == names.deep_view(),
            namesv.len() == names@.len(),
            joined@ + alternation_rest(namesv.skip(i as int)) == escaped_alternation(namesv),
        decreases names@.len() - i,
    {
        proof {
            assert(namesv.skip(i as int)[0] == namesv[i as int]);
            assert(namesv.skip(i as int).skip(1) =~= namesv.skip(i + 1));
            assert(namesv[i as int] =~= names@[i as int]@);
        }
        joined.push(124);
        let esc = escape_regex_text(&names[i]);
        crate::bytestrings::extend_bytes(&mut joined, &esc);
        i = i + 1;
        proof {
            assert(joined@ + alternation_rest(namesv.skip(i as int)) =~= escaped_alternation(
                namesv,
            ));
        }
    }
    proof {
        assert(namesv.skip(i as int) =~= Seq::<Seq<u8>>::empty());
        assert(alternation_rest(namesv.skip(i as int)) =~= Seq::<u8>::empty());
        assert(joined@ =~= escaped_alternation(namesv));
    }
    let name = str_bytes("edition");
    let resolved = resolve_template_var(template, &name, &joined);
    if contains_placeholder(&resolved) {
        Err(
            EyeciteError::TemplateError {
                message: "a template placeholder other than the edition is left unresolved".to_owned(),
            },
        )
    } else {
        Ok(resolved)
    }
}

// ---------- The extractor registry ----------

/// One registry slot: a generated pattern and the edition metadata and
/// trigger strings of every edition that generated it.
struct RegistryEntry {
    regex: Vec<u8>,
    editions: Vec<Edition>,
    variations: Vec<Edition>,
    strings: Vec<Vec<u8>>,
    short: bool,
}

/// Mathematical model of a [`RegistryEntry`].
#[verifier::ext_equal]
pub ghost struct RegistryEntryView {
    pub regex: Seq<u8>,
    pub editions: Seq<EditionView>,
    pub variations: Seq<EditionView>,
    pub strings: Seq<Seq<u8>>,
    pub short: bool,
}

impl View for RegistryEntry {
    type V = RegistryEntryView;

    closed spec fn view(&self) -> RegistryEntryView {
        RegistryEntryView {
            regex: self.regex@,
            editions: self.editions.deep_view(),
            variations: self.variations.deep_view(),
            strings: self.strings.deep_view(),
            short: self.short,
        }
    }
}

impl DeepView for RegistryEntry {
    type V = RegistryEntryView;

    open spec fn deep_view(&self) -> RegistryEntryView {
        self.view()
    }
}

/// A fresh registry slot for a pattern nobody generated before.
pub open spec fn empty_entry(regex: Seq<u8>) -> RegistryEntryView {
    RegistryEntryView {
        regex,
        editions: Seq::empty(),
        variations: Seq::empty(),
        strings: Seq::empty(),
        short: false,
    }
}

/// A registry slot after one more edition registers its pattern: the short
/// flag takes the newest registration's value, the edition joins the exact
/// or variation list, and when the pattern literally contains the escaped
/// first name, the names join the slot's trigger strings (first occurrences
/// only).
pub open spec fn updated_entry(
    e: RegistryEntryView,
    ed: EditionView,
    names: Seq<Seq<u8>>,
    is_short: bool,
    exact: bool,
) -> RegistryEntryView {
    RegistryEntryView {
        regex: e.regex,
        editions: if exact {
            e.editions.push(ed)
        } else {
            e.editions
        },
        variations: if exact {
            e.variations
        } else {
            e.variations.push(ed)
        },
        strings: if contains_bytes(e.regex, regex_escaped(names[0])) {
            crate::tokenizers::dedup_append(e.strings, names)
        } else {
            e.strings
        },
        short: is_short,
    }
}

/// The first slot holding this pattern text, or the registry's length.
pub open spec fn find_entry(rs: Seq<RegistryEntryView>, regex: Seq<u8>) -> int
    decreases rs.len(),
{
    if rs.len() == 0 {
        0
    } else if rs[0].regex == regex {
        0
    } else {
        1 + find_entry(rs.skip(1), regex)
    }
}

proof fn lemma_find_entry(rs: Seq<RegistryEntryView>, regex: Seq<u8>)
    ensures
        0 <= find_entry(rs, regex) <= rs.len(),
        forall|j: int| 0 <= j < find_entry(rs, regex) ==> (#[trigger] rs[j]).regex != regex,
        find_entry(rs, regex) < rs.len() ==> rs[find_entry(rs, regex)].regex == regex,
    decreases rs.len(),
{
    if rs.len() > 0 && rs[0].regex != regex {
        lemma_find_entry(rs.skip(1), regex);
        assert(forall|j: int| 1 <= j < rs.len() ==> rs[j] == rs.skip(1)[j - 1]);
    }
}

/// The registry after recording one generated pattern: the slot already
/// keyed by the pattern text is updated, or a fresh slot is appended and
/// updated.
pub open spec fn add_regex_spec(
    rs: Seq<RegistryEntryView>,
    names: Seq<Seq<u8>>,
    ed: EditionView,
    regex: Seq<u8>,
    is_short: bool,
    exact: bool,
) -> Seq<RegistryEntryView> {
    let f = find_entry(rs, regex);
    let base = if f < rs.len() {
        rs
    } else {
        rs.push(empty_entry(regex))
    };
    base.update(f, updated_entry(base[f], ed, names, is_short, exact))
}

/// Record a generated pattern in the registry, merging with an existing slot
/// that holds the identical pattern text. The edition joins the slot's exact
/// or variation list as `exact` says; when the pattern literally contains the
/// escaped first name, all the names join the slot's trigger strings.
fn _add_regex(
    result: &mut Vec<RegistryEntry>,
    names: &Vec<Vec<u8>>,
    edition: &Edition,
    regex: Vec<u8>,
    is_short: bool,
    exact: bool,
)
    requires
        names@.len() >= 1,
    ensures
        final(result).deep_view() == add_regex_spec(
            old(result).deep_view(),
            names.deep_view(),
            edition@,
            regex@,
            is_short,
            exact,
        ),
{
    let ghost rsv = result.deep_view();
    let ghost namesv = names.deep_view();
    let mut found: usize = result.len();
    let mut k: usize = 0;
    while k < result.len()
        invariant
            k <= result@.len(),
            result.deep_view() == rsv,
            rsv.len() == result@.len(),
            found == result@.len() || found < k,
            found == result@.len() ==> forall|j: int|
                0 <= j < k ==> (#[trigger] rsv[j]).regex != regex@,
            found < result@.len() ==> rsv[found as int].regex == regex@ && forall|j: int|
                0 <= j < found ==> (#[trigger] rsv[j]).regex != regex@,
        decreases result.len() - k,
    {
        if found == result.len() {
            proof {
                assert(rsv[k as int].regex =~= result@[k as int].regex@);
            }
            if bytes_equal(&result[k].regex, &regex) {
                found = k;
            }
        }
        k = k + 1;
    }
    proof {
        lemma_find_entry(rsv, regex@);
        let f = find_entry(rsv, regex@);
        assert(found as int == f) by {
            if (f as int) < found as int {
                if found == result@.len() {
                    assert(rsv[f].regex != regex@);
                } else {
                    assert(rsv[f].regex != regex@);
                }
            }
            if (found as int) < f {
                assert(rsv[found as int].regex != regex@);
            }
        }
    }
    let ghost basev = if (found as int) < rsv.len() {
        rsv
    } else {
        rsv.push(empty_entry(regex@))
    };
    if found == result.len() {
        result.push(
            RegistryEntry {
                regex,
                editions: Vec::new(),
                variations: Vec::new(),
                strings: Vec::new(),
                short: false,
            },
        );
        proof {
            assert(result.deep_view() =~~= basev);
        }
    } else {
        proof {
            assert(result.deep_view() =~~= basev);
        }
    }
    let ghost e0 = basev[found as int];
    let ghost baseq = result@;
    proof {
        assert(baseq.len() == basev.len());
        assert(forall|j: int| 0 <= j < baseq.len() ==> (#[trigger] baseq[j])@ == basev[j]);
    }
    let mut entry = result.remove(found);
    proof {
        assert(entry@ == e0);
    }
    entry.short = is_short;
    let ghost eds0 = entry.editions.deep_view();
    if exact {
        entry.editions.push(edition.clone());
        proof {
            assert(entry.editions.deep_view() =~~= eds0.push(edition@));
        }
    } else {
        entry.variations.push(edition.clone());
        proof {
            assert(entry.variations.deep_view() =~~= e0.variations.push(edition@));
        }
    }
    let esc = escape_regex_text(&names[0]);
    proof {
        assert(namesv[0] =~= names@[0]@);
    }
    if bytes_contain(&entry.regex, &esc) {
        let ghost s0 = entry.strings.deep_view();
        let mut si: usize = 0;
        proof {
            assert(namesv.skip(0) =~= namesv);
        }
        while si < names.len()
            invariant
                si <= names@.len(),
                namesv == names.deep_view(),
                namesv.len() == names@.len(),
                entry@.regex == e0.regex,
                entry@.short == is_short,
                entry@.editions == (if exact {
                    e0.editions.push(edition@)
                } else {
                    e0.editions
                }),
                entry@.variations == (if exact {
                    e0.variations
                } else {
                    e0.variations.push(edition@)
                }),
                crate::tokenizers::dedup_append(
                    entry.strings.deep_view(),
                    namesv.skip(si as int),
                ) == crate::tokenizers::dedup_append(s0, namesv),
            decreases names.len() - si,
        {
            proof {
                assert(namesv.skip(si as int)[0] == namesv[si as int]);
                assert(namesv.skip(si as int).skip(1) =~= namesv.skip(si + 1));
                assert(namesv[si as int] =~= names@[si as int]@);
            }
            let ghost before = entry.strings.deep_view();
            if !list_contains_bytes(&entry.strings, &names[si]) {
                entry.strings.push(clone_bytes(&names[si]));
                proof {
                    assert(entry.strings.deep_view() =~~= before.push(namesv[si as int]));
                }
            }
            si = si + 1;
        }
        proof {
            assert(namesv.skip(si as int) =~= Seq::<Seq<u8>>::empty());
            assert(entry.strings.deep_view() == crate::tokenizers::dedup_append(s0, namesv));
        }
    }
    proof {
        assert(entry@.regex == e0.regex);
        assert(entry@.short == is_short);
        assert(entry@.editions =~~= (if exact {
            e0.editions.push(edition@)
        } else {
            e0.editions
        }));
        assert(entry@.variations =~~= (if exact {
            e0.variations
        } else {
            e0.variations.push(edition@)
        }));
        assert(entry@.strings =~~= (if contains_bytes(e0.regex, regex_escaped(namesv[0])) {
            crate::tokenizers::dedup_append(e0.strings, namesv)
        } else {
            e0.strings
        }));
        assert(entry@ =~~= updated_entry(e0, edition@, namesv, is_short, exact));
    }
    result.insert(found, entry);
    proof {
        let target = add_regex_spec(rsv, namesv, edition@, regex@, is_short, exact);
        assert(target == basev.update(
            found as int,
            updated_entry(e0, edition@, namesv, is_short, exact),
        ));
        assert(result@ == baseq.remove(found as int).insert(found as int, entry));
        assert(result@.len() == baseq.len());
        assert forall|j: int| 0 <= j < result@.len() implies #[trigger] result.deep_view()[j]
            == target[j] by {
            if j < found as int {
                assert(baseq.remove(found as int)[j] == baseq[j]);
                assert(result@[j] == baseq[j]);
            } else if j == found as int {
                assert(result@[j] == entry);
            } else {
                assert(baseq.remove(found as int)[j - 1] == baseq[j]);
                assert(result@[j] == baseq[j]);
            }
        }
        assert(result.deep_view() =~~= target);
    }
}

/// Every registry slot has a distinct pattern text: the pattern is the key.
pub open spec fn distinct_regexes(rs: Seq<RegistryEntryView>) -> bool {
    forall|i: int, j: int|
        0 <= i < j < rs.len() ==> (#[trigger] rs[i]).regex != (#[trigger] rs[j]).regex
}

/// Recording a pattern keeps the slots' pattern texts distinct.
pub proof fn lemma_add_regex_distinct(
    rs: Seq<RegistryEntryView>,
    names: Seq<Seq<u8>>,
    ed: EditionView,
    regex: Seq<u8>,
    is_short: bool,
    exact: bool,
)
    requires
        distinct_regexes(rs),
    ensures
        distinct_regexes(add_regex_spec(rs, names, ed, regex, is_short, exact)),
{
    lemma_find_entry(rs, regex);
    let f = find_entry(rs, regex);
    let base = if f < rs.len() {
        rs
    } else {
        rs.push(empty_entry(regex))
    };
    let out = add_regex_spec(rs, names, ed, regex, is_short, exact);
    assert forall|i: int, j: int|
        0 <= i < j < out.len() implies (#[trigger] out[i]).regex != (#[trigger] out[j]).regex by {
        assert(out[i].regex == base[i].regex);
        assert(out[j].regex == base[j].regex);
        if f >= rs.len() {
            if j == rs.len() {
                assert(base[j].regex == regex);
                assert(rs[i].regex != regex);
            }
        }
    }
}

/// The variation names that map to this edition name, in dataset order.
pub open spec fn variation_names_of(variations: Seq<(Seq<u8>, Seq<u8>)>, ed_name: Seq<u8>) -> Seq<
    Seq<u8>,
>
    decreases variations.len(),
{
    if variations.len() == 0 {
        Seq::empty()
    } else {
        (if variations[0].1 == ed_name {
            seq![variations[0].0]
        } else {
            Seq::empty()
        }) + variation_names_of(variations.skip(1), ed_name)
    }
}

/// The templates an edition generates patterns from: its own custom list, or
/// the standard full-citation template.
pub open spec fn templates_of(ed: EditionView) -> Seq<Seq<u8>> {
    match ed.regexes {
        Some(rs) => rs,
        None => seq!["$full_cite".spec_bytes()],
    }
}

/// The registry after one template generates its patterns for one edition:
/// the exact-name pattern and its short-citation derivative, and, where the
/// edition has name variations, the variation pattern and its derivative.
/// Short derivatives carry the short flag. `None` when a placeholder other
/// than the edition is left unresolved.
pub open spec fn apply_template_spec(
    rs: Seq<RegistryEntryView>,
    template: Seq<u8>,
    varsm: Map<Seq<u8>, Seq<u8>>,
    ed_name: Seq<u8>,
    vnames: Seq<Seq<u8>>,
    ed: EditionView,
) -> Option<Seq<RegistryEntryView>> {
    let t = substituted(template, varsm);
    let regex = resolved_once(t, "edition".spec_bytes(), escaped_alternation(seq![ed_name]));
    if has_placeholder(regex) {
        None
    } else {
        let rs1 = add_regex_spec(
            add_regex_spec(rs, seq![ed_name], ed, regex, false, true),
            seq![ed_name],
            ed,
            short_cite_spec(regex),
            true,
            true,
        );
        if vnames.len() == 0 {
            Some(rs1)
        } else {
            let vregex = resolved_once(t, "edition".spec_bytes(), escaped_alternation(vnames));
            if has_placeholder(vregex) {
                None
            } else {
                Some(
                    add_regex_spec(
                        add_regex_spec(rs1, vnames, ed, vregex, false, false),
                        vnames,
                        ed,
                        short_cite_spec(vregex),
                        true,
                        false,
                    ),
                )
            }
        }
    }
}

/// Fold one edition's templates over the registry.
pub open spec fn apply_templates_spec(
    acc: Option<Seq<RegistryEntryView>>,
    templates: Seq<Seq<u8>>,
    varsm: Map<Seq<u8>, Seq<u8>>,
    ed_name: Seq<u8>,
    vnames: Seq<Seq<u8>>,
    ed: EditionView,
) -> Option<Seq<RegistryEntryView>>
    decreases templates.len(),
{
    if acc is None {
        None
    } else if templates.len() == 0 {
        acc
    } else {
        apply_templates_spec(
            apply_template_spec(acc.unwrap(), templates[0], varsm, ed_name, vnames, ed),
            templates.skip(1),
            varsm,
            ed_name,
            vnames,
            ed,
        )
    }
}

/// Fold one reporter's editions over the registry.
pub open spec fn apply_editions_spec(
    acc: Option<Seq<RegistryEntryView>>,
    eds: Seq<(Seq<u8>, EditionView)>,
    variations: Seq<(Seq<u8>, Seq<u8>)>,
    varsm: Map<Seq<u8>, Seq<u8>>,
) -> Option<Seq<RegistryEntryView>>
    decreases eds.len(),
{
    if acc is None {
        None
    } else if eds.len() == 0 {
        acc
    } else {
        apply_editions_spec(
            apply_templates_spec(
                acc,
                templates_of(eds[0].1),
                varsm,
                eds[0].0,
                variation_names_of(variations, eds[0].0),
                eds[0].1,
            ),
            eds.skip(1),
            variations,
            varsm,
        )
    }
}

/// Fold the whole dataset over the registry.
pub open spec fn apply_reporters_spec(
    acc: Option<Seq<RegistryEntryView>>,
    reps: Seq<ReporterEntryView>,
    varsm: Map<Seq<u8>, Seq<u8>>,
) -> Option<Seq<RegistryEntryView>>
    decreases reps.len(),
{
    if acc is None {
        None
    } else if reps.len() == 0 {
        acc
    } else {
        apply_reporters_spec(
            apply_editions_spec(acc, reps[0].editions, reps[0].variations, varsm),
            reps.skip(1),
            varsm,
        )
    }
}

/// The citation registry a dataset and a variable list determine: pattern
/// generation is a function of the loaded values alone.
pub open spec fn registry_spec(
    reps: Seq<ReporterEntryView>,
    vars: Seq<(Seq<u8>, Seq<u8>)>,
) -> Option<Seq<RegistryEntryView>> {
    apply_reporters_spec(Some(Seq::empty()), reps, pairs_map(vars))
}

/// A generated pattern wrapped so it only matches at non-alphanumeric
/// boundaries or text edges.
pub open spec fn wrap_pattern(p: Seq<u8>) -> Seq<u8> {
    "(?:^|[^a-zA-Z0-9])(".spec_bytes() + p + ")(?:[^a-zA-Z0-9]|$)".spec_bytes()
}

/// Boundary wrapping is injective: the core pattern is recoverable.
pub proof fn lemma_wrap_injective(a: Seq<u8>, b: Seq<u8>)
    ensures
        wrap_pattern(a) == wrap_pattern(b) ==> a == b,
{
    let pre = "(?:^|[^a-zA-Z0-9])(".spec_bytes();
    let suf = ")(?:[^a-zA-Z0-9]|$)".spec_bytes();
    if wrap_pattern(a) == wrap_pattern(b) {
        assert(a =~= wrap_pattern(a).subrange(
            pre.len() as int,
            wrap_pattern(a).len() - suf.len(),
        ));
        assert(b =~= wrap_pattern(b).subrange(
            pre.len() as int,
            wrap_pattern(b).len() - suf.len(),
        ));
    }
}

/// The Citation extractor a registry slot compiles into.
pub open spec fn entry_extractor(e: RegistryEntryView) -> ExtractorView {
    ExtractorView {
        pattern: wrap_pattern(e.regex),
        factory: TokenFactories::Citation,
        extra: ExtraView {
            exact_editions: e.editions,
            variation_editions: e.variations,
            short: e.short,
        },
        strings: e.strings,
        ignore_case: false,
    }
}

/// The Citation extractors of a registry, slot by slot.
pub open spec fn entry_extractors(ks: Seq<RegistryEntryView>) -> Seq<ExtractorView> {
    ks.map_values(|e: RegistryEntryView| entry_extractor(e))
}

/// Every slot's wrapped pattern compiles as a case-sensitive regex.
pub open spec fn entries_compile(ks: Seq<RegistryEntryView>) -> bool {
    forall|i: int|
        0 <= i < ks.len() ==> regex_compiles(wrap_pattern((#[trigger] ks[i]).regex), false)
}

/// The five fixed patterns compile under their case flags.
pub open spec fn fixed_compiles() -> bool {
    &&& regex_compiles("(?:^|\\s)(id\\.,?|ibid\\.)(?:\\s|$)".spec_bytes(), true)
    &&& regex_compiles(
        "(?:^|\\s)([^\\sa-zA-Z0-9]*supra[^\\sa-zA-Z0-9]*)(?:\\s|$)".spec_bytes(),
        true,
    )
    &&& regex_compiles("(\\n)".spec_bytes(), false)
    &&& regex_compiles(
        "(?:^|\\s)([^\\sa-zA-Z0-9]*(?P<stop_word>v|re|parte|denied|citing|aff'd|affirmed|remanded|see|granted|dismissed)[^\\sa-zA-Z0-9]*)(?:\\s|$)".spec_bytes(),
        true,
    )
    &&& regex_compiles("(\\S*\u{00a7}\\S*)".spec_bytes(), false)
}

/// The empty edition metadata of the fixed extractors.
pub open spec fn empty_extra() -> ExtraView {
    ExtraView {
        exact_editions: Seq::empty(),
        variation_editions: Seq::empty(),
        short: false,
    }
}

/// The five fixed extractors stand at the registry's tail with their exact
/// patterns, token kinds, case flags and trigger strings.
pub open spec fn fixed_extractors_ok(es: Seq<ExtractorView>) -> bool {
    let n = es.len() as int;
    &&& n >= 5
    &&& es[n - 5] == (ExtractorView {
        pattern: "(?:^|\\s)(id\\.,?|ibid\\.)(?:\\s|$)".spec_bytes(),
        factory: TokenFactories::Id,
        extra: empty_extra(),
        strings: case_variants_all(seq!["id.".spec_bytes(), "ibid.".spec_bytes()]),
        ignore_case: true,
    })
    &&& es[n - 4] == (ExtractorView {
        pattern: "(?:^|\\s)([^\\sa-zA-Z0-9]*supra[^\\sa-zA-Z0-9]*)(?:\\s|$)".spec_bytes(),
        factory: TokenFactories::Supra,
        extra: empty_extra(),
        strings: case_variants_all(seq!["supra".spec_bytes()]),
        ignore_case: true,
    })
    &&& es[n - 3] == (ExtractorView {
        pattern: "(\\n)".spec_bytes(),
        factory: TokenFactories::Paragraph,
        extra: empty_extra(),
        strings: Seq::empty(),
        ignore_case: false,
    })
    &&& es[n - 2] == (ExtractorView {
        pattern: "(?:^|\\s)([^\\sa-zA-Z0-9]*(?P<stop_word>v|re|parte|denied|citing|aff'd|affirmed|remanded|see|granted|dismissed)[^\\sa-zA-Z0-9]*)(?:\\s|$)".spec_bytes(),
        factory: TokenFactories::StopWord,
        extra: empty_extra(),
        strings: case_variants_all(stop_words_spec()),
        ignore_case: true,
    })
    &&& es[n - 1] == (ExtractorView {
        pattern: "(\\S*\u{00a7}\\S*)".spec_bytes(),
        factory: TokenFactories::Section,
        extra: empty_extra(),
        strings: seq!["\u{00a7}".spec_bytes()],
        ignore_case: false,
    })
}

/// The five fixed extractors, in registry-tail order.
pub open spec fn fixed_extractor_views() -> Seq<ExtractorView> {
    seq![
        ExtractorView {
            pattern: "(?:^|\\s)(id\\.,?|ibid\\.)(?:\\s|$)".spec_bytes(),
            factory: TokenFactories::Id,
            extra: empty_extra(),
            strings: case_variants_all(seq!["id.".spec_bytes(), "ibid.".spec_bytes()]),
            ignore_case: true,
        },
        ExtractorView {
            pattern: "(?:^|\\s)([^\\sa-zA-Z0-9]*supra[^\\sa-zA-Z0-9]*)(?:\\s|$)".spec_bytes(),
            factory: TokenFactories::Supra,
            extra: empty_extra(),
            strings: case_variants_all(seq!["supra".spec_bytes()]),
            ignore_case: true,
        },
        ExtractorView {
            pattern: "(\\n)".spec_bytes(),
            factory: TokenFactories::Paragraph,
            extra: empty_extra(),
            strings: Seq::empty(),
            ignore_case: false,
        },
        ExtractorView {
            pattern: "(?:^|\\s)([^\\sa-zA-Z0-9]*(?P<stop_word>v|re|parte|denied|citing|aff'd|affirmed|remanded|see|granted|dismissed)[^\\sa-zA-Z0-9]*)(?:\\s|$)".spec_bytes(),
            factory: TokenFactories::StopWord,
            extra: empty_extra(),
            strings: case_variants_all(stop_words_spec()),
            ignore_case: true,
        },
        ExtractorView {
            pattern: "(\\S*\u{00a7}\\S*)".spec_bytes(),
            factory: TokenFactories::Section,
            extra: empty_extra(),
            strings: seq!["\u{00a7}".spec_bytes()],
            ignore_case: false,
        },
    ]
}

/// Compile the extractor registry from loaded reporter entries and template
/// variables.
///
/// The result is pinned to `registry_spec` of the two arguments: for every
/// edition of every reporter, each template generates the exact-name pattern
/// and its short-citation derivative, and, where the edition has name
/// variations, the variation pair too; patterns with identical text share
/// one slot whose edition metadata is the union. The compiled list holds one
/// case-sensitive, boundary-wrapped Citation extractor per slot, in slot
/// order, with pairwise distinct patterns, and the five fixed extractors at
/// the tail. Success is owed exactly when no template leaves a placeholder
/// unresolved and every generated and fixed pattern compiles.
pub fn build_reporter_extractors(
    reporters: &Vec<ReporterEntry>,
    vars: &Vec<(Vec<u8>, Vec<u8>)>,
) -> (r: Result<Vec<TokenExtractor>, EyeciteError>)
    ensures
        (r is Ok) == (registry_spec(reporters.deep_view(), vars.deep_view()) is Some
            && entries_compile(registry_spec(reporters.deep_view(), vars.deep_view()).unwrap())
            && fixed_compiles()),
        r matches Ok(es) ==> es.deep_view() == entry_extractors(
            registry_spec(reporters.deep_view(), vars.deep_view()).unwrap(),
        ) + fixed_extractor_views(),
        r matches Ok(es) ==> forall|k: int| 0 <= k < es@.len() ==> (#[trigger] es@[k]).wf(),
        r matches Ok(es) ==> fixed_extractors_ok(es.deep_view()),
        r matches Ok(es) ==> forall|k: int|
            0 <= k < es@.len() - 5 ==> (#[trigger] es.deep_view()[k]).factory
                == TokenFactories::Citation && !es.deep_view()[k].ignore_case,
        r matches Ok(es) ==> forall|k1: int, k2: int|
            0 <= k1 < k2 < es@.len() - 5 ==> (#[trigger] es.deep_view()[k1]).pattern != (
            #[trigger] es.deep_view()[k2]).pattern,
        r matches Err(err) ==> err is RegexError || err is TemplateError,
{
    let ghost repsv = reporters.deep_view();
    let ghost varsm = pairs_map(vars.deep_view());
    let ghost goal = registry_spec(repsv, vars.deep_view());
    let mut keyed: Vec<RegistryEntry> = Vec::new();
    let mut ri: usize = 0;
    proof {
        assert(keyed.deep_view() =~= Seq::<RegistryEntryView>::empty());
        assert(repsv.skip(0) =~= repsv);
    }
    while ri < reporters.len()
        invariant
            ri <= reporters@.len(),
            repsv == reporters.deep_view(),
            repsv.len() == reporters@.len(),
            varsm == pairs_map(vars.deep_view()),
            goal == registry_spec(repsv, vars.deep_view()),
            apply_reporters_spec(Some(keyed.deep_view()), repsv.skip(ri as int), varsm) == goal,
            distinct_regexes(keyed.deep_view()),
        decreases reporters@.len() - ri,
    {
        let rep = &reporters[ri];
        let ghost repv = repsv[ri as int];
        let ghost edsv = repv.editions;
        let ghost varv = repv.variations;
        proof {
            assert(rep@ == repv);
            assert(repsv.skip(ri as int)[0] == repv);
            assert(repsv.skip(ri as int).skip(1) =~= repsv.skip(ri + 1));
            assert(edsv.skip(0) =~= edsv);
            assert(apply_reporters_spec(Some(keyed.deep_view()), repsv.skip(ri as int), varsm)
                == apply_reporters_spec(
                apply_editions_spec(Some(keyed.deep_view()), edsv, varv, varsm),
                repsv.skip(ri + 1),
                varsm,
            ));
        }
        let mut ei: usize = 0;
        while ei < rep.editions.len()
            invariant
                ei <= rep.editions@.len(),
                ri < repsv.len(),
                repsv == reporters.deep_view(),
                rep == &reporters@[ri as int],
                rep@ == repv,
                edsv == repv.editions,
                varv == repv.variations,
                edsv.len() == rep.editions@.len(),
                varsm == pairs_map(vars.deep_view()),
                goal == registry_spec(repsv, vars.deep_view()),
                apply_reporters_spec(
                    apply_editions_spec(
                        Some(keyed.deep_view()),
                        edsv.skip(ei as int),
                        varv,
                        varsm,
                    ),
                    repsv.skip(ri + 1),
                    varsm,
                ) == goal,
                distinct_regexes(keyed.deep_view()),
            decreases rep.editions@.len() - ei,
        {
            let ghost ed_namev = edsv[ei as int].0;
            let ghost edv = edsv[ei as int].1;
            proof {
                assert(edsv[ei as int] == (rep.editions@[ei as int].0@, rep.editions@[ei as int].1@));
                assert(edsv.skip(ei as int)[0] == edsv[ei as int]);
                assert(edsv.skip(ei as int).skip(1) =~= edsv.skip(ei + 1));
            }
            let edition_name = clone_bytes(&rep.editions[ei].0);
            let mut templates: Vec<Vec<u8>> = Vec::new();
            match &rep.editions[ei].1.regexes {
                Some(rs) => {
                    templates = clone_byte_lists(rs);
                    proof {
                        assert(templates.deep_view() =~~= templates_of(edv));
                    }
                },
                None => {
                    templates.push(str_bytes("$full_cite"));
                    proof {
                        assert(templates.deep_view() =~~= templates_of(edv));
                    }
                },
            }
            let ghost templatesv = templates.deep_view();
            let mut exact_names: Vec<Vec<u8>> = Vec::new();
            exact_names.push(clone_bytes(&edition_name));
            proof {
                assert(exact_names.deep_view() =~~= seq![ed_namev]);
            }
            let mut variation_names: Vec<Vec<u8>> = Vec::new();
            let mut vi: usize = 0;
            proof {
                assert(varv.skip(0) =~= varv);
                assert(variation_names.deep_view() + variation_names_of(varv, ed_namev)
                    =~= variation_names_of(varv, ed_namev));
            }
            while vi < rep.variations.len()
                invariant
                    vi <= rep.variations@.len(),
                    ri < repsv.len(),
                    rep == &reporters@[ri as int],
                    repsv == reporters.deep_view(),
                    rep@ == repv,
                    varv == repv.variations,
                    varv.len() == rep.variations@.len(),
                    edition_name@ == ed_namev,
                    variation_names.deep_view() + variation_names_of(
                        varv.skip(vi as int),
                        ed_namev,
                    ) == variation_names_of(varv, ed_namev),
                decreases rep.variations@.len() - vi,
            {
                proof {
                    assert(varv[vi as int] == (
                        rep.variations@[vi as int].0@,
                        rep.variations@[vi as int].1@,
                    ));
                    assert(varv.skip(vi as int)[0] == varv[vi as int]);
                    assert(varv.skip(vi as int).skip(1) =~= varv.skip(vi + 1));
                }
                let ghost before = variation_names.deep_view();
                if bytes_equal(&rep.variations[vi].1, &edition_name) {
                    variation_names.push(clone_bytes(&rep.variations[vi].0));
                    proof {
                        assert(variation_names.deep_view() =~~= before.push(varv[vi as int].0));
                        assert(variation_names.deep_view() + variation_names_of(
                            varv.skip(vi + 1),
                            ed_namev,
                        ) =~= variation_names_of(varv, ed_namev));
                    }
                } else {
                    proof {
                        assert(variation_names.deep_view() + variation_names_of(
                            varv.skip(vi + 1),
                            ed_namev,
                        ) =~= variation_names_of(varv, ed_namev));
                    }
                }
                vi = vi + 1;
            }
            let ghost vnamesv = variation_names.deep_view();
            proof {
                assert(varv.skip(vi as int) =~= Seq::<(Seq<u8>, Seq<u8>)>::empty());
                assert(variation_names_of(varv.skip(vi as int), ed_namev) =~= Seq::<
                    Seq<u8>,
                >::empty());
                assert(vnamesv == variation_names_of(varv, ed_namev));
                assert(templatesv.skip(0) =~= templatesv);
            }
            let mut ti: usize = 0;
            while ti < templates.len()
                invariant
                    ti <= templates@.len(),
                    ri < repsv.len(),
                    ei < edsv.len(),
                    rep == &reporters@[ri as int],
                    repsv == reporters.deep_view(),
                    rep@ == repv,
                    edsv == repv.editions,
                    varv == repv.variations,
                    edv == edsv[ei as int].1,
                    ed_namev == edsv[ei as int].0,
                    templatesv == templates.deep_view(),
                    templatesv.len() == templates@.len(),
                    templatesv == templates_of(edv),
                    exact_names.deep_view() == seq![ed_namev],
                    exact_names@.len() == 1,
                    variation_names.deep_view() == vnamesv,
                    variation_names@.len() == vnamesv.len(),
                    vnamesv == variation_names_of(varv, ed_namev),
                    varsm == pairs_map(vars.deep_view()),
                    goal == registry_spec(repsv, vars.deep_view()),
                    apply_reporters_spec(
                        apply_editions_spec(
                            apply_templates_spec(
                                Some(keyed.deep_view()),
                                templatesv.skip(ti as int),
                                varsm,
                                ed_namev,
                                vnamesv,
                                edv,
                            ),
                            edsv.skip(ei + 1),
                            varv,
                            varsm,
                        ),
                        repsv.skip(ri + 1),
                        varsm,
                    ) == goal,
                    distinct_regexes(keyed.deep_view()),
                decreases templates@.len() - ti,
            {
                let ghost rs0 = keyed.deep_view();
                proof {
                    assert(templatesv.skip(ti as int)[0] == templatesv[ti as int]);
                    assert(templatesv.skip(ti as int).skip(1) =~= templatesv.skip(ti + 1));
                    assert(templates@[ti as int]@ =~= templatesv[ti as int]);
                }
                let ghost t_s = substituted(templatesv[ti as int], varsm);
                let ghost regex_s = resolved_once(
                    t_s,
                    "edition".spec_bytes(),
                    escaped_alternation(seq![ed_namev]),
                );
                let ghost template_step = apply_template_spec(
                    rs0,
                    templatesv[ti as int],
                    varsm,
                    ed_namev,
                    vnamesv,
                    edv,
                );
                let template = substitute_template(&templates[ti], &vars);
                proof {
                    assert(template@ == t_s);
                }
                let regex = match substitute_edition(&template, &exact_names) {
                    Ok(v) => v,
                    Err(err) => {
                        proof {
                            assert(has_placeholder(regex_s));
                            assert(template_step is None);
                            assert(apply_templates_spec(
                                Some(rs0),
                                templatesv.skip(ti as int),
                                varsm,
                                ed_namev,
                                vnamesv,
                                edv,
                            ) == apply_templates_spec(
                                template_step,
                                templatesv.skip(ti + 1),
                                varsm,
                                ed_namev,
                                vnamesv,
                                edv,
                            ));
                            assert(apply_templates_spec(
                                template_step,
                                templatesv.skip(ti + 1),
                                varsm,
                                ed_namev,
                                vnamesv,
                                edv,
                            ) is None);
                            assert(apply_editions_spec(
                                None,
                                edsv.skip(ei + 1),
                                varv,
                                varsm,
                            ) is None);
                            assert(apply_reporters_spec(None, repsv.skip(ri + 1), varsm) is None);
                            assert(goal is None);
                        }
                        return Err(err);
                    },
                };
                proof {
                    assert(regex@ == regex_s);
                    assert(!has_placeholder(regex_s));
                }
                let short_regex = short_cite_re(&regex).into_value();
                _add_regex(&mut keyed, &exact_names, &rep.editions[ei].1, regex, false, true);
                proof {
                    assert((rep.editions@[ei as int].1)@ == edv);
                    lemma_add_regex_distinct(rs0, seq![ed_namev], edv, regex_s, false, true);
                }
                let ghost rs1 = keyed.deep_view();
                _add_regex(&mut keyed, &exact_names, &rep.editions[ei].1, short_regex, true, true);
                proof {
                    lemma_add_regex_distinct(
                        rs1,
                        seq![ed_namev],
                        edv,
                        short_cite_spec(regex_s),
                        true,
                        true,
                    );
                }
                let ghost rs2 = keyed.deep_view();
                if variation_names.len() > 0 {
                    let ghost vregex_s = resolved_once(
                        t_s,
                        "edition".spec_bytes(),
                        escaped_alternation(vnamesv),
                    );
                    let variation_regex = match substitute_edition(&template, &variation_names) {
                        Ok(v) => v,
                        Err(err) => {
                            proof {
                                assert(has_placeholder(vregex_s));
                                assert(template_step is None);
                                assert(apply_templates_spec(
                                    Some(rs0),
                                    templatesv.skip(ti as int),
                                    varsm,
                                    ed_namev,
                                    vnamesv,
                                    edv,
                                ) == apply_templates_spec(
                                    template_step,
                                    templatesv.skip(ti + 1),
                                    varsm,
                                    ed_namev,
                                    vnamesv,
                                    edv,
                                ));
                                assert(apply_templates_spec(
                                    template_step,
                                    templatesv.skip(ti + 1),
                                    varsm,
                                    ed_namev,
                                    vnamesv,
                                    edv,
                                ) is None);
                                assert(apply_editions_spec(
                                    None,
                                    edsv.skip(ei + 1),
                                    varv,
                                    varsm,
                                ) is None);
                                assert(apply_reporters_spec(
                                    None,
                                    repsv.skip(ri + 1),
                                    varsm,
                                ) is None);
                                assert(goal is None);
                            }
                            return Err(err);
                        },
                    };
                    proof {
                        assert(variation_regex@ == vregex_s);
                        assert(!has_placeholder(vregex_s));
                    }
                    let short_variation_regex = short_cite_re(&variation_regex).into_value();
                    _add_regex(
                        &mut keyed,
                        &variation_names,
                        &rep.editions[ei].1,
                        variation_regex,
                        false,
                        false,
                    );
                    proof {
                        lemma_add_regex_distinct(rs2, vnamesv, edv, vregex_s, false, false);
                    }
                    let ghost rs3 = keyed.deep_view();
                    _add_regex(
                        &mut keyed,
                        &variation_names,
                        &rep.editions[ei].1,
                        short_variation_regex,
                        true,
                        false,
                    );
                    proof {
                        lemma_add_regex_distinct(
                            rs3,
                            vnamesv,
                            edv,
                            short_cite_spec(vregex_s),
                            true,
                            false,
                        );
                        assert(template_step == Some(keyed.deep_view()));
                    }
                } else {
                    proof {
                        assert(vnamesv.len() == 0);
                        assert(template_step == Some(keyed.deep_view()));
                    }
                }
                proof {
                    assert(apply_templates_spec(
                        Some(rs0),
                        templatesv.skip(ti as int),
                        varsm,
                        ed_namev,
                        vnamesv,
                        edv,
                    ) == apply_templates_spec(
                        Some(keyed.deep_view()),
                        templatesv.skip(ti + 1),
                        varsm,
                        ed_namev,
                        vnamesv,
                        edv,
                    ));
                }
                ti = ti + 1;
            }
            proof {
                assert(templatesv.skip(ti as int) =~= Seq::<Seq<u8>>::empty());
                assert(apply_templates_spec(
                    Some(keyed.deep_view()),
                    templatesv.skip(ti as int),
                    varsm,
                    ed_namev,
                    vnamesv,
                    edv,
                ) == Some(keyed.deep_view()));
            }
            ei = ei + 1;
        }
        proof {
            assert(edsv.skip(ei as int) =~= Seq::<(Seq<u8>, EditionView)>::empty());
            assert(apply_editions_spec(Some(keyed.deep_view()), edsv.skip(ei as int), varv, varsm)
                == Some(keyed.deep_view()));
        }
        ri = ri + 1;
    }
    let ghost keyedv = keyed.deep_view();
    proof {
        assert(repsv.skip(ri as int) =~= Seq::<ReporterEntryView>::empty());
        assert(apply_reporters_spec(Some(keyedv), repsv.skip(ri as int), varsm) == Some(keyedv));
        assert(goal == Some(keyedv));
    }
    let mut extractors: Vec<TokenExtractor> = Vec::new();
    let ghost mut done: int = 0;
    proof {
        assert(keyed.deep_view() =~= keyedv.skip(0));
        assert(keyedv.take(0) =~= Seq::<RegistryEntryView>::empty());
        assert(extractors.deep_view() =~~= entry_extractors(keyedv.take(0)));
    }
    while keyed.len() > 0
        invariant
            0 <= done <= keyedv.len(),
            keyed.deep_view() == keyedv.skip(done),
            extractors.deep_view() == entry_extractors(keyedv.take(done)),
            entries_compile(keyedv.take(done)),
            goal == Some(keyedv),
            goal == registry_spec(repsv, vars.deep_view()),
            repsv == reporters.deep_view(),
            distinct_regexes(keyedv),
            forall|k: int| 0 <= k < extractors@.len() ==> (#[trigger] extractors@[k]).wf(),
        decreases keyed@.len(),
    {
        proof {
            assert(keyed.deep_view().len() == keyed@.len());
        }
        let ghost rem = keyed.deep_view();
        let entry = keyed.remove(0);
        let ghost ev = entry@;
        proof {
            assert(ev == rem[0]);
            assert(rem[0] == keyedv[done]);
            assert(keyed.deep_view() =~= rem.skip(1));
            assert(rem.skip(1) =~= keyedv.skip(done + 1));
        }
        let wrapped = nonalphanum_boundaries_re(&ResolvedRegex::of(entry.regex));
        proof {
            assert(wrapped@ == wrap_pattern(ev.regex));
        }
        let extra = TokenExtractorExtra {
            exact_editions: entry.editions,
            variation_editions: entry.variations,
            short: entry.short,
        };
        proof {
            assert(extra@ =~~= (ExtraView {
                exact_editions: ev.editions,
                variation_editions: ev.variations,
                short: ev.short,
            }));
        }
        match TokenExtractor::new(wrapped, TokenFactories::Citation, false, entry.strings, extra) {
            Ok(e) => {
                proof {
                    assert(e@ =~~= entry_extractor(keyedv[done]));
                }
                let ghost prev = extractors.deep_view();
                extractors.push(e);
                proof {
                    done = done + 1;
                    assert(extractors.deep_view() =~= prev.push(e@));
                    assert(keyedv.take(done) =~= keyedv.take(done - 1).push(keyedv[done - 1]));
                    assert(entry_extractors(keyedv.take(done)) =~~= entry_extractors(
                        keyedv.take(done - 1),
                    ).push(entry_extractor(keyedv[done - 1])));
                    assert(extractors.deep_view() =~= entry_extractors(keyedv.take(done)));
                    assert forall|i: int|
                        0 <= i < keyedv.take(done).len() implies regex_compiles(
                        wrap_pattern((#[trigger] keyedv.take(done)[i]).regex),
                        false,
                    ) by {
                        if i < done - 1 {
                            assert(keyedv.take(done)[i] == keyedv.take(done - 1)[i]);
                        } else {
                            assert(keyedv.take(done)[i] == keyedv[done - 1]);
                        }
                    }
                }
            },
            Err(err) => {
                proof {
                    assert(!regex_compiles(wrap_pattern(keyedv[done].regex), false));
                    assert(!entries_compile(keyedv));
                }
                return Err(err);
            },
        }
    }
    proof {
        assert(keyedv.take(done) =~= keyedv);
        assert(extractors.deep_view() == entry_extractors(keyedv));
        assert(entries_compile(keyedv));
    }
    let ghost citation_views = extractors.deep_view();
    let mut id_base: Vec<Vec<u8>> = Vec::new();
    id_base.push(str_bytes("id."));
    id_base.push(str_bytes("ibid."));
    proof {
        assert(id_base.deep_view() =~~= seq!["id.".spec_bytes(), "ibid.".spec_bytes()]);
    }
    let id_strings = with_case_variants(&id_base);
    let id_extractor = match TokenExtractor::new(
        ResolvedRegex::of(id_regex()),
        TokenFactories::Id,
        true,
        id_strings,
        TokenExtractorExtra::empty(),
    ) {
        Ok(e) => e,
        Err(err) => {
            proof {
                assert(!fixed_compiles());
            }
            return Err(err);
        },
    };
    proof {
        assert(id_extractor@ =~~= fixed_extractor_views()[0]);
    }
    extractors.push(id_extractor);
    let mut supra_base: Vec<Vec<u8>> = Vec::new();
    supra_base.push(str_bytes("supra"));
    proof {
        assert(supra_base.deep_view() =~~= seq!["supra".spec_bytes()]);
    }
    let supra_strings = with_case_variants(&supra_base);
    let supra_extractor = match TokenExtractor::new(
        ResolvedRegex::of(supra_regex()),
        TokenFactories::Supra,
        true,
        supra_strings,
        TokenExtractorExtra::empty(),
    ) {
        Ok(e) => e,
        Err(err) => {
            proof {
                assert(!fixed_compiles());
            }
            return Err(err);
        },
    };
    proof {
        assert(supra_extractor@ =~~= fixed_extractor_views()[1]);
    }
    extractors.push(supra_extractor);
    let paragraph_strings: Vec<Vec<u8>> = Vec::new();
    proof {
        assert(paragraph_strings.deep_view() =~~= Seq::<Seq<u8>>::empty());
    }
    let paragraph_extractor = match TokenExtractor::new(
        ResolvedRegex::of(paragraph_regex()),
        TokenFactories::Paragraph,
        false,
        paragraph_strings,
        TokenExtractorExtra::empty(),
    ) {
        Ok(e) => e,
        Err(err) => {
            proof {
                assert(!fixed_compiles());
            }
            return Err(err);
        },
    };
    proof {
        assert(paragraph_extractor@ =~~= fixed_extractor_views()[2]);
    }
    extractors.push(paragraph_extractor);
    let stop_word_base = stop_words();
    let stop_word_strings = with_case_variants(&stop_word_base);
    let stop_word_extractor = match TokenExtractor::new(
        ResolvedRegex::of(stop_word_regex()),
        TokenFactories::StopWord,
        true,
        stop_word_strings,
        TokenExtractorExtra::empty(),
    ) {
        Ok(e) => e,
        Err(err) => {
            proof {
                assert(!fixed_compiles());
            }
            return Err(err);
        },
    };
    proof {
        assert(stop_word_extractor@ =~~= fixed_extractor_views()[3]);
    }
    extractors.push(stop_word_extractor);
    let mut section_strings: Vec<Vec<u8>> = Vec::new();
    section_strings.push(section_symbol());
    proof {
        assert(section_strings.deep_view() =~~= seq!["\u{00a7}".spec_bytes()]);
    }
    let section_extractor = match TokenExtractor::new(
        ResolvedRegex::of(section_regex()),
        TokenFactories::Section,
        false,
        section_strings,
        TokenExtractorExtra::empty(),
    ) {
        Ok(e) => e,
        Err(err) => {
            proof {
                assert(!fixed_compiles());
            }
            return Err(err);
        },
    };
    proof {
        assert(section_extractor@ =~~= fixed_extractor_views()[4]);
    }
    extractors.push(section_extractor);
    proof {
        let es = extractors.deep_view();
        assert(es =~~= citation_views + fixed_extractor_views());
        assert(fixed_extractors_ok(es));
        assert(fixed_compiles());
        let n = es.len() as int;
        assert forall|k: int|
            0 <= k < n - 5 implies (#[trigger] es[k]).factory == TokenFactories::Citation
            && !es[k].ignore_case by {
            assert(es[k] == citation_views[k]);
            assert(citation_views[k] == entry_extractor(keyedv[k]));
        }
        assert forall|k1: int, k2: int|
            0 <= k1 < k2 < n - 5 implies (#[trigger] es[k1]).pattern != (
        #[trigger] es[k2]).pattern by {
            assert(es[k1] == entry_extractor(keyedv[k1]));
            assert(es[k2] == entry_extractor(keyedv[k2]));
            assert(keyedv[k1].regex != keyedv[k2].regex);
            lemma_wrap_injective(keyedv[k1].regex, keyedv[k2].regex);
        }
    }
    Ok(extractors)
}

/// Build the process-wide extractor registry from the reference dataset.
///
/// Loads the dataset's reporters and template variables, adds this engine's
/// full-citation and page templates, and compiles the registry; see
/// [`build_reporter_extractors`] for what the registry holds. Fails when the
/// dataset's template slots are missing, a template leaves a placeholder
/// unresolved, or a generated pattern is not a valid regular expression.
pub fn _populate_reporter_extractors() -> (r: Result<Vec<TokenExtractor>, EyeciteError>)
    ensures
        r matches Ok(es) ==> forall|k: int| 0 <= k < es@.len() ==> (#[trigger] es@[k]).wf(),
        r matches Ok(es) ==> fixed_extractors_ok(es.deep_view()),
        r matches Ok(es) ==> forall|k: int|
            0 <= k < es@.len() - 5 ==> (#[trigger] es.deep_view()[k]).factory
                == TokenFactories::Citation && !es.deep_view()[k].ignore_case,
        r matches Ok(es) ==> forall|k1: int, k2: int|
            0 <= k1 < k2 < es@.len() - 5 ==> (#[trigger] es.deep_view()[k1]).pattern != (
            #[trigger] es.deep_view()[k2]).pattern,
        r matches Err(err) ==> err is RegexError || err is TemplateError,
{
    let full_cite_template = str_bytes("$volume $reporter,? $page");
    let page_template = crate::regexes::page_regex();
    let vars = match load_regex_variables(&full_cite_template, &page_template) {
        Some(v) => v,
        None => {
            return Err(
                EyeciteError::TemplateError {
                    message: "the reference dataset lacks the full_cite or page template slot".to_owned(),
                },
            );
        },
    };
    let raw = load_reporter_list();
    let mut reporters: Vec<ReporterEntry> = Vec::new();
    let mut ri: usize = 0;
    while ri < raw.len()
        decreases raw.len() - ri,
    {
        reporters.push(convert_reporter(&raw[ri]));
        ri = ri + 1;
    }
    build_reporter_extractors(&reporters, &vars)
}

} // verus!
