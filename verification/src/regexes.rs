use crate::bytestrings::{extend_bytes, occurs_at, starts_with_at, str_bytes, subvec};
use vstd::prelude::*;
use vstd::string::StringSliceAdditionalSpecFns;

verus! {

/// A fully resolved regular-expression pattern: template substitution is
/// finished and no `$name` placeholders remain. The pattern text is kept as
/// UTF-8 bytes, like every other piece of text in this crate.
pub struct ResolvedRegex {
    value: Vec<u8>,
}

impl View for ResolvedRegex {
    type V = Seq<u8>;

    closed spec fn view(&self) -> Seq<u8> {
        self.value@
    }
}

impl DeepView for ResolvedRegex {
    type V = Seq<u8>;

    open spec fn deep_view(&self) -> Seq<u8> {
        self.view()
    }
}

impl ResolvedRegex {
    pub fn of(value: Vec<u8>) -> (r: Self)
        ensures
            r@ == value@,
    {
        ResolvedRegex { value }
    }

    pub fn value(&self) -> (r: &Vec<u8>)
        ensures
            r@ == self@,
    {
        &self.value
    }

    pub fn into_value(self) -> (r: Vec<u8>)
        ensures
            r@ == self@,
    {
        self.value
    }
}

/// Roman numerals 1 to 199 except 5, 50 and 100, lower case only: those
/// excluded forms are usually false positives in citation page numbers.
pub fn roman_numeral_regex() -> (r: Vec<u8>)
    ensures
        r@ == "c?(?:xc|xl|l?x{1,3})(?:ix|iv|v?i{0,3})|(?:c?l?)(?:ix|iv|v?i{1,3})|(?:lv|cv|cl|clv)".spec_bytes(),
{
    str_bytes("c?(?:xc|xl|l?x{1,3})(?:ix|iv|v?i{0,3})|(?:c?l?)(?:ix|iv|v?i{1,3})|(?:lv|cv|cl|clv)")
}

/// A page number: a plain number or a roman numeral.
pub fn page_number_regex() -> (r: Vec<u8>)
    ensures
        r@ == "(?:\\d+|c?(?:xc|xl|l?x{1,3})(?:ix|iv|v?i{0,3})|(?:c?l?)(?:ix|iv|v?i{1,3})|(?:lv|cv|cl|clv))".spec_bytes(),
{
    str_bytes("(?:\\d+|c?(?:xc|xl|l?x{1,3})(?:ix|iv|v?i{0,3})|(?:c?l?)(?:ix|iv|v?i{1,3})|(?:lv|cv|cl|clv))")
}

/// The `page` capture group over [`page_number_regex`].
pub fn page_regex() -> (r: Vec<u8>)
    ensures
        r@ == "(?P<page>(?:\\d+|c?(?:xc|xl|l?x{1,3})(?:ix|iv|v?i{0,3})|(?:c?l?)(?:ix|iv|v?i{1,3})|(?:lv|cv|cl|clv)))".spec_bytes(),
{
    str_bytes("(?P<page>(?:\\d+|c?(?:xc|xl|l?x{1,3})(?:ix|iv|v?i{0,3})|(?:c?l?)(?:ix|iv|v?i{1,3})|(?:lv|cv|cl|clv)))")
}

/// Pattern for `Id` tokens: "id.", optionally with a comma, or "ibid.",
/// bounded by whitespace or the edges of the text.
pub fn id_regex() -> (r: Vec<u8>)
    ensures
        r@ == "(?:^|\\s)(id\\.,?|ibid\\.)(?:\\s|$)".spec_bytes(),
{
    str_bytes("(?:^|\\s)(id\\.,?|ibid\\.)(?:\\s|$)")
}

/// Pattern for `Supra` tokens: the word "supra" with tolerated punctuation,
/// bounded by whitespace or the edges of the text.
pub fn supra_regex() -> (r: Vec<u8>)
    ensures
        r@ == "(?:^|\\s)([^\\sa-zA-Z0-9]*supra[^\\sa-zA-Z0-9]*)(?:\\s|$)".spec_bytes(),
{
    str_bytes("(?:^|\\s)([^\\sa-zA-Z0-9]*supra[^\\sa-zA-Z0-9]*)(?:\\s|$)")
}

/// Pattern for `Paragraph` tokens: a single newline.
pub fn paragraph_regex() -> (r: Vec<u8>)
    ensures
        r@ == "(\\n)".spec_bytes(),
{
    str_bytes("(\\n)")
}

/// The closed set of citation stop words.
pub fn stop_words() -> (r: Vec<Vec<u8>>)
    ensures
        r.deep_view() == stop_words_spec(),
{
    let mut r: Vec<Vec<u8>> = Vec::new();
    r.push(str_bytes("v"));
    r.push(str_bytes("re"));
    r.push(str_bytes("parte"));
    r.push(str_bytes("denied"));
    r.push(str_bytes("citing"));
    r.push(str_bytes("aff'd"));
    r.push(str_bytes("affirmed"));
    r.push(str_bytes("remanded"));
    r.push(str_bytes("see"));
    r.push(str_bytes("granted"));
    r.push(str_bytes("dismissed"));
    proof {
        assert(r.deep_view() =~~= stop_words_spec());
    }
    r
}

/// The stop words in their fixed order.
pub open spec fn stop_words_spec() -> Seq<Seq<u8>> {
    seq![
        "v".spec_bytes(),
        "re".spec_bytes(),
        "parte".spec_bytes(),
        "denied".spec_bytes(),
        "citing".spec_bytes(),
        "aff'd".spec_bytes(),
        "affirmed".spec_bytes(),
        "remanded".spec_bytes(),
        "see".spec_bytes(),
        "granted".spec_bytes(),
        "dismissed".spec_bytes(),
    ]
}

/// Pattern for `StopWord` tokens: the stop-word alternation in a named
/// `stop_word` capture group, with tolerated punctuation, bounded by
/// whitespace or the edges of the text.
pub fn stop_word_regex() -> (r: Vec<u8>)
    ensures
        r@ == "(?:^|\\s)([^\\sa-zA-Z0-9]*(?P<stop_word>v|re|parte|denied|citing|aff'd|affirmed|remanded|see|granted|dismissed)[^\\sa-zA-Z0-9]*)(?:\\s|$)".spec_bytes(),
{
    str_bytes(
        "(?:^|\\s)([^\\sa-zA-Z0-9]*(?P<stop_word>v|re|parte|denied|citing|aff'd|affirmed|remanded|see|granted|dismissed)[^\\sa-zA-Z0-9]*)(?:\\s|$)",
    )
}

/// Pattern for `Section` tokens: a run of non-whitespace characters holding a
/// section symbol.
pub fn section_regex() -> (r: Vec<u8>)
    ensures
        r@ == "(\\S*\u{00a7}\\S*)".spec_bytes(),
{
    str_bytes("(\\S*\u{00a7}\\S*)")
}

/// The section symbol itself, the trigger string of the section pattern.
pub fn section_symbol() -> (r: Vec<u8>)
    ensures
        r@ == "\u{00a7}".spec_bytes(),
{
    str_bytes("\u{00a7}")
}

/// Punctuation tolerated around volume numbers and stop words.
pub fn punctuation_regex() -> (r: Vec<u8>)
    ensures
        r@ == "[^\\sa-zA-Z0-9]*".spec_bytes(),
{
    str_bytes("[^\\sa-zA-Z0-9]*")
}

// ---------- Short-citation derivation ----------

/// The literal that opens a named `reporter` capture group.
pub open spec fn reporter_group_open() -> Seq<u8> {
    "(?P<reporter>".spec_bytes()
}

/// The literal that opens a named `page` capture group.
pub open spec fn page_group_open() -> Seq<u8> {
    "(?P<page>".spec_bytes()
}

/// The connective between the two groups with its comma kept optional.
pub open spec fn comma_space_page() -> Seq<u8> {
    ",? (?P<page>".spec_bytes()
}

/// The connective between the two groups without a comma.
pub open spec fn space_page() -> Seq<u8> {
    " (?P<page>".spec_bytes()
}

/// The connective a short citation uses instead.
pub open spec fn at_connective() -> Seq<u8> {
    ",? at ".spec_bytes()
}

/// First offset at or after `i` holding a closing parenthesis, or the length
/// of `s` if there is none.
pub open spec fn rparen_from(s: Seq<u8>, i: int) -> int
    decreases s.len() - i,
{
    if i < 0 || i >= s.len() {
        s.len() as int
    } else if s[i] == 41u8 {
        i
    } else {
        rparen_from(s, i + 1)
    }
}

pub proof fn lemma_rparen_from(s: Seq<u8>, i: int)
    requires
        0 <= i <= s.len(),
    ensures
        i <= rparen_from(s, i) <= s.len(),
        forall|j: int| i <= j < rparen_from(s, i) ==> s[j] != 41u8,
        rparen_from(s, i) < s.len() ==> s[rparen_from(s, i)] == 41u8,
    decreases s.len() - i,
{
    if i < s.len() && s[i] != 41u8 {
        lemma_rparen_from(s, i + 1);
    }
}

/// Whether the short-citation rewrite pattern matches at offset `i` of `s`:
/// a named `reporter` group with a non-empty parenthesis-free body, then an
/// optional comma, a space, and the opening of a named `page` group. On a
/// match, yields the offset of the reporter group's closing parenthesis and
/// the end of the whole match.
pub open spec fn short_match_at(s: Seq<u8>, i: int) -> Option<(int, int)> {
    if !occurs_at(s, reporter_group_open(), i) {
        None
    } else {
        let body = i + reporter_group_open().len();
        let rp = rparen_from(s, body);
        if rp >= s.len() || rp == body {
            None
        } else if occurs_at(s, comma_space_page(), rp + 1) {
            Some((rp, rp + 1 + comma_space_page().len()))
        } else if occurs_at(s, space_page(), rp + 1) {
            Some((rp, rp + 1 + space_page().len()))
        } else {
            None
        }
    }
}

pub proof fn lemma_short_match_at(s: Seq<u8>, i: int)
    requires
        0 <= i < s.len(),
    ensures
        short_match_at(s, i) matches Some(m) ==> i < m.1 <= s.len() && i <= m.0 < m.1,
{
    if occurs_at(s, reporter_group_open(), i) {
        let body = i + reporter_group_open().len();
        lemma_rparen_from(s, body);
    }
}

/// The text of `s` from offset `i` on, with every occurrence of the
/// short-citation rewrite pattern replaced: the reporter group is kept and
/// the connective before the page group becomes `",? at "`. This is the
/// leftmost, non-overlapping replacement a regex engine performs.
pub open spec fn short_cite_from(s: Seq<u8>, i: int) -> Seq<u8>
    decreases s.len() - i,
    via short_cite_from_dec
{
    if i < 0 || i >= s.len() {
        Seq::empty()
    } else {
        match short_match_at(s, i) {
            Some(m) => s.subrange(i, m.0 + 1) + at_connective() + page_group_open()
                + short_cite_from(s, m.1),
            None => seq![s[i]] + short_cite_from(s, i + 1),
        }
    }
}

#[via_fn]
proof fn short_cite_from_dec(s: Seq<u8>, i: int) {
    if 0 <= i < s.len() {
        lemma_short_match_at(s, i);
    }
}

/// The short-citation derivative of a full-citation pattern.
pub open spec fn short_cite_spec(s: Seq<u8>) -> Seq<u8> {
    short_cite_from(s, 0)
}

/// Convert a full-citation pattern into its short-citation form.
///
/// A full citation reads `Volume Reporter,? Page`; a short citation refers
/// back with `Reporter, at Page` or `Reporter at Page`. The rewrite is purely
/// textual on the two named groups: wherever the pattern holds a `reporter`
/// group followed by an optional comma, a space and a `page` group, the
/// connective is replaced by the literal `",? at "`. Patterns without that
/// structure come back unchanged.
pub fn short_cite_re(regex: &Vec<u8>) -> (r: ResolvedRegex)
    ensures
        r@ == short_cite_spec(regex@),
{
    let rpref = str_bytes("(?P<reporter>");
    let n1 = str_bytes(",? (?P<page>");
    let n2 = str_bytes(" (?P<page>");
    let ppref = str_bytes("(?P<page>");
    let conn = str_bytes(",? at ");
    let n = regex.len();
    let mut out: Vec<u8> = Vec::new();
    let mut i: usize = 0;
    proof {
        assert(out@ + short_cite_from(regex@, 0) =~= short_cite_from(regex@, 0));
    }
    while i < n
        invariant
            i <= n,
            n == regex@.len(),
            rpref@ == reporter_group_open(),
            n1@ == comma_space_page(),
            n2@ == space_page(),
            ppref@ == page_group_open(),
            conn@ == at_connective(),
            out@ + short_cite_from(regex@, i as int) == short_cite_from(regex@, 0),
        decreases n - i,
    {
        let mut matched = false;
        if starts_with_at(regex, &rpref, i) {
            let body = i + rpref.len();
            let mut rp = body;
            while rp < n && regex[rp] != 41
                invariant
                    body <= rp <= n,
                    n == regex@.len(),
                    forall|j: int| body <= j < rp ==> regex@[j] != 41u8,
                decreases n - rp,
            {
                rp = rp + 1;
            }
            proof {
                lemma_rparen_from(regex@, body as int);
                let sp = rparen_from(regex@, body as int);
                assert(sp == rp as int) by {
                    if sp < rp {
                        assert(regex@[sp] != 41u8);
                    }
                    if sp > rp {
                        assert(rp < n);
                        assert(regex@[rp as int] == 41u8);
                    }
                }
            }
            if rp < n && rp > body {
                let p = rp + 1;
                if starts_with_at(regex, &n1, p) {
                    proof {
                        assert(short_match_at(regex@, i as int) == Some(
                            (rp as int, p + n1@.len()),
                        ));
                    }
                    let piece = subvec(regex, i, rp + 1);
                    extend_bytes(&mut out, &piece);
                    extend_bytes(&mut out, &conn);
                    extend_bytes(&mut out, &ppref);
                    i = p + n1.len();
                    matched = true;
                    proof {
                        assert(out@ + short_cite_from(regex@, i as int) =~= short_cite_from(
                            regex@,
                            0,
                        ));
                    }
                } else if starts_with_at(regex, &n2, p) {
                    proof {
                        assert(short_match_at(regex@, i as int) == Some(
                            (rp as int, p + n2@.len()),
                        ));
                    }
                    let piece = subvec(regex, i, rp + 1);
                    extend_bytes(&mut out, &piece);
                    extend_bytes(&mut out, &conn);
                    extend_bytes(&mut out, &ppref);
                    i = p + n2.len();
                    matched = true;
                    proof {
                        assert(out@ + short_cite_from(regex@, i as int) =~= short_cite_from(
                            regex@,
                            0,
                        ));
                    }
                } else {
                    proof {
                        assert(short_match_at(regex@, i as int) is None);
                    }
                }
            } else {
                proof {
                    assert(short_match_at(regex@, i as int) is None);
                }
            }
        } else {
            proof {
                assert(!occurs_at(regex@, reporter_group_open(), i as int));
                assert(short_match_at(regex@, i as int) is None);
            }
        }
        if !matched {
            proof {
                assert(short_match_at(regex@, i as int) is None);
            }
            out.push(regex[i]);
            i = i + 1;
            proof {
                assert(out@ + short_cite_from(regex@, i as int) =~= short_cite_from(regex@, 0));
            }
        }
    }
    proof {
        assert(short_cite_from(regex@, i as int) =~= Seq::<u8>::empty());
        assert(out@ =~= short_cite_from(regex@, 0));
    }
    ResolvedRegex::of(out)
}

/// Wrap a pattern so it only matches when bounded by non-alphanumeric
/// characters or the edges of the text, preventing partial-word matches.
pub fn nonalphanum_boundaries_re(regex: &ResolvedRegex) -> (r: ResolvedRegex)
    ensures
        r@ == "(?:^|[^a-zA-Z0-9])(".spec_bytes() + regex@ + ")(?:[^a-zA-Z0-9]|$)".spec_bytes(),
{
    let mut v = str_bytes("(?:^|[^a-zA-Z0-9])(");
    extend_bytes(&mut v, regex.value());
    let suffix = str_bytes(")(?:[^a-zA-Z0-9]|$)");
    extend_bytes(&mut v, &suffix);
    ResolvedRegex::of(v)
}

} // verus!
