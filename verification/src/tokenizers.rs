use crate::bytestrings::{contains_bytes, list_contains_bytes, occurs_at, subvec};
use crate::tokenizers::extractors::{
    extract_all, extractor_tokens, lemma_token_of_match_wf, ExtractorView, TokenExtractor,
};
use crate::tokenizers::models::{Token, TokenView};
use crate::EyeciteError;
use vstd::prelude::*;

pub mod extractors;
pub mod models;

verus! {

// ---------- Word/Space filler ----------

/// First offset in `[i, to)` at which `s` holds a space byte, or `to` if
/// there is none: the end of the word starting at `i`.
pub open spec fn word_end(s: Seq<u8>, i: int, to: int) -> int
    decreases to - i,
{
    if i < 0 || i >= to || to > s.len() {
        to
    } else if s[i] == 32u8 {
        i
    } else {
        word_end(s, i + 1, to)
    }
}

pub proof fn lemma_word_end(s: Seq<u8>, i: int, to: int)
    requires
        0 <= i <= to <= s.len(),
    ensures
        i <= word_end(s, i, to) <= to,
        forall|j: int| i <= j < word_end(s, i, to) ==> s[j] != 32u8,
        word_end(s, i, to) < to ==> s[word_end(s, i, to)] == 32u8,
        i < to && s[i] != 32u8 ==> word_end(s, i, to) > i,
    decreases to - i,
{
    if i < to && s[i] != 32u8 {
        lemma_word_end(s, i + 1, to);
    }
}

/// The Word/Space token stream for the plain-text stretch `[i, to)` of `s`:
/// maximal space-free runs become `Word` tokens and every space byte becomes
/// its own `Space` token.
pub open spec fn split_ws_range(s: Seq<u8>, i: int, to: int) -> Seq<TokenView>
    decreases to - i,
    via split_ws_range_dec
{
    if i < 0 || i >= to || to > s.len() {
        Seq::empty()
    } else if s[i] == 32u8 {
        seq![TokenView::Space] + split_ws_range(s, i + 1, to)
    } else {
        seq![TokenView::Word(s.subrange(i, word_end(s, i, to)))] + split_ws_range(
            s,
            word_end(s, i, to),
            to,
        )
    }
}

#[via_fn]
proof fn split_ws_range_dec(s: Seq<u8>, i: int, to: int) {
    if 0 <= i < to <= s.len() && s[i] != 32u8 {
        lemma_word_end(s, i, to);
    }
}

// ---------- Token streams ----------

/// The input text a token stream stands for, with each `Space` putting back
/// the separator byte it replaced.
pub open spec fn stream_text(ts: Seq<TokenView>) -> Seq<u8>
    decreases ts.len(),
{
    if ts.len() == 0 {
        Seq::empty()
    } else {
        ts[0].text_view() + stream_text(ts.skip(1))
    }
}

pub proof fn lemma_stream_text_concat(a: Seq<TokenView>, b: Seq<TokenView>)
    ensures
        stream_text(a + b) == stream_text(a) + stream_text(b),
    decreases a.len(),
{
    if a.len() == 0 {
        assert(a + b =~= b);
        assert(stream_text(a) + stream_text(b) =~= stream_text(b));
    } else {
        assert((a + b).skip(1) =~= a.skip(1) + b);
        lemma_stream_text_concat(a.skip(1), b);
        assert(stream_text(a + b) =~= stream_text(a) + stream_text(b));
    }
}

/// Whether a stream holds only Word/Space filler.
pub open spec fn all_filler(ts: Seq<TokenView>) -> bool {
    forall|k: int| 0 <= k < ts.len() ==> !(#[trigger] ts[k]).is_content()
}

pub proof fn lemma_split_ws_range_text(s: Seq<u8>, i: int, to: int)
    requires
        0 <= i <= to <= s.len(),
    ensures
        stream_text(split_ws_range(s, i, to)) == s.subrange(i, to),
        all_filler(split_ws_range(s, i, to)),
    decreases to - i,
{
    if i >= to {
        assert(s.subrange(i, to) =~= Seq::empty());
    } else if s[i] == 32u8 {
        lemma_split_ws_range_text(s, i + 1, to);
        let rest = split_ws_range(s, i + 1, to);
        let whole = split_ws_range(s, i, to);
        assert(whole =~= seq![TokenView::Space] + rest);
        assert(whole[0] == TokenView::Space);
        assert(whole.skip(1) =~= rest);
        assert(stream_text(whole) =~= seq![32u8] + stream_text(rest));
        assert(seq![32u8] + s.subrange(i + 1, to) =~= s.subrange(i, to));
    } else {
        lemma_word_end(s, i, to);
        let k = word_end(s, i, to);
        lemma_split_ws_range_text(s, k, to);
        let rest = split_ws_range(s, k, to);
        let whole = split_ws_range(s, i, to);
        assert(whole[0] == TokenView::Word(s.subrange(i, k)));
        assert(whole.skip(1) =~= rest);
        assert(stream_text(whole) =~= s.subrange(i, k) + stream_text(rest));
        assert(s.subrange(i, k) + s.subrange(k, to) =~= s.subrange(i, to));
    }
}

/// The citation-relevant tokens of a stream, each paired with its index.
pub open spec fn content_pairs(ts: Seq<TokenView>) -> Seq<(int, TokenView)>
    decreases ts.len(),
{
    if ts.len() == 0 {
        Seq::empty()
    } else {
        let prefix = content_pairs(ts.drop_last());
        if ts.last().is_content() {
            prefix.push((ts.len() - 1, ts.last()))
        } else {
            prefix
        }
    }
}

/// Appending filler does not change the citation-relevant pairs.
pub proof fn lemma_content_pairs_filler(ts: Seq<TokenView>, fs: Seq<TokenView>)
    requires
        all_filler(fs),
    ensures
        content_pairs(ts + fs) == content_pairs(ts),
    decreases fs.len(),
{
    if fs.len() == 0 {
        assert(ts + fs =~= ts);
    } else {
        let shorter = fs.drop_last();
        assert(all_filler(shorter));
        assert((ts + fs).drop_last() =~= ts + shorter);
        assert(!(ts + fs).last().is_content());
        lemma_content_pairs_filler(ts, shorter);
    }
}

/// Appending one citation-relevant token appends one pair.
pub proof fn lemma_content_pairs_push(ts: Seq<TokenView>, t: TokenView)
    requires
        t.is_content(),
    ensures
        content_pairs(ts.push(t)) == content_pairs(ts).push((ts.len() as int, t)),
{
    assert(ts.push(t).drop_last() =~= ts);
    assert(ts.push(t).last() == t);
}

// ---------- Raw match well-formedness ----------

/// A raw extractor match is well-formed for `text` when it is a
/// citation-relevant token whose span lies inside `text` and whose payload is
/// exactly the spanned bytes.
pub open spec fn match_wf(t: TokenView, text: Seq<u8>) -> bool {
    &&& t.is_content()
    &&& 0 <= t.data_view().start
    &&& t.data_view().start <= t.data_view().end
    &&& t.data_view().end <= text.len()
    &&& t.data_view().data == text.subrange(t.data_view().start, t.data_view().end)
}

pub open spec fn all_matches_wf(ms: Seq<TokenView>, text: Seq<u8>) -> bool {
    forall|i: int| 0 <= i < ms.len() ==> match_wf(#[trigger] ms[i], text)
}

// ---------- Stream assembly ----------

/// The full token stream assembled from raw matches, processed in order.
///
/// A match that starts before the consumed offset overlaps an already-emitted
/// token and is dropped: the first match at a given position wins. Otherwise
/// the gap before the match becomes Word/Space filler, the match itself is
/// emitted, and the offset moves to its end. Trailing text becomes filler.
pub open spec fn assemble(text: Seq<u8>, ms: Seq<TokenView>, offset: int) -> Seq<TokenView>
    decreases ms.len(),
{
    if !(0 <= offset <= text.len()) {
        Seq::empty()
    } else if ms.len() == 0 {
        split_ws_range(text, offset, text.len() as int)
    } else if !match_wf(ms[0], text) || ms[0].data_view().start < offset {
        assemble(text, ms.skip(1), offset)
    } else {
        split_ws_range(text, offset, ms[0].data_view().start) + seq![ms[0]] + assemble(
            text,
            ms.skip(1),
            ms[0].data_view().end,
        )
    }
}

/// Coverage: the assembled stream spells out the unconsumed text exactly.
pub proof fn lemma_assemble_covers(text: Seq<u8>, ms: Seq<TokenView>, offset: int)
    requires
        0 <= offset <= text.len(),
    ensures
        stream_text(assemble(text, ms, offset)) == text.subrange(offset, text.len() as int),
    decreases ms.len(),
{
    if ms.len() == 0 {
        lemma_split_ws_range_text(text, offset, text.len() as int);
    } else if !match_wf(ms[0], text) || ms[0].data_view().start < offset {
        lemma_assemble_covers(text, ms.skip(1), offset);
    } else {
        let m = ms[0];
        let start = m.data_view().start;
        let end = m.data_view().end;
        let gap = split_ws_range(text, offset, start);
        let rest = assemble(text, ms.skip(1), end);
        lemma_split_ws_range_text(text, offset, start);
        lemma_assemble_covers(text, ms.skip(1), end);
        lemma_stream_text_concat(gap + seq![m], rest);
        lemma_stream_text_concat(gap, seq![m]);
        assert(seq![m].skip(1) =~= Seq::<TokenView>::empty());
        assert(stream_text(Seq::<TokenView>::empty()) =~= Seq::<u8>::empty());
        assert(stream_text(seq![m]) =~= m.data_view().data);
        assert(assemble(text, ms, offset) == (gap + seq![m]) + rest);
        assert(stream_text(assemble(text, ms, offset)) =~= text.subrange(offset, start)
            + text.subrange(start, end) + text.subrange(end, text.len() as int));
        assert(text.subrange(offset, start) + text.subrange(start, end) + text.subrange(
            end,
            text.len() as int,
        ) =~= text.subrange(offset, text.len() as int));
    }
}

/// Every citation-relevant token of `ts` has a well-formed span no earlier
/// than `lo`.
pub open spec fn contents_bounded(ts: Seq<TokenView>, lo: int) -> bool {
    forall|i: int|
        0 <= i < ts.len() && (#[trigger] ts[i]).is_content() ==> lo <= ts[i].data_view().start
            && ts[i].data_view().start <= ts[i].data_view().end
}

/// Citation-relevant tokens never overlap: an earlier one ends no later than
/// a later one starts.
pub open spec fn non_overlapping(ts: Seq<TokenView>) -> bool {
    forall|i: int, j: int|
        0 <= i < j < ts.len() && (#[trigger] ts[i]).is_content() && (#[trigger] ts[j]).is_content()
            ==> ts[i].data_view().end <= ts[j].data_view().start
}

/// Ordering: assembly never emits overlapping citation-relevant tokens.
pub proof fn lemma_assemble_ordered(text: Seq<u8>, ms: Seq<TokenView>, offset: int)
    requires
        0 <= offset <= text.len(),
    ensures
        contents_bounded(assemble(text, ms, offset), offset),
        non_overlapping(assemble(text, ms, offset)),
    decreases ms.len(),
{
    if ms.len() == 0 {
        lemma_split_ws_range_text(text, offset, text.len() as int);
    } else if !match_wf(ms[0], text) || ms[0].data_view().start < offset {
        lemma_assemble_ordered(text, ms.skip(1), offset);
    } else {
        let m = ms[0];
        let start = m.data_view().start;
        let end = m.data_view().end;
        let gap = split_ws_range(text, offset, start);
        let rest = assemble(text, ms.skip(1), end);
        let whole = assemble(text, ms, offset);
        lemma_split_ws_range_text(text, offset, start);
        lemma_assemble_ordered(text, ms.skip(1), end);
        assert(whole == gap + seq![m] + rest);
        assert forall|i: int|
            0 <= i < whole.len() && (#[trigger] whole[i]).is_content() implies offset
            <= whole[i].data_view().start && whole[i].data_view().start
            <= whole[i].data_view().end by {
            if i < gap.len() {
                assert(!gap[i].is_content());
            } else if i == gap.len() {
                assert(whole[i] == m);
            } else {
                assert(whole[i] == rest[i - gap.len() - 1]);
            }
        }
        assert forall|i: int, j: int|
            0 <= i < j < whole.len() && (#[trigger] whole[i]).is_content() && (
            #[trigger] whole[j]).is_content() implies whole[i].data_view().end
            <= whole[j].data_view().start by {
            if i < gap.len() {
                assert(!gap[i].is_content());
            } else if i == gap.len() {
                assert(whole[i] == m);
                assert(whole[j] == rest[j - gap.len() - 1]);
            } else {
                assert(whole[i] == rest[i - gap.len() - 1]);
                assert(whole[j] == rest[j - gap.len() - 1]);
            }
        }
    }
}

// ---------- Filler emission ----------

/// Split the plain-text stretch `[from, to)` of `text` into alternating
/// Word/Space tokens and append them to `tokens`.
pub fn append_text(tokens: &mut Vec<Token>, text: &Vec<u8>, from: usize, to: usize)
    requires
        from <= to <= text@.len(),
    ensures
        final(tokens).deep_view() == old(tokens).deep_view() + split_ws_range(
            text@,
            from as int,
            to as int,
        ),
{
    let ghost pre = tokens.deep_view();
    let mut i: usize = from;
    while i < to
        invariant
            from <= i <= to <= text@.len(),
            pre + split_ws_range(text@, from as int, to as int) == tokens.deep_view()
                + split_ws_range(text@, i as int, to as int),
        decreases to - i,
    {
        let ghost before = tokens.deep_view();
        if text[i] == 32 {
            tokens.push(Token::Space);
            proof {
                assert(tokens.deep_view() =~= before.push(TokenView::Space));
                assert(split_ws_range(text@, i as int, to as int) == seq![TokenView::Space]
                    + split_ws_range(text@, i + 1, to as int));
                assert(pre + split_ws_range(text@, from as int, to as int) =~= tokens.deep_view()
                    + split_ws_range(text@, i + 1, to as int));
            }
            i = i + 1;
        } else {
            let mut j = i + 1;
            while j < to && text[j] != 32
                invariant
                    i < j <= to <= text@.len(),
                    forall|k: int| i < k < j ==> text@[k] != 32u8,
                decreases to - j,
            {
                j = j + 1;
            }
            proof {
                lemma_word_end(text@, i as int, to as int);
                let we = word_end(text@, i as int, to as int);
                assert(we == j as int) by {
                    if we < j {
                        assert(text@[we] != 32u8);
                    }
                    if we > j {
                        assert(j < to);
                        assert(text@[j as int] == 32u8);
                    }
                }
            }
            let w = subvec(text, i, j);
            tokens.push(Token::Word(w));
            proof {
                assert(tokens.deep_view() =~= before.push(
                    TokenView::Word(text@.subrange(i as int, j as int)),
                ));
                assert(split_ws_range(text@, i as int, to as int) == seq![
                    TokenView::Word(text@.subrange(i as int, j as int)),
                ] + split_ws_range(text@, j as int, to as int));
                assert(pre + split_ws_range(text@, from as int, to as int) =~= tokens.deep_view()
                    + split_ws_range(text@, j as int, to as int));
            }
            i = j;
        }
    }
    proof {
        assert(split_ws_range(text@, i as int, to as int) =~= Seq::empty());
        assert(tokens.deep_view() =~= pre + split_ws_range(text@, from as int, to as int));
    }
}

// ---------- Sorting raw matches ----------

/// A stream whose citation-relevant spans start in ascending order.
pub open spec fn sorted_by_start(ts: Seq<TokenView>) -> bool {
    forall|i: int, j: int|
        0 <= i < j < ts.len() ==> (#[trigger] ts[i]).data_view().start
            <= (#[trigger] ts[j]).data_view().start
}

/// Insert a token after every token that starts no later: a stable insertion.
pub open spec fn insert_by_start(t: TokenView, ts: Seq<TokenView>) -> Seq<TokenView>
    decreases ts.len(),
{
    if ts.len() == 0 {
        seq![t]
    } else if ts[0].data_view().start <= t.data_view().start {
        seq![ts[0]] + insert_by_start(t, ts.skip(1))
    } else {
        seq![t] + ts
    }
}

/// Stable sort of raw matches by ascending start offset.
pub open spec fn sort_by_start(ts: Seq<TokenView>) -> Seq<TokenView>
    decreases ts.len(),
{
    if ts.len() == 0 {
        Seq::empty()
    } else {
        insert_by_start(ts.last(), sort_by_start(ts.drop_last()))
    }
}

/// Inserting into a sorted stream at the first later-starting position is
/// `insert_by_start`, and it keeps the stream sorted and its matches
/// well-formed.
#[verifier::rlimit(80)]
pub proof fn lemma_insert_by_start(t: TokenView, ts: Seq<TokenView>, p: int, text: Seq<u8>)
    requires
        sorted_by_start(ts),
        0 <= p <= ts.len(),
        forall|j: int| 0 <= j < p ==> (#[trigger] ts[j]).data_view().start <= t.data_view().start,
        p < ts.len() ==> ts[p].data_view().start > t.data_view().start,
        all_matches_wf(ts, text),
        match_wf(t, text),
    ensures
        insert_by_start(t, ts) == ts.take(p) + seq![t] + ts.skip(p),
        sorted_by_start(insert_by_start(t, ts)),
        all_matches_wf(insert_by_start(t, ts), text),
    decreases ts.len(),
{
    let r = insert_by_start(t, ts);
    if ts.len() == 0 {
        assert(r =~= ts.take(p) + seq![t] + ts.skip(p));
    } else if p == 0 {
        assert(r =~= ts.take(0) + seq![t] + ts.skip(0));
    } else {
        assert(ts[0].data_view().start <= t.data_view().start);
        let rest = ts.skip(1);
        assert(sorted_by_start(rest));
        assert(all_matches_wf(rest, text));
        lemma_insert_by_start(t, rest, p - 1, text);
        assert(rest.take(p - 1) =~= ts.subrange(1, p));
        assert(rest.skip(p - 1) =~= ts.skip(p));
        assert(r =~= ts.take(p) + seq![t] + ts.skip(p));
    }
    assert forall|i: int, j: int| 0 <= i < j < r.len() implies (#[trigger] r[i]).data_view().start
        <= (#[trigger] r[j]).data_view().start by {
        assert(r =~= ts.take(p) + seq![t] + ts.skip(p));
        if i < p && j < p {
        } else if i < p && j == p {
        } else if i == p && j > p {
            assert(r[j] == ts[j - 1]);
            assert(ts[p].data_view().start <= ts[j - 1].data_view().start);
        } else if i < p && j > p {
            assert(r[j] == ts[j - 1]);
        } else if i > p && j > p {
            assert(r[i] == ts[i - 1]);
            assert(r[j] == ts[j - 1]);
        } else {
            assert(i == p || r[i] == ts[i]);
        }
    }
    assert forall|i: int| 0 <= i < r.len() implies match_wf(#[trigger] r[i], text) by {
        assert(r =~= ts.take(p) + seq![t] + ts.skip(p));
        if i < p {
            assert(r[i] == ts[i]);
        } else if i > p {
            assert(r[i] == ts[i - 1]);
        }
    }
}

/// The first position of `s` whose token starts later than `t`, or the
/// length of `s` if there is none.
pub open spec fn first_later(s: Seq<TokenView>, t: TokenView) -> int
    decreases s.len(),
{
    if s.len() == 0 {
        0
    } else if s[0].data_view().start > t.data_view().start {
        0
    } else {
        1 + first_later(s.skip(1), t)
    }
}

pub proof fn lemma_first_later(s: Seq<TokenView>, t: TokenView)
    ensures
        0 <= first_later(s, t) <= s.len(),
        forall|j: int|
            0 <= j < first_later(s, t) ==> (#[trigger] s[j]).data_view().start
                <= t.data_view().start,
        first_later(s, t) < s.len() ==> s[first_later(s, t)].data_view().start
            > t.data_view().start,
    decreases s.len(),
{
    if s.len() > 0 && !(s[0].data_view().start > t.data_view().start) {
        lemma_first_later(s.skip(1), t);
        assert(forall|j: int| 1 <= j < s.len() ==> s[j] == s.skip(1)[j - 1]);
    }
}

/// Sorting keeps every match well-formed.
pub proof fn lemma_sort_by_start_wf(ts: Seq<TokenView>, text: Seq<u8>)
    requires
        all_matches_wf(ts, text),
    ensures
        all_matches_wf(sort_by_start(ts), text),
        sorted_by_start(sort_by_start(ts)),
    decreases ts.len(),
{
    if ts.len() > 0 {
        let shorter = ts.drop_last();
        assert(all_matches_wf(shorter, text));
        lemma_sort_by_start_wf(shorter, text);
        let s = sort_by_start(shorter);
        let t = ts.last();
        lemma_first_later(s, t);
        lemma_insert_by_start(t, s, first_later(s, t), text);
    }
}

/// Sort raw matches into ascending start order; matches with equal starts
/// keep their extraction order.
fn sort_tokens_by_start(tokens: Vec<Token>, Ghost(text): Ghost<Seq<u8>>) -> (r: Vec<Token>)
    requires
        all_matches_wf(tokens.deep_view(), text),
    ensures
        r.deep_view() == sort_by_start(tokens.deep_view()),
        all_matches_wf(r.deep_view(), text),
        sorted_by_start(r.deep_view()),
{
    let ghost orig = tokens.deep_view();
    let mut tokens = tokens;
    let mut out: Vec<Token> = Vec::new();
    let ghost mut done: int = 0;
    proof {
        assert(orig.take(0) =~= Seq::<TokenView>::empty());
        assert(tokens.deep_view() =~= orig.skip(0));
    }
    while tokens.len() > 0
        invariant
            0 <= done <= orig.len(),
            tokens.deep_view() =~= orig.skip(done),
            out.deep_view() == sort_by_start(orig.take(done)),
            all_matches_wf(orig, text),
            all_matches_wf(out.deep_view(), text),
            sorted_by_start(out.deep_view()),
            forall|j: int| 0 <= j < out@.len() ==> (#[trigger] out@[j]@).is_content(),
        decreases tokens@.len(),
    {
        proof {
            assert(tokens.deep_view().len() == tokens@.len());
        }
        let ghost rem = tokens.deep_view();
        let t = tokens.remove(0);
        proof {
            assert(t@ == rem[0]);
            assert(rem[0] == orig[done]);
            assert(match_wf(t@, text));
            assert(tokens.deep_view() =~= rem.skip(1));
            assert(rem.skip(1) =~= orig.skip(done + 1));
        }
        let ts = t.start();
        let mut p: usize = 0;
        while p < out.len() && out[p].start() <= ts
            invariant
                p <= out@.len(),
                all_matches_wf(out.deep_view(), text),
                forall|j: int| 0 <= j < out@.len() ==> (#[trigger] out@[j]@).is_content(),
                ts == t@.data_view().start,
                match_wf(t@, text),
                forall|j: int|
                    0 <= j < p ==> (#[trigger] out.deep_view()[j]).data_view().start
                        <= t@.data_view().start,
            decreases out@.len() - p,
        {
            proof {
                assert(out.deep_view()[p as int] == out@[p as int]@);
            }
            p = p + 1;
        }
        proof {
            if (p as int) < out.deep_view().len() {
                assert(out.deep_view()[p as int] == out@[p as int]@);
                assert(out.deep_view()[p as int].data_view().start > t@.data_view().start);
            }
        }
        let ghost outv = out.deep_view();
        let ghost outq = out@;
        out.insert(p, t);
        proof {
            lemma_insert_by_start(t@, outv, p as int, text);
            assert(out.deep_view() =~= outv.take(p as int) + seq![t@] + outv.skip(p as int));
            assert(out.deep_view() == insert_by_start(t@, outv));
            done = done + 1;
            assert(orig.take(done).drop_last() =~= orig.take(done - 1));
            assert(orig.take(done).last() == orig[done - 1]);
            assert(out.deep_view() == sort_by_start(orig.take(done)));
            assert forall|j: int| 0 <= j < out@.len() implies (#[trigger] out@[j]@).is_content() by {
                if j < p {
                    assert(out@[j] == outq[j]);
                } else if j > p {
                    assert(out@[j] == outq[j - 1]);
                }
            }
        }
    }
    proof {
        assert(orig.take(done) =~= orig);
    }
    out
}

// ---------- The tokenizer interface ----------

/// An indexed citation-token list matches the citation-relevant pairs of the
/// full stream.
pub open spec fn pairs_match(cs: Seq<(usize, TokenView)>, ps: Seq<(int, TokenView)>) -> bool {
    &&& cs.len() == ps.len()
    &&& forall|k: int|
        0 <= k < cs.len() ==> (#[trigger] cs[k]).0 as int == ps[k].0 && cs[k].1 == ps[k].1
}

/// An extractor registered a trigger string that occurs somewhere in `text`.
///
/// This is the prefilter's defining promise: an extractor is only surfaced
/// for a text in which one of its trigger strings is present, so a true
/// match whose pattern requires a trigger is never skipped by running fewer
/// extractors.
pub open spec fn triggered(e: ExtractorView, text: Seq<u8>) -> bool {
    exists|j: int| 0 <= j < e.strings.len() && contains_bytes(text, #[trigger] e.strings[j])
}

/// A source of candidate extractors, together with the tokenizing algorithm
/// written once against it. An implementation chooses which extractors are
/// worth running against a given text; the merge and interleave logic is
/// shared.
pub trait Tokenizer: Sized {
    /// The implementation's compiled state is consistent.
    spec fn wf(&self) -> bool;

    /// The candidate extractors this tokenizer surfaces for `text`, in order.
    spec fn candidates(&self, text: Seq<u8>) -> Seq<ExtractorView>;

    /// Enumerate the candidate extractors for `text`. Every candidate
    /// registered at least one trigger string that occurs in `text`.
    fn get_extractors(&self, text: &Vec<u8>) -> (r: Vec<TokenExtractor>)
        requires
            self.wf(),
        ensures
            r.deep_view() == self.candidates(text@),
            forall|i: int| 0 <= i < r@.len() ==> (#[trigger] r@[i]).wf(),
            forall|i: int| 0 <= i < r@.len() ==> triggered(#[trigger] r.deep_view()[i], text@),
            text@.len() == 0 ==> r@.len() == 0,
    ;

    /// Every raw match of every candidate extractor, candidate by candidate,
    /// each already turned into a token.
    fn extract_tokens(&self, text: &Vec<u8>) -> (r: Vec<Token>)
        requires
            self.wf(),
        ensures
            r.deep_view() == extract_all(self.candidates(text@), text@),
            all_matches_wf(r.deep_view(), text@),
            text@.len() == 0 ==> r@.len() == 0,
    {
        let exts = self.get_extractors(text);
        let ghost esv = exts.deep_view();
        let mut out: Vec<Token> = Vec::new();
        let mut i: usize = 0;
        proof {
            assert(esv.skip(0) =~= esv);
            assert(out.deep_view() + extract_all(esv, text@) =~= extract_all(esv, text@));
        }
        while i < exts.len()
            invariant
                i <= exts@.len(),
                esv == exts.deep_view(),
                esv.len() == exts@.len(),
                forall|k: int| 0 <= k < exts@.len() ==> (#[trigger] exts@[k]).wf(),
                out.deep_view() + extract_all(esv.skip(i as int), text@) == extract_all(esv, text@),
                all_matches_wf(out.deep_view(), text@),
            decreases exts@.len() - i,
        {
            let e = &exts[i];
            let mut ms = e.get_matches(text);
            let ghost msv = ms.deep_view();
            let ghost et = extractor_tokens(e@, text@);
            let ghost out0 = out.deep_view();
            proof {
                assert(e@ == esv[i as int]);
                assert(et == msv.map_values(|m: crate::tokenizers::extractors::TokenMatchView|
                    crate::tokenizers::extractors::token_of_match(e@, m, text@)));
                assert(et.subrange(0, 0) =~= Seq::<TokenView>::empty());
                assert(out.deep_view() =~= out0 + et.subrange(0, 0));
            }
            let mut j: usize = 0;
            let ms_len = ms.len();
            while j < ms_len
                invariant
                    j <= msv.len(),
                    ms_len == msv.len(),
                    ms.deep_view() =~= msv.skip(j as int),
                    forall|k: int|
                        0 <= k < msv.len() ==> crate::tokenizers::extractors::match_bounds(
                            #[trigger] msv[k],
                            text@.len() as int,
                        ),
                    e.wf(),
                    et == extractor_tokens(e@, text@),
                    et == msv.map_values(|m: crate::tokenizers::extractors::TokenMatchView|
                        crate::tokenizers::extractors::token_of_match(e@, m, text@)),
                    out.deep_view() == out0 + et.subrange(0, j as int),
                    all_matches_wf(out.deep_view(), text@),
                decreases ms_len - j,
            {
                let ghost before = out.deep_view();
                proof {
                    assert(ms.deep_view().len() == ms@.len());
                    assert(ms@.len() == msv.len() - j);
                }
                let ghost rem = ms.deep_view();
                let m = ms.remove(0);
                proof {
                    assert(m@ == rem[0]);
                    assert(rem[0] == msv[j as int]);
                    assert(m@ == msv[j as int]);
                    assert(ms.deep_view() =~= rem.skip(1));
                    assert(rem.skip(1) =~= msv.skip(j + 1));
                }
                let t = e.get_token(m, text);
                out.push(t);
                j = j + 1;
                proof {
                    lemma_token_of_match_wf(e@, msv[j - 1], text@);
                    assert(out.deep_view() =~= before.push(t@));
                    assert(et[j - 1] == t@);
                    assert(out.deep_view() =~= out0 + et.subrange(0, j as int));
                }
            }
            i = i + 1;
            proof {
                assert(et.subrange(0, et.len() as int) =~= et);
                assert(esv.skip(i - 1)[0] == esv[i - 1]);
                assert(esv.skip(i - 1).skip(1) =~= esv.skip(i as int));
                assert(extract_all(esv.skip(i - 1), text@) == extractor_tokens(esv[i - 1], text@)
                    + extract_all(esv.skip(i as int), text@));
                assert(out.deep_view() + extract_all(esv.skip(i as int), text@) =~= extract_all(
                    esv,
                    text@,
                ));
            }
        }
        proof {
            assert(esv.skip(i as int) =~= Seq::<ExtractorView>::empty());
            assert(extract_all(esv.skip(i as int), text@) =~= Seq::<TokenView>::empty());
            assert(out.deep_view() =~= extract_all(esv, text@));
            if text@.len() == 0 {
                assert(out.deep_view().len() == 0);
            }
        }
        out
    }

    /// Produce the full ordered token stream for `text` and the subsequence
    /// of citation-relevant tokens, each paired with its index into the full
    /// stream.
    ///
    /// Raw matches are processed in ascending start order: a match that
    /// starts before the already-consumed offset is dropped (the first match
    /// at a position wins; exact duplicates are never combined, as
    /// `Token::merge` declines every merge), gaps between matches become
    /// Word/Space filler, and trailing text becomes filler too.
    ///
    /// The stream is pinned to a function of the tokenizer's state and the
    /// text alone, so repeated calls on the same input return identical
    /// streams; the stream spells the input text out exactly, and its
    /// citation-relevant tokens never overlap.
    fn tokenize(&self, text: &Vec<u8>) -> (r: (Vec<Token>, Vec<(usize, Token)>))
        requires
            self.wf(),
        ensures
            r.0.deep_view() == assemble(
                text@,
                sort_by_start(extract_all(self.candidates(text@), text@)),
                0,
            ),
            stream_text(r.0.deep_view()) == text@,
            non_overlapping(r.0.deep_view()),
            pairs_match(r.1.deep_view(), content_pairs(r.0.deep_view())),
            text@.len() == 0 ==> r.0@.len() == 0 && r.1@.len() == 0,
    {
        let raw_tokens = self.extract_tokens(text);
        let ghost rawv = raw_tokens.deep_view();
        let tokens = sort_tokens_by_start(raw_tokens, Ghost(text@));
        let ghost msv = tokens.deep_view();
        proof {
            if text@.len() == 0 {
                assert(rawv.len() == 0);
                assert(sort_by_start(rawv) =~= Seq::<TokenView>::empty());
            }
        }
        let mut citation_tokens: Vec<(usize, Token)> = Vec::new();
        let mut all_tokens: Vec<Token> = Vec::new();
        let mut offset: usize = 0;
        let mut idx: usize = 0;
        proof {
            assert(msv.skip(0) =~= msv);
            assert(all_tokens.deep_view() + assemble(text@, msv, 0) =~= assemble(text@, msv, 0));
            assert(content_pairs(all_tokens.deep_view()) =~= Seq::<(int, TokenView)>::empty());
        }
        while idx < tokens.len()
            invariant
                idx <= tokens@.len(),
                msv == tokens.deep_view(),
                msv.len() == tokens@.len(),
                all_matches_wf(msv, text@),
                0 <= offset <= text@.len(),
                all_tokens.deep_view() + assemble(text@, msv.skip(idx as int), offset as int)
                    == assemble(text@, msv, 0),
                pairs_match(citation_tokens.deep_view(), content_pairs(all_tokens.deep_view())),
            decreases tokens@.len() - idx,
        {
            let t = &tokens[idx];
            proof {
                assert(match_wf(msv[idx as int], text@));
                assert(t@ == msv[idx as int]);
                assert(msv.skip(idx as int)[0] == msv[idx as int]);
                assert(msv.skip(idx as int).skip(1) =~= msv.skip(idx + 1));
            }
            let ts = t.start();
            if offset <= ts {
                if offset < ts {
                    let ghost pre_fill = all_tokens.deep_view();
                    append_text(&mut all_tokens, text, offset, ts);
                    proof {
                        lemma_split_ws_range_text(text@, offset as int, ts as int);
                        lemma_content_pairs_filler(
                            pre_fill,
                            split_ws_range(text@, offset as int, ts as int),
                        );
                    }
                }
                let ghost pre_push = all_tokens.deep_view();
                let ghost pre_cites = citation_tokens.deep_view();
                let t1 = t.clone();
                let t2 = t.clone();
                citation_tokens.push((all_tokens.len(), t1));
                all_tokens.push(t2);
                proof {
                    assert(all_tokens.deep_view() =~= pre_push.push(t@));
                    assert(citation_tokens.deep_view() =~= pre_cites.push(
                        (pre_push.len() as usize, t@),
                    ));
                    lemma_content_pairs_push(pre_push, t@);
                }
                offset = t.end();
                proof {
                    assert(all_tokens.deep_view() + assemble(text@, msv.skip(idx + 1), offset as int)
                        =~= assemble(text@, msv, 0));
                }
            } else {
                proof {
                    assert(assemble(text@, msv.skip(idx as int), offset as int) == assemble(
                        text@,
                        msv.skip(idx + 1),
                        offset as int,
                    ));
                }
            }
            idx = idx + 1;
        }
        let ghost pre_tail = all_tokens.deep_view();
        append_text(&mut all_tokens, text, offset, text.len());
        proof {
            lemma_split_ws_range_text(text@, offset as int, text@.len() as int);
            lemma_content_pairs_filler(
                pre_tail,
                split_ws_range(text@, offset as int, text@.len() as int),
            );
            assert(msv.skip(idx as int) =~= Seq::<TokenView>::empty());
            assert(assemble(text@, msv.skip(idx as int), offset as int) == split_ws_range(
                text@,
                offset as int,
                text@.len() as int,
            ));
            assert(all_tokens.deep_view() =~= assemble(text@, msv, 0));
            lemma_assemble_covers(text@, msv, 0);
            assert(text@.subrange(0, text@.len() as int) =~= text@);
            lemma_assemble_ordered(text@, msv, 0);
            if text@.len() == 0 {
                assert(all_tokens.deep_view().len() == 0);
                assert(content_pairs(all_tokens.deep_view()).len() == 0);
            }
        }
        (all_tokens, citation_tokens)
    }
}

/// Determinism: `tokenize` is a pure function of the tokenizer's immutable
/// state and the input text. Its contract pins the full stream to
/// `assemble(text, sort_by_start(extract_all(candidates, text)), 0)`, so any
/// two streams produced for the same state and text are equal.
pub proof fn lemma_tokenize_deterministic<T: Tokenizer>(
    t: &T,
    text: Seq<u8>,
    r1: Seq<TokenView>,
    r2: Seq<TokenView>,
)
    requires
        r1 == assemble(text, sort_by_start(extract_all(t.candidates(text), text)), 0),
        r2 == assemble(text, sort_by_start(extract_all(t.candidates(text), text)), 0),
    ensures
        r1 == r2,
{
}

// ---------- Trusted view of the multi-pattern automaton ----------

#[verifier::external_type_specification]
#[verifier::external_body]
#[verifier::reject_recursive_types(V)]
pub struct ExDoubleArrayAhoCorasick<V>(daachorse::DoubleArrayAhoCorasick<V>);

/// The pattern list an automaton was built over, in order.
pub uninterp spec fn automaton_patterns(aut: daachorse::DoubleArrayAhoCorasick<u32>) -> Seq<
    Seq<u8>,
>;

/// Whether an automaton can be built over this pattern list.
pub uninterp spec fn automaton_builds(patterns: Seq<Seq<u8>>) -> bool;

/// The trigger occurrences reported over `text`, in increasing order of end
/// position: for each, the byte span of the occurrence and the index of the
/// pattern that occurred there. The list is a function of the pattern list
/// and the text alone.
pub uninterp spec fn automaton_hits(patterns: Seq<Seq<u8>>, text: Seq<u8>) -> Seq<
    (usize, usize, usize),
>;

/// Relies on daachorse::DoubleArrayAhoCorasick::new: it builds an automaton
/// in which value `i` is associated with `patterns[i]`, and fails when a
/// pattern index does not fit the value type or the automaton outgrows its
/// expected scale.
#[verifier::external_body]
fn build_automaton(patterns: &Vec<Vec<u8>>) -> (r: Result<
    daachorse::DoubleArrayAhoCorasick<u32>,
    String,
>)
    ensures
        (r is Ok) == automaton_builds(patterns.deep_view()),
        r matches Ok(aut) ==> automaton_patterns(aut) == patterns.deep_view(),
{
    daachorse::DoubleArrayAhoCorasick::new(patterns.iter().map(|p| p.as_slice())).map_err(
        |e| e.to_string(),
    )
}

/// Relies on DoubleArrayAhoCorasick::find_overlapping_iter and
/// Match::{start, end, value}: every occurrence of every pattern is
/// reported, each reported value is the index of the pattern whose text
/// stands at the reported span, and the hit list is a function of the
/// automaton's patterns and the text alone.
#[verifier::external_body]
fn automaton_find(aut: &daachorse::DoubleArrayAhoCorasick<u32>, text: &Vec<u8>) -> (r: Vec<
    (usize, usize, usize),
>)
    ensures
        r@ == automaton_hits(automaton_patterns(*aut), text@),
        forall|i: int|
            0 <= i < r@.len() ==> (#[trigger] r@[i]).2 < automaton_patterns(*aut).len(),
        forall|i: int| 0 <= i < r@.len() ==> (#[trigger] r@[i]).0 <= r@[i].1 <= text@.len(),
        forall|i: int|
            0 <= i < r@.len() ==> text@.subrange((#[trigger] r@[i]).0 as int, r@[i].1 as int)
                == automaton_patterns(*aut)[r@[i].2 as int],
{
    aut.find_overlapping_iter(text.as_slice()).map(|m| (m.start(), m.end(), m.value() as usize))
        .collect()
}

// ---------- The Aho-Corasick prefilter tokenizer ----------

/// Fold a list of byte strings into `acc`, keeping only first occurrences.
pub open spec fn dedup_append(acc: Seq<Seq<u8>>, xs: Seq<Seq<u8>>) -> Seq<Seq<u8>>
    decreases xs.len(),
{
    if xs.len() == 0 {
        acc
    } else {
        dedup_append(
            if acc.contains(xs[0]) {
                acc
            } else {
                acc.push(xs[0])
            },
            xs.skip(1),
        )
    }
}

/// Gather the distinct trigger strings of a list of extractors, in first
/// appearance order.
pub open spec fn gather_strings(acc: Seq<Seq<u8>>, es: Seq<ExtractorView>) -> Seq<Seq<u8>>
    decreases es.len(),
{
    if es.len() == 0 {
        acc
    } else {
        gather_strings(dedup_append(acc, es[0].strings), es.skip(1))
    }
}

/// A tokenizer that narrows the extractors to run with a single Aho-Corasick
/// automaton over every extractor's trigger strings: an extractor is only
/// worth running against a text in which one of its trigger strings occurs.
pub struct Ahocorasick {
    extractors: Vec<TokenExtractor>,
    strings: Vec<Vec<u8>>,
    corasick: daachorse::DoubleArrayAhoCorasick<u32>,
}

impl Ahocorasick {
    /// The stored extractors, in registration order.
    pub closed spec fn extractors_view(&self) -> Seq<ExtractorView> {
        self.extractors.deep_view()
    }

    /// The deduplicated trigger strings the automaton was built over.
    pub closed spec fn strings_view(&self) -> Seq<Seq<u8>> {
        self.strings.deep_view()
    }

    /// Whether extractor `k` registered the trigger string of hit `i`.
    pub open spec fn hit_selects(&self, hits: Seq<(usize, usize, usize)>, i: int, k: int) -> bool {
        &&& 0 <= i < hits.len()
        &&& hits[i].2 < self.strings_view().len()
        &&& self.extractors_view()[k].strings.contains(self.strings_view()[hits[i].2 as int])
    }

    /// Whether extractor `k` is a candidate given the hit list.
    pub open spec fn is_candidate(&self, hits: Seq<(usize, usize, usize)>, k: int) -> bool {
        exists|i: int| self.hit_selects(hits, i, k)
    }

    /// Build an `Ahocorasick` tokenizer over the given extractors. Fails
    /// exactly when the automaton over their distinct trigger strings cannot
    /// be built.
    pub fn new(items: Vec<TokenExtractor>) -> (r: Result<Ahocorasick, EyeciteError>)
        requires
            forall|k: int| 0 <= k < items@.len() ==> (#[trigger] items@[k]).wf(),
        ensures
            (r is Ok) == automaton_builds(gather_strings(Seq::empty(), items.deep_view())),
            r matches Ok(a) ==> a.wf() && a.extractors_view() == items.deep_view()
                && a.strings_view() == gather_strings(Seq::empty(), items.deep_view()),
            r matches Err(err) ==> err is AhocorasickError,
    {
        let ghost esv = items.deep_view();
        let mut strings: Vec<Vec<u8>> = Vec::new();
        let mut i: usize = 0;
        proof {
            assert(strings.deep_view() =~= Seq::<Seq<u8>>::empty());
            assert(esv.skip(0) =~= esv);
        }
        while i < items.len()
            invariant
                i <= items@.len(),
                esv == items.deep_view(),
                esv.len() == items@.len(),
                forall|k: int| 0 <= k < items@.len() ==> (#[trigger] items@[k]).wf(),
                gather_strings(strings.deep_view(), esv.skip(i as int)) == gather_strings(
                    Seq::empty(),
                    esv,
                ),
            decreases items@.len() - i,
        {
            let e = &items[i];
            let sl = e.strings_list();
            let ghost sv = e@.strings;
            let ghost acc0 = strings.deep_view();
            proof {
                assert(e@ == esv[i as int]);
                assert(esv.skip(i as int)[0] == esv[i as int]);
                assert(esv.skip(i as int).skip(1) =~= esv.skip(i + 1));
                assert(sv.skip(0) =~= sv);
            }
            let mut j: usize = 0;
            while j < sl.len()
                invariant
                    j <= sl@.len(),
                    sv == e@.strings,
                    sl.deep_view() == sv,
                    sv.len() == sl@.len(),
                    dedup_append(strings.deep_view(), sv.skip(j as int)) == dedup_append(acc0, sv),
                decreases sl@.len() - j,
            {
                proof {
                    assert(sv.skip(j as int)[0] == sv[j as int]);
                    assert(sv.skip(j as int).skip(1) =~= sv.skip(j + 1));
                    assert(sv[j as int] =~= sl@[j as int]@);
                }
                let ghost before = strings.deep_view();
                if !list_contains_bytes(&strings, &sl[j]) {
                    let s = subvec(&sl[j], 0, sl[j].len());
                    proof {
                        assert(sl@[j as int]@.subrange(
                            0,
                            sl@[j as int]@.len() as int,
                        ) =~= sl@[j as int]@);
                    }
                    strings.push(s);
                    proof {
                        assert(strings.deep_view() =~= before.push(sv[j as int]));
                    }
                }
                j = j + 1;
            }
            proof {
                assert(sv.skip(j as int) =~= Seq::<Seq<u8>>::empty());
                assert(strings.deep_view() == dedup_append(acc0, sv));
            }
            i = i + 1;
        }
        proof {
            assert(esv.skip(i as int) =~= Seq::<ExtractorView>::empty());
            assert(strings.deep_view() == gather_strings(Seq::empty(), esv));
        }
        match build_automaton(&strings) {
            Ok(corasick) => Ok(Ahocorasick { extractors: items, strings, corasick }),
            Err(message) => Err(EyeciteError::AhocorasickError { message }),
        }
    }
}

/// The candidate extractors among the first `n`, unguarded helper.
pub open spec fn candidate_views_prefix(
    a: &Ahocorasick,
    hits: Seq<(usize, usize, usize)>,
    n: int,
) -> Seq<ExtractorView>
    decreases n,
{
    if n <= 0 {
        Seq::empty()
    } else if a.is_candidate(hits, n - 1) {
        candidate_views_prefix(a, hits, n - 1).push(a.extractors_view()[n - 1])
    } else {
        candidate_views_prefix(a, hits, n - 1)
    }
}

impl Tokenizer for Ahocorasick {
    closed spec fn wf(&self) -> bool {
        &&& automaton_patterns(self.corasick) == self.strings.deep_view()
        &&& forall|k: int| 0 <= k < self.extractors@.len() ==> (#[trigger] self.extractors@[k]).wf()
    }

    closed spec fn candidates(&self, text: Seq<u8>) -> Seq<ExtractorView> {
        if text.len() == 0 {
            Seq::empty()
        } else {
            candidate_views_prefix(
                self,
                automaton_hits(self.strings.deep_view(), text),
                self.extractors.deep_view().len() as int,
            )
        }
    }

    fn get_extractors(&self, text: &Vec<u8>) -> (r: Vec<TokenExtractor>) {
        let mut r: Vec<TokenExtractor> = Vec::new();
        if text.len() == 0 {
            proof {
                assert(r.deep_view() =~= self.candidates(text@));
            }
            return r;
        }
        let hits = automaton_find(&self.corasick, text);
        let ghost hitsv = hits@;
        let mut k: usize = 0;
        proof {
            assert(r.deep_view() =~= candidate_views_prefix(self, hitsv, 0));
        }
        while k < self.extractors.len()
            invariant
                k <= self.extractors@.len(),
                self.wf(),
                hitsv == automaton_hits(self.strings.deep_view(), text@),
                hitsv == hits@,
                forall|i: int|
                    0 <= i < hitsv.len() ==> (#[trigger] hitsv[i]).2 < self.strings@.len(),
                forall|i: int|
                    0 <= i < hitsv.len() ==> (#[trigger] hitsv[i]).0 <= hitsv[i].1 <= text@.len(),
                forall|i: int|
                    0 <= i < hitsv.len() ==> text@.subrange(
                        (#[trigger] hitsv[i]).0 as int,
                        hitsv[i].1 as int,
                    ) == self.strings.deep_view()[hitsv[i].2 as int],
                r.deep_view() == candidate_views_prefix(self, hitsv, k as int),
                forall|i: int| 0 <= i < r@.len() ==> (#[trigger] r@[i]).wf(),
                forall|i: int|
                    0 <= i < r@.len() ==> triggered(#[trigger] r.deep_view()[i], text@),
            decreases self.extractors@.len() - k,
        {
            let mut found = false;
            let mut h: usize = 0;
            while h < hits.len()
                invariant
                    h <= hitsv.len(),
                    hitsv == hits@,
                    k < self.extractors@.len(),
                    self.wf(),
                    forall|i: int|
                        0 <= i < hitsv.len() ==> (#[trigger] hitsv[i]).2 < self.strings@.len(),
                    forall|i: int|
                        0 <= i < hitsv.len() ==> (#[trigger] hitsv[i]).0 <= hitsv[i].1
                            <= text@.len(),
                    forall|i: int|
                        0 <= i < hitsv.len() ==> text@.subrange(
                            (#[trigger] hitsv[i]).0 as int,
                            hitsv[i].1 as int,
                        ) == self.strings.deep_view()[hitsv[i].2 as int],
                    found ==> self.is_candidate(hitsv, k as int),
                    found ==> triggered(self.extractors_view()[k as int], text@),
                    !found ==> forall|i: int| 0 <= i < h ==> !self.hit_selects(hitsv, i, k as int),
                decreases hitsv.len() - h,
            {
                if !found {
                    let ghost sk = self.extractors_view()[k as int].strings;
                    let ghost wv = self.strings_view()[hitsv[h as int].2 as int];
                    proof {
                        assert(wv =~= self.strings@[hitsv[h as int].2 as int]@);
                        assert(self.extractors_view()[k as int] == self.extractors@[k as int]@);
                    }
                    let c = list_contains_bytes(
                        self.extractors[k].strings_list(),
                        &self.strings[hits[h].2],
                    );
                    proof {
                        assert(c == sk.contains(wv));
                    }
                    if c {
                        found = true;
                        proof {
                            assert(self.hit_selects(hitsv, h as int, k as int));
                            assert(text@.subrange(
                                hitsv[h as int].0 as int,
                                hitsv[h as int].1 as int,
                            ) == wv);
                            assert(occurs_at(text@, wv, hitsv[h as int].0 as int));
                            assert(contains_bytes(text@, wv));
                            let j0 = choose|j: int| 0 <= j < sk.len() && sk[j] == wv;
                            assert(contains_bytes(text@, sk[j0]));
                            assert(triggered(self.extractors_view()[k as int], text@));
                        }
                    }
                }
                h = h + 1;
            }
            let ghost before = r.deep_view();
            if found {
                let dup = self.extractors[k].duplicate();
                r.push(dup);
                proof {
                    assert(r.deep_view() =~= before.push(self.extractors_view()[k as int]));
                    assert forall|i: int|
                        0 <= i < r@.len() implies triggered(
                        #[trigger] r.deep_view()[i],
                        text@,
                    ) by {
                        if i < before.len() {
                            assert(r.deep_view()[i] == before[i]);
                        } else {
                            assert(r.deep_view()[i] == self.extractors_view()[k as int]);
                        }
                    }
                }
            } else {
                proof {
                    assert(!self.is_candidate(hitsv, k as int)) by {
                        if self.is_candidate(hitsv, k as int) {
                            let i = choose|i: int| self.hit_selects(hitsv, i, k as int);
                            assert(!self.hit_selects(hitsv, i, k as int));
                        }
                    }
                }
            }
            k = k + 1;
        }
        proof {
            assert(r.deep_view() == self.candidates(text@));
        }
        r
    }
}

} // verus!
