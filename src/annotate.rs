//! Furigana for whole texts: one span sequence per word, merged.
use vstd::prelude::*;
use crate::align::{drop_empty, lemma_split_reconstructs, raw_spans, split_ruby, split_spans};
use crate::script::{
    chars_of, contains_kanji_chars, has_kanji, hiragana_of, is_blank, is_blank_text,
    katakana_to_hiragana,
};
use crate::segment::{base_of, bases, lemma_bases_append, lemma_bases_single, is_text, no_adjacent_text, views, Segment, SegmentView};
use crate::analyzer::{analysis_of, analyze, load_ipadic, segmenter_of};

verus! {

/// A word as the morphological analyzer gives it: its surface and its
/// reading in katakana, if the dictionary has one.
#[derive(Debug)]
pub struct Word {
    pub surface: String,
    pub reading: Option<String>,
}

pub open spec fn word_view(w: Word) -> (Seq<char>, Option<Seq<char>>) {
    (
        w.surface@,
        match w.reading {
            Some(r) => Some(r@),
            None => None,
        },
    )
}

pub open spec fn word_views(ws: Seq<Word>) -> Seq<(Seq<char>, Option<Seq<char>>)> {
    ws.map_values(|w: Word| word_view(w))
}

/// The reading that the dictionary gives for a word it does not know.
pub open spec fn is_unknown_reading(r: Seq<char>) -> bool {
    r.len() == 1 && r[0] == '*'
}

/// The spans of one word: plain text unless it holds kanji and has a known
/// reading, which is then aligned in hiragana.
pub open spec fn word_spans(surface: Seq<char>, reading: Option<Seq<char>>) -> Seq<SegmentView> {
    match reading {
        Some(r) => if has_kanji(surface) && !is_unknown_reading(r) {
            split_spans(surface, hiragana_of(r))
        } else {
            seq![SegmentView::Text(surface)]
        },
        None => seq![SegmentView::Text(surface)],
    }
}

/// The spans of all words, in order.
pub open spec fn spans_of_words(ws: Seq<(Seq<char>, Option<Seq<char>>)>) -> Seq<SegmentView>
    decreases ws.len(),
{
    if ws.len() == 0 {
        Seq::empty()
    } else {
        spans_of_words(ws.drop_last()) + word_spans(ws.last().0, ws.last().1)
    }
}

/// Neighbouring text spans joined, left to right.
pub open spec fn merge_spans(s: Seq<SegmentView>) -> Seq<SegmentView>
    decreases s.len(),
{
    if s.len() == 0 {
        Seq::empty()
    } else {
        let m = merge_spans(s.drop_last());
        let x = s.last();
        if is_text(x) && m.len() > 0 && is_text(m.last()) {
            m.update(m.len() - 1, SegmentView::Text(base_of(m.last()) + base_of(x)))
        } else {
            m.push(x)
        }
    }
}

/// The merged spans, or a single empty text where there are none.
pub open spec fn merged(s: Seq<SegmentView>) -> Seq<SegmentView> {
    let m = merge_spans(s);
    if m.len() == 0 {
        seq![SegmentView::Text(Seq::empty())]
    } else {
        m
    }
}

/// The annotation of a text that the analyzer splits into `ws`.
pub open spec fn annotation_of(ws: Seq<(Seq<char>, Option<Seq<char>>)>) -> Seq<SegmentView> {
    merged(spans_of_words(ws))
}

/// Joins neighbouring text spans into one; the result is never empty.
pub fn merge_text_segments(segments: Vec<Segment>) -> (r: Vec<Segment>)
    ensures
        views(r@) == merged(views(segments@)),
        r@.len() > 0,
        no_adjacent_text(views(r@)),
{
    let ghost s = views(segments@);
    let mut out: Vec<Segment> = Vec::new();
    let mut i: usize = 0;
    while i < segments.len()
        invariant
            s == views(segments@),
            i <= segments@.len(),
            views(out@) == merge_spans(s.subrange(0, i as int)),
        decreases segments@.len() - i,
    {
        let ghost pre = s.subrange(0, i as int);
        assert(s.subrange(0, i + 1).drop_last() =~= pre);
        assert(s.subrange(0, i + 1).last() == segments@[i as int]@);
        let n = out.len();
        let mut joined: Option<String> = None;
        if let Segment::Text { content } = &segments[i] {
            if n > 0 {
                if let Segment::Text { content: prev } = &out[n - 1] {
                    let mut j = prev.clone();
                    j.append(content.as_str());
                    joined = Some(j);
                }
            }
        }
        match joined {
            Some(j) => {
                out.set(n - 1, Segment::Text { content: j });
            },
            None => {
                out.push(segments[i].duplicate());
            },
        }
        assert(views(out@) =~= merge_spans(s.subrange(0, i + 1)));
        i = i + 1;
    }
    assert(s.subrange(0, i as int) =~= s);
    proof {
        lemma_merge_no_adjacent(s);
    }
    if out.len() == 0 {
        out.push(Segment::Text { content: String::new() });
        assert(views(out@) =~= merged(s));
    }
    out
}

/// Merging leaves no two neighbouring text spans.
pub proof fn lemma_merge_no_adjacent(s: Seq<SegmentView>)
    ensures
        no_adjacent_text(merge_spans(s)),
        no_adjacent_text(merged(s)),
        merged(s).len() > 0,
    decreases s.len(),
{
    if s.len() > 0 {
        lemma_merge_no_adjacent(s.drop_last());
        let m = merge_spans(s.drop_last());
        let r = merge_spans(s);
        assert forall|i: int| 0 <= i < r.len() - 1 implies !(#[trigger] is_text(r[i]) && is_text(
            r[i + 1],
        )) by {
            let x = s.last();
            if is_text(x) && m.len() > 0 && is_text(m.last()) {
                if i < m.len() - 2 {
                    assert(r[i] == m[i] && r[i + 1] == m[i + 1]);
                } else {
                    assert(r[i] == m[i]);
                    assert(is_text(m[i + 1]));
                }
            } else {
                if i < m.len() - 1 {
                    assert(r[i] == m[i] && r[i + 1] == m[i + 1]);
                }
            }
        }
    }
}

/// The spans of every word give back its surface, as long as no kanji run of
/// it is aligned to an empty reading.
pub proof fn lemma_word_reconstructs(surface: Seq<char>, reading: Option<Seq<char>>)
    requires
        keeps_every_run((surface, reading)),
    ensures
        bases(word_spans(surface, reading)) == surface,
{
    lemma_bases_single(SegmentView::Text(surface));
    if let Some(r) = reading {
        lemma_split_reconstructs(surface, hiragana_of(r));
    }
}

/// Merging joins text and drops nothing: the spans cover the same text.
pub proof fn lemma_merge_keeps_text(s: Seq<SegmentView>)
    ensures
        bases(merge_spans(s)) == bases(s),
        bases(merged(s)) == bases(s),
    decreases s.len(),
{
    if s.len() > 0 {
        lemma_merge_keeps_text(s.drop_last());
        let m = merge_spans(s.drop_last());
        let x = s.last();
        let r = merge_spans(s);
        if is_text(x) && m.len() > 0 && is_text(m.last()) {
            assert(r.drop_last() =~= m.drop_last());
            assert(bases(m) == bases(m.drop_last()) + base_of(m.last()));
            assert(bases(r) =~= bases(m) + base_of(x));
        } else {
            assert(r.drop_last() =~= m);
        }
    } else {
        lemma_bases_single(SegmentView::Text(Seq::empty()));
    }
}

/// The surfaces of all words, joined in order.
pub open spec fn surfaces(ws: Seq<(Seq<char>, Option<Seq<char>>)>) -> Seq<char>
    decreases ws.len(),
{
    if ws.len() == 0 {
        Seq::empty()
    } else {
        surfaces(ws.drop_last()) + ws.last().0
    }
}

/// No kanji run of the word is aligned to an empty reading.
pub open spec fn keeps_every_run(w: (Seq<char>, Option<Seq<char>>)) -> bool {
    w.1 matches Some(r) ==> (raw_spans(w.0, hiragana_of(r)) matches Some(raw) ==> drop_empty(raw)
        == raw)
}

/// The annotation of a text covers the surfaces of its words, in order, as
/// long as no kanji run of any word is aligned to an empty reading.
pub proof fn lemma_annotation_reconstructs(ws: Seq<(Seq<char>, Option<Seq<char>>)>)
    requires
        forall|i: int| 0 <= i < ws.len() ==> keeps_every_run(#[trigger] ws[i]),
    ensures
        bases(annotation_of(ws)) == surfaces(ws),
{
    lemma_spans_of_words_bases(ws);
    lemma_merge_keeps_text(spans_of_words(ws));
}

proof fn lemma_spans_of_words_bases(ws: Seq<(Seq<char>, Option<Seq<char>>)>)
    requires
        forall|i: int| 0 <= i < ws.len() ==> keeps_every_run(#[trigger] ws[i]),
    ensures
        bases(spans_of_words(ws)) == surfaces(ws),
    decreases ws.len(),
{
    if ws.len() > 0 {
        let p = ws.drop_last();
        assert forall|i: int| 0 <= i < p.len() implies keeps_every_run(#[trigger] p[i]) by {
            assert(p[i] == ws[i]);
        }
        lemma_spans_of_words_bases(p);
        assert(keeps_every_run(ws[ws.len() - 1]));
        lemma_word_reconstructs(ws.last().0, ws.last().1);
        lemma_bases_append(spans_of_words(p), word_spans(ws.last().0, ws.last().1));
    } else {
        assert(bases(Seq::<SegmentView>::empty()) =~= Seq::<char>::empty());
    }
}

/// A word without kanji is a single text span of its surface, whatever its
/// reading.
pub proof fn lemma_kana_word_passthrough(surface: Seq<char>, reading: Option<Seq<char>>)
    requires
        !has_kanji(surface),
    ensures
        word_spans(surface, reading) == seq![SegmentView::Text(surface)],
{
}

/// The spans of one word, as `word_spans` gives them.
pub fn annotate_word(w: &Word) -> (r: Vec<Segment>)
    ensures
        views(r@) == word_spans(word_view(*w).0, word_view(*w).1),
{
    let sc = chars_of(w.surface.as_str());
    match &w.reading {
        Some(rd) => {
            let rc = chars_of(rd.as_str());
            let unknown = rc.len() == 1 && rc[0] == '*';
            if contains_kanji_chars(&sc) && !unknown {
                let h = katakana_to_hiragana(rd.as_str());
                split_ruby(w.surface.as_str(), h.as_str())
            } else {
                let r = vec![Segment::Text { content: w.surface.clone() }];
                assert(views(r@) =~= word_spans(word_view(*w).0, word_view(*w).1));
                r
            }
        },
        None => {
            let r = vec![Segment::Text { content: w.surface.clone() }];
            assert(views(r@) =~= word_spans(word_view(*w).0, word_view(*w).1));
            r
        },
    }
}

/// The annotation of a word sequence: the spans of each word in order,
/// neighbouring text joined, never empty.
pub fn annotate_words(words: &Vec<Word>) -> (r: Vec<Segment>)
    ensures
        views(r@) == annotation_of(word_views(words@)),
        r@.len() > 0,
        no_adjacent_text(views(r@)),
{
    let ghost ws = word_views(words@);
    let mut all: Vec<Segment> = Vec::new();
    let mut i: usize = 0;
    while i < words.len()
        invariant
            ws == word_views(words@),
            i <= words@.len(),
            views(all@) == spans_of_words(ws.subrange(0, i as int)),
        decreases words@.len() - i,
    {
        let mut part = annotate_word(&words[i]);
        let ghost before = views(all@);
        let ghost added = views(part@);
        all.append(&mut part);
        assert(ws.subrange(0, i + 1).drop_last() =~= ws.subrange(0, i as int));
        assert(ws[i as int] == word_view(words@[i as int]));
        assert(views(all@) =~= before + added);
        i = i + 1;
    }
    assert(ws.subrange(0, i as int) =~= ws);
    merge_text_segments(all)
}

/// Annotates `text` with the readings of its kanji. Text that is empty or
/// white space only comes back whole as a single text span, without the
/// dictionary; otherwise the text is split into words by the analyzer, and
/// its failures come back as errors.
pub fn auto_furigana(text: String) -> (r: Result<Vec<Segment>, String>)
    ensures
        is_blank(text@) ==> (r matches Ok(v) && views(v@) == seq![SegmentView::Text(text@)]),
        !is_blank(text@) ==> (r matches Ok(v) ==> views(v@) == annotation_of(analysis_of(text@))),
        r matches Ok(v) ==> v@.len() > 0 && no_adjacent_text(views(v@)),
{
    if is_blank_text(text.as_str()) {
        let r = vec![Segment::Text { content: text }];
        assert(views(r@) =~= seq![SegmentView::Text(text@)]);
        assert(no_adjacent_text(views(r@)));
        return Ok(r);
    }
    let dictionary = match load_ipadic() {
        Ok(d) => d,
        Err(e) => return Err(e),
    };
    let segmenter = segmenter_of(dictionary);
    let words = match analyze(&segmenter, text.as_str()) {
        Ok(ws) => ws,
        Err(e) => return Err(e),
    };
    Ok(annotate_words(&words))
}

} // verus!
