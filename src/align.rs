//! Alignment of a word's reading against its runs of kanji and kana.
use vstd::prelude::*;
use crate::runs::{group_chars, lemma_run_texts_append, lemma_run_texts_single, lemma_runs_of, run_texts, run_views, runs_of};
use crate::script::{chars_of, hiragana_chars, hiragana_of, string_of};
use crate::segment::{base_of, bases, lemma_bases_append, lemma_bases_single, views, Segment, SegmentView};

verus! {

/// The leftmost index, from `from` on, at which `a` occurs in `rd`.
pub open spec fn first_match(rd: Seq<char>, a: Seq<char>, from: int) -> Option<int>
    decreases rd.len() + 1 - from,
{
    if from < 0 || from + a.len() > rd.len() {
        None
    } else if rd.subrange(from, from + a.len()) == a {
        Some(from)
    } else {
        first_match(rd, a, from + 1)
    }
}

pub open spec fn prepend(p: Seq<SegmentView>, o: Option<Seq<SegmentView>>) -> Option<
    Seq<SegmentView>,
> {
    match o {
        Some(x) => Some(p + x),
        None => None,
    }
}

/// The spans for runs `i..` of `rs` with the reading cursor at `r`, before the
/// annotations with an empty reading are dropped; `None` when the reading does
/// not fit the runs.
///
/// A kana run must stand at the cursor in the reading. A kanji run followed by
/// a kana run reads up to the leftmost occurrence of that run's hiragana; a
/// kanji run at the end reads the rest.
pub open spec fn align(rs: Seq<(bool, Seq<char>)>, rd: Seq<char>, i: int, r: int) -> Option<
    Seq<SegmentView>,
>
    decreases rs.len() - i,
{
    if i < 0 || i >= rs.len() {
        Some(Seq::empty())
    } else if !rs[i].0 {
        let h = hiragana_of(rs[i].1);
        if 0 <= r && r + h.len() <= rd.len() && rd.subrange(r, r + h.len()) == h {
            prepend(seq![SegmentView::Text(rs[i].1)], align(rs, rd, i + 1, r + h.len()))
        } else {
            None
        }
    } else if i + 1 < rs.len() && !rs[i + 1].0 {
        match first_match(rd, hiragana_of(rs[i + 1].1), r) {
            Some(j) => prepend(
                seq![SegmentView::Ruby(rs[i].1, rd.subrange(r, j))],
                align(rs, rd, i + 1, j),
            ),
            None => None,
        }
    } else {
        prepend(
            seq![SegmentView::Ruby(rs[i].1, rd.subrange(r, rd.len() as int))],
            align(rs, rd, i + 1, rd.len() as int),
        )
    }
}

pub open spec fn is_empty_ruby(s: SegmentView) -> bool {
    s matches SegmentView::Ruby(_, rd) && rd.len() == 0
}

/// The spans without the annotations whose reading is empty.
pub open spec fn drop_empty(s: Seq<SegmentView>) -> Seq<SegmentView>
    decreases s.len(),
{
    if s.len() == 0 {
        Seq::empty()
    } else if is_empty_ruby(s.last()) {
        drop_empty(s.drop_last())
    } else {
        drop_empty(s.drop_last()).push(s.last())
    }
}

/// The spans of `surface` read as `rd`, before empty annotations are dropped;
/// `None` when the word falls back to a single annotation.
pub open spec fn raw_spans(surface: Seq<char>, rd: Seq<char>) -> Option<Seq<SegmentView>> {
    let rs = runs_of(surface);
    if rs.len() == 1 {
        None
    } else {
        align(rs, rd, 0, 0)
    }
}

/// The spans of a word: an annotation over each kanji run, the kana as text;
/// the whole word under one annotation when it is all kanji or the reading
/// cannot be aligned.
pub open spec fn split_spans(surface: Seq<char>, rd: Seq<char>) -> Seq<SegmentView> {
    match raw_spans(surface, rd) {
        Some(raw) => drop_empty(raw),
        None => seq![SegmentView::Ruby(surface, rd)],
    }
}

/// The anchor search takes the leftmost occurrence at or after `from`, and
/// finds none only where there is none.
pub proof fn lemma_first_match_leftmost(rd: Seq<char>, a: Seq<char>, from: int)
    requires
        0 <= from,
    ensures
        first_match(rd, a, from) matches Some(j) ==> from <= j && j + a.len() <= rd.len()
            && rd.subrange(j, j + a.len()) == a && forall|k: int|
            from <= k < j ==> #[trigger] rd.subrange(k, k + a.len()) != a,
        first_match(rd, a, from) is None ==> forall|k: int|
            from <= k && k + a.len() <= rd.len() ==> #[trigger] rd.subrange(k, k + a.len()) != a,
    decreases rd.len() + 1 - from,
{
    if from + a.len() <= rd.len() && rd.subrange(from, from + a.len()) != a {
        lemma_first_match_leftmost(rd, a, from + 1);
    }
}

/// Over runs `i..`, a successful alignment covers exactly the texts of those
/// runs.
pub proof fn lemma_align_bases(rs: Seq<(bool, Seq<char>)>, rd: Seq<char>, i: int, r: int)
    requires
        0 <= i <= rs.len(),
    ensures
        align(rs, rd, i, r) matches Some(x) ==> bases(x) == run_texts(rs.subrange(i, rs.len() as int)),
    decreases rs.len() - i,
{
    if i == rs.len() {
        assert(rs.subrange(i, rs.len() as int) =~= Seq::<(bool, Seq<char>)>::empty());
        assert(bases(Seq::<SegmentView>::empty()) =~= Seq::<char>::empty());
    } else {
        let n = rs.len() as int;
        assert(rs.subrange(i, n) =~= seq![rs[i]] + rs.subrange(i + 1, n));
        lemma_run_texts_append(seq![rs[i]], rs.subrange(i + 1, n));
        lemma_run_texts_single(rs[i]);
        let next: int = if !rs[i].0 {
            r + hiragana_of(rs[i].1).len()
        } else if i + 1 < rs.len() && !rs[i + 1].0 {
            match first_match(rd, hiragana_of(rs[i + 1].1), r) {
                Some(j) => j,
                None => 0,
            }
        } else {
            rd.len() as int
        };
        lemma_align_bases(rs, rd, i + 1, next);
        match align(rs, rd, i, r) {
            Some(x) => {
                let y = x[0];
                let rest = x.subrange(1, x.len() as int);
                assert(x =~= seq![y] + rest);
                assert(align(rs, rd, i + 1, next) == Some(rest));
                assert(base_of(y) == rs[i].1);
                lemma_bases_append(seq![y], rest);
                lemma_bases_single(y);
            },
            None => {},
        }
    }
}

/// The spans of a word give back its surface, as long as no kanji run is
/// aligned to an empty reading (such a run is left out of the spans).
pub proof fn lemma_split_reconstructs(surface: Seq<char>, rd: Seq<char>)
    requires
        raw_spans(surface, rd) matches Some(raw) ==> drop_empty(raw) == raw,
    ensures
        bases(split_spans(surface, rd)) == surface,
{
    lemma_runs_of(surface);
    let rs = runs_of(surface);
    match raw_spans(surface, rd) {
        Some(raw) => {
            lemma_align_bases(rs, rd, 0, 0);
            assert(rs.subrange(0, rs.len() as int) =~= rs);
        },
        None => {
            lemma_bases_single(SegmentView::Ruby(surface, rd));
        },
    }
}

/// A copy of `v[from..to]`.
fn copy_range(v: &Vec<char>, from: usize, to: usize) -> (r: Vec<char>)
    requires
        from <= to <= v@.len(),
    ensures
        r@ == v@.subrange(from as int, to as int),
{
    let mut out: Vec<char> = Vec::new();
    let mut k: usize = from;
    while k < to
        invariant
            from <= k <= to <= v@.len(),
            out@ == v@.subrange(from as int, k as int),
        decreases to - k,
    {
        out.push(v[k]);
        assert(out@ =~= v@.subrange(from as int, k + 1));
        k = k + 1;
    }
    out
}

/// Whether `a` stands in `rd` at index `at`.
fn occurs_at(rd: &Vec<char>, a: &Vec<char>, at: usize) -> (r: bool)
    requires
        at + a@.len() <= rd@.len(),
    ensures
        r == (rd@.subrange(at as int, at + a@.len()) == a@),
{
    let n: usize = rd.len();
    let mut k: usize = 0;
    while k < a.len()
        invariant
            n == rd@.len(),
            k <= a@.len(),
            at + a@.len() <= rd@.len(),
            forall|m: int| 0 <= m < k ==> rd@[at + m] == a@[m],
        decreases a@.len() - k,
    {
        assert(at + k < n);
        if rd[at + k] != a[k] {
            assert(rd@.subrange(at as int, at + a@.len())[k as int] != a@[k as int]);
            return false;
        }
        k = k + 1;
    }
    assert(rd@.subrange(at as int, at + a@.len()) =~= a@);
    true
}

/// The leftmost index, from `from` on, at which `a` occurs in `rd`.
fn find_from(rd: &Vec<char>, a: &Vec<char>, from: usize) -> (r: Option<usize>)
    requires
        from <= rd@.len(),
    ensures
        match r {
            Some(j) => first_match(rd@, a@, from as int) == Some(j as int),
            None => first_match(rd@, a@, from as int) is None,
        },
        r matches Some(j) ==> from <= j && j + a@.len() <= rd@.len(),
{
    if a.len() > rd.len() {
        return None;
    }
    let last = rd.len() - a.len();
    let mut j: usize = from;
    if from > last {
        return None;
    }
    while j <= last
        invariant
            from <= j <= last,
            last + a@.len() == rd@.len(),
            first_match(rd@, a@, from as int) == first_match(rd@, a@, j as int),
        decreases last - j,
    {
        if occurs_at(rd, a, j) {
            return Some(j);
        }
        if j == last {
            assert(first_match(rd@, a@, j + 1) is None);
            return None;
        }
        j = j + 1;
    }
    None
}

/// Splits a word into plain text for its kana and annotations for its kanji,
/// reading `reading` (in hiragana) against the word's runs; see `split_spans`.
pub fn split_ruby(surface: &str, reading: &str) -> (r: Vec<Segment>)
    ensures
        views(r@) == split_spans(surface@, reading@),
{
    let sc = chars_of(surface);
    let rd = chars_of(reading);
    let groups = group_chars(&sc);
    let ghost rs = run_views(groups@);
    proof {
        lemma_runs_of(surface@);
    }
    if groups.len() == 1 {
        let r = vec![Segment::ruby(string_of(sc.as_slice()), string_of(rd.as_slice()))];
        assert(views(r@) =~= split_spans(surface@, reading@));
        return r;
    }
    let mut segments: Vec<Segment> = Vec::new();
    let ghost mut raw: Seq<SegmentView> = Seq::empty();
    let mut pos: usize = 0;
    let mut i: usize = 0;
    assert(prepend(raw, align(rs, rd@, 0, 0)) == align(rs, rd@, 0, 0)) by {
        match align(rs, rd@, 0, 0) {
            Some(x) => assert(raw + x =~= x),
            None => {},
        }
    }
    while i < groups.len()
        invariant
            rs == run_views(groups@),
            rs == runs_of(sc@),
            sc@ == surface@,
            rd@ == reading@,
            rs.len() != 1,
            i <= rs.len(),
            pos <= rd@.len(),
            align(rs, rd@, 0, 0) == prepend(raw, align(rs, rd@, i as int, pos as int)),
            views(segments@) == drop_empty(raw),
        decreases rs.len() - i,
    {
        let ghost before = raw;
        let ghost seg_before = segments@;
        let text = string_of(groups[i].1.as_slice());
        let ghost x: SegmentView;
        if !groups[i].0 {
            let h = hiragana_chars(&groups[i].1);
            if h.len() <= rd.len() - pos && occurs_at(&rd, &h, pos) {
                proof {
                    x = SegmentView::Text(rs[i as int].1);
                }
                segments.push(Segment::text(text));
                assert(views(segments@) =~= views(seg_before).push(x));
                pos = pos + h.len();
            } else {
                let fallback = vec![Segment::ruby(string_of(sc.as_slice()), string_of(rd.as_slice()))];
                assert(views(fallback@) =~= split_spans(surface@, reading@));
                return fallback;
            }
        } else if i + 1 < groups.len() && !groups[i + 1].0 {
            let anchor = hiragana_chars(&groups[i + 1].1);
            match find_from(&rd, &anchor, pos) {
                Some(j) => {
                    let rr = copy_range(&rd, pos, j);
                    proof {
                        x = SegmentView::Ruby(rs[i as int].1, rd@.subrange(pos as int, j as int));
                    }
                    if j > pos {
                        segments.push(Segment::ruby(text, string_of(rr.as_slice())));
                        assert(views(segments@) =~= views(seg_before).push(x));
                    } else {
                        assert(is_empty_ruby(x));
                    }
                    pos = j;
                },
                None => {
                    let fallback = vec![Segment::ruby(string_of(sc.as_slice()), string_of(rd.as_slice()))];
                    assert(views(fallback@) =~= split_spans(surface@, reading@));
                    return fallback;
                },
            }
        } else {
            let rr = copy_range(&rd, pos, rd.len());
            proof {
                x = SegmentView::Ruby(rs[i as int].1, rd@.subrange(pos as int, rd@.len() as int));
            }
            if rd.len() > pos {
                segments.push(Segment::ruby(text, string_of(rr.as_slice())));
                assert(views(segments@) =~= views(seg_before).push(x));
            } else {
                assert(is_empty_ruby(x));
            }
            pos = rd.len();
        }
        proof {
            raw = before.push(x);
            assert(raw.drop_last() =~= before);
            assert(before + seq![x] =~= raw);
            match align(rs, rd@, i + 1, pos as int) {
                Some(y) => assert(before + (seq![x] + y) =~= raw + y),
                None => {},
            }
            assert(raw.last() == x);
            if is_empty_ruby(x) {
                assert(segments@ == seg_before);
            }
            assert(views(segments@) =~= drop_empty(raw));
        }
        i = i + 1;
    }
    assert(prepend(raw, align(rs, rd@, i as int, pos as int)) == Some(raw)) by {
        assert(raw + Seq::<SegmentView>::empty() =~= raw);
    }
    segments
}

} // verus!
