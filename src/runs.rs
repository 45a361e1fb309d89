//! Maximal runs of kanji and of other characters.
use vstd::prelude::*;
use crate::script::{is_kanji, is_kanji_char, chars_of, string_of};

verus! {

/// The runs of `s`, built character by character: a character joins the last
/// run when it has that run's class, and opens a new run otherwise.
pub open spec fn runs_of(s: Seq<char>) -> Seq<(bool, Seq<char>)>
    decreases s.len(),
{
    if s.len() == 0 {
        Seq::empty()
    } else {
        let prev = runs_of(s.drop_last());
        let c = s.last();
        let k = is_kanji(c);
        if prev.len() > 0 && prev.last().0 == k {
            prev.update(prev.len() - 1, (k, prev.last().1.push(c)))
        } else {
            prev.push((k, seq![c]))
        }
    }
}

/// The concatenation of the texts of a run sequence.
pub open spec fn run_texts(rs: Seq<(bool, Seq<char>)>) -> Seq<char>
    decreases rs.len(),
{
    if rs.len() == 0 {
        Seq::empty()
    } else {
        run_texts(rs.drop_last()) + rs.last().1
    }
}

/// Runs are non-empty, hold characters of their own class only, and
/// neighbouring runs differ in class.
pub open spec fn runs_well_formed(rs: Seq<(bool, Seq<char>)>) -> bool {
    &&& forall|i: int| 0 <= i < rs.len() ==> (#[trigger] rs[i]).1.len() > 0
    &&& forall|i: int, j: int|
        0 <= i < rs.len() && 0 <= j < rs[i].1.len() ==> is_kanji(#[trigger] rs[i].1[j]) == rs[i].0
    &&& forall|i: int| 0 <= i < rs.len() - 1 ==> (#[trigger] rs[i]).0 != rs[i + 1].0
}

pub proof fn lemma_run_texts_single(g: (bool, Seq<char>))
    ensures
        run_texts(seq![g]) == g.1,
{
    let one = seq![g];
    assert(one.drop_last() =~= Seq::<(bool, Seq<char>)>::empty());
    assert(run_texts(one.drop_last()) =~= Seq::<char>::empty());
    assert(Seq::<char>::empty() + g.1 =~= g.1);
}

pub proof fn lemma_run_texts_append(a: Seq<(bool, Seq<char>)>, b: Seq<(bool, Seq<char>)>)
    ensures
        run_texts(a + b) == run_texts(a) + run_texts(b),
    decreases b.len(),
{
    if b.len() == 0 {
        assert(a + b =~= a);
        assert(run_texts(a) + run_texts(b) =~= run_texts(a));
    } else {
        assert((a + b).drop_last() =~= a + b.drop_last());
        lemma_run_texts_append(a, b.drop_last());
        assert(run_texts(a) + run_texts(b) =~= run_texts(a) + run_texts(b.drop_last()) + b.last().1);
    }
}

pub proof fn lemma_runs_of(s: Seq<char>)
    ensures
        run_texts(runs_of(s)) == s,
        runs_well_formed(runs_of(s)),
        runs_of(s).len() == 0 <==> s.len() == 0,
        runs_of(s).len() <= s.len(),
    decreases s.len(),
{
    if s.len() > 0 {
        let p = s.drop_last();
        lemma_runs_of(p);
        let prev = runs_of(p);
        let c = s.last();
        let k = is_kanji(c);
        let rs = runs_of(s);
        if prev.len() > 0 && prev.last().0 == k {
            assert(rs.drop_last() =~= prev.drop_last());
            assert(run_texts(prev) == run_texts(prev.drop_last()) + prev.last().1);
            assert(rs.last().1 == prev.last().1.push(c));
            assert(run_texts(rs) == run_texts(prev.drop_last()) + prev.last().1.push(c));
            assert(run_texts(prev.drop_last()) + prev.last().1.push(c) =~= p.push(c));
            assert(p.push(c) =~= s);
        } else {
            assert(rs.drop_last() =~= prev);
            assert(run_texts(rs) == p + seq![c]);
            assert(p + seq![c] =~= s);
        }
    } else {
        assert(run_texts(runs_of(s)) =~= s);
    }
}

pub open spec fn run_views(v: Seq<(bool, Vec<char>)>) -> Seq<(bool, Seq<char>)> {
    v.map_values(|g: (bool, Vec<char>)| (g.0, g.1@))
}

pub open spec fn string_runs(v: Seq<(bool, String)>) -> Seq<(bool, Seq<char>)> {
    v.map_values(|g: (bool, String)| (g.0, g.1@))
}

/// The runs of a character sequence.
pub fn group_chars(s: &Vec<char>) -> (r: Vec<(bool, Vec<char>)>)
    ensures
        run_views(r@) == runs_of(s@),
{
    let mut done: Vec<(bool, Vec<char>)> = Vec::new();
    let mut cur: Vec<char> = Vec::new();
    let mut cur_k: bool = false;
    let mut i: usize = 0;
    while i < s.len()
        invariant
            i <= s@.len(),
            i == 0 ==> done@.len() == 0,
            i > 0 ==> runs_of(s@.subrange(0, i as int)) == run_views(done@).push((cur_k, cur@)),
            i > 0 ==> done@.len() == 0 || done@.last().0 != cur_k,
        decreases s@.len() - i,
    {
        let c = s[i];
        let k = is_kanji_char(c);
        let ghost pre = s@.subrange(0, i as int);
        assert(s@.subrange(0, i + 1).drop_last() =~= pre);
        if i > 0 && k == cur_k {
            cur.push(c);
            assert(runs_of(s@.subrange(0, i + 1)) =~= run_views(done@).push((cur_k, cur@)));
        } else {
            if i > 0 {
                done.push((cur_k, cur));
                assert(run_views(done@) =~= runs_of(pre));
            } else {
                assert(runs_of(pre) =~= Seq::empty());
                assert(run_views(done@) =~= Seq::empty());
            }
            cur = Vec::new();
            cur.push(c);
            cur_k = k;
            assert(runs_of(s@.subrange(0, i + 1)) =~= run_views(done@).push((cur_k, cur@)));
        }
        i = i + 1;
    }
    if i > 0 {
        done.push((cur_k, cur));
        assert(s@.subrange(0, i as int) =~= s@);
        assert(run_views(done@) =~= runs_of(s@));
    } else {
        assert(run_views(done@) =~= runs_of(s@));
    }
    done
}

/// Groups the characters of `s` into alternating runs of kanji and of other
/// characters, in order.
pub fn group_by_char_type(s: &str) -> (r: Vec<(bool, String)>)
    ensures
        string_runs(r@) == runs_of(s@),
{
    let cs = chars_of(s);
    let groups = group_chars(&cs);
    let mut out: Vec<(bool, String)> = Vec::new();
    let mut i: usize = 0;
    while i < groups.len()
        invariant
            i <= groups@.len(),
            out@.len() == i,
            string_runs(out@) == run_views(groups@).subrange(0, i as int),
        decreases groups@.len() - i,
    {
        let t = string_of(groups[i].1.as_slice());
        let ghost before = out@;
        out.push((groups[i].0, t));
        assert(out@ == before.push((groups@[i as int].0, t)));
        assert(t@ == groups@[i as int].1@);
        assert(string_runs(out@).len() == i + 1);
        assert(string_runs(out@)[i as int] == run_views(groups@)[i as int]);
        assert(forall|k: int| 0 <= k < i ==> string_runs(out@)[k] == string_runs(before)[k]);
        assert(string_runs(out@) =~= run_views(groups@).subrange(0, i + 1));
        i = i + 1;
    }
    assert(run_views(groups@).subrange(0, i as int) =~= run_views(groups@));
    out
}

} // verus!
