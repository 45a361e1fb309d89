//! Font family lists as the settings offer them: ordered without regard to
//! case, duplicates dropped.
use vstd::prelude::*;
use crate::script::code_of;

verus! {

/// The lowercase form of a string, as `str::to_lowercase` gives it.
pub uninterp spec fn lower_of(s: Seq<char>) -> Seq<char>;

/// Relies on str::to_lowercase: the lowercase mapping of each character; the
/// result depends on the characters alone.
#[verifier::external_body]
fn lowercase(s: &str) -> (r: String)
    ensures
        r@ == lower_of(s@),
{
    s.to_lowercase()
}

/// Lexicographic order on characters by their scalar values.
pub open spec fn chars_le(a: Seq<char>, b: Seq<char>) -> bool
    decreases a.len(),
{
    if a.len() == 0 {
        true
    } else if b.len() == 0 {
        false
    } else if a[0] != b[0] {
        code_of(a[0]) < code_of(b[0])
    } else {
        chars_le(a.drop_first(), b.drop_first())
    }
}

/// Relies on `<=` of str: UTF-8 bytes compare as the scalar values they
/// encode, so byte order is `chars_le`.
#[verifier::external_body]
fn str_le(a: &str, b: &str) -> (r: bool)
    ensures
        r == chars_le(a@, b@),
{
    a <= b
}

/// `a` goes no later than `b` when their lowercase forms are in order.
pub open spec fn family_le(a: Seq<char>, b: Seq<char>) -> bool {
    chars_le(lower_of(a), lower_of(b))
}

/// The first index from `k` on whose family sorts after `x`, or the length.
pub open spec fn insert_pos(s: Seq<Seq<char>>, x: Seq<char>, k: int) -> int
    decreases s.len() - k,
{
    if k >= s.len() {
        s.len() as int
    } else if !family_le(s[k], x) {
        k
    } else {
        insert_pos(s, x, k + 1)
    }
}

/// A stable sort by lowercase form: each family is placed after every earlier
/// one that does not sort after it.
pub open spec fn sorted_families(v: Seq<Seq<char>>) -> Seq<Seq<char>>
    decreases v.len(),
{
    if v.len() == 0 {
        Seq::empty()
    } else {
        let s = sorted_families(v.drop_last());
        s.insert(insert_pos(s, v.last(), 0), v.last())
    }
}

/// Runs of equal neighbours reduced to one.
pub open spec fn dedup(v: Seq<Seq<char>>) -> Seq<Seq<char>>
    decreases v.len(),
{
    if v.len() == 0 {
        Seq::empty()
    } else {
        let d = dedup(v.drop_last());
        if d.len() > 0 && d.last() == v.last() {
            d
        } else {
            d.push(v.last())
        }
    }
}

pub open spec fn strings(v: Seq<String>) -> Seq<Seq<char>> {
    v.map_values(|s: String| s@)
}

proof fn lemma_sorted_len(v: Seq<Seq<char>>)
    ensures
        sorted_families(v).len() == v.len(),
    decreases v.len(),
{
    if v.len() > 0 {
        lemma_sorted_len(v.drop_last());
        lemma_insert_pos_bounds(sorted_families(v.drop_last()), v.last(), 0);
    }
}

proof fn lemma_insert_pos_bounds(s: Seq<Seq<char>>, x: Seq<char>, k: int)
    requires
        0 <= k <= s.len(),
    ensures
        k <= insert_pos(s, x, k) <= s.len(),
    decreases s.len() - k,
{
    if k < s.len() && family_le(s[k], x) {
        lemma_insert_pos_bounds(s, x, k + 1);
    }
}

/// Sorts family names by their lowercase form, keeping the given order among
/// names of equal lowercase form.
pub fn sort_families(families: &Vec<String>) -> (r: Vec<String>)
    ensures
        strings(r@) == sorted_families(strings(families@)),
{
    let ghost v = strings(families@);
    let mut out: Vec<String> = Vec::new();
    let mut keys: Vec<String> = Vec::new();
    let mut i: usize = 0;
    while i < families.len()
        invariant
            v == strings(families@),
            i <= families@.len(),
            strings(out@) == sorted_families(v.subrange(0, i as int)),
            keys@.len() == out@.len(),
            forall|k: int| 0 <= k < out@.len() ==> (#[trigger] keys@[k])@ == lower_of(out@[k]@),
        decreases families@.len() - i,
    {
        let ghost s = strings(out@);
        let x = families[i].clone();
        let key = lowercase(x.as_str());
        proof {
            lemma_sorted_len(v.subrange(0, i as int));
        }
        let mut k: usize = 0;
        while k < out.len() && str_le(keys[k].as_str(), key.as_str())
            invariant
                s == strings(out@),
                keys@.len() == out@.len(),
                forall|m: int| 0 <= m < out@.len() ==> (#[trigger] keys@[m])@ == lower_of(out@[m]@),
                key@ == lower_of(x@),
                k <= out@.len(),
                insert_pos(s, x@, 0) == insert_pos(s, x@, k as int),
            decreases out@.len() - k,
        {
            assert(keys@[k as int]@ == lower_of(s[k as int]));
            k = k + 1;
        }
        if k < out.len() {
            assert(keys@[k as int]@ == lower_of(s[k as int]));
        }
        let ghost out0 = out@;
        let ghost keys0 = keys@;
        out.insert(k, x);
        keys.insert(k, key);
        assert(v.subrange(0, i + 1).drop_last() =~= v.subrange(0, i as int));
        assert(strings(out@) =~= s.insert(k as int, v[i as int]));
        assert forall|m: int| 0 <= m < out@.len() implies (#[trigger] keys@[m])@ == lower_of(
            out@[m]@,
        ) by {
            if m < k {
                assert(keys@[m] == keys0[m] && out@[m] == out0[m]);
            } else if m > k {
                assert(keys@[m] == keys0[m - 1] && out@[m] == out0[m - 1]);
            }
        }
        i = i + 1;
    }
    assert(v.subrange(0, i as int) =~= v);
    out
}

/// Drops each name equal to the one before it.
pub fn dedup_families(families: Vec<String>) -> (r: Vec<String>)
    ensures
        strings(r@) == dedup(strings(families@)),
{
    let ghost v = strings(families@);
    let mut out: Vec<String> = Vec::new();
    let mut i: usize = 0;
    while i < families.len()
        invariant
            v == strings(families@),
            i <= families@.len(),
            strings(out@) == dedup(v.subrange(0, i as int)),
        decreases families@.len() - i,
    {
        assert(v.subrange(0, i + 1).drop_last() =~= v.subrange(0, i as int));
        let n = out.len();
        if n > 0 && out[n - 1] == families[i] {
        } else {
            out.push(families[i].clone());
            assert(strings(out@) =~= dedup(v.subrange(0, i as int)).push(v[i as int]));
        }
        i = i + 1;
    }
    assert(v.subrange(0, i as int) =~= v);
    out
}

/// The family names as the settings list them: sorted by lowercase form,
/// stably, then with equal neighbours dropped.
pub fn arrange_font_families(families: Vec<String>) -> (r: Vec<String>)
    ensures
        strings(r@) == dedup(sorted_families(strings(families@))),
{
    let sorted = sort_families(&families);
    dedup_families(sorted)
}

} // verus!
