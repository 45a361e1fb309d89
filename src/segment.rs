//! The spans that annotated text is made of.
use vstd::prelude::*;

verus! {

/// A piece of annotated text: plain text, or a base with its reading (ruby).
#[derive(Debug)]
pub enum Segment {
    Text { content: String },
    Ruby { base: String, reading: String },
}

/// What a `Segment` holds, as sequences of characters.
pub enum SegmentView {
    Text(Seq<char>),
    Ruby(Seq<char>, Seq<char>),
}

impl View for Segment {
    type V = SegmentView;

    open spec fn view(&self) -> SegmentView {
        match self {
            Segment::Text { content } => SegmentView::Text(content@),
            Segment::Ruby { base, reading } => SegmentView::Ruby(base@, reading@),
        }
    }
}

pub open spec fn views(v: Seq<Segment>) -> Seq<SegmentView> {
    v.map_values(|s: Segment| s@)
}

/// The text a span covers in the source: its content, or its base.
pub open spec fn base_of(s: SegmentView) -> Seq<char> {
    match s {
        SegmentView::Text(t) => t,
        SegmentView::Ruby(b, _) => b,
    }
}

/// The concatenation of the bases of a span sequence.
pub open spec fn bases(s: Seq<SegmentView>) -> Seq<char>
    decreases s.len(),
{
    if s.len() == 0 {
        Seq::empty()
    } else {
        bases(s.drop_last()) + base_of(s.last())
    }
}

pub proof fn lemma_bases_single(y: SegmentView)
    ensures
        bases(seq![y]) == base_of(y),
{
    let one = seq![y];
    assert(one.drop_last() =~= Seq::<SegmentView>::empty());
    assert(bases(one.drop_last()) =~= Seq::<char>::empty());
    assert(Seq::<char>::empty() + base_of(y) =~= base_of(y));
}

pub proof fn lemma_bases_append(a: Seq<SegmentView>, b: Seq<SegmentView>)
    ensures
        bases(a + b) == bases(a) + bases(b),
    decreases b.len(),
{
    if b.len() == 0 {
        assert(a + b =~= a);
        assert(bases(b) =~= Seq::<char>::empty());
        assert(bases(a) + bases(b) =~= bases(a));
    } else {
        assert((a + b).drop_last() =~= a + b.drop_last());
        lemma_bases_append(a, b.drop_last());
        assert(bases(a) + bases(b) =~= bases(a) + bases(b.drop_last()) + base_of(b.last()));
    }
}

pub open spec fn is_text(s: SegmentView) -> bool {
    s is Text
}

/// No two neighbouring spans are both plain text.
pub open spec fn no_adjacent_text(s: Seq<SegmentView>) -> bool {
    forall|i: int| 0 <= i < s.len() - 1 ==> !(#[trigger] is_text(s[i]) && is_text(s[i + 1]))
}

impl Segment {
    pub fn text(content: String) -> (r: Segment)
        ensures
            r@ == SegmentView::Text(content@),
    {
        Segment::Text { content }
    }

    pub fn ruby(base: String, reading: String) -> (r: Segment)
        ensures
            r@ == SegmentView::Ruby(base@, reading@),
    {
        Segment::Ruby { base, reading }
    }

    /// A copy that holds the same strings.
    pub fn duplicate(&self) -> (r: Segment)
        ensures
            r@ == self@,
    {
        match self {
            Segment::Text { content } => Segment::Text { content: content.clone() },
            Segment::Ruby { base, reading } => Segment::Ruby {
                base: base.clone(),
                reading: reading.clone(),
            },
        }
    }
}

} // verus!
