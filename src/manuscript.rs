//! Manuscripts: slides of annotated text, as stored and as shown.
use vstd::prelude::*;
use crate::segment::Segment;

verus! {

/// A manuscript as it is stored: a header and its slides.
#[derive(Debug)]
pub struct ManuscriptFile {
    pub manuscript: ManuscriptMeta,
    pub slides: Vec<SlideEntry>,
}

#[derive(Debug)]
pub struct ManuscriptMeta {
    pub title: String,
    pub created: String,
}

/// A stored slide.
#[derive(Debug)]
pub struct SlideEntry {
    pub key_binding: Option<String>,
    pub segments: Vec<Segment>,
    pub font_size: Option<u32>,
    pub font_color: Option<String>,
}

/// A manuscript as the editor shows it: the header fields beside the slides.
#[derive(Debug)]
pub struct Manuscript {
    pub title: String,
    pub created: String,
    pub slides: Vec<FrontendSlide>,
}

/// A slide as the editor shows it.
#[derive(Debug)]
pub struct FrontendSlide {
    pub segments: Vec<Segment>,
    pub key_binding: Option<String>,
    pub font_size: Option<u32>,
    pub font_color: Option<String>,
}

/// The two forms of a slide hold the same values.
pub open spec fn same_slide(f: FrontendSlide, e: SlideEntry) -> bool {
    &&& f.segments == e.segments
    &&& f.key_binding == e.key_binding
    &&& f.font_size == e.font_size
    &&& f.font_color == e.font_color
}

pub open spec fn same_slides(fs: Seq<FrontendSlide>, es: Seq<SlideEntry>) -> bool {
    &&& fs.len() == es.len()
    &&& forall|i: int| 0 <= i < fs.len() ==> same_slide(#[trigger] fs[i], es[i])
}

impl FrontendSlide {
    pub fn from_entry(e: SlideEntry) -> (r: FrontendSlide)
        ensures
            same_slide(r, e),
    {
        FrontendSlide {
            segments: e.segments,
            key_binding: e.key_binding,
            font_size: e.font_size,
            font_color: e.font_color,
        }
    }
}

impl SlideEntry {
    pub fn from_slide(f: FrontendSlide) -> (r: SlideEntry)
        ensures
            same_slide(f, r),
    {
        SlideEntry {
            key_binding: f.key_binding,
            segments: f.segments,
            font_size: f.font_size,
            font_color: f.font_color,
        }
    }
}

impl Manuscript {
    /// The shown form of a stored manuscript: the header moved beside the
    /// slides, the slides kept in order.
    pub fn from_file(file: ManuscriptFile) -> (r: Manuscript)
        ensures
            r.title == file.manuscript.title,
            r.created == file.manuscript.created,
            same_slides(r.slides@, file.slides@),
    {
        let ManuscriptFile { manuscript, slides } = file;
        let ghost all = slides@;
        let mut rest = slides;
        let mut out: Vec<FrontendSlide> = Vec::new();
        while rest.len() > 0
            invariant
                out@.len() + rest@.len() == all.len(),
                rest@ == all.subrange(out@.len() as int, all.len() as int),
                forall|i: int| 0 <= i < out@.len() ==> same_slide(#[trigger] out@[i], all[i]),
            decreases rest@.len(),
        {
            let ghost k: int = out@.len() as int;
            let e = rest.remove(0);
            out.push(FrontendSlide::from_entry(e));
            assert(rest@ =~= all.subrange(k + 1, all.len() as int));
        }
        Manuscript { title: manuscript.title, created: manuscript.created, slides: out }
    }
}

impl ManuscriptFile {
    /// The stored form of a manuscript: the header fields under their own
    /// heading, the slides kept in order.
    pub fn from_manuscript(m: Manuscript) -> (r: ManuscriptFile)
        ensures
            r.manuscript.title == m.title,
            r.manuscript.created == m.created,
            same_slides(m.slides@, r.slides@),
    {
        let Manuscript { title, created, slides } = m;
        let ghost all = slides@;
        let mut rest = slides;
        let mut out: Vec<SlideEntry> = Vec::new();
        while rest.len() > 0
            invariant
                out@.len() + rest@.len() == all.len(),
                rest@ == all.subrange(out@.len() as int, all.len() as int),
                forall|i: int| 0 <= i < out@.len() ==> same_slide(all[i], #[trigger] out@[i]),
            decreases rest@.len(),
        {
            let ghost k: int = out@.len() as int;
            let f = rest.remove(0);
            out.push(SlideEntry::from_slide(f));
            assert(rest@ =~= all.subrange(k + 1, all.len() as int));
        }
        ManuscriptFile { manuscript: ManuscriptMeta { title, created }, slides: out }
    }
}

} // verus!
