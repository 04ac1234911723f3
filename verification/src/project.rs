use vstd::prelude::*;

use crate::error::Error;
use crate::render::{Html, Typesetter};

verus! {

/// The locales a project can be written in; each selects a typography rule
/// set of the markup compiler.
#[derive(Debug, Clone, Copy, PartialEq, Eq, Structural)]
pub enum Language {
    Fr,
    En,
}

impl Language {
    /// The name under which a locale appears in template contexts.
    pub open spec fn spec_code(self) -> Seq<char> {
        match self {
            Language::Fr => "Fr"@,
            Language::En => "En"@,
        }
    }

    pub fn code(&self) -> (r: &'static str)
        ensures
            r@ == self.spec_code(),
    {
        match self {
            Language::Fr => "Fr",
            Language::En => "En",
        }
    }
}

/// A cover image: the extension of its source file and its raw bytes.
#[derive(Debug, Clone, PartialEq, Eq)]
pub struct Cover {
    pub extension: String,
    pub content: Vec<u8>,
}

/// A chapter: an optional title and an ordered run of leaf items.  Before
/// rendering a leaf is an unresolved document identifier; after rendering it
/// is compiled output.
#[derive(Debug, Clone, PartialEq, Eq)]
pub struct Chapter<I> {
    pub title: Option<String>,
    pub content: Vec<I>,
}

/// A part: an optional title and an ordered run of chapters.  Parts cannot
/// nest.
#[derive(Debug, Clone, PartialEq, Eq)]
pub struct Part<I> {
    pub title: Option<String>,
    pub content: Vec<Chapter<I>>,
}

/// The body of a project: either a run of parts or a bare run of chapters,
/// never both.
#[derive(Debug, Clone, PartialEq, Eq)]
pub enum Content<I> {
    WithParts(Vec<Part<I>>),
    WithChapters(Vec<Chapter<I>>),
}

/// A whole project, generic over the cover representation and the leaf type.
#[derive(Debug, Clone, PartialEq, Eq)]
pub struct Project<C, I> {
    pub author: String,
    pub title: String,
    pub description: Option<String>,
    pub cover: Option<C>,
    pub numbering: Option<bool>,
    pub language: Language,
    pub content: Content<I>,
}

/// The documents of a run of chapters, in document order.
pub open spec fn chapters_docs<I>(cs: Seq<Chapter<I>>) -> Seq<I>
    decreases cs.len(),
{
    if cs.len() == 0 {
        Seq::empty()
    } else {
        chapters_docs(cs.drop_last()) + cs.last().content@
    }
}

/// The documents of a run of parts, in document order.
pub open spec fn parts_docs<I>(ps: Seq<Part<I>>) -> Seq<I>
    decreases ps.len(),
{
    if ps.len() == 0 {
        Seq::empty()
    } else {
        parts_docs(ps.drop_last()) + ps.last().docs()
    }
}

pub proof fn lemma_chapters_docs_push<I>(cs: Seq<Chapter<I>>, c: Chapter<I>)
    ensures
        chapters_docs(cs.push(c)) == chapters_docs(cs) + c.content@,
{
    assert(cs.push(c).drop_last() =~= cs);
}

pub proof fn lemma_parts_docs_push<I>(ps: Seq<Part<I>>, p: Part<I>)
    ensures
        parts_docs(ps.push(p)) == parts_docs(ps) + p.docs(),
{
    assert(ps.push(p).drop_last() =~= ps);
}

/// The documents of a chapter run split at `j`: those of the first `j`
/// chapters, then chapter `j`'s own, then the rest.
pub proof fn lemma_chapters_docs_split<I>(cs: Seq<Chapter<I>>, j: int)
    requires
        0 <= j < cs.len(),
    ensures
        chapters_docs(cs) == chapters_docs(cs.take(j)) + cs[j].content@ + chapters_docs(
            cs.skip(j + 1),
        ),
    decreases cs.len(),
{
    if j + 1 == cs.len() {
        assert(cs.drop_last() =~= cs.take(j));
        assert(cs.skip(j + 1) =~= Seq::empty());
        assert(chapters_docs(cs.take(j)) + cs[j].content@ + Seq::<I>::empty() =~= chapters_docs(
            cs.take(j),
        ) + cs[j].content@);
    } else {
        lemma_chapters_docs_split(cs.drop_last(), j);
        assert(cs.drop_last().take(j) =~= cs.take(j));
        assert(cs.drop_last().skip(j + 1) =~= cs.skip(j + 1).drop_last());
        assert(chapters_docs(cs) == chapters_docs(cs.drop_last()) + cs.last().content@);
        assert(chapters_docs(cs.skip(j + 1)) == chapters_docs(cs.skip(j + 1).drop_last())
            + cs.last().content@) by {
            assert(cs.skip(j + 1).len() > 0);
            assert(cs.skip(j + 1).last() == cs.last());
        }
        assert(chapters_docs(cs) =~= chapters_docs(cs.take(j)) + cs[j].content@ + chapters_docs(
            cs.skip(j + 1),
        ));
    }
}

/// The documents of a part run split at `j`.
pub proof fn lemma_parts_docs_split<I>(ps: Seq<Part<I>>, j: int)
    requires
        0 <= j < ps.len(),
    ensures
        parts_docs(ps) == parts_docs(ps.take(j)) + ps[j].docs() + parts_docs(ps.skip(j + 1)),
    decreases ps.len(),
{
    if j + 1 == ps.len() {
        assert(ps.drop_last() =~= ps.take(j));
        assert(ps.skip(j + 1) =~= Seq::empty());
        assert(parts_docs(ps.take(j)) + ps[j].docs() + Seq::<I>::empty() =~= parts_docs(
            ps.take(j),
        ) + ps[j].docs());
    } else {
        lemma_parts_docs_split(ps.drop_last(), j);
        assert(ps.drop_last().take(j) =~= ps.take(j));
        assert(ps.drop_last().skip(j + 1) =~= ps.skip(j + 1).drop_last());
        assert(parts_docs(ps) == parts_docs(ps.drop_last()) + ps.last().docs());
        assert(parts_docs(ps.skip(j + 1)) == parts_docs(ps.skip(j + 1).drop_last())
            + ps.last().docs()) by {
            assert(ps.skip(j + 1).len() > 0);
            assert(ps.skip(j + 1).last() == ps.last());
        }
        assert(parts_docs(ps) =~= parts_docs(ps.take(j)) + ps[j].docs() + parts_docs(
            ps.skip(j + 1),
        ));
    }
}

impl<I> Part<I> {
    /// The documents of a part, in document order.
    pub open spec fn docs(self) -> Seq<I> {
        chapters_docs(self.content@)
    }
}

/// The documents of two chapter runs laid end to end.
pub proof fn lemma_chapters_docs_concat<I>(a: Seq<Chapter<I>>, b: Seq<Chapter<I>>)
    ensures
        chapters_docs(a + b) == chapters_docs(a) + chapters_docs(b),
    decreases b.len(),
{
    if b.len() == 0 {
        assert(a + b =~= a);
        assert(chapters_docs(a) + chapters_docs(b) =~= chapters_docs(a));
    } else {
        lemma_chapters_docs_concat(a, b.drop_last());
        assert((a + b).drop_last() =~= a + b.drop_last());
        assert((a + b).last() == b.last());
        assert(chapters_docs(a) + (chapters_docs(b.drop_last()) + b.last().content@)
            =~= chapters_docs(a) + chapters_docs(b.drop_last()) + b.last().content@);
    }
}

/// The number of chapters held by the first `p` parts: the global index of
/// the first chapter of part `p`.
pub open spec fn chapters_before<I>(ps: Seq<Part<I>>, p: int) -> int
    decreases p,
{
    if p <= 0 {
        0
    } else {
        chapters_before(ps, p - 1) + ps[p - 1].content@.len()
    }
}

/// Earlier prefixes of a part run never hold more chapters than later ones.
pub proof fn lemma_chapters_before_mono<I>(ps: Seq<Part<I>>, p: int, q: int)
    requires
        0 <= p <= q,
    ensures
        chapters_before(ps, p) <= chapters_before(ps, q),
    decreases q - p,
{
    if q > p {
        lemma_chapters_before_mono(ps, p, q - 1);
    }
}

impl<I> Content<I> {
    /// The flattened chapter sequence: all chapters in depth-first
    /// left-to-right order, the canonical numbering basis of every backend.
    pub open spec fn flat(self) -> Seq<Chapter<I>> {
        match self {
            Content::WithChapters(cs) => cs@,
            Content::WithParts(ps) => ps@.map(|i: int, p: Part<I>| p.content@).flatten(),
        }
    }

    /// The flattened document sequence: every chapter's leaves, in document
    /// order.
    pub open spec fn docs(self) -> Seq<I> {
        match self {
            Content::WithChapters(cs) => chapters_docs(cs@),
            Content::WithParts(ps) => parts_docs(ps@),
        }
    }

    /// Flattens the tree into the chapter sequence that numbering is based
    /// on: for a chapter tree the chapters as they stand, for a part tree
    /// each part's chapters in part order.
    pub fn chapters(&self) -> (r: Vec<&Chapter<I>>)
        ensures
            r@.len() == self.flat().len(),
            forall|i: int| 0 <= i < r@.len() ==> *r@[i] == self.flat()[i],
    {
        let mut res: Vec<&Chapter<I>> = Vec::new();
        match self {
            Content::WithChapters(cs) => {
                let n = cs.len();
                let mut j: usize = 0;
                while j < n
                    invariant
                        n == cs@.len(),
                        j <= n,
                        res@.len() == j,
                        forall|i: int| 0 <= i < j ==> *res@[i] == cs@[i],
                    decreases n - j,
                {
                    res.push(&cs[j]);
                    j += 1;
                }
            }
            Content::WithParts(ps) => {
                let np = ps.len();
                let mut p: usize = 0;
                while p < np
                    invariant
                        np == ps@.len(),
                        p <= np,
                        res@.len() == ps@.take(p as int).map(
                            |i: int, q: Part<I>| q.content@,
                        ).flatten().len(),
                        forall|i: int|
                            0 <= i < res@.len() ==> *res@[i] == ps@.take(p as int).map(
                                |k: int, q: Part<I>| q.content@,
                            ).flatten()[i],
                    decreases np - p,
                {
                    let part = &ps[p];
                    let nc = part.content.len();
                    let mut j: usize = 0;
                    while j < nc
                        invariant
                            nc == part.content@.len(),
                            j <= nc,
                            part == &ps@[p as int],
                            p < np,
                            np == ps@.len(),
                            res@.len() == ps@.take(p as int).map(
                                |i: int, q: Part<I>| q.content@,
                            ).flatten().len() + j,
                            forall|i: int|
                                0 <= i < res@.len() - j ==> *res@[i] == ps@.take(p as int).map(
                                    |k: int, q: Part<I>| q.content@,
                                ).flatten()[i],
                            forall|i: int|
                                0 <= i < j ==> *res@[res@.len() - j + i] == part.content@[i],
                        decreases nc - j,
                    {
                        res.push(&part.content[j]);
                        j += 1;
                    }
                    proof {
                        let f = |i: int, q: Part<I>| q.content@;
                        assert(ps@.take(p + 1).map(f) =~= ps@.take(p as int).map(f).push(
                            ps@[p as int].content@,
                        ));
                        ps@.take(p as int).map(f).lemma_flatten_push(ps@[p as int].content@);
                        assert(ps@.take(p + 1).map(f).flatten() =~= ps@.take(p as int).map(
                            f,
                        ).flatten() + ps@[p as int].content@);
                    }
                    p += 1;
                }
                proof {
                    assert(ps@.take(np as int) =~= ps@);
                }
            }
        }
        res
    }
}

/// How many chapters the first `p` parts flatten to: `chapters_before` names
/// the length of the flattened prefix.
proof fn lemma_chapters_before_is_flat_len<I>(ps: Seq<Part<I>>, p: int)
    requires
        0 <= p <= ps.len(),
    ensures
        chapters_before(ps, p) == ps.take(p).map(|i: int, q: Part<I>| q.content@).flatten().len(),
    decreases p,
{
    let f = |i: int, q: Part<I>| q.content@;
    if p == 0 {
        assert(ps.take(0).map(f) =~= Seq::empty());
    } else {
        lemma_chapters_before_is_flat_len(ps, p - 1);
        assert(ps.take(p).map(f) =~= ps.take(p - 1).map(f).push(ps[p - 1].content@));
        ps.take(p - 1).map(f).lemma_flatten_push(ps[p - 1].content@);
    }
}

/// Law: flattening a part tree is depth-first and left-to-right.  Chapter
/// `j` of part `p` stands at global index `chapters_before(ps, p) + j`, and
/// the flattened sequence holds exactly the parts' chapters.
pub proof fn lemma_flat_of_parts<I>(c: Content<I>, p: int, j: int)
    requires
        c is WithParts,
        0 <= p < c->WithParts_0@.len(),
        0 <= j < c->WithParts_0@[p].content@.len(),
    ensures
        c.flat().len() == chapters_before(c->WithParts_0@, c->WithParts_0@.len() as int),
        0 <= chapters_before(c->WithParts_0@, p) + j < c.flat().len(),
        c.flat()[chapters_before(c->WithParts_0@, p) + j] == c->WithParts_0@[p].content@[j],
{
    let ps = c->WithParts_0;
    let f = |i: int, q: Part<I>| q.content@;
    lemma_chapters_before_is_flat_len(ps@, p);
    lemma_chapters_before_is_flat_len(ps@, ps@.len() as int);
    assert(ps@.take(ps@.len() as int) =~= ps@);
    lemma_flat_prefix_index(ps@, p, j);
}

/// Chapter `j` of part `p` stands right after the flattened first `p` parts.
proof fn lemma_flat_prefix_index<I>(ps: Seq<Part<I>>, p: int, j: int)
    requires
        0 <= p < ps.len(),
        0 <= j < ps[p].content@.len(),
    ensures
        chapters_before(ps, p) + j < ps.map(|i: int, q: Part<I>| q.content@).flatten().len(),
        ps.map(|i: int, q: Part<I>| q.content@).flatten()[chapters_before(ps, p) + j]
            == ps[p].content@[j],
    decreases ps.len() - p,
{
    let f = |i: int, q: Part<I>| q.content@;
    lemma_chapters_before_is_flat_len(ps, p);
    lemma_flat_split(ps, p);
    let pre = ps.take(p).map(f).flatten();
    let post = ps.skip(p).map(f).flatten();
    // the first part of the suffix contributes its chapters first
    assert(ps.skip(p).map(f) =~= seq![ps[p].content@] + ps.skip(p + 1).map(f));
    vstd::seq_lib::lemma_flatten_concat(seq![ps[p].content@], ps.skip(p + 1).map(f));
    seq![ps[p].content@].lemma_flatten_singleton();
    assert(post[j] == ps[p].content@[j]);
}

/// Splitting the parts at `p` splits the flattened chapters accordingly.
proof fn lemma_flat_split<I>(ps: Seq<Part<I>>, p: int)
    requires
        0 <= p <= ps.len(),
    ensures
        ps.map(|i: int, q: Part<I>| q.content@).flatten() == ps.take(p).map(
            |i: int, q: Part<I>| q.content@,
        ).flatten() + ps.skip(p).map(|i: int, q: Part<I>| q.content@).flatten(),
{
    let f = |i: int, q: Part<I>| q.content@;
    assert(ps.take(p).map(f) =~= ps.map(f).take(p));
    assert(ps.skip(p).map(f) =~= ps.map(f).skip(p));
    vstd::seq_lib::lemma_flatten_concat(ps.map(f).take(p), ps.map(f).skip(p));
    assert(ps.map(f).take(p) + ps.map(f).skip(p) =~= ps.map(f));
}

/// One document fetch: the identifier that was asked for and the text that
/// came back, if it could be read.
pub ghost struct DocFetch<I> {
    pub id: I,
    pub text: Option<Seq<char>>,
}

/// The capability a project is loaded through.  The identifier types are
/// the concrete implementation's own; the loader records every document
/// fetch, in order, so that the render transform can state which documents
/// it read and in what order.
/// One cover fetch: the identifier asked for and the cover that came back,
/// if it could be resolved.
pub ghost struct CoverFetch<I> {
    pub id: I,
    pub cover: Option<Cover>,
}

pub trait Loader {
    type ProjId;

    type CovId;

    type DocId;

    /// The ordered record of every document fetch made through this loader.
    /// A concrete implementation overrides this with its own model; the
    /// default stands only so that implementations outside the verifier
    /// need not name it.
    open spec fn doc_log(&self) -> Seq<DocFetch<Self::DocId>> {
        Seq::empty()
    }

    /// The ordered record of every cover fetch made through this loader; a
    /// concrete implementation overrides it like `doc_log`.
    open spec fn cover_log(&self) -> Seq<CoverFetch<Self::CovId>> {
        Seq::empty()
    }

    /// Resolves the project descriptor into the unrendered tree.
    fn load_project(&self, id: &Self::ProjId) -> (r: Result<
        Project<Self::CovId, Self::DocId>,
        Error,
    >);

    /// Resolves a cover identifier into its extension and bytes, recording
    /// the fetch.
    fn load_cover(&mut self, id: &Self::CovId) -> (r: Result<Cover, Error>)
        ensures
            final(self).cover_log() == old(self).cover_log().push(
                CoverFetch {
                    id: *id,
                    cover: match r {
                        Ok(c) => Some(c),
                        Err(_) => None,
                    },
                },
            ),
            final(self).doc_log() == old(self).doc_log(),
    ;

    /// Resolves a document identifier into its raw text, recording the
    /// fetch.
    fn load_document(&mut self, id: &Self::DocId) -> (r: Result<String, Error>)
        ensures
            final(self).doc_log() == old(self).doc_log().push(
                DocFetch {
                    id: *id,
                    text: match r {
                        Ok(s) => Some(s@),
                        Err(_) => None,
                    },
                },
            ),
            final(self).cover_log() == old(self).cover_log(),
    ;
}

/// Every fetch succeeded, asked for the expected identifier in order, and
/// returned a document the compiler accepts.
pub open spec fn fetched_ok<I, T: Typesetter>(
    ts: T,
    lang: Language,
    fetched: Seq<DocFetch<I>>,
    ids: Seq<I>,
) -> bool {
    &&& fetched.len() == ids.len()
    &&& forall|i: int|
        0 <= i < fetched.len() ==> {
            &&& (#[trigger] fetched[i]).id == ids[i]
            &&& fetched[i].text is Some
            &&& ts.accepts(fetched[i].text.unwrap(), lang)
        }
}

/// Each rendered leaf is the compiler's output for the fetched text at the
/// same position.
pub open spec fn outputs_match<I, T: Typesetter>(
    ts: T,
    lang: Language,
    fetched: Seq<DocFetch<I>>,
    outs: Seq<Html>,
) -> bool {
    &&& outs.len() == fetched.len()
    &&& forall|i: int|
        0 <= i < outs.len() ==> (#[trigger] outs[i])@ == ts.output(fetched[i].text.unwrap(), lang)
}

/// The walk failed at document `k` in document order: the first `k`
/// documents were fetched and accepted, document `k` was fetched and either
/// could not be read or was rejected, and nothing after `k` was touched.
pub open spec fn failed_at<I, T: Typesetter>(
    ts: T,
    lang: Language,
    fetched: Seq<DocFetch<I>>,
    ids: Seq<I>,
    k: int,
) -> bool {
    &&& 0 <= k < ids.len()
    &&& fetched.len() == k + 1
    &&& forall|i: int| 0 <= i <= k ==> (#[trigger] fetched[i]).id == ids[i]
    &&& forall|i: int|
        0 <= i < k ==> (#[trigger] fetched[i]).text is Some && ts.accepts(
            fetched[i].text.unwrap(),
            lang,
        )
    &&& (fetched[k].text is None || !ts.accepts(fetched[k].text.unwrap(), lang))
}

/// Chapters of equal shape: as many of them, with the same titles and as
/// many leaves each; only the leaf payload may differ.
pub open spec fn chapters_same_shape<A, B>(x: Seq<Chapter<A>>, y: Seq<Chapter<B>>) -> bool {
    &&& y.len() == x.len()
    &&& forall|i: int|
        0 <= i < x.len() ==> (#[trigger] y[i]).title == x[i].title && y[i].content@.len()
            == x[i].content@.len()
}

/// Parts of equal shape: as many of them, with the same titles and
/// equally-shaped chapters.
pub open spec fn parts_same_shape<A, B>(x: Seq<Part<A>>, y: Seq<Part<B>>) -> bool {
    &&& y.len() == x.len()
    &&& forall|i: int|
        0 <= i < x.len() ==> (#[trigger] y[i]).title == x[i].title && chapters_same_shape(
            x[i].content@,
            y[i].content@,
        )
}

/// Trees of equal shape: the same variant, part count, part titles, and
/// chapter shapes; only the leaf payload may differ.
pub open spec fn same_shape<A, B>(a: Content<A>, b: Content<B>) -> bool {
    match (a, b) {
        (Content::WithChapters(x), Content::WithChapters(y)) => chapters_same_shape(x@, y@),
        (Content::WithParts(x), Content::WithParts(y)) => parts_same_shape(x@, y@),
        _ => false,
    }
}

impl<I> Chapter<I> {
    /// Renders one chapter: fetches each leaf document in order and
    /// compiles it, stopping at the first leaf that cannot be read or is
    /// rejected by the compiler.
    pub fn load_and_render<L, T>(&self, loader: &mut L, ts: &T, lang: Language) -> (r: Result<
        Chapter<Html>,
        Error,
    >) where L: Loader<DocId = I>, T: Typesetter
        ensures
            old(loader).doc_log().is_prefix_of(final(loader).doc_log()),
            final(loader).cover_log() == old(loader).cover_log(),
            ({
                let fetched = final(loader).doc_log().skip(old(loader).doc_log().len() as int);
                match r {
                    Ok(c2) => {
                        &&& c2.title == self.title
                        &&& fetched_ok(*ts, lang, fetched, self.content@)
                        &&& outputs_match(*ts, lang, fetched, c2.content@)
                    },
                    Err(_) => exists|k: int| failed_at(*ts, lang, fetched, self.content@, k),
                }
            }),
    {
        let ghost base = loader.doc_log();
        let title = match &self.title {
            None => None,
            Some(s) => Some(s.clone()),
        };
        let n = self.content.len();
        let mut out: Vec<Html> = Vec::new();
        let mut j: usize = 0;
        while j < n
            invariant
                n == self.content@.len(),
                j <= n,
                out@.len() == j,
                base == old(loader).doc_log(),
                base.is_prefix_of(loader.doc_log()),
                loader.cover_log() == old(loader).cover_log(),
                loader.doc_log().len() == base.len() + j,
                fetched_ok(
                    *ts,
                    lang,
                    loader.doc_log().skip(base.len() as int),
                    self.content@.take(j as int),
                ),
                outputs_match(*ts, lang, loader.doc_log().skip(base.len() as int), out@),
            decreases n - j,
        {
            let ghost before = loader.doc_log();
            match loader.load_document(&self.content[j]) {
                Ok(text) => {
                    proof {
                        assert(loader.doc_log().skip(base.len() as int) =~= before.skip(
                            base.len() as int,
                        ).push(DocFetch { id: self.content@[j as int], text: Some(text@) }));
                    }
                    match ts.compile(text.as_str(), lang) {
                        Ok(h) => {
                            out.push(h);
                            j += 1;
                            proof {
                                assert(self.content@.take(j as int) =~= self.content@.take(
                                    j - 1,
                                ).push(self.content@[j - 1]));
                            }
                        }
                        Err(e) => {
                            proof {
                                let fetched = loader.doc_log().skip(base.len() as int);
                                assert(failed_at(*ts, lang, fetched, self.content@, j as int));
                            }
                            return Err(e);
                        }
                    }
                }
                Err(e) => {
                    proof {
                        let fetched = loader.doc_log().skip(base.len() as int);
                        assert(fetched =~= before.skip(base.len() as int).push(
                            DocFetch { id: self.content@[j as int], text: None },
                        ));
                        assert(failed_at(*ts, lang, fetched, self.content@, j as int));
                    }
                    return Err(e);
                }
            }
        }
        proof {
            assert(self.content@.take(n as int) =~= self.content@);
        }
        Ok(Chapter { title, content: out })
    }
}

impl<I> Part<I> {
    /// Renders one part: every chapter in order, stopping at the first
    /// document that cannot be read or is rejected.
    pub fn load_and_render<L, T>(&self, loader: &mut L, ts: &T, lang: Language) -> (r: Result<
        Part<Html>,
        Error,
    >) where L: Loader<DocId = I>, T: Typesetter
        ensures
            old(loader).doc_log().is_prefix_of(final(loader).doc_log()),
            final(loader).cover_log() == old(loader).cover_log(),
            ({
                let fetched = final(loader).doc_log().skip(old(loader).doc_log().len() as int);
                match r {
                    Ok(p2) => {
                        &&& p2.title == self.title
                        &&& chapters_same_shape(self.content@, p2.content@)
                        &&& fetched_ok(*ts, lang, fetched, self.docs())
                        &&& outputs_match(*ts, lang, fetched, p2.docs())
                    },
                    Err(_) => exists|k: int| failed_at(*ts, lang, fetched, self.docs(), k),
                }
            }),
    {
        let ghost base = loader.doc_log();
        let title = match &self.title {
            None => None,
            Some(s) => Some(s.clone()),
        };
        let r = render_chapters(&self.content, loader, ts, lang);
        match r {
            Ok(out) => Ok(Part { title, content: out }),
            Err(e) => {
                proof {
                    let fetched = loader.doc_log().skip(base.len() as int);
                    let k = choose|k: int|
                        failed_at(*ts, lang, fetched, chapters_docs(self.content@), k);
                    assert(failed_at(*ts, lang, fetched, self.docs(), k));
                }
                Err(e)
            }
        }
    }
}

/// Renders a run of chapters in order; the shared walk of parts and bare
/// chapter trees.
fn render_chapters<I, L, T>(cs: &Vec<Chapter<I>>, loader: &mut L, ts: &T, lang: Language) -> (r:
    Result<Vec<Chapter<Html>>, Error>) where L: Loader<DocId = I>, T: Typesetter
    ensures
        old(loader).doc_log().is_prefix_of(final(loader).doc_log()),
        final(loader).cover_log() == old(loader).cover_log(),
        ({
            let fetched = final(loader).doc_log().skip(old(loader).doc_log().len() as int);
            match r {
                Ok(out) => {
                    &&& chapters_same_shape(cs@, out@)
                    &&& fetched_ok(*ts, lang, fetched, chapters_docs(cs@))
                    &&& outputs_match(*ts, lang, fetched, chapters_docs(out@))
                },
                Err(_) => exists|k: int| failed_at(*ts, lang, fetched, chapters_docs(cs@), k),
            }
        }),
{
    let ghost base = loader.doc_log();
    let ghost ids = chapters_docs(cs@);
    let n = cs.len();
    let mut out: Vec<Chapter<Html>> = Vec::new();
    let mut j: usize = 0;
    while j < n
        invariant
            n == cs@.len(),
            j <= n,
            out@.len() == j,
            base == old(loader).doc_log(),
            ids == chapters_docs(cs@),
            base.is_prefix_of(loader.doc_log()),
            loader.cover_log() == old(loader).cover_log(),
            chapters_same_shape(cs@.take(j as int), out@),
            fetched_ok(
                *ts,
                lang,
                loader.doc_log().skip(base.len() as int),
                chapters_docs(cs@.take(j as int)),
            ),
            outputs_match(*ts, lang, loader.doc_log().skip(base.len() as int), chapters_docs(out@)),
        decreases n - j,
    {
        let ghost before = loader.doc_log();
        let ghost fetched0 = before.skip(base.len() as int);
        let ghost done = chapters_docs(cs@.take(j as int));
        match cs[j].load_and_render(loader, ts, lang) {
            Ok(c2) => {
                proof {
                    let cf = loader.doc_log().skip(before.len() as int);
                    assert(loader.doc_log().skip(base.len() as int) =~= fetched0 + cf);
                    assert(cs@.take(j + 1) =~= cs@.take(j as int).push(cs@[j as int]));
                    lemma_chapters_docs_push(cs@.take(j as int), cs@[j as int]);
                    lemma_chapters_docs_push(out@, c2);
                }
                out.push(c2);
                j += 1;
            }
            Err(e) => {
                proof {
                    let cf = loader.doc_log().skip(before.len() as int);
                    let fetched = loader.doc_log().skip(base.len() as int);
                    assert(fetched =~= fetched0 + cf);
                    let kc = choose|kc: int| failed_at(*ts, lang, cf, cs@[j as int].content@, kc);
                    let k = done.len() + kc;
                    lemma_chapters_docs_split(cs@, j as int);
                    assert(ids == done + cs@[j as int].content@ + chapters_docs(cs@.skip(j + 1)));
                    assert(failed_at(*ts, lang, fetched, ids, k as int)) by {
                        assert(fetched.len() == done.len() + kc + 1);
                        assert(forall|i: int|
                            0 <= i < cs@[j as int].content@.len() ==> #[trigger] ids[done.len() + i]
                                == cs@[j as int].content@[i]);
                        assert forall|i: int| 0 <= i <= k implies (#[trigger] fetched[i]).id
                            == ids[i] by {
                            if i < done.len() {
                                assert(fetched[i] == fetched0[i]);
                            } else {
                                assert(fetched[i] == cf[i - done.len()]);
                            }
                        }
                        assert forall|i: int| 0 <= i < k implies (#[trigger] fetched[i]).text
                            is Some && ts.accepts(fetched[i].text.unwrap(), lang) by {
                            if i < done.len() {
                                assert(fetched[i] == fetched0[i]);
                            } else {
                                assert(fetched[i] == cf[i - done.len()]);
                            }
                        }
                        assert(fetched[k as int] == cf[kc]);
                    }
                }
                return Err(e);
            }
        }
    }
    proof {
        assert(cs@.take(n as int) =~= cs@);
    }
    Ok(out)
}

/// Renders a run of parts in order; the walk of a part tree.
fn render_parts<I, L, T>(ps: &Vec<Part<I>>, loader: &mut L, ts: &T, lang: Language) -> (r: Result<
    Vec<Part<Html>>,
    Error,
>) where L: Loader<DocId = I>, T: Typesetter
    ensures
        old(loader).doc_log().is_prefix_of(final(loader).doc_log()),
        final(loader).cover_log() == old(loader).cover_log(),
        ({
            let fetched = final(loader).doc_log().skip(old(loader).doc_log().len() as int);
            match r {
                Ok(out) => {
                    &&& parts_same_shape(ps@, out@)
                    &&& fetched_ok(*ts, lang, fetched, parts_docs(ps@))
                    &&& outputs_match(*ts, lang, fetched, parts_docs(out@))
                },
                Err(_) => exists|k: int| failed_at(*ts, lang, fetched, parts_docs(ps@), k),
            }
        }),
{
    let ghost base = loader.doc_log();
    let ghost ids = parts_docs(ps@);
    let n = ps.len();
    let mut out: Vec<Part<Html>> = Vec::new();
    let mut j: usize = 0;
    while j < n
        invariant
            n == ps@.len(),
            j <= n,
            out@.len() == j,
            base == old(loader).doc_log(),
            ids == parts_docs(ps@),
            base.is_prefix_of(loader.doc_log()),
            loader.cover_log() == old(loader).cover_log(),
            parts_same_shape(ps@.take(j as int), out@),
            fetched_ok(
                *ts,
                lang,
                loader.doc_log().skip(base.len() as int),
                parts_docs(ps@.take(j as int)),
            ),
            outputs_match(*ts, lang, loader.doc_log().skip(base.len() as int), parts_docs(out@)),
        decreases n - j,
    {
        let ghost before = loader.doc_log();
        let ghost fetched0 = before.skip(base.len() as int);
        let ghost done = parts_docs(ps@.take(j as int));
        match ps[j].load_and_render(loader, ts, lang) {
            Ok(p2) => {
                proof {
                    let cf = loader.doc_log().skip(before.len() as int);
                    assert(loader.doc_log().skip(base.len() as int) =~= fetched0 + cf);
                    assert(ps@.take(j + 1) =~= ps@.take(j as int).push(ps@[j as int]));
                    lemma_parts_docs_push(ps@.take(j as int), ps@[j as int]);
                    lemma_parts_docs_push(out@, p2);
                }
                out.push(p2);
                j += 1;
            }
            Err(e) => {
                proof {
                    let cf = loader.doc_log().skip(before.len() as int);
                    let fetched = loader.doc_log().skip(base.len() as int);
                    assert(fetched =~= fetched0 + cf);
                    let kc = choose|kc: int| failed_at(*ts, lang, cf, ps@[j as int].docs(), kc);
                    let k = done.len() + kc;
                    lemma_parts_docs_split(ps@, j as int);
                    assert(ids == done + ps@[j as int].docs() + parts_docs(ps@.skip(j + 1)));
                    assert(failed_at(*ts, lang, fetched, ids, k as int)) by {
                        assert(fetched.len() == done.len() + kc + 1);
                        assert(forall|i: int|
                            0 <= i < ps@[j as int].docs().len() ==> #[trigger] ids[done.len() + i]
                                == ps@[j as int].docs()[i]);
                        assert forall|i: int| 0 <= i <= k implies (#[trigger] fetched[i]).id
                            == ids[i] by {
                            if i < done.len() {
                                assert(fetched[i] == fetched0[i]);
                            } else {
                                assert(fetched[i] == cf[i - done.len()]);
                            }
                        }
                        assert forall|i: int| 0 <= i < k implies (#[trigger] fetched[i]).text
                            is Some && ts.accepts(fetched[i].text.unwrap(), lang) by {
                            if i < done.len() {
                                assert(fetched[i] == fetched0[i]);
                            } else {
                                assert(fetched[i] == cf[i - done.len()]);
                            }
                        }
                        assert(fetched[k as int] == cf[kc]);
                    }
                }
                return Err(e);
            }
        }
    }
    proof {
        assert(ps@.take(n as int) =~= ps@);
    }
    Ok(out)
}

impl<I> Content<I> {
    /// Renders the whole tree: every leaf in document order, fail-fast at
    /// the first document that cannot be read or is rejected.  The result
    /// has the same shape; only the leaves change.
    pub fn load_and_render<L, T>(&self, loader: &mut L, ts: &T, lang: Language) -> (r: Result<
        Content<Html>,
        Error,
    >) where L: Loader<DocId = I>, T: Typesetter
        ensures
            old(loader).doc_log().is_prefix_of(final(loader).doc_log()),
            final(loader).cover_log() == old(loader).cover_log(),
            ({
                let fetched = final(loader).doc_log().skip(old(loader).doc_log().len() as int);
                match r {
                    Ok(c2) => {
                        &&& same_shape(*self, c2)
                        &&& fetched_ok(*ts, lang, fetched, self.docs())
                        &&& outputs_match(*ts, lang, fetched, c2.docs())
                    },
                    Err(_) => exists|k: int| failed_at(*ts, lang, fetched, self.docs(), k),
                }
            }),
    {
        let ghost base = loader.doc_log();
        match self {
            Content::WithParts(ps) => {
                match render_parts(ps, loader, ts, lang) {
                    Ok(out) => Ok(Content::WithParts(out)),
                    Err(e) => {
                        proof {
                            let fetched = loader.doc_log().skip(base.len() as int);
                            let k = choose|k: int|
                                failed_at(*ts, lang, fetched, parts_docs(ps@), k);
                            assert(failed_at(*ts, lang, fetched, self.docs(), k));
                        }
                        Err(e)
                    }
                }
            }
            Content::WithChapters(cs) => {
                match render_chapters(cs, loader, ts, lang) {
                    Ok(out) => Ok(Content::WithChapters(out)),
                    Err(e) => {
                        proof {
                            let fetched = loader.doc_log().skip(base.len() as int);
                            let k = choose|k: int|
                                failed_at(*ts, lang, fetched, chapters_docs(cs@), k);
                            assert(failed_at(*ts, lang, fetched, self.docs(), k));
                        }
                        Err(e)
                    }
                }
            }
        }
    }
}

/// Renders an already-loaded descriptor.  If the descriptor names a cover
/// it is resolved first, and a cover failure aborts the build before any
/// document is touched; then every document is rendered in document order,
/// fail-fast.  Author, title, description, numbering and language are
/// carried over unchanged, and the content keeps its shape.
pub fn render_loaded<L, T>(project: Project<L::CovId, L::DocId>, loader: &mut L, ts: &T) -> (r:
    Result<Project<Cover, Html>, Error>) where L: Loader, T: Typesetter
    ensures
        old(loader).doc_log().is_prefix_of(final(loader).doc_log()),
        old(loader).cover_log().is_prefix_of(final(loader).cover_log()),
        ({
            let fetched = final(loader).doc_log().skip(old(loader).doc_log().len() as int);
            match r {
                Ok(p2) => {
                    &&& p2.author == project.author
                    &&& p2.title == project.title
                    &&& p2.description == project.description
                    &&& p2.numbering == project.numbering
                    &&& p2.language == project.language
                    &&& same_shape(project.content, p2.content)
                    &&& fetched_ok(*ts, project.language, fetched, project.content.docs())
                    &&& outputs_match(*ts, project.language, fetched, p2.content.docs())
                    &&& match project.cover {
                        None => p2.cover is None && final(loader).cover_log()
                            == old(loader).cover_log(),
                        Some(cid) => p2.cover is Some && final(loader).cover_log()
                            == old(loader).cover_log().push(
                            CoverFetch { id: cid, cover: p2.cover },
                        ),
                    }
                },
                Err(_) => match project.cover {
                    None => {
                        &&& final(loader).cover_log() == old(loader).cover_log()
                        &&& exists|k: int|
                            failed_at(
                                *ts,
                                project.language,
                                fetched,
                                project.content.docs(),
                                k,
                            )
                    },
                    Some(cid) => {
                        &&& final(loader).cover_log().len() == old(loader).cover_log().len() + 1
                        &&& final(loader).cover_log().last().id == cid
                        &&& (final(loader).cover_log().last().cover is None
                            ==> final(loader).doc_log() == old(loader).doc_log())
                        &&& (final(loader).cover_log().last().cover is Some ==> exists|k: int|
                            failed_at(
                                *ts,
                                project.language,
                                fetched,
                                project.content.docs(),
                                k,
                            ))
                    },
                },
            }
        }),
{
    let Project { author, title, description, cover, numbering, language, content } = project;

    let cover_value = match &cover {
        None => None,
        Some(c) => {
            match loader.load_cover(c) {
                Ok(cov) => Some(cov),
                Err(_) => {
                    return Err(Error::new("cannot load the cover"));
                }
            }
        }
    };

    let rendered = content.load_and_render(loader, ts, language)?;

    Ok(
        Project {
            author,
            title,
            description,
            content: rendered,
            cover: cover_value,
            numbering,
            language,
        },
    )
}

impl Project<Cover, Html> {
    /// Loads a project and renders it: resolves the descriptor through the
    /// loader, then hands it to `render_loaded`, which carries the exact
    /// contract of the render.  On success every fetched document was
    /// accepted, the rendered leaves are the compiler's outputs for the
    /// fetched texts in order, and the cover is the successfully fetched
    /// one exactly when one was fetched.
    pub fn load_and_render<L, T>(id: &L::ProjId, loader: &mut L, ts: &T) -> (r: Result<
        Project<Cover, Html>,
        Error,
    >) where L: Loader, T: Typesetter
        ensures
            old(loader).doc_log().is_prefix_of(final(loader).doc_log()),
            old(loader).cover_log().is_prefix_of(final(loader).cover_log()),
            ({
                let fetched = final(loader).doc_log().skip(old(loader).doc_log().len() as int);
                match r {
                    Ok(p2) => {
                        &&& fetched_ok_texts(*ts, p2.language, fetched)
                        &&& outputs_match(*ts, p2.language, fetched, p2.content.docs())
                        &&& match p2.cover {
                            None => final(loader).cover_log() == old(loader).cover_log(),
                            Some(c) => final(loader).cover_log().len()
                                == old(loader).cover_log().len() + 1
                                && final(loader).cover_log().last().cover == Some(c),
                        }
                    },
                    Err(_) => true,
                }
            }),
    {
        let project = loader.load_project(id)?;
        render_loaded(project, loader, ts)
    }
}

/// Law: the rendering is deterministic in the fetched texts.  Two runs
/// whose fetches returned the same texts produce leaf-for-leaf equal
/// renderings, whatever else differed between them.
pub proof fn lemma_render_deterministic<I, T: Typesetter>(
    ts: T,
    lang: Language,
    fetched1: Seq<DocFetch<I>>,
    fetched2: Seq<DocFetch<I>>,
    outs1: Seq<Html>,
    outs2: Seq<Html>,
)
    requires
        fetched1.len() == fetched2.len(),
        forall|i: int|
            0 <= i < fetched1.len() ==> (#[trigger] fetched1[i]).text == fetched2[i].text,
        outputs_match(ts, lang, fetched1, outs1),
        outputs_match(ts, lang, fetched2, outs2),
    ensures
        outs1.len() == outs2.len(),
        forall|i: int| 0 <= i < outs1.len() ==> (#[trigger] outs1[i])@ == outs2[i]@,
{
}

/// Law: the failing position of a run is determined.  A failed walk names
/// exactly one index: the lowest document whose fetch failed or was
/// rejected; two accounts of the same run agree on it.
pub proof fn lemma_failed_at_unique<I, T: Typesetter>(
    ts: T,
    lang: Language,
    fetched: Seq<DocFetch<I>>,
    ids: Seq<I>,
    k1: int,
    k2: int,
)
    requires
        failed_at(ts, lang, fetched, ids, k1),
        failed_at(ts, lang, fetched, ids, k2),
    ensures
        k1 == k2,
{
}

/// Every fetch in the run succeeded and was accepted by the compiler.
pub open spec fn fetched_ok_texts<I, T: Typesetter>(
    ts: T,
    lang: Language,
    fetched: Seq<DocFetch<I>>,
) -> bool {
    forall|i: int|
        0 <= i < fetched.len() ==> (#[trigger] fetched[i]).text is Some && ts.accepts(
            fetched[i].text.unwrap(),
            lang,
        )
}

/// The documents of a part run are the documents of its flattened chapters.
proof fn lemma_parts_docs_flat<I>(ps: Seq<Part<I>>)
    ensures
        parts_docs(ps) == chapters_docs(ps.map(|i: int, p: Part<I>| p.content@).flatten()),
    decreases ps.len(),
{
    let f = |i: int, p: Part<I>| p.content@;
    if ps.len() == 0 {
        assert(ps.map(f) =~= Seq::<Seq<Chapter<I>>>::empty());
    } else {
        lemma_parts_docs_flat(ps.drop_last());
        assert(ps.drop_last().map(f) =~= ps.map(f).drop_last());
        assert(ps.map(f) =~= ps.map(f).drop_last().push(ps.last().content@));
        ps.map(f).drop_last().lemma_flatten_push(ps.last().content@);
        lemma_chapters_docs_concat(ps.map(f).drop_last().flatten(), ps.last().content@);
        assert(chapters_docs(ps.map(f).flatten()) == chapters_docs(
            ps.map(f).drop_last().flatten(),
        ) + chapters_docs(ps.last().content@));
    }
}

/// Law: the flattened chapter sequence is the canonical basis of the whole
/// build: walking the flattened chapters and taking each one's documents
/// gives exactly the render transform's document order.
pub proof fn lemma_docs_follow_flat<I>(c: Content<I>)
    ensures
        c.docs() == chapters_docs(c.flat()),
{
    match c {
        Content::WithChapters(_) => {}
        Content::WithParts(ps) => {
            lemma_parts_docs_flat(ps@);
        }
    }
}

/// Law: the flattened chapter sequence is the same for a part tree and for a
/// bare chapter tree that carry the same chapters in the same order.
pub proof fn lemma_flat_part_insensitive<I>(with_parts: Content<I>, with_chapters: Content<I>)
    requires
        with_parts is WithParts,
        with_chapters is WithChapters,
        with_chapters->WithChapters_0@ == with_parts->WithParts_0@.map(
            |i: int, p: Part<I>| p.content@,
        ).flatten(),
    ensures
        with_parts.flat() == with_chapters.flat(),
{
}

} // verus!
