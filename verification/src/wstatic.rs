use vstd::prelude::*;

use crate::epub::{chapter_model, chapter_value, numbering_of, opt_str_model, opt_str_value, prefix_of_writes};
use crate::error::Error;
use crate::numerals::{dec_str, u64_to_dec};
use crate::project::{chapters_before, Chapter, Content, Cover, Language, Part, Project};
use crate::render::Html;
use crate::writer::{BookWriter, Entry, TemplateContext, TemplateValue, ValueModel};

verus! {

/// The model of an optional flag in a template context, `null` when unset.
pub open spec fn opt_bool_model(b: Option<bool>) -> ValueModel {
    match b {
        None => ValueModel::Null,
        Some(x) => ValueModel::Bool(x),
    }
}

/// The model of an optional part index in a template context.
pub open spec fn opt_idx_model(x: Option<int>) -> ValueModel {
    match x {
        None => ValueModel::Null,
        Some(i) => ValueModel::UInt(i as u64),
    }
}

/// An `Option<usize>` seen as an optional mathematical index.
pub open spec fn opt_int(x: Option<usize>) -> Option<int> {
    match x {
        None => None,
        Some(u) => Some(u as int),
    }
}

/// The site path of the chapter page at global flattened index `i`.
pub open spec fn chapter_html_path(i: int) -> Seq<char> {
    dec_str(i as nat) + ".html"@
}

/// The site path of the page of part `p`.
pub open spec fn part_html_path(p: int) -> Seq<char> {
    "p"@ + dec_str(p as nat) + ".html"@
}

/// The context a chapter page is rendered under: its 1-based number within
/// its part, the chapter, the flags, the part's global chapter offset and
/// size, and the part-level navigation links.  There are no chapter-level
/// links: navigation references part boundaries only.
pub open spec fn static_chapter_ctx(
    number: int,
    c: Chapter<Html>,
    numbering: bool,
    lang: Language,
    body_only: bool,
    ofs: int,
    chapters_number: int,
    prev: Option<int>,
    next: Option<int>,
) -> Seq<(Seq<char>, ValueModel)> {
    seq![
        ("number"@, ValueModel::UInt(number as u64)),
        ("chapter"@, chapter_model(c)),
        ("numbering"@, ValueModel::Bool(numbering)),
        ("language"@, ValueModel::Str(lang.spec_code())),
        ("body_only"@, ValueModel::Bool(body_only)),
        ("offset"@, ValueModel::UInt(ofs as u64)),
        ("chapters_number"@, ValueModel::UInt(chapters_number as u64)),
        ("previous_part"@, opt_idx_model(prev)),
        ("next_part"@, opt_idx_model(next)),
    ]
}

/// One template entry per chapter of a run: chapter `i` goes to
/// `{ofs + i}.html`, its global flattened index.
pub open spec fn static_chapter_entries(
    chs: Seq<Chapter<Html>>,
    ofs: int,
    numbering: bool,
    lang: Language,
    body_only: bool,
    prev: Option<int>,
    next: Option<int>,
) -> Seq<Entry> {
    Seq::new(
        chs.len(),
        |i: int| Entry::Template {
            path: chapter_html_path(ofs + i),
            template: "static/chapter.html"@,
            ctx: static_chapter_ctx(
                i + 1,
                chs[i],
                numbering,
                lang,
                body_only,
                ofs,
                chs.len() as int,
                prev,
                next,
            ),
        },
    )
}

/// The context of the page of part `p`: its title, 1-based number, flags,
/// chapter count, the total part count and its global chapter offset.
pub open spec fn part_ctx(
    part: Part<Html>,
    number: int,
    numbering: bool,
    lang: Language,
    body_only: bool,
    parts_number: int,
    ofs: int,
) -> Seq<(Seq<char>, ValueModel)> {
    seq![
        ("title"@, opt_str_model(part.title)),
        ("number"@, ValueModel::UInt(number as u64)),
        ("numbering"@, ValueModel::Bool(numbering)),
        ("language"@, ValueModel::Str(lang.spec_code())),
        ("body_only"@, ValueModel::Bool(body_only)),
        ("chapters_number"@, ValueModel::UInt(part.content@.len() as u64)),
        ("parts_number"@, ValueModel::UInt(parts_number as u64)),
        ("offset"@, ValueModel::UInt(ofs as u64)),
    ]
}

/// The navigation links of part `p`: the parts before and after it, if any.
/// Navigation is at part level only.
pub open spec fn prev_part_of(p: int) -> Option<int> {
    if p > 0 {
        Some(p - 1)
    } else {
        None
    }
}

pub open spec fn next_part_of(p: int, parts_number: int) -> Option<int> {
    if p + 1 < parts_number {
        Some(p + 1)
    } else {
        None
    }
}

/// The writes of part `p`: its part page, then its chapter pages at their
/// global indices.
pub open spec fn part_block(
    ps: Seq<Part<Html>>,
    p: int,
    numbering: bool,
    lang: Language,
    body_only: bool,
) -> Seq<Entry> {
    seq![
        Entry::Template {
            path: part_html_path(p),
            template: "static/part.html"@,
            ctx: part_ctx(
                ps[p],
                p + 1,
                numbering,
                lang,
                body_only,
                ps.len() as int,
                chapters_before(ps, p),
            ),
        },
    ] + static_chapter_entries(
        ps[p].content@,
        chapters_before(ps, p),
        numbering,
        lang,
        body_only,
        prev_part_of(p),
        next_part_of(p, ps.len() as int),
    )
}

/// The writes of the first `p` parts, in part order.
pub open spec fn parts_entries_upto(
    ps: Seq<Part<Html>>,
    numbering: bool,
    lang: Language,
    body_only: bool,
    p: int,
) -> Seq<Entry>
    decreases p,
{
    if p <= 0 {
        Seq::empty()
    } else {
        parts_entries_upto(ps, numbering, lang, body_only, p - 1) + part_block(
            ps,
            p - 1,
            numbering,
            lang,
            body_only,
        )
    }
}

/// The writes of the body of the site: for a part tree every part's block,
/// for a bare chapter tree the chapter pages with no offset and no part
/// navigation.
pub open spec fn content_entries(
    c: Content<Html>,
    numbering: bool,
    lang: Language,
    body_only: bool,
) -> Seq<Entry> {
    match c {
        Content::WithParts(ps) => parts_entries_upto(
            ps@,
            numbering,
            lang,
            body_only,
            ps@.len() as int,
        ),
        Content::WithChapters(cs) => static_chapter_entries(
            cs@,
            0,
            numbering,
            lang,
            body_only,
            None,
            None,
        ),
    }
}

/// The chapter list of the table of contents: each chapter's global index
/// and title.
pub open spec fn chapter_list_model(chs: Seq<Chapter<Html>>, ofs: int) -> ValueModel {
    ValueModel::List(
        Seq::new(
            chs.len(),
            |i: int| ValueModel::Obj(
                seq![
                    ("index"@, ValueModel::UInt((ofs + i) as u64)),
                    ("title"@, opt_str_model(chs[i].title)),
                ],
            ),
        ),
    )
}

/// The part list of the table of contents: each part's index, title and
/// chapters, the chapters carrying their global indices.
pub open spec fn parts_list_model(ps: Seq<Part<Html>>) -> ValueModel {
    ValueModel::List(
        Seq::new(
            ps.len(),
            |p: int| ValueModel::Obj(
                seq![
                    ("index"@, ValueModel::UInt(p as u64)),
                    ("title"@, opt_str_model(ps[p].title)),
                    ("chapters"@, chapter_list_model(ps[p].content@, chapters_before(ps, p))),
                ],
            ),
        ),
    )
}

/// The context of `index.html`, the single global table of contents.
pub open spec fn index_ctx_model(p: Project<Cover, Html>, body_only: bool) -> Seq<
    (Seq<char>, ValueModel),
> {
    (match p.content {
        Content::WithParts(ps) => seq![("parts"@, parts_list_model(ps@))],
        Content::WithChapters(cs) => seq![("chapters"@, chapter_list_model(cs@, 0))],
    }) + seq![
        ("numbering"@, opt_bool_model(p.numbering)),
        ("language"@, ValueModel::Str(p.language.spec_code())),
        ("title"@, ValueModel::Str(p.title@)),
        ("body_only"@, ValueModel::Bool(body_only)),
        ("description"@, opt_str_model(p.description)),
    ]
}

/// The whole write sequence of a static site build: the table of contents,
/// the body pages, and the stylesheet unless body-only mode is set.
pub open spec fn static_entries(
    p: Project<Cover, Html>,
    body_only: bool,
    assets: Seq<char>,
) -> Seq<Entry> {
    seq![
        Entry::Template {
            path: "index.html"@,
            template: "static/index.html"@,
            ctx: index_ctx_model(p, body_only),
        },
    ] + content_entries(p.content, numbering_of(p), p.language, body_only) + (if body_only {
        Seq::<Entry>::empty()
    } else {
        seq![
            Entry::Copy { path: "style.css"@, src: assets + "/templates/static/style.css"@ },
        ]
    })
}

/// Whether a content tree's chapter count stays within the machine's index
/// range; the global chapter indices of the site's file names need it.
pub open spec fn fits_usize(c: Content<Html>) -> bool {
    match c {
        Content::WithParts(ps) => chapters_before(ps@, ps@.len() as int) <= usize::MAX,
        Content::WithChapters(cs) => true,
    }
}

/// The writes of the first `p` parts are a prefix of the writes of all of
/// them.
proof fn lemma_upto_is_take(
    ps: Seq<Part<Html>>,
    numbering: bool,
    lang: Language,
    body_only: bool,
    p: int,
)
    requires
        0 <= p <= ps.len(),
    ensures
        parts_entries_upto(ps, numbering, lang, body_only, p).len() <= parts_entries_upto(
            ps,
            numbering,
            lang,
            body_only,
            ps.len() as int,
        ).len(),
        parts_entries_upto(ps, numbering, lang, body_only, p) == parts_entries_upto(
            ps,
            numbering,
            lang,
            body_only,
            ps.len() as int,
        ).take(parts_entries_upto(ps, numbering, lang, body_only, p).len() as int),
    decreases ps.len() - p,
{
    let full = parts_entries_upto(ps, numbering, lang, body_only, ps.len() as int);
    let up = parts_entries_upto(ps, numbering, lang, body_only, p);
    if p == ps.len() {
        assert(full.take(full.len() as int) =~= full);
    } else {
        lemma_upto_is_take(ps, numbering, lang, body_only, p + 1);
        let up1 = parts_entries_upto(ps, numbering, lang, body_only, p + 1);
        assert(up1 == up + part_block(ps, p, numbering, lang, body_only));
        assert(up =~= up1.take(up.len() as int));
        assert(up1.take(up.len() as int) =~= full.take(up.len() as int));
    }
}

/// The first `p` parts write one page each plus one page per chapter.
proof fn lemma_upto_len(
    ps: Seq<Part<Html>>,
    numbering: bool,
    lang: Language,
    body_only: bool,
    p: int,
)
    requires
        0 <= p <= ps.len(),
    ensures
        parts_entries_upto(ps, numbering, lang, body_only, p).len() == p + chapters_before(ps, p),
    decreases p,
{
    if p > 0 {
        lemma_upto_len(ps, numbering, lang, body_only, p - 1);
    }
}

/// Law: the pagination of a part tree.  Part `p` writes its page to
/// `p{p}.html` immediately followed by its chapters' pages at the global
/// indices `chapters_before(ps, p) + j`, with navigation pointing to the
/// parts before and after it; the whole site body holds one entry per part
/// plus one per chapter.
pub proof fn lemma_static_parts_layout(
    ps: Seq<Part<Html>>,
    numbering: bool,
    lang: Language,
    body_only: bool,
    p: int,
)
    requires
        0 <= p < ps.len(),
    ensures
        ({
            let all = parts_entries_upto(ps, numbering, lang, body_only, ps.len() as int);
            let start = p + chapters_before(ps, p);
            &&& all.len() == ps.len() + chapters_before(ps, ps.len() as int)
            &&& 0 <= start
            &&& start + 1 + ps[p].content@.len() <= all.len()
            &&& all[start] == (Entry::Template {
                path: part_html_path(p),
                template: "static/part.html"@,
                ctx: part_ctx(
                    ps[p],
                    p + 1,
                    numbering,
                    lang,
                    body_only,
                    ps.len() as int,
                    chapters_before(ps, p),
                ),
            })
            &&& forall|j: int|
                0 <= j < ps[p].content@.len() ==> all[start + 1 + j] == static_chapter_entries(
                    ps[p].content@,
                    chapters_before(ps, p),
                    numbering,
                    lang,
                    body_only,
                    prev_part_of(p),
                    next_part_of(p, ps.len() as int),
                )[j]
        }),
{
    let all = parts_entries_upto(ps, numbering, lang, body_only, ps.len() as int);
    let up = parts_entries_upto(ps, numbering, lang, body_only, p);
    let up1 = parts_entries_upto(ps, numbering, lang, body_only, p + 1);
    let block = part_block(ps, p, numbering, lang, body_only);
    lemma_upto_len(ps, numbering, lang, body_only, ps.len() as int);
    lemma_upto_len(ps, numbering, lang, body_only, p);
    lemma_upto_len(ps, numbering, lang, body_only, p + 1);
    lemma_chapters_before_mono_html(ps, p + 1, ps.len() as int);
    lemma_upto_is_take(ps, numbering, lang, body_only, p + 1);
    assert(up1 == up + block);
    assert(up1 == all.take(up1.len() as int));
    let start = p + chapters_before(ps, p);
    assert(up.len() == start);
    assert(up1[start] == block[0]);
    assert(all[start] == up1[start]);
    let sce = static_chapter_entries(
        ps[p].content@,
        chapters_before(ps, p),
        numbering,
        lang,
        body_only,
        prev_part_of(p),
        next_part_of(p, ps.len() as int),
    );
    assert forall|j: int| 0 <= j < ps[p].content@.len() implies all[start + 1 + j] == #[trigger] sce[j] by {
        assert(all[start + 1 + j] == up1[start + 1 + j]);
        assert(up1[start + 1 + j] == block[1 + j]);
        assert(block[1 + j] == sce[j]);
    }
}

proof fn lemma_chapters_before_mono_html(ps: Seq<Part<Html>>, p: int, q: int)
    requires
        0 <= p <= q,
    ensures
        chapters_before(ps, p) <= chapters_before(ps, q),
{
    crate::project::lemma_chapters_before_mono(ps, p, q);
}

fn global_chapter_path(i: usize) -> (r: String)
    ensures
        r@ == chapter_html_path(i as int),
{
    let mut s = u64_to_dec(i as u64);
    s.append(".html");
    s
}

fn part_page_path(p: usize) -> (r: String)
    ensures
        r@ == part_html_path(p as int),
{
    let mut s = String::from_str("p");
    let num = u64_to_dec(p as u64);
    s.append(num.as_str());
    s.append(".html");
    proof {
        assert(s@ =~= part_html_path(p as int));
    }
    s
}

fn opt_idx_value(x: Option<usize>) -> (r: TemplateValue)
    ensures
        r.model() == opt_idx_model(opt_int(x)),
{
    match x {
        None => TemplateValue::Null,
        Some(i) => TemplateValue::UInt(i as u64),
    }
}

/// Builds the table-of-contents list for a run of chapters whose first
/// chapter has global index `ofs`.
fn chapter_list_value(chs: &Vec<Chapter<Html>>, ofs: usize) -> (r: TemplateValue)
    requires
        ofs + chs@.len() <= usize::MAX,
    ensures
        r.model() == chapter_list_model(chs@, ofs as int),
{
    let n = chs.len();
    let mut items: Vec<TemplateValue> = Vec::new();
    let mut i: usize = 0;
    while i < n
        invariant
            n == chs@.len(),
            ofs + n <= usize::MAX,
            i <= n,
            items@.len() == i,
            forall|k: int|
                0 <= k < i ==> #[trigger] items@[k].model() == ValueModel::Obj(
                    seq![
                        ("index"@, ValueModel::UInt((ofs + k) as u64)),
                        ("title"@, opt_str_model(chs@[k].title)),
                    ],
                ),
        decreases n - i,
    {
        let mut fields: Vec<(String, TemplateValue)> = Vec::new();
        fields.push((String::from_str("index"), TemplateValue::UInt((ofs + i) as u64)));
        fields.push((String::from_str("title"), opt_str_value(&chs[i].title)));
        let v = TemplateValue::Obj(fields);
        proof {
            crate::writer::lemma_model_fields_index(v->Obj_0@);
            assert(v.model() matches ValueModel::Obj(fs) && fs =~= seq![
                ("index"@, ValueModel::UInt((ofs + i) as u64)),
                ("title"@, opt_str_model(chs@[i as int].title)),
            ]);
        }
        items.push(v);
        i += 1;
    }
    let r = TemplateValue::List(items);
    proof {
        crate::writer::lemma_model_seq_index(r->List_0@);
        assert(r.model() matches ValueModel::List(l) && l =~= chapter_list_model(
            chs@,
            ofs as int,
        )->List_0);
    }
    r
}

/// Builds the table-of-contents list for a run of parts, each part carrying
/// its chapters under their global indices.
fn parts_list_value(ps: &Vec<Part<Html>>) -> (r: TemplateValue)
    requires
        chapters_before(ps@, ps@.len() as int) <= usize::MAX,
    ensures
        r.model() == parts_list_model(ps@),
{
    let n = ps.len();
    let mut items: Vec<TemplateValue> = Vec::new();
    let mut ofs: usize = 0;
    let mut p: usize = 0;
    while p < n
        invariant
            n == ps@.len(),
            chapters_before(ps@, n as int) <= usize::MAX,
            p <= n,
            ofs == chapters_before(ps@, p as int),
            items@.len() == p,
            forall|k: int|
                0 <= k < p ==> #[trigger] items@[k].model() == ValueModel::Obj(
                    seq![
                        ("index"@, ValueModel::UInt(k as u64)),
                        ("title"@, opt_str_model(ps@[k].title)),
                        ("chapters"@, chapter_list_model(ps@[k].content@, chapters_before(ps@, k))),
                    ],
                ),
        decreases n - p,
    {
        proof {
            crate::project::lemma_chapters_before_mono(ps@, p + 1, n as int);
        }
        let part = &ps[p];
        let mut fields: Vec<(String, TemplateValue)> = Vec::new();
        fields.push((String::from_str("index"), TemplateValue::UInt(p as u64)));
        fields.push((String::from_str("title"), opt_str_value(&part.title)));
        fields.push((String::from_str("chapters"), chapter_list_value(&part.content, ofs)));
        let v = TemplateValue::Obj(fields);
        proof {
            crate::writer::lemma_model_fields_index(v->Obj_0@);
            assert(v.model() matches ValueModel::Obj(fs) && fs =~= seq![
                ("index"@, ValueModel::UInt(p as u64)),
                ("title"@, opt_str_model(ps@[p as int].title)),
                (
                    "chapters"@,
                    chapter_list_model(ps@[p as int].content@, chapters_before(ps@, p as int)),
                ),
            ]);
        }
        items.push(v);
        ofs = ofs + part.content.len();
        p += 1;
    }
    let r = TemplateValue::List(items);
    proof {
        crate::writer::lemma_model_seq_index(r->List_0@);
        assert(r.model() matches ValueModel::List(l) && l =~= parts_list_model(ps@)->List_0);
    }
    r
}

/// The static site backend: writes a paginated site for a rendered project
/// through any sink, one page per chapter under its global flattened index.
pub struct Static<W: BookWriter> {
    pub writer: W,
    pub body_only: bool,
}

impl<W: BookWriter> Static<W> {
    pub fn init(writer: W, body_only: bool) -> (r: Static<W>)
        ensures
            r.writer.log() == writer.log(),
            r.body_only == body_only,
    {
        Static { writer, body_only }
    }

    /// Writes `index.html`: the single global table of contents.
    fn generate_index(&mut self, project: &Project<Cover, Html>) -> (r: Result<(), Error>)
        requires
            old(self).writer.inv(),
            fits_usize(project.content),
        ensures
            final(self).writer.inv(),
            final(self).body_only == old(self).body_only,
            r is Ok ==> final(self).writer.log() == old(self).writer.log().push(
                Entry::Template {
                    path: "index.html"@,
                    template: "static/index.html"@,
                    ctx: index_ctx_model(*project, old(self).body_only),
                },
            ),
            r is Err ==> final(self).writer.log() == old(self).writer.log(),
    {
        let mut ctx = TemplateContext::new();
        match &project.content {
            Content::WithParts(ps) => {
                ctx.insert("parts", parts_list_value(ps));
            }
            Content::WithChapters(cs) => {
                let n = cs.len();
                proof {
                    assert(0 + cs@.len() <= usize::MAX) by {
                        assert(n == cs@.len());
                    }
                }
                ctx.insert("chapters", chapter_list_value(cs, 0));
            }
        }
        ctx.insert(
            "numbering",
            match project.numbering {
                None => TemplateValue::Null,
                Some(b) => TemplateValue::Bool(b),
            },
        );
        ctx.insert("language", TemplateValue::Str(String::from_str(project.language.code())));
        ctx.insert("title", TemplateValue::Str(project.title.clone()));
        ctx.insert("body_only", TemplateValue::Bool(self.body_only));
        ctx.insert("description", opt_str_value(&project.description));
        proof {
            assert(ctx.model() =~= index_ctx_model(*project, self.body_only));
        }
        self.writer.write_template("index.html", "static/index.html", &ctx)
    }

    /// Writes the pages of one run of chapters: chapter `i` of the run goes
    /// to `{offset + i}.html`, its global index.
    fn generate_chapters(
        &mut self,
        chapters: &Vec<Chapter<Html>>,
        offset: usize,
        numbering: bool,
        lang: Language,
        previous_part: Option<usize>,
        next_part: Option<usize>,
    ) -> (r: Result<(), Error>)
        requires
            old(self).writer.inv(),
            offset + chapters@.len() <= usize::MAX,
        ensures
            final(self).writer.inv(),
            final(self).body_only == old(self).body_only,
            r is Ok ==> final(self).writer.log() == old(self).writer.log()
                + static_chapter_entries(
                chapters@,
                offset as int,
                numbering,
                lang,
                old(self).body_only,
                opt_int(previous_part),
                opt_int(next_part),
            ),
            r is Err ==> prefix_of_writes(
                old(self).writer.log(),
                final(self).writer.log(),
                static_chapter_entries(
                    chapters@,
                    offset as int,
                    numbering,
                    lang,
                    old(self).body_only,
                    opt_int(previous_part),
                    opt_int(next_part),
                ),
            ),
    {
        let ghost base = self.writer.log();
        let ghost all = static_chapter_entries(
            chapters@,
            offset as int,
            numbering,
            lang,
            self.body_only,
            opt_int(previous_part),
            opt_int(next_part),
        );
        let max = chapters.len();
        let mut i: usize = 0;
        while i < max
            invariant
                self.writer.inv(),
                max == chapters@.len(),
                offset + max <= usize::MAX,
                i <= max,
                base == old(self).writer.log(),
                self.body_only == old(self).body_only,
                all == static_chapter_entries(
                    chapters@,
                    offset as int,
                    numbering,
                    lang,
                    old(self).body_only,
                    opt_int(previous_part),
                    opt_int(next_part),
                ),
                self.writer.log() == base + all.take(i as int),
            decreases max - i,
        {
            let c = &chapters[i];
            let mut ctx = TemplateContext::new();
            ctx.insert("number", TemplateValue::UInt((i as u64) + 1));
            ctx.insert("chapter", chapter_value(c));
            ctx.insert("numbering", TemplateValue::Bool(numbering));
            ctx.insert("language", TemplateValue::Str(String::from_str(lang.code())));
            ctx.insert("body_only", TemplateValue::Bool(self.body_only));
            ctx.insert("offset", TemplateValue::UInt(offset as u64));
            ctx.insert("chapters_number", TemplateValue::UInt(max as u64));
            ctx.insert("previous_part", opt_idx_value(previous_part));
            ctx.insert("next_part", opt_idx_value(next_part));
            proof {
                assert(ctx.model() =~= static_chapter_ctx(
                    i + 1,
                    chapters@[i as int],
                    numbering,
                    lang,
                    old(self).body_only,
                    offset as int,
                    chapters@.len() as int,
                    opt_int(previous_part),
                    opt_int(next_part),
                ));
            }
            let path = global_chapter_path(offset + i);
            match self.writer.write_template(path.as_str(), "static/chapter.html", &ctx) {
                Ok(_) => {
                    proof {
                        assert(all.take(i + 1) =~= all.take(i as int).push(all[i as int]));
                        assert(self.writer.log() =~= base + all.take(i + 1));
                    }
                }
                Err(e) => {
                    proof {
                        crate::epub::lemma_prefix_of_writes(
                            base,
                            self.writer.log(),
                            all,
                            i as int,
                        );
                    }
                    return Err(e);
                }
            }
            i += 1;
        }
        proof {
            assert(all.take(max as int) =~= all);
        }
        Ok(())
    }

    /// Writes every part's page and chapter pages, keeping a running global
    /// chapter offset across parts.
    #[verifier::rlimit(100)]
    pub fn generate_parts(
        &mut self,
        parts: &Vec<Part<Html>>,
        numbering: bool,
        lang: Language,
    ) -> (r: Result<(), Error>)
        requires
            old(self).writer.inv(),
            chapters_before(parts@, parts@.len() as int) <= usize::MAX,
        ensures
            final(self).writer.inv(),
            final(self).body_only == old(self).body_only,
            r is Ok ==> final(self).writer.log() == old(self).writer.log() + parts_entries_upto(
                parts@,
                numbering,
                lang,
                old(self).body_only,
                parts@.len() as int,
            ),
            r is Err ==> prefix_of_writes(
                old(self).writer.log(),
                final(self).writer.log(),
                parts_entries_upto(
                    parts@,
                    numbering,
                    lang,
                    old(self).body_only,
                    parts@.len() as int,
                ),
            ),
    {
        let ghost base = self.writer.log();
        let ghost body_only = self.body_only;
        let ghost full = parts_entries_upto(parts@, numbering, lang, body_only, parts@.len() as int);
        let n = parts.len();
        let mut ofs: usize = 0;
        let mut p: usize = 0;
        while p < n
            invariant
                self.writer.inv(),
                n == parts@.len(),
                chapters_before(parts@, n as int) <= usize::MAX,
                p <= n,
                base == old(self).writer.log(),
                self.body_only == old(self).body_only,
                body_only == old(self).body_only,
                full == parts_entries_upto(parts@, numbering, lang, body_only, n as int),
                ofs == chapters_before(parts@, p as int),
                self.writer.log() == base + parts_entries_upto(
                    parts@,
                    numbering,
                    lang,
                    body_only,
                    p as int,
                ),
            decreases n - p,
        {
            let ghost up = parts_entries_upto(parts@, numbering, lang, body_only, p as int);
            let ghost block = part_block(parts@, p as int, numbering, lang, body_only);
            proof {
                lemma_upto_is_take(parts@, numbering, lang, body_only, p as int);
                lemma_upto_is_take(parts@, numbering, lang, body_only, p + 1);
                assert(parts_entries_upto(parts@, numbering, lang, body_only, p + 1) == up + block);
                crate::project::lemma_chapters_before_mono(parts@, p + 1, n as int);
            }
            let part = &parts[p];
            let previous_part: Option<usize> = if p > 0 {
                Some(p - 1)
            } else {
                None
            };
            let next_part: Option<usize> = if p + 1 < n {
                Some(p + 1)
            } else {
                None
            };
            proof {
                assert(opt_int(previous_part) == prev_part_of(p as int));
                assert(opt_int(next_part) == next_part_of(p as int, n as int));
            }

            let mut ctx = TemplateContext::new();
            ctx.insert("title", opt_str_value(&part.title));
            ctx.insert("number", TemplateValue::UInt((p as u64) + 1));
            ctx.insert("numbering", TemplateValue::Bool(numbering));
            ctx.insert("language", TemplateValue::Str(String::from_str(lang.code())));
            ctx.insert("body_only", TemplateValue::Bool(self.body_only));
            ctx.insert("chapters_number", TemplateValue::UInt(part.content.len() as u64));
            ctx.insert("parts_number", TemplateValue::UInt(n as u64));
            ctx.insert("offset", TemplateValue::UInt(ofs as u64));
            proof {
                assert(ctx.model() =~= part_ctx(
                    parts@[p as int],
                    p + 1,
                    numbering,
                    lang,
                    body_only,
                    n as int,
                    chapters_before(parts@, p as int),
                ));
            }
            let path = part_page_path(p);
            match self.writer.write_template(path.as_str(), "static/part.html", &ctx) {
                Ok(_) => {
                    proof {
                        assert(self.writer.log() =~= base + up + seq![block[0]]);
                    }
                }
                Err(e) => {
                    proof {
                        crate::epub::lemma_prefix_of_writes(
                            base,
                            self.writer.log(),
                            full,
                            up.len() as int,
                        );
                    }
                    return Err(e);
                }
            }

            let ghost mid = self.writer.log();
            match self.generate_chapters(
                &part.content,
                ofs,
                numbering,
                lang,
                previous_part,
                next_part,
            ) {
                Ok(_) => {
                    proof {
                        assert(self.writer.log() =~= base + parts_entries_upto(
                            parts@,
                            numbering,
                            lang,
                            body_only,
                            p + 1,
                        ));
                    }
                }
                Err(e) => {
                    proof {
                        let sce = static_chapter_entries(
                            part.content@,
                            ofs as int,
                            numbering,
                            lang,
                            body_only,
                            opt_int(previous_part),
                            opt_int(next_part),
                        );
                        let j = choose|j: int|
                            0 <= j < sce.len() && self.writer.log() == mid + sce.take(j);
                        let k = up.len() + 1 + j;
                        let up1 = parts_entries_upto(parts@, numbering, lang, body_only, p + 1);
                        assert(block =~= seq![block[0]] + sce);
                        assert(up1.take(k) =~= up + seq![block[0]] + sce.take(j));
                        assert(full.take(k) =~= up1.take(k)) by {
                            assert(up1 == full.take(up1.len() as int));
                        }
                        assert(self.writer.log() =~= base + full.take(k));
                        crate::epub::lemma_prefix_of_writes(base, self.writer.log(), full, k);
                    }
                    return Err(e);
                }
            }

            ofs = ofs + part.content.len();
            p += 1;
        }
        Ok(())
    }

    /// Writes the body of the site: parts with their chapters, or the bare
    /// chapter run.
    pub fn generate_content(
        &mut self,
        content: &Content<Html>,
        numbering: bool,
        lang: Language,
    ) -> (r: Result<(), Error>)
        requires
            old(self).writer.inv(),
            fits_usize(*content),
        ensures
            final(self).writer.inv(),
            final(self).body_only == old(self).body_only,
            r is Ok ==> final(self).writer.log() == old(self).writer.log() + content_entries(
                *content,
                numbering,
                lang,
                old(self).body_only,
            ),
            r is Err ==> prefix_of_writes(
                old(self).writer.log(),
                final(self).writer.log(),
                content_entries(*content, numbering, lang, old(self).body_only),
            ),
    {
        match content {
            Content::WithParts(ps) => self.generate_parts(ps, numbering, lang),
            Content::WithChapters(cs) => {
                let n = cs.len();
                proof {
                    assert(0 + cs@.len() <= usize::MAX) by {
                        assert(n == cs@.len());
                    }
                }
                self.generate_chapters(cs, 0, numbering, lang, None, None)
            }
        }
    }

    /// Writes the whole static site: the table of contents, every page of
    /// the body, and the stylesheet unless body-only mode is set.
    pub fn generate_static_website(
        &mut self,
        project: &Project<Cover, Html>,
        assets: &str,
    ) -> (r: Result<(), Error>)
        requires
            old(self).writer.inv(),
            fits_usize(project.content),
        ensures
            final(self).writer.inv(),
            final(self).body_only == old(self).body_only,
            r is Ok ==> final(self).writer.log() == old(self).writer.log() + static_entries(
                *project,
                old(self).body_only,
                assets@,
            ),
            r is Err ==> prefix_of_writes(
                old(self).writer.log(),
                final(self).writer.log(),
                static_entries(*project, old(self).body_only, assets@),
            ),
    {
        let ghost base = self.writer.log();
        let ghost body_only = self.body_only;
        let ghost full = static_entries(*project, body_only, assets@);
        let numbering = match project.numbering {
            Some(b) => b,
            None => false,
        };

        match self.generate_index(project) {
            Ok(_) => {
                proof {
                    assert(self.writer.log() =~= base + full.take(1));
                }
            }
            Err(e) => {
                proof {
                    assert(self.writer.log() =~= base + full.take(0));
                    crate::epub::lemma_prefix_of_writes(base, self.writer.log(), full, 0);
                }
                return Err(e);
            }
        }

        let ghost ce = content_entries(project.content, numbering, lang_of(project), body_only);
        match self.generate_content(&project.content, numbering, project.language) {
            Ok(_) => {
                proof {
                    assert(self.writer.log() =~= base + full.take(1 + ce.len() as int));
                }
            }
            Err(e) => {
                proof {
                    let j = choose|j: int|
                        0 <= j < ce.len() && self.writer.log() == base + full.take(1) + ce.take(j);
                    assert(full.take(1 + j) =~= full.take(1) + ce.take(j));
                    assert(self.writer.log() =~= base + full.take(1 + j));
                    crate::epub::lemma_prefix_of_writes(base, self.writer.log(), full, 1 + j);
                }
                return Err(e);
            }
        }

        if !self.body_only {
            let mut src = String::from_str(assets);
            src.append("/templates/static/style.css");
            proof {
                assert(src@ =~= assets@ + "/templates/static/style.css"@);
            }
            match self.writer.write_file("style.css", src.as_str()) {
                Ok(_) => {
                    proof {
                        assert(self.writer.log() =~= base + full);
                    }
                }
                Err(e) => {
                    proof {
                        assert(self.writer.log() =~= base + full.take(1 + ce.len() as int));
                        crate::epub::lemma_prefix_of_writes(
                            base,
                            self.writer.log(),
                            full,
                            1 + ce.len() as int,
                        );
                    }
                    return Err(e);
                }
            }
        } else {
            proof {
                assert(self.writer.log() =~= base + full);
            }
        }
        Ok(())
    }
}

/// The locale of a project.
pub open spec fn lang_of(p: &Project<Cover, Html>) -> Language {
    p.language
}

} // verus!
