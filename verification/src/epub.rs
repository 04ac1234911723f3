use vstd::prelude::*;
use vstd::string::*;

use crate::error::Error;
use crate::numerals::{dec_str, u64_to_dec};
use crate::project::{Chapter, Content, Cover, Language, Project};
use crate::render::Html;
use crate::templates::render_template;
use crate::writer::{
    entry_path,
    parent_dir,
    parent_of,
    BookWriter,
    Entry,
    ResourceReader,
    TemplateContext,
    TemplateValue,
    ValueModel,
};

verus! {

/// The model of an optional title in a template context.
pub open spec fn opt_str_model(t: Option<String>) -> ValueModel {
    match t {
        None => ValueModel::Null,
        Some(s) => ValueModel::Str(s@),
    }
}

/// A template value for an optional string, `null` when absent.
pub fn opt_str_value(t: &Option<String>) -> (r: TemplateValue)
    ensures
        r.model() == opt_str_model(*t),
{
    match t {
        None => TemplateValue::Null,
        Some(s) => TemplateValue::Str(s.clone()),
    }
}

/// The model of a rendered chapter in a template context: its title and the
/// rendered text of each of its documents.
pub open spec fn chapter_model(c: Chapter<Html>) -> ValueModel {
    ValueModel::Obj(
        seq![
            ("title"@, opt_str_model(c.title)),
            ("content"@, ValueModel::List(c.content@.map(|i: int, h: Html| ValueModel::Str(h@)))),
        ],
    )
}

/// A template value carrying a rendered chapter.
pub fn chapter_value(c: &Chapter<Html>) -> (r: TemplateValue)
    ensures
        r.model() == chapter_model(*c),
{
    let n = c.content.len();
    let mut docs: Vec<TemplateValue> = Vec::new();
    let mut j: usize = 0;
    while j < n
        invariant
            n == c.content@.len(),
            j <= n,
            docs@.len() == j,
            forall|i: int|
                0 <= i < j ==> #[trigger] docs@[i].model() == ValueModel::Str(c.content@[i]@),
        decreases n - j,
    {
        let h: &Html = &c.content[j];
        docs.push(TemplateValue::Str(h.text()));
        j += 1;
    }
    let mut fields: Vec<(String, TemplateValue)> = Vec::new();
    fields.push((String::from_str("title"), opt_str_value(&c.title)));
    fields.push((String::from_str("content"), TemplateValue::List(docs)));
    let r = TemplateValue::Obj(fields);
    proof {
        crate::writer::lemma_model_seq_index(docs@);
        assert(TemplateValue::model_seq(docs@) =~= c.content@.map(
            |i: int, h: Html| ValueModel::Str(h@),
        ));
        crate::writer::lemma_model_fields_index(fields@);
        assert(r.model() matches ValueModel::Obj(fs) && fs =~= seq![
            ("title"@, opt_str_model(c.title)),
            ("content"@, ValueModel::List(c.content@.map(|i: int, h: Html| ValueModel::Str(h@)))),
        ]);
    }
    r
}

/// The archive path of the chapter page at flattened index `i`.
pub open spec fn chapter_xhtml_path(i: int) -> Seq<char> {
    "OEBPS/Text/"@ + dec_str(i as nat) + ".xhtml"@
}

fn chapter_path(i: usize) -> (r: String)
    ensures
        r@ == chapter_xhtml_path(i as int),
{
    let mut s = String::from_str("OEBPS/Text/");
    let num = u64_to_dec(i as u64);
    s.append(num.as_str());
    s.append(".xhtml");
    s
}

/// The context a chapter page is rendered under: its 1-based number, the
/// chapter itself, the numbering flag and the locale.
pub open spec fn chapter_ctx_model(
    number: int,
    c: Chapter<Html>,
    numbering: bool,
    lang: Language,
) -> Seq<(Seq<char>, ValueModel)> {
    seq![
        ("number"@, ValueModel::UInt(number as u64)),
        ("chapter"@, chapter_model(c)),
        ("numbering"@, ValueModel::Bool(numbering)),
        ("language"@, ValueModel::Str(lang.spec_code())),
    ]
}

/// One template entry per chapter, in flattened order: chapter `i` goes to
/// `OEBPS/Text/{i}.xhtml` under its 1-based number `i + 1`.
pub open spec fn chapter_entries(
    chs: Seq<Chapter<Html>>,
    numbering: bool,
    lang: Language,
) -> Seq<Entry> {
    Seq::new(
        chs.len(),
        |i: int| Entry::Template {
            path: chapter_xhtml_path(i),
            template: "epub/chapter.xhtml"@,
            ctx: chapter_ctx_model(i + 1, chs[i], numbering, lang),
        },
    )
}

/// The three embedded font files of every EPUB build.
pub open spec fn font_names() -> Seq<Seq<char>> {
    seq![
        "et-book-roman-line-figures.ttf"@,
        "et-book-bold-line-figures.ttf"@,
        "et-book-display-italic-old-style-figures.ttf"@,
    ]
}

/// One copy entry per font: from the assets directory into `OEBPS/Fonts/`.
pub open spec fn font_entries(assets: Seq<char>) -> Seq<Entry> {
    Seq::new(
        font_names().len(),
        |i: int| Entry::Copy {
            path: "OEBPS/Fonts/"@ + font_names()[i],
            src: assets + "/fonts/"@ + font_names()[i],
        },
    )
}

/// The archive entry of the cover, under its source extension.
pub open spec fn cover_entry(c: Cover) -> Entry {
    Entry::Bytes { path: "OEBPS/cover."@ + c.extension@, data: c.content@ }
}

/// The context of the package document `content.opf`: metadata, the chapter
/// file list in spine order, the fonts and the optional cover extension.
pub open spec fn opf_ctx_model(p: Project<Cover, Html>) -> Seq<(Seq<char>, ValueModel)> {
    seq![
        ("title"@, ValueModel::Str(p.title@)),
        ("author"@, ValueModel::Str(p.author@)),
        (
            "cover_extension"@,
            match p.cover {
                None => ValueModel::Null,
                Some(c) => ValueModel::Str(c.extension@),
            },
        ),
        (
            "files"@,
            ValueModel::List(
                Seq::new(p.content.flat().len(), |i: int| ValueModel::UInt(i as u64)),
            ),
        ),
        ("fonts"@, ValueModel::List(font_names().map(|i: int, f: Seq<char>| ValueModel::Str(f)))),
        ("language"@, ValueModel::Str(p.language.spec_code())),
    ]
}

/// The context of the navigation document `toc.ncx`: each chapter's 0-based
/// index and title, in flattened order.
pub open spec fn ncx_ctx_model(chs: Seq<Chapter<Html>>) -> Seq<(Seq<char>, ValueModel)> {
    seq![
        (
            "chapters"@,
            ValueModel::List(
                Seq::new(
                    chs.len(),
                    |i: int| ValueModel::Obj(
                        seq![
                            ("index"@, ValueModel::UInt(i as u64)),
                            ("title"@, opt_str_model(chs[i].title)),
                        ],
                    ),
                ),
            ),
        ),
    ]
}

/// The numbering flag of a project, false when it is left unset.
pub open spec fn numbering_of<C, I>(p: Project<C, I>) -> bool {
    match p.numbering {
        Some(b) => b,
        None => false,
    }
}

/// The whole write sequence of an EPUB build: the OCF marker and container,
/// one page per chapter, the stylesheet, the cover when there is one, the
/// fonts, the package document and the navigation document, in this order.
pub open spec fn epub_entries(p: Project<Cover, Html>, assets: Seq<char>) -> Seq<Entry> {
    seq![
        Entry::Bytes { path: "mimetype"@, data: "application/epub+zip".spec_bytes() },
        Entry::Template {
            path: "META-INF/container.xml"@,
            template: "epub/container.xml"@,
            ctx: Seq::empty(),
        },
    ] + chapter_entries(p.content.flat(), numbering_of(p), p.language) + seq![
        Entry::Template {
            path: "OEBPS/Style/main.css"@,
            template: "epub/main.css"@,
            ctx: Seq::empty(),
        },
    ] + (match p.cover {
        Some(c) => seq![cover_entry(c)],
        None => Seq::<Entry>::empty(),
    }) + font_entries(assets) + seq![
        Entry::Template { path: "OEBPS/content.opf"@, template: "epub/content.opf"@, ctx: opf_ctx_model(p) },
        Entry::Template { path: "OEBPS/toc.ncx"@, template: "epub/toc.ncx"@, ctx: ncx_ctx_model(p.content.flat()) },
    ]
}

/// Owned view of a flattened chapter list handed around by reference.
pub open spec fn deref_chapters(chs: Seq<&Chapter<Html>>) -> Seq<Chapter<Html>> {
    chs.map(|i: int, c: &Chapter<Html>| *c)
}

/// A failed run extends the log by a strict prefix of the planned writes:
/// everything before the failed write stands, nothing after it does.
pub open spec fn prefix_of_writes(base: Seq<Entry>, now: Seq<Entry>, all: Seq<Entry>) -> bool {
    exists|k: int| 0 <= k < all.len() && now == base + all.take(k)
}

pub proof fn lemma_prefix_of_writes(base: Seq<Entry>, now: Seq<Entry>, all: Seq<Entry>, k: int)
    requires
        0 <= k < all.len(),
        now == base + all.take(k),
    ensures
        prefix_of_writes(base, now, all),
{
}

/// The EPUB backend: any sink can publish a rendered project as an OCF
/// archive.  Every method appends exactly the entries `epub_entries`
/// describes, or stops at the first failed write, leaving a strict prefix.
pub trait EpubWriter: BookWriter {
    fn create_mimetype(&mut self) -> (r: Result<(), Error>)
        requires
            old(self).inv(),
        ensures
            final(self).inv(),
            r is Ok ==> final(self).log() == old(self).log().push(
                Entry::Bytes { path: "mimetype"@, data: "application/epub+zip".spec_bytes() },
            ),
            r is Err ==> final(self).log() == old(self).log(),
    ;

    fn create_container(&mut self) -> (r: Result<(), Error>)
        requires
            old(self).inv(),
        ensures
            final(self).inv(),
            r is Ok ==> final(self).log() == old(self).log().push(
                Entry::Template {
                    path: "META-INF/container.xml"@,
                    template: "epub/container.xml"@,
                    ctx: Seq::empty(),
                },
            ),
            r is Err ==> final(self).log() == old(self).log(),
    ;

    fn create_chapters(
        &mut self,
        chapters: &Vec<&Chapter<Html>>,
        numbering: bool,
        lang: Language,
    ) -> (r: Result<(), Error>)
        requires
            old(self).inv(),
        ensures
            final(self).inv(),
            r is Ok ==> final(self).log() == old(self).log() + chapter_entries(
                deref_chapters(chapters@),
                numbering,
                lang,
            ),
            r is Err ==> prefix_of_writes(
                old(self).log(),
                final(self).log(),
                chapter_entries(deref_chapters(chapters@), numbering, lang),
            ),
    ;

    fn install_cover(&mut self, cover: &Cover) -> (r: Result<(), Error>)
        requires
            old(self).inv(),
        ensures
            final(self).inv(),
            r is Ok ==> final(self).log() == old(self).log().push(cover_entry(*cover)),
            r is Err ==> final(self).log() == old(self).log(),
    ;

    fn install_fonts(&mut self, assets: &str) -> (r: Result<(), Error>)
        requires
            old(self).inv(),
        ensures
            final(self).inv(),
            r is Ok ==> final(self).log() == old(self).log() + font_entries(assets@),
            r is Err ==> prefix_of_writes(old(self).log(), final(self).log(), font_entries(assets@)),
    ;

    fn generate_epub(&mut self, project: &Project<Cover, Html>, assets: &str) -> (r: Result<
        (),
        Error,
    >)
        requires
            old(self).inv(),
        ensures
            final(self).inv(),
            r is Ok ==> final(self).log() == old(self).log() + epub_entries(*project, assets@),
            r is Err ==> prefix_of_writes(
                old(self).log(),
                final(self).log(),
                epub_entries(*project, assets@),
            ),
    ;
}

/// Builds the context of the package document.
fn opf_context(project: &Project<Cover, Html>) -> (r: TemplateContext)
    ensures
        r.model() == opf_ctx_model(*project),
{
    let flat = project.content.chapters();
    let nf = flat.len();
    let mut files: Vec<TemplateValue> = Vec::new();
    let mut i: usize = 0;
    while i < nf
        invariant
            i <= nf,
            files@.len() == i,
            forall|k: int| 0 <= k < i ==> #[trigger] files@[k].model() == ValueModel::UInt(k as u64),
        decreases nf - i,
    {
        files.push(TemplateValue::UInt(i as u64));
        i += 1;
    }
    let files_v = TemplateValue::List(files);
    proof {
        crate::writer::lemma_model_seq_index(files_v->List_0@);
        assert(files_v.model() matches ValueModel::List(l) && l =~= Seq::new(
            project.content.flat().len(),
            |i: int| ValueModel::UInt(i as u64),
        ));
    }
    let mut font_values: Vec<TemplateValue> = Vec::new();
    font_values.push(TemplateValue::Str(String::from_str("et-book-roman-line-figures.ttf")));
    font_values.push(TemplateValue::Str(String::from_str("et-book-bold-line-figures.ttf")));
    font_values.push(
        TemplateValue::Str(String::from_str("et-book-display-italic-old-style-figures.ttf")),
    );
    let fonts_v = TemplateValue::List(font_values);
    proof {
        crate::writer::lemma_model_seq_index(fonts_v->List_0@);
        assert(fonts_v.model() matches ValueModel::List(l) && l =~= font_names().map(
            |i: int, f: Seq<char>| ValueModel::Str(f),
        ));
    }
    let mut ctx = TemplateContext::new();
    ctx.insert("title", TemplateValue::Str(project.title.clone()));
    ctx.insert("author", TemplateValue::Str(project.author.clone()));
    ctx.insert(
        "cover_extension",
        match &project.cover {
            None => TemplateValue::Null,
            Some(c) => TemplateValue::Str(c.extension.clone()),
        },
    );
    ctx.insert("files", files_v);
    ctx.insert("fonts", fonts_v);
    ctx.insert("language", TemplateValue::Str(String::from_str(project.language.code())));
    proof {
        assert(ctx.model() =~= opf_ctx_model(*project));
    }
    ctx
}

/// Builds the context of the navigation document.
fn ncx_context(project: &Project<Cover, Html>) -> (r: TemplateContext)
    ensures
        r.model() == ncx_ctx_model(project.content.flat()),
{
    let flat = project.content.chapters();
    let nc = flat.len();
    let mut chaps: Vec<TemplateValue> = Vec::new();
    let mut i: usize = 0;
    while i < nc
        invariant
            nc == flat@.len(),
            flat@.len() == project.content.flat().len(),
            forall|k: int|
                0 <= k < flat@.len() ==> *(#[trigger] flat@[k]) == project.content.flat()[k],
            i <= nc,
            chaps@.len() == i,
            forall|k: int|
                0 <= k < i ==> #[trigger] chaps@[k].model() == ValueModel::Obj(
                    seq![
                        ("index"@, ValueModel::UInt(k as u64)),
                        ("title"@, opt_str_model(project.content.flat()[k].title)),
                    ],
                ),
        decreases nc - i,
    {
        let c: &Chapter<Html> = flat[i];
        let mut fields: Vec<(String, TemplateValue)> = Vec::new();
        fields.push((String::from_str("index"), TemplateValue::UInt(i as u64)));
        fields.push((String::from_str("title"), opt_str_value(&c.title)));
        let v = TemplateValue::Obj(fields);
        proof {
            crate::writer::lemma_model_fields_index(v->Obj_0@);
            assert(v.model() matches ValueModel::Obj(fs) && fs =~= seq![
                ("index"@, ValueModel::UInt(i as u64)),
                ("title"@, opt_str_model(project.content.flat()[i as int].title)),
            ]);
        }
        chaps.push(v);
        i += 1;
    }
    let chaps_v = TemplateValue::List(chaps);
    proof {
        crate::writer::lemma_model_seq_index(chaps_v->List_0@);
        assert(chaps_v.model() matches ValueModel::List(l) && l =~= Seq::new(
            project.content.flat().len(),
            |i: int| ValueModel::Obj(
                seq![
                    ("index"@, ValueModel::UInt(i as u64)),
                    ("title"@, opt_str_model(project.content.flat()[i].title)),
                ],
            ),
        ));
    }
    let mut ctx = TemplateContext::new();
    ctx.insert("chapters", chaps_v);
    proof {
        assert(ctx.model() =~= ncx_ctx_model(project.content.flat()));
    }
    ctx
}

impl<W: BookWriter> EpubWriter for W {
    fn create_mimetype(&mut self) -> (r: Result<(), Error>) {
        self.write_bytes("mimetype", "application/epub+zip".as_bytes())
    }

    fn create_container(&mut self) -> (r: Result<(), Error>) {
        let ctx = TemplateContext::new();
        self.write_template("META-INF/container.xml", "epub/container.xml", &ctx)
    }

    fn create_chapters(
        &mut self,
        chapters: &Vec<&Chapter<Html>>,
        numbering: bool,
        lang: Language,
    ) -> (r: Result<(), Error>) {
        let ghost base = self.log();
        let ghost all = chapter_entries(deref_chapters(chapters@), numbering, lang);
        let n = chapters.len();
        let mut i: usize = 0;
        while i < n
            invariant
                self.inv(),
                n == chapters@.len(),
                i <= n,
                base == old(self).log(),
                all == chapter_entries(deref_chapters(chapters@), numbering, lang),
                self.log() == base + all.take(i as int),
            decreases n - i,
        {
            let c: &Chapter<Html> = chapters[i];
            let mut ctx = TemplateContext::new();
            ctx.insert("number", TemplateValue::UInt((i as u64) + 1));
            ctx.insert("chapter", chapter_value(c));
            ctx.insert("numbering", TemplateValue::Bool(numbering));
            ctx.insert("language", TemplateValue::Str(String::from_str(lang.code())));
            proof {
                assert(ctx.model() =~= chapter_ctx_model(
                    i + 1,
                    deref_chapters(chapters@)[i as int],
                    numbering,
                    lang,
                ));
            }
            let path = chapter_path(i);
            match self.write_template(path.as_str(), "epub/chapter.xhtml", &ctx) {
                Ok(_) => {
                    proof {
                        assert(all.take(i + 1) =~= all.take(i as int).push(all[i as int]));
                        assert(self.log() =~= base + all.take(i + 1));
                    }
                }
                Err(e) => {
                    proof {
                        lemma_prefix_of_writes(base, self.log(), all, i as int);
                    }
                    return Err(e);
                }
            }
            i += 1;
        }
        proof {
            assert(all.take(n as int) =~= all);
        }
        Ok(())
    }

    fn install_cover(&mut self, cover: &Cover) -> (r: Result<(), Error>) {
        let mut dst = String::from_str("OEBPS/cover.");
        dst.append(cover.extension.as_str());
        let r = self.write_bytes(dst.as_str(), cover.content.as_slice());
        proof {
            assert(dst@ =~= "OEBPS/cover."@ + cover.extension@);
        }
        r
    }

    fn install_fonts(&mut self, assets: &str) -> (r: Result<(), Error>) {
        let ghost base = self.log();
        let ghost all = font_entries(assets@);
        let fonts: Vec<&'static str> = vec![
            "et-book-roman-line-figures.ttf",
            "et-book-bold-line-figures.ttf",
            "et-book-display-italic-old-style-figures.ttf",
        ];
        proof {
            assert(fonts@.len() == 3);
            assert(forall|i: int| 0 <= i < 3 ==> #[trigger] fonts@[i]@ == font_names()[i]);
        }
        let n = fonts.len();
        let mut i: usize = 0;
        while i < n
            invariant
                self.inv(),
                n == 3,
                fonts@.len() == 3,
                i <= n,
                forall|k: int| 0 <= k < 3 ==> #[trigger] fonts@[k]@ == font_names()[k],
                base == old(self).log(),
                all == font_entries(assets@),
                self.log() == base + all.take(i as int),
            decreases n - i,
        {
            let f: &str = fonts[i];
            let mut dst = String::from_str("OEBPS/Fonts/");
            dst.append(f);
            let mut src = String::from_str(assets);
            src.append("/fonts/");
            src.append(f);
            proof {
                assert(dst@ =~= "OEBPS/Fonts/"@ + font_names()[i as int]);
                assert(src@ =~= assets@ + "/fonts/"@ + font_names()[i as int]);
            }
            match self.write_file(dst.as_str(), src.as_str()) {
                Ok(_) => {
                    proof {
                        assert(all.take(i + 1) =~= all.take(i as int).push(all[i as int]));
                        assert(self.log() =~= base + all.take(i + 1));
                    }
                }
                Err(e) => {
                    proof {
                        lemma_prefix_of_writes(base, self.log(), all, i as int);
                    }
                    return Err(e);
                }
            }
            i += 1;
        }
        proof {
            assert(all.take(3) =~= all);
        }
        Ok(())
    }

    fn generate_epub(&mut self, project: &Project<Cover, Html>, assets: &str) -> (r: Result<
        (),
        Error,
    >) {
        let ghost base = self.log();
        let ghost all = epub_entries(*project, assets@);
        let numbering = match project.numbering {
            Some(b) => b,
            None => false,
        };

        match self.create_mimetype() {
            Ok(_) => {}
            Err(e) => {
                proof {
                    assert(self.log() =~= base + all.take(0));
                    lemma_prefix_of_writes(base, self.log(), all, 0);
                }
                return Err(e);
            }
        }
        match self.create_container() {
            Ok(_) => {}
            Err(e) => {
                proof {
                    assert(self.log() =~= base + all.take(1));
                    lemma_prefix_of_writes(base, self.log(), all, 1);
                }
                return Err(e);
            }
        }
        proof {
            assert(self.log() =~= base + all.take(2));
        }

        let flat = project.content.chapters();
        proof {
            assert(deref_chapters(flat@) =~= project.content.flat());
        }
        let ghost done: int = 2 + project.content.flat().len() as int;
        match self.create_chapters(&flat, numbering, project.language) {
            Ok(_) => {
                proof {
                    assert(self.log() =~= base + all.take(done as int));
                }
            }
            Err(e) => {
                proof {
                    let k = choose|k: int|
                        0 <= k < flat@.len() && self.log() == base + all.take(2) + chapter_entries(
                            deref_chapters(flat@),
                            numbering,
                            project.language,
                        ).take(k);
                    assert(self.log() =~= base + all.take(2 + k));
                    lemma_prefix_of_writes(base, self.log(), all, 2 + k);
                }
                return Err(e);
            }
        }

        let css_ctx = TemplateContext::new();
        match self.write_template("OEBPS/Style/main.css", "epub/main.css", &css_ctx) {
            Ok(_) => {
                proof {
                    assert(all[done as int] matches Entry::Template { path, template, ctx }
                        && path == "OEBPS/Style/main.css"@ && template == "epub/main.css"@ && ctx
                        == Seq::<(Seq<char>, ValueModel)>::empty());
                    assert(self.log() =~= base + all.take(done + 1));
                }
            }
            Err(e) => {
                proof {
                    assert(self.log() =~= base + all.take(done as int));
                    lemma_prefix_of_writes(base, self.log(), all, done as int);
                }
                return Err(e);
            }
        }
        let ghost done = done + 1;

        if let Some(cov) = &project.cover {
            match self.install_cover(cov) {
                Ok(_) => {
                    proof {
                        assert(all[done as int] == cover_entry(*cov));
                        assert(self.log() =~= base + all.take(done + 1));
                    }
                }
                Err(e) => {
                    proof {
                        assert(self.log() =~= base + all.take(done as int));
                        lemma_prefix_of_writes(base, self.log(), all, done as int);
                    }
                    return Err(e);
                }
            }
        }
        let ghost done = done + (match project.cover {
            Some(_) => 1int,
            None => 0int,
        });
        proof {
            assert(self.log() =~= base + all.take(done));
        }

        match self.install_fonts(assets) {
            Ok(_) => {
                proof {
                    assert(all.take(done + 3) =~= all.take(done) + font_entries(assets@));
                    assert(self.log() =~= base + all.take(done + 3));
                }
            }
            Err(e) => {
                proof {
                    let k = choose|k: int|
                        0 <= k < font_entries(assets@).len() && self.log() == base + all.take(done)
                            + font_entries(assets@).take(k);
                    assert(all.take(done + k) =~= all.take(done) + font_entries(assets@).take(k));
                    assert(self.log() =~= base + all.take(done + k));
                    lemma_prefix_of_writes(base, self.log(), all, done + k);
                }
                return Err(e);
            }
        }
        let ghost done = done + 3;

        let opf_ctx = opf_context(project);
        match self.write_template("OEBPS/content.opf", "epub/content.opf", &opf_ctx) {
            Ok(_) => {
                proof {
                    assert(self.log() =~= base + all.take(done + 1));
                }
            }
            Err(e) => {
                proof {
                    assert(self.log() =~= base + all.take(done));
                    lemma_prefix_of_writes(base, self.log(), all, done);
                }
                return Err(e);
            }
        }
        let ghost done = done + 1;

        let ncx_ctx = ncx_context(project);
        match self.write_template("OEBPS/toc.ncx", "epub/toc.ncx", &ncx_ctx) {
            Ok(_) => {
                proof {
                    assert(self.log() =~= base + all.take(done + 1));
                    assert(all.take(done + 1) =~= all);
                }
            }
            Err(e) => {
                proof {
                    assert(self.log() =~= base + all.take(done));
                    lemma_prefix_of_writes(base, self.log(), all, done);
                }
                return Err(e);
            }
        }
        Ok(())
    }
}


/// Holds zip's archive writer over an in-memory cursor.  The writer's own
/// type cannot be declared to the verifier (its generics are bound by I/O
/// traits the verifier does not know), so it sits opaque in this struct and
/// is reached only through the wrappers below.
#[verifier::external_body]
struct ArchiveHandle {
    inner: zip::ZipWriter<std::io::Cursor<Vec<u8>>>,
}

/// Relies on zip::ZipWriter::new over an in-memory cursor: a fresh, empty
/// archive.
#[verifier::external_body]
fn zip_new() -> ArchiveHandle {
    ArchiveHandle { inner: zip::ZipWriter::new(std::io::Cursor::new(Vec::new())) }
}

/// Relies on zip::ZipWriter::start_file: opens a new archive entry under
/// the given name; the engine's error is carried as its debug text.
#[verifier::external_body]
fn zip_start_file(z: &mut ArchiveHandle, name: &str) -> Result<
    (),
    String,
> {
    z.inner.start_file(name, zip::write::FileOptions::default()).map_err(|e| format!("{:?}", e))
}

/// Relies on zip::ZipWriter::add_directory: adds a directory entry to the
/// archive.
#[verifier::external_body]
fn zip_add_directory(z: &mut ArchiveHandle, name: &str) -> Result<
    (),
    String,
> {
    z.inner.add_directory(name, zip::write::FileOptions::default()).map_err(|e| format!("{:?}", e))
}

/// Relies on std::io::Write::write_all through zip's sink: appends the
/// bytes of the entry opened last.
#[verifier::external_body]
fn zip_write_all(z: &mut ArchiveHandle, data: &[u8]) -> Result<
    (),
    String,
> {
    std::io::Write::write_all(&mut z.inner, data).map_err(|e| format!("{:?}", e))
}

/// Relies on zip::ZipWriter::finish: closes the archive and hands back its
/// bytes.
#[verifier::external_body]
fn zip_finish(z: &mut ArchiveHandle) -> Result<Vec<u8>, String> {
    z.inner.finish().map(|c| c.into_inner()).map_err(|e| format!("{:?}", e))
}

/// The archive-backed writer: an EPUB archive built in memory.  Template
/// renderings go through the templating engine it holds; resource copies
/// read their bytes through the reader capability; and before the first
/// entry under a new directory, a directory entry is added, exactly once
/// per distinct parent directory.
pub struct Zip<R: ResourceReader> {
    output: ArchiveHandle,
    dirs: Vec<String>,
    tera: tera::Tera,
    reader: R,
    events: Ghost<Seq<Entry>>,
}

impl<R: ResourceReader> Zip<R> {
    /// The directory entries added so far, in the order they were added.
    pub closed spec fn dirs_added(&self) -> Seq<Seq<char>> {
        dir_views(self.dirs@)
    }

    closed spec fn wf(self) -> bool {
        &&& forall|i: int, j: int|
            0 <= i < j < self.dirs_added().len() ==> self.dirs_added()[i] != self.dirs_added()[j]
        &&& forall|k: int|
            0 <= k < self.events@.len() ==> match parent_of(entry_path(#[trigger] self.events@[k])) {
                Some(d) => self.dirs_added().contains(d),
                None => true,
            }
    }

    pub fn init(tera: tera::Tera, reader: R) -> (r: Zip<R>)
        ensures
            r.inv(),
            r.log() == Seq::<Entry>::empty(),
            r.dirs_added() == Seq::<Seq<char>>::empty(),
    {
        let z = Zip {
            output: zip_new(),
            dirs: Vec::new(),
            tera,
            reader,
            events: Ghost(Seq::empty()),
        };
        proof {
            lemma_dir_views_index(z.dirs@);
            assert(z.dirs_added() =~= Seq::<Seq<char>>::empty());
        }
        z
    }

    /// Adds a directory entry for the parent of the path about to be
    /// written, if it has one that was not seen before.
    fn create_parent(&mut self, dst: &str) -> (r: Result<(), Error>)
        requires
            old(self).wf(),
        ensures
            final(self).wf(),
            final(self).events@ == old(self).events@,
            old(self).dirs_added().is_prefix_of(final(self).dirs_added()),
            r is Ok ==> match parent_of(dst@) {
                Some(d) => {
                    &&& final(self).dirs_added().contains(d)
                    &&& if old(self).dirs_added().contains(d) {
                        final(self).dirs_added() == old(self).dirs_added()
                    } else {
                        final(self).dirs_added() == old(self).dirs_added().push(d)
                    }
                },
                None => final(self).dirs_added() == old(self).dirs_added(),
            },
            r is Err ==> final(self).dirs_added() == old(self).dirs_added(),
    {
        proof {
            lemma_dir_views_index(self.dirs@);
            lemma_prefix_refl(self.dirs_added());
        }
        match parent_dir(dst) {
            None => Ok(()),
            Some(d) => {
                let n = self.dirs.len();
                let mut i: usize = 0;
                while i < n
                    invariant
                        *self == *old(self),
                        old(self).wf(),
                        n == self.dirs@.len(),
                        i <= n,
                        forall|j: int| 0 <= j < i ==> self.dirs@[j]@ != d@,
                        parent_of(dst@) == Some(d@),
                    decreases n - i,
                {
                    if self.dirs[i].eq(&d) {
                        proof {
                            lemma_dir_views_index(self.dirs@);
                            assert(self.dirs_added()[i as int] == d@);
                            assert(self.dirs_added().contains(d@));
                            lemma_prefix_refl(self.dirs_added());
                        }
                        return Ok(());
                    }
                    i += 1;
                }
                match zip_add_directory(&mut self.output, d.as_str()) {
                    Ok(_) => {}
                    Err(msg) => {
                        proof {
                            lemma_dir_views_index(self.dirs@);
                            lemma_prefix_refl(self.dirs_added());
                        }
                        return Err(Error(msg));
                    }
                }
                let ghost prev = self.dirs@;
                let ghost dview = d@;
                proof {
                    assert(forall|j: int| 0 <= j < prev.len() ==> prev[j]@ != dview);
                }
                self.dirs.push(d);
                proof {
                    lemma_dir_views_index(prev);
                    lemma_dir_views_index(self.dirs@);
                    assert(self.dirs@ == prev.push(self.dirs@.last()));
                    assert(!old(self).dirs_added().contains(dview)) by {
                        assert forall|w: int|
                            0 <= w < old(self).dirs_added().len() implies old(self).dirs_added()[w]
                            != dview by {
                            assert(old(self).dirs_added()[w] == prev[w]@);
                        }
                    }
                    assert(self.dirs_added() =~= old(self).dirs_added().push(dview));
                    assert(old(self).dirs_added().is_prefix_of(self.dirs_added())) by {
                        assert(old(self).dirs_added() =~= self.dirs_added().take(
                            old(self).dirs_added().len() as int,
                        ));
                    }
                    let m = self.dirs_added().len();
                    assert(self.dirs_added()[m - 1] == dview);
                    assert(self.dirs_added().contains(dview));
                    assert(forall|a: int, b: int|
                        0 <= a < b < m ==> self.dirs_added()[a] != self.dirs_added()[b]) by {
                        assert forall|a: int, b: int|
                            0 <= a < b < m implies self.dirs_added()[a] != self.dirs_added()[b] by {
                            if b == m - 1 {
                                assert(self.dirs_added()[a] == prev[a]@);
                            } else {
                                assert(self.dirs_added()[a] == old(self).dirs_added()[a]);
                                assert(self.dirs_added()[b] == old(self).dirs_added()[b]);
                            }
                        }
                    }
                    assert(self.wf()) by {
                        assert(forall|k: int|
                            0 <= k < self.events@.len() ==> match parent_of(
                                entry_path(#[trigger] self.events@[k]),
                            ) {
                                Some(dd) => self.dirs_added().contains(dd),
                                None => true,
                            }) by {
                            assert forall|k: int| 0 <= k < self.events@.len() implies match
                                parent_of(entry_path(#[trigger] self.events@[k])) {
                                Some(dd) => self.dirs_added().contains(dd),
                                None => true,
                            } by {
                                match parent_of(entry_path(self.events@[k])) {
                                    Some(dd) => {
                                        let w = choose|w: int|
                                            0 <= w < old(self).dirs_added().len() && old(
                                                self,
                                            ).dirs_added()[w] == dd;
                                        assert(self.dirs_added()[w] == dd);
                                        assert(self.dirs_added().contains(dd));
                                    }
                                    None => {}
                                }
                            }
                        }
                    }
                }
                Ok(())
            }
        }
    }

    /// Closes the archive and hands back its bytes.
    pub fn finish(self) -> (r: Result<Vec<u8>, Error>) {
        let mut this = self;
        match zip_finish(&mut this.output) {
            Ok(bytes) => Ok(bytes),
            Err(msg) => Err(Error(msg)),
        }
    }
}

/// The views of the directory names a writer has created, in order.
spec fn dir_views(ds: Seq<String>) -> Seq<Seq<char>>
    decreases ds.len(),
{
    if ds.len() == 0 {
        Seq::empty()
    } else {
        dir_views(ds.drop_last()).push(ds.last()@)
    }
}

proof fn lemma_prefix_refl(s: Seq<Seq<char>>)
    ensures
        s.is_prefix_of(s),
{
    assert(s =~= s.take(s.len() as int));
}

proof fn lemma_dir_views_index(ds: Seq<String>)
    ensures
        dir_views(ds).len() == ds.len(),
        forall|i: int| 0 <= i < ds.len() ==> #[trigger] dir_views(ds)[i] == ds[i]@,
    decreases ds.len(),
{
    if ds.len() > 0 {
        lemma_dir_views_index(ds.drop_last());
        assert forall|i: int| 0 <= i < ds.len() implies #[trigger] dir_views(ds)[i] == ds[i]@ by {
            if i < ds.len() - 1 {
                assert(dir_views(ds)[i] == dir_views(ds.drop_last())[i]);
                assert(ds.drop_last()[i] == ds[i]);
            }
        }
    }
}

impl<R: ResourceReader> BookWriter for Zip<R> {
    closed spec fn inv(&self) -> bool {
        self.wf()
    }

    closed spec fn log(&self) -> Seq<Entry> {
        self.events@
    }

    fn write_bytes(&mut self, dst: &str, input: &[u8]) -> (r: Result<(), Error>) {
        self.create_parent(dst)?;
        match zip_start_file(&mut self.output, dst) {
            Ok(_) => {}
            Err(msg) => {
                return Err(Error(msg));
            }
        }
        match zip_write_all(&mut self.output, input) {
            Ok(_) => {}
            Err(msg) => {
                return Err(Error(msg));
            }
        }
        self.events = Ghost(self.events@.push(Entry::Bytes { path: dst@, data: input@ }));
        Ok(())
    }

    fn write_file(&mut self, dst: &str, src: &str) -> (r: Result<(), Error>) {
        let bytes = self.reader.read_resource(src)?;
        self.create_parent(dst)?;
        match zip_start_file(&mut self.output, dst) {
            Ok(_) => {}
            Err(msg) => {
                return Err(Error(msg));
            }
        }
        match zip_write_all(&mut self.output, bytes.as_slice()) {
            Ok(_) => {}
            Err(msg) => {
                return Err(Error(msg));
            }
        }
        self.events = Ghost(self.events@.push(Entry::Copy { path: dst@, src: src@ }));
        Ok(())
    }

    fn write_template(&mut self, dst: &str, template: &str, ctx: &TemplateContext) -> (r: Result<
        (),
        Error,
    >) {
        let content = render_template(&self.tera, template, ctx)?;
        self.create_parent(dst)?;
        match zip_start_file(&mut self.output, dst) {
            Ok(_) => {}
            Err(msg) => {
                return Err(Error(msg));
            }
        }
        match zip_write_all(&mut self.output, content.as_str().as_bytes()) {
            Ok(_) => {}
            Err(msg) => {
                return Err(Error(msg));
            }
        }
        self.events = Ghost(
            self.events@.push(
                Entry::Template { path: dst@, template: template@, ctx: ctx.model() },
            ),
        );
        Ok(())
    }
}

/// Law: across a whole run, an archive-backed writer adds a directory entry
/// exactly once per distinct parent directory: never twice, and every
/// written entry's parent has one.
pub proof fn lemma_archive_dirs_once<R: ResourceReader>(z: &Zip<R>)
    requires
        z.inv(),
    ensures
        forall|i: int, j: int|
            0 <= i < j < z.dirs_added().len() ==> z.dirs_added()[i] != z.dirs_added()[j],
        forall|k: int|
            0 <= k < z.log().len() ==> match parent_of(entry_path(#[trigger] z.log()[k])) {
                Some(d) => z.dirs_added().contains(d),
                None => true,
            },
{
}


/// Law: the layout of an EPUB build.  The build writes one chapter page per
/// flattened chapter, at ascending numeric file names under 1-based
/// numbers; the package context lists exactly the chapter indices in
/// ascending order, the three fonts, and the cover extension exactly when a
/// cover is present; and the only raw-byte entries of the whole build are
/// the OCF marker and, when present, the single cover entry with the
/// cover's own bytes.
pub proof fn lemma_epub_entries_layout(p: Project<Cover, Html>, assets: Seq<char>)
    ensures
        ({
            let all = epub_entries(p, assets);
            let n = p.content.flat().len() as int;
            let c: int = if p.cover is Some {
                1
            } else {
                0
            };
            &&& all.len() == n + 8 + c
            &&& forall|i: int|
                0 <= i < n ==> all[2 + i] == (Entry::Template {
                    path: chapter_xhtml_path(i),
                    template: "epub/chapter.xhtml"@,
                    ctx: chapter_ctx_model(i + 1, p.content.flat()[i], numbering_of(p), p.language),
                })
            &&& (p.cover matches Some(cv) ==> all[3 + n] == cover_entry(cv))
            &&& forall|i: int|
                0 <= i < all.len() ==> ((#[trigger] all[i]) is Bytes <==> (i == 0 || (
                p.cover is Some && i == 3 + n)))
            &&& all[n + 6 + c] == (Entry::Template {
                path: "OEBPS/content.opf"@,
                template: "epub/content.opf"@,
                ctx: opf_ctx_model(p),
            })
            &&& opf_ctx_model(p)[3].1 == ValueModel::List(
                Seq::new(n as nat, |i: int| ValueModel::UInt(i as u64)),
            )
            &&& all[n + 7 + c] == (Entry::Template {
                path: "OEBPS/toc.ncx"@,
                template: "epub/toc.ncx"@,
                ctx: ncx_ctx_model(p.content.flat()),
            })
        }),
{
    let all = epub_entries(p, assets);
    let n = p.content.flat().len() as int;
    let c: int = if p.cover is Some {
        1
    } else {
        0
    };
    assert(all.len() == n + 8 + c) by {
        assert(all == seq![
            Entry::Bytes { path: "mimetype"@, data: "application/epub+zip".spec_bytes() },
            Entry::Template {
                path: "META-INF/container.xml"@,
                template: "epub/container.xml"@,
                ctx: Seq::empty(),
            },
        ] + chapter_entries(p.content.flat(), numbering_of(p), p.language) + seq![
            Entry::Template {
                path: "OEBPS/Style/main.css"@,
                template: "epub/main.css"@,
                ctx: Seq::empty(),
            },
        ] + (match p.cover {
            Some(cv) => seq![cover_entry(cv)],
            None => Seq::<Entry>::empty(),
        }) + font_entries(assets) + seq![
            Entry::Template {
                path: "OEBPS/content.opf"@,
                template: "epub/content.opf"@,
                ctx: opf_ctx_model(p),
            },
            Entry::Template {
                path: "OEBPS/toc.ncx"@,
                template: "epub/toc.ncx"@,
                ctx: ncx_ctx_model(p.content.flat()),
            },
        ]);
        assert(chapter_entries(p.content.flat(), numbering_of(p), p.language).len() == n);
        assert(font_entries(assets).len() == 3);
        if p.cover is Some {
            assert((match p.cover {
                Some(cv) => seq![cover_entry(cv)],
                None => Seq::<Entry>::empty(),
            }).len() == 1);
        } else {
            assert((match p.cover {
                Some(cv) => seq![cover_entry(cv)],
                None => Seq::<Entry>::empty(),
            }).len() == 0);
        }
    }
    assert(forall|i: int|
        0 <= i < n ==> all[2 + i] == chapter_entries(p.content.flat(), numbering_of(p), p.language)[i]);
    assert forall|i: int| 0 <= i < all.len() implies ((#[trigger] all[i]) is Bytes <==> (i == 0 || (
    p.cover is Some && i == 3 + n))) by {
        if 2 <= i < 2 + n {
            assert(all[i] == chapter_entries(p.content.flat(), numbering_of(p), p.language)[i - 2]);
        }
        if 3 + n + c <= i < 6 + n + c {
            if i < 3 + n + c + 3 {
                assert(all[i] == font_entries(assets)[i - 3 - n - c]);
            }
        }
    }
}
} // verus!
