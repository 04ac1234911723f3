use vstd::prelude::*;

use crate::error::Error;
use crate::project::Language;

verus! {

/// The kind of spacing the typography engine asks for between two tokens.
#[derive(Debug, Clone, Copy, PartialEq, Eq, Structural)]
pub enum Space {
    Normal,
    Nbsp,
    NoSpace,
}

/// What a space kind renders to.
pub open spec fn space_html(s: Space) -> Seq<char> {
    match s {
        Space::Normal => " "@,
        Space::Nbsp => "&nbsp;"@,
        Space::NoSpace => ""@,
    }
}

/// What an optional dialogue or thought author renders to inside a `class`
/// attribute.
pub open spec fn by_author(author: Option<&str>) -> Seq<char> {
    match author {
        Some(a) => " by-"@ + a@,
        None => Seq::empty(),
    }
}

/// What an optional aside class renders to inside a `class` attribute.
pub open spec fn aside_class(cls: Option<&str>) -> Seq<char> {
    match cls {
        Some(c) => " "@ + c@,
        None => Seq::empty(),
    }
}

/// Compiled output: the HTML rendering of one markup document.  The render
/// events of the typography engine are turned into text by the methods
/// below, which fix the HTML policy of the whole library.
#[derive(Debug, Clone, PartialEq, Eq)]
pub struct Html(String);

impl View for Html {
    type V = Seq<char>;

    closed spec fn view(&self) -> Seq<char> {
        self.0@
    }
}

impl Html {
    /// A fresh, empty rendering.
    pub fn empty() -> (r: Html)
        ensures
            r@ == Seq::<char>::empty(),
    {
        Html(String::new())
    }

    /// Wraps already-rendered text; the door through which an external
    /// compiler run enters the tree.
    pub fn from_string(s: String) -> (r: Html)
        ensures
            r@ == s@,
    {
        Html(s)
    }

    pub fn to_string(self) -> (r: String)
        ensures
            r@ == self@,
    {
        self.0
    }

    /// The rendered text, without giving the value up.
    pub fn text(&self) -> (r: String)
        ensures
            r@ == self@,
    {
        self.0.clone()
    }

    fn push_str(&mut self, s: &str)
        ensures
            final(self)@ == old(self)@ + s@,
    {
        self.0.append(s);
    }

    pub fn render_space(&mut self, space: Space)
        ensures
            final(self)@ == old(self)@ + space_html(space),
    {
        match space {
            Space::Normal => self.push_str(" "),
            Space::Nbsp => self.push_str("&nbsp;"),
            Space::NoSpace => self.push_str(""),
        }
    }

    pub fn render_word(&mut self, word: &str)
        ensures
            final(self)@ == old(self)@ + word@,
    {
        self.push_str(word);
    }

    pub fn render_mark(&mut self, mark: &str)
        ensures
            final(self)@ == old(self)@ + mark@,
    {
        self.push_str(mark);
    }

    pub fn render_illformed(&mut self, err: &str)
        ensures
            final(self)@ == old(self)@ + err@,
    {
        self.push_str(err);
    }

    pub fn open_emph(&mut self)
        ensures
            final(self)@ == old(self)@ + "<em>"@,
    {
        self.push_str("<em>");
    }

    pub fn close_emph(&mut self)
        ensures
            final(self)@ == old(self)@ + "</em>"@,
    {
        self.push_str("</em>");
    }

    pub fn open_strong_emph(&mut self)
        ensures
            final(self)@ == old(self)@ + "<strong>"@,
    {
        self.push_str("<strong>");
    }

    pub fn close_strong_emph(&mut self)
        ensures
            final(self)@ == old(self)@ + "</strong>"@,
    {
        self.push_str("</strong>");
    }

    pub fn open_reply(&mut self)
        ensures
            final(self)@ == old(self)@ + "<span class=\"reply\">"@,
    {
        self.push_str("<span class=\"reply\">");
    }

    pub fn close_reply(&mut self)
        ensures
            final(self)@ == old(self)@ + "</span>"@,
    {
        self.push_str("</span>");
    }

    pub fn open_thought(&mut self, author: Option<&str>)
        ensures
            final(self)@ == old(self)@ + "<span class=\"thought"@ + by_author(author) + "\">"@,
    {
        self.push_str("<span class=\"thought");
        if let Some(a) = author {
            self.push_str(" by-");
            self.push_str(a);
        }
        self.push_str("\">");
    }

    pub fn close_thought(&mut self)
        ensures
            final(self)@ == old(self)@ + "</span>"@,
    {
        self.push_str("</span>");
    }

    pub fn open_dialogue(&mut self, author: Option<&str>)
        ensures
            final(self)@ == old(self)@ + "<span class=\"dialogue"@ + by_author(author) + "\">"@,
    {
        self.push_str("<span class=\"dialogue");
        if let Some(a) = author {
            self.push_str(" by-");
            self.push_str(a);
        }
        self.push_str("\">");
    }

    pub fn close_dialogue(&mut self)
        ensures
            final(self)@ == old(self)@ + "</span>"@,
    {
        self.push_str("</span>");
    }

    pub fn between_dialogue(&mut self)
        ensures
            final(self)@ == old(self)@ + "</p><p>"@,
    {
        self.push_str("</p><p>");
    }

    pub fn open_illformed_inline(&mut self)
        ensures
            final(self)@ == old(self)@ + "<span class=\"illformed_inline\">"@,
    {
        self.push_str("<span class=\"illformed_inline\">");
    }

    pub fn close_illformed_inline(&mut self)
        ensures
            final(self)@ == old(self)@ + "</span>"@,
    {
        self.push_str("</span>");
    }

    pub fn open_paragraph(&mut self)
        ensures
            final(self)@ == old(self)@ + "<p>"@,
    {
        self.push_str("<p>");
    }

    pub fn close_paragraph(&mut self)
        ensures
            final(self)@ == old(self)@ + "</p>"@,
    {
        self.push_str("</p>");
    }

    pub fn open_illformed_block(&mut self)
        ensures
            final(self)@ == old(self)@ + "<div class=\"illformed_block\">"@,
    {
        self.push_str("<div class=\"illformed_block\">");
    }

    pub fn close_illformed_block(&mut self)
        ensures
            final(self)@ == old(self)@ + "</div>"@,
    {
        self.push_str("</div>");
    }

    pub fn open_story(&mut self)
        ensures
            final(self)@ == old(self)@ + "<div class=\"story\">"@,
    {
        self.push_str("<div class=\"story\">");
    }

    pub fn close_story(&mut self)
        ensures
            final(self)@ == old(self)@ + "</div>"@,
    {
        self.push_str("</div>");
    }

    pub fn open_aside(&mut self, cls: Option<&str>)
        ensures
            final(self)@ == old(self)@ + "<div class=\"aside"@ + aside_class(cls) + "\">"@,
    {
        self.push_str("<div class=\"aside");
        if let Some(c) = cls {
            self.push_str(" ");
            self.push_str(c);
        }
        self.push_str("\">");
    }

    pub fn close_aside(&mut self)
        ensures
            final(self)@ == old(self)@ + "</div>"@,
    {
        self.push_str("</div>");
    }
}

/// The narrow interface through which the library consumes the markup
/// compiler.  The engine itself is an external collaborator; the concrete
/// implementation (driven by the application) compiles one raw document
/// under one locale's typography rules.  A compiler is a pure function of
/// its input and locale: the two spec functions name its verdict and its
/// output.
pub trait Typesetter {
    /// Whether the engine accepts this document.  A concrete
    /// implementation overrides this with its own verdict; the default
    /// stands only so that implementations outside the verifier need not
    /// name it.
    open spec fn accepts(&self, input: Seq<char>, lang: Language) -> bool {
        true
    }

    /// The rendering the engine produces for an accepted document.
    open spec fn output(&self, input: Seq<char>, lang: Language) -> Seq<char> {
        Seq::empty()
    }

    fn compile(&self, input: &str, lang: Language) -> (r: Result<Html, Error>)
        ensures
            r is Ok <==> self.accepts(input@, lang),
            r matches Ok(h) ==> h@ == self.output(input@, lang),
    ;
}

} // verus!
