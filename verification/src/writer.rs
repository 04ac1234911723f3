use vstd::prelude::*;

use crate::error::Error;

verus! {

broadcast use
    vstd::seq::axiom_seq_index_decreases,
    vstd::seq::axiom_seq_subrange_decreases,
    vstd::std_specs::vec::axiom_vec_decreases_to_view,
;

/// A value handed to the templating engine: the data a template context can
/// carry.
#[derive(Debug, PartialEq, Eq)]
pub enum TemplateValue {
    Null,
    Bool(bool),
    UInt(u64),
    Str(String),
    List(Vec<TemplateValue>),
    Obj(Vec<(String, TemplateValue)>),
}

/// The mathematical shape of a template value.
pub ghost enum ValueModel {
    Null,
    Bool(bool),
    UInt(u64),
    Str(Seq<char>),
    List(Seq<ValueModel>),
    Obj(Seq<(Seq<char>, ValueModel)>),
}

impl TemplateValue {
    pub open spec fn model(self) -> ValueModel
        decreases self,
    {
        match self {
            TemplateValue::Null => ValueModel::Null,
            TemplateValue::Bool(b) => ValueModel::Bool(b),
            TemplateValue::UInt(u) => ValueModel::UInt(u),
            TemplateValue::Str(s) => ValueModel::Str(s@),
            TemplateValue::List(vs) => ValueModel::List(TemplateValue::model_seq(vs@)),
            TemplateValue::Obj(fs) => ValueModel::Obj(TemplateValue::model_fields(fs@)),
        }
    }

    pub open spec fn model_seq(vs: Seq<TemplateValue>) -> Seq<ValueModel>
        decreases vs,
    {
        if vs.len() == 0 {
            Seq::empty()
        } else {
            seq![vs.first().model()] + TemplateValue::model_seq(vs.drop_first())
        }
    }

    pub open spec fn model_fields(fs: Seq<(String, TemplateValue)>) -> Seq<
        (Seq<char>, ValueModel),
    >
        decreases fs,
    {
        if fs.len() == 0 {
            Seq::empty()
        } else {
            seq![(fs.first().0@, fs.first().1.model())] + TemplateValue::model_fields(
                fs.drop_first(),
            )
        }
    }

    /// A copy whose model is the model of the original.
    pub fn duplicate(&self) -> (r: TemplateValue)
        ensures
            r.model() == self.model(),
        decreases self,
    {
        match self {
            TemplateValue::Null => TemplateValue::Null,
            TemplateValue::Bool(b) => TemplateValue::Bool(*b),
            TemplateValue::UInt(u) => TemplateValue::UInt(*u),
            TemplateValue::Str(s) => TemplateValue::Str(s.clone()),
            TemplateValue::List(vs) => {
                let n = vs.len();
                let mut out: Vec<TemplateValue> = Vec::new();
                let mut j: usize = 0;
                while j < n
                    invariant
                        *self == TemplateValue::List(*vs),
                        n == vs@.len(),
                        j <= n,
                        out@.len() == j,
                        forall|i: int| 0 <= i < j ==> out@[i].model() == vs@[i].model(),
                    decreases n - j,
                {
                    proof {
                        assert(decreases_to!(*self => (*self)->List_0));
                        assert(decreases_to!((*self)->List_0 => (*self)->List_0@));
                        assert(decreases_to!((*self)->List_0@ => (*self)->List_0@[j as int]));
                        assert(decreases_to!(*self => vs@[j as int]));
                    }
                    out.push(vs[j].duplicate());
                    j += 1;
                }
                proof {
                    lemma_model_seq_index(out@);
                    lemma_model_seq_index(vs@);
                    assert(TemplateValue::model_seq(out@) =~= TemplateValue::model_seq(vs@));
                }
                TemplateValue::List(out)
            }
            TemplateValue::Obj(fs) => {
                let n = fs.len();
                let mut out: Vec<(String, TemplateValue)> = Vec::new();
                let mut j: usize = 0;
                while j < n
                    invariant
                        *self == TemplateValue::Obj(*fs),
                        n == fs@.len(),
                        j <= n,
                        out@.len() == j,
                        forall|i: int|
                            0 <= i < j ==> out@[i].0@ == fs@[i].0@ && out@[i].1.model()
                                == fs@[i].1.model(),
                    decreases n - j,
                {
                    proof {
                        assert(decreases_to!(*self => (*self)->Obj_0));
                        assert(decreases_to!((*self)->Obj_0 => (*self)->Obj_0@));
                        assert(decreases_to!((*self)->Obj_0@ => (*self)->Obj_0@[j as int]));
                        assert(decreases_to!((*self)->Obj_0@[j as int] => (*self)->Obj_0@[j as int].1));
                        assert(decreases_to!(*self => fs@[j as int].1));
                    }
                    let key = fs[j].0.clone();
                    let v = fs[j].1.duplicate();
                    out.push((key, v));
                    j += 1;
                }
                proof {
                    lemma_model_fields_index(out@);
                    lemma_model_fields_index(fs@);
                    assert(TemplateValue::model_fields(out@) =~= TemplateValue::model_fields(fs@));
                }
                TemplateValue::Obj(out)
            }
        }
    }
}

/// The model of a list of values, element by element.
pub proof fn lemma_model_seq_index(vs: Seq<TemplateValue>)
    ensures
        TemplateValue::model_seq(vs).len() == vs.len(),
        forall|i: int|
            0 <= i < vs.len() ==> #[trigger] TemplateValue::model_seq(vs)[i] == vs[i].model(),
    decreases vs,
{
    if vs.len() > 0 {
        lemma_model_seq_index(vs.drop_first());
        assert forall|i: int| 0 <= i < vs.len() implies #[trigger] TemplateValue::model_seq(vs)[i]
            == vs[i].model() by {
            if i > 0 {
                assert(TemplateValue::model_seq(vs)[i] == TemplateValue::model_seq(
                    vs.drop_first(),
                )[i - 1]);
                assert(vs.drop_first()[i - 1] == vs[i]);
            }
        }
    }
}

/// The model of a field list, field by field.
pub proof fn lemma_model_fields_index(fs: Seq<(String, TemplateValue)>)
    ensures
        TemplateValue::model_fields(fs).len() == fs.len(),
        forall|i: int|
            0 <= i < fs.len() ==> #[trigger] TemplateValue::model_fields(fs)[i] == (
                fs[i].0@,
                fs[i].1.model(),
            ),
    decreases fs,
{
    if fs.len() > 0 {
        lemma_model_fields_index(fs.drop_first());
        assert forall|i: int| 0 <= i < fs.len() implies #[trigger] TemplateValue::model_fields(
            fs,
        )[i] == (fs[i].0@, fs[i].1.model()) by {
            if i > 0 {
                assert(TemplateValue::model_fields(fs)[i] == TemplateValue::model_fields(
                    fs.drop_first(),
                )[i - 1]);
                assert(fs.drop_first()[i - 1] == fs[i]);
            }
        }
    }
}

/// The ordered key/value pairs handed to one template rendering.
#[derive(Debug, PartialEq, Eq)]
pub struct TemplateContext {
    pub entries: Vec<(String, TemplateValue)>,
}

impl TemplateContext {
    pub open spec fn model(&self) -> Seq<(Seq<char>, ValueModel)> {
        TemplateValue::model_fields(self.entries@)
    }

    pub fn new() -> (r: TemplateContext)
        ensures
            r.model() == Seq::<(Seq<char>, ValueModel)>::empty(),
    {
        TemplateContext { entries: Vec::new() }
    }

    pub fn insert(&mut self, key: &str, v: TemplateValue)
        ensures
            final(self).model() == old(self).model().push((key@, v.model())),
    {
        let ghost before = self.entries@;
        self.entries.push((String::from_str(key), v));
        proof {
            lemma_model_fields_index(before);
            lemma_model_fields_index(self.entries@);
            assert(TemplateValue::model_fields(self.entries@) =~= TemplateValue::model_fields(
                before,
            ).push((key@, v.model())));
        }
    }

    /// A copy whose model is the model of the original.
    pub fn duplicate(&self) -> (r: TemplateContext)
        ensures
            r.model() == self.model(),
    {
        let n = self.entries.len();
        let mut out: Vec<(String, TemplateValue)> = Vec::new();
        let mut j: usize = 0;
        while j < n
            invariant
                n == self.entries@.len(),
                j <= n,
                out@.len() == j,
                forall|i: int|
                    0 <= i < j ==> out@[i].0@ == self.entries@[i].0@ && out@[i].1.model()
                        == self.entries@[i].1.model(),
            decreases n - j,
        {
            let key = self.entries[j].0.clone();
            let v = self.entries[j].1.duplicate();
            out.push((key, v));
            j += 1;
        }
        proof {
            lemma_model_fields_index(out@);
            lemma_model_fields_index(self.entries@);
            assert(TemplateValue::model_fields(out@) =~= TemplateValue::model_fields(
                self.entries@,
            ));
        }
        TemplateContext { entries: out }
    }
}

/// One write against the virtual path space of a sink: raw bytes, a copy
/// from an external resource, or a template rendering request.
pub ghost enum Entry {
    Bytes { path: Seq<char>, data: Seq<u8> },
    Copy { path: Seq<char>, src: Seq<char> },
    Template { path: Seq<char>, template: Seq<char>, ctx: Seq<(Seq<char>, ValueModel)> },
}

/// The abstract sink every backend writes through.  A writer keeps the
/// ordered log of the writes it has accepted; each operation either appends
/// exactly its own entry or fails and leaves the log unchanged.
pub trait BookWriter: Sized {
    /// The writer's own well-formedness; constructors establish it and
    /// every operation preserves it.  A concrete implementation overrides
    /// these two with its own model; the defaults stand only so that
    /// implementations outside the verifier need not name them.
    open spec fn inv(&self) -> bool {
        true
    }

    open spec fn log(&self) -> Seq<Entry> {
        Seq::empty()
    }

    fn write_bytes(&mut self, dst: &str, input: &[u8]) -> (r: Result<(), Error>)
        requires
            old(self).inv(),
        ensures
            final(self).inv(),
            r is Ok ==> final(self).log() == old(self).log().push(
                Entry::Bytes { path: dst@, data: input@ },
            ),
            r is Err ==> final(self).log() == old(self).log(),
    ;

    /// Copies the bytes of the external resource `src` to `dst`.
    fn write_file(&mut self, dst: &str, src: &str) -> (r: Result<(), Error>)
        requires
            old(self).inv(),
        ensures
            final(self).inv(),
            r is Ok ==> final(self).log() == old(self).log().push(
                Entry::Copy { path: dst@, src: src@ },
            ),
            r is Err ==> final(self).log() == old(self).log(),
    ;

    /// Renders the named template under the given context and writes the
    /// result to `dst`.
    fn write_template(&mut self, dst: &str, template: &str, ctx: &TemplateContext) -> (r: Result<
        (),
        Error,
    >)
        requires
            old(self).inv(),
        ensures
            final(self).inv(),
            r is Ok ==> final(self).log() == old(self).log().push(
                Entry::Template { path: dst@, template: template@, ctx: ctx.model() },
            ),
            r is Err ==> final(self).log() == old(self).log(),
    ;
}

/// Reads the bytes of an external resource (a font, a stylesheet) named by
/// an identifier; the concrete implementation is the application's.
pub trait ResourceReader {
    fn read_resource(&self, src: &str) -> (r: Result<Vec<u8>, Error>);
}

/// The virtual path an entry was written to.
pub open spec fn entry_path(e: Entry) -> Seq<char> {
    match e {
        Entry::Bytes { path, data } => path,
        Entry::Copy { path, src } => path,
        Entry::Template { path, template, ctx } => path,
    }
}

/// The position of the last path separator, or a negative value when there
/// is none.
pub open spec fn last_slash(p: Seq<char>) -> int
    decreases p.len(),
{
    if p.len() == 0 {
        -1
    } else if p.last() == '/' {
        p.len() - 1
    } else {
        last_slash(p.drop_last())
    }
}

/// The parent directory of a virtual path: everything before the last
/// separator; a name at the root has none.
pub open spec fn parent_of(p: Seq<char>) -> Option<Seq<char>> {
    if last_slash(p) >= 0 {
        Some(p.take(last_slash(p)))
    } else {
        None
    }
}

proof fn lemma_last_slash_none(p: Seq<char>)
    requires
        forall|j: int| 0 <= j < p.len() ==> p[j] != '/',
    ensures
        last_slash(p) == -1,
    decreases p.len(),
{
    if p.len() > 0 {
        lemma_last_slash_none(p.drop_last());
    }
}

proof fn lemma_last_slash_at(p: Seq<char>, k: int)
    requires
        0 <= k < p.len(),
        p[k] == '/',
        forall|j: int| k < j < p.len() ==> p[j] != '/',
    ensures
        last_slash(p) == k,
    decreases p.len(),
{
    if k + 1 < p.len() {
        lemma_last_slash_at(p.drop_last(), k);
    }
}

/// The parent directory of a path, as `parent_of` names it.
pub fn parent_dir(s: &str) -> (r: Option<String>)
    ensures
        r is Some <==> parent_of(s@) is Some,
        r matches Some(d) ==> Some(d@) == parent_of(s@),
{
    let n = s.unicode_len();
    let mut i: usize = n;
    while i > 0
        invariant
            n == s@.len(),
            i <= n,
            forall|j: int| i <= j < n ==> s@[j] != '/',
        decreases i,
    {
        if s.get_char(i - 1) == '/' {
            proof {
                lemma_last_slash_at(s@, i - 1);
            }
            let d = s.substring_char(0, i - 1);
            return Some(String::from_str(d));
        }
        i -= 1;
    }
    proof {
        lemma_last_slash_none(s@);
    }
    None
}

/// One write as an in-memory writer records it.
#[derive(Debug, PartialEq, Eq)]
pub enum Record {
    Bytes { path: String, data: Vec<u8> },
    Copy { path: String, src: String },
    Template { path: String, template: String, ctx: TemplateContext },
}

impl Record {
    pub open spec fn model(self) -> Entry {
        match self {
            Record::Bytes { path, data } => Entry::Bytes { path: path@, data: data@ },
            Record::Copy { path, src } => Entry::Copy { path: path@, src: src@ },
            Record::Template { path, template, ctx } => Entry::Template {
                path: path@,
                template: template@,
                ctx: ctx.model(),
            },
        }
    }
}

/// An in-memory writer: keeps every write as a record, in order.  It backs
/// the tests of the two publishers and documents what a sink must do.
pub struct Memory {
    pub records: Vec<Record>,
}

impl Memory {
    pub fn new() -> (r: Memory)
        ensures
            r.inv(),
            r.log() == Seq::<Entry>::empty(),
    {
        let m = Memory { records: Vec::new() };
        proof {
            assert(m.records@.map(|i: int, r: Record| r.model()) =~= Seq::<Entry>::empty());
        }
        m
    }
}

impl BookWriter for Memory {
    open spec fn inv(&self) -> bool {
        true
    }

    open spec fn log(&self) -> Seq<Entry> {
        self.records@.map(|i: int, r: Record| r.model())
    }

    fn write_bytes(&mut self, dst: &str, input: &[u8]) -> (r: Result<(), Error>) {
        let ghost before = self.records@;
        let data: Vec<u8> = vstd::slice::slice_to_vec(input);
        self.records.push(Record::Bytes { path: String::from_str(dst), data });
        proof {
            assert(self.records@.map(|i: int, r: Record| r.model()) =~= before.map(
                |i: int, r: Record| r.model(),
            ).push(Entry::Bytes { path: dst@, data: input@ }));
        }
        Ok(())
    }

    fn write_file(&mut self, dst: &str, src: &str) -> (r: Result<(), Error>) {
        let ghost before = self.records@;
        self.records.push(Record::Copy { path: String::from_str(dst), src: String::from_str(src) });
        proof {
            assert(self.records@.map(|i: int, r: Record| r.model()) =~= before.map(
                |i: int, r: Record| r.model(),
            ).push(Entry::Copy { path: dst@, src: src@ }));
        }
        Ok(())
    }

    fn write_template(&mut self, dst: &str, template: &str, ctx: &TemplateContext) -> (r: Result<
        (),
        Error,
    >) {
        let ghost before = self.records@;
        self.records.push(
            Record::Template {
                path: String::from_str(dst),
                template: String::from_str(template),
                ctx: ctx.duplicate(),
            },
        );
        proof {
            assert(self.records@.map(|i: int, r: Record| r.model()) =~= before.map(
                |i: int, r: Record| r.model(),
            ).push(Entry::Template { path: dst@, template: template@, ctx: ctx.model() }));
        }
        Ok(())
    }
}

} // verus!
