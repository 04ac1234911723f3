use vstd::prelude::*;

use crate::error::Error;
use crate::writer::TemplateValue;
use crate::writer::TemplateContext;

verus! {

broadcast use
    vstd::seq::axiom_seq_index_decreases,
    vstd::std_specs::vec::axiom_vec_decreases_to_view,
;

#[verifier::external_type_specification]
#[verifier::external_body]
pub struct ExTera(tera::Tera);

#[verifier::external_type_specification]
#[verifier::external_body]
pub struct ExTeraContext(tera::Context);

#[verifier::external_type_specification]
#[verifier::external_body]
pub struct ExJsonValue(serde_json::Value);

/// Relies on serde_json::Value::Null.
#[verifier::external_body]
fn json_null() -> serde_json::Value {
    serde_json::Value::Null
}

/// Relies on serde_json::Value::Bool.
#[verifier::external_body]
fn json_bool(b: bool) -> serde_json::Value {
    serde_json::Value::Bool(b)
}

/// Relies on serde_json::Value::Number and Number::from.
#[verifier::external_body]
fn json_u64(u: u64) -> serde_json::Value {
    serde_json::Value::Number(serde_json::Number::from(u))
}

/// Relies on serde_json::Value::String.
#[verifier::external_body]
fn json_str(s: &str) -> serde_json::Value {
    serde_json::Value::String(s.to_string())
}

/// Relies on serde_json::Value::Array.
#[verifier::external_body]
fn json_array(vs: Vec<serde_json::Value>) -> serde_json::Value {
    serde_json::Value::Array(vs)
}

/// Relies on serde_json::Value::Object and Map's FromIterator.
#[verifier::external_body]
fn json_object(fs: Vec<(String, serde_json::Value)>) -> serde_json::Value {
    serde_json::Value::Object(fs.into_iter().collect())
}

/// Turns a template value into the JSON value the templating engine
/// consumes, field for field.
fn to_json(v: &TemplateValue) -> serde_json::Value
    decreases v,
{
    match v {
        TemplateValue::Null => json_null(),
        TemplateValue::Bool(b) => json_bool(*b),
        TemplateValue::UInt(u) => json_u64(*u),
        TemplateValue::Str(s) => json_str(s.as_str()),
        TemplateValue::List(vs) => {
            let n = vs.len();
            let mut out: Vec<serde_json::Value> = Vec::new();
            let mut j: usize = 0;
            while j < n
                invariant
                    *v == TemplateValue::List(*vs),
                    n == vs@.len(),
                    j <= n,
                decreases n - j,
            {
                proof {
                    assert(decreases_to!(*v => (*v)->List_0));
                    assert(decreases_to!((*v)->List_0 => (*v)->List_0@));
                    assert(decreases_to!((*v)->List_0@ => (*v)->List_0@[j as int]));
                    assert(decreases_to!(*v => vs@[j as int]));
                }
                let jv = to_json(&vs[j]);
                out.push(jv);
                j += 1;
            }
            json_array(out)
        }
        TemplateValue::Obj(fs) => {
            let n = fs.len();
            let mut out: Vec<(String, serde_json::Value)> = Vec::new();
            let mut j: usize = 0;
            while j < n
                invariant
                    *v == TemplateValue::Obj(*fs),
                    n == fs@.len(),
                    j <= n,
                decreases n - j,
            {
                proof {
                    assert(decreases_to!(*v => (*v)->Obj_0));
                    assert(decreases_to!((*v)->Obj_0 => (*v)->Obj_0@));
                    assert(decreases_to!((*v)->Obj_0@ => (*v)->Obj_0@[j as int]));
                    assert(decreases_to!((*v)->Obj_0@[j as int] => (*v)->Obj_0@[j as int].1));
                    assert(decreases_to!(*v => fs@[j as int].1));
                }
                let key = fs[j].0.clone();
                let jv = to_json(&fs[j].1);
                out.push((key, jv));
                j += 1;
            }
            json_object(out)
        }
    }
}

/// Relies on tera::Context::new.
#[verifier::external_body]
fn ctx_new() -> tera::Context {
    tera::Context::new()
}

/// Relies on tera::Context::insert: binds one key of the context to a JSON
/// value.
#[verifier::external_body]
fn ctx_insert(ctx: &mut tera::Context, key: &str, v: &serde_json::Value) {
    ctx.insert(key, v);
}

/// Builds the engine context for a template rendering request, key by key
/// in order.
pub fn build_context(ctx: &TemplateContext) -> tera::Context {
    let mut out = ctx_new();
    let n = ctx.entries.len();
    let mut i: usize = 0;
    while i < n
        invariant
            n == ctx.entries@.len(),
            i <= n,
        decreases n - i,
    {
        let jv = to_json(&ctx.entries[i].1);
        ctx_insert(&mut out, ctx.entries[i].0.as_str(), &jv);
        i += 1;
    }
    out
}

/// Relies on tera::Tera::render: renders a named template under a context;
/// the engine's error is carried as its debug text.
#[verifier::external_body]
fn tera_render(t: &tera::Tera, name: &str, ctx: &tera::Context) -> Result<String, String> {
    t.render(name, ctx).map_err(|e| format!("{:?}", e))
}

/// Renders the named template under the given context; an engine failure
/// becomes a library error.
pub fn render_template(t: &tera::Tera, name: &str, ctx: &TemplateContext) -> Result<
    String,
    Error,
> {
    let c = build_context(ctx);
    match tera_render(t, name, &c) {
        Ok(s) => Ok(s),
        Err(msg) => Err(Error(msg)),
    }
}

} // verus!
