use celtchar::assets::{fonts_dir, template_dir};
use celtchar::error::{Error, Raise};
use celtchar::numerals::{roman_filter, u64_to_dec};
use celtchar::writer::{TemplateContext, TemplateValue};

#[test]
fn decimal_rendering() {
    assert_eq!(u64_to_dec(0), "0");
    assert_eq!(u64_to_dec(7), "7");
    assert_eq!(u64_to_dec(10), "10");
    assert_eq!(u64_to_dec(1234567890), "1234567890");
}

#[test]
fn roman_numerals() {
    assert_eq!(roman_filter(1).unwrap(), "I");
    assert_eq!(roman_filter(4).unwrap(), "IV");
    assert_eq!(roman_filter(14).unwrap(), "XIV");
    assert_eq!(roman_filter(1984).unwrap(), "MCMLXXXIV");
    assert_eq!(roman_filter(3999).unwrap(), "MMMCMXCIX");
}

#[test]
fn roman_rejects_non_positive_and_oversized() {
    assert!(roman_filter(0).is_err());
    assert!(roman_filter(-7).is_err());
    assert!(roman_filter(4000).is_err());
    assert!(roman_filter(i64::MAX).is_err());
}

#[test]
fn asset_directories() {
    assert_eq!(template_dir("/opt/celt").unwrap(), "/opt/celt/templates/**/*");
    assert_eq!(fonts_dir("/opt/celt").unwrap(), "/opt/celt/fonts");
}

#[test]
fn or_raise_on_option() {
    let some: Option<u32> = Some(5);
    assert_eq!(some.or_raise("gone").unwrap(), 5);
    let none: Option<u32> = None;
    let Error(msg) = none.or_raise("gone").unwrap_err();
    assert_eq!(msg, "gone");
}

#[test]
fn or_raise_on_result() {
    let ok: Result<u32, &str> = Ok(5);
    assert_eq!(ok.or_raise("bad").unwrap(), 5);
    let err: Result<u32, &str> = Err("inner");
    let Error(msg) = err.or_raise("bad").unwrap_err();
    assert_eq!(msg, "bad");
}

#[test]
fn template_context_keeps_insertion_order() {
    let mut ctx = TemplateContext::new();
    ctx.insert("one", TemplateValue::UInt(1));
    ctx.insert("two", TemplateValue::Str(String::from("2")));
    ctx.insert(
        "three",
        TemplateValue::Obj(vec![(String::from("x"), TemplateValue::Bool(true))]),
    );
    let copy = ctx.duplicate();
    assert_eq!(ctx, copy);
    assert_eq!(copy.entries[0].0, "one");
    assert_eq!(copy.entries[2].0, "three");
}
