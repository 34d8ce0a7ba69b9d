use i18n::emit::generate_code;
use i18n::generator::{generate, Config, GenError};
use i18n::model::{Local, MismatchError, RawValue};

fn text(k: &str, v: &str) -> (String, RawValue) {
    (k.to_string(), RawValue::Text(v.to_string()))
}

fn table(k: &str, es: Vec<(String, RawValue)>) -> (String, RawValue) {
    (k.to_string(), RawValue::Table(es))
}

fn locale(key: &str, es: Vec<(String, RawValue)>) -> Local {
    Local::load(&vec![table(key, es)]).unwrap()
}

fn en() -> Local {
    locale(
        "en-EN",
        vec![
            text("hello", "hello world!"),
            text("greet", "hello ${name:&str}!"),
            table("group", vec![text("count", "number ${a:u32} - ${b:u32}")]),
        ],
    )
}

fn ru() -> Local {
    locale(
        "ru-RU",
        vec![
            text("hello", "привет мир!"),
            text("greet", "привет ${name:&str}!"),
            table("group", vec![text("count", "число ${a:u32} - ${b:u32}")]),
        ],
    )
}

fn key(s: &str) -> String {
    s.to_string()
}

#[test]
fn switch_and_direct_accessors() {
    let code = generate(vec![ru(), en()], &key("en-EN"), &Config::default()).unwrap();
    // the default locale comes first: slot index 0 is English
    assert!(code.contains("pub static hello: AtomicFn<fn() -> defines::Str> = AtomicFn::new(&[en_en::hello, ru_ru::hello, ]);"));
    assert!(code.contains("pub fn set_ru_ru() {\n         \n            curr_lcl_fns::hello.store(1);"));
    assert!(code.contains("pub fn set_en_en() {\n         \n            curr_lcl_fns::hello.store(0);"));
    // the dispatch function reads the slot, the per-locale accessors do not
    assert!(code.contains("pub fn hello() -> defines::Str {\n            (curr_lcl_fns::hello.load())()\n         }"));
    assert!(code.contains("pub mod en_en {\n     use super::*;\n"));
    assert!(code.contains("pub fn hello() -> defines::Str {\n            defines::Str(\"hello world!\")\n         }"));
    assert!(code.contains("defines::Str(\"привет мир!\")"));
    let list = code.find("const LIST: [&str; NUMBER] = [\n               \"en-EN\",\n               \"ru-RU\",");
    assert!(list.is_some());
    assert!(code.contains("pub const NUMBER: usize = 2;"));
}

#[test]
fn greeting_formats_its_argument() {
    let code = generate(vec![en()], &key("en-EN"), &Config::default()).unwrap();
    assert!(code.contains(
        "pub fn greet(f: &mut std::fmt::Formatter, name: & str) -> std::fmt::Result {\n            write!(f, \"hello {}!\", name)\n         }"
    ));
    assert!(code.contains("pub fn greet(name: & str) -> defines::S1<'_> {"));
    assert!(code.contains("pub struct S1<'a> {\n            pub name: &'a str, "));
}

#[test]
fn two_numbers_share_one_structure() {
    let code = generate(vec![en(), ru()], &key("en-EN"), &Config::default()).unwrap();
    assert!(code.contains("write!(f, \"number {} - {}\", a, b)"));
    assert!(code.contains("write!(f, \"число {} - {}\", a, b)"));
    assert!(code.contains("pub struct S2 {\n            pub a: u32, pub b: u32, "));
    assert!(!code.contains("pub struct S3"));
    assert!(code.contains("(self.fmt_fn)(f, self.a, self.b)"));
}

#[test]
fn duplicate_locale_is_refused() {
    let r = generate(vec![en(), ru(), en()], &key("en-EN"), &Config::default());
    assert_eq!(Err(GenError::DuplicateLocale("en-EN".to_string())), r);
    // found before any check: the second locale lacks everything
    let r = generate(vec![en(), locale("xx", vec![]), locale("xx", vec![])], &key("en-EN"), &Config::default());
    assert_eq!(Err(GenError::DuplicateLocale("xx".to_string())), r);
}

#[test]
fn missing_group_is_refused() {
    let other = locale("ru-RU", vec![text("hello", "a"), text("greet", "b")]);
    let r = generate(vec![en(), other], &key("en-EN"), &Config::default());
    assert_eq!(
        Err(GenError::Mismatch(MismatchError::MissingGroup {
            local: "ru-RU".to_string(),
            path: vec!["group".to_string()],
        })),
        r
    );
}

#[test]
fn missing_default_is_refused() {
    assert_eq!(Err(GenError::NoDefault), generate(vec![en(), ru()], &key("de-DE"), &Config::default()));
    assert_eq!(Err(GenError::NoDefault), generate(vec![], &key("en-EN"), &Config::default()));
}

#[test]
fn unknown_key_switches_nothing() {
    let code = generate(vec![en(), ru()], &key("en-EN"), &Config::default()).unwrap();
    let set = code.find("pub fn set(key: &str) -> bool {").unwrap();
    let body = &code[set..];
    let end = body.find("_ => false,").unwrap();
    let arms = &body[..end];
    assert!(arms.contains("\"en-EN\" => {set_en_en(); true}"));
    assert!(arms.contains("\"ru-RU\" => {set_ru_ru(); true}"));
    assert!(!arms.contains(".store("));
}

#[test]
fn configuration_is_applied() {
    let config = Config {
        default_local_file: "en-EN".to_string(),
        dead_code_attr: false,
        imports: vec!["crate::DateFormatter".to_string()],
    };
    let code = generate_code(&vec![en()], &config);
    assert!(code.starts_with("#![allow(non_upper_case_globals)]\n"));
    assert!(code.contains("use crate::DateFormatter;\n"));
    let code = generate_code(&vec![en()], &Config::default());
    assert!(code.starts_with("#![allow(dead_code)]\n#![allow(non_upper_case_globals)]\n"));
    assert_eq!("en-EN", Config::default().default_local_file);
}

#[test]
fn output_is_deterministic() {
    let a = generate(vec![en(), ru()], &key("en-EN"), &Config::default()).unwrap();
    let b = generate(vec![en(), ru()], &key("en-EN"), &Config::default()).unwrap();
    assert_eq!(a, b);
}

#[test]
fn clashing_slot_names_are_refused() {
    let d = locale(
        "en-EN",
        vec![table("a", vec![text("b_c", "x")]), table("a_b", vec![text("c", "y")])],
    );
    assert_eq!(
        Err(GenError::NameClash("a_b_c".to_string())),
        generate(vec![d], &key("en-EN"), &Config::default())
    );
    let d = locale("en-EN", vec![text("Hello", "x"), text("hello", "y")]);
    assert_eq!(
        Err(GenError::NameClash("hello".to_string())),
        generate(vec![d], &key("en-EN"), &Config::default())
    );
}

#[test]
fn missing_group_is_named_not_its_leaves() {
    let d = locale("en-EN", vec![table("g", vec![table("h", vec![text("x", "1")])])]);
    let o = locale("ru-RU", vec![]);
    assert_eq!(
        Err(GenError::Mismatch(MismatchError::MissingGroup {
            local: "ru-RU".to_string(),
            path: vec!["g".to_string()],
        })),
        generate(vec![d, o], &key("en-EN"), &Config::default())
    );
}
