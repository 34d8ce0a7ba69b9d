use i18n::model::{Item, LoadError, Local, MismatchError, RawValue};

fn text(k: &str, v: &str) -> (String, RawValue) {
    (k.to_string(), RawValue::Text(v.to_string()))
}

fn table(k: &str, es: Vec<(String, RawValue)>) -> (String, RawValue) {
    (k.to_string(), RawValue::Table(es))
}

fn en() -> Local {
    Local::load(&vec![table(
        "en-EN",
        vec![
            text("hello", "hello world!"),
            text("greet", "hello ${name:&str}!"),
            text("count", "number ${val:u32}!"),
            table(
                "group_1",
                vec![
                    text("hello", "hello world from group!"),
                    text("greet", "hello ${name:&str} from group!"),
                    text("count", "number ${val1:u32} - ${val2:u32} from group!"),
                ],
            ),
        ],
    )])
    .unwrap()
}

#[test]
fn load_builds_the_tree() {
    let local = en();
    assert_eq!("en-EN", local.root.key);
    let k = |s: &str| s.to_string();
    assert_eq!("hello world!", local.root.value(&k("hello")).unwrap().fmt_str);
    assert_eq!("hello {}!", local.root.value(&k("greet")).unwrap().fmt_str);
    assert_eq!("number {}!", local.root.value(&k("count")).unwrap().fmt_str);
    let group = local.root.group(&k("group_1")).unwrap();
    assert_eq!("group_1", group.key);
    assert_eq!("hello world from group!", group.value(&k("hello")).unwrap().fmt_str);
    assert_eq!("hello {} from group!", group.value(&k("greet")).unwrap().fmt_str);
    assert_eq!("number {} - {} from group!", group.value(&k("count")).unwrap().fmt_str);
    assert!(local.root.value(&k("missing")).is_none());
    assert!(local.root.group(&k("hello")).is_none());
    assert_eq!(Some(0), local.root.group_index(&k("group_1")));
}

#[test]
fn load_rejects_bad_trees() {
    assert_eq!(LoadError::TopLevel, Local::load(&vec![]).unwrap_err());
    assert_eq!(
        LoadError::TopLevel,
        Local::load(&vec![table("a", vec![]), table("b", vec![])]).unwrap_err()
    );
    assert_eq!(
        LoadError::UnexpectedValue("en-EN".to_string()),
        Local::load(&vec![text("en-EN", "x")]).unwrap_err()
    );
    assert_eq!(
        LoadError::UnexpectedValue("n".to_string()),
        Local::load(&vec![table("en-EN", vec![("n".to_string(), RawValue::Other)])]).unwrap_err()
    );
    assert_eq!(
        LoadError::DuplicateName("a".to_string()),
        Local::load(&vec![table("en-EN", vec![text("a", "x"), table("a", vec![])])]).unwrap_err()
    );
    assert_eq!(
        LoadError::Parse("bad".to_string()),
        Local::load(&vec![table("en-EN", vec![table("g", vec![text("bad", "oops ${x")])])]).unwrap_err()
    );
}

#[test]
fn matching_allows_extra_entries() {
    let default = en();
    let other = Local::load(&vec![table(
        "ru1",
        vec![
            text("hello", "привет мир!"),
            text("greet", "привет ${name}!"),
            text("count", "число ${val:u32}!"),
            text("extra", "лишний"),
            table(
                "group_1",
                vec![
                    text("hello", "a"),
                    text("greet", "b"),
                    text("count", "c"),
                    table("more", vec![]),
                ],
            ),
        ],
    )])
    .unwrap();
    assert_eq!(Ok(()), default.check_matching(&other));
    assert!(other.check_matching(&default).is_err());
}

#[test]
fn matching_names_missing_key() {
    let default = en();
    let other = Local::load(&vec![table(
        "ru2",
        vec![
            text("hello", "a"),
            text("greet", "b"),
            text("count", "c"),
            table("group_1", vec![text("hello", "a"), text("count", "c")]),
        ],
    )])
    .unwrap();
    assert_eq!(
        Err(MismatchError::MissingKey {
            local: "ru2".to_string(),
            path: vec!["group_1".to_string()],
            key: "greet".to_string(),
        }),
        default.check_matching(&other)
    );
    let other = Local::load(&vec![table("ru3", vec![text("greet", "b")])]).unwrap();
    assert_eq!(
        Err(MismatchError::MissingKey { local: "ru3".to_string(), path: vec![], key: "hello".to_string() }),
        default.check_matching(&other)
    );
}

#[test]
fn matching_names_missing_group() {
    let default = en();
    let other = Local::load(&vec![table(
        "ru4",
        vec![text("hello", "a"), text("greet", "b"), text("count", "c")],
    )])
    .unwrap();
    assert_eq!(
        Err(MismatchError::MissingGroup { local: "ru4".to_string(), path: vec!["group_1".to_string()] }),
        default.check_matching(&other)
    );
}

#[test]
fn matching_goes_deeper_than_one_level() {
    let d = Local::load(&vec![table("d", vec![table("g", vec![table("h", vec![text("x", "1")])])])]).unwrap();
    let o = Local::load(&vec![table("o", vec![table("g", vec![table("h", vec![])])])]).unwrap();
    assert_eq!(
        Err(MismatchError::MissingKey {
            local: "o".to_string(),
            path: vec!["g".to_string(), "h".to_string()],
            key: "x".to_string(),
        }),
        d.check_matching(&o)
    );
    let empty = Item { key: "e".to_string(), values: vec![], groups: vec![] };
    assert_eq!(Ok(()), Local { root: empty }.check_matching(&o));
}

#[test]
fn load_keeps_entry_order() {
    let local = Local::load(&vec![table("x", vec![text("b", "2"), table("g", vec![]), text("a", "1")])]).unwrap();
    assert_eq!("b", local.root.values[0].0);
    assert_eq!("a", local.root.values[1].0);
    assert_eq!("g", local.root.groups[0].key);
    assert!(local.root.groups[0].values.is_empty());
}
