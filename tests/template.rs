use i18n::template::{ItemArg, ItemValue, ParseError};

#[test]
fn test_parse_value() {
    let v = ItemValue::parse("hello world!").unwrap();
    assert_eq!("hello world!", v.fmt_str);
    assert!(v.args.is_empty());

    let v = ItemValue::parse("hello ${name:&str}!").unwrap();
    assert_eq!("hello {}!", v.fmt_str);
    assert_eq!(ItemArg { typ: "&str".to_string(), name: "name".to_string() }, v.args[0]);

    let v = ItemValue::parse("number ${val1:u32} - ${val2:u32}!").unwrap();
    assert_eq!("number {} - {}!", v.fmt_str);
    assert_eq!(ItemArg { typ: "u32".to_string(), name: "val1".to_string() }, v.args[0]);
    assert_eq!(ItemArg { typ: "u32".to_string(), name: "val2".to_string() }, v.args[1]);
}

#[test]
fn parse_text_without_placeholder_is_unchanged() {
    for s in ["", "plain", "braces {} and: colons", "привет мир!"] {
        let v = ItemValue::parse(s).unwrap();
        assert_eq!(s, v.fmt_str);
        assert!(v.args.is_empty());
    }
}

#[test]
fn parse_counts_placeholders_in_order() {
    let v = ItemValue::parse("a ${x} b ${y:u8} c ${z:&str}").unwrap();
    assert_eq!("a {} b {} c {}", v.fmt_str);
    assert_eq!(3, v.args.len());
    assert_eq!(ItemArg { typ: "&str".to_string(), name: "x".to_string() }, v.args[0]);
    assert_eq!(ItemArg { typ: "u8".to_string(), name: "y".to_string() }, v.args[1]);
    assert_eq!(ItemArg { typ: "&str".to_string(), name: "z".to_string() }, v.args[2]);
}

#[test]
fn parse_keeps_path_in_type() {
    let v = ItemValue::parse("date-time ${dt:&crate::DateFormatter}!").unwrap();
    assert_eq!("date-time {}!", v.fmt_str);
    assert_eq!(
        ItemArg { typ: "&crate::DateFormatter".to_string(), name: "dt".to_string() },
        v.args[0]
    );
}

#[test]
fn parse_rejects_unterminated_placeholder() {
    assert_eq!(ParseError::Unterminated, ItemValue::parse("hello ${name").unwrap_err());
    assert_eq!(ParseError::Unterminated, ItemValue::parse("$").unwrap_err());
}

#[test]
fn has_ref_follows_first_character_of_type() {
    assert!(ItemArg { typ: "&str".to_string(), name: "a".to_string() }.has_ref());
    assert!(!ItemArg { typ: "u32".to_string(), name: "a".to_string() }.has_ref());
    assert!(!ItemArg { typ: "".to_string(), name: "a".to_string() }.has_ref());
    assert!(ItemValue::parse("${a:u32} ${b}").unwrap().has_ref());
    assert!(!ItemValue::parse("${a:u32} ${b:i64}").unwrap().has_ref());
    assert!(!ItemValue::parse("no args").unwrap().has_ref());
}

#[test]
fn two_numbers_render_exactly() {
    let v = ItemValue::parse("number ${a:u32} - ${b:u32}").unwrap();
    assert_eq!("number {} - {}", v.fmt_str);
    assert_eq!(vec!["a", "b"], v.args.iter().map(|a| a.name.as_str()).collect::<Vec<_>>());
    // fill the markers in order, as the generated formatting function does
    let mut out = String::new();
    let mut vals = [42u32, 52u32].iter();
    let mut rest = v.fmt_str.as_str();
    while let Some(p) = rest.find("{}") {
        out.push_str(&rest[..p]);
        out.push_str(&vals.next().unwrap().to_string());
        rest = &rest[p + 2..];
    }
    out.push_str(rest);
    assert!(vals.next().is_none());
    assert_eq!("number 42 - 52", out);
}
