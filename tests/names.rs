use i18n::names::{
    create_fn_name, create_mod_name, decimal, join_tree_path, same_args, seq_arg_names, seq_arg_types, seq_args,
    seq_struct_members, StructNames,
};
use i18n::template::ItemArg;

fn arg(name: &str, typ: &str) -> ItemArg {
    ItemArg { typ: typ.to_string(), name: name.to_string() }
}

#[test]
fn module_and_function_names() {
    assert_eq!("en_en", create_mod_name("en-EN"));
    assert_eq!("ru_ru", create_mod_name("ru-RU"));
    assert_eq!("group_1", create_mod_name("Group 1"));
    assert_eq!("hello_world", create_fn_name("Hello World"));
    assert_eq!("a_b_c", create_fn_name("A-b c"));
}

#[test]
fn argument_lists() {
    let args = vec![arg("val1", "u32"), arg("name", "&str")];
    assert_eq!("val1, name", seq_arg_names("", &args));
    assert_eq!("self.val1, self.name", seq_arg_names("self.", &args));
    assert_eq!("u32, &str", seq_arg_types(&args));
    assert_eq!("val1: u32, name: &'a str", seq_args("'a", &args));
    assert_eq!("val1: u32, name: & str", seq_args("", &args));
    assert_eq!("pub val1: u32, pub name: &'a str, ", seq_struct_members(&args));
    assert_eq!("", seq_arg_names("", &vec![]));
    assert_eq!("", seq_struct_members(&vec![]));
}

#[test]
fn tree_paths() {
    let p = vec!["en_en".to_string(), "group".to_string()];
    assert_eq!("en_en::group::", join_tree_path(&p, "::"));
    assert_eq!("en_en_group_", join_tree_path(&p, "_"));
    assert_eq!("", join_tree_path(&vec![], "::"));
}

#[test]
fn decimal_text() {
    assert_eq!("0", decimal(0));
    assert_eq!("7", decimal(7));
    assert_eq!("10", decimal(10));
    assert_eq!("1234", decimal(1234));
    assert_eq!(usize::MAX.to_string(), decimal(usize::MAX));
}

#[test]
fn same_signature_shares_a_name() {
    let mut names = StructNames::new();
    let a = vec![arg("a", "u32"), arg("b", "u32")];
    let a2 = vec![arg("a", "u32"), arg("b", "u32")];
    let other_type = vec![arg("a", "u32"), arg("b", "u64")];
    let other_name = vec![arg("a", "u32"), arg("c", "u32")];
    assert_eq!((true, "S1".to_string()), names.get_or_add(&a));
    assert_eq!((false, "S1".to_string()), names.get_or_add(&a2));
    assert_eq!((true, "S2".to_string()), names.get_or_add(&other_type));
    assert_eq!((true, "S3".to_string()), names.get_or_add(&other_name));
    assert_eq!((false, "S2".to_string()), names.get_or_add(&other_type));
    assert_eq!(3, names.len());
    assert_eq!(Some(1), names.find(&other_type));
    assert_eq!("S3", names.name_at(2));
}

#[test]
fn split_of_names_does_not_collide() {
    let mut names = StructNames::new();
    let x = vec![arg("ab", "c")];
    let y = vec![arg("a", "bc")];
    assert!(!same_args(&x, &y));
    assert_eq!((true, "S1".to_string()), names.get_or_add(&x));
    assert_eq!((true, "S2".to_string()), names.get_or_add(&y));
}
