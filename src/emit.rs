use vstd::prelude::*;
use vstd::string::*;
use crate::model::{Item, NodeModel, path_model};
use crate::names::{StructNames, lemma_concat_step, members_text, seq_struct_members, arg_names_text, arg_types_text, concat_with, create_fn_name, create_mod_name, dec, decimal, ident_of, join_tree_path, params_text, seq_arg_names, seq_arg_types, seq_args, sig_index, struct_name};
use crate::template::{ArgModel, ItemArg, ItemValue, args_model, LeafModel, any_ref, args_have_ref};
use crate::model::Local;
use crate::generator::Config;

verus! {

/// A path of module names.
pub type Path = Seq<Seq<char>>;

/// What is written for one leaf, given its group path, its key and its value.
pub type LeafFmt = spec_fn(Path, Seq<char>, LeafModel) -> Seq<char>;

/// What is written before or after a group, given its path.
pub type GroupFmt = spec_fn(Path) -> Seq<char>;

pub open spec fn leaves_walk(vals: Seq<(Seq<char>, LeafModel)>, path: Path, leaf: LeafFmt) -> Seq<char>
    decreases vals.len(),
{
    if vals.len() == 0 {
        Seq::empty()
    } else {
        leaves_walk(vals.drop_last(), path, leaf) + leaf(path, vals.last().0, vals.last().1)
    }
}

/// The text written for a group tree: the opening text, each leaf, each
/// subgroup (its path extended by its module name), the closing text.
pub open spec fn walk(n: NodeModel, path: Path, leaf: LeafFmt, open: GroupFmt, close: GroupFmt) -> Seq<char>
    decreases n, n.groups.len() + 1,
{
    open(path) + leaves_walk(n.values, path, leaf) + groups_walk(n, n.groups.len(), path, leaf, open, close)
        + close(path)
}

/// The text written for the first `k` subgroups of `n`.
pub open spec fn groups_walk(n: NodeModel, k: nat, path: Path, leaf: LeafFmt, open: GroupFmt, close: GroupFmt) -> Seq<char>
    decreases n, k,
{
    if k == 0 || k > n.groups.len() {
        Seq::empty()
    } else {
        groups_walk(n, (k - 1) as nat, path, leaf, open, close) + walk(
            n.groups[k - 1],
            path.push(ident_of(n.groups[k - 1].key)),
            leaf,
            open,
            close,
        )
    }
}

proof fn lemma_leaves_step(it: Item, i: int, path: Path, leaf: LeafFmt)
    requires
        0 <= i < it.values.len(),
    ensures
        leaves_walk(it@.values.take(i + 1), path, leaf) == leaves_walk(it@.values.take(i), path, leaf) + leaf(
            path,
            it.values@[i].0@,
            it.values@[i].1@,
        ),
{
    assert(it@.values.take(i + 1).drop_last() =~= it@.values.take(i));
}

proof fn lemma_groups_step(it: Item, g: int, path: Path, leaf: LeafFmt, open: GroupFmt, close: GroupFmt)
    requires
        0 <= g < it.groups.len(),
    ensures
        groups_walk(it@, (g + 1) as nat, path, leaf, open, close) == groups_walk(it@, g as nat, path, leaf, open, close)
            + walk(it.groups@[g]@, path.push(ident_of(it.groups@[g].key@)), leaf, open, close),
{
    assert(it@.groups[g] == it.groups@[g]@);
}

proof fn lemma_path_push(p: Seq<String>, s: String)
    ensures
        path_model(p.push(s)) == path_model(p).push(s@),
{
    assert(path_model(p.push(s)) =~= path_model(p).push(s@));
}

// ---------------------------------------------------------------------------
// Formatting functions, one per leaf and locale, under `mod fmt`.

/// The formatting function of a leaf.
pub open spec fn fmt_fn_text(fn_name: Seq<char>, v: LeafModel) -> Seq<char> {
    if v.1.len() == 0 {
        "\n         pub fn "@ + fn_name + "(f: &mut std::fmt::Formatter) -> std::fmt::Result {\n            write!(f, \""@
            + v.0 + "\")\n         }"@
    } else {
        "\n         pub fn "@ + fn_name + "(f: &mut std::fmt::Formatter, "@ + params_text(Seq::empty(), v.1)
            + ") -> std::fmt::Result {\n            write!(f, \""@ + v.0 + "\", "@ + arg_names_text(Seq::empty(), v.1)
            + ")\n         }"@
    }
}

pub open spec fn fmt_leaf() -> LeafFmt {
    |p: Path, k: Seq<char>, v: LeafModel| fmt_fn_text(ident_of(k), v)
}

pub open spec fn fmt_open() -> GroupFmt {
    |p: Path| "\npub mod "@ + p.last() + " {"@
}

pub open spec fn fmt_close() -> GroupFmt {
    |p: Path| "}\n"@
}

fn write_fmt_function(r: &mut String, fn_name: &str, item: &ItemValue)
    ensures
        final(r)@ == old(r)@ + fmt_fn_text(fn_name@, item@),
{
    if item.args.len() == 0 {
        r.append("\n         pub fn ");
        r.append(fn_name);
        r.append("(f: &mut std::fmt::Formatter) -> std::fmt::Result {\n            write!(f, \"");
        r.append(item.fmt_str.as_str());
        r.append("\")\n         }");
    } else {
        r.append("\n         pub fn ");
        r.append(fn_name);
        r.append("(f: &mut std::fmt::Formatter, ");
        r.append(seq_args("", &item.args).as_str());
        r.append(") -> std::fmt::Result {\n            write!(f, \"");
        r.append(item.fmt_str.as_str());
        r.append("\", ");
        r.append(seq_arg_names("", &item.args).as_str());
        r.append(")\n         }");
        proof {
            reveal_strlit("");
        }
        assert(""@ =~= Seq::<char>::empty());
    }
}

/// Writes the formatting functions of a locale's tree; `tree_path` leads to
/// `item`, starting with the locale's module name.
fn write_fmt_groups(r: &mut String, tree_path: &mut Vec<String>, item: &Item)
    requires
        old(tree_path)@.len() > 0,
    ensures
        final(r)@ == old(r)@ + walk(item@, path_model(old(tree_path)@), fmt_leaf(), fmt_open(), fmt_close()),
        final(tree_path)@ == old(tree_path)@,
    decreases item,
{
    let ghost path = path_model(tree_path@);
    r.append("\npub mod ");
    r.append(tree_path[tree_path.len() - 1].as_str());
    r.append(" {");
    assert(path.last() == tree_path@[tree_path.len() - 1]@);
    let ghost r1 = r@;
    let mut i: usize = 0;
    while i < item.values.len()
        invariant
            0 <= i <= item.values.len(),
            tree_path@ == old(tree_path)@,
            path == path_model(tree_path@),
            r@ == r1 + leaves_walk(item@.values.take(i as int), path, fmt_leaf()),
        decreases item.values.len() - i,
    {
        proof {
            lemma_leaves_step(*item, i as int, path, fmt_leaf());
        }
        let fn_name = create_fn_name(item.values[i].0.as_str());
        write_fmt_function(r, fn_name.as_str(), &item.values[i].1);
        i = i + 1;
    }
    assert(item@.values.take(item.values.len() as int) =~= item@.values);
    let ghost r2 = r@;
    let mut g: usize = 0;
    while g < item.groups.len()
        invariant
            0 <= g <= item.groups.len(),
            tree_path@ == old(tree_path)@,
            path == path_model(tree_path@),
            path.len() > 0,
            r@ == r2 + groups_walk(item@, g as nat, path, fmt_leaf(), fmt_open(), fmt_close()),
        decreases item.groups.len() - g,
    {
        proof {
            lemma_groups_step(*item, g as int, path, fmt_leaf(), fmt_open(), fmt_close());
        }
        let m = create_mod_name(item.groups[g].key.as_str());
        proof {
            lemma_path_push(tree_path@, m);
        }
        tree_path.push(m);
        write_fmt_groups(r, tree_path, &item.groups[g]);
        tree_path.pop();
        g = g + 1;
    }
    r.append("}\n");
}


// ---------------------------------------------------------------------------
// Result types.

/// Every non-empty signature of the tree is in the table.
pub open spec fn sigs_in(n: NodeModel, table: Seq<Seq<ArgModel>>) -> bool
    decreases n,
{
    &&& forall|i: int|
        0 <= i < n.values.len() && (#[trigger] n.values[i]).1.1.len() > 0 ==> table.contains(n.values[i].1.1)
    &&& forall|i: int| 0 <= i < n.groups.len() ==> sigs_in(#[trigger] n.groups[i], table)
}

/// The result type of a leaf: the plain string type without arguments, else
/// the structure of its signature, with a lifetime when an argument is
/// borrowed.
pub open spec fn ret_text(table: Seq<Seq<ArgModel>>, args: Seq<ArgModel>) -> Seq<char> {
    if args.len() == 0 {
        "defines::Str"@
    } else if any_ref(args) {
        "defines::"@ + struct_name(sig_index(table, args) as nat) + "<'_>"@
    } else {
        "defines::"@ + struct_name(sig_index(table, args) as nat)
    }
}

/// The name of the structure of a non-empty signature.
fn struct_of(names: &StructNames, item: &ItemValue) -> (r: String)
    requires
        names@.contains(item@.1),
    ensures
        r@ == struct_name(sig_index(names@, item@.1) as nat),
{
    proof {
        crate::names::lemma_sig_index(names@, item@.1);
    }
    assert(item@.1 == crate::template::args_model(item.args@));
    match names.find(&item.args) {
        Some(i) => {
            assert(i as int == sig_index(names@, item@.1));
            names.name_at(i)
        },
        None => names.name_at(0),
    }
}

fn write_ret_type(r: &mut String, names: &StructNames, item: &ItemValue)
    requires
        item@.1.len() > 0 ==> names@.contains(item@.1),
    ensures
        final(r)@ == old(r)@ + ret_text(names@, item@.1),
{
    if item.args.len() == 0 {
        r.append("defines::Str");
    } else {
        r.append("defines::");
        r.append(struct_of(names, item).as_str());
        if item.has_ref() {
            r.append("<'_>");
        }
    }
}

fn leaf_prefix(tree_path: &Vec<String>, sep: &str, fn_name: &String) -> (r: String)
    ensures
        r@ == concat_with(path_model(tree_path@), sep@) + fn_name@,
{
    let mut r = join_tree_path(tree_path, sep);
    r.append(fn_name.as_str());
    r
}

// ---------------------------------------------------------------------------
// Accessors of one locale, one module tree per locale.

/// The accessor of a leaf in a locale's module, with the locale's text.
pub open spec fn local_fn_text(path: Path, fn_name: Seq<char>, v: LeafModel, table: Seq<Seq<ArgModel>>) -> Seq<char> {
    if v.1.len() == 0 {
        "\n         /// Text: `\""@ + v.0 + "\"`\n         pub fn "@ + fn_name + "() -> defines::Str {\n            defines::Str(\""@
            + v.0 + "\")\n         }"@
    } else {
        "\n         /// Text: `\""@ + v.0 + "\"`\n         pub fn "@ + fn_name + "("@ + params_text(Seq::empty(), v.1)
            + ") -> "@ + ret_text(table, v.1) + " {\n            defines::"@ + struct_name(
            sig_index(table, v.1) as nat,
        ) + " {\n               "@ + arg_names_text(Seq::empty(), v.1) + ",\n               fmt_fn: fmt::"@
            + concat_with(path, "::"@) + fn_name + "\n            }\n         }"@
    }
}

pub open spec fn local_leaf(table: Seq<Seq<ArgModel>>) -> LeafFmt {
    |p: Path, k: Seq<char>, v: LeafModel| local_fn_text(p, ident_of(k), v, table)
}

pub open spec fn mod_open() -> GroupFmt {
    |p: Path| "\npub mod "@ + p.last() + " {\n     use super::*;\n"@
}

fn write_local_function(r: &mut String, tree_path: &Vec<String>, names: &StructNames, fn_name: &String, item: &ItemValue)
    requires
        item@.1.len() > 0 ==> names@.contains(item@.1),
    ensures
        final(r)@ == old(r)@ + local_fn_text(path_model(tree_path@), fn_name@, item@, names@),
{
    if item.args.len() == 0 {
        r.append("\n         /// Text: `\"");
        r.append(item.fmt_str.as_str());
        r.append("\"`\n         pub fn ");
        r.append(fn_name.as_str());
        r.append("() -> defines::Str {\n            defines::Str(\"");
        r.append(item.fmt_str.as_str());
        r.append("\")\n         }");
    } else {
        r.append("\n         /// Text: `\"");
        r.append(item.fmt_str.as_str());
        r.append("\"`\n         pub fn ");
        r.append(fn_name.as_str());
        r.append("(");
        r.append(seq_args("", &item.args).as_str());
        r.append(") -> ");
        write_ret_type(r, names, item);
        r.append(" {\n            defines::");
        r.append(struct_of(names, item).as_str());
        r.append(" {\n               ");
        r.append(seq_arg_names("", &item.args).as_str());
        r.append(",\n               fmt_fn: fmt::");
        r.append(leaf_prefix(tree_path, "::", fn_name).as_str());
        r.append("\n            }\n         }");
        proof {
            reveal_strlit("");
        }
        assert(""@ =~= Seq::<char>::empty());
    }
}

/// Writes the accessors of a locale's tree; `tree_path` leads to `item`,
/// starting with the locale's module name.
fn write_local_groups(r: &mut String, tree_path: &mut Vec<String>, names: &StructNames, item: &Item)
    requires
        old(tree_path)@.len() > 0,
        sigs_in(item@, names@),
    ensures
        final(r)@ == old(r)@ + walk(item@, path_model(old(tree_path)@), local_leaf(names@), mod_open(), fmt_close()),
        final(tree_path)@ == old(tree_path)@,
    decreases item,
{
    let ghost path = path_model(tree_path@);
    r.append("\npub mod ");
    r.append(tree_path[tree_path.len() - 1].as_str());
    r.append(" {\n     use super::*;\n");
    assert(path.last() == tree_path@[tree_path.len() - 1]@);
    let ghost r1 = r@;
    let mut i: usize = 0;
    while i < item.values.len()
        invariant
            0 <= i <= item.values.len(),
            tree_path@ == old(tree_path)@,
            path == path_model(tree_path@),
            sigs_in(item@, names@),
            r@ == r1 + leaves_walk(item@.values.take(i as int), path, local_leaf(names@)),
        decreases item.values.len() - i,
    {
        proof {
            lemma_leaves_step(*item, i as int, path, local_leaf(names@));
        }
        assert(item@.values[i as int].1 == item.values@[i as int].1@);
        let fn_name = create_fn_name(item.values[i].0.as_str());
        write_local_function(r, tree_path, names, &fn_name, &item.values[i].1);
        i = i + 1;
    }
    assert(item@.values.take(item.values.len() as int) =~= item@.values);
    let ghost r2 = r@;
    let mut g: usize = 0;
    while g < item.groups.len()
        invariant
            0 <= g <= item.groups.len(),
            tree_path@ == old(tree_path)@,
            path == path_model(tree_path@),
            path.len() > 0,
            sigs_in(item@, names@),
            r@ == r2 + groups_walk(item@, g as nat, path, local_leaf(names@), mod_open(), fmt_close()),
        decreases item.groups.len() - g,
    {
        proof {
            lemma_groups_step(*item, g as int, path, local_leaf(names@), mod_open(), fmt_close());
        }
        assert(item@.groups[g as int] == item.groups@[g as int]@);
        let m = create_mod_name(item.groups[g].key.as_str());
        proof {
            lemma_path_push(tree_path@, m);
        }
        tree_path.push(m);
        write_local_groups(r, tree_path, names, &item.groups[g]);
        tree_path.pop();
        g = g + 1;
    }
    r.append("}\n");
}


pub open spec fn no_text() -> GroupFmt {
    |p: Path| Seq::<char>::empty()
}

// ---------------------------------------------------------------------------
// Dispatch functions that call the current locale's implementation.

/// The dispatch function of a leaf: it calls what the leaf's slot holds now.
pub open spec fn global_fn_text(path: Path, fn_name: Seq<char>, v: LeafModel, table: Seq<Seq<ArgModel>>) -> Seq<char> {
    if v.1.len() == 0 {
        "\n         /// Text: `\""@ + v.0 + "\"`\n         pub fn "@ + fn_name + "() -> defines::Str {\n            (curr_lcl_fns::"@
            + concat_with(path, "_"@) + fn_name + ".load())()\n         }"@
    } else {
        "\n         /// Text: `\""@ + v.0 + "\"`\n         pub fn "@ + fn_name + "("@ + params_text(Seq::empty(), v.1)
            + ") -> "@ + ret_text(table, v.1) + " {\n            (curr_lcl_fns::"@ + concat_with(path, "_"@) + fn_name
            + ".load())("@ + arg_names_text(Seq::empty(), v.1) + ")\n         }"@
    }
}

pub open spec fn global_leaf(table: Seq<Seq<ArgModel>>) -> LeafFmt {
    |p: Path, k: Seq<char>, v: LeafModel| global_fn_text(p, ident_of(k), v, table)
}

/// Below the top level, each group is a module.
pub open spec fn global_open() -> GroupFmt {
    |p: Path| if p.len() == 0 { Seq::<char>::empty() } else { "\npub mod "@ + p.last() + " {\n     use super::*;\n"@ }
}

pub open spec fn global_close() -> GroupFmt {
    |p: Path| if p.len() == 0 { Seq::<char>::empty() } else { "}\n"@ }
}

fn write_global_function(r: &mut String, tree_path: &Vec<String>, names: &StructNames, fn_name: &String, item: &ItemValue)
    requires
        item@.1.len() > 0 ==> names@.contains(item@.1),
    ensures
        final(r)@ == old(r)@ + global_fn_text(path_model(tree_path@), fn_name@, item@, names@),
{
    let head = text_head(item, fn_name);
    r.append(head.as_str());
    if item.args.len() == 0 {
        r.append("() -> defines::Str {\n            (curr_lcl_fns::");
        r.append(leaf_prefix(tree_path, "_", fn_name).as_str());
        r.append(".load())()\n         }");
    } else {
        let ghost r0 = r@;
        r.append("(");
        r.append(seq_args("", &item.args).as_str());
        r.append(") -> ");
        write_ret_type(r, names, item);
        let ghost r1 = r@;
        r.append(" {\n            (curr_lcl_fns::");
        r.append(leaf_prefix(tree_path, "_", fn_name).as_str());
        r.append(".load())(");
        r.append(seq_arg_names("", &item.args).as_str());
        r.append(")\n         }");
        proof {
            reveal_strlit("");
        }
        assert(""@ =~= Seq::<char>::empty());
        assert(r1 == r0 + "("@ + params_text(Seq::empty(), item@.1) + ") -> "@ + ret_text(names@, item@.1));
    }
}

/// The start of an accessor: its doc comment with the text, and its name.
fn text_head(item: &ItemValue, fn_name: &String) -> (r: String)
    ensures
        r@ == "\n         /// Text: `\""@ + item@.0 + "\"`\n         pub fn "@ + fn_name@,
{
    let mut r = String::from_str("\n         /// Text: `\"");
    r.append(item.fmt_str.as_str());
    r.append("\"`\n         pub fn ");
    r.append(fn_name.as_str());
    r
}

// ---------------------------------------------------------------------------
// Slots of the locale switch, one per leaf of the default locale.

/// The implementations of a leaf in each locale, in the order of the locales.
pub open spec fn impls_text(mods: Path, path: Path, fn_name: Seq<char>) -> Seq<char> {
    concat_with(mods.map_values(|m: Seq<char>| m + "::"@ + concat_with(path, "::"@) + fn_name), ", "@)
}

/// The slot of a leaf: a switchable function with one implementation per
/// locale, the first one current.
pub open spec fn static_text(path: Path, fn_name: Seq<char>, v: LeafModel, table: Seq<Seq<ArgModel>>, mods: Path) -> Seq<char> {
    "\n            pub static "@ + concat_with(path, "_"@) + fn_name + ": AtomicFn<fn("@ + arg_types_text(v.1) + ") -> "@
        + ret_text(table, v.1) + "> = AtomicFn::new(&["@ + impls_text(mods, path, fn_name) + "]);"@
}

pub open spec fn static_leaf(table: Seq<Seq<ArgModel>>, mods: Path) -> LeafFmt {
    |p: Path, k: Seq<char>, v: LeafModel| static_text(p, ident_of(k), v, table, mods)
}

fn write_impls(r: &mut String, tree_path: &Vec<String>, mods: &Vec<String>, fn_name: &String)
    ensures
        final(r)@ == old(r)@ + impls_text(path_model(mods@), path_model(tree_path@), fn_name@),
{
    let lp = leaf_prefix(tree_path, "::", fn_name);
    let ghost parts = path_model(mods@).map_values(
        |m: Seq<char>| m + "::"@ + concat_with(path_model(tree_path@), "::"@) + fn_name@,
    );
    let ghost r0 = r@;
    let mut i: usize = 0;
    while i < mods.len()
        invariant
            0 <= i <= mods.len(),
            parts == path_model(mods@).map_values(
                |m: Seq<char>| m + "::"@ + concat_with(path_model(tree_path@), "::"@) + fn_name@,
            ),
            lp@ == concat_with(path_model(tree_path@), "::"@) + fn_name@,
            r@ == r0 + concat_with(parts.take(i as int), ", "@),
        decreases mods.len() - i,
    {
        proof {
            lemma_concat_step(parts, ", "@, i as int);
        }
        r.append(mods[i].as_str());
        r.append("::");
        r.append(lp.as_str());
        r.append(", ");
        assert(parts[i as int] == mods@[i as int]@ + "::"@ + lp@);
        i = i + 1;
    }
    assert(parts.take(mods.len() as int) =~= parts);
}

fn write_local_static_fn(r: &mut String, tree_path: &Vec<String>, names: &StructNames, mods: &Vec<String>, fn_name: &String, item: &ItemValue)
    requires
        item@.1.len() > 0 ==> names@.contains(item@.1),
    ensures
        final(r)@ == old(r)@ + static_text(path_model(tree_path@), fn_name@, item@, names@, path_model(mods@)),
{
    r.append("\n            pub static ");
    r.append(leaf_prefix(tree_path, "_", fn_name).as_str());
    r.append(": AtomicFn<fn(");
    r.append(seq_arg_types(&item.args).as_str());
    r.append(") -> ");
    write_ret_type(r, names, item);
    r.append("> = AtomicFn::new(&[");
    write_impls(r, tree_path, mods, fn_name);
    r.append("]);");
}

/// The slot names of the leaves of one group, in order: the group path
/// joined with `_`, then the leaf's function name.
pub open spec fn slot_leaves(vals: Seq<(Seq<char>, LeafModel)>, path: Path) -> Seq<Seq<char>>
    decreases vals.len(),
{
    if vals.len() == 0 {
        Seq::empty()
    } else {
        slot_leaves(vals.drop_last(), path).push(concat_with(path, "_"@) + ident_of(vals.last().0))
    }
}

/// The slot names of a tree in the order of the walk. The same names are
/// used for the fields of `Local` and their initialisers.
pub open spec fn slots(n: NodeModel, path: Path) -> Seq<Seq<char>>
    decreases n, n.groups.len() + 1,
{
    slot_leaves(n.values, path) + slot_groups(n, n.groups.len(), path)
}

pub open spec fn slot_groups(n: NodeModel, k: nat, path: Path) -> Seq<Seq<char>>
    decreases n, k,
{
    if k == 0 || k > n.groups.len() {
        Seq::empty()
    } else {
        slot_groups(n, (k - 1) as nat, path) + slots(n.groups[k - 1], path.push(ident_of(n.groups[k - 1].key)))
    }
}

/// Appends the slot names of the tree below `tree_path`.
fn collect_slots(out: &mut Vec<String>, tree_path: &mut Vec<String>, item: &Item)
    ensures
        path_model(final(out)@) == path_model(old(out)@) + slots(item@, path_model(old(tree_path)@)),
        final(tree_path)@ == old(tree_path)@,
    decreases item,
{
    let ghost path = path_model(tree_path@);
    let ghost o0 = path_model(out@);
    let mut i: usize = 0;
    while i < item.values.len()
        invariant
            0 <= i <= item.values.len(),
            tree_path@ == old(tree_path)@,
            path == path_model(tree_path@),
            path_model(out@) == o0 + slot_leaves(item@.values.take(i as int), path),
        decreases item.values.len() - i,
    {
        assert(item@.values.take(i + 1).drop_last() =~= item@.values.take(i as int));
        assert(item@.values[i as int].0 == item.values@[i as int].0@);
        let fn_name = create_fn_name(item.values[i].0.as_str());
        let slot = leaf_prefix(tree_path, "_", &fn_name);
        let ghost before = out@;
        out.push(slot);
        assert(path_model(out@) =~= path_model(before).push(slot@));
        i = i + 1;
    }
    assert(item@.values.take(item.values.len() as int) =~= item@.values);
    let ghost o1 = path_model(out@);
    let mut g: usize = 0;
    while g < item.groups.len()
        invariant
            0 <= g <= item.groups.len(),
            tree_path@ == old(tree_path)@,
            path == path_model(tree_path@),
            path_model(out@) == o1 + slot_groups(item@, g as nat, path),
        decreases item.groups.len() - g,
    {
        assert(item@.groups[g as int] == item.groups@[g as int]@);
        let m = create_mod_name(item.groups[g].key.as_str());
        proof {
            lemma_path_push(tree_path@, m);
        }
        tree_path.push(m);
        collect_slots(out, tree_path, &item.groups[g]);
        tree_path.pop();
        g = g + 1;
    }
}

/// No two entries of `s` are equal.
pub open spec fn all_distinct(s: Seq<Seq<char>>) -> bool {
    forall|i: int, j: int| 0 <= i < j < s.len() ==> s[i] != s[j]
}

/// The slot names of the default tree `d`, and the first one that is taken
/// twice, if any.
pub(crate) fn clashing_slot(default: &Item) -> (r: Option<String>)
    ensures
        r is None <==> all_distinct(slots(default@, Seq::empty())),
        r matches Some(k) ==> exists|i: int, j: int|
            0 <= i < j < slots(default@, Seq::empty()).len() && slots(default@, Seq::empty())[i] == k@
                && slots(default@, Seq::empty())[j] == k@,
{
    let mut names: Vec<String> = Vec::new();
    let mut tree_path: Vec<String> = Vec::new();
    assert(path_model(tree_path@) =~= Seq::<Seq<char>>::empty());
    assert(path_model(names@) =~= Seq::<Seq<char>>::empty());
    collect_slots(&mut names, &mut tree_path, default);
    let ghost s = slots(default@, Seq::empty());
    assert(path_model(names@) =~= s);
    assert(names@.len() == s.len());
    let mut j: usize = 1;
    while j < names.len()
        invariant
            1 <= j,
            s == slots(default@, Seq::empty()),
            names@.len() == s.len(),
            path_model(names@) == s,
            forall|a: int, b: int| 0 <= a < b < j && b < s.len() ==> s[a] != s[b],
        decreases names.len() - j,
    {
        let mut i: usize = 0;
        while i < j
            invariant
                0 <= i <= j < names.len(),
                s == slots(default@, Seq::empty()),
                names@.len() == s.len(),
                path_model(names@) == s,
                forall|a: int| 0 <= a < i ==> s[a] != s[j as int],
            decreases j - i,
        {
            assert(s[i as int] == names@[i as int]@ && s[j as int] == names@[j as int]@);
            if names[i] == names[j] {
                let k = names[j].clone();
                assert(s[i as int] == k@ && s[j as int] == k@);
                return Some(k);
            }
            i = i + 1;
        }
        j = j + 1;
    }
    None
}

// ---------------------------------------------------------------------------
// Switching every slot to one locale.

/// The store that points the slot of a leaf at the locale at `idx`.
pub open spec fn store_text(path: Path, fn_name: Seq<char>, idx: nat) -> Seq<char> {
    "\n            curr_lcl_fns::"@ + concat_with(path, "_"@) + fn_name + ".store("@ + dec(idx) + ");"@
}

pub open spec fn store_leaf(idx: nat) -> LeafFmt {
    |p: Path, k: Seq<char>, v: LeafModel| store_text(p, ident_of(k), idx)
}

fn write_store(r: &mut String, tree_path: &Vec<String>, idx: usize, fn_name: &String)
    ensures
        final(r)@ == old(r)@ + store_text(path_model(tree_path@), fn_name@, idx as nat),
{
    r.append("\n            curr_lcl_fns::");
    r.append(leaf_prefix(tree_path, "_", fn_name).as_str());
    r.append(".store(");
    r.append(decimal(idx).as_str());
    r.append(");");
}

// ---------------------------------------------------------------------------
// The `Local` structure: one function field per leaf.

/// The field of a leaf in the `Local` structure.
pub open spec fn member_fn_text(path: Path, fn_name: Seq<char>, v: LeafModel, table: Seq<Seq<ArgModel>>) -> Seq<char> {
    "\n            pub "@ + concat_with(path, "_"@) + fn_name + ": fn("@ + arg_types_text(v.1) + ") -> "@ + ret_text(table, v.1)
        + ","@
}

pub open spec fn member_leaf(table: Seq<Seq<ArgModel>>) -> LeafFmt {
    |p: Path, k: Seq<char>, v: LeafModel| member_fn_text(p, ident_of(k), v, table)
}

fn write_member(r: &mut String, tree_path: &Vec<String>, names: &StructNames, fn_name: &String, item: &ItemValue)
    requires
        item@.1.len() > 0 ==> names@.contains(item@.1),
    ensures
        final(r)@ == old(r)@ + member_fn_text(path_model(tree_path@), fn_name@, item@, names@),
{
    r.append("\n            pub ");
    r.append(leaf_prefix(tree_path, "_", fn_name).as_str());
    r.append(": fn(");
    r.append(seq_arg_types(&item.args).as_str());
    r.append(") -> ");
    write_ret_type(r, names, item);
    r.append(",");
}

/// The initialiser of a leaf's field with the implementation of locale `m`.
pub open spec fn init_text(path: Path, fn_name: Seq<char>, m: Seq<char>) -> Seq<char> {
    "\n            "@ + concat_with(path, "_"@) + fn_name + ": "@ + m + "::"@ + concat_with(path, "::"@) + fn_name + ","@
}

pub open spec fn init_leaf(m: Seq<char>) -> LeafFmt {
    |p: Path, k: Seq<char>, v: LeafModel| init_text(p, ident_of(k), m)
}

fn write_init(r: &mut String, tree_path: &Vec<String>, mod_name: &String, fn_name: &String)
    ensures
        final(r)@ == old(r)@ + init_text(path_model(tree_path@), fn_name@, mod_name@),
{
    r.append("\n            ");
    r.append(leaf_prefix(tree_path, "_", fn_name).as_str());
    r.append(": ");
    r.append(mod_name.as_str());
    r.append("::");
    r.append(leaf_prefix(tree_path, "::", fn_name).as_str());
    r.append(",");
}

fn write_global_groups(r: &mut String, tree_path: &mut Vec<String>, names: &StructNames, item: &Item)
    requires
        sigs_in(item@, names@),
    ensures
        final(r)@ == old(r)@ + walk(item@, path_model(old(tree_path)@), global_leaf(names@), global_open(), global_close()),
        final(tree_path)@ == old(tree_path)@,
    decreases item,
{
    let ghost path = path_model(tree_path@);
    if tree_path.len() > 0 {
        r.append("\npub mod ");
        r.append(tree_path[tree_path.len() - 1].as_str());
        r.append(" {\n     use super::*;\n");
        assert(path.last() == tree_path@[tree_path.len() - 1]@);
    }
    let ghost r1 = r@;
    let mut i: usize = 0;
    while i < item.values.len()
        invariant
            0 <= i <= item.values.len(),
            tree_path@ == old(tree_path)@,
            path == path_model(tree_path@),
            sigs_in(item@, names@),
            r@ == r1 + leaves_walk(item@.values.take(i as int), path, global_leaf(names@)),
        decreases item.values.len() - i,
    {
        proof {
            lemma_leaves_step(*item, i as int, path, global_leaf(names@));
        }
        assert(item@.values[i as int].1 == item.values@[i as int].1@);
        let fn_name = create_fn_name(item.values[i].0.as_str());
        write_global_function(r, tree_path, names, &fn_name, &item.values[i].1);
        i = i + 1;
    }
    assert(item@.values.take(item.values.len() as int) =~= item@.values);
    let ghost r2 = r@;
    let mut g: usize = 0;
    while g < item.groups.len()
        invariant
            0 <= g <= item.groups.len(),
            tree_path@ == old(tree_path)@,
            path == path_model(tree_path@),
            sigs_in(item@, names@),
            r@ == r2 + groups_walk(item@, g as nat, path, global_leaf(names@), global_open(), global_close()),
        decreases item.groups.len() - g,
    {
        proof {
            lemma_groups_step(*item, g as int, path, global_leaf(names@), global_open(), global_close());
        }
        assert(item@.groups[g as int] == item.groups@[g as int]@);
        let m = create_mod_name(item.groups[g].key.as_str());
        proof {
            lemma_path_push(tree_path@, m);
        }
        tree_path.push(m);
        write_global_groups(r, tree_path, names, &item.groups[g]);
        tree_path.pop();
        g = g + 1;
    }
    if tree_path.len() > 0 {
        r.append("}\n");
    }
}

fn write_local_static_fns(r: &mut String, tree_path: &mut Vec<String>, names: &StructNames, mods: &Vec<String>, item: &Item)
    requires
        sigs_in(item@, names@),
    ensures
        final(r)@ == old(r)@ + walk(item@, path_model(old(tree_path)@), static_leaf(names@, path_model(mods@)), no_text(), no_text()),
        final(tree_path)@ == old(tree_path)@,
    decreases item,
{
    let ghost path = path_model(tree_path@);
    let ghost r1 = r@;
    let mut i: usize = 0;
    while i < item.values.len()
        invariant
            0 <= i <= item.values.len(),
            tree_path@ == old(tree_path)@,
            path == path_model(tree_path@),
            sigs_in(item@, names@),
            r@ == r1 + leaves_walk(item@.values.take(i as int), path, static_leaf(names@, path_model(mods@))),
        decreases item.values.len() - i,
    {
        proof {
            lemma_leaves_step(*item, i as int, path, static_leaf(names@, path_model(mods@)));
        }
        assert(item@.values[i as int].1 == item.values@[i as int].1@);
        let fn_name = create_fn_name(item.values[i].0.as_str());
        write_local_static_fn(r, tree_path, names, mods, &fn_name, &item.values[i].1);
        i = i + 1;
    }
    assert(item@.values.take(item.values.len() as int) =~= item@.values);
    let ghost r2 = r@;
    let mut g: usize = 0;
    while g < item.groups.len()
        invariant
            0 <= g <= item.groups.len(),
            tree_path@ == old(tree_path)@,
            path == path_model(tree_path@),
            sigs_in(item@, names@),
            r@ == r2 + groups_walk(item@, g as nat, path, static_leaf(names@, path_model(mods@)), no_text(), no_text()),
        decreases item.groups.len() - g,
    {
        proof {
            lemma_groups_step(*item, g as int, path, static_leaf(names@, path_model(mods@)), no_text(), no_text());
        }
        assert(item@.groups[g as int] == item.groups@[g as int]@);
        let m = create_mod_name(item.groups[g].key.as_str());
        proof {
            lemma_path_push(tree_path@, m);
        }
        tree_path.push(m);
        write_local_static_fns(r, tree_path, names, mods, &item.groups[g]);
        tree_path.pop();
        g = g + 1;
    }
}

fn write_set_local_fn(r: &mut String, tree_path: &mut Vec<String>, idx: usize, item: &Item)
    ensures
        final(r)@ == old(r)@ + walk(item@, path_model(old(tree_path)@), store_leaf(idx as nat), no_text(), no_text()),
        final(tree_path)@ == old(tree_path)@,
    decreases item,
{
    let ghost path = path_model(tree_path@);
    let ghost r1 = r@;
    let mut i: usize = 0;
    while i < item.values.len()
        invariant
            0 <= i <= item.values.len(),
            tree_path@ == old(tree_path)@,
            path == path_model(tree_path@),
            r@ == r1 + leaves_walk(item@.values.take(i as int), path, store_leaf(idx as nat)),
        decreases item.values.len() - i,
    {
        proof {
            lemma_leaves_step(*item, i as int, path, store_leaf(idx as nat));
        }
        assert(item@.values[i as int].1 == item.values@[i as int].1@);
        let fn_name = create_fn_name(item.values[i].0.as_str());
        write_store(r, tree_path, idx, &fn_name);
        i = i + 1;
    }
    assert(item@.values.take(item.values.len() as int) =~= item@.values);
    let ghost r2 = r@;
    let mut g: usize = 0;
    while g < item.groups.len()
        invariant
            0 <= g <= item.groups.len(),
            tree_path@ == old(tree_path)@,
            path == path_model(tree_path@),
            r@ == r2 + groups_walk(item@, g as nat, path, store_leaf(idx as nat), no_text(), no_text()),
        decreases item.groups.len() - g,
    {
        proof {
            lemma_groups_step(*item, g as int, path, store_leaf(idx as nat), no_text(), no_text());
        }
        assert(item@.groups[g as int] == item.groups@[g as int]@);
        let m = create_mod_name(item.groups[g].key.as_str());
        proof {
            lemma_path_push(tree_path@, m);
        }
        tree_path.push(m);
        write_set_local_fn(r, tree_path, idx, &item.groups[g]);
        tree_path.pop();
        g = g + 1;
    }
}

fn write_local_struct_members(r: &mut String, tree_path: &mut Vec<String>, names: &StructNames, item: &Item)
    requires
        sigs_in(item@, names@),
    ensures
        final(r)@ == old(r)@ + walk(item@, path_model(old(tree_path)@), member_leaf(names@), no_text(), no_text()),
        final(tree_path)@ == old(tree_path)@,
    decreases item,
{
    let ghost path = path_model(tree_path@);
    let ghost r1 = r@;
    let mut i: usize = 0;
    while i < item.values.len()
        invariant
            0 <= i <= item.values.len(),
            tree_path@ == old(tree_path)@,
            path == path_model(tree_path@),
            sigs_in(item@, names@),
            r@ == r1 + leaves_walk(item@.values.take(i as int), path, member_leaf(names@)),
        decreases item.values.len() - i,
    {
        proof {
            lemma_leaves_step(*item, i as int, path, member_leaf(names@));
        }
        assert(item@.values[i as int].1 == item.values@[i as int].1@);
        let fn_name = create_fn_name(item.values[i].0.as_str());
        write_member(r, tree_path, names, &fn_name, &item.values[i].1);
        i = i + 1;
    }
    assert(item@.values.take(item.values.len() as int) =~= item@.values);
    let ghost r2 = r@;
    let mut g: usize = 0;
    while g < item.groups.len()
        invariant
            0 <= g <= item.groups.len(),
            tree_path@ == old(tree_path)@,
            path == path_model(tree_path@),
            sigs_in(item@, names@),
            r@ == r2 + groups_walk(item@, g as nat, path, member_leaf(names@), no_text(), no_text()),
        decreases item.groups.len() - g,
    {
        proof {
            lemma_groups_step(*item, g as int, path, member_leaf(names@), no_text(), no_text());
        }
        assert(item@.groups[g as int] == item.groups@[g as int]@);
        let m = create_mod_name(item.groups[g].key.as_str());
        proof {
            lemma_path_push(tree_path@, m);
        }
        tree_path.push(m);
        write_local_struct_members(r, tree_path, names, &item.groups[g]);
        tree_path.pop();
        g = g + 1;
    }
}

fn write_local_new_fn_init(r: &mut String, tree_path: &mut Vec<String>, mod_name: &String, item: &Item)
    ensures
        final(r)@ == old(r)@ + walk(item@, path_model(old(tree_path)@), init_leaf(mod_name@), no_text(), no_text()),
        final(tree_path)@ == old(tree_path)@,
    decreases item,
{
    let ghost path = path_model(tree_path@);
    let ghost r1 = r@;
    let mut i: usize = 0;
    while i < item.values.len()
        invariant
            0 <= i <= item.values.len(),
            tree_path@ == old(tree_path)@,
            path == path_model(tree_path@),
            r@ == r1 + leaves_walk(item@.values.take(i as int), path, init_leaf(mod_name@)),
        decreases item.values.len() - i,
    {
        proof {
            lemma_leaves_step(*item, i as int, path, init_leaf(mod_name@));
        }
        assert(item@.values[i as int].1 == item.values@[i as int].1@);
        let fn_name = create_fn_name(item.values[i].0.as_str());
        write_init(r, tree_path, mod_name, &fn_name);
        i = i + 1;
    }
    assert(item@.values.take(item.values.len() as int) =~= item@.values);
    let ghost r2 = r@;
    let mut g: usize = 0;
    while g < item.groups.len()
        invariant
            0 <= g <= item.groups.len(),
            tree_path@ == old(tree_path)@,
            path == path_model(tree_path@),
            r@ == r2 + groups_walk(item@, g as nat, path, init_leaf(mod_name@), no_text(), no_text()),
        decreases item.groups.len() - g,
    {
        proof {
            lemma_groups_step(*item, g as int, path, init_leaf(mod_name@), no_text(), no_text());
        }
        assert(item@.groups[g as int] == item.groups@[g as int]@);
        let m = create_mod_name(item.groups[g].key.as_str());
        proof {
            lemma_path_push(tree_path@, m);
        }
        tree_path.push(m);
        write_local_new_fn_init(r, tree_path, mod_name, &item.groups[g]);
        tree_path.pop();
        g = g + 1;
    }
}


// ---------------------------------------------------------------------------
// Signatures: each distinct non-empty signature gets one structure.

/// `t` with `s` added at the end, unless `s` is empty or already there.
pub open spec fn add_sig(t: Seq<Seq<ArgModel>>, s: Seq<ArgModel>) -> Seq<Seq<ArgModel>> {
    if s.len() == 0 || t.contains(s) {
        t
    } else {
        t.push(s)
    }
}

pub open spec fn register_leaves(t: Seq<Seq<ArgModel>>, vals: Seq<(Seq<char>, LeafModel)>) -> Seq<Seq<ArgModel>>
    decreases vals.len(),
{
    if vals.len() == 0 {
        t
    } else {
        add_sig(register_leaves(t, vals.drop_last()), vals.last().1.1)
    }
}

/// The table after the signatures of a tree are added in the order of the
/// walk: the leaves of a group, then its subgroups.
pub open spec fn register(t: Seq<Seq<ArgModel>>, n: NodeModel) -> Seq<Seq<ArgModel>>
    decreases n, n.groups.len() + 1,
{
    register_groups(register_leaves(t, n.values), n, n.groups.len())
}

pub open spec fn register_groups(t: Seq<Seq<ArgModel>>, n: NodeModel, k: nat) -> Seq<Seq<ArgModel>>
    decreases n, k,
{
    if k == 0 || k > n.groups.len() {
        t
    } else {
        register(register_groups(t, n, (k - 1) as nat), n.groups[k - 1])
    }
}

/// `a` is a prefix of `b`.
pub open spec fn extends(a: Seq<Seq<ArgModel>>, b: Seq<Seq<ArgModel>>) -> bool {
    a.len() <= b.len() && b.subrange(0, a.len() as int) == a
}

proof fn lemma_extends_trans(a: Seq<Seq<ArgModel>>, b: Seq<Seq<ArgModel>>, c: Seq<Seq<ArgModel>>)
    requires
        extends(a, b),
        extends(b, c),
    ensures
        extends(a, c),
{
    assert(c.subrange(0, a.len() as int) =~= c.subrange(0, b.len() as int).subrange(0, a.len() as int));
}

proof fn lemma_extends_contains(a: Seq<Seq<ArgModel>>, b: Seq<Seq<ArgModel>>, s: Seq<ArgModel>)
    requires
        extends(a, b),
        a.contains(s),
    ensures
        b.contains(s),
{
    let k = choose|k: int| 0 <= k < a.len() && a[k] == s;
    assert(b[k] == b.subrange(0, a.len() as int)[k]);
}

proof fn lemma_sigs_in_mono(n: NodeModel, a: Seq<Seq<ArgModel>>, b: Seq<Seq<ArgModel>>)
    requires
        sigs_in(n, a),
        extends(a, b),
    ensures
        sigs_in(n, b),
    decreases n,
{
    assert forall|i: int| 0 <= i < n.values.len() && (#[trigger] n.values[i]).1.1.len() > 0 implies b.contains(
        n.values[i].1.1,
    ) by {
        lemma_extends_contains(a, b, n.values[i].1.1);
    }
    assert forall|i: int| 0 <= i < n.groups.len() implies sigs_in(#[trigger] n.groups[i], b) by {
        lemma_sigs_in_mono(n.groups[i], a, b);
    }
}

proof fn lemma_add_sig(t: Seq<Seq<ArgModel>>, s: Seq<ArgModel>)
    ensures
        extends(t, add_sig(t, s)),
        s.len() > 0 ==> add_sig(t, s).contains(s),
{
    assert(add_sig(t, s).subrange(0, t.len() as int) =~= t);
    if s.len() > 0 && !t.contains(s) {
        assert(add_sig(t, s)[t.len() as int] == s);
    }
}

proof fn lemma_register_leaves(t: Seq<Seq<ArgModel>>, vals: Seq<(Seq<char>, LeafModel)>)
    ensures
        extends(t, register_leaves(t, vals)),
        forall|i: int|
            0 <= i < vals.len() && (#[trigger] vals[i]).1.1.len() > 0 ==> register_leaves(t, vals).contains(vals[i].1.1),
    decreases vals.len(),
{
    if vals.len() == 0 {
        assert(t.subrange(0, t.len() as int) =~= t);
    } else {
        let prev = register_leaves(t, vals.drop_last());
        lemma_register_leaves(t, vals.drop_last());
        lemma_add_sig(prev, vals.last().1.1);
        lemma_extends_trans(t, prev, register_leaves(t, vals));
        assert forall|i: int| 0 <= i < vals.len() && (#[trigger] vals[i]).1.1.len() > 0 implies register_leaves(
            t,
            vals,
        ).contains(vals[i].1.1) by {
            if i < vals.len() - 1 {
                assert(vals.drop_last()[i] == vals[i]);
                lemma_extends_contains(prev, register_leaves(t, vals), vals[i].1.1);
            }
        }
    }
}

proof fn lemma_register(t: Seq<Seq<ArgModel>>, n: NodeModel)
    ensures
        extends(t, register(t, n)),
        sigs_in(n, register(t, n)),
    decreases n, n.groups.len() + 1,
{
    let t1 = register_leaves(t, n.values);
    lemma_register_leaves(t, n.values);
    lemma_register_groups(t1, n, n.groups.len());
    lemma_extends_trans(t, t1, register(t, n));
    let r = register(t, n);
    assert forall|i: int| 0 <= i < n.values.len() && (#[trigger] n.values[i]).1.1.len() > 0 implies r.contains(
        n.values[i].1.1,
    ) by {
        lemma_extends_contains(t1, r, n.values[i].1.1);
    }
}

proof fn lemma_register_groups(t: Seq<Seq<ArgModel>>, n: NodeModel, k: nat)
    requires
        k <= n.groups.len(),
    ensures
        extends(t, register_groups(t, n, k)),
        forall|i: int| 0 <= i < k ==> sigs_in(#[trigger] n.groups[i], register_groups(t, n, k)),
    decreases n, k,
{
    if k > 0 {
        let prev = register_groups(t, n, (k - 1) as nat);
        lemma_register_groups(t, n, (k - 1) as nat);
        lemma_register(prev, n.groups[k - 1]);
        let cur = register_groups(t, n, k);
        lemma_extends_trans(t, prev, cur);
        assert forall|i: int| 0 <= i < k implies sigs_in(#[trigger] n.groups[i], cur) by {
            if i < k - 1 {
                lemma_sigs_in_mono(n.groups[i], prev, cur);
            }
        }
    } else {
        assert(t.subrange(0, t.len() as int) =~= t);
    }
}

/// Adds the signatures of a tree to the table, in the order of the walk.
fn register_structs(names: &mut StructNames, item: &Item)
    ensures
        final(names)@ == register(old(names)@, item@),
    decreases item,
{
    let ghost t0 = names@;
    let mut i: usize = 0;
    while i < item.values.len()
        invariant
            0 <= i <= item.values.len(),
            t0 == old(names)@,
            names@ == register_leaves(t0, item@.values.take(i as int)),
        decreases item.values.len() - i,
    {
        assert(item@.values.take(i + 1).drop_last() =~= item@.values.take(i as int));
        assert(item@.values[i as int].1 == item.values@[i as int].1@);
        proof {
            crate::names::lemma_sig_index(names@, item@.values[i as int].1.1);
        }
        if item.values[i].1.args.len() > 0 {
            let _ = names.get_or_add(&item.values[i].1.args);
        }
        i = i + 1;
    }
    assert(item@.values.take(item.values.len() as int) =~= item@.values);
    let mut g: usize = 0;
    while g < item.groups.len()
        invariant
            0 <= g <= item.groups.len(),
            t0 == old(names)@,
            names@ == register_groups(register_leaves(t0, item@.values), item@, g as nat),
        decreases item.groups.len() - g,
    {
        assert(item@.groups[g as int] == item.groups@[g as int]@);
        register_structs(names, &item.groups[g]);
        g = g + 1;
    }
}


// ---------------------------------------------------------------------------
// Fixed parts of the generated module.

/// The function slot type of the locale switch. It holds one implementation
/// per locale and the atomic index of the current one: switching is one
/// atomic store, a call one atomic load, and no lock is taken.
pub const ATOMIC_FN_SRC: &'static str = "
      //----------------------------------------

      /// A function slot that can be switched between locales at run time.
      ///
      /// It keeps one implementation per locale and the atomic index of the
      /// current one: a switch is a single atomic store and a call a single
      /// atomic load. No lock is ever taken.
      pub struct AtomicFn<T: Copy + 'static> {
         idx: core::sync::atomic::AtomicUsize,
         fns: &'static [T],
      }
      impl<T: Copy + 'static> AtomicFn<T> {
         pub const fn new(fns: &'static [T]) -> Self {
            Self { idx: core::sync::atomic::AtomicUsize::new(0), fns }
         }
         pub fn store(&self, idx: usize) {
            self.idx.store(idx, core::sync::atomic::Ordering::Relaxed)
         }
         pub fn load(&self) -> T {
            self.fns[self.idx.load(core::sync::atomic::Ordering::Relaxed)]
         }
      }

      //----------------------------------------
      ";

/// The traits that every result type implements.
pub const TRAITS_SRC: &'static str = "
      pub trait StaticAccess {
         fn str(&self) -> &'static str;
      }

      pub trait CowAccess {
         fn cow(&self) -> std::borrow::Cow<'static, str>;
      }
      ";

/// The result type of leaves without arguments.
pub const STR_SRC: &'static str = "
      /// For 'static str
      pub struct Str(pub &'static str);

      impl StaticAccess for Str {
         fn str(&self) -> &'static str {
            self.0
         }
      }
      impl CowAccess for Str {
         fn cow(&self) -> std::borrow::Cow<'static, str> {
            std::borrow::Cow::Borrowed(self.0)
         }
      }
      impl std::fmt::Display for Str {
         fn fmt(&self, f: &mut std::fmt::Formatter) -> std::fmt::Result {
            f.write_str(self.0)
         }
      }
      ";

fn write_pre_defined_atomic_fn(r: &mut String)
    ensures
        final(r)@ == old(r)@ + ATOMIC_FN_SRC@,
{
    r.append(ATOMIC_FN_SRC);
}

fn write_pre_defined_traits(r: &mut String)
    ensures
        final(r)@ == old(r)@ + TRAITS_SRC@,
{
    r.append(TRAITS_SRC);
}

fn write_pre_defined_structs(r: &mut String)
    ensures
        final(r)@ == old(r)@ + STR_SRC@,
{
    r.append(STR_SRC);
}

// ---------------------------------------------------------------------------
// One structure per signature.

pub open spec fn lifetime_decl(args: Seq<ArgModel>) -> Seq<char> {
    if any_ref(args) {
        "<'a>"@
    } else {
        Seq::empty()
    }
}

/// The declaration of the structure of a signature: its arguments and the
/// formatting function.
pub open spec fn struct_decl_text(name: Seq<char>, args: Seq<ArgModel>) -> Seq<char> {
    "\n         /// Arguments: `("@ + params_text(Seq::empty(), args) + ")`\n         pub struct "@ + name
        + lifetime_decl(args) + " {\n            "@ + members_text(args)
        + "\n            pub fmt_fn: fn(&mut std::fmt::Formatter, "@ + arg_types_text(args)
        + ") -> std::fmt::Result,\n         }\n         "@
}

pub open spec fn cow_impl_text(name: Seq<char>, args: Seq<ArgModel>) -> Seq<char> {
    "\n         impl"@ + lifetime_decl(args) + " CowAccess for "@ + name + lifetime_decl(args)
        + " {\n            fn cow(&self) -> std::borrow::Cow<'static, str> {\n               std::borrow::Cow::Owned(self.to_string())\n            }\n         }\n         "@
}

pub open spec fn display_impl_text(name: Seq<char>, args: Seq<ArgModel>) -> Seq<char> {
    "\n         impl"@ + lifetime_decl(args) + " std::fmt::Display for "@ + name + lifetime_decl(args)
        + " {\n            fn fmt(&self, f: &mut std::fmt::Formatter) -> std::fmt::Result {\n               (self.fmt_fn)(f, "@
        + arg_names_text("self."@, args) + ")\n            }\n         }\n         "@
}

/// The structure of a signature and the two ways to render it.
pub open spec fn struct_def_text(name: Seq<char>, args: Seq<ArgModel>) -> Seq<char> {
    struct_decl_text(name, args) + cow_impl_text(name, args) + display_impl_text(name, args)
}

/// The structures of the first `k` signatures of the table.
pub open spec fn structs_text(t: Seq<Seq<ArgModel>>, k: nat) -> Seq<char>
    decreases k,
{
    if k == 0 || k > t.len() {
        Seq::empty()
    } else {
        structs_text(t, (k - 1) as nat) + struct_def_text(struct_name((k - 1) as nat), t[k - 1])
    }
}

fn lifetime_of(args: &Vec<ItemArg>) -> (r: String)
    ensures
        r@ == lifetime_decl(args_model(args@)),
{
    if args_have_ref(args) {
        String::from_str("<'a>")
    } else {
        String::new()
    }
}

fn write_struct_decl(r: &mut String, name: &String, args: &Vec<ItemArg>)
    ensures
        final(r)@ == old(r)@ + struct_decl_text(name@, args_model(args@)),
{
    proof {
        reveal_strlit("");
    }
    assert(""@ =~= Seq::<char>::empty());
    r.append("\n         /// Arguments: `(");
    r.append(seq_args("", args).as_str());
    r.append(")`\n         pub struct ");
    r.append(name.as_str());
    r.append(lifetime_of(args).as_str());
    r.append(" {\n            ");
    r.append(seq_struct_members(args).as_str());
    r.append("\n            pub fmt_fn: fn(&mut std::fmt::Formatter, ");
    r.append(seq_arg_types(args).as_str());
    r.append(") -> std::fmt::Result,\n         }\n         ");
}

fn write_cow_impl(r: &mut String, name: &String, args: &Vec<ItemArg>)
    ensures
        final(r)@ == old(r)@ + cow_impl_text(name@, args_model(args@)),
{
    let lt = lifetime_of(args);
    r.append("\n         impl");
    r.append(lt.as_str());
    r.append(" CowAccess for ");
    r.append(name.as_str());
    r.append(lt.as_str());
    r.append(
        " {\n            fn cow(&self) -> std::borrow::Cow<'static, str> {\n               std::borrow::Cow::Owned(self.to_string())\n            }\n         }\n         ",
    );
}

fn write_display_impl(r: &mut String, name: &String, args: &Vec<ItemArg>)
    ensures
        final(r)@ == old(r)@ + display_impl_text(name@, args_model(args@)),
{
    let lt = lifetime_of(args);
    r.append("\n         impl");
    r.append(lt.as_str());
    r.append(" std::fmt::Display for ");
    r.append(name.as_str());
    r.append(lt.as_str());
    r.append(
        " {\n            fn fmt(&self, f: &mut std::fmt::Formatter) -> std::fmt::Result {\n               (self.fmt_fn)(f, ",
    );
    r.append(seq_arg_names("self.", args).as_str());
    r.append(")\n            }\n         }\n         ");
}

fn write_struct(r: &mut String, name: &String, args: &Vec<ItemArg>)
    ensures
        final(r)@ == old(r)@ + struct_def_text(name@, args_model(args@)),
{
    write_struct_decl(r, name, args);
    write_cow_impl(r, name, args);
    write_display_impl(r, name, args);
}

/// Writes the structure of every signature of the table, in table order.
fn write_structs(r: &mut String, names: &StructNames)
    ensures
        final(r)@ == old(r)@ + structs_text(names@, names@.len()),
{
    let ghost r0 = r@;
    let n = names.len();
    let mut i: usize = 0;
    while i < n
        invariant
            0 <= i <= n,
            n == names@.len(),
            r@ == r0 + structs_text(names@, i as nat),
        decreases n - i,
    {
        let name = names.name_at(i);
        write_struct(r, &name, names.sig_at(i));
        i = i + 1;
    }
}


// ---------------------------------------------------------------------------
// The locale switch.

/// The module name of each locale.
pub open spec fn mods_of(locals: Seq<Local>) -> Path {
    locals.map_values(|l: Local| ident_of(l.root.key@))
}

fn locale_mods(locals: &Vec<Local>) -> (r: Vec<String>)
    ensures
        path_model(r@) == mods_of(locals@),
{
    let mut r: Vec<String> = Vec::new();
    let mut i: usize = 0;
    while i < locals.len()
        invariant
            0 <= i <= locals.len(),
            path_model(r@) == mods_of(locals@).take(i as int),
        decreases locals.len() - i,
    {
        let m = create_mod_name(locals[i].root.key.as_str());
        let ghost before = r@;
        r.push(m);
        assert(path_model(r@) =~= path_model(before).push(m@));
        i = i + 1;
        assert(path_model(r@) =~= mods_of(locals@).take(i as int));
    }
    assert(mods_of(locals@).take(locals.len() as int) =~= mods_of(locals@));
    r
}

/// The module of the slots: one per leaf of the default tree `d`.
pub open spec fn statics_text(d: NodeModel, t: Seq<Seq<ArgModel>>, mods: Path) -> Seq<char> {
    "mod curr_lcl_fns {\n   use super::*;\n"@ + ATOMIC_FN_SRC@ + walk(d, Seq::empty(), static_leaf(t, mods), no_text(), no_text())
        + "\n\n}\n\n"@
}

fn write_local_statics(r: &mut String, names: &StructNames, default: &Item, mods: &Vec<String>)
    requires
        sigs_in(default@, names@),
    ensures
        final(r)@ == old(r)@ + statics_text(default@, names@, path_model(mods@)),
{
    let mut tree_path: Vec<String> = Vec::new();
    assert(path_model(tree_path@) =~= Seq::<Seq<char>>::empty());
    r.append("mod curr_lcl_fns {\n   use super::*;\n");
    write_pre_defined_atomic_fn(r);
    write_local_static_fns(r, &mut tree_path, names, mods, default);
    r.append("\n\n}\n\n");
}

/// The constructor of the `Local` value of the locale keyed `key`.
pub open spec fn new_fn_text(d: NodeModel, key: Seq<char>) -> Seq<char> {
    "\n      /// Create new `"@ + key + "` local.\n      pub const fn new_"@ + ident_of(key) + "() -> Self {\n            Self {"@
        + walk(d, Seq::empty(), init_leaf(ident_of(key)), no_text(), no_text()) + "\n         }\n      }\n      "@
}

fn write_local_new_fn(r: &mut String, default: &Item, key: &String)
    ensures
        final(r)@ == old(r)@ + new_fn_text(default@, key@),
{
    let mod_name = create_mod_name(key.as_str());
    let mut tree_path: Vec<String> = Vec::new();
    assert(path_model(tree_path@) =~= Seq::<Seq<char>>::empty());
    r.append("\n      /// Create new `");
    r.append(key.as_str());
    r.append("` local.\n      pub const fn new_");
    r.append(mod_name.as_str());
    r.append("() -> Self {\n            Self {");
    write_local_new_fn_init(r, &mut tree_path, &mod_name, default);
    r.append("\n         }\n      }\n      ");
}

/// The function that points every slot at the locale at `idx`.
pub open spec fn set_fn_text(d: NodeModel, idx: nat, m: Seq<char>) -> Seq<char> {
    "\n\n         /// Set the current local to `"@ + m + "`\n         pub fn set_"@ + m + "() {\n         "@
        + walk(d, Seq::empty(), store_leaf(idx), no_text(), no_text()) + "\n         }"@
}

fn write_set_fn(r: &mut String, default: &Item, idx: usize, mod_name: &String)
    ensures
        final(r)@ == old(r)@ + set_fn_text(default@, idx as nat, mod_name@),
{
    let mut tree_path: Vec<String> = Vec::new();
    assert(path_model(tree_path@) =~= Seq::<Seq<char>>::empty());
    r.append("\n\n         /// Set the current local to `");
    r.append(mod_name.as_str());
    r.append("`\n         pub fn set_");
    r.append(mod_name.as_str());
    r.append("() {\n         ");
    write_set_local_fn(r, &mut tree_path, idx, default);
    r.append("\n         }");
}

/// The constructors of the first `k` locales.
pub open spec fn new_fns_text(d: NodeModel, locals: Seq<Local>, k: nat) -> Seq<char>
    decreases k,
{
    if k == 0 || k > locals.len() {
        Seq::empty()
    } else {
        new_fns_text(d, locals, (k - 1) as nat) + new_fn_text(d, locals[k - 1].root.key@)
    }
}

/// The switch functions of the first `k` locales.
pub open spec fn set_fns_text(d: NodeModel, locals: Seq<Local>, k: nat) -> Seq<char>
    decreases k,
{
    if k == 0 || k > locals.len() {
        Seq::empty()
    } else {
        set_fns_text(d, locals, (k - 1) as nat) + set_fn_text(d, (k - 1) as nat, ident_of(locals[k - 1].root.key@))
    }
}

/// The arms of `set` that switch to the first `k` locales by key.
pub open spec fn set_arms_text(locals: Seq<Local>, k: nat) -> Seq<char>
    decreases k,
{
    if k == 0 || k > locals.len() {
        Seq::empty()
    } else {
        set_arms_text(locals, (k - 1) as nat) + "\n               \""@ + locals[k - 1].root.key@ + "\" => {set_"@
            + ident_of(locals[k - 1].root.key@) + "(); true}"@
    }
}

/// The keys of the first `k` locales as items of the key list.
pub open spec fn list_items_text(locals: Seq<Local>, k: nat) -> Seq<char>
    decreases k,
{
    if k == 0 || k > locals.len() {
        Seq::empty()
    } else {
        list_items_text(locals, (k - 1) as nat) + "\n               \""@ + locals[k - 1].root.key@ + "\","@
    }
}

pub const SET_HEAD_SRC: &'static str = "

         /// Set the current local using key, for example: `en-EN`
         ///
         /// # Return
         ///   False if local for the specified key does not exist.
         pub fn set(key: &str) -> bool {
            match key {";

pub const SET_TAIL_SRC: &'static str = "
               _ => false,
            }
         }
      ";

pub const NUMBER_SRC: &'static str = "

         /// Number of available locals.
         ///
         /// Can be used to create a simple array `[MyType; tr::local::NUMBER];`
         pub const NUMBER: usize = ";

pub const LIST_HEAD_SRC: &'static str = ";

         /// Get list of available local keys.
         pub fn list() -> &'static[&'static str] {
            const LIST: [&str; NUMBER] = [";

pub const LIST_TAIL_SRC: &'static str = "
            ];
            &LIST
         }
      ";

/// The `Local` structure: a function field per leaf of the default tree `d`,
/// and a constructor per locale.
pub open spec fn local_struct_part(d: NodeModel, t: Seq<Seq<ArgModel>>, locals: Seq<Local>) -> Seq<char> {
    "\n      pub struct Local {"@ + walk(d, Seq::empty(), member_leaf(t), no_text(), no_text())
        + "\n         }\n\n         impl Local {\n      "@ + new_fns_text(d, locals, locals.len()) + "\n         }"@
}

/// The function `set`, which switches to a locale by its key and returns
/// false, switching nothing, for any other key.
pub open spec fn set_by_key_part(locals: Seq<Local>) -> Seq<char> {
    SET_HEAD_SRC@ + set_arms_text(locals, locals.len()) + SET_TAIL_SRC@
}

/// The number of locales and the list of their keys, in order.
pub open spec fn list_part(locals: Seq<Local>) -> Seq<char> {
    NUMBER_SRC@ + dec(locals.len()) + LIST_HEAD_SRC@ + list_items_text(locals, locals.len()) + LIST_TAIL_SRC@
}

/// The module `local`: the `Local` structure with a constructor per locale,
/// a switch function per locale, `set` by key, and the list of keys.
pub open spec fn local_text(d: NodeModel, t: Seq<Seq<ArgModel>>, locals: Seq<Local>) -> Seq<char> {
    "pub mod local {\n   use super::*;\n"@ + local_struct_part(d, t, locals) + set_fns_text(d, locals, locals.len())
        + set_by_key_part(locals) + list_part(locals) + "\n\n}\n"@
}

fn write_local_struct(r: &mut String, names: &StructNames, default: &Item, locals: &Vec<Local>)
    requires
        sigs_in(default@, names@),
    ensures
        final(r)@ == old(r)@ + local_struct_part(default@, names@, locals@),
{
    let mut tree_path: Vec<String> = Vec::new();
    assert(path_model(tree_path@) =~= Seq::<Seq<char>>::empty());
    r.append("\n      pub struct Local {");
    write_local_struct_members(r, &mut tree_path, names, default);
    r.append("\n         }\n\n         impl Local {\n      ");
    let ghost r0 = r@;
    let mut i: usize = 0;
    while i < locals.len()
        invariant
            0 <= i <= locals.len(),
            r@ == r0 + new_fns_text(default@, locals@, i as nat),
        decreases locals.len() - i,
    {
        write_local_new_fn(r, default, &locals[i].root.key);
        i = i + 1;
    }
    r.append("\n         }");
}

fn write_set_fns(r: &mut String, default: &Item, locals: &Vec<Local>, mods: &Vec<String>)
    requires
        path_model(mods@) == mods_of(locals@),
    ensures
        final(r)@ == old(r)@ + set_fns_text(default@, locals@, locals@.len()),
{
    let ghost r0 = r@;
    assert(path_model(mods@).len() == mods@.len() && mods_of(locals@).len() == locals@.len());
    let mut i: usize = 0;
    while i < locals.len()
        invariant
            0 <= i <= locals.len(),
            mods.len() == locals.len(),
            path_model(mods@) == mods_of(locals@),
            r@ == r0 + set_fns_text(default@, locals@, i as nat),
        decreases locals.len() - i,
    {
        assert(mods@[i as int]@ == path_model(mods@)[i as int]);
        write_set_fn(r, default, i, &mods[i]);
        i = i + 1;
    }
}

fn write_set_by_key(r: &mut String, locals: &Vec<Local>, mods: &Vec<String>)
    requires
        path_model(mods@) == mods_of(locals@),
    ensures
        final(r)@ == old(r)@ + set_by_key_part(locals@),
{
    r.append(SET_HEAD_SRC);
    let ghost r0 = r@;
    assert(path_model(mods@).len() == mods@.len() && mods_of(locals@).len() == locals@.len());
    let mut i: usize = 0;
    while i < locals.len()
        invariant
            0 <= i <= locals.len(),
            mods.len() == locals.len(),
            path_model(mods@) == mods_of(locals@),
            r@ == r0 + set_arms_text(locals@, i as nat),
        decreases locals.len() - i,
    {
        assert(mods@[i as int]@ == path_model(mods@)[i as int]);
        r.append("\n               \"");
        r.append(locals[i].root.key.as_str());
        r.append("\" => {set_");
        r.append(mods[i].as_str());
        r.append("(); true}");
        i = i + 1;
    }
    r.append(SET_TAIL_SRC);
}

fn write_list(r: &mut String, locals: &Vec<Local>)
    ensures
        final(r)@ == old(r)@ + list_part(locals@),
{
    r.append(NUMBER_SRC);
    r.append(decimal(locals.len()).as_str());
    r.append(LIST_HEAD_SRC);
    let ghost r0 = r@;
    let mut i: usize = 0;
    while i < locals.len()
        invariant
            0 <= i <= locals.len(),
            r@ == r0 + list_items_text(locals@, i as nat),
        decreases locals.len() - i,
    {
        r.append("\n               \"");
        r.append(locals[i].root.key.as_str());
        r.append("\",");
        i = i + 1;
    }
    r.append(LIST_TAIL_SRC);
}

/// Writes the module `local` for the locales, the first of which is the
/// default one.
fn write_local(r: &mut String, names: &StructNames, locals: &Vec<Local>, mods: &Vec<String>)
    requires
        locals.len() > 0,
        sigs_in(locals@[0].root@, names@),
        path_model(mods@) == mods_of(locals@),
    ensures
        final(r)@ == old(r)@ + local_text(locals@[0].root@, names@, locals@),
{
    let default = &locals[0].root;
    r.append("pub mod local {\n   use super::*;\n");
    write_local_struct(r, names, default, locals);
    write_set_fns(r, default, locals, mods);
    write_set_by_key(r, locals, mods);
    write_list(r, locals);
    r.append("\n\n}\n");
}


// ---------------------------------------------------------------------------
// The whole module.

/// The line that separates the parts of the generated module.
pub const SEP_SRC: &'static str = "
////////////////////////////////////////////////////////////////////////////////////////////////////

";

/// The table after the signatures of the first `k` locales are added, in
/// order, to an empty one.
pub open spec fn register_all(locals: Seq<Local>, k: nat) -> Seq<Seq<ArgModel>>
    decreases k,
{
    if k == 0 || k > locals.len() {
        Seq::empty()
    } else {
        register(register_all(locals, (k - 1) as nat), locals[k - 1].root@)
    }
}

pub open spec fn imports_text(imports: Seq<String>, k: nat) -> Seq<char>
    decreases k,
{
    if k == 0 || k > imports.len() {
        Seq::empty()
    } else {
        imports_text(imports, (k - 1) as nat) + "use "@ + imports[k - 1]@ + ";\n"@
    }
}

/// The attributes at the top of the module and the imports of the configuration.
pub open spec fn header_text(config: Config) -> Seq<char> {
    (if config.dead_code_attr { "#![allow(dead_code)]\n"@ } else { Seq::empty() }) + "#![allow(non_upper_case_globals)]\n"@
        + SEP_SRC@ + imports_text(config.imports@, config.imports@.len())
}

/// The module `defines`: the traits, the plain string type and the
/// structure of every signature.
pub open spec fn defines_text(t: Seq<Seq<ArgModel>>) -> Seq<char> {
    "pub mod defines {"@ + TRAITS_SRC@ + STR_SRC@ + structs_text(t, t.len()) + "}\n"@
}

/// The accessor modules of the first `k` locales.
pub open spec fn locales_text(locals: Seq<Local>, t: Seq<Seq<ArgModel>>, k: nat) -> Seq<char>
    decreases k,
{
    if k == 0 || k > locals.len() {
        Seq::empty()
    } else {
        locales_text(locals, t, (k - 1) as nat) + walk(
            locals[k - 1].root@,
            seq![ident_of(locals[k - 1].root.key@)],
            local_leaf(t),
            mod_open(),
            fmt_close(),
        )
    }
}

/// The formatting modules of the first `k` locales.
pub open spec fn fmts_text(locals: Seq<Local>, k: nat) -> Seq<char>
    decreases k,
{
    if k == 0 || k > locals.len() {
        Seq::empty()
    } else {
        fmts_text(locals, (k - 1) as nat) + walk(
            locals[k - 1].root@,
            seq![ident_of(locals[k - 1].root.key@)],
            fmt_leaf(),
            fmt_open(),
            fmt_close(),
        )
    }
}

/// The header, the module `defines` and a separator.
pub open spec fn defines_part(config: Config, t: Seq<Seq<ArgModel>>) -> Seq<char> {
    header_text(config) + defines_text(t) + SEP_SRC@
}

/// The slots, the module `local` and a separator.
pub open spec fn switch_part(d: NodeModel, t: Seq<Seq<ArgModel>>, locals: Seq<Local>) -> Seq<char> {
    statics_text(d, t, mods_of(locals)) + local_text(d, t, locals) + SEP_SRC@
}

/// The dispatch functions and a separator.
pub open spec fn dispatch_part(d: NodeModel, t: Seq<Seq<ArgModel>>) -> Seq<char> {
    walk(d, Seq::empty(), global_leaf(t), global_open(), global_close()) + SEP_SRC@
}

/// The accessor modules of all locales and a separator.
pub open spec fn locales_part(locals: Seq<Local>, t: Seq<Seq<ArgModel>>) -> Seq<char> {
    locales_text(locals, t, locals.len()) + SEP_SRC@
}

/// The module `fmt` and a separator.
pub open spec fn fmt_part(locals: Seq<Local>) -> Seq<char> {
    "mod fmt {\n"@ + fmts_text(locals, locals.len()) + "}\n"@ + SEP_SRC@
}

/// The generated module for the locales, the first of which is the default
/// one, whose tree gives the slots and the dispatch functions.
pub open spec fn code_text(locals: Seq<Local>, config: Config) -> Seq<char> {
    let t = register_all(locals, locals.len());
    let d = locals[0].root@;
    defines_part(config, t) + switch_part(d, t, locals) + dispatch_part(d, t) + locales_part(locals, t) + fmt_part(locals)
}

fn write_header(r: &mut String, config: &Config)
    ensures
        final(r)@ == old(r)@ + header_text(*config),
{
    if config.dead_code_attr {
        r.append("#![allow(dead_code)]\n");
    }
    r.append("#![allow(non_upper_case_globals)]\n");
    r.append(SEP_SRC);
    let ghost r0 = r@;
    let mut i: usize = 0;
    while i < config.imports.len()
        invariant
            0 <= i <= config.imports.len(),
            r@ == r0 + imports_text(config.imports@, i as nat),
        decreases config.imports.len() - i,
    {
        r.append("use ");
        r.append(config.imports[i].as_str());
        r.append(";\n");
        i = i + 1;
    }
}

/// Adds the signatures of every locale to an empty table.
fn register_all_structs(locals: &Vec<Local>) -> (names: StructNames)
    ensures
        names@ == register_all(locals@, locals@.len()),
        forall|j: int| 0 <= j < locals.len() ==> sigs_in(#[trigger] locals@[j].root@, names@),
{
    let mut names = StructNames::new();
    let mut i: usize = 0;
    while i < locals.len()
        invariant
            0 <= i <= locals.len(),
            names@ == register_all(locals@, i as nat),
            forall|j: int| 0 <= j < i ==> sigs_in(#[trigger] locals@[j].root@, names@),
        decreases locals.len() - i,
    {
        let ghost before = names@;
        register_structs(&mut names, &locals[i].root);
        proof {
            lemma_register(before, locals@[i as int].root@);
            assert forall|j: int| 0 <= j < i + 1 implies sigs_in(#[trigger] locals@[j].root@, names@) by {
                if j < i {
                    lemma_sigs_in_mono(locals@[j].root@, before, names@);
                }
            }
        }
        i = i + 1;
    }
    names
}

fn write_locale_modules(r: &mut String, names: &StructNames, locals: &Vec<Local>)
    requires
        forall|j: int| 0 <= j < locals.len() ==> sigs_in(#[trigger] locals@[j].root@, names@),
    ensures
        final(r)@ == old(r)@ + locales_text(locals@, names@, locals@.len()),
{
    let ghost r0 = r@;
    let mut i: usize = 0;
    while i < locals.len()
        invariant
            0 <= i <= locals.len(),
            forall|j: int| 0 <= j < locals.len() ==> sigs_in(#[trigger] locals@[j].root@, names@),
            r@ == r0 + locales_text(locals@, names@, i as nat),
        decreases locals.len() - i,
    {
        let mut tree_path: Vec<String> = Vec::new();
        let m = create_mod_name(locals[i].root.key.as_str());
        tree_path.push(m);
        assert(path_model(tree_path@) =~= seq![m@]);
        assert(sigs_in(locals@[i as int].root@, names@));
        write_local_groups(r, &mut tree_path, names, &locals[i].root);
        i = i + 1;
    }
}

fn write_fmt_modules(r: &mut String, locals: &Vec<Local>)
    ensures
        final(r)@ == old(r)@ + fmts_text(locals@, locals@.len()),
{
    let ghost r0 = r@;
    let mut i: usize = 0;
    while i < locals.len()
        invariant
            0 <= i <= locals.len(),
            r@ == r0 + fmts_text(locals@, i as nat),
        decreases locals.len() - i,
    {
        let mut tree_path: Vec<String> = Vec::new();
        let m = create_mod_name(locals[i].root.key.as_str());
        tree_path.push(m);
        assert(path_model(tree_path@) =~= seq![m@]);
        write_fmt_groups(r, &mut tree_path, &locals[i].root);
        i = i + 1;
    }
}

fn write_defines_part(config: &Config, names: &StructNames) -> (r: String)
    ensures
        r@ == defines_part(*config, names@),
{
    let mut r = String::new();
    write_header(&mut r, config);
    r.append("pub mod defines {");
    write_pre_defined_traits(&mut r);
    write_pre_defined_structs(&mut r);
    write_structs(&mut r, &names);
    r.append("}\n");
    r.append(SEP_SRC);
    r
}

fn write_switch_part(names: &StructNames, locals: &Vec<Local>, mods: &Vec<String>) -> (r: String)
    requires
        locals.len() > 0,
        sigs_in(locals@[0].root@, names@),
        path_model(mods@) == mods_of(locals@),
    ensures
        r@ == switch_part(locals@[0].root@, names@, locals@),
{
    let mut r = String::new();
    write_local_statics(&mut r, names, &locals[0].root, mods);
    write_local(&mut r, names, locals, mods);
    r.append(SEP_SRC);
    r
}

fn write_dispatch_part(names: &StructNames, default: &Item) -> (r: String)
    requires
        sigs_in(default@, names@),
    ensures
        r@ == dispatch_part(default@, names@),
{
    let mut r = String::new();
    let mut tree_path: Vec<String> = Vec::new();
    assert(path_model(tree_path@) =~= Seq::<Seq<char>>::empty());
    write_global_groups(&mut r, &mut tree_path, names, default);
    r.append(SEP_SRC);
    r
}

/// The generated module for the locales, the first of which is the default
/// one.
pub fn generate_code(locals: &Vec<Local>, config: &Config) -> (r: String)
    requires
        locals.len() > 0,
    ensures
        r@ == code_text(locals@, *config),
{
    let names = register_all_structs(locals);
    let mods = locale_mods(locals);
    assert(sigs_in(locals@[0].root@, names@));
    let mut r = write_defines_part(config, &names);
    r.append(write_switch_part(&names, locals, &mods).as_str());
    r.append(write_dispatch_part(&names, &locals[0].root).as_str());
    let mut l = String::new();
    write_locale_modules(&mut l, &names, locals);
    l.append(SEP_SRC);
    r.append(l.as_str());
    let mut f = String::from_str("mod fmt {\n");
    write_fmt_modules(&mut f, locals);
    f.append("}\n");
    f.append(SEP_SRC);
    r.append(f.as_str());
    r
}

} // verus!
