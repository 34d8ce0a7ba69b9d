use vstd::prelude::*;
use crate::template::{ItemValue, LeafModel, leaf_model, scan};

verus! {

/// A group of a definition tree, as values: its key, its leaves in order, and
/// its subgroups in order.
pub struct NodeModel {
    pub key: Seq<char>,
    pub values: Seq<(Seq<char>, LeafModel)>,
    pub groups: Seq<NodeModel>,
}

/// A group of a definition tree: named leaves and named subgroups. A subgroup
/// is named by its own `key`.
#[derive(Debug)]
pub struct Item {
    pub key: String,
    pub values: Vec<(String, ItemValue)>,
    pub groups: Vec<Item>,
}

pub open spec fn empty_node() -> NodeModel {
    NodeModel { key: Seq::empty(), values: Seq::empty(), groups: Seq::empty() }
}

pub open spec fn item_view(t: Item) -> NodeModel
    decreases t,
{
    NodeModel {
        key: t.key@,
        values: t.values@.map_values(|p: (String, ItemValue)| (p.0@, p.1@)),
        groups: Seq::new(
            t.groups.len() as nat,
            |i: int|
                if 0 <= i < t.groups.len() {
                    item_view(t.groups[i])
                } else {
                    empty_node()
                },
        ),
    }
}

impl View for Item {
    type V = NodeModel;

    open spec fn view(&self) -> NodeModel {
        item_view(*self)
    }
}

/// One locale: the tree whose root key is the locale's own name.
#[derive(Debug)]
pub struct Local {
    pub root: Item,
}

/// A definition tree as read from its source, before it is checked: text,
/// a table of named entries, or a value of any other kind.
#[derive(Debug)]
pub enum RawValue {
    Text(String),
    Table(Vec<(String, RawValue)>),
    Other,
}

/// Why a definition tree cannot be loaded.
#[derive(Debug, PartialEq, Eq)]
pub enum LoadError {
    /// The top level does not hold exactly one entry.
    TopLevel,
    /// The entry under this name is neither text nor a table.
    UnexpectedValue(String),
    /// Two entries of one table share this name.
    DuplicateName(String),
    /// The text under this name has a placeholder that is never closed.
    Parse(String),
}

/// No two entries of a table share a name.
pub open spec fn names_distinct(es: Seq<(String, RawValue)>) -> bool {
    forall|i: int, j: int| 0 <= i < j < es.len() ==> (#[trigger] es[i]).0@ != (#[trigger] es[j]).0@
}

/// The first `n` entries of a table, and the tables below them, can be loaded.
pub open spec fn entries_ok(es: Vec<(String, RawValue)>, n: nat) -> bool
    decreases es, n,
{
    if n == 0 {
        names_distinct(es@)
    } else if n > es.len() {
        false
    } else {
        entries_ok(es, (n - 1) as nat) && match es[n - 1].1 {
            RawValue::Text(s) => !scan(s@).in_placeholder,
            RawValue::Table(sub) => entries_ok(sub, sub.len() as nat),
            RawValue::Other => false,
        }
    }
}

/// The group that the first `n` entries of a table make under `key`: text
/// becomes a leaf, a table a subgroup, each in the order of the entries.
pub open spec fn build_node(key: Seq<char>, es: Vec<(String, RawValue)>, n: nat) -> NodeModel
    decreases es, n,
{
    if n == 0 || n > es.len() {
        NodeModel { key, values: Seq::empty(), groups: Seq::empty() }
    } else {
        let nd = build_node(key, es, (n - 1) as nat);
        match es[n - 1].1 {
            RawValue::Text(s) => NodeModel {
                values: nd.values.push((es[n - 1].0@, leaf_model(s@))),
                ..nd
            },
            RawValue::Table(sub) => NodeModel {
                groups: nd.groups.push(build_node(es[n - 1].0@, sub, sub.len() as nat)),
                ..nd
            },
            RawValue::Other => nd,
        }
    }
}

proof fn lemma_entries_ok_prefix(es: Vec<(String, RawValue)>, m: nat, n: nat)
    requires
        m <= n,
        entries_ok(es, n),
    ensures
        entries_ok(es, m),
    decreases n,
{
    if m < n {
        lemma_entries_ok_prefix(es, m, (n - 1) as nat);
    }
}

/// `e` is justified by the table `es` or a table below it: two entries share
/// the name it gives, or the entry of that name is of another kind or holds
/// a placeholder that is never closed.
pub open spec fn raw_error(es: Vec<(String, RawValue)>, e: LoadError) -> bool
    decreases es,
{
    ||| (e matches LoadError::DuplicateName(k) && exists|i: int, j: int|
        0 <= i < j < es.len() && es@[i].0@ == k@ && es@[j].0@ == k@)
    ||| exists|i: int|
        0 <= i < es.len() && match (#[trigger] es@[i]).1 {
            RawValue::Other => e matches LoadError::UnexpectedValue(k) && k@ == es@[i].0@,
            RawValue::Text(s) => scan(s@).in_placeholder && (e matches LoadError::Parse(k) && k@ == es@[i].0@),
            RawValue::Table(sub) => raw_error(sub, e),
        }
}

proof fn lemma_build_key(key: Seq<char>, es: Vec<(String, RawValue)>, n: nat)
    ensures
        build_node(key, es, n).key == key,
    decreases n,
{
    if n > 0 && n <= es.len() {
        lemma_build_key(key, es, (n - 1) as nat);
    }
}

/// A group built from entries whose names are distinct has distinct names,
/// each the name of one of the entries used.
proof fn lemma_build_well_formed(key: Seq<char>, es: Vec<(String, RawValue)>, n: nat)
    requires
        n <= es.len(),
        entries_ok(es, n),
    ensures
        ({
            let nd = build_node(key, es, n);
            &&& forall|j: int| 0 <= j < nd.values.len() ==> exists|i: int| 0 <= i < n && (#[trigger] nd.values[j]).0 == es@[i].0@
            &&& forall|j: int| 0 <= j < nd.groups.len() ==> exists|i: int| 0 <= i < n && (#[trigger] nd.groups[j]).key == es@[i].0@
            &&& well_formed(nd)
        }),
    decreases es, n,
{
    lemma_entries_ok_prefix(es, 0, n);
    if n > 0 {
        let m = (n - 1) as nat;
        lemma_build_well_formed(key, es, m);
        let prev = build_node(key, es, m);
        let nd = build_node(key, es, n);
        let name = es@[m as int].0@;
        assert forall|j: int| 0 <= j < prev.values.len() implies (#[trigger] prev.values[j]).0 != name by {
            let i = choose|i: int| 0 <= i < m && prev.values[j].0 == es@[i].0@;
            assert(es@[i].0@ != es@[m as int].0@);
        }
        assert forall|j: int| 0 <= j < prev.groups.len() implies (#[trigger] prev.groups[j]).key != name by {
            let i = choose|i: int| 0 <= i < m && prev.groups[j].key == es@[i].0@;
            assert(es@[i].0@ != es@[m as int].0@);
        }
        match es[m as int].1 {
            RawValue::Text(s) => {
                assert(nd.groups == prev.groups);
                assert forall|j: int| 0 <= j < nd.values.len() implies exists|i: int|
                    0 <= i < n && (#[trigger] nd.values[j]).0 == es@[i].0@ by {
                    if j < prev.values.len() {
                        assert(nd.values[j] == prev.values[j]);
                        let i = choose|i: int| 0 <= i < m && prev.values[j].0 == es@[i].0@;
                    } else {
                        assert(nd.values[j].0 == es@[m as int].0@);
                    }
                }
                assert forall|a: int, b: int| 0 <= a < b < nd.values.len() implies nd.values[a].0 != nd.values[b].0 by {
                    if b < prev.values.len() {
                        assert(nd.values[a] == prev.values[a]);
                        assert(nd.values[b] == prev.values[b]);
                    } else {
                        assert(nd.values[a] == prev.values[a]);
                    }
                }
            },
            RawValue::Table(sub) => {
                assert(nd.values == prev.values);
                let child = build_node(name, sub, sub.len() as nat);
                lemma_build_well_formed(name, sub, sub.len() as nat);
                lemma_build_key(name, sub, sub.len() as nat);
                assert forall|j: int| 0 <= j < nd.groups.len() implies exists|i: int|
                    0 <= i < n && (#[trigger] nd.groups[j]).key == es@[i].0@ by {
                    if j < prev.groups.len() {
                        assert(nd.groups[j] == prev.groups[j]);
                        let i = choose|i: int| 0 <= i < m && prev.groups[j].key == es@[i].0@;
                    } else {
                        assert(nd.groups[j] == child);
                    }
                }
                assert forall|a: int, b: int| 0 <= a < b < nd.groups.len() implies nd.groups[a].key != nd.groups[b].key by {
                    assert(nd.groups[a] == prev.groups[a]);
                    if b < prev.groups.len() {
                        assert(nd.groups[b] == prev.groups[b]);
                    } else {
                        assert(nd.groups[b] == child);
                    }
                }
                assert forall|j: int| 0 <= j < nd.groups.len() implies well_formed(#[trigger] nd.groups[j]) by {
                    if j < prev.groups.len() {
                        assert(nd.groups[j] == prev.groups[j]);
                    } else {
                        assert(nd.groups[j] == child);
                    }
                }
            },
            RawValue::Other => {},
        }
    } else {
        let nd = build_node(key, es, n);
        assert(nd.values.len() == 0 && nd.groups.len() == 0);
    }
}

fn has_duplicate_name(es: &Vec<(String, RawValue)>) -> (r: Option<usize>)
    ensures
        r is None <==> names_distinct(es@),
        r matches Some(j) ==> j < es.len() && exists|i: int| 0 <= i < j && es@[i].0@ == es@[j as int].0@,
{
    let mut j: usize = 0;
    while j < es.len()
        invariant
            0 <= j <= es.len(),
            forall|a: int, b: int| 0 <= a < b < j ==> (#[trigger] es@[a]).0@ != (#[trigger] es@[b]).0@,
        decreases es.len() - j,
    {
        let mut i: usize = 0;
        while i < j
            invariant
                0 <= i <= j < es.len(),
                forall|a: int| 0 <= a < i ==> (#[trigger] es@[a]).0@ != es@[j as int].0@,
            decreases j - i,
        {
            if es[i].0 == es[j].0 {
                return Some(j);
            }
            i = i + 1;
        }
        j = j + 1;
    }
    None
}

impl Local {
    /// Loads a locale from its source tree: one entry, named after the
    /// locale, whose value is the table of its leaves and groups.
    pub fn load(tree: &Vec<(String, RawValue)>) -> (r: Result<Local, LoadError>)
        ensures
            tree.len() != 1 ==> r == Err::<Local, LoadError>(LoadError::TopLevel),
            tree.len() == 1 && !(tree[0].1 is Table) ==> (r matches Err(LoadError::UnexpectedValue(k))
                && k@ == tree[0].0@),
            tree.len() == 1 ==> (tree[0].1 matches RawValue::Table(es) ==> {
                &&& (r is Ok <==> entries_ok(es, es.len() as nat))
                &&& (r matches Ok(l) ==> l.root@ == build_node(tree[0].0@, es, es.len() as nat))
            }),
            r matches Ok(l) ==> well_formed(l.root@),
            tree.len() == 1 ==> (tree[0].1 matches RawValue::Table(es) ==> (r matches Err(e) ==> raw_error(es, e))),
    {
        if tree.len() != 1 {
            return Err(LoadError::TopLevel);
        }
        match &tree[0].1 {
            RawValue::Table(es) => {
                match Local::fill_item(&tree[0].0, es) {
                    Ok(root) => {
                        proof {
                            lemma_build_well_formed(tree[0].0@, *es, es.len() as nat);
                        }
                        Ok(Local { root })
                    },
                    Err(e) => Err(e),
                }
            },
            _ => Err(LoadError::UnexpectedValue(tree[0].0.clone())),
        }
    }

    /// Builds the group `key` from the entries of a table.
    fn fill_item(key: &String, entries: &Vec<(String, RawValue)>) -> (r: Result<Item, LoadError>)
        ensures
            r is Ok <==> entries_ok(*entries, entries.len() as nat),
            r matches Ok(it) ==> it@ == build_node(key@, *entries, entries.len() as nat),
            r matches Err(e) ==> raw_error(*entries, e),
        decreases entries,
    {
        if let Some(j) = has_duplicate_name(entries) {
            proof {
                if entries_ok(*entries, entries.len() as nat) {
                    lemma_entries_ok_prefix(*entries, 0, entries.len() as nat);
                }
            }
            let name = entries[j].0.clone();
            assert(raw_error(*entries, LoadError::DuplicateName(name)));
            return Err(LoadError::DuplicateName(name));
        }
        let mut item = Item { key: key.clone(), values: Vec::new(), groups: Vec::new() };
        assert(item@.values =~= Seq::empty());
        assert(item@.groups =~= Seq::empty());
        let mut i: usize = 0;
        while i < entries.len()
            invariant
                0 <= i <= entries.len(),
                entries_ok(*entries, i as nat),
                item@ == build_node(key@, *entries, i as nat),
            decreases entries.len() - i,
        {
            let ghost before = item;
            match &entries[i].1 {
                RawValue::Text(s) => {
                    match ItemValue::parse(s.as_str()) {
                        Ok(v) => {
                            item.values.push((entries[i].0.clone(), v));
                            assert(item@.values =~= before@.values.push((entries@[i as int].0@, v@)));
                            assert(item@.groups =~= before@.groups);
                        },
                        Err(_) => {
                            proof {
                                if entries_ok(*entries, entries.len() as nat) {
                                    lemma_entries_ok_prefix(*entries, (i + 1) as nat, entries.len() as nat);
                                }
                            }
                            let name = entries[i].0.clone();
                            assert(match entries@[i as int].1 {
                                RawValue::Text(s) => scan(s@).in_placeholder && (LoadError::Parse(name) matches LoadError::Parse(k) && k@ == entries@[i as int].0@),
                                _ => false,
                            });
                            assert(raw_error(*entries, LoadError::Parse(name)));
                            return Err(LoadError::Parse(name));
                        },
                    }
                },
                RawValue::Table(sub) => {
                    match Local::fill_item(&entries[i].0, sub) {
                        Ok(child) => {
                            item.groups.push(child);
                            assert(item@.values =~= before@.values);
                            assert(item@.groups =~= before@.groups.push(child@));
                        },
                        Err(e) => {
                            proof {
                                if entries_ok(*entries, entries.len() as nat) {
                                    lemma_entries_ok_prefix(*entries, (i + 1) as nat, entries.len() as nat);
                                }
                            }
                            assert(raw_error(*sub, e));
                            assert(match entries@[i as int].1 {
                                RawValue::Table(sub) => raw_error(sub, e),
                                _ => false,
                            });
                            assert(raw_error(*entries, e));
                            return Err(e);
                        },
                    }
                },
                RawValue::Other => {
                    proof {
                        if entries_ok(*entries, entries.len() as nat) {
                            lemma_entries_ok_prefix(*entries, (i + 1) as nat, entries.len() as nat);
                        }
                    }
                    let name = entries[i].0.clone();
                    assert(match entries@[i as int].1 {
                        RawValue::Other => LoadError::UnexpectedValue(name) matches LoadError::UnexpectedValue(k) && k@ == entries@[i as int].0@,
                        _ => false,
                    });
                    assert(raw_error(*entries, LoadError::UnexpectedValue(name)));
                    return Err(LoadError::UnexpectedValue(name));
                },
            }
            i = i + 1;
        }
        Ok(item)
    }
}


/// The position of the first leaf named `name` among the first `n`, or -1.
pub open spec fn find_leaf(vs: Seq<(Seq<char>, LeafModel)>, name: Seq<char>, n: nat) -> int
    decreases n,
{
    if n == 0 {
        -1
    } else {
        let r = find_leaf(vs, name, (n - 1) as nat);
        if r >= 0 {
            r
        } else if vs[n - 1].0 == name {
            n - 1
        } else {
            -1
        }
    }
}

/// The position of the first group keyed `key` among the first `n`, or -1.
pub open spec fn find_group(gs: Seq<NodeModel>, key: Seq<char>, n: nat) -> int
    decreases n,
{
    if n == 0 {
        -1
    } else {
        let r = find_group(gs, key, (n - 1) as nat);
        if r >= 0 {
            r
        } else if gs[n - 1].key == key {
            n - 1
        } else {
            -1
        }
    }
}

pub open spec fn leaf_pos(n: NodeModel, name: Seq<char>) -> int {
    find_leaf(n.values, name, n.values.len())
}

pub open spec fn group_pos(n: NodeModel, key: Seq<char>) -> int {
    find_group(n.groups, key, n.groups.len())
}

proof fn lemma_find_leaf(vs: Seq<(Seq<char>, LeafModel)>, name: Seq<char>, n: nat)
    requires
        n <= vs.len(),
    ensures
        -1 <= find_leaf(vs, name, n) < n,
        find_leaf(vs, name, n) >= 0 ==> vs[find_leaf(vs, name, n)].0 == name,
        find_leaf(vs, name, n) < 0 <==> forall|i: int| 0 <= i < n ==> vs[i].0 != name,
        forall|i: int| 0 <= i < n && vs[i].0 == name ==> find_leaf(vs, name, n) <= i,
    decreases n,
{
    if n > 0 {
        lemma_find_leaf(vs, name, (n - 1) as nat);
    }
}

proof fn lemma_find_group(gs: Seq<NodeModel>, key: Seq<char>, n: nat)
    requires
        n <= gs.len(),
    ensures
        -1 <= find_group(gs, key, n) < n,
        find_group(gs, key, n) >= 0 ==> gs[find_group(gs, key, n)].key == key,
        find_group(gs, key, n) < 0 <==> forall|i: int| 0 <= i < n ==> gs[i].key != key,
        forall|i: int| 0 <= i < n && gs[i].key == key ==> find_group(gs, key, n) <= i,
    decreases n,
{
    if n > 0 {
        lemma_find_group(gs, key, (n - 1) as nat);
    }
}

/// The group reached from `n` by following `path`, each step to the first
/// subgroup with that key.
pub open spec fn node_at(n: NodeModel, path: Seq<Seq<char>>) -> Option<NodeModel>
    decreases path.len(),
{
    if path.len() == 0 {
        Some(n)
    } else {
        let j = group_pos(n, path[0]);
        if j < 0 {
            None
        } else {
            node_at(n.groups[j], path.drop_first())
        }
    }
}

/// The group path `path` can be followed from `n`.
pub open spec fn has_group_path(n: NodeModel, path: Seq<Seq<char>>) -> bool {
    node_at(n, path) is Some
}

/// A leaf named `key` stands in the group that `path` leads to.
pub open spec fn has_leaf_path(n: NodeModel, path: Seq<Seq<char>>, key: Seq<char>) -> bool {
    node_at(n, path) matches Some(m) && leaf_pos(m, key) >= 0
}

/// Every leaf and every subgroup of `d` has a counterpart of the same name in
/// `o`, and each subgroup is covered in turn by its counterpart.
pub open spec fn covers(d: NodeModel, o: NodeModel) -> bool
    decreases d,
{
    &&& forall|i: int| 0 <= i < d.values.len() ==> leaf_pos(o, #[trigger] d.values[i].0) >= 0
    &&& forall|i: int|
        0 <= i < d.groups.len() ==> {
            let j = group_pos(o, #[trigger] d.groups[i].key);
            j >= 0 && covers(d.groups[i], o.groups[j])
        }
}

/// Names are unique among the leaves and among the subgroups of every group.
pub open spec fn well_formed(n: NodeModel) -> bool
    decreases n,
{
    &&& forall|i: int, j: int| 0 <= i < j < n.values.len() ==> n.values[i].0 != n.values[j].0
    &&& forall|i: int, j: int| 0 <= i < j < n.groups.len() ==> n.groups[i].key != n.groups[j].key
    &&& forall|i: int| 0 <= i < n.groups.len() ==> well_formed(#[trigger] n.groups[i])
}

/// What a non-default locale lacks of the default one.
#[derive(Debug, PartialEq, Eq)]
pub enum MismatchError {
    /// The group at `path` of locale `local` has no leaf `key`.
    MissingKey { local: String, path: Vec<String>, key: String },
    /// Locale `local` has no group at `path`.
    MissingGroup { local: String, path: Vec<String> },
}

pub open spec fn path_model(p: Seq<String>) -> Seq<Seq<char>> {
    p.map_values(|s: String| s@)
}

impl Item {
    /// The leaf named `name`, if any (the first, should there be several).
    pub fn value(&self, name: &String) -> (r: Option<&ItemValue>)
        ensures
            leaf_pos(self@, name@) < 0 ==> r is None,
            leaf_pos(self@, name@) >= 0 ==> (r matches Some(v) && v@ == self@.values[leaf_pos(self@, name@)].1),
    {
        let mut i: usize = 0;
        while i < self.values.len()
            invariant
                0 <= i <= self.values.len(),
                find_leaf(self@.values, name@, i as nat) < 0,
            decreases self.values.len() - i,
        {
            assert(self@.values[i as int].0 == self.values@[i as int].0@);
            if self.values[i].0 == *name {
                proof {
                    lemma_find_leaf(self@.values, name@, i as nat);
                    lemma_find_leaf(self@.values, name@, self@.values.len());
                }
                return Some(&self.values[i].1);
            }
            i = i + 1;
        }
        None
    }

    /// The position of the subgroup keyed `key`, if any (the first, should
    /// there be several).
    pub fn group_index(&self, key: &String) -> (r: Option<usize>)
        ensures
            group_pos(self@, key@) < 0 ==> r is None,
            group_pos(self@, key@) >= 0 ==> r == Some(group_pos(self@, key@) as usize),
    {
        let mut i: usize = 0;
        while i < self.groups.len()
            invariant
                0 <= i <= self.groups.len(),
                find_group(self@.groups, key@, i as nat) < 0,
            decreases self.groups.len() - i,
        {
            assert(self@.groups[i as int] == self.groups@[i as int]@);
            if self.groups[i].key == *key {
                proof {
                    lemma_find_group(self@.groups, key@, i as nat);
                    lemma_find_group(self@.groups, key@, self@.groups.len());
                }
                return Some(i);
            }
            i = i + 1;
        }
        None
    }

    /// The subgroup keyed `key`, if any.
    pub fn group(&self, key: &String) -> (r: Option<&Item>)
        ensures
            group_pos(self@, key@) < 0 ==> r is None,
            group_pos(self@, key@) >= 0 ==> (r matches Some(g) && g@ == self@.groups[group_pos(self@, key@)]),
    {
        proof {
            lemma_find_group(self@.groups, key@, self@.groups.len());
        }
        match self.group_index(key) {
            Some(j) => {
                assert(self@.groups[j as int] == self.groups@[j as int]@);
                Some(&self.groups[j])
            },
            None => None,
        }
    }
}

/// The part of `path` below its first `n` steps.
pub open spec fn rel_path(path: Seq<String>, n: nat) -> Seq<Seq<char>> {
    path_model(path).subrange(n as int, path.len() as int)
}

fn path_with(prefix: &Vec<String>, key: &String) -> (r: Vec<String>)
    ensures
        path_model(r@) == path_model(prefix@).push(key@),
{
    let mut r = prefix.clone();
    assert(r@ =~= prefix@);
    r.push(key.clone());
    assert(path_model(r@) =~= path_model(prefix@).push(key@));
    r
}

/// Checks that `o` covers `d`; `prefix` is the path of `d` in its locale.
fn check_node(d: &Item, o: &Item, local: &String, prefix: &Vec<String>) -> (r: Result<(), MismatchError>)
    ensures
        r is Ok <==> covers(d@, o@),
        r matches Err(MismatchError::MissingKey { local: l, path, key }) ==> l@ == local@
            && path.len() >= prefix.len()
            && path_model(path@).subrange(0, prefix.len() as int) == path_model(prefix@)
            && !has_leaf_path(o@, rel_path(path@, prefix.len() as nat), key@)
            && has_group_path(o@, rel_path(path@, prefix.len() as nat))
            && (well_formed(d@) ==> has_leaf_path(d@, rel_path(path@, prefix.len() as nat), key@)),
        r matches Err(MismatchError::MissingGroup { local: l, path }) ==> l@ == local@
            && path.len() >= prefix.len()
            && path_model(path@).subrange(0, prefix.len() as int) == path_model(prefix@)
            && path.len() > prefix.len()
            && !has_group_path(o@, rel_path(path@, prefix.len() as nat))
            && has_group_path(o@, rel_path(path@, prefix.len() as nat).drop_last())
            && (well_formed(d@) ==> has_group_path(d@, rel_path(path@, prefix.len() as nat))),
    decreases d,
{
    let mut i: usize = 0;
    while i < d.values.len()
        invariant
            0 <= i <= d.values.len(),
            forall|k: int| 0 <= k < i ==> leaf_pos(o@, #[trigger] d@.values[k].0) >= 0,
        decreases d.values.len() - i,
    {
        assert(d@.values[i as int].0 == d.values@[i as int].0@);
        if o.value(&d.values[i].0).is_none() {
            assert(path_model(prefix@).subrange(0, prefix.len() as int) =~= path_model(prefix@));
            assert(rel_path(prefix@, prefix.len() as nat) =~= Seq::<Seq<char>>::empty());
            proof {
                if well_formed(d@) {
                    lemma_find_leaf(d@.values, d@.values[i as int].0, d@.values.len());
                    assert(leaf_pos(d@, d@.values[i as int].0) >= 0);
                }
            }
            return Err(MismatchError::MissingKey {
                local: local.clone(),
                path: prefix.clone(),
                key: d.values[i].0.clone(),
            });
        }
        i = i + 1;
    }
    let mut g: usize = 0;
    while g < d.groups.len()
        invariant
            0 <= g <= d.groups.len(),
            forall|k: int| 0 <= k < d@.values.len() ==> leaf_pos(o@, #[trigger] d@.values[k].0) >= 0,
            forall|k: int|
                0 <= k < g ==> {
                    let j = group_pos(o@, #[trigger] d@.groups[k].key);
                    j >= 0 && covers(d@.groups[k], o@.groups[j])
                },
        decreases d.groups.len() - g,
    {
        let dg = &d.groups[g];
        assert(d@.groups[g as int] == dg@);
        let path = path_with(prefix, &dg.key);
        assert(path_model(path@).len() == path@.len() && path_model(prefix@).len() == prefix@.len());
        assert(path_model(path@)[prefix.len() as int] == dg.key@);
        match o.group_index(&dg.key) {
            None => {
                let ghost rel = seq![dg.key@];
                assert(path_model(path@).subrange(0, prefix.len() as int) =~= path_model(prefix@));
                assert(rel_path(path@, prefix.len() as nat) =~= rel);
                assert(rel.drop_first() =~= Seq::<Seq<char>>::empty());
                assert(rel[0] == d@.groups[g as int].key);
                assert(group_pos(o@, d@.groups[g as int].key) < 0);
                assert(!has_group_path(o@, rel));
                assert(rel.drop_last() =~= Seq::<Seq<char>>::empty());
                proof {
                    if well_formed(d@) {
                        lemma_find_group(d@.groups, dg.key@, d@.groups.len());
                        let jd = group_pos(d@, dg.key@);
                        assert(jd == g);
                        assert(node_at(d@.groups[g as int], rel.drop_first()) is Some);
                        assert(has_group_path(d@, rel));
                    }
                }
                return Err(MismatchError::MissingGroup { local: local.clone(), path });
            },
            Some(j) => {
                proof {
                    lemma_find_group(o@.groups, dg.key@, o@.groups.len());
                }
                assert(o@.groups[j as int] == o.groups@[j as int]@);
                match check_node(dg, &o.groups[j], local, &path) {
                    Ok(()) => {},
                    Err(e) => {
                        assert(group_pos(o@, d@.groups[g as int].key) == j);
                        assert(!covers(d@, o@));
                        proof {
                            lemma_find_group(d@.groups, dg.key@, d@.groups.len());
                            if well_formed(d@) {
                                assert(group_pos(d@, dg.key@) == g);
                            }
                            match &e {
                                MismatchError::MissingKey { local: l, path: p, key } => {
                                    let rel0 = rel_path(p@, path.len() as nat);
                                    let rel = rel_path(p@, prefix.len() as nat);
                                    assert(path_model(p@).subrange(0, path.len() as int)[prefix.len() as int]
                                        == path_model(p@)[prefix.len() as int]);
                                    assert(rel =~= seq![dg.key@] + rel0);
                                    assert(rel.drop_first() =~= rel0);
                                    assert(path_model(p@).subrange(0, prefix.len() as int) =~= path_model(
                                        path@,
                                    ).subrange(0, prefix.len() as int));
                                    lemma_node_at_step(o@, dg.key@, rel0);
                                },
                                MismatchError::MissingGroup { local: l, path: p } => {
                                    let rel0 = rel_path(p@, path.len() as nat);
                                    let rel = rel_path(p@, prefix.len() as nat);
                                    assert(path_model(p@).subrange(0, path.len() as int)[prefix.len() as int]
                                        == path_model(p@)[prefix.len() as int]);
                                    assert(rel =~= seq![dg.key@] + rel0);
                                    assert(rel.drop_first() =~= rel0);
                                    assert(path_model(p@).subrange(0, prefix.len() as int) =~= path_model(
                                        path@,
                                    ).subrange(0, prefix.len() as int));
                                    assert(rel.drop_last() =~= seq![dg.key@] + rel0.drop_last());
                                    lemma_node_at_step(o@, dg.key@, rel0.drop_last());
                                },
                            }
                        }
                        return Err(e);
                    },
                }
            },
        }
        g = g + 1;
    }
    Ok(())
}

/// `e` names the locale keyed `okey` and the shortest path that `o` lacks:
/// a missing leaf of a group that `o` has, or a missing group whose parent
/// `o` has. When the default tree `d` is well formed, `d` has that path.
pub open spec fn mismatch_describes(e: MismatchError, d: NodeModel, o: NodeModel, okey: Seq<char>) -> bool {
    match e {
        MismatchError::MissingKey { local, path, key } => {
            &&& local@ == okey
            &&& !has_leaf_path(o, path_model(path@), key@)
            &&& has_group_path(o, path_model(path@))
            &&& well_formed(d) ==> has_leaf_path(d, path_model(path@), key@)
        },
        MismatchError::MissingGroup { local, path } => {
            &&& local@ == okey
            &&& path@.len() > 0
            &&& !has_group_path(o, path_model(path@))
            &&& has_group_path(o, path_model(path@).drop_last())
            &&& well_formed(d) ==> has_group_path(d, path_model(path@))
        },
    }
}

impl Local {
    /// Checks that every leaf and group of this (default) locale is present in
    /// `other`. Extra entries of `other` are allowed.
    pub fn check_matching(&self, other: &Local) -> (r: Result<(), MismatchError>)
        ensures
            r is Ok <==> covers(self.root@, other.root@),
            r matches Err(e) ==> mismatch_describes(e, self.root@, other.root@, other.root.key@),
    {
        let prefix: Vec<String> = Vec::new();
        let r = check_node(&self.root, &other.root, &other.root.key, &prefix);
        assert(path_model(prefix@) =~= Seq::<Seq<char>>::empty());
        proof {
            match &r {
                Err(MismatchError::MissingKey { local: l, path, key }) => {
                    assert(rel_path(path@, 0) =~= path_model(path@));
                },
                Err(MismatchError::MissingGroup { local: l, path }) => {
                    assert(rel_path(path@, 0) =~= path_model(path@));
                },
                _ => {},
            }
        }
        r
    }
}


proof fn lemma_node_at_step(n: NodeModel, k: Seq<char>, p: Seq<Seq<char>>)
    ensures
        group_pos(n, k) < 0 ==> node_at(n, seq![k] + p) is None,
        group_pos(n, k) >= 0 ==> node_at(n, seq![k] + p) == node_at(n.groups[group_pos(n, k)], p),
{
    assert((seq![k] + p)[0] == k);
    assert((seq![k] + p).drop_first() =~= p);
}

proof fn lemma_covers_path(d: NodeModel, o: NodeModel, path: Seq<Seq<char>>)
    requires
        covers(d, o),
        node_at(d, path) is Some,
    ensures
        node_at(o, path) is Some,
        covers(node_at(d, path)->0, node_at(o, path)->0),
    decreases path.len(),
{
    if path.len() > 0 {
        let k = path[0];
        let jd = group_pos(d, k);
        lemma_find_group(d.groups, k, d.groups.len());
        assert(d.groups[jd].key == k);
        let jo = group_pos(o, d.groups[jd].key);
        lemma_find_group(o.groups, k, o.groups.len());
        lemma_covers_path(d.groups[jd], o.groups[jo], path.drop_first());
    }
}

proof fn lemma_paths_cover(d: NodeModel, o: NodeModel)
    requires
        well_formed(d),
        forall|p: Seq<Seq<char>>| has_group_path(d, p) ==> has_group_path(o, p),
        forall|p: Seq<Seq<char>>, k: Seq<char>| has_leaf_path(d, p, k) ==> has_leaf_path(o, p, k),
    ensures
        covers(d, o),
    decreases d,
{
    let e = Seq::<Seq<char>>::empty();
    assert forall|i: int| 0 <= i < d.values.len() implies leaf_pos(o, #[trigger] d.values[i].0) >= 0 by {
        lemma_find_leaf(d.values, d.values[i].0, d.values.len());
        assert(has_leaf_path(d, e, d.values[i].0));
        assert(has_leaf_path(o, e, d.values[i].0));
    }
    assert forall|i: int| 0 <= i < d.groups.len() implies {
        let j = group_pos(o, #[trigger] d.groups[i].key);
        j >= 0 && covers(d.groups[i], o.groups[j])
    } by {
        let k = d.groups[i].key;
        lemma_find_group(d.groups, k, d.groups.len());
        lemma_find_group(o.groups, k, o.groups.len());
        assert(group_pos(d, k) == i);
        lemma_node_at_step(d, k, e);
        lemma_node_at_step(o, k, e);
        assert(seq![k] + e =~= seq![k]);
        assert(has_group_path(d, seq![k]));
        assert(has_group_path(o, seq![k]));
        let j = group_pos(o, k);
        let dg = d.groups[i];
        let og = o.groups[j];
        assert forall|p: Seq<Seq<char>>| has_group_path(dg, p) implies has_group_path(og, p) by {
            lemma_node_at_step(d, k, p);
            lemma_node_at_step(o, k, p);
            assert(has_group_path(d, seq![k] + p));
        }
        assert forall|p: Seq<Seq<char>>, key: Seq<char>| has_leaf_path(dg, p, key) implies has_leaf_path(
            og,
            p,
            key,
        ) by {
            lemma_node_at_step(d, k, p);
            lemma_node_at_step(o, k, p);
            assert(has_leaf_path(d, seq![k] + p, key));
        }
        lemma_paths_cover(dg, og);
    }
}

/// The consistency check passes exactly when every group path and every leaf
/// that can be reached in the default tree `d` can be reached in `o`; what
/// only `o` holds does not matter.
pub proof fn lemma_check_is_path_inclusion(d: NodeModel, o: NodeModel)
    requires
        well_formed(d),
    ensures
        covers(d, o) <==> (forall|p: Seq<Seq<char>>| has_group_path(d, p) ==> has_group_path(o, p))
            && (forall|p: Seq<Seq<char>>, k: Seq<char>| has_leaf_path(d, p, k) ==> has_leaf_path(o, p, k)),
{
    if covers(d, o) {
        assert forall|p: Seq<Seq<char>>| has_group_path(d, p) implies has_group_path(o, p) by {
            lemma_covers_path(d, o, p);
        }
        assert forall|p: Seq<Seq<char>>, k: Seq<char>| has_leaf_path(d, p, k) implies has_leaf_path(o, p, k) by {
            lemma_covers_path(d, o, p);
            let m = node_at(d, p)->0;
            let mo = node_at(o, p)->0;
            lemma_find_leaf(m.values, k, m.values.len());
            assert(m.values[leaf_pos(m, k)].0 == k);
        }
    }
    if (forall|p: Seq<Seq<char>>| has_group_path(d, p) ==> has_group_path(o, p))
        && (forall|p: Seq<Seq<char>>, k: Seq<char>| has_leaf_path(d, p, k) ==> has_leaf_path(o, p, k)) {
        lemma_paths_cover(d, o);
    }
}

} // verus!
