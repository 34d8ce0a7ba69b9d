use vstd::prelude::*;
use vstd::string::*;
use crate::emit::{all_distinct, clashing_slot, code_text, generate_code, slots};
use crate::model::{Local, MismatchError, covers, mismatch_describes};

verus! {

/// Generator configuration.
pub struct Config {
    /// File name, without extension, of the default locale. Its tree is the
    /// scheme that every other locale is checked against.
    ///
    /// Default: "en-EN"
    pub default_local_file: String,
    /// When true, `allow(dead_code)` is written at the top of the generated
    /// module.
    ///
    /// Default: true
    pub dead_code_attr: bool,
    /// Paths written as `use` items at the top of the generated module, for
    /// custom argument types.
    pub imports: Vec<String>,
}

impl Default for Config {
    fn default() -> (r: Config)
        ensures
            r.default_local_file@ == "en-EN"@,
            r.dead_code_attr,
            r.imports@.len() == 0,
    {
        Config { default_local_file: String::from_str("en-EN"), dead_code_attr: true, imports: Vec::new() }
    }
}

/// Why no module is generated.
#[derive(Debug, PartialEq, Eq)]
pub enum GenError {
    /// No locale has the default key.
    NoDefault,
    /// Two locales have this key.
    DuplicateLocale(String),
    /// A locale lacks a leaf or a group of the default one.
    Mismatch(MismatchError),
    /// Two leaves of the default locale would get a slot of this name, as
    /// group `a` with leaf `b_c` and group `a_b` with leaf `c` do.
    NameClash(String),
}

/// The keys of the locales.
pub open spec fn keys_of(locals: Seq<Local>) -> Seq<Seq<char>> {
    locals.map_values(|l: Local| l.root.key@)
}

/// Some two locales share a key.
pub open spec fn has_duplicate_key(locals: Seq<Local>) -> bool {
    exists|i: int, j: int| 0 <= i < j < locals.len() && locals[i].root.key@ == locals[j].root.key@
}

/// The locales with the one at `p` moved to the front, the others in order.
pub open spec fn default_first(locals: Seq<Local>, p: int) -> Seq<Local> {
    seq![locals[p]] + locals.remove(p)
}

/// The position of the locale keyed `key`, when the keys are distinct.
pub open spec fn key_pos(locals: Seq<Local>, key: Seq<char>) -> int {
    choose|p: int| 0 <= p < locals.len() && locals[p].root.key@ == key
}

fn find_locale(locals: &Vec<Local>, key: &String) -> (r: Option<usize>)
    ensures
        r is None <==> !keys_of(locals@).contains(key@),
        r matches Some(p) ==> p < locals.len() && locals@[p as int].root.key@ == key@ && forall|k: int|
            0 <= k < p ==> locals@[k].root.key@ != key@,
{
    let mut p: usize = 0;
    while p < locals.len()
        invariant
            0 <= p <= locals.len(),
            forall|k: int| 0 <= k < p ==> locals@[k].root.key@ != key@,
        decreases locals.len() - p,
    {
        if locals[p].root.key == *key {
            assert(keys_of(locals@)[p as int] == key@);
            return Some(p);
        }
        p = p + 1;
    }
    proof {
        if keys_of(locals@).contains(key@) {
            let k = choose|k: int| 0 <= k < keys_of(locals@).len() && keys_of(locals@)[k] == key@;
            assert(locals@[k].root.key@ == key@);
        }
    }
    None
}

fn find_duplicate(locals: &Vec<Local>) -> (r: Option<usize>)
    ensures
        r is None <==> !has_duplicate_key(locals@),
        r matches Some(j) ==> j < locals.len() && exists|i: int| 0 <= i < j && locals@[i].root.key@ == locals@[j as int].root.key@,
{
    let mut j: usize = 1;
    while j < locals.len()
        invariant
            1 <= j,
            j <= locals.len() || locals.len() == 0,
            forall|a: int, b: int| 0 <= a < b < j && b < locals.len() ==> locals@[a].root.key@ != locals@[b].root.key@,
        decreases locals.len() - j,
    {
        let mut i: usize = 0;
        while i < j
            invariant
                0 <= i <= j < locals.len(),
                forall|a: int| 0 <= a < i ==> locals@[a].root.key@ != locals@[j as int].root.key@,
            decreases j - i,
        {
            if locals[i].root.key == locals[j].root.key {
                return Some(j);
            }
            i = i + 1;
        }
        j = j + 1;
    }
    None
}

/// Checks the locales and generates the module for them. The locale keyed
/// `default_key` becomes the first one; every other locale must have each
/// leaf and group of it, and the leaves of the default locale must get
/// distinct slot names.
pub fn generate(locals: Vec<Local>, default_key: &String, config: &Config) -> (r: Result<String, GenError>)
    ensures
        (r == Err::<String, GenError>(GenError::NoDefault)) <==> !keys_of(locals@).contains(default_key@),
        keys_of(locals@).contains(default_key@) && has_duplicate_key(locals@) ==> (r matches Err(
            GenError::DuplicateLocale(k),
        ) && exists|i: int, j: int|
            0 <= i < j < locals.len() && locals@[i].root.key@ == k@ && locals@[j].root.key@ == k@),
        keys_of(locals@).contains(default_key@) && !has_duplicate_key(locals@) ==> ({
            let ord = default_first(locals@, key_pos(locals@, default_key@));
            let all_cover = forall|j: int| 1 <= j < ord.len() ==> covers(ord[0].root@, #[trigger] ord[j].root@);
            let s = slots(ord[0].root@, Seq::empty());
            &&& (r is Ok <==> all_cover && all_distinct(s))
            &&& (r matches Ok(code) ==> code@ == code_text(ord, *config))
            &&& (r matches Err(GenError::Mismatch(m)) ==> exists|j: int|
                1 <= j < ord.len() && !covers(ord[0].root@, ord[j].root@) && mismatch_describes(
                    m,
                    ord[0].root@,
                    ord[j].root@,
                    ord[j].root.key@,
                ))
            &&& (r matches Err(GenError::NameClash(k)) ==> all_cover && exists|a: int, b: int|
                0 <= a < b < s.len() && s[a] == k@ && s[b] == k@)
            &&& (r matches Err(e) ==> (e is Mismatch || e is NameClash))
        }),
{
    let p = match find_locale(&locals, default_key) {
        Some(p) => p,
        None => {
            return Err(GenError::NoDefault);
        },
    };
    if let Some(j) = find_duplicate(&locals) {
        return Err(GenError::DuplicateLocale(locals[j].root.key.clone()));
    }
    assert(!has_duplicate_key(locals@));
    assert(key_pos(locals@, default_key@) == p) by {
        let q = key_pos(locals@, default_key@);
        assert(locals@[p as int].root.key@ == default_key@);
        if q != p {
            if q < p {
                assert(locals@[q].root.key@ != default_key@);
            } else {
                assert(locals@[p as int].root.key@ != locals@[q].root.key@);
            }
        }
    }
    let ghost orig = locals@;
    let mut ordered = locals;
    let d = ordered.remove(p);
    ordered.insert(0, d);
    assert(ordered@ =~= default_first(orig, p as int));
    let mut k: usize = 1;
    while k < ordered.len()
        invariant
            1 <= k <= ordered.len(),
            orig == locals@,
            ordered@ == default_first(orig, p as int),
            keys_of(orig).contains(default_key@),
            !has_duplicate_key(orig),
            key_pos(orig, default_key@) == p,
            forall|q: int| 1 <= q < k ==> covers(ordered@[0].root@, #[trigger] ordered@[q].root@),
        decreases ordered.len() - k,
    {
        match ordered[0].check_matching(&ordered[k]) {
            Ok(()) => {},
            Err(e) => {
                return Err(GenError::Mismatch(e));
            },
        }
        k = k + 1;
    }
    if let Some(k) = clashing_slot(&ordered[0].root) {
        return Err(GenError::NameClash(k));
    }
    Ok(generate_code(&ordered, config))
}

} // verus!
