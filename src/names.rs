use vstd::prelude::*;
use vstd::string::*;
use crate::template::{ArgModel, ItemArg, args_model, is_ref_type, push_char};

verus! {

/// What `str::to_lowercase` makes of a text.
pub uninterp spec fn lower_of(s: Seq<char>) -> Seq<char>;

/// Relies on str::to_lowercase: the lowercase form depends on the characters
/// alone.
#[verifier::external_body]
fn to_lowercase(s: &str) -> (r: String)
    ensures
        r@ == lower_of(s@),
{
    s.to_lowercase()
}

/// `s` with every space and dash turned into an underscore.
pub open spec fn underscored(s: Seq<char>) -> Seq<char> {
    s.map_values(|c: char| if c == ' ' || c == '-' { '_' } else { c })
}

/// The identifier made of a key: underscores for spaces and dashes, then
/// lowercase.
pub open spec fn ident_of(s: Seq<char>) -> Seq<char> {
    lower_of(underscored(s))
}

fn underscore(s: &str) -> (r: String)
    ensures
        r@ == underscored(s@),
{
    let n = s.unicode_len();
    let mut r = String::new();
    let mut i: usize = 0;
    while i < n
        invariant
            0 <= i <= n,
            n == s@.len(),
            r@ == underscored(s@.subrange(0, i as int)),
        decreases n - i,
    {
        let c = s.get_char(i);
        if c == ' ' || c == '-' {
            push_char(&mut r, '_');
        } else {
            push_char(&mut r, c);
        }
        assert(underscored(s@.subrange(0, i + 1)) =~= underscored(s@.subrange(0, i as int)).push(
            if c == ' ' || c == '-' { '_' } else { c },
        ));
        i = i + 1;
    }
    assert(s@.subrange(0, n as int) =~= s@);
    r
}

/// The module name for a locale key or a group key.
pub fn create_mod_name(s: &str) -> (r: String)
    ensures
        r@ == ident_of(s@),
{
    let u = underscore(s);
    to_lowercase(u.as_str())
}

/// The function name for a leaf key.
pub fn create_fn_name(s: &str) -> (r: String)
    ensures
        r@ == ident_of(s@),
{
    let u = underscore(s);
    to_lowercase(u.as_str())
}

/// The parts joined with `sep` between each two.
pub open spec fn join(parts: Seq<Seq<char>>, sep: Seq<char>) -> Seq<char>
    decreases parts.len(),
{
    if parts.len() == 0 {
        Seq::empty()
    } else if parts.len() == 1 {
        parts[0]
    } else {
        join(parts.drop_last(), sep) + sep + parts.last()
    }
}

/// The parts, each followed by `sep`.
pub open spec fn concat_with(parts: Seq<Seq<char>>, sep: Seq<char>) -> Seq<char>
    decreases parts.len(),
{
    if parts.len() == 0 {
        Seq::empty()
    } else {
        concat_with(parts.drop_last(), sep) + parts.last() + sep
    }
}

/// Text of an argument list: `prefix` before each name.
pub open spec fn arg_names_text(prefix: Seq<char>, args: Seq<ArgModel>) -> Seq<char> {
    join(args.map_values(|a: ArgModel| prefix + a.0), ", "@)
}

/// Text of the argument types: `u32, &str`.
pub open spec fn arg_types_text(args: Seq<ArgModel>) -> Seq<char> {
    join(args.map_values(|a: ArgModel| a.1), ", "@)
}

/// The type of an argument as a parameter: a borrowed type is written `&`,
/// the lifetime, a space, then the type without its `&`.
pub open spec fn param_type(lifetime: Seq<char>, typ: Seq<char>) -> Seq<char> {
    if is_ref_type(typ) {
        "&"@ + lifetime + " "@ + typ.drop_first()
    } else {
        typ
    }
}

/// Text of a parameter list: `val1: u32, val2: &'a str`.
pub open spec fn params_text(lifetime: Seq<char>, args: Seq<ArgModel>) -> Seq<char> {
    join(args.map_values(|a: ArgModel| a.0 + ": "@ + param_type(lifetime, a.1)), ", "@)
}

/// The declaration of one field of an argument structure.
pub open spec fn member_text(a: ArgModel) -> Seq<char> {
    if is_ref_type(a.1) {
        "pub "@ + a.0 + ": &'a "@ + a.1.drop_first() + ", "@
    } else {
        "pub "@ + a.0 + ": "@ + a.1 + ", "@
    }
}

/// Text of the fields of an argument structure.
pub open spec fn members_text(args: Seq<ArgModel>) -> Seq<char> {
    concat_with(args.map_values(|a: ArgModel| member_text(a)), Seq::empty())
}

proof fn lemma_join_step(parts: Seq<Seq<char>>, sep: Seq<char>, i: int)
    requires
        0 <= i < parts.len(),
    ensures
        join(parts.take(i + 1), sep) == if i == 0 {
            parts[0]
        } else {
            join(parts.take(i), sep) + sep + parts[i]
        },
{
    assert(parts.take(i + 1).drop_last() =~= parts.take(i));
}

pub(crate) proof fn lemma_concat_step(parts: Seq<Seq<char>>, sep: Seq<char>, i: int)
    requires
        0 <= i < parts.len(),
    ensures
        concat_with(parts.take(i + 1), sep) == concat_with(parts.take(i), sep) + parts[i] + sep,
{
    assert(parts.take(i + 1).drop_last() =~= parts.take(i));
}

/// Writes something like `val1, val2, val3`, each name after `prefix`.
pub fn seq_arg_names(prefix: &str, args: &Vec<ItemArg>) -> (r: String)
    ensures
        r@ == arg_names_text(prefix@, args_model(args@)),
{
    let ghost parts = args_model(args@).map_values(|a: ArgModel| prefix@ + a.0);
    let mut r = String::new();
    let mut i: usize = 0;
    while i < args.len()
        invariant
            0 <= i <= args.len(),
            parts == args_model(args@).map_values(|a: ArgModel| prefix@ + a.0),
            r@ == join(parts.take(i as int), ", "@),
        decreases args.len() - i,
    {
        proof {
            lemma_join_step(parts, ", "@, i as int);
        }
        if i > 0 {
            r.append(", ");
        }
        r.append(prefix);
        r.append(args[i].name.as_str());
        assert(parts[i as int] == prefix@ + args@[i as int].name@);
        i = i + 1;
        assert(r@ =~= join(parts.take(i as int), ", "@));
    }
    assert(parts.take(args.len() as int) =~= parts);
    r
}

/// Writes something like `u32, u32, &str`.
pub fn seq_arg_types(args: &Vec<ItemArg>) -> (r: String)
    ensures
        r@ == arg_types_text(args_model(args@)),
{
    let ghost parts = args_model(args@).map_values(|a: ArgModel| a.1);
    let mut r = String::new();
    let mut i: usize = 0;
    while i < args.len()
        invariant
            0 <= i <= args.len(),
            parts == args_model(args@).map_values(|a: ArgModel| a.1),
            r@ == join(parts.take(i as int), ", "@),
        decreases args.len() - i,
    {
        proof {
            lemma_join_step(parts, ", "@, i as int);
        }
        if i > 0 {
            r.append(", ");
        }
        r.append(args[i].typ.as_str());
        assert(parts[i as int] == args@[i as int].typ@);
        i = i + 1;
        assert(r@ =~= join(parts.take(i as int), ", "@));
    }
    assert(parts.take(args.len() as int) =~= parts);
    r
}

fn append_param_type(r: &mut String, life_time_name: &str, typ: &String)
    ensures
        final(r)@ == old(r)@ + param_type(life_time_name@, typ@),
{
    let t = typ.as_str();
    let n = t.unicode_len();
    if n > 0 && t.get_char(0) == '&' {
        r.append("&");
        r.append(life_time_name);
        r.append(" ");
        let rest = t.substring_char(1, n);
        r.append(rest);
        assert(rest@ =~= typ@.drop_first());
    } else {
        r.append(t);
    }
}

/// Writes something like `val1: u32, val2: &'a str`; with an empty lifetime a
/// borrowed type is written `& str`.
pub fn seq_args(life_time_name: &str, args: &Vec<ItemArg>) -> (r: String)
    ensures
        r@ == params_text(life_time_name@, args_model(args@)),
{
    let ghost parts = args_model(args@).map_values(
        |a: ArgModel| a.0 + ": "@ + param_type(life_time_name@, a.1),
    );
    let mut r = String::new();
    let mut i: usize = 0;
    while i < args.len()
        invariant
            0 <= i <= args.len(),
            parts == args_model(args@).map_values(
                |a: ArgModel| a.0 + ": "@ + param_type(life_time_name@, a.1),
            ),
            r@ == join(parts.take(i as int), ", "@),
        decreases args.len() - i,
    {
        proof {
            lemma_join_step(parts, ", "@, i as int);
        }
        if i > 0 {
            r.append(", ");
        }
        r.append(args[i].name.as_str());
        r.append(": ");
        append_param_type(&mut r, life_time_name, &args[i].typ);
        assert(parts[i as int] == args@[i as int].name@ + ": "@ + param_type(
            life_time_name@,
            args@[i as int].typ@,
        ));
        i = i + 1;
        assert(r@ =~= join(parts.take(i as int), ", "@));
    }
    assert(parts.take(args.len() as int) =~= parts);
    r
}

/// Writes the fields of an argument structure, something like
/// `pub val1: u32, pub val2: &'a str, `.
pub fn seq_struct_members(args: &Vec<ItemArg>) -> (r: String)
    ensures
        r@ == members_text(args_model(args@)),
{
    let ghost parts = args_model(args@).map_values(|a: ArgModel| member_text(a));
    let mut r = String::new();
    let mut i: usize = 0;
    while i < args.len()
        invariant
            0 <= i <= args.len(),
            parts == args_model(args@).map_values(|a: ArgModel| member_text(a)),
            r@ == concat_with(parts.take(i as int), Seq::empty()),
        decreases args.len() - i,
    {
        proof {
            lemma_concat_step(parts, Seq::empty(), i as int);
        }
        r.append("pub ");
        r.append(args[i].name.as_str());
        if args[i].has_ref() {
            r.append(": &'a ");
            let t = args[i].typ.as_str();
            let rest = t.substring_char(1, t.unicode_len());
            assert(rest@ =~= args@[i as int].typ@.drop_first());
            r.append(rest);
        } else {
            r.append(": ");
            r.append(args[i].typ.as_str());
        }
        r.append(", ");
        assert(parts[i as int] == member_text(args@[i as int]@));
        i = i + 1;
        assert(r@ =~= concat_with(parts.take(i as int), Seq::empty()));
    }
    assert(parts.take(args.len() as int) =~= parts);
    r
}

/// Writes each step of a path followed by `sep`, something like `a::b::`.
pub fn join_tree_path(path: &Vec<String>, sep: &str) -> (r: String)
    ensures
        r@ == concat_with(path@.map_values(|p: String| p@), sep@),
{
    let ghost parts = path@.map_values(|p: String| p@);
    let mut r = String::new();
    let mut i: usize = 0;
    while i < path.len()
        invariant
            0 <= i <= path.len(),
            parts == path@.map_values(|p: String| p@),
            r@ == concat_with(parts.take(i as int), sep@),
        decreases path.len() - i,
    {
        proof {
            lemma_concat_step(parts, sep@, i as int);
        }
        r.append(path[i].as_str());
        r.append(sep);
        i = i + 1;
        assert(r@ =~= concat_with(parts.take(i as int), sep@));
    }
    assert(parts.take(path.len() as int) =~= parts);
    r
}


/// The decimal digit for `d < 10`.
pub open spec fn digit(d: nat) -> char {
    if d == 0 { '0' } else if d == 1 { '1' } else if d == 2 { '2' } else if d == 3 { '3' }
    else if d == 4 { '4' } else if d == 5 { '5' } else if d == 6 { '6' } else if d == 7 { '7' }
    else if d == 8 { '8' } else { '9' }
}

/// The decimal text of `n`.
pub open spec fn dec(n: nat) -> Seq<char>
    decreases n,
{
    if n < 10 {
        seq![digit(n)]
    } else {
        dec(n / 10).push(digit(n % 10))
    }
}

fn digit_char(d: usize) -> (c: char)
    requires
        d < 10,
    ensures
        c == digit(d as nat),
{
    if d == 0 { '0' } else if d == 1 { '1' } else if d == 2 { '2' } else if d == 3 { '3' }
    else if d == 4 { '4' } else if d == 5 { '5' } else if d == 6 { '6' } else if d == 7 { '7' }
    else if d == 8 { '8' } else { '9' }
}

/// The decimal text of a number.
pub fn decimal(n: usize) -> (r: String)
    ensures
        r@ == dec(n as nat),
    decreases n,
{
    if n < 10 {
        let mut r = String::new();
        push_char(&mut r, digit_char(n));
        assert(r@ =~= seq![digit(n as nat)]);
        r
    } else {
        let mut r = decimal(n / 10);
        push_char(&mut r, digit_char(n % 10));
        r
    }
}

proof fn lemma_digit_injective(a: nat, b: nat)
    requires
        a < 10,
        b < 10,
        digit(a) == digit(b),
    ensures
        a == b,
{
}

proof fn lemma_dec_len(n: nat)
    ensures
        dec(n).len() >= 1,
        dec(n).len() == 1 <==> n < 10,
    decreases n,
{
    if n >= 10 {
        lemma_dec_len(n / 10);
    }
}

/// Distinct numbers have distinct decimal texts.
pub proof fn lemma_dec_injective(a: nat, b: nat)
    requires
        dec(a) == dec(b),
    ensures
        a == b,
    decreases a,
{
    lemma_dec_len(a);
    lemma_dec_len(b);
    if a < 10 {
        assert(b < 10);
        assert(dec(a)[0] == digit(a));
        assert(dec(b)[0] == digit(b));
        lemma_digit_injective(a, b);
    } else {
        assert(b >= 10);
        assert(dec(a).last() == digit(a % 10));
        assert(dec(b).last() == digit(b % 10));
        assert(dec(a).drop_last() =~= dec(a / 10));
        assert(dec(b).drop_last() =~= dec(b / 10));
        lemma_dec_injective(a / 10, b / 10);
        lemma_digit_injective(a % 10, b % 10);
    }
}

/// The name of the structure generated for the signature at `idx` of the
/// table: `S1`, `S2`, ...
pub open spec fn struct_name(idx: nat) -> Seq<char> {
    "S"@ + dec(idx + 1)
}

/// The position of `sig` in `table`, or -1.
pub open spec fn sig_index(table: Seq<Seq<ArgModel>>, sig: Seq<ArgModel>) -> int
    decreases table.len(),
{
    if table.len() == 0 {
        -1
    } else if table.last() == sig {
        table.len() - 1
    } else {
        sig_index(table.drop_last(), sig)
    }
}

pub(crate) proof fn lemma_sig_index(table: Seq<Seq<ArgModel>>, sig: Seq<ArgModel>)
    ensures
        -1 <= sig_index(table, sig) < table.len(),
        sig_index(table, sig) >= 0 ==> table[sig_index(table, sig)] == sig,
        sig_index(table, sig) < 0 <==> !table.contains(sig),
    decreases table.len(),
{
    if table.len() > 0 {
        lemma_sig_index(table.drop_last(), sig);
        if table.last() != sig {
            if table.contains(sig) {
                let k = choose|k: int| 0 <= k < table.len() && table[k] == sig;
                assert(table.drop_last()[k] == sig);
            }
        }
    }
}

/// The table after `get_or_add` of `s`: `s` is appended unless it is there.
pub open spec fn with_sig(t: Seq<Seq<ArgModel>>, s: Seq<ArgModel>) -> Seq<Seq<ArgModel>> {
    if t.contains(s) {
        t
    } else {
        t.push(s)
    }
}

/// Assigns a name to each distinct argument signature, in the order in which
/// signatures are first seen.
pub struct StructNames {
    sigs: Vec<Vec<ItemArg>>,
}

impl View for StructNames {
    type V = Seq<Seq<ArgModel>>;

    closed spec fn view(&self) -> Seq<Seq<ArgModel>> {
        self.sigs@.map_values(|v: Vec<ItemArg>| args_model(v@))
    }
}

fn clone_arg(a: &ItemArg) -> (r: ItemArg)
    ensures
        r@ == a@,
{
    ItemArg { typ: a.typ.clone(), name: a.name.clone() }
}

fn clone_args(args: &Vec<ItemArg>) -> (r: Vec<ItemArg>)
    ensures
        args_model(r@) == args_model(args@),
{
    let mut r: Vec<ItemArg> = Vec::new();
    let mut i: usize = 0;
    while i < args.len()
        invariant
            0 <= i <= args.len(),
            args_model(r@) =~= args_model(args@).take(i as int),
        decreases args.len() - i,
    {
        let a = clone_arg(&args[i]);
        let ghost before = r@;
        r.push(a);
        assert(args_model(r@) =~= args_model(before).push(a@));
        i = i + 1;
        assert(args_model(r@) =~= args_model(args@).take(i as int));
    }
    r
}

/// True when two argument lists have the same names and types in the same order.
pub fn same_args(a: &Vec<ItemArg>, b: &Vec<ItemArg>) -> (r: bool)
    ensures
        r == (args_model(a@) == args_model(b@)),
{
    if a.len() != b.len() {
        assert(args_model(a@).len() != args_model(b@).len());
        return false;
    }
    let mut i: usize = 0;
    while i < a.len()
        invariant
            0 <= i <= a.len(),
            a.len() == b.len(),
            forall|k: int| 0 <= k < i ==> args_model(a@)[k] == args_model(b@)[k],
        decreases a.len() - i,
    {
        if a[i].name != b[i].name || a[i].typ != b[i].typ {
            assert(args_model(a@)[i as int] != args_model(b@)[i as int]);
            return false;
        }
        i = i + 1;
    }
    assert(args_model(a@) =~= args_model(b@));
    true
}

impl StructNames {
    pub fn new() -> (r: StructNames)
        ensures
            r@ == Seq::<Seq<ArgModel>>::empty(),
    {
        let r = StructNames { sigs: Vec::new() };
        assert(r@ =~= Seq::<Seq<ArgModel>>::empty());
        r
    }

    /// The position of a signature in the table, if it is there.
    pub fn find(&self, args: &Vec<ItemArg>) -> (r: Option<usize>)
        ensures
            sig_index(self@, args_model(args@)) < 0 ==> r is None,
            sig_index(self@, args_model(args@)) >= 0 ==> (r matches Some(i) && i as int == sig_index(
                self@,
                args_model(args@),
            )),
    {
        let ghost sig = args_model(args@);
        proof {
            lemma_sig_index(self@, sig);
        }
        let mut i: usize = self.sigs.len();
        assert(self@.take(i as int) =~= self@);
        while i > 0
            invariant
                0 <= i <= self.sigs.len(),
                self@.len() == self.sigs.len(),
                sig == args_model(args@),
                sig_index(self@, sig) == sig_index(self@.take(i as int), sig),
            decreases i,
        {
            assert(self@[i - 1] == args_model(self.sigs@[i - 1]@));
            assert(self@.take(i as int).last() == args_model(self.sigs@[i - 1]@));
            assert(self@.take(i as int).drop_last() =~= self@.take(i - 1));
            let cand = &self.sigs[i - 1];
            let same = same_args(cand, args);
            assert(same == (args_model(self.sigs@[i - 1]@) == sig));
            if same {
                assert(args_model(self.sigs@[i - 1]@) == sig);
                assert(self@.take(i as int).len() == i);
                assert(sig_index(self@.take(i as int), sig) == i - 1);
                return Some(i - 1);
            }
            i = i - 1;
        }
        None
    }

    /// The name of the signature of `args`, added to the table first when it
    /// is new; the flag says whether it was added.
    pub fn get_or_add(&mut self, args: &Vec<ItemArg>) -> (r: (bool, String))
        ensures
            ({
                let sig = args_model(args@);
                if sig_index(old(self)@, sig) >= 0 {
                    &&& !r.0
                    &&& final(self)@ == old(self)@
                    &&& r.1@ == struct_name(sig_index(old(self)@, sig) as nat)
                } else {
                    &&& r.0
                    &&& final(self)@ == old(self)@.push(sig)
                    &&& r.1@ == struct_name(old(self)@.len())
                }
            }),
            final(self)@ == with_sig(old(self)@, args_model(args@)),
            r.1@ == struct_name(sig_index(final(self)@, args_model(args@)) as nat),
    {
        proof {
            lemma_sig_index(self@, args_model(args@));
        }
        match self.find(args) {
            Some(i) => (false, self.name_at(i)),
            None => {
                let n = self.sigs.len();
                self.sigs.push(clone_args(args));
                assert(self@ =~= old(self)@.push(args_model(args@)));
                assert(self@.len() == self.sigs.len());
                (true, self.name_at(n))
            },
        }
    }

    /// The name of the signature at position `i`.
    pub fn name_at(&self, i: usize) -> (r: String)
        requires
            i < self@.len(),
        ensures
            r@ == struct_name(i as nat),
    {
        assert(self@.len() == self.sigs.len());
        let mut r = String::from_str("S");
        r.append(decimal(i + 1).as_str());
        r
    }

    /// The signature at position `i`.
    pub fn sig_at(&self, i: usize) -> (r: &Vec<ItemArg>)
        requires
            i < self@.len(),
        ensures
            args_model(r@) == self@[i as int],
    {
        &self.sigs[i]
    }

    pub fn len(&self) -> (r: usize)
        ensures
            r == self@.len(),
    {
        self.sigs.len()
    }
}

/// Two signatures of a table get the same name exactly when they are equal:
/// equal names and types in the same order share one generated structure,
/// and a signature that differs in any name or type gets another.
pub proof fn lemma_names_match_signatures(table: Seq<Seq<ArgModel>>, s1: Seq<ArgModel>, s2: Seq<ArgModel>)
    requires
        table.contains(s1),
        table.contains(s2),
    ensures
        struct_name(sig_index(table, s1) as nat) == struct_name(sig_index(table, s2) as nat) <==> s1 == s2,
{
    lemma_sig_index(table, s1);
    lemma_sig_index(table, s2);
    let i1 = sig_index(table, s1);
    let i2 = sig_index(table, s2);
    if struct_name(i1 as nat) == struct_name(i2 as nat) {
        reveal_strlit("S");
        assert(dec((i1 + 1) as nat) =~= struct_name(i1 as nat).drop_first());
        assert(dec((i2 + 1) as nat) =~= struct_name(i2 as nat).drop_first());
        lemma_dec_injective((i1 + 1) as nat, (i2 + 1) as nat);
    }
}

/// Two calls of `get_or_add` in a row, the second on the table that the first
/// left: the second call adds nothing when the signatures are equal, and the
/// two calls return the same name exactly when the signatures are equal.
pub proof fn lemma_get_or_add_twice(t0: Seq<Seq<ArgModel>>, s1: Seq<ArgModel>, s2: Seq<ArgModel>)
    ensures
        ({
            let t1 = with_sig(t0, s1);
            let t2 = with_sig(t1, s2);
            &&& (s1 == s2 ==> t2 == t1)
            &&& (struct_name(sig_index(t1, s1) as nat) == struct_name(sig_index(t2, s2) as nat) <==> s1 == s2)
        }),
{
    let t1 = with_sig(t0, s1);
    let t2 = with_sig(t1, s2);
    if !t0.contains(s1) {
        assert(t1[t0.len() as int] == s1);
    }
    assert(t1.contains(s1));
    if !t1.contains(s2) {
        assert(t2[t1.len() as int] == s2);
        assert(t2.drop_last() =~= t1);
        assert(s1 != s2);
        assert(sig_index(t2, s1) == sig_index(t1, s1));
    }
    assert(t2.contains(s2));
    let k = choose|k: int| 0 <= k < t1.len() && t1[k] == s1;
    if t1.contains(s2) {
    } else {
        assert(t2[k] == s1);
    }
    assert(t2.contains(s1));
    lemma_names_match_signatures(t2, s1, s2);
}

} // verus!
