use vstd::prelude::*;
use vstd::string::*;

verus! {

/// A declared argument as a pair of its name and its type.
pub type ArgModel = (Seq<char>, Seq<char>);

/// One declared argument of a template: its name and its type as written.
#[derive(Debug, PartialEq, Eq)]
pub struct ItemArg {
    pub typ: String,
    pub name: String,
}

impl View for ItemArg {
    type V = ArgModel;

    open spec fn view(&self) -> ArgModel {
        (self.name@, self.typ@)
    }
}

/// True when a type descriptor denotes a borrowed type: it starts with `&`.
pub open spec fn is_ref_type(typ: Seq<char>) -> bool {
    typ.len() > 0 && typ[0] == '&'
}

impl ItemArg {
    pub fn has_ref(&self) -> (r: bool)
        ensures
            r == is_ref_type(self.typ@),
    {
        let s = self.typ.as_str();
        if s.unicode_len() == 0 {
            false
        } else {
            s.get_char(0) == '&'
        }
    }
}

/// The argument models of a list of arguments.
pub open spec fn args_model(args: Seq<ItemArg>) -> Seq<ArgModel> {
    args.map_values(|a: ItemArg| a@)
}

/// True when one of the arguments has a borrowed type.
pub open spec fn any_ref(args: Seq<ArgModel>) -> bool {
    exists|i: int| 0 <= i < args.len() && is_ref_type(#[trigger] args[i].1)
}

/// The type given to an argument whose placeholder names no type.
pub open spec fn default_type() -> Seq<char> {
    "&str"@
}

/// A parsed template: the format string with `{}` markers and the arguments
/// in the order of the markers.
#[derive(Debug)]
pub struct ItemValue {
    pub fmt_str: String,
    pub args: Vec<ItemArg>,
}

/// A raw text that is not a valid template.
#[derive(Debug, PartialEq, Eq)]
pub enum ParseError {
    /// A placeholder was opened with `$` and never closed with `}`.
    Unterminated,
}

/// A parsed template as its format string and its argument models.
pub type LeafModel = (Seq<char>, Seq<ArgModel>);

impl View for ItemValue {
    type V = LeafModel;

    open spec fn view(&self) -> LeafModel {
        (self.fmt_str@, args_model(self.args@))
    }
}

/// The parsed form of a raw text, as `ItemValue::parse` returns it.
pub open spec fn leaf_model(s: Seq<char>) -> LeafModel {
    (scan(s).fmt, scan(s).args)
}

/// The state of the scanner after a prefix of a raw text.
pub struct ScanState {
    pub fmt: Seq<char>,
    pub args: Seq<ArgModel>,
    pub body: Seq<char>,
    pub in_placeholder: bool,
}

/// The state of the body splitter: name so far, type so far, and whether a
/// `:` was seen. The first `:` ends the name; later ones belong to the type.
pub open spec fn split_step(st: (Seq<char>, Seq<char>, bool), c: char) -> (Seq<char>, Seq<char>, bool) {
    if c == ':' && !st.2 {
        (st.0, st.1, true)
    } else if st.2 {
        (st.0, st.1.push(c), true)
    } else {
        (st.0.push(c), st.1, false)
    }
}

pub open spec fn split_run(b: Seq<char>) -> (Seq<char>, Seq<char>, bool)
    decreases b.len(),
{
    if b.len() == 0 {
        (Seq::empty(), Seq::empty(), false)
    } else {
        split_step(split_run(b.drop_last()), b.last())
    }
}

/// The argument that a placeholder body declares: the text before the first
/// `:` is the name, the text after it the type, `&str` when empty.
pub open spec fn body_arg(b: Seq<char>) -> ArgModel {
    let st = split_run(b);
    if st.1.len() == 0 {
        (st.0, default_type())
    } else {
        (st.0, st.1)
    }
}

/// One scanner step. `$` opens a placeholder; inside one, `{` and `}` go to
/// the format string and the other characters to the body; `}` closes it.
pub open spec fn scan_step(st: ScanState, c: char) -> ScanState {
    if c == '$' {
        ScanState { body: Seq::empty(), in_placeholder: true, ..st }
    } else if !st.in_placeholder {
        ScanState { fmt: st.fmt.push(c), ..st }
    } else if c == '{' {
        ScanState { fmt: st.fmt.push(c), ..st }
    } else if c == '}' {
        ScanState {
            fmt: st.fmt.push(c),
            args: st.args.push(body_arg(st.body)),
            in_placeholder: false,
            ..st
        }
    } else {
        ScanState { body: st.body.push(c), ..st }
    }
}

pub open spec fn scan_from(st: ScanState, s: Seq<char>) -> ScanState
    decreases s.len(),
{
    if s.len() == 0 {
        st
    } else {
        scan_step(scan_from(st, s.drop_last()), s.last())
    }
}

pub open spec fn scan_start() -> ScanState {
    ScanState { fmt: Seq::empty(), args: Seq::empty(), body: Seq::empty(), in_placeholder: false }
}

/// The state after scanning all of a raw text.
pub open spec fn scan(s: Seq<char>) -> ScanState {
    scan_from(scan_start(), s)
}

/// True when no character of `s` is `c`.
pub open spec fn lacks(s: Seq<char>, c: char) -> bool {
    forall|i: int| 0 <= i < s.len() ==> s[i] != c
}

/// A placeholder type that the scanner reads back as is.
pub open spec fn plain_type(s: Seq<char>) -> bool {
    lacks(s, '$') && lacks(s, '{') && lacks(s, '}')
}

/// A placeholder name that the scanner reads back as is.
pub open spec fn plain_name(s: Seq<char>) -> bool {
    plain_type(s) && lacks(s, ':')
}

/// The raw text of a placeholder: `${name}` when the type is empty, else
/// `${name:type}`.
pub open spec fn hole_text(h: ArgModel) -> Seq<char> {
    if h.1.len() == 0 {
        seq!['$', '{'] + h.0 + seq!['}']
    } else {
        seq!['$', '{'] + h.0 + seq![':'] + h.1 + seq!['}']
    }
}

/// The argument that the placeholder `h` declares.
pub open spec fn hole_arg(h: ArgModel) -> ArgModel {
    if h.1.len() == 0 {
        (h.0, default_type())
    } else {
        h
    }
}

/// A well-formed template: `texts[0] hole[0] texts[1] ... hole[n-1] texts[n]`,
/// where no text holds a `$`, no name or type holds `$`, `{` or `}`, and no
/// name holds `:`.
pub open spec fn well_formed_template(texts: Seq<Seq<char>>, holes: Seq<ArgModel>) -> bool {
    &&& texts.len() == holes.len() + 1
    &&& forall|i: int| 0 <= i < texts.len() ==> lacks(#[trigger] texts[i], '$')
    &&& forall|i: int|
        0 <= i < holes.len() ==> plain_name((#[trigger] holes[i]).0) && plain_type(holes[i].1)
}

/// The raw text of the first `k` holes of a template with the texts around them.
pub open spec fn render_template(texts: Seq<Seq<char>>, holes: Seq<ArgModel>, k: nat) -> Seq<char>
    decreases k,
{
    if k == 0 {
        texts[0]
    } else {
        render_template(texts, holes, (k - 1) as nat) + hole_text(holes[k - 1]) + texts[k as int]
    }
}

/// The format string expected of the first `k` holes: each becomes `{}`.
pub open spec fn render_format(texts: Seq<Seq<char>>, holes: Seq<ArgModel>, k: nat) -> Seq<char>
    decreases k,
{
    if k == 0 {
        texts[0]
    } else {
        render_format(texts, holes, (k - 1) as nat) + seq!['{', '}'] + texts[k as int]
    }
}

pub proof fn lemma_scan_split(st: ScanState, a: Seq<char>, b: Seq<char>)
    ensures
        scan_from(st, a + b) == scan_from(scan_from(st, a), b),
    decreases b.len(),
{
    if b.len() == 0 {
        assert(a + b =~= a);
    } else {
        assert((a + b).drop_last() =~= a + b.drop_last());
        lemma_scan_split(st, a, b.drop_last());
    }
}

proof fn lemma_scan_text(st: ScanState, t: Seq<char>)
    requires
        !st.in_placeholder,
        lacks(t, '$'),
    ensures
        scan_from(st, t) == (ScanState { fmt: st.fmt + t, ..st }),
    decreases t.len(),
{
    if t.len() == 0 {
        assert(st.fmt + t =~= st.fmt);
    } else {
        lemma_scan_text(st, t.drop_last());
        assert(st.fmt + t.drop_last() + seq![t.last()] =~= st.fmt + t);
        assert(st.fmt + t =~= (st.fmt + t.drop_last()).push(t.last()));
    }
}

proof fn lemma_scan_body(st: ScanState, w: Seq<char>)
    requires
        st.in_placeholder,
        lacks(w, '$') && lacks(w, '{') && lacks(w, '}'),
    ensures
        scan_from(st, w) == (ScanState { body: st.body + w, ..st }),
    decreases w.len(),
{
    if w.len() == 0 {
        assert(st.body + w =~= st.body);
    } else {
        lemma_scan_body(st, w.drop_last());
        assert(st.body + w =~= (st.body + w.drop_last()).push(w.last()));
    }
}

proof fn lemma_split_name(n: Seq<char>)
    requires
        lacks(n, ':'),
    ensures
        split_run(n) == (n, Seq::<char>::empty(), false),
    decreases n.len(),
{
    if n.len() > 0 {
        lemma_split_name(n.drop_last());
        assert(n.drop_last().push(n.last()) =~= n);
    }
}

proof fn lemma_split_type(n: Seq<char>, t: Seq<char>)
    requires
        lacks(n, ':'),
    ensures
        split_run(n + seq![':'] + t) == (n, t, true),
    decreases t.len(),
{
    if t.len() == 0 {
        lemma_split_name(n);
        assert((n + seq![':'] + t).drop_last() =~= n);
    } else {
        lemma_split_type(n, t.drop_last());
        assert((n + seq![':'] + t).drop_last() =~= n + seq![':'] + t.drop_last());
        assert(t.drop_last().push(t.last()) =~= t);
    }
}

proof fn lemma_scan_hole(st: ScanState, h: ArgModel)
    requires
        !st.in_placeholder,
        plain_name(h.0),
        plain_type(h.1),
    ensures
        ({
            let r = scan_from(st, hole_text(h));
            r.fmt == st.fmt + seq!['{', '}'] && r.args == st.args.push(hole_arg(h))
                && !r.in_placeholder
        }),
{
    let body = if h.1.len() == 0 { h.0 } else { h.0 + seq![':'] + h.1 };
    assert(hole_text(h) =~= seq!['$', '{'] + body + seq!['}']);
    assert(lacks(body, '$') && lacks(body, '{') && lacks(body, '}')) by {
        if h.1.len() != 0 {
            assert forall|i: int| 0 <= i < body.len() implies body[i] != '$' && body[i] != '{'
                && body[i] != '}' by {
                if i < h.0.len() {
                } else if i > h.0.len() {
                    assert(body[i] == h.1[i - h.0.len() - 1]);
                }
            }
        }
    }
    if h.1.len() == 0 {
        lemma_split_name(h.0);
    } else {
        lemma_split_type(h.0, h.1);
    }
    assert(body_arg(body) == hole_arg(h));
    let open = seq!['$', '{'];
    assert(open.drop_last() =~= seq!['$']);
    assert(seq!['$'].drop_last() =~= Seq::<char>::empty());
    let s0 = scan_from(st, seq!['$']);
    assert(scan_from(st, Seq::<char>::empty()) == st);
    assert(s0 == scan_step(st, '$'));
    let s1 = scan_from(st, open);
    assert(s1 == scan_step(s0, '{'));
    assert(s1 == (ScanState { fmt: st.fmt.push('{'), body: Seq::empty(), in_placeholder: true, ..st }));
    lemma_scan_split(st, open, body);
    lemma_scan_body(s1, body);
    let s2 = scan_from(s1, body);
    assert(Seq::<char>::empty() + body =~= body);
    lemma_scan_split(st, open + body, seq!['}']);
    assert(seq!['}'].drop_last() =~= Seq::<char>::empty());
    assert(scan_from(s2, seq!['}']) == scan_step(scan_from(s2, Seq::<char>::empty()), '}'));
    assert(hole_text(h) =~= open + body + seq!['}']);
    assert(st.fmt.push('{').push('}') =~= st.fmt + seq!['{', '}']);
}

/// A raw text without `$` is its own format string and declares no argument.
pub proof fn lemma_plain_text(s: Seq<char>)
    requires
        lacks(s, '$'),
    ensures
        scan(s).fmt == s,
        scan(s).args.len() == 0,
        !scan(s).in_placeholder,
{
    lemma_scan_text(scan_start(), s);
    assert(Seq::<char>::empty() + s =~= s);
}

/// A well-formed template declares one argument per placeholder, in the order
/// of the placeholders, and its format string has `{}` in place of each.
pub proof fn lemma_template_args(texts: Seq<Seq<char>>, holes: Seq<ArgModel>, k: nat)
    requires
        well_formed_template(texts, holes),
        k <= holes.len(),
    ensures
        ({
            let r = scan(render_template(texts, holes, k));
            &&& r.args == holes.subrange(0, k as int).map_values(|h: ArgModel| hole_arg(h))
            &&& r.fmt == render_format(texts, holes, k)
            &&& !r.in_placeholder
        }),
    decreases k,
{
    if k == 0 {
        lemma_plain_text(texts[0]);
        assert(holes.subrange(0, 0).map_values(|h: ArgModel| hole_arg(h)) =~= Seq::<ArgModel>::empty());
    } else {
        let km = (k - 1) as nat;
        lemma_template_args(texts, holes, km);
        let a = render_template(texts, holes, km);
        let sa = scan(a);
        lemma_scan_split(scan_start(), a, hole_text(holes[km as int]));
        lemma_scan_hole(sa, holes[km as int]);
        let sb = scan(a + hole_text(holes[km as int]));
        lemma_scan_split(scan_start(), a + hole_text(holes[km as int]), texts[k as int]);
        lemma_scan_text(sb, texts[k as int]);
        assert(holes.subrange(0, k as int).map_values(|h: ArgModel| hole_arg(h)) =~= holes.subrange(
            0,
            km as int,
        ).map_values(|h: ArgModel| hole_arg(h)).push(hole_arg(holes[km as int])));
    }
}

/// True when one of the arguments has a borrowed type.
pub fn args_have_ref(args: &Vec<ItemArg>) -> (r: bool)
    ensures
        r == any_ref(args_model(args@)),
{
    let mut i: usize = 0;
    while i < args.len()
        invariant
            0 <= i <= args.len(),
            forall|j: int| 0 <= j < i ==> !is_ref_type(#[trigger] args@[j].typ@),
        decreases args.len() - i,
    {
        if args[i].has_ref() {
            assert(is_ref_type(args_model(args@)[i as int].1));
            return true;
        }
        i = i + 1;
    }
    assert forall|j: int| 0 <= j < args_model(args@).len() implies !is_ref_type(
        #[trigger] args_model(args@)[j].1,
    ) by {
        assert(args_model(args@)[j].1 == args@[j].typ@);
    }
    false
}

/// Relies on String::push: the character is appended at the end.
#[verifier::external_body]
pub(crate) fn push_char(s: &mut String, c: char)
    ensures
        final(s)@ == old(s)@.push(c),
{
    s.push(c)
}

fn body_to_arg(body: &Vec<char>) -> (r: ItemArg)
    ensures
        r@ == body_arg(body@),
{
    let mut name = String::new();
    let mut typ = String::new();
    let mut is_type = false;
    let mut i: usize = 0;
    while i < body.len()
        invariant
            0 <= i <= body.len(),
            (name@, typ@, is_type) == split_run(body@.subrange(0, i as int)),
        decreases body.len() - i,
    {
        let c = body[i];
        assert(body@.subrange(0, i + 1).drop_last() == body@.subrange(0, i as int));
        if c == ':' && !is_type {
            is_type = true;
        } else if is_type {
            push_char(&mut typ, c);
        } else {
            push_char(&mut name, c);
        }
        i = i + 1;
    }
    assert(body@.subrange(0, body.len() as int) == body@);
    if typ.as_str().unicode_len() == 0 {
        typ = String::from_str("&str");
    }
    ItemArg { typ, name }
}

impl ItemValue {
    /// True when one of the arguments has a borrowed type.
    pub fn has_ref(&self) -> (r: bool)
        ensures
            r == any_ref(args_model(self.args@)),
    {
        args_have_ref(&self.args)
    }

    /// Parses a raw text into a format string and its arguments. A `$` whose
    /// placeholder is still open at the end of the text is an error.
    pub fn parse(s: &str) -> (r: Result<ItemValue, ParseError>)
        ensures
            r is Err <==> scan(s@).in_placeholder,
            r matches Ok(v) ==> v.fmt_str@ == scan(s@).fmt && args_model(v.args@) == scan(s@).args,
    {
        let mut fmt = String::new();
        let mut args: Vec<ItemArg> = Vec::new();
        let mut body: Vec<char> = Vec::new();
        let mut is_var = false;
        let n = s.unicode_len();
        let mut i: usize = 0;
        while i < n
            invariant
                0 <= i <= n,
                n == s@.len(),
                ({
                    let st = scan(s@.subrange(0, i as int));
                    st.fmt == fmt@ && st.args == args_model(args@) && st.body == body@
                        && st.in_placeholder == is_var
                }),
            decreases n - i,
        {
            let ch = s.get_char(i);
            assert(s@.subrange(0, i + 1).drop_last() == s@.subrange(0, i as int));
            if ch == '$' {
                body = Vec::new();
                is_var = true;
            } else if !is_var {
                push_char(&mut fmt, ch);
            } else if ch == '{' {
                push_char(&mut fmt, ch);
            } else if ch == '}' {
                push_char(&mut fmt, ch);
                let a = body_to_arg(&body);
                let ghost before = args@;
                args.push(a);
                is_var = false;
                assert(args_model(args@) =~= args_model(before).push(a@));
            } else {
                body.push(ch);
            }
            i = i + 1;
        }
        assert(s@.subrange(0, n as int) == s@);
        if is_var {
            Err(ParseError::Unterminated)
        } else {
            Ok(ItemValue { fmt_str: fmt, args })
        }
    }
}

} // verus!
