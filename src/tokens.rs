//! Token resolution: `{colors.name}` and `{vars.name}` placeholders inside raw
//! theme strings, replaced by bounded fixed-point substitution.

use vstd::prelude::*;
use vstd::string::*;
use crate::text::{chars_of, has_prefix, push_char, starts_with, string_of};

verus! {

/// How many substitution passes a value, or the whole context, gets.
pub const TOKEN_PASSES: usize = 5;

/// One named raw value of the `colors` or `vars` table.
#[derive(Clone, Debug)]
pub struct Entry {
    pub key: String,
    pub value: String,
}

/// A table of named raw values, as key and value character sequences.
pub type Table = Seq<(Seq<char>, Seq<char>)>;

impl View for Entry {
    type V = (Seq<char>, Seq<char>);

    open spec fn view(&self) -> (Seq<char>, Seq<char>) {
        (self.key@, self.value@)
    }
}

pub open spec fn table_of(v: Seq<Entry>) -> Table {
    v.map_values(|e: Entry| e@)
}

/// No key occurs twice.
pub open spec fn keys_unique(t: Table) -> bool {
    forall|i: int, j: int| 0 <= i < t.len() && 0 <= j < t.len() && i != j ==> t[i].0 != t[j].0
}

/// Storing a value keeps the keys of a table unique.
pub proof fn upsert_keeps_keys_unique(t: Table, key: Seq<char>, value: Seq<char>)
    requires
        keys_unique(t),
    ensures
        keys_unique(upsert(t, key, value)),
{
    lemma_key_index_bounds(t, key, 0);
    let r = upsert(t, key, value);
    if !(0 <= key_index(t, key) < t.len()) {
        assert forall|i: int| 0 <= i < t.len() implies t[i].0 != key by {
            lemma_key_index_absent(t, key, 0, i);
        }
        assert forall|i: int, j: int| 0 <= i < r.len() && 0 <= j < r.len() && i != j implies r[i].0 != r[j].0 by {
            if i < t.len() && j < t.len() {
                assert(r[i] == t[i] && r[j] == t[j]);
            } else if i < t.len() {
                assert(r[i] == t[i]);
            } else {
                assert(r[j] == t[j]);
            }
        }
    }
}

proof fn lemma_key_index_absent(t: Table, key: Seq<char>, p: int, i: int)
    requires
        0 <= p <= i < t.len(),
        key_index_from(t, key, p) == -1,
    ensures
        t[i].0 != key,
    decreases i - p,
{
    if t[p].0 != key && p < i {
        lemma_key_index_absent(t, key, p + 1, i);
    }
}

/// Index of the first entry at or after `p` whose key is `key`, or -1.
pub open spec fn key_index_from(t: Table, key: Seq<char>, p: int) -> int
    decreases t.len() - p,
{
    if p < 0 || p >= t.len() {
        -1
    } else if t[p].0 == key {
        p
    } else {
        key_index_from(t, key, p + 1)
    }
}

pub open spec fn key_index(t: Table, key: Seq<char>) -> int {
    key_index_from(t, key, 0)
}

/// The value stored under `key`, if any (the first such entry).
pub open spec fn lookup(t: Table, key: Seq<char>) -> Option<Seq<char>> {
    if 0 <= key_index(t, key) < t.len() {
        Some(t[key_index(t, key)].1)
    } else {
        None
    }
}

/// `t` with `value` stored under `key`: the entry is overwritten in place,
/// or added at the end when there is none.
pub open spec fn upsert(t: Table, key: Seq<char>, value: Seq<char>) -> Table {
    if 0 <= key_index(t, key) < t.len() {
        t.update(key_index(t, key), (key, value))
    } else {
        t.push((key, value))
    }
}

proof fn lemma_key_index_bounds(t: Table, key: Seq<char>, p: int)
    requires
        0 <= p,
    ensures
        key_index_from(t, key, p) == -1 || (p <= key_index_from(t, key, p) < t.len()
            && t[key_index_from(t, key, p)].0 == key),
    decreases t.len() - p,
{
    if p < t.len() && t[p].0 != key {
        lemma_key_index_bounds(t, key, p + 1);
    }
}

/// The two namespaces that tokens are resolved against.
#[derive(Clone, Debug)]
pub struct ValueContext {
    pub colors: Vec<Entry>,
    pub vars: Vec<Entry>,
}

pub struct ContextView {
    pub colors: Table,
    pub vars: Table,
}

impl View for ValueContext {
    type V = ContextView;

    open spec fn view(&self) -> ContextView {
        ContextView { colors: table_of(self.colors@), vars: table_of(self.vars@) }
    }
}

/// What a token (the text between braces) stands for.
pub open spec fn token_value(ctx: ContextView, token: Seq<char>) -> Option<Seq<char>> {
    if has_prefix(token, "colors."@) {
        lookup(ctx.colors, token.skip("colors."@.len() as int))
    } else if has_prefix(token, "vars."@) {
        lookup(ctx.vars, token.skip("vars."@.len() as int))
    } else {
        None
    }
}

/// Index of the first `c` in `s` at or after `p`, or -1.
pub open spec fn find_from(s: Seq<char>, p: int, c: char) -> int
    decreases s.len() - p,
{
    if p < 0 || p >= s.len() {
        -1
    } else if s[p] == c {
        p
    } else {
        find_from(s, p + 1, c)
    }
}

/// One substitution pass over `s` from position `i`, with `out` produced so
/// far: a `{` whose next `}` closes a known token is replaced by the token's
/// value; every other character is copied. Also says whether any token was
/// replaced.
pub open spec fn scan(s: Seq<char>, ctx: ContextView, i: int, out: Seq<char>, changed: bool) -> (
    Seq<char>,
    bool,
)
    decreases s.len() - i,
{
    if i < 0 || i >= s.len() {
        (out, changed)
    } else if s[i] == '{' && i + 1 <= find_from(s, i + 1, '}') < s.len() && token_value(
        ctx,
        s.subrange(i + 1, find_from(s, i + 1, '}')),
    ) is Some {
        let close = find_from(s, i + 1, '}');
        let v = token_value(ctx, s.subrange(i + 1, close)).unwrap();
        scan(s, ctx, close + 1, out + v, true)
    } else {
        scan(s, ctx, i + 1, out.push(s[i]), changed)
    }
}

/// The brace pairs, met by one pass over `s` from position `i`, whose text
/// names no known token.
pub open spec fn unknown_from(s: Seq<char>, ctx: ContextView, i: int) -> Seq<Seq<char>>
    decreases s.len() - i,
{
    if i < 0 || i >= s.len() {
        Seq::empty()
    } else if s[i] == '{' && i + 1 <= find_from(s, i + 1, '}') < s.len() {
        let close = find_from(s, i + 1, '}');
        let tok = s.subrange(i + 1, close);
        if token_value(ctx, tok) is Some {
            unknown_from(s, ctx, close + 1)
        } else {
            seq![tok] + unknown_from(s, ctx, i + 1)
        }
    } else {
        unknown_from(s, ctx, i + 1)
    }
}

/// The unknown tokens met over the passes that `iterate` makes.
pub open spec fn unknown_tokens(s: Seq<char>, ctx: ContextView, n: nat) -> Seq<Seq<char>>
    decreases n,
{
    if n == 0 {
        Seq::empty()
    } else {
        let (o, ch) = pass(s, ctx);
        let here = unknown_from(s, ctx, 0);
        if ch {
            here + unknown_tokens(o, ctx, (n - 1) as nat)
        } else {
            here
        }
    }
}

/// The warning for an unknown token.
pub open spec fn unknown_token_message(tok: Seq<char>) -> Seq<char> {
    "Unknown token {"@ + tok + "}"@
}

pub open spec fn unknown_token_messages(toks: Seq<Seq<char>>) -> Seq<Seq<char>> {
    toks.map_values(|t: Seq<char>| unknown_token_message(t))
}

/// The warnings that resolving `s` adds: one per unknown token met, naming
/// it, when asked for; none otherwise.
pub open spec fn token_warnings(s: Seq<char>, ctx: ContextView, warn_missing: bool) -> Seq<Seq<char>> {
    if warn_missing {
        unknown_token_messages(unknown_tokens(s, ctx, TOKEN_PASSES as nat))
    } else {
        Seq::empty()
    }
}

/// Some warning from position `from` on reads `m`.
pub open spec fn has_message(ws: Seq<String>, from: int, m: Seq<char>) -> bool {
    exists|w: int| 0 <= from <= w < ws.len() && (#[trigger] ws[w])@ == m
}

pub proof fn lemma_has_message_kept(ws: Seq<String>, ws2: Seq<String>, from: int, m: Seq<char>)
    requires
        has_message(ws, from, m),
        extends(ws2, ws),
    ensures
        has_message(ws2, from, m),
{
    let w = choose|w: int| 0 <= from <= w < ws.len() && (#[trigger] ws[w])@ == m;
    assert(ws2[w] == ws[w]);
}

/// The texts of a list of strings.
pub open spec fn texts(v: Seq<String>) -> Seq<Seq<char>> {
    v.map_values(|s: String| s@)
}

pub open spec fn pass(s: Seq<char>, ctx: ContextView) -> (Seq<char>, bool) {
    scan(s, ctx, 0, Seq::empty(), false)
}

/// Up to `n` passes, stopping after one that replaced nothing.
pub open spec fn iterate(s: Seq<char>, ctx: ContextView, n: nat) -> Seq<char>
    decreases n,
{
    if n == 0 {
        s
    } else {
        let (o, ch) = pass(s, ctx);
        if ch {
            iterate(o, ctx, (n - 1) as nat)
        } else {
            o
        }
    }
}

/// A raw string with its tokens resolved against `ctx`.
pub open spec fn resolve_spec(s: Seq<char>, ctx: ContextView) -> Seq<char> {
    iterate(s, ctx, TOKEN_PASSES as nat)
}

/// `a` is `b` with zero or more items added at the end.
pub open spec fn extends<T>(a: Seq<T>, b: Seq<T>) -> bool {
    b.len() <= a.len() && forall|i: int| 0 <= i < b.len() ==> a[i] == b[i]
}

proof fn lemma_find_from_bounds(s: Seq<char>, p: int, c: char)
    requires
        0 <= p,
    ensures
        find_from(s, p, c) == -1 || (p <= find_from(s, p, c) < s.len() && s[find_from(s, p, c)] == c),
    decreases s.len() - p,
{
    if p < s.len() && s[p] != c {
        lemma_find_from_bounds(s, p + 1, c);
    }
}

fn find_char(s: &Vec<char>, from: usize, c: char) -> (r: Option<usize>)
    requires
        from <= s@.len(),
    ensures
        r is Some ==> r.unwrap() as int == find_from(s@, from as int, c),
        r is None ==> find_from(s@, from as int, c) == -1,
        r is Some ==> from <= r.unwrap() < s@.len(),
{
    proof { lemma_find_from_bounds(s@, from as int, c); }
    let mut j: usize = from;
    while j < s.len()
        invariant
            from <= j <= s@.len(),
            find_from(s@, from as int, c) == find_from(s@, j as int, c),
        decreases s@.len() - j,
    {
        if s[j] == c {
            return Some(j);
        }
        j += 1;
    }
    None
}

/// Position of the entry whose key is `key`.
pub fn entry_index(t: &Vec<Entry>, key: &Vec<char>) -> (r: Option<usize>)
    ensures
        r is Some ==> r.unwrap() as int == key_index(table_of(t@), key@) && r.unwrap() < t@.len(),
        r is Some ==> t@[r.unwrap() as int].key@ == key@,
        r is None ==> key_index(table_of(t@), key@) == -1,
{
    proof { lemma_key_index_bounds(table_of(t@), key@, 0); }
    let mut i: usize = 0;
    while i < t.len()
        invariant
            i <= t@.len(),
            key_index(table_of(t@), key@) == key_index_from(table_of(t@), key@, i as int),
        decreases t@.len() - i,
    {
        let k = chars_of(t[i].key.as_str());
        assert(table_of(t@)[i as int] == t@[i as int]@);
        if same_chars(&k, key) {
            return Some(i);
        }
        i += 1;
    }
    None
}

fn entry_lookup<'a>(t: &'a Vec<Entry>, key: &Vec<char>) -> (r: Option<&'a String>)
    ensures
        r is Some == (lookup(table_of(t@), key@) is Some),
        r is Some ==> r.unwrap()@ == lookup(table_of(t@), key@).unwrap(),
{
    match entry_index(t, key) {
        Some(i) => {
            assert(table_of(t@)[i as int] == t@[i as int]@);
            Some(&t[i].value)
        },
        None => None,
    }
}

/// Stores `value` under `key` (see `upsert`).
pub fn upsert_entry(t: &mut Vec<Entry>, key: &Vec<char>, key_text: &String, value: String)
    requires
        key_text@ == key@,
    ensures
        table_of(final(t)@) == upsert(table_of(old(t)@), key@, value@),
{
    match entry_index(t, key) {
        Some(i) => {
            let k = t[i].key.clone();
            t[i] = Entry { key: k, value };
            assert(table_of(t@) =~= upsert(table_of(old(t)@), key@, value@));
        },
        None => {
            t.push(Entry { key: key_text.clone(), value });
            assert(table_of(t@) =~= upsert(table_of(old(t)@), key@, value@));
        },
    }
}

fn same_chars(a: &Vec<char>, b: &Vec<char>) -> (r: bool)
    ensures
        r == (a@ == b@),
{
    if a.len() != b.len() {
        return false;
    }
    let mut i: usize = 0;
    while i < a.len()
        invariant
            a@.len() == b@.len(),
            i <= a@.len(),
            forall|k: int| 0 <= k < i ==> a@[k] == b@[k],
        decreases a@.len() - i,
    {
        if a[i] != b[i] {
            return false;
        }
        i += 1;
    }
    assert(a@ =~= b@);
    true
}

fn skip_chars(v: &Vec<char>, n: usize) -> (r: Vec<char>)
    requires
        n <= v@.len(),
    ensures
        r@ == v@.skip(n as int),
{
    let mut out: Vec<char> = Vec::new();
    let mut i: usize = n;
    while i < v.len()
        invariant
            n <= i <= v@.len(),
            out@ == v@.subrange(n as int, i as int),
        decreases v@.len() - i,
    {
        out.push(v[i]);
        assert(v@.subrange(n as int, i + 1) =~= v@.subrange(n as int, i as int).push(v@[i as int]));
        i += 1;
    }
    assert(v@.skip(n as int) =~= v@.subrange(n as int, v@.len() as int));
    out
}

impl Entry {
    /// A copy of this entry.
    pub fn copy(&self) -> (r: Entry)
        ensures
            r@ == self@,
    {
        Entry { key: self.key.clone(), value: self.value.clone() }
    }
}

/// A copy of a table.
pub fn copy_entries(v: &Vec<Entry>) -> (r: Vec<Entry>)
    ensures
        table_of(r@) == table_of(v@),
{
    let mut out: Vec<Entry> = Vec::new();
    let mut i: usize = 0;
    while i < v.len()
        invariant
            i <= v@.len(),
            out@.len() == i,
            forall|k: int| 0 <= k < i ==> #[trigger] out@[k]@ == v@[k]@,
        decreases v@.len() - i,
    {
        out.push(v[i].copy());
        i += 1;
    }
    assert(table_of(out@) =~= table_of(v@));
    out
}

impl ValueContext {
    /// A context holding the given tables as they are.
    pub fn new(colors: &Vec<Entry>, vars: &Vec<Entry>) -> (r: ValueContext)
        ensures
            r@.colors == table_of(colors@),
            r@.vars == table_of(vars@),
    {
        let r = ValueContext { colors: copy_entries(colors), vars: copy_entries(vars) };
        r
    }

    /// The value a token stands for: `colors.<name>` or `vars.<name>`.
    pub fn lookup(&self, token: &Vec<char>) -> (r: Option<&String>)
        ensures
            r is Some == (token_value(self@, token@) is Some),
            r is Some ==> r.unwrap()@ == token_value(self@, token@).unwrap(),
    {
        if starts_with(token, "colors.") {
            let rest = skip_chars(token, "colors.".unicode_len());
            return entry_lookup(&self.colors, &rest);
        }
        if starts_with(token, "vars.") {
            let rest = skip_chars(token, "vars.".unicode_len());
            return entry_lookup(&self.vars, &rest);
        }
        None
    }
}

fn append_str(out: &mut String, s: &String)
    ensures
        final(out)@ == old(out)@ + s@,
{
    out.append(s.as_str());
}

/// One substitution pass. With `warn_missing`, each brace pair naming no
/// known token adds a warning.
fn substitute_once(
    value: &String,
    ctx: &ValueContext,
    warnings: &mut Vec<String>,
    warn_missing: bool,
) -> (r: (String, bool))
    ensures
        (r.0@, r.1) == pass(value@, ctx@),
        extends(final(warnings)@, old(warnings)@),
        texts(final(warnings)@) == texts(old(warnings)@) + if warn_missing {
            unknown_token_messages(unknown_from(value@, ctx@, 0))
        } else {
            Seq::empty()
        },
{
    let chars = chars_of(value.as_str());
    let n = chars.len();
    let mut result = String::new();
    let mut changed = false;
    let mut cursor: usize = 0;
    let ghost start = scan(chars@, ctx@, 0, Seq::empty(), false);
    assert(result@ =~= Seq::<char>::empty());
    assert(texts(old(warnings)@) + unknown_token_messages(unknown_from(chars@, ctx@, 0)) =~= texts(warnings@) + unknown_token_messages(unknown_from(chars@, ctx@, 0)));
    while cursor < n
        invariant
            n == chars@.len(),
            chars@ == value@,
            cursor <= n,
            start == scan(chars@, ctx@, 0, Seq::empty(), false),
            start == scan(chars@, ctx@, cursor as int, result@, changed),
            warn_missing ==> texts(old(warnings)@) + unknown_token_messages(unknown_from(chars@, ctx@, 0))
                == texts(warnings@) + unknown_token_messages(unknown_from(chars@, ctx@, cursor as int)),
            !warn_missing ==> texts(warnings@) == texts(old(warnings)@),
            extends(warnings@, old(warnings)@),
        decreases n - cursor,
    {
        if chars[cursor] == '{' {
            if let Some(close) = find_char(&chars, cursor + 1, '}') {
                let token = chars_subrange(&chars, cursor + 1, close);
                match ctx.lookup(&token) {
                    Some(val) => {
                        let ghost before = result@;
                        append_str(&mut result, val);
                        assert(close as int == find_from(chars@, cursor + 1, '}'));
                        assert(token@ == chars@.subrange(cursor + 1, close as int));
                        assert(token_value(ctx@, token@) is Some);
                        assert(val@ == token_value(ctx@, token@).unwrap());
                        assert(result@ == before + val@);
                        assert(scan(chars@, ctx@, cursor as int, before, changed) == scan(chars@, ctx@, close + 1, result@, true));
                        cursor = close + 1;
                        changed = true;
                        continue;
                    },
                    None => {
                        if warn_missing {
                            let mut msg = String::from_str("Unknown token {");
                            msg.append(string_of(&token, 0, token.len()).as_str());
                            msg.append("}");
                            assert(token@.subrange(0, token@.len() as int) =~= token@);
                            let ghost before = warnings@;
                            warnings.push(msg);
                            proof {
                                let u = unknown_from(chars@, ctx@, cursor + 1);
                                assert(unknown_from(chars@, ctx@, cursor as int) == seq![token@] + u);
                                assert(texts(warnings@) =~= texts(before).push(msg@));
                                assert(unknown_token_messages(seq![token@] + u) =~= seq![unknown_token_message(token@)] + unknown_token_messages(u));
                                assert(msg@ == unknown_token_message(token@));
                                assert(texts(before).push(msg@) + unknown_token_messages(u) =~= texts(before) + unknown_token_messages(seq![token@] + u));
                            }
                        }
                    },
                }
            }
        }
        push_char(&mut result, chars[cursor]);
        cursor += 1;
    }
    (result, changed)
}

fn chars_subrange(v: &Vec<char>, from: usize, to: usize) -> (r: Vec<char>)
    requires
        from <= to <= v@.len(),
    ensures
        r@ == v@.subrange(from as int, to as int),
{
    let mut out: Vec<char> = Vec::new();
    let mut i: usize = from;
    while i < to
        invariant
            from <= i <= to <= v@.len(),
            out@ == v@.subrange(from as int, i as int),
        decreases to - i,
    {
        out.push(v[i]);
        assert(v@.subrange(from as int, i + 1) =~= v@.subrange(from as int, i as int).push(v@[i as int]));
        i += 1;
    }
    out
}

/// Resolves the tokens of `value` against `ctx`, in at most `TOKEN_PASSES`
/// passes. With `warn_missing`, unknown tokens are reported in `warnings`.
pub fn resolve_tokens_with_opts(
    value: &String,
    ctx: &ValueContext,
    warnings: &mut Vec<String>,
    warn_missing: bool,
) -> (r: String)
    ensures
        r@ == resolve_spec(value@, ctx@),
        extends(final(warnings)@, old(warnings)@),
        texts(final(warnings)@) == texts(old(warnings)@) + token_warnings(value@, ctx@, warn_missing),
        !warn_missing ==> final(warnings)@ == old(warnings)@,
{
    let mut out = value.clone();
    let mut left: usize = TOKEN_PASSES;
    while left > 0
        invariant
            left <= TOKEN_PASSES,
            resolve_spec(value@, ctx@) == iterate(out@, ctx@, left as nat),
            extends(warnings@, old(warnings)@),
            warn_missing ==> texts(old(warnings)@) + unknown_token_messages(unknown_tokens(value@, ctx@, TOKEN_PASSES as nat))
                == texts(warnings@) + unknown_token_messages(unknown_tokens(out@, ctx@, left as nat)),
            !warn_missing ==> warnings@ == old(warnings)@,
        decreases left,
    {
        let ghost before = warnings@;
        let (next, changed) = substitute_once(&out, ctx, warnings, warn_missing);
        proof {
            if !warn_missing {
                assert(warnings@ =~= before) by {
                    assert forall|i: int| 0 <= i < warnings@.len() implies warnings@[i] == before[i] by {}
                }
            }
        }
        out = next;
        left -= 1;
        if !changed {
            return out;
        }
    }
    out
}

/// Resolves the tokens of a component field, reporting unknown tokens.
pub fn resolve_tokens(value: &String, ctx: &ValueContext, warnings: &mut Vec<String>) -> (r: String)
    ensures
        r@ == resolve_spec(value@, ctx@),
        extends(final(warnings)@, old(warnings)@),
        texts(final(warnings)@) == texts(old(warnings)@) + token_warnings(value@, ctx@, true),
{
    resolve_tokens_with_opts(value, ctx, warnings, true)
}

pub open spec fn table_in(ctx: ContextView, colors: bool) -> Table {
    if colors {
        ctx.colors
    } else {
        ctx.vars
    }
}

pub open spec fn with_table(ctx: ContextView, colors: bool, t: Table) -> ContextView {
    if colors {
        ContextView { colors: t, vars: ctx.vars }
    } else {
        ContextView { colors: ctx.colors, vars: t }
    }
}

/// Re-resolves the raw entries `raw[i..]` of one namespace against the
/// context as it stands, storing each result that differs from the stored
/// value; also says whether anything was stored.
pub open spec fn steps(raw: Table, ctx: ContextView, colors: bool, i: int, changed: bool) -> (
    ContextView,
    bool,
)
    decreases raw.len() - i,
{
    if i < 0 || i >= raw.len() {
        (ctx, changed)
    } else {
        let r = resolve_spec(raw[i].1, ctx);
        if lookup(table_in(ctx, colors), raw[i].0) != Some(r) {
            steps(
                raw,
                with_table(ctx, colors, upsert(table_in(ctx, colors), raw[i].0, r)),
                colors,
                i + 1,
                true,
            )
        } else {
            steps(raw, ctx, colors, i + 1, changed)
        }
    }
}

/// One pass over all colors, then all vars.
pub open spec fn context_pass(raw: ContextView, ctx: ContextView) -> (ContextView, bool) {
    let (c, ch) = steps(raw.colors, ctx, true, 0, false);
    steps(raw.vars, c, false, 0, ch)
}

/// Up to `n` passes, stopping after one that stored nothing.
pub open spec fn context_iterate(raw: ContextView, ctx: ContextView, n: nat) -> ContextView
    decreases n,
{
    if n == 0 {
        ctx
    } else {
        let (c, ch) = context_pass(raw, ctx);
        if ch {
            context_iterate(raw, c, (n - 1) as nat)
        } else {
            c
        }
    }
}

/// The context after fixed-point resolution of the raw tables.
pub open spec fn resolved_context(raw: ContextView) -> ContextView {
    context_iterate(raw, raw, TOKEN_PASSES as nat)
}

fn namespace_steps(
    raw: &Vec<Entry>,
    ctx: &mut ValueContext,
    colors: bool,
    changed: bool,
    warnings: &mut Vec<String>,
) -> (r: bool)
    ensures
        (final(ctx)@, r) == steps(table_of(raw@), old(ctx)@, colors, 0, changed),
        final(warnings)@ == old(warnings)@,
{
    let ghost init = changed;
    let mut changed = changed;
    let mut i: usize = 0;
    while i < raw.len()
        invariant
            i <= raw@.len(),
            steps(table_of(raw@), old(ctx)@, colors, 0, init) == steps(table_of(raw@), ctx@, colors, i as int, changed),
            warnings@ == old(warnings)@,
        decreases raw@.len() - i,
    {
        assert(table_of(raw@)[i as int] == raw@[i as int]@);
        let resolved = resolve_tokens_with_opts(&raw[i].value, ctx, warnings, false);
        let key = chars_of(raw[i].key.as_str());
        let same = if colors {
            match entry_lookup(&ctx.colors, &key) {
                Some(cur) => *cur == resolved,
                None => false,
            }
        } else {
            match entry_lookup(&ctx.vars, &key) {
                Some(cur) => *cur == resolved,
                None => false,
            }
        };
        let ghost before = ctx@;
        let ghost r = resolved@;
        assert(same == (lookup(table_in(before, colors), key@) == Some(r)));
        if !same {
            if colors {
                upsert_entry(&mut ctx.colors, &key, &raw[i].key, resolved);
            } else {
                upsert_entry(&mut ctx.vars, &key, &raw[i].key, resolved);
            }
            assert(ctx@ == with_table(before, colors, upsert(table_in(before, colors), key@, r)));
            changed = true;
        }
        i += 1;
    }
    changed
}

/// Resolves every raw color and var against the others: up to
/// `TOKEN_PASSES` passes, stopping early after a pass that changes nothing.
/// Cycles end when the passes run out.
pub fn resolve_context(colors: &Vec<Entry>, vars: &Vec<Entry>, warnings: &mut Vec<String>) -> (r:
    ValueContext)
    ensures
        r@ == resolved_context(ContextView { colors: table_of(colors@), vars: table_of(vars@) }),
        final(warnings)@ == old(warnings)@,
{
    let ghost raw = ContextView { colors: table_of(colors@), vars: table_of(vars@) };
    let mut ctx = ValueContext::new(colors, vars);
    let mut left: usize = TOKEN_PASSES;
    while left > 0
        invariant
            left <= TOKEN_PASSES,
            resolved_context(raw) == context_iterate(raw, ctx@, left as nat),
            raw == (ContextView { colors: table_of(colors@), vars: table_of(vars@) }),
            warnings@ == old(warnings)@,
        decreases left,
    {
        let ch = namespace_steps(colors, &mut ctx, true, false, warnings);
        let ch = namespace_steps(vars, &mut ctx, false, ch, warnings);
        left -= 1;
        if !ch {
            return ctx;
        }
    }
    ctx
}

} // verus!
