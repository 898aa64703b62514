use nowplaying_skin::tokens::{
    resolve_context, resolve_tokens, resolve_tokens_with_opts, Entry, ValueContext,
};

fn entry(k: &str, v: &str) -> Entry {
    Entry { key: k.to_string(), value: v.to_string() }
}

fn value_of<'a>(t: &'a [Entry], k: &str) -> &'a str {
    t.iter().find(|e| e.key == k).map(|e| e.value.as_str()).unwrap()
}

#[test]
fn tokens_are_replaced() {
    let ctx = ValueContext::new(
        &vec![entry("accent", "#4c8dff")],
        &vec![entry("radius", "18")],
    );
    let mut w = Vec::new();
    let r = resolve_tokens(&"a {colors.accent} b {vars.radius}".to_string(), &ctx, &mut w);
    assert_eq!(r, "a #4c8dff b 18");
    assert!(w.is_empty());
}

#[test]
fn unknown_token_is_kept_and_reported() {
    let ctx = ValueContext::new(&vec![], &vec![]);
    let mut w = Vec::new();
    let r = resolve_tokens(&"{colors.nope}".to_string(), &ctx, &mut w);
    assert_eq!(r, "{colors.nope}");
    assert_eq!(w, vec!["Unknown token {colors.nope}".to_string()]);
    let mut quiet = Vec::new();
    let r2 = resolve_tokens_with_opts(&"{vars.x".to_string(), &ctx, &mut quiet, false);
    assert_eq!(r2, "{vars.x");
    assert!(quiet.is_empty());
}

#[test]
fn multi_hop_chain_resolves() {
    let colors = vec![entry("a", "{vars.b}"), entry("c", "#010203")];
    let vars = vec![entry("b", "{colors.c}")];
    let mut w = Vec::new();
    let ctx = resolve_context(&colors, &vars, &mut w);
    assert_eq!(value_of(&ctx.colors, "a"), "#010203");
    assert_eq!(value_of(&ctx.vars, "b"), "#010203");
}

#[test]
fn two_cycle_terminates_with_stable_result() {
    let vars = vec![entry("a", "{vars.b}"), entry("b", "{vars.a}")];
    let mut w = Vec::new();
    let ctx = resolve_context(&vec![], &vars, &mut w);
    let a = value_of(&ctx.vars, "a").to_string();
    let b = value_of(&ctx.vars, "b").to_string();
    assert!(a.starts_with("{vars.") && b.starts_with("{vars."));
    let mut w2 = Vec::new();
    let again = resolve_context(&vec![], &vars, &mut w2);
    assert_eq!(value_of(&again.vars, "a"), a);
    assert_eq!(value_of(&again.vars, "b"), b);
}

#[test]
fn passes_without_warn_flag_add_no_warnings() {
    let ctx = ValueContext::new(&vec![], &vec![entry("a", "{vars.b}"), entry("b", "{vars.a}")]);
    let mut w = vec!["earlier".to_string()];
    let r = resolve_tokens_with_opts(&"{vars.a} {colors.x}".to_string(), &ctx, &mut w, false);
    assert_eq!(r, "{vars.b} {colors.x}");
    assert_eq!(w, vec!["earlier".to_string()]);
}
