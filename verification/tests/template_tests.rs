use onvif_client::template::{chars_of, render, Substitution};

fn subs(pairs: &[(&str, &str)]) -> Vec<Substitution> {
    pairs.iter().map(|(n, v)| Substitution::new(n, v)).collect()
}

#[test]
fn render_replaces_a_placeholder() {
    let out = render("<id>$UUID$</id>", &subs(&[("UUID", "abc-123")]));
    assert_eq!(out, "<id>abc-123</id>");
}

#[test]
fn render_replaces_every_occurrence() {
    let out = render("$A$-$B$-$A$", &subs(&[("A", "1"), ("B", "22")]));
    assert_eq!(out, "1-22-1");
}

#[test]
fn render_leaves_unknown_placeholders() {
    let out = render("$UUID$ and $OTHER$", &subs(&[("UUID", "x")]));
    assert_eq!(out, "x and $OTHER$");
}

#[test]
fn render_ignores_extra_entries() {
    let out = render("plain text", &subs(&[("UUID", "x"), ("NOW", "y")]));
    assert_eq!(out, "plain text");
}

#[test]
fn render_with_empty_mapping_is_identity() {
    let out = render("$UUID$ costs 5$", &Vec::new());
    assert_eq!(out, "$UUID$ costs 5$");
}

#[test]
fn render_keeps_multibyte_text() {
    let out = render("héllo $NAME$ — 日本語$NAME$", &subs(&[("NAME", "wörld ✓")]));
    assert_eq!(out, "héllo wörld ✓ — 日本語wörld ✓");
}

#[test]
fn render_does_not_read_values_again() {
    let out = render("$A$", &subs(&[("A", "$B$"), ("B", "no")]));
    assert_eq!(out, "$B$");
}

#[test]
fn render_first_entry_of_a_name_counts() {
    let out = render("$A$", &subs(&[("A", "first"), ("A", "second")]));
    assert_eq!(out, "first");
}

#[test]
fn render_leaves_no_sentinel_of_supplied_names() {
    let template = "<a>$UUID$</a><u>$USERNAME$</u><p>$PASSHASH$</p><n>$NONCE$</n><t>$NOW$</t>";
    let mapping = subs(&[
        ("UUID", "id"),
        ("USERNAME", "alice"),
        ("PASSHASH", "aGFzaA=="),
        ("NONCE", "bm9uY2U="),
        ("NOW", "2024-01-02T03:04:05Z"),
    ]);
    let out = render(template, &mapping);
    assert_eq!(
        out,
        "<a>id</a><u>alice</u><p>aGFzaA==</p><n>bm9uY2U=</n><t>2024-01-02T03:04:05Z</t>"
    );
    assert!(!out.contains('$'));
}

#[test]
fn render_handles_marks_that_open_nothing() {
    let out = render("$$A$ $A", &subs(&[("A", "v")]));
    assert_eq!(out, "$v $A");
}

#[test]
fn render_of_empty_template() {
    assert_eq!(render("", &subs(&[("A", "v")])), "");
}

#[test]
fn render_leaves_the_template_as_it_was() {
    let template = String::from("$A$");
    let first = render(&template, &subs(&[("A", "1")]));
    let second = render(&template, &subs(&[("A", "2")]));
    assert_eq!(template, "$A$");
    assert_eq!(first, "1");
    assert_eq!(second, "2");
}

#[test]
fn chars_of_gives_each_character() {
    assert_eq!(chars_of("aé日"), vec!['a', 'é', '日']);
}
