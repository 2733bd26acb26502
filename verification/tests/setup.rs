use ssh_agent_filter::fingerprint::{base64_encode, md5_hex};
use ssh_agent_filter::identities::{write_identities, Identity};
use ssh_agent_filter::setup::{setup_filters, Access, SelectedKeys, Selectors, SetupError};
use ssh_agent_filter::warnings::{
    shorten_key, unmatched_warnings, warnings_before_cut, warnings_printable,
};

fn texts(list: &[&str]) -> Vec<String> {
    list.iter().map(|s| s.to_string()).collect()
}

fn none() -> Selectors {
    Selectors::new(vec![], vec![], &[], &[], vec![], vec![], false)
}

fn answer(keys: &[(&[u8], &[u8])]) -> Vec<u8> {
    let entries: Vec<Identity> = keys
        .iter()
        .map(|(key, comment)| Identity { key: key.to_vec(), comment: comment.to_vec() })
        .collect();
    write_identities(&entries)
}

fn select(answer: &[u8], sel: &Selectors) -> SelectedKeys {
    match setup_filters(answer, sel).outcome {
        Ok(selected) => selected,
        Err(e) => panic!("{}", e.message()),
    }
}

#[test]
fn list_of_keys_is_written() {
    assert_eq!(
        answer(&[(b"K", b"cd")]),
        vec![12, 0, 0, 0, 1, 0, 0, 0, 1, b'K', 0, 0, 0, 2, b'c', b'd']
    );
    assert_eq!(answer(&[]), vec![12, 0, 0, 0, 0]);
}

#[test]
fn keys_are_selected_by_comment() {
    let mut sel = none();
    sel.allowed_comments = texts(&["work"]);
    sel.confirmed_comments = texts(&["home"]);
    let keys = answer(&[(b"k1", b"work"), (b"k2", b"home"), (b"k3", b"other")]);
    let selected = select(&keys, &sel);
    assert!(selected.allowed.contains(b"k1"));
    assert!(!selected.confirmed.contains_key(b"k1"));
    assert!(!selected.allowed.contains(b"k2"));
    assert_eq!(selected.confirmed.get(b"k2"), Some(&"home".to_string()));
    assert!(!selected.allowed.contains(b"k3"));
    assert_eq!(selected.confirmed.get(b"k3"), None);
}

#[test]
fn keys_are_selected_by_fingerprint_as_typed() {
    let shown = md5_hex(b"abc").to_uppercase();
    let colons: Vec<String> =
        (0..16).map(|i| shown[2 * i..2 * i + 2].to_string()).collect();
    let sel = Selectors::new(vec![], vec![], &[colons.join(":")], &[], vec![], vec![], false);
    assert_eq!(sel.allowed_md5s, vec![md5_hex(b"abc")]);
    let selected = select(&answer(&[(b"abc", b"c"), (b"abd", b"c")]), &sel);
    assert!(selected.allowed.contains(b"abc"));
    assert!(!selected.allowed.contains(b"abd"));
}

#[test]
fn keys_are_selected_by_base64() {
    let mut sel = none();
    sel.allowed_b64s = vec![base64_encode(b"k1")];
    sel.confirmed_b64s = vec![base64_encode(b"k2")];
    let selected = select(&answer(&[(b"k1", b"x"), (b"k2", b"x"), (b"k3", b"x")]), &sel);
    assert!(selected.allowed.contains(b"k1"));
    assert!(!selected.allowed.contains(b"k2"));
    assert!(selected.confirmed.contains_key(b"k2"));
    assert!(!selected.allowed.contains(b"k3"));
    assert!(!selected.confirmed.contains_key(b"k3"));
}

#[test]
fn keys_are_confirmed_by_fingerprint() {
    let typed = [md5_hex(b"k2")];
    let sel = Selectors::new(vec![], vec![], &[], &typed, vec![], vec![], false);
    let selected = select(&answer(&[(b"k1", b"a"), (b"k2", b"b")]), &sel);
    assert!(!selected.confirmed.contains_key(b"k1"));
    assert_eq!(selected.confirmed.get(b"k2"), Some(&"b".to_string()));
}

#[test]
fn all_other_keys_with_confirmation() {
    let mut sel = none();
    sel.allowed_comments = texts(&["work"]);
    sel.all_confirmed = true;
    let selected = select(&answer(&[(b"k1", b"work"), (b"k2", b"other")]), &sel);
    assert!(selected.allowed.contains(b"k1"));
    assert!(!selected.confirmed.contains_key(b"k1"));
    assert_eq!(selected.confirmed.get(b"k2"), Some(&"other".to_string()));
}

#[test]
fn a_key_named_for_both_uses_is_allowed() {
    let mut sel = none();
    sel.allowed_comments = texts(&["work"]);
    sel.confirmed_comments = texts(&["work"]);
    let setup = setup_filters(&answer(&[(b"k1", b"work")]), &sel);
    assert_eq!(setup.loaded[0].access, Access::Allowed);
}

#[test]
fn the_last_comment_names_a_key() {
    let mut sel = none();
    sel.all_confirmed = true;
    let selected = select(&answer(&[(b"k", b"one"), (b"k", b"two")]), &sel);
    assert_eq!(selected.confirmed.get(b"k"), Some(&"two".to_string()));
}

#[test]
fn loaded_keys_are_reported() {
    let mut sel = none();
    sel.allowed_comments = texts(&["a\u{fffd}"]);
    let setup = setup_filters(&answer(&[(b"abc", &[b'a', 0xff]), (b"f", b"x")]), &sel);
    assert_eq!(setup.loaded.len(), 2);
    assert_eq!(setup.loaded[0].comment, "a\u{fffd}");
    assert_eq!(setup.loaded[0].md5, "900150983cd24fb0d6963f7d28e17f72");
    assert_eq!(setup.loaded[0].b64, "YWJj");
    assert_eq!(setup.loaded[0].access, Access::Allowed);
    assert_eq!(setup.loaded[1].comment, "x");
    assert_eq!(setup.loaded[1].b64, "Zg==");
    assert_eq!(setup.loaded[1].access, Access::Hidden);
}

fn fails(answer: &[u8], error: SetupError, loaded: usize) {
    let setup = setup_filters(answer, &none());
    assert_eq!(setup.loaded.len(), loaded);
    match setup.outcome {
        Ok(_) => panic!("no error"),
        Err(e) => assert_eq!(e, error),
    }
}

#[test]
fn a_broken_answer_is_an_error() {
    fails(&[], SetupError::UnexpectedEnd, 0);
    fails(&[12, 0, 0], SetupError::UnexpectedEnd, 0);
    fails(&[5], SetupError::UnexpectedType, 0);
    let whole = answer(&[(b"k1", b"a"), (b"k2", b"b")]);
    fails(&whole[..whole.len() - 1], SetupError::UnexpectedEnd, 1);
    assert_eq!(SetupError::UnexpectedEnd.message(), "unexpected end of buffer");
    assert_eq!(
        SetupError::UnexpectedType.message(),
        "Unexpected response type from upstream agent"
    );
}

#[test]
fn bytes_behind_the_last_key_do_not_count() {
    let mut sel = none();
    sel.all_confirmed = true;
    let mut keys = answer(&[(b"k1", b"a")]);
    keys.push(7);
    assert!(select(&keys, &sel).confirmed.contains_key(b"k1"));
}

#[test]
fn selectors_without_a_key_are_warned_about() {
    let sel = Selectors::new(
        texts(&["work", "gone"]),
        texts(&["home"]),
        &texts(&["AA:bb"]),
        &texts(&["cc"]),
        texts(&["abcdefghijklmnopqrst", "abcdefghijklmnopqrstu"]),
        texts(&["k"]),
        false,
    );
    let selected = select(&answer(&[(b"k1", b"work")]), &sel);
    assert!(warnings_printable(&sel, &selected.found));
    assert_eq!(
        unmatched_warnings(&sel, &selected.found),
        texts(&[
            "Warning: Allowed key specified by comment 'gone' was not found in the upstream agent.",
            "Warning: Confirmed key specified by comment 'home' was not found in the upstream agent.",
            "Warning: Allowed key specified by fingerprint 'aabb' was not found in the upstream agent.",
            "Warning: Confirmed key specified by fingerprint 'cc' was not found in the upstream agent.",
            "Warning: Allowed key specified by base64 pubkey 'abcdefghijklmnopqrst' was not found in the upstream agent.",
            "Warning: Allowed key specified by base64 pubkey 'abcdefghijklmnopqrst...' was not found in the upstream agent.",
            "Warning: Confirmed key specified by base64 pubkey 'k' was not found in the upstream agent.",
        ])
    );
}

#[test]
fn selectors_that_found_their_key_are_silent() {
    let sel = Selectors::new(
        texts(&["a"]),
        texts(&["b"]),
        &[md5_hex(b"k3")],
        &[md5_hex(b"k4")],
        vec![base64_encode(b"k5")],
        vec![base64_encode(b"k6")],
        false,
    );
    let keys = answer(&[
        (b"k1", b"a"),
        (b"k2", b"b"),
        (b"k3", b"-"),
        (b"k4", b"-"),
        (b"k5", b"-"),
        (b"k6", b"-"),
    ]);
    let selected = select(&keys, &sel);
    assert!(unmatched_warnings(&sel, &selected.found).is_empty());
}

#[test]
fn a_confirmed_selector_of_an_allowed_key_is_warned_about() {
    let mut sel = none();
    sel.allowed_b64s = vec![base64_encode(b"k1")];
    sel.confirmed_comments = texts(&["work"]);
    let selected = select(&answer(&[(b"k1", b"work")]), &sel);
    assert_eq!(unmatched_warnings(&sel, &selected.found).len(), 1);
}

#[test]
fn a_key_that_cannot_be_cut_is_found_out() {
    let mut sel = none();
    sel.allowed_b64s = texts(&["abcdefghijklmnopqrs\u{e9}"]);
    let selected = select(&answer(&[]), &sel);
    assert!(!warnings_printable(&sel, &selected.found));
    sel.allowed_b64s = texts(&["abcdefghijklmnopqr\u{e9}u"]);
    assert!(warnings_printable(&sel, &selected.found));
    assert_eq!(shorten_key("abcdefghijklmnopqr\u{e9}u"), "abcdefghijklmnopqr\u{e9}...");
    assert_eq!(shorten_key("short"), "short");
}

#[test]
fn a_key_is_named_by_any_of_its_texts() {
    let sel = Selectors::new(
        texts(&["c1"]),
        texts(&["c2"]),
        &texts(&["0A"]),
        &texts(&["0B"]),
        texts(&["b1"]),
        texts(&["b2"]),
        false,
    );
    assert_eq!(sel.access("c1", "0b", "b2"), Access::Allowed);
    assert_eq!(sel.access("c2", "0a", "b2"), Access::Allowed);
    assert_eq!(sel.access("c2", "0b", "b1"), Access::Allowed);
    assert_eq!(sel.access("c2", "-", "-"), Access::Confirmed);
    assert_eq!(sel.access("-", "0b", "-"), Access::Confirmed);
    assert_eq!(sel.access("-", "-", "b2"), Access::Confirmed);
    assert_eq!(sel.access("0a", "b1", "c1"), Access::Hidden);
}

#[test]
fn warnings_go_as_far_as_keys_can_be_cut() {
    let uncut = "abcdefghijklmnopqrs\u{e9}";
    let warning = |kind: &str, shown: &str| {
        format!("Warning: {} '{}' was not found in the upstream agent.", kind, shown)
    };
    let comment = warning("Allowed key specified by comment", "gone");
    let allowed = warning("Allowed key specified by base64 pubkey", "a");
    let confirmed = warning("Confirmed key specified by base64 pubkey", "c");
    let mut sel = none();
    sel.allowed_comments = texts(&["gone"]);
    sel.allowed_b64s = texts(&["a", uncut, "b"]);
    sel.confirmed_b64s = texts(&["c"]);
    let found = select(&answer(&[]), &sel).found;
    assert_eq!(warnings_before_cut(&sel, &found), vec![comment.clone(), allowed.clone()]);

    sel.allowed_b64s = texts(&["a"]);
    sel.confirmed_b64s = texts(&["c", uncut]);
    assert_eq!(
        warnings_before_cut(&sel, &found),
        vec![comment.clone(), allowed.clone(), confirmed.clone()]
    );

    sel.confirmed_b64s = texts(&["c"]);
    assert_eq!(warnings_before_cut(&sel, &found), unmatched_warnings(&sel, &found));
    assert_eq!(warnings_before_cut(&sel, &found), vec![comment, allowed, confirmed]);
}

#[test]
fn a_fingerprint_is_typed_in_any_way() {
    let digits = md5_hex(b"abc");
    let typed = format!("<{}-{} ?>", digits[..7].to_uppercase(), &digits[7..]);
    let sel = Selectors::new(vec![], vec![], &[typed], &[], vec![], vec![], false);
    assert!(select(&answer(&[(b"abc", b"c")]), &sel).allowed.contains(b"abc"));
}
