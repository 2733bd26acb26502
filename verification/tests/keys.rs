use ssh_agent_filter::identities::{
    identities_request, parse_identities_answer, write_identities, Answer, Fault, Identity,
};
use ssh_agent_filter::keys::{same_bytes, KeyNames, KeySet};

#[test]
fn bytes_are_compared() {
    assert!(same_bytes(b"", b""));
    assert!(same_bytes(b"abc", b"abc"));
    assert!(!same_bytes(b"abc", b"abd"));
    assert!(!same_bytes(b"ab", b"abc"));
}

#[test]
fn a_set_holds_what_was_put_in() {
    let mut set = KeySet::new();
    assert!(!set.contains(b"a"));
    set.insert(b"a");
    set.insert(b"b");
    set.insert(b"a");
    assert!(set.contains(b"a"));
    assert!(set.contains(b"b"));
    assert!(!set.contains(b"ab"));
}

#[test]
fn a_name_is_replaced() {
    let mut names = KeyNames::new();
    assert_eq!(names.get(b"a"), None);
    names.insert(b"a", "one".to_string());
    names.insert(b"b", "two".to_string());
    names.insert(b"a", "three".to_string());
    assert_eq!(names.get(b"a"), Some(&"three".to_string()));
    assert_eq!(names.get(b"b"), Some(&"two".to_string()));
    assert!(names.contains_key(b"b"));
    assert!(!names.contains_key(b"c"));
}

fn keys(answer: &[u8]) -> (Vec<(Vec<u8>, Vec<u8>)>, Option<Fault>) {
    match parse_identities_answer(answer) {
        Answer::Keys(list) => (
            list.entries.into_iter().map(|e| (e.key, e.comment)).collect(),
            list.fault,
        ),
        _ => panic!("no list of keys"),
    }
}

#[test]
fn a_list_of_keys_is_read_back() {
    let packet = write_identities(&[
        Identity { key: vec![1, 2], comment: b"one".to_vec() },
        Identity { key: vec![], comment: vec![] },
    ]);
    let expected = vec![(vec![1, 2], b"one".to_vec()), (vec![], vec![])];
    assert_eq!(keys(&packet), (expected, None));
}

#[test]
fn a_list_says_where_it_breaks_off() {
    let data = [12, 0, 0, 0, 2, 0, 0, 0, 1, 7, 0, 0, 0, 0, 0, 0, 0, 1, 8, 0];
    let first = vec![(vec![7], vec![])];
    assert_eq!(keys(&data), (first.clone(), Some(Fault::Comment)));
    assert_eq!(keys(&data[..16]), (first, Some(Fault::Key)));
    assert_eq!(keys(&[12, 0xff, 0xff, 0xff, 0xff]), (vec![], Some(Fault::Key)));
}

#[test]
fn other_answers_are_told_apart() {
    assert!(matches!(parse_identities_answer(&[]), Answer::NoType));
    assert!(matches!(parse_identities_answer(&[5]), Answer::Other));
    assert!(matches!(parse_identities_answer(&[12, 0, 0, 0]), Answer::NoCount));
    assert!(matches!(parse_identities_answer(&[12, 0, 0, 0, 0]), Answer::Keys(_)));
}

#[test]
fn only_as_many_entries_as_announced_are_read() {
    let data = [12, 0, 0, 0, 1, 0, 0, 0, 1, 7, 0, 0, 0, 0, 9];
    assert_eq!(keys(&data), (vec![(vec![7], vec![])], None));
}

#[test]
fn the_keys_are_asked_for() {
    assert_eq!(identities_request(), vec![11]);
}
