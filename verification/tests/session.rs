use ssh_agent_filter::identities::{write_identities, Fault, Identity};
use ssh_agent_filter::keys::{KeyNames, KeySet};
use ssh_agent_filter::session::{Action, Complaint, Event, KeyFilter, SignFault, State};
use ssh_agent_filter::setup::{setup_filters, Selectors};
use ssh_agent_filter::wire::BufferWriter;

/// A filter that allows "open" and asks about "asked".
fn filter(all_confirmed: bool, name: Option<&str>) -> KeyFilter {
    let mut allowed = KeySet::new();
    allowed.insert(b"open");
    let mut confirmed = KeyNames::new();
    confirmed.insert(b"asked", "my key".to_string());
    KeyFilter { allowed, confirmed, all_confirmed, name: name.map(|s| s.to_string()) }
}

fn entry(key: &[u8], comment: &[u8]) -> Identity {
    Identity { key: key.to_vec(), comment: comment.to_vec() }
}

fn sign(key: &[u8], data: &[u8]) -> Vec<u8> {
    let mut writer = BufferWriter::new();
    writer.write_u8(13);
    writer.write_string(key);
    writer.write_string(data);
    writer.write_u32(0);
    writer.into_inner()
}

fn login(user: &[u8]) -> Vec<u8> {
    let mut writer = BufferWriter::new();
    writer.write_string(b"session");
    writer.write_u8(60);
    writer.write_string(user);
    writer.write_string(b"ssh-connection");
    writer.write_string(b"publickey");
    writer.write_u8(1);
    writer.write_string(b"ssh-rsa");
    writer.write_string(b"pubkey");
    writer.into_inner()
}

fn send(filter: &KeyFilter, packet: &[u8]) -> (State, Action) {
    filter.step_at(State::Idle, Event::ClientSent(packet.to_vec()), 0)
}

fn list(filter: &KeyFilter, answer: &[u8]) -> (State, Action) {
    filter.step_at(State::Listing, Event::AgentAnswered(answer.to_vec()), 0)
}

fn answers(step: &(State, Action), must_reach: bool, packet: &[u8], why: Option<Complaint>) -> bool {
    match step {
        (State::Answering { must }, Action::Answer(sent, complaint)) => {
            *must == must_reach && sent == packet && *complaint == why
        }
        _ => false,
    }
}

fn asks_agent(step: &(State, Action), packet: &[u8]) -> bool {
    matches!(&step.1, Action::AskAgent(sent) if sent == packet)
}

#[test]
fn a_connection_starts_by_reading() {
    assert!(matches!(filter(false, None).start(), (State::Idle, Action::Read)));
}

#[test]
fn an_empty_packet_is_passed_over() {
    assert!(matches!(send(&filter(false, None), &[]), (State::Idle, Action::Read)));
}

#[test]
fn the_list_of_keys_is_asked_for_as_it_came() {
    let step = send(&filter(false, None), &[11, 9]);
    assert!(asks_agent(&step, &[11, 9]));
    assert!(matches!(step.0, State::Listing));
}

#[test]
fn the_list_is_cut_down_to_the_shown_keys() {
    let f = filter(false, None);
    let all = write_identities(&[
        entry(b"asked", b"one"),
        entry(b"hidden", b"two"),
        entry(b"open", &[0xff, b'!']),
        entry(b"open", b"again"),
    ]);
    let shown = write_identities(&[
        entry(b"asked", b"one"),
        entry(b"open", &[0xff, b'!']),
        entry(b"open", b"again"),
    ]);
    assert!(answers(&list(&f, &all), true, &shown, None));
    assert!(answers(&list(&f, &[12, 0, 0, 0, 0, 7]), true, &[12, 0, 0, 0, 0], None));
}

#[test]
fn a_key_loaded_later_is_not_listed_even_if_all_are_confirmed() {
    let all = write_identities(&[entry(b"new", b"x")]);
    assert!(answers(&list(&filter(true, None), &all), true, &[12, 0, 0, 0, 0], None));
}

#[test]
fn a_list_that_breaks_off_is_not_shown() {
    let f = filter(false, None);
    let gives_up = |answer: &[u8], why| answers(&list(&f, answer), false, &[5], Some(why));
    assert!(gives_up(&[], Complaint::AnswerType));
    assert!(gives_up(&[12, 0, 0, 0], Complaint::AnswerCount));
    assert!(gives_up(&[12, 0, 0, 0, 1], Complaint::AnswerEntry(Fault::Key)));
    let whole = write_identities(&[entry(b"open", b"a"), entry(b"open", b"b")]);
    assert!(gives_up(&whole[..whole.len() - 1], Complaint::AnswerEntry(Fault::Comment)));
}

#[test]
fn another_answer_of_the_agent_goes_to_the_client() {
    assert!(answers(&list(&filter(false, None), &[5, 1]), false, &[5, 1], None));
}

#[test]
fn an_allowed_key_signs_at_once() {
    let f = filter(false, None);
    let request = sign(b"open", b"data");
    let step = send(&f, &request);
    assert!(asks_agent(&step, &request));
    let step = f.step_at(step.0, Event::AgentAnswered(vec![14, 3]), 0);
    assert!(answers(&step, true, &[14, 3], None));
    let step = f.step_at(step.0, Event::Delivered, 0);
    assert!(matches!(step, (State::Idle, Action::Read)));
}

#[test]
fn an_unknown_key_does_not_sign() {
    assert!(answers(&send(&filter(false, None), &sign(b"hidden", b"data")), true, &[5], None));
}

fn question(step: &(State, Action)) -> &str {
    match &step.1 {
        Action::AskUser(text) => text,
        _ => panic!("no question"),
    }
}

#[test]
fn the_user_decides_about_a_confirmed_key() {
    let f = filter(false, None);
    let request = sign(b"asked", b"data");
    let step = send(&f, &request);
    assert_eq!(
        question(&step),
        "Something behind the ssh-agent-filter requested use of the key named 'my key'.\n\
         The request format is unknown."
    );
    let yes = f.step_at(step.0, Event::UserAnswered(true), 0);
    assert!(asks_agent(&yes, &request));
    assert!(matches!(yes.0, State::Signing));

    let step = send(&f, &request);
    let no = f.step_at(step.0, Event::UserAnswered(false), 0);
    assert!(answers(&no, true, &[5], None));
}

#[test]
fn the_question_names_the_filter_and_describes_the_request() {
    let f = filter(true, Some("laptop"));
    let step = send(&f, &sign(b"hidden", &login(b"root")));
    let text = "Something behind the ssh-agent-filter named 'laptop' requested use of the key \
                named 'Unknown key (catch-all)'.\nThe request is for an ssh connection as user \
                'root' with service name 'ssh-connection'.";
    assert_eq!(question(&step), text);
    assert_eq!(f.question("Unknown key (catch-all)", &login(b"root"), 0), text);
}

#[test]
fn a_sign_request_that_breaks_off_is_given_up() {
    let f = filter(true, None);
    let step = send(&f, &[13, 0, 0]);
    assert!(answers(&step, false, &[5], Some(Complaint::SignRequest(SignFault::Key))));
    let step = send(&f, &[13, 0, 0, 0, 0, 1]);
    assert!(answers(&step, false, &[5], Some(Complaint::SignRequest(SignFault::Data))));
}

#[test]
fn protocol_1_has_no_keys() {
    let f = filter(true, None);
    assert!(answers(&send(&f, &[1]), true, &[2, 0, 0, 0, 0], None));
    assert!(answers(&send(&f, &[9]), true, &[6], None));
}

#[test]
fn all_other_requests_are_refused() {
    let f = filter(true, None);
    for kind in 0..=255u8 {
        if ![1, 9, 11, 13].contains(&kind) {
            assert!(answers(&send(&f, &[kind, 1, 2]), true, &[5], None));
        }
    }
}

#[test]
fn a_connection_outlives_the_agent() {
    let f = filter(false, None);
    assert!(answers(&f.step_at(State::Listing, Event::AgentFailed, 0), false, &[5], None));
    assert!(answers(&f.step_at(State::Signing, Event::AgentFailed, 0), false, &[5], None));
}

#[test]
fn a_connection_ends_with_its_client() {
    let f = filter(false, None);
    let end = f.step_at(State::Idle, Event::ClientClosed, 0);
    assert!(matches!(end, (State::Closed, Action::Finish)));
    let end = f.step_at(State::Idle, Event::ClientFailed, 0);
    assert!(matches!(end, (State::Closed, Action::Abort)));
    let end = f.step_at(State::Answering { must: true }, Event::NotDelivered, 0);
    assert!(matches!(end, (State::Closed, Action::Abort)));
    let on = f.step_at(State::Answering { must: false }, Event::NotDelivered, 0);
    assert!(matches!(on, (State::Idle, Action::Read)));
}

#[test]
fn a_state_knows_its_events() {
    assert!(State::Idle.expects(&Event::ClientSent(vec![])));
    assert!(!State::Idle.expects(&Event::Delivered));
    assert!(State::Confirming(vec![]).expects(&Event::UserAnswered(false)));
    assert!(!State::Confirming(vec![]).expects(&Event::AgentFailed));
    assert!(State::Signing.expects(&Event::AgentFailed));
    assert!(State::Answering { must: true }.expects(&Event::NotDelivered));
    assert!(!State::Closed.expects(&Event::ClientClosed));
}

#[test]
fn a_step_now_is_a_step_at_some_time() {
    let f = filter(false, None);
    let step = f.step(State::Idle, Event::ClientSent(sign(b"asked", b"data")));
    assert!(question(&step).ends_with("The request format is unknown."));
}

fn made_by(sel: &Selectors, answer: &[u8]) -> KeyFilter {
    match setup_filters(answer, sel).outcome {
        Ok(keys) => KeyFilter::new(keys, sel, Some("laptop".to_string())),
        Err(e) => panic!("{}", e.message()),
    }
}

#[test]
fn a_key_that_is_not_named_is_out_of_reach() {
    let agent = write_identities(&[entry(b"k1", b"work"), entry(b"k2", b"home")]);
    let sel = Selectors::new(vec!["work".to_string()], vec![], &[], &[], vec![], vec![], false);
    let f = made_by(&sel, &agent);
    assert!(answers(&list(&f, &agent), true, &write_identities(&[entry(b"k1", b"work")]), None));
    assert!(answers(&send(&f, &sign(b"k2", b"d")), true, &[5], None));
}

#[test]
fn with_all_confirmed_the_list_stays_whole() {
    let agent = write_identities(&[entry(b"k1", b"work"), entry(b"k2", b"home")]);
    let sel = Selectors::new(vec![], vec![], &[], &[], vec![], vec![], true);
    assert!(answers(&list(&made_by(&sel, &agent), &agent), true, &agent, None));
}

#[test]
fn a_filter_keeps_its_name_and_the_catch_all() {
    let sel = Selectors::new(vec![], vec![], &[], &[], vec![], vec![], true);
    let f = made_by(&sel, &write_identities(&[]));
    assert_eq!(f.name, Some("laptop".to_string()));
    let step = send(&f, &sign(b"new", b"d"));
    assert!(question(&step).contains("named 'laptop' requested use of the key named 'Unknown key"));
}

#[test]
fn each_request_of_a_connection_is_answered_once() {
    let f = filter(false, None);
    let events = vec![
        Event::ClientSent(vec![]),
        Event::ClientSent(vec![11]),
        Event::AgentFailed,
        Event::NotDelivered,
        Event::ClientSent(sign(b"asked", b"d")),
        Event::UserAnswered(true),
        Event::AgentAnswered(vec![14]),
        Event::Delivered,
        Event::ClientSent(vec![1]),
        Event::Delivered,
        Event::ClientSent(sign(b"open", b"d")),
    ];
    let (mut state, _) = f.start();
    let mut answers = 0;
    for event in events {
        assert!(state.expects(&event));
        let (next, action) = f.step_at(state, event, 0);
        if matches!(action, Action::Answer(_, _)) {
            answers += 1;
        }
        state = next;
    }
    assert!(matches!(state, State::Signing));
    assert_eq!(answers, 3);
}

#[test]
fn the_question_ends_with_what_the_request_says() {
    assert_eq!(
        filter(false, None).question_about("k", Some("It says so.".to_string())),
        "Something behind the ssh-agent-filter requested use of the key named 'k'.\nIt says so."
    );
    assert_eq!(
        filter(false, Some("n")).question_about("k", None),
        "Something behind the ssh-agent-filter named 'n' requested use of the key named 'k'.\n\
         The request format is unknown."
    );
}
