use ssh_agent_filter::auth_data::{
    dissect_auth_data_ssh, dissect_auth_data_ssh_at, dissect_pam_ssh_agent_auth,
    dissect_pam_ssh_agent_auth_at, login_message, pam_message, time_shown,
};
use ssh_agent_filter::wire::BufferWriter;

fn action(argc: u32, args: &[&[u8]]) -> Vec<u8> {
    let mut writer = BufferWriter::new();
    writer.write_u32(argc);
    for arg in args {
        writer.write_string(arg);
    }
    writer.into_inner()
}

fn pam_session(kind: u32, user: &[u8], ruser: &[u8], action: &[u8], time: u32) -> Vec<u8> {
    let mut writer = BufferWriter::new();
    writer.write_u32(kind);
    writer.write_string(b"cookie");
    writer.write_string(user);
    writer.write_string(ruser);
    writer.write_string(b"sudo");
    writer.write_string(b"/home/me");
    writer.write_string(action);
    writer.write_string(b"host");
    writer.write_u32(0);
    writer.write_u32(time);
    writer.into_inner()
}

fn login(session: &[u8], kind: u8, service: &[u8], method: &[u8], has_key: u8) -> Vec<u8> {
    let mut writer = BufferWriter::new();
    writer.write_string(session);
    writer.write_u8(kind);
    writer.write_string(b"alice");
    writer.write_string(service);
    writer.write_string(method);
    writer.write_u8(has_key);
    writer.write_string(b"ssh-ed25519");
    writer.write_string(b"pubkey");
    writer.into_inner()
}

#[test]
fn pam_request_is_described() {
    let session = pam_session(101, b"me", b"me", &action(2, &[b"ls", b"-l"]), 1000);
    assert_eq!(
        dissect_pam_ssh_agent_auth_at(&session, 1012).unwrap(),
        "User 'me' wants to use 'sudo' in '/home/me' to run ls -l on host.\n\
         The request was generated 12 seconds ago.\n"
    );
}

#[test]
fn pam_request_shows_both_users() {
    let session = pam_session(101, b"me", b"root", &action(0, &[]), 1000);
    assert_eq!(
        dissect_pam_ssh_agent_auth_at(&session, 1000).unwrap(),
        "User 'me (root)' wants to use 'sudo' in '/home/me' on host.\n\
         The request was generated 0 seconds ago.\n"
    );
}

#[test]
fn pam_request_from_the_future_is_fresh() {
    let session = pam_session(101, b"me", b"me", b"", 2000);
    assert_eq!(
        dissect_pam_ssh_agent_auth_at(&session, 1000).unwrap(),
        "User 'me' wants to use 'sudo' in '/home/me' on host.\n\
         The request was generated 0 seconds ago.\n"
    );
}

#[test]
fn missing_arguments_are_passed_over() {
    let session = pam_session(101, b"me", b"me", &action(5, &[b"ls"]), 0);
    let text = dissect_pam_ssh_agent_auth_at(&session, 0).unwrap();
    assert!(text.contains(" to run ls on host.\n"));

    // The first argument says that it is eight bytes long, and is not.
    let broken = [0, 0, 0, 2, 0, 0, 0, 8, 0, 0, 0, 1, b'x'];
    let session = pam_session(101, b"me", b"me", &broken, 0);
    let text = dissect_pam_ssh_agent_auth_at(&session, 0).unwrap();
    assert!(text.contains(" to run x on host.\n"));
}

#[test]
fn bytes_that_are_not_utf8_are_replaced() {
    let session = pam_session(101, &[b'a', 0xff], &[b'a', 0xfe], b"", 0);
    let text = dissect_pam_ssh_agent_auth_at(&session, 0).unwrap();
    assert!(text.starts_with("User 'a\u{fffd}' wants"));
}

#[test]
fn other_sessions_are_not_described() {
    let session = pam_session(100, b"me", b"me", b"", 0);
    assert_eq!(dissect_pam_ssh_agent_auth_at(&session, 0), None);
    assert_eq!(dissect_pam_ssh_agent_auth(&session), None);
    let session = pam_session(101, b"me", b"me", b"", 0);
    assert_eq!(dissect_pam_ssh_agent_auth_at(&session[..session.len() - 1], 0), None);
    for cut in 0..session.len() {
        assert_eq!(dissect_pam_ssh_agent_auth_at(&session[..cut], 0), None);
    }
}

#[test]
fn the_clock_is_read() {
    let session = pam_session(101, b"me", b"me", b"", 0);
    let text = dissect_pam_ssh_agent_auth(&session).unwrap();
    let tail = text.split("The request was generated ").nth(1).unwrap();
    let seconds: u64 = tail.split(' ').next().unwrap().parse().unwrap();
    assert!(seconds > 1_500_000_000);
}

#[test]
fn login_is_described() {
    let data = login(b"session", 60, b"ssh-connection", b"publickey", 1);
    let expected =
        "The request is for an ssh connection as user 'alice' with service name 'ssh-connection'.";
    assert_eq!(dissect_auth_data_ssh_at(&data, 5).unwrap(), expected);
    assert_eq!(dissect_auth_data_ssh(&data).unwrap(), expected);
}

#[test]
fn other_data_is_not_described() {
    assert_eq!(dissect_auth_data_ssh(&login(b"s", 50, b"x", b"publickey", 1)), None);
    assert_eq!(dissect_auth_data_ssh(&login(b"s", 60, b"x", b"password", 1)), None);
    assert_eq!(dissect_auth_data_ssh(&login(b"s", 60, b"x", b"publickey", 0)), None);
    let data = login(b"s", 60, b"x", b"publickey", 2);
    assert!(dissect_auth_data_ssh(&data).is_some());
    for cut in 0..data.len() {
        assert_eq!(dissect_auth_data_ssh(&data[..cut]), None);
    }
}

#[test]
fn pam_login_is_described_by_its_session() {
    let session = pam_session(101, b"me", b"me", b"", 10);
    let data = login(&session, 60, b"pam_ssh_agent_auth", b"publickey", 1);
    assert_eq!(dissect_auth_data_ssh_at(&data, 17), dissect_pam_ssh_agent_auth_at(&session, 17));
    let data = login(b"other", 60, b"pam_ssh_agent_auth", b"publickey", 1);
    assert_eq!(
        dissect_auth_data_ssh_at(&data, 17).unwrap(),
        "The request is for an ssh connection as user 'alice' with service name 'pam_ssh_agent_auth'."
    );
}

#[test]
fn messages_are_made_of_the_fields() {
    assert_eq!(
        pam_message("a", "b", "sudo", "/", " to run x", "h", 18446744073709551615, 3),
        "User 'a (b)' wants to use 'sudo' in '/' to run x on h.\n\
         The request was generated 0 seconds ago.\n"
    );
    assert_eq!(
        pam_message("a", "a", "s", "p", "", "h", 0, 18446744073709551615),
        "User 'a' wants to use 's' in 'p' on h.\n\
         The request was generated 18446744073709551615 seconds ago.\n"
    );
    assert_eq!(
        login_message("u", "s"),
        "The request is for an ssh connection as user 'u' with service name 's'."
    );
}

#[test]
fn a_clock_before_1970_counts_as_1970() {
    assert_eq!(time_shown(None), 0);
    assert_eq!(time_shown(Some(1_700_000_000)), 1_700_000_000);
}

#[test]
fn a_method_that_is_not_utf8_is_no_login() {
    assert_eq!(dissect_auth_data_ssh(&login(b"s", 60, b"x", b"publickey\xff", 1)), None);
}

#[test]
fn a_service_that_is_not_utf8_is_shown_replaced() {
    let session = pam_session(101, b"me", b"me", b"", 10);
    let data = login(&session, 60, b"pam_ssh_agent_auth\xff", b"publickey", 1);
    assert_eq!(
        dissect_auth_data_ssh_at(&data, 17).unwrap(),
        login_message("alice", "pam_ssh_agent_auth\u{fffd}")
    );
}

#[test]
fn cookie_and_tail_of_a_session_are_not_shown() {
    let session = pam_session(101, b"me", b"you", &action(1, &[b"ls"]), 10);
    let mut other = session[..4].to_vec();
    other.extend_from_slice(&[0, 0, 0, 1, b'?']);
    other.extend_from_slice(&session[14..]);
    other.extend_from_slice(b"more");
    assert_ne!(session, other);
    let text = dissect_pam_ssh_agent_auth_at(&session, 20);
    assert!(text.is_some());
    assert_eq!(dissect_pam_ssh_agent_auth_at(&other, 20), text);
}

#[test]
fn algorithm_and_key_of_a_login_are_not_shown() {
    let data = login(b"s", 60, b"x", b"publickey", 1);
    let mut writer = BufferWriter::new();
    writer.write_string(b"ssh-rsa");
    writer.write_string(b"another key");
    writer.write_u8(9);
    let mut other = data[..data.len() - 25].to_vec();
    other.extend_from_slice(&writer.into_inner());
    let text = dissect_auth_data_ssh(&data);
    assert!(text.is_some());
    assert_eq!(dissect_auth_data_ssh(&other), text);
}

#[test]
fn any_flag_but_zero_counts() {
    let text = dissect_auth_data_ssh(&login(b"s", 60, b"x", b"publickey", 1));
    assert!(text.is_some());
    assert_eq!(dissect_auth_data_ssh(&login(b"s", 60, b"x", b"publickey", 255)), text);
}
