//! What the data of a sign request says about the login that it is for.

use vstd::prelude::*;
use vstd::string::StringExecFns;
use vstd::utf8::{encode_utf8, valid_utf8};
use crate::text::{append_all, decimal_text, from_utf8_lossy, same_text};
use crate::text::{decimal, lemma_reads_as, text_of, utf8_lossy};
use crate::wire::BufferReader;
use crate::wire::{
    after_failed_string, be_bytes, law_string_read_back, law_u32_read_back, lemma_string_field_len,
    lemma_u64_read_back, string_field, take_string, take_u32, take_u64, take_u8,
};

verus! {

/// The message number of a login request, as it stands in the data to be signed.
pub const USERAUTH_REQUEST: u8 = 60;

/// The number at the front of a session identifier that `pam_ssh_agent_auth` made.
pub const PAM_SSH_AGENT_AUTH: u32 = 101;

/// The byte string at the front of `s`, read as text, and what follows it.
pub open spec fn take_text(s: Seq<u8>) -> Option<(Seq<char>, Seq<u8>)> {
    match take_string(s) {
        None => None,
        Some((bytes, rest)) => Some((utf8_lossy(bytes), rest)),
    }
}

/// Reads a byte string as text.
fn read_text(reader: &mut BufferReader<'_>) -> (res: Option<String>)
    ensures
        match take_text(old(reader)@) {
            Some((text, rest)) => text_of(res) == Some(text) && final(reader)@ == rest,
            None => res is None && final(reader)@ == after_failed_string(old(reader)@),
        },
        take_string(old(reader)@) matches Some((bytes, _)) ==> !valid_utf8(bytes) ==> utf8_lossy(
            bytes,
        ).contains('\u{FFFD}'),
{
    match reader.read_string() {
        Ok(bytes) => Some(from_utf8_lossy(bytes)),
        Err(_) => None,
    }
}

/// What `pam_ssh_agent_auth` puts into a session identifier.
pub struct PamRequest {
    pub user: Seq<char>,
    pub ruser: Seq<char>,
    pub service: Seq<char>,
    pub pwd: Seq<char>,
    pub action: Seq<u8>,
    pub hostname: Seq<char>,
    pub timestamp: nat,
}

/// The fields behind the cookie.
pub open spec fn pam_fields(s: Seq<u8>) -> Option<PamRequest> {
    match take_text(s) {
        Some((user, s)) => match take_text(s) {
            Some((ruser, s)) => match take_text(s) {
                Some((service, s)) => match take_text(s) {
                    Some((pwd, s)) => match pam_last_fields(s) {
                        Some((action, hostname, timestamp)) => Some(
                            PamRequest { user, ruser, service, pwd, action, hostname, timestamp },
                        ),
                        None => None,
                    },
                    None => None,
                },
                None => None,
            },
            None => None,
        },
        None => None,
    }
}

/// The fields behind the directory.
pub open spec fn pam_last_fields(s: Seq<u8>) -> Option<(Seq<u8>, Seq<char>, nat)> {
    match take_string(s) {
        Some((action, s)) => match take_text(s) {
            Some((hostname, s)) => match take_u64(s) {
                Some((timestamp, _)) => Some((action, hostname, timestamp)),
                None => None,
            },
            None => None,
        },
        None => None,
    }
}

/// A session identifier read as one that `pam_ssh_agent_auth` made: a number, a cookie
/// and the fields behind it.
pub open spec fn pam_request(session_id: Seq<u8>) -> Option<PamRequest> {
    match take_u32(session_id) {
        Some((kind, s)) if kind == PAM_SSH_AGENT_AUTH => match take_string(s) {
            Some((_, s)) => pam_fields(s),
            None => None,
        },
        _ => None,
    }
}

/// The arguments of a command, each behind a space. An argument whose bytes are not
/// all there is passed over, and the next is looked for behind its length.
pub open spec fn arguments_text(s: Seq<u8>, count: nat) -> Seq<char>
    decreases count,
{
    if count == 0 {
        Seq::empty()
    } else {
        match take_string(s) {
            Some((arg, rest)) => " "@ + utf8_lossy(arg) + arguments_text(
                rest,
                (count - 1) as nat,
            ),
            None => arguments_text(after_failed_string(s), (count - 1) as nat),
        }
    }
}

/// The command that a login is to run, as it is shown to the user.
pub open spec fn action_text(action: Seq<u8>) -> Seq<char> {
    match take_u32(action) {
        Some((count, s)) if count > 0 => " to run"@ + arguments_text(s, count),
        _ => Seq::empty(),
    }
}

/// The user that a login is for: both names where they differ.
pub open spec fn user_text(user: Seq<char>, ruser: Seq<char>) -> Seq<char> {
    if user == ruser {
        user
    } else {
        user + " ("@ + ruser + ")"@
    }
}

/// How many seconds before `now` something happened, or none where it comes after.
pub open spec fn seconds_ago(timestamp: nat, now: u64) -> nat {
    if timestamp <= now {
        (now - timestamp) as nat
    } else {
        0
    }
}

/// What a request of `pam_ssh_agent_auth` with these fields says, as it is shown to
/// the user.
pub open spec fn pam_text(
    user: Seq<char>,
    ruser: Seq<char>,
    service: Seq<char>,
    pwd: Seq<char>,
    action: Seq<char>,
    hostname: Seq<char>,
    timestamp: nat,
    now: u64,
) -> Seq<char> {
    "User '"@ + user_text(user, ruser) + "' wants to use '"@ + service + "' in '"@ + pwd + "'"@
        + action + " on "@ + hostname + ".\n"@ + "The request was generated "@ + decimal(
        seconds_ago(timestamp, now),
    ) + " seconds ago.\n"@
}

/// What a session identifier says at the time `now`, if `pam_ssh_agent_auth` made it.
pub open spec fn pam_description(session_id: Seq<u8>, now: u64) -> Option<Seq<char>> {
    match pam_request(session_id) {
        Some(req) => Some(
            pam_text(
                req.user,
                req.ruser,
                req.service,
                req.pwd,
                action_text(req.action),
                req.hostname,
                req.timestamp,
                now,
            ),
        ),
        None => None,
    }
}

/// The seconds that the system clock has gone since 1970, or nothing where it shows
/// an earlier time: `SystemTime::elapsed` of the start of 1970. What it returns
/// depends on the clock, so nothing is said of it.
#[verifier::external_body]
fn clock_seconds() -> Option<u64> {
    match std::time::UNIX_EPOCH.elapsed() {
        Ok(elapsed) => Some(elapsed.as_secs()),
        Err(_) => None,
    }
}

/// What [`time_shown`] makes of the system clock now, which may be any time at all.
pub(crate) fn current_time() -> u64 {
    time_shown(clock_seconds())
}

/// The time in seconds since 1970 that a clock shows, given the seconds that it has
/// gone since then. A clock before 1970 counts as 1970.
pub fn time_shown(since_1970: Option<u64>) -> (now: u64)
    ensures
        now == match since_1970 {
            Some(seconds) => seconds,
            None => 0,
        },
{
    match since_1970 {
        Some(seconds) => seconds,
        None => 0,
    }
}

/// The arguments of a command, as they are shown to the user.
fn describe_arguments(from: BufferReader<'_>, count: u32) -> (text: String)
    ensures
        text@ == arguments_text(from@, count as nat),
{
    let mut reader = from;
    let mut text: String = String::new();
    let ghost all = arguments_text(reader@, count as nat);
    let mut i: u32 = 0;
    assert(all =~= text@ + all);
    while i < count
        invariant
            i <= count,
            all == arguments_text(from@, count as nat),
            all == text@ + arguments_text(reader@, (count - i) as nat),
        decreases count - i,
    {
        if let Ok(arg) = reader.read_string() {
            text.append(" ");
            text.append(from_utf8_lossy(arg).as_str());
        }
        i = i + 1;
        assert(all =~= text@ + arguments_text(reader@, (count - i) as nat));
    }
    assert(all =~= text@);
    text
}

/// The command that a login is to run, as it is shown to the user.
fn describe_action(action: &[u8]) -> (text: String)
    ensures
        text@ == action_text(action@),
{
    let mut reader = BufferReader::new(action);
    let mut text: String = String::new();
    if let Ok(count) = reader.read_u32() {
        if count > 0 {
            text.append(" to run");
            text.append(describe_arguments(reader, count).as_str());
        }
    }
    assert(text@ =~= action_text(action@));
    text
}

/// What the user is told about a request of `pam_ssh_agent_auth`, once its fields are
/// text.
pub fn pam_message(
    user: &str,
    ruser: &str,
    service: &str,
    pwd: &str,
    action: &str,
    hostname: &str,
    timestamp: u64,
    now: u64,
) -> (text: String)
    ensures
        text@ == pam_text(
            user@,
            ruser@,
            service@,
            pwd@,
            action@,
            hostname@,
            timestamp as nat,
            now,
        ),
        text@ == "User '"@ + (if user@ == ruser@ {
            user@
        } else {
            user@ + " ("@ + ruser@ + ")"@
        }) + "' wants to use '"@ + service@ + "' in '"@ + pwd@ + "'"@ + action@ + " on "@ + hostname@
            + ".\n"@ + "The request was generated "@ + decimal(
            if timestamp <= now {
                (now - timestamp) as nat
            } else {
                0
            },
        ) + " seconds ago.\n"@,
{
    let mut text: String = "User '".to_owned();
    text.append(user);
    if !same_text(user, ruser) {
        append_all(&mut text, " (", ruser, ")");
    }
    assert(text@ =~= "User '"@ + user_text(user@, ruser@));
    append_all(&mut text, "' wants to use '", service, "' in '");
    append_all(&mut text, pwd, "'", action);
    append_all(&mut text, " on ", hostname, ".\n");
    let passed: u64 = if timestamp <= now {
        now - timestamp
    } else {
        0
    };
    append_all(
        &mut text,
        "The request was generated ",
        decimal_text(passed).as_str(),
        " seconds ago.\n",
    );
    text
}

/// What a session identifier says at the time `now`, if `pam_ssh_agent_auth` made it.
pub fn dissect_pam_ssh_agent_auth_at(session_id: &[u8], now: u64) -> (res: Option<String>)
    ensures
        text_of(res) == pam_description(session_id@, now),
{
    let mut reader = BufferReader::new(session_id);
    let kind: u32 = match reader.read_u32() {
        Ok(kind) => kind,
        Err(_) => {
            return None;
        },
    };
    if kind != PAM_SSH_AGENT_AUTH {
        return None;
    }
    if reader.read_string().is_err() {
        return None;
    }
    let user: String = read_text(&mut reader)?;
    let ruser: String = read_text(&mut reader)?;
    let service: String = read_text(&mut reader)?;
    let pwd: String = read_text(&mut reader)?;
    let action = match reader.read_string() {
        Ok(action) => action,
        Err(_) => {
            return None;
        },
    };
    let hostname: String = read_text(&mut reader)?;
    let timestamp: u64 = match reader.read_u64() {
        Ok(timestamp) => timestamp,
        Err(_) => {
            return None;
        },
    };
    Some(
        pam_message(
            user.as_str(),
            ruser.as_str(),
            service.as_str(),
            pwd.as_str(),
            describe_action(action).as_str(),
            hostname.as_str(),
            timestamp,
            now,
        ),
    )
}

/// What a session identifier says now, if `pam_ssh_agent_auth` made it.
pub fn dissect_pam_ssh_agent_auth(session_id: &[u8]) -> (res: Option<String>)
    ensures
        exists|now: u64| text_of(res) == #[trigger] pam_description(session_id@, now),
{
    let now: u64 = current_time();
    dissect_pam_ssh_agent_auth_at(session_id, now)
}

/// What the data of a login request holds.
pub struct AuthRequest {
    pub session_id: Seq<u8>,
    pub username: Seq<char>,
    pub service: Seq<u8>,
}

/// The data of a sign request read as a login with a public key.
pub open spec fn auth_request(data: Seq<u8>) -> Option<AuthRequest> {
    match take_string(data) {
        Some((session_id, s)) => match take_u8(s) {
            Some((kind, s)) => match take_text(s) {
                Some((username, s)) => match take_string(s) {
                    Some((service, s)) => match take_string(s) {
                        Some((method, s)) => match take_u8(s) {
                            Some((has_key, s)) => match take_string(s) {
                                Some((_, s)) => if take_string(s) is Some && kind
                                    == USERAUTH_REQUEST && method == encode_utf8("publickey"@)
                                    && has_key != 0 {
                                    Some(AuthRequest { session_id, username, service })
                                } else {
                                    None
                                },
                                None => None,
                            },
                            None => None,
                        },
                        None => None,
                    },
                    None => None,
                },
                None => None,
            },
            None => None,
        },
        None => None,
    }
}

/// What a login says, as it is shown to the user.
pub open spec fn login_text(username: Seq<char>, service: Seq<char>) -> Seq<char> {
    "The request is for an ssh connection as user '"@ + username + "' with service name '"@
        + service + "'."@
}

/// What the user is told about a login, once its fields are text.
pub fn login_message(username: &str, service: &str) -> (text: String)
    ensures
        text@ == login_text(username@, service@),
        text@ == "The request is for an ssh connection as user '"@ + username@
            + "' with service name '"@ + service@ + "'."@,
{
    let mut text: String = "The request is for an ssh connection as user '".to_owned();
    append_all(&mut text, username, "' with service name '", service);
    text.append("'.");
    text
}

/// What the data of a sign request says at the time `now`, if it is a login. Where
/// `pam_ssh_agent_auth` asks, its own account of the request stands for it.
pub open spec fn auth_description(data: Seq<u8>, now: u64) -> Option<Seq<char>> {
    match auth_request(data) {
        Some(req) => if req.service == encode_utf8("pam_ssh_agent_auth"@) && pam_request(
            req.session_id,
        ) is Some {
            pam_description(req.session_id, now)
        } else {
            Some(login_text(req.username, utf8_lossy(req.service)))
        },
        None => None,
    }
}

/// What the data of a sign request says at the time `now`, if it is a login.
pub fn dissect_auth_data_ssh_at(data: &[u8], now: u64) -> (res: Option<String>)
    ensures
        text_of(res) == auth_description(data@, now),
{
    let mut reader = BufferReader::new(data);
    let session_id = match reader.read_string() {
        Ok(session_id) => session_id,
        Err(_) => {
            return None;
        },
    };
    let kind: u8 = match reader.read_u8() {
        Ok(kind) => kind,
        Err(_) => {
            return None;
        },
    };
    let username: String = read_text(&mut reader)?;
    let ghost service_field = take_string(reader@);
    let service: String = read_text(&mut reader)?;
    let ghost method_field = take_string(reader@);
    let method: String = read_text(&mut reader)?;
    proof {
        reveal_strlit("pam_ssh_agent_auth");
        reveal_strlit("publickey");
        lemma_reads_as(service_field->Some_0.0, "pam_ssh_agent_auth"@);
        lemma_reads_as(method_field->Some_0.0, "publickey"@);
    }
    let has_key: u8 = match reader.read_u8() {
        Ok(has_key) => has_key,
        Err(_) => {
            return None;
        },
    };
    if reader.read_string().is_err() {
        return None;
    }
    if reader.read_string().is_err() {
        return None;
    }
    if kind != USERAUTH_REQUEST || !same_text(method.as_str(), "publickey") || has_key == 0 {
        return None;
    }
    if same_text(service.as_str(), "pam_ssh_agent_auth") {
        let pam = dissect_pam_ssh_agent_auth_at(session_id, now);
        if pam.is_some() {
            return pam;
        }
    }
    Some(login_message(username.as_str(), service.as_str()))
}

/// What the data of a sign request says now, if it is a login.
pub fn dissect_auth_data_ssh(data: &[u8]) -> (res: Option<String>)
    ensures
        exists|now: u64| text_of(res) == #[trigger] auth_description(data@, now),
{
    let now: u64 = current_time();
    dissect_auth_data_ssh_at(data, now)
}

/// A byte string at the front is not changed by what is put at the end.
proof fn lemma_string_before_tail(s: Seq<u8>, tail: Seq<u8>)
    ensures
        take_string(s) matches Some((val, rest)) ==> take_string(s + tail) == Some(
            (val, rest + tail),
        ),
{
    if let Some((val, rest)) = take_string(s) {
        assert((s + tail).take(4) =~= s.take(4));
        assert((s + tail).skip(4) =~= s.skip(4) + tail);
        let body = s.skip(4);
        assert((body + tail).take(val.len() as int) =~= val);
        assert((body + tail).skip(val.len() as int) =~= rest + tail);
    }
}

/// The cookie in a session identifier of `pam_ssh_agent_auth` does not change what
/// the user is told, whatever follows it.
pub proof fn law_cookie_is_not_shown(
    kind: Seq<u8>,
    cookie: Seq<u8>,
    other: Seq<u8>,
    rest: Seq<u8>,
    now: u64,
)
    requires
        kind.len() == 4,
        cookie.len() < 0x1_0000_0000,
        other.len() < 0x1_0000_0000,
    ensures
        pam_description(kind + string_field(cookie) + rest, now) == pam_description(
            kind + string_field(other) + rest,
            now,
        ),
{
    let a = kind + string_field(cookie) + rest;
    let b = kind + string_field(other) + rest;
    assert(a.take(4) =~= kind);
    assert(b.take(4) =~= kind);
    assert(a.skip(4) =~= string_field(cookie) + rest);
    assert(b.skip(4) =~= string_field(other) + rest);
    law_string_read_back(cookie, rest);
    law_string_read_back(other, rest);
}

/// A text at the front is not changed by what is put at the end.
proof fn lemma_text_before_tail(s: Seq<u8>, tail: Seq<u8>)
    ensures
        take_text(s) matches Some((text, rest)) ==> take_text(s + tail) == Some(
            (text, rest + tail),
        ),
{
    lemma_string_before_tail(s, tail);
}

/// A number at the front is not changed by what is put at the end.
proof fn lemma_number_before_tail(s: Seq<u8>, tail: Seq<u8>)
    ensures
        take_u32(s) matches Some((val, rest)) ==> take_u32(s + tail) == Some((val, rest + tail)),
        take_u64(s) matches Some((val, rest)) ==> take_u64(s + tail) == Some((val, rest + tail)),
{
    if s.len() >= 4 {
        assert((s + tail).take(4) =~= s.take(4));
        assert((s + tail).skip(4) =~= s.skip(4) + tail);
    }
    if s.len() >= 8 {
        assert((s + tail).take(8) =~= s.take(8));
        assert((s + tail).skip(8) =~= s.skip(8) + tail);
    }
}

/// The last fields are not changed by what is put behind them.
proof fn lemma_last_fields_before_tail(s: Seq<u8>, tail: Seq<u8>)
    requires
        pam_last_fields(s) is Some,
    ensures
        pam_last_fields(s + tail) == pam_last_fields(s),
{
    lemma_string_before_tail(s, tail);
    let s1 = take_string(s)->Some_0.1;
    lemma_text_before_tail(s1, tail);
    lemma_number_before_tail(take_text(s1)->Some_0.1, tail);
}

/// The fields behind the cookie are not changed by what is put behind them.
proof fn lemma_fields_before_tail(s: Seq<u8>, tail: Seq<u8>)
    requires
        pam_fields(s) is Some,
    ensures
        pam_fields(s + tail) == pam_fields(s),
{
    lemma_text_before_tail(s, tail);
    let s1 = take_text(s)->Some_0.1;
    lemma_text_before_tail(s1, tail);
    let s2 = take_text(s1)->Some_0.1;
    lemma_text_before_tail(s2, tail);
    let s3 = take_text(s2)->Some_0.1;
    lemma_text_before_tail(s3, tail);
    lemma_last_fields_before_tail(take_text(s3)->Some_0.1, tail);
}

/// Bytes behind the timestamp in a session identifier of `pam_ssh_agent_auth` do not
/// change what the user is told.
pub proof fn law_session_tail_is_not_shown(session_id: Seq<u8>, tail: Seq<u8>, now: u64)
    requires
        pam_request(session_id) is Some,
    ensures
        pam_description(session_id + tail, now) == pam_description(session_id, now),
{
    lemma_number_before_tail(session_id, tail);
    let s = take_u32(session_id)->Some_0.1;
    lemma_string_before_tail(s, tail);
    lemma_fields_before_tail(take_string(s)->Some_0.1, tail);
}

/// The fields of the data of a login request, and what stands behind them.
pub struct LoginData {
    pub session_id: Seq<u8>,
    pub kind: u8,
    pub username: Seq<u8>,
    pub service: Seq<u8>,
    pub method: Seq<u8>,
    pub has_key: u8,
    pub algorithm: Seq<u8>,
    pub key: Seq<u8>,
    pub tail: Seq<u8>,
}

impl LoginData {
    /// Whether four bytes hold the length of each field.
    pub open spec fn fits(self) -> bool {
        &&& self.session_id.len() < 0x1_0000_0000
        &&& self.username.len() < 0x1_0000_0000
        &&& self.service.len() < 0x1_0000_0000
        &&& self.method.len() < 0x1_0000_0000
        &&& self.algorithm.len() < 0x1_0000_0000
        &&& self.key.len() < 0x1_0000_0000
    }

    /// What the request holds for the user, if it is a login with a public key.
    pub open spec fn request(self) -> Option<AuthRequest> {
        if self.kind == USERAUTH_REQUEST && self.method == encode_utf8("publickey"@)
            && self.has_key != 0 {
            Some(
                AuthRequest {
                    session_id: self.session_id,
                    username: utf8_lossy(self.username),
                    service: self.service,
                },
            )
        } else {
            None
        }
    }

    /// The data of the request.
    pub open spec fn bytes(self) -> Seq<u8> {
        string_field(self.session_id) + self.from_kind()
    }

    /// The data behind the session identifier.
    pub open spec fn from_kind(self) -> Seq<u8> {
        seq![self.kind] + self.from_username()
    }

    /// The data behind the message number.
    pub open spec fn from_username(self) -> Seq<u8> {
        string_field(self.username) + self.from_service()
    }

    /// The data behind the user's name.
    pub open spec fn from_service(self) -> Seq<u8> {
        string_field(self.service) + self.from_method()
    }

    /// The data behind the service.
    pub open spec fn from_method(self) -> Seq<u8> {
        string_field(self.method) + self.from_flag()
    }

    /// The data behind the method.
    pub open spec fn from_flag(self) -> Seq<u8> {
        seq![self.has_key] + self.from_algorithm()
    }

    /// The data behind the flag.
    pub open spec fn from_algorithm(self) -> Seq<u8> {
        string_field(self.algorithm) + self.from_key()
    }

    /// The data behind the algorithm.
    pub open spec fn from_key(self) -> Seq<u8> {
        string_field(self.key) + self.tail
    }
}

/// A byte that was put in front is taken off again.
proof fn lemma_u8_read_back(val: u8, rest: Seq<u8>)
    ensures
        take_u8(seq![val] + rest) == Some((val, rest)),
{
    assert((seq![val] + rest).skip(1) =~= rest);
}

/// The fields in front of the algorithm are read one by one.
proof fn lemma_login_front(login: LoginData)
    requires
        login.fits(),
    ensures
        take_string(login.bytes()) == Some((login.session_id, login.from_kind())),
        take_u8(login.from_kind()) == Some((login.kind, login.from_username())),
        take_string(login.from_username()) == Some((login.username, login.from_service())),
        take_string(login.from_service()) == Some((login.service, login.from_method())),
        take_string(login.from_method()) == Some((login.method, login.from_flag())),
        take_u8(login.from_flag()) == Some((login.has_key, login.from_algorithm())),
{
    law_string_read_back(login.session_id, login.from_kind());
    lemma_u8_read_back(login.kind, login.from_username());
    law_string_read_back(login.username, login.from_service());
    law_string_read_back(login.service, login.from_method());
    law_string_read_back(login.method, login.from_flag());
    lemma_u8_read_back(login.has_key, login.from_algorithm());
}

/// The algorithm and the key are read one by one.
proof fn lemma_login_back(login: LoginData)
    requires
        login.fits(),
    ensures
        take_string(login.from_algorithm()) == Some((login.algorithm, login.from_key())),
        take_string(login.from_key()) == Some((login.key, login.tail)),
{
    law_string_read_back(login.algorithm, login.from_key());
    law_string_read_back(login.key, login.tail);
}

/// What data is read as, given what each of its fields is read as.
#[verifier::spinoff_prover]
proof fn lemma_login_chain(
    s0: Seq<u8>,
    s1: Seq<u8>,
    s2: Seq<u8>,
    s3: Seq<u8>,
    s4: Seq<u8>,
    s5: Seq<u8>,
    s6: Seq<u8>,
    s7: Seq<u8>,
    login: LoginData,
)
    requires
        take_string(s0) == Some((login.session_id, s1)),
        take_u8(s1) == Some((login.kind, s2)),
        take_string(s2) == Some((login.username, s3)),
        take_string(s3) == Some((login.service, s4)),
        take_string(s4) == Some((login.method, s5)),
        take_u8(s5) == Some((login.has_key, s6)),
        take_string(s6) == Some((login.algorithm, s7)),
        take_string(s7) is Some,
    ensures
        auth_request(s0) == login.request(),
{
}

/// The data of a login request is read field by field.
proof fn lemma_login_read(login: LoginData)
    requires
        login.fits(),
    ensures
        auth_request(login.bytes()) == login.request(),
{
    lemma_login_front(login);
    lemma_login_back(login);
    lemma_login_chain(
        login.bytes(),
        login.from_kind(),
        login.from_username(),
        login.from_service(),
        login.from_method(),
        login.from_flag(),
        login.from_algorithm(),
        login.from_key(),
        login,
    );
}

/// The algorithm, the public key and the bytes behind it do not change what the user
/// is told about a login, nor does the session identifier, except by what it says
/// where `pam_ssh_agent_auth` made it, nor the flag, as long as it is zero or not.
pub proof fn law_login_key_is_not_shown(a: LoginData, b: LoginData, now: u64)
    requires
        a.fits(),
        b.fits(),
        a.kind == b.kind,
        a.username == b.username,
        a.service == b.service,
        a.method == b.method,
        a.has_key == 0 <==> b.has_key == 0,
        pam_description(a.session_id, now) == pam_description(b.session_id, now),
    ensures
        auth_description(a.bytes(), now) == auth_description(b.bytes(), now),
{
    lemma_login_read(a);
    lemma_login_read(b);
}

/// Whole arguments in front are shown, and what follows them is read as the rest.
proof fn lemma_arguments_in_front(args: Seq<Seq<u8>>, rest: Seq<u8>, more: nat)
    requires
        forall|i: int| 0 <= i < args.len() ==> (#[trigger] args[i]).len() < 0x1_0000_0000,
    ensures
        arguments_text(
            args.map_values(|arg: Seq<u8>| string_field(arg)).flatten() + rest,
            args.len() + more,
        ) == args.map_values(|arg: Seq<u8>| " "@ + utf8_lossy(arg)).flatten() + arguments_text(
            rest,
            more,
        ),
    decreases args.len(),
{
    let field = |arg: Seq<u8>| string_field(arg);
    let word = |arg: Seq<u8>| " "@ + utf8_lossy(arg);
    let fields = args.map_values(field);
    let words = args.map_values(word);
    if args.len() > 0 {
        let tail = args.drop_first();
        assert(fields.drop_first() =~= tail.map_values(field));
        assert(words.drop_first() =~= tail.map_values(word));
        assert(fields.first() == string_field(args[0]));
        assert(words.first() == " "@ + utf8_lossy(args[0]));
        assert forall|i: int| 0 <= i < tail.len() implies (#[trigger] tail[i]).len()
            < 0x1_0000_0000 by {
            assert(tail[i] == args[i + 1]);
        }
        let s = tail.map_values(field).flatten() + rest;
        law_string_read_back(args[0], s);
        assert(fields.flatten() + rest =~= string_field(args[0]) + s);
        lemma_arguments_in_front(tail, rest, more);
        assert((args.len() + more - 1) as nat == tail.len() + more);
        assert(" "@ + utf8_lossy(args[0]) + (tail.map_values(word).flatten() + arguments_text(
            rest,
            more,
        )) =~= words.flatten() + arguments_text(rest, more));
    } else {
        assert(fields.flatten() + rest =~= rest);
        assert(words.flatten() + arguments_text(rest, more) =~= arguments_text(rest, more));
    }
}

/// Where there is not even a length, no argument is shown.
proof fn lemma_no_argument_left(rest: Seq<u8>, more: nat)
    requires
        rest.len() < 4,
    ensures
        arguments_text(rest, more) == Seq::<char>::empty(),
    decreases more,
{
    if more > 0 {
        lemma_no_argument_left(rest, (more - 1) as nat);
    }
}

/// A command is shown with every argument that it has, in order, each behind a space,
/// whatever stands behind the last one. Arguments that are announced and not there
/// are left out.
pub proof fn law_every_argument_is_shown(args: Seq<Seq<u8>>, rest: Seq<u8>, more: nat)
    requires
        0 < args.len() + more < 0x1_0000_0000,
        more == 0 || rest.len() < 4,
        forall|i: int| 0 <= i < args.len() ==> (#[trigger] args[i]).len() < 0x1_0000_0000,
    ensures
        action_text(
            be_bytes(args.len() + more, 4) + (args.map_values(
                |arg: Seq<u8>| string_field(arg),
            ).flatten() + rest),
        ) == " to run"@ + args.map_values(|arg: Seq<u8>| " "@ + utf8_lossy(arg)).flatten(),
{
    let fields = args.map_values(|arg: Seq<u8>| string_field(arg)).flatten();
    let words = args.map_values(|arg: Seq<u8>| " "@ + utf8_lossy(arg)).flatten();
    law_u32_read_back(args.len() + more, fields + rest);
    lemma_arguments_in_front(args, rest, more);
    if more > 0 {
        lemma_no_argument_left(rest, more);
    }
    assert(words + arguments_text(rest, more) =~= words);
}

/// An argument whose bytes are not all there is passed over: the command is shown as
/// if it, and its length, were not there. Where it is the only one, no argument is
/// shown.
pub proof fn law_broken_argument_is_passed_over(args: Seq<Seq<u8>>, rest: Seq<u8>, more: nat)
    requires
        args.len() + more < 0x1_0000_0000 - 1,
        rest.len() >= 4,
        take_string(rest) is None,
        forall|i: int| 0 <= i < args.len() ==> (#[trigger] args[i]).len() < 0x1_0000_0000,
    ensures
        ({
            let fields = args.map_values(|arg: Seq<u8>| string_field(arg)).flatten();
            action_text(be_bytes(args.len() + more + 1, 4) + (fields + rest))
                == if args.len() + more == 0 {
                " to run"@
            } else {
                action_text(be_bytes(args.len() + more, 4) + (fields + rest.skip(4)))
            }
        }),
{
    let fields = args.map_values(|arg: Seq<u8>| string_field(arg)).flatten();
    law_u32_read_back(args.len() + more + 1, fields + rest);
    law_u32_read_back(args.len() + more, fields + rest.skip(4));
    lemma_arguments_in_front(args, rest, more + 1);
    lemma_arguments_in_front(args, rest.skip(4), more);
    if args.len() + more == 0 {
        assert(args.map_values(|arg: Seq<u8>| " "@ + utf8_lossy(arg)).flatten() =~= Seq::empty());
        assert(arguments_text(rest.skip(4), 0) =~= Seq::empty());
        assert(arguments_text(fields + rest, 1) =~= Seq::empty());
        assert(" to run"@ + Seq::<char>::empty() =~= " to run"@);
    }
}

/// An action without a number of arguments, or with none, is not shown.
pub proof fn law_no_command_is_shown(action: Seq<u8>, rest: Seq<u8>)
    ensures
        action.len() < 4 ==> action_text(action) == Seq::<char>::empty(),
        action_text(be_bytes(0, 4) + rest) == Seq::<char>::empty(),
{
    law_u32_read_back(0, rest);
}

/// The bytes that `pam_ssh_agent_auth` makes are told to the user field by field: who,
/// with which service, where, running what, on which host, how long ago. Both names of
/// the user are shown where they differ, and a time in the future is no time ago.
pub proof fn law_pam_session_is_told(
    cookie: Seq<u8>,
    user: Seq<u8>,
    ruser: Seq<u8>,
    service: Seq<u8>,
    pwd: Seq<u8>,
    action: Seq<u8>,
    hostname: Seq<u8>,
    high: nat,
    low: nat,
    tail: Seq<u8>,
    now: u64,
)
    requires
        cookie.len() < 0x1_0000_0000,
        user.len() < 0x1_0000_0000,
        ruser.len() < 0x1_0000_0000,
        service.len() < 0x1_0000_0000,
        pwd.len() < 0x1_0000_0000,
        action.len() < 0x1_0000_0000,
        hostname.len() < 0x1_0000_0000,
        high < 0x1_0000_0000,
        low < 0x1_0000_0000,
    ensures
        pam_description(
            be_bytes(101, 4) + (string_field(cookie) + (string_field(user) + (string_field(ruser)
                + (string_field(service) + (string_field(pwd) + (string_field(action) + (
            string_field(hostname) + (be_bytes(high, 4) + (be_bytes(low, 4) + tail))))))))),
            now,
        ) == Some(
            "User '"@ + (if utf8_lossy(user) == utf8_lossy(ruser) {
                utf8_lossy(user)
            } else {
                utf8_lossy(user) + " ("@ + utf8_lossy(ruser) + ")"@
            }) + "' wants to use '"@ + utf8_lossy(service) + "' in '"@ + utf8_lossy(pwd) + "'"@
                + action_text(action) + " on "@ + utf8_lossy(hostname) + ".\n"@
                + "The request was generated "@ + decimal(
                if high * 0x1_0000_0000 + low <= now {
                    (now - (high * 0x1_0000_0000 + low)) as nat
                } else {
                    0
                },
            ) + " seconds ago.\n"@,
        ),
{
    let s8 = be_bytes(high, 4) + (be_bytes(low, 4) + tail);
    let s7 = string_field(hostname) + s8;
    let s6 = string_field(action) + s7;
    let s5 = string_field(pwd) + s6;
    let s4 = string_field(service) + s5;
    let s3 = string_field(ruser) + s4;
    let s2 = string_field(user) + s3;
    let s1 = string_field(cookie) + s2;
    lemma_last_fields_read(action, hostname, high, low, tail);
    lemma_texts_read(user, ruser, service, pwd, s6);
    law_string_read_back(cookie, s2);
    law_u32_read_back(101, s1);
}

/// The last fields of a session identifier are read one by one.
proof fn lemma_last_fields_read(
    action: Seq<u8>,
    hostname: Seq<u8>,
    high: nat,
    low: nat,
    tail: Seq<u8>,
)
    requires
        action.len() < 0x1_0000_0000,
        hostname.len() < 0x1_0000_0000,
        high < 0x1_0000_0000,
        low < 0x1_0000_0000,
    ensures
        pam_last_fields(
            string_field(action) + (string_field(hostname) + (be_bytes(high, 4) + (be_bytes(low, 4)
                + tail))),
        ) == Some((action, utf8_lossy(hostname), high * 0x1_0000_0000 + low)),
{
    let s8 = be_bytes(high, 4) + (be_bytes(low, 4) + tail);
    lemma_u64_read_back(high, low, tail);
    law_string_read_back(hostname, s8);
    law_string_read_back(action, string_field(hostname) + s8);
}

/// The texts of a session identifier are read one by one.
proof fn lemma_texts_read(
    user: Seq<u8>,
    ruser: Seq<u8>,
    service: Seq<u8>,
    pwd: Seq<u8>,
    rest: Seq<u8>,
)
    requires
        user.len() < 0x1_0000_0000,
        ruser.len() < 0x1_0000_0000,
        service.len() < 0x1_0000_0000,
        pwd.len() < 0x1_0000_0000,
    ensures
        pam_fields(
            string_field(user) + (string_field(ruser) + (string_field(service) + (string_field(pwd)
                + rest))),
        ) == match pam_last_fields(rest) {
            Some((action, hostname, timestamp)) => Some(
                PamRequest {
                    user: utf8_lossy(user),
                    ruser: utf8_lossy(ruser),
                    service: utf8_lossy(service),
                    pwd: utf8_lossy(pwd),
                    action,
                    hostname,
                    timestamp,
                },
            ),
            None => None,
        },
{
    let s4 = string_field(pwd) + rest;
    let s3 = string_field(service) + s4;
    let s2 = string_field(ruser) + s3;
    law_string_read_back(user, s2);
    law_string_read_back(ruser, s3);
    law_string_read_back(service, s4);
    law_string_read_back(pwd, rest);
}

/// A session identifier with another number in front, or none, is not described.
pub proof fn law_other_session_is_not_told(kind: nat, rest: Seq<u8>, short: Seq<u8>, now: u64)
    requires
        kind < 0x1_0000_0000,
        kind != 101,
        short.len() < 4,
    ensures
        pam_description(be_bytes(kind, 4) + rest, now) is None,
        pam_description(short, now) is None,
{
    law_u32_read_back(kind, rest);
}

/// What follows two byte strings.
spec fn behind_two_strings(s: Seq<u8>) -> Option<Seq<u8>> {
    match take_string(s) {
        Some((_, s)) => match take_string(s) {
            Some((_, s)) => Some(s),
            None => None,
        },
        None => None,
    }
}

/// What follows a part is only longer where something is put at the end.
proof fn lemma_two_strings_tail(s: Seq<u8>, tail: Seq<u8>)
    ensures
        behind_two_strings(s) matches Some(rest) ==> behind_two_strings(s + tail) == Some(rest + tail),
{
    if behind_two_strings(s) is Some {
        lemma_string_before_tail(s, tail);
        lemma_string_before_tail(take_string(s)->Some_0.1, tail);
    }
}

/// Fields behind a cookie that are read are all there.
#[verifier::spinoff_prover]
proof fn lemma_fields_are_whole(s: Seq<u8>)
    requires
        pam_fields(s) is Some,
    ensures
        behind_two_strings(s) is Some,
        behind_two_strings(behind_two_strings(s)->Some_0) is Some,
        behind_two_strings(behind_two_strings(behind_two_strings(s)->Some_0)->Some_0) is Some,
        take_u64(behind_two_strings(behind_two_strings(behind_two_strings(s)->Some_0)->Some_0)->Some_0) is Some,
{
}

/// Two byte strings in front are passed.
proof fn lemma_two_strings_passed(a: Seq<u8>, b: Seq<u8>, rest: Seq<u8>)
    requires
        a.len() < 0x1_0000_0000,
        b.len() < 0x1_0000_0000,
    ensures
        behind_two_strings(string_field(a) + (string_field(b) + rest)) == Some(rest),
{
    law_string_read_back(a, string_field(b) + rest);
    law_string_read_back(b, rest);
}

/// A session identifier of `pam_ssh_agent_auth` that is cut short anywhere is not
/// described.
pub proof fn law_cut_session_is_not_told(
    cookie: Seq<u8>,
    user: Seq<u8>,
    ruser: Seq<u8>,
    service: Seq<u8>,
    pwd: Seq<u8>,
    action: Seq<u8>,
    hostname: Seq<u8>,
    high: nat,
    low: nat,
    n: int,
    now: u64,
)
    requires
        cookie.len() < 0x1_0000_0000,
        user.len() < 0x1_0000_0000,
        ruser.len() < 0x1_0000_0000,
        service.len() < 0x1_0000_0000,
        pwd.len() < 0x1_0000_0000,
        action.len() < 0x1_0000_0000,
        hostname.len() < 0x1_0000_0000,
        high < 0x1_0000_0000,
        low < 0x1_0000_0000,
        0 <= n < 40 + cookie.len() + user.len() + ruser.len() + service.len() + pwd.len()
            + action.len() + hostname.len(),
    ensures
        pam_description(
            (be_bytes(101, 4) + (string_field(cookie) + (string_field(user) + (string_field(ruser)
                + (string_field(service) + (string_field(pwd) + (string_field(action) + (
            string_field(hostname) + (be_bytes(high, 4) + be_bytes(low, 4)))))))))).take(n),
            now,
        ) is None,
{
    let s8 = be_bytes(high, 4) + be_bytes(low, 4);
    let s6 = string_field(action) + (string_field(hostname) + s8);
    let s4 = string_field(service) + (string_field(pwd) + s6);
    let s2 = string_field(user) + (string_field(ruser) + s4);
    let s1 = string_field(cookie) + s2;
    let s = be_bytes(101, 4) + s1;
    lemma_string_field_len(cookie);
    lemma_string_field_len(user);
    lemma_string_field_len(ruser);
    lemma_string_field_len(service);
    lemma_string_field_len(pwd);
    lemma_string_field_len(action);
    lemma_string_field_len(hostname);
    lemma_u64_read_back(high, low, Seq::empty());
    lemma_u64_read_back(0, 101, Seq::empty());
    let cut = s.take(n);
    if pam_request(cut) is Some {
        let missing = s.skip(n);
        assert(missing.len() > 0);
        assert(cut + missing =~= s);
        lemma_number_before_tail(cut, missing);
        law_u32_read_back(101, s1);
        let c1 = take_u32(cut)->Some_0.1;
        lemma_string_before_tail(c1, missing);
        law_string_read_back(cookie, s2);
        let c2 = take_string(c1)->Some_0.1;
        assert(c2 + missing == s2);
        lemma_fields_are_whole(c2);
        lemma_two_strings_tail(c2, missing);
        lemma_two_strings_passed(user, ruser, s4);
        let c4 = behind_two_strings(c2)->Some_0;
        lemma_two_strings_tail(c4, missing);
        lemma_two_strings_passed(service, pwd, s6);
        let c6 = behind_two_strings(c4)->Some_0;
        lemma_two_strings_tail(c6, missing);
        lemma_two_strings_passed(action, hostname, s8);
        let c8 = behind_two_strings(c6)->Some_0;
        assert(c8 + missing == s8);
    }
}

/// The bytes of a login with a public key are told to the user as the user's name and
/// the service, or as what the session identifier says where `pam_ssh_agent_auth` asks
/// and it says something. Any other message number, method or a flag of zero is no
/// such login.
pub proof fn law_login_is_told(
    session_id: Seq<u8>,
    kind: u8,
    username: Seq<u8>,
    service: Seq<u8>,
    method: Seq<u8>,
    has_key: u8,
    algorithm: Seq<u8>,
    key: Seq<u8>,
    tail: Seq<u8>,
    now: u64,
)
    requires
        session_id.len() < 0x1_0000_0000,
        username.len() < 0x1_0000_0000,
        service.len() < 0x1_0000_0000,
        method.len() < 0x1_0000_0000,
        algorithm.len() < 0x1_0000_0000,
        key.len() < 0x1_0000_0000,
    ensures
        auth_description(
            string_field(session_id) + (seq![kind] + (string_field(username) + (string_field(
                service,
            ) + (string_field(method) + (seq![has_key] + (string_field(algorithm) + (string_field(
                key,
            ) + tail))))))),
            now,
        ) == if kind != 60 || method != encode_utf8("publickey"@) || has_key == 0 {
            None
        } else if service == encode_utf8("pam_ssh_agent_auth"@) && pam_description(session_id, now)
            is Some {
            pam_description(session_id, now)
        } else {
            Some(
                "The request is for an ssh connection as user '"@ + utf8_lossy(username)
                    + "' with service name '"@ + utf8_lossy(service) + "'."@,
            )
        },
{
    let login = LoginData {
        session_id,
        kind,
        username,
        service,
        method,
        has_key,
        algorithm,
        key,
        tail,
    };
    lemma_login_read(login);
}

/// What follows the session identifier, the message number and the user's name.
spec fn behind_username(s: Seq<u8>) -> Option<Seq<u8>> {
    match take_string(s) {
        Some((_, s)) => match take_u8(s) {
            Some((_, s)) => match take_string(s) {
                Some((_, s)) => Some(s),
                None => None,
            },
            None => None,
        },
        None => None,
    }
}

/// What follows the service, the method and the flag.
spec fn behind_flag(s: Seq<u8>) -> Option<Seq<u8>> {
    match take_string(s) {
        Some((_, s)) => match take_string(s) {
            Some((_, s)) => match take_u8(s) {
                Some((_, s)) => Some(s),
                None => None,
            },
            None => None,
        },
        None => None,
    }
}

/// What follows a part is only longer where something is put at the end.
proof fn lemma_behind_username_tail(s: Seq<u8>, tail: Seq<u8>)
    ensures
        behind_username(s) matches Some(rest) ==> behind_username(s + tail) == Some(rest + tail),
{
    if behind_username(s) is Some {
        lemma_string_before_tail(s, tail);
        let s1 = take_string(s)->Some_0.1;
        assert((s1 + tail).skip(1) =~= s1.skip(1) + tail);
        lemma_string_before_tail(s1.skip(1), tail);
    }
}

/// What follows a part is only longer where something is put at the end.
proof fn lemma_behind_flag_tail(s: Seq<u8>, tail: Seq<u8>)
    ensures
        behind_flag(s) matches Some(rest) ==> behind_flag(s + tail) == Some(rest + tail),
{
    if behind_flag(s) is Some {
        lemma_string_before_tail(s, tail);
        let s1 = take_string(s)->Some_0.1;
        lemma_string_before_tail(s1, tail);
        let s2 = take_string(s1)->Some_0.1;
        assert((s2 + tail).skip(1) =~= s2.skip(1) + tail);
    }
}

/// Data that is read as a login has all its parts.
#[verifier::spinoff_prover]
proof fn lemma_login_is_whole(s: Seq<u8>)
    requires
        auth_request(s) is Some,
    ensures
        behind_username(s) is Some,
        behind_flag(behind_username(s)->Some_0) is Some,
        behind_two_strings(behind_flag(behind_username(s)->Some_0)->Some_0) is Some,
{
}

/// The data of a login that is cut short anywhere is not described.
pub proof fn law_cut_login_is_not_told(
    session_id: Seq<u8>,
    kind: u8,
    username: Seq<u8>,
    service: Seq<u8>,
    method: Seq<u8>,
    has_key: u8,
    algorithm: Seq<u8>,
    key: Seq<u8>,
    n: int,
    now: u64,
)
    requires
        session_id.len() < 0x1_0000_0000,
        username.len() < 0x1_0000_0000,
        service.len() < 0x1_0000_0000,
        method.len() < 0x1_0000_0000,
        algorithm.len() < 0x1_0000_0000,
        key.len() < 0x1_0000_0000,
        0 <= n < 26 + session_id.len() + username.len() + service.len() + method.len()
            + algorithm.len() + key.len(),
    ensures
        auth_description(
            (string_field(session_id) + (seq![kind] + (string_field(username) + (string_field(
                service,
            ) + (string_field(method) + (seq![has_key] + (string_field(algorithm)
                + string_field(key)))))))).take(n),
            now,
        ) is None,
{
    let login = LoginData {
        session_id,
        kind,
        username,
        service,
        method,
        has_key,
        algorithm,
        key,
        tail: Seq::empty(),
    };
    lemma_string_field_len(session_id);
    lemma_string_field_len(username);
    lemma_string_field_len(service);
    lemma_string_field_len(method);
    lemma_string_field_len(algorithm);
    lemma_string_field_len(key);
    assert(login.from_key() =~= string_field(key));
    let s = login.bytes();
    let cut = s.take(n);
    if auth_request(cut) is Some {
        let missing = s.skip(n);
        assert(cut + missing =~= s);
        lemma_login_is_whole(cut);
        let r1 = behind_username(cut)->Some_0;
        let r2 = behind_flag(r1)->Some_0;
        lemma_behind_username_tail(cut, missing);
        lemma_behind_flag_tail(r1, missing);
        lemma_two_strings_tail(r2, missing);
        lemma_login_front(login);
        lemma_login_back(login);
        assert(behind_two_strings(login.from_algorithm()) == Some(login.tail));
        assert(missing.len() > 0);
    }
}

} // verus!
