//! What holds of a connection as a whole, whatever the client, the agent and the
//! user do.

use vstd::prelude::*;
use crate::auth_data::{auth_description, law_login_key_is_not_shown, pam_description, LoginData};
use crate::identities::{
    fits_fields, identities_answer, law_identities_read_back, law_list_is_read_whole,
    law_list_layout, law_other_answers, lemma_answer_fits, AnswerView, Fault, IdentityView,
};
use crate::protocol::{
    SSH2_AGENTC_REQUEST_IDENTITIES, SSH2_AGENTC_SIGN_REQUEST, SSH2_AGENT_IDENTITIES_ANSWER,
    SSH_AGENTC_REMOVE_ALL_RSA_IDENTITIES, SSH_AGENTC_REQUEST_RSA_IDENTITIES, SSH_AGENT_FAILURE,
    SSH_AGENT_RSA_IDENTITIES_ANSWER, SSH_AGENT_SUCCESS,
};
use crate::session::{
    expects, next_step, on_client_packet, on_key_list, refuse, sign_request, Action, ActionView,
    Complaint, Event, EventView, FilterView, KeyFilter, SignFault, State, StateView,
};
use crate::setup::{
    allowed_keys, confirmed_keys, law_all_confirmed_hides_no_key, law_unnamed_key_stays_out,
    Selectors,
};
use crate::text::text_of;
use crate::wire::{
    be_bytes, law_fields_are_big_endian, law_string_read_back, lemma_string_cut,
    lemma_string_field_len, string_field, take_string,
};

verus! {

/// The events of a connection in the order in which they come, each with its time.
pub type History = Seq<(EventView, u64)>;

/// Where a connection stands after its events.
pub open spec fn state_after(filter: FilterView, history: History) -> StateView
    decreases history.len(),
{
    if history.len() == 0 {
        StateView::Idle
    } else {
        let (event, now) = history.last();
        next_step(filter, state_after(filter, history.drop_last()), event, now).0
    }
}

/// What is done about the event at `i`.
pub open spec fn action_at(filter: FilterView, history: History, i: int) -> ActionView {
    next_step(filter, state_after(filter, history.take(i)), history[i].0, history[i].1).1
}

/// Whether every event comes of the action before it.
pub open spec fn plausible(filter: FilterView, history: History) -> bool {
    forall|i: int|
        0 <= i < history.len() ==> expects(
            state_after(filter, history.take(i)),
            (#[trigger] history[i]).0,
        )
}

/// Whether the packet that goes to the agent at `i` may go there: the client sent it
/// just now, and it asks for the list of keys or for a signature with a key that is
/// allowed; or the client sent it just before, it asks for a signature with a key
/// for which the user is to be asked, the user was asked about this key and this
/// data, and said yes just now.
pub open spec fn authorised(
    filter: FilterView,
    history: History,
    i: int,
    packet: Seq<u8>,
) -> bool {
    let now_sent = history[i].0 == EventView::ClientSent(packet);
    ||| now_sent && packet.len() > 0 && packet[0] == SSH2_AGENTC_REQUEST_IDENTITIES
    ||| {
        &&& packet.len() > 0
        &&& packet[0] == SSH2_AGENTC_SIGN_REQUEST
        &&& sign_request(packet) matches Ok((key, data))
        &&& {
            ||| now_sent && filter.allowed.contains(key)
            ||| {
                &&& history[i].0 == EventView::UserAnswered(true)
                &&& i > 0
                &&& history[i - 1].0 == EventView::ClientSent(packet)
                &&& filter.asked_name(key) matches Some(name)
                &&& action_at(filter, history, i - 1) == ActionView::AskUser(
                    filter.question(name, data, history[i - 1].1),
                )
            }
        }
    }
}

/// Nothing goes to the agent but requests for the list of keys, sign requests for
/// keys that are allowed, and sign requests that the user has just confirmed; and
/// all of them as the client sent them.
pub proof fn law_agent_gets_authorised_requests_only(
    filter: FilterView,
    history: History,
    i: int,
    packet: Seq<u8>,
)
    requires
        plausible(filter, history),
        0 <= i < history.len(),
        action_at(filter, history, i) == ActionView::AskAgent(packet),
    ensures
        authorised(filter, history, i, packet),
{
    let before = history.take(i);
    let state = state_after(filter, before);
    assert(expects(state, history[i].0));
    if let StateView::Confirming(request) = state {
        assert(i > 0);
        let earlier = history.take(i - 1);
        assert(before.drop_last() =~= earlier);
        assert(before.last() == history[i - 1]);
        assert(expects(state_after(filter, earlier), history[i - 1].0));
        assert(request == packet);
    }
}

/// A connection goes back to the client's next request only when the one before has
/// been answered, an empty packet excepted; and it answers once.
pub proof fn law_each_request_is_answered_once(
    filter: FilterView,
    state: StateView,
    event: EventView,
    now: u64,
)
    requires
        expects(state, event),
    ensures
        ({
            let (next, action) = next_step(filter, state, event, now);
            &&& action is Read <==> next is Idle
            &&& action is Answer <==> next is Answering
            &&& next is Idle ==> state is Answering || (state is Idle && event
                == EventView::ClientSent(Seq::empty()))
            &&& state is Answering ==> next is Idle || next is Closed
        }),
{
    if state is Idle && event is ClientSent {
        assert(event->ClientSent_0.len() == 0 ==> event->ClientSent_0 =~= Seq::empty());
    }
}

/// How many requests the client has sent. An empty packet is none.
pub open spec fn requests_sent(history: History) -> nat
    decreases history.len(),
{
    if history.len() == 0 {
        0
    } else {
        requests_sent(history.drop_last()) + if history.last().0 matches EventView::ClientSent(
            packet,
        ) && packet.len() > 0 {
            1nat
        } else {
            0
        }
    }
}

/// How many answers the client has been sent.
pub open spec fn answers_given(filter: FilterView, history: History) -> nat
    decreases history.len(),
{
    if history.len() == 0 {
        0
    } else {
        answers_given(filter, history.drop_last()) + if action_at(
            filter,
            history,
            history.len() - 1,
        ) is Answer {
            1nat
        } else {
            0
        }
    }
}

/// Whether a request has come that has not been answered yet.
pub open spec fn is_pending(state: StateView) -> bool {
    state is Listing || state is Confirming || state is Signing
}

/// Over a whole connection there is one answer to each request, but for the last one
/// while it is pending.
pub proof fn law_answers_match_requests(filter: FilterView, history: History)
    requires
        plausible(filter, history),
    ensures
        answers_given(filter, history) + if is_pending(state_after(filter, history)) {
            1nat
        } else {
            0
        } == requests_sent(history),
    decreases history.len(),
{
    if history.len() > 0 {
        let n = history.len() - 1;
        let before = history.drop_last();
        assert(history.take(n) =~= before);
        assert forall|i: int| 0 <= i < before.len() implies expects(
            state_after(filter, before.take(i)),
            (#[trigger] before[i]).0,
        ) by {
            assert(before.take(i) =~= history.take(i));
            assert(before[i] == history[i]);
        }
        law_answers_match_requests(filter, before);
        let (event, now) = history[n];
        assert(expects(state_after(filter, before), event));
        law_each_request_is_answered_once(filter, state_after(filter, before), event, now);
    }
}

/// How many steps a connection is from its next request at most.
pub open spec fn steps_left(state: StateView) -> nat {
    match state {
        StateView::Confirming(_) => 3,
        StateView::Listing | StateView::Signing => 2,
        StateView::Answering { .. } => 1,
        StateView::Idle | StateView::Closed => 0,
    }
}

/// A request is done with after four steps at most, whatever happens.
pub proof fn law_requests_come_to_an_end(
    filter: FilterView,
    state: StateView,
    event: EventView,
    now: u64,
)
    requires
        expects(state, event),
    ensures
        state !is Idle ==> steps_left(next_step(filter, state, event, now).0) < steps_left(state),
        steps_left(next_step(filter, state, event, now).0) <= 3,
{
}

/// A connection ends only when the client has closed it, cannot be read from, or
/// cannot be sent an answer that it must get.
pub proof fn law_connection_outlives_the_agent(
    filter: FilterView,
    state: StateView,
    event: EventView,
    now: u64,
)
    requires
        expects(state, event),
        next_step(filter, state, event, now).0 is Closed,
    ensures
        event is ClientClosed || event is ClientFailed || (event is NotDelivered && state
            == (StateView::Answering { must: true })),
{
}

/// A client that asks for the list of keys sees those keys of the agent that the
/// filter shows, in the agent's order and with the agent's comments, and no others.
/// Where the agent's list breaks off, it sees none.
pub proof fn law_client_sees_shown_keys_only(filter: FilterView, answer: Seq<u8>)
    ensures
        on_key_list(filter, answer).1 matches ActionView::Answer(packet, _) && {
            &&& identities_answer(answer) matches AnswerView::Keys(entries, fault) ==> {
                if fault is None {
                    identities_answer(packet) == AnswerView::Keys(filter.shown(entries), None)
                } else {
                    identities_answer(packet) is Other
                }
            }
            &&& identities_answer(packet) matches AnswerView::Keys(seen, fault) ==> {
                &&& fault is None
                &&& forall|i: int| 0 <= i < seen.len() ==> filter.shows((#[trigger] seen[i]).key)
            }
        },
{
    if let AnswerView::Keys(entries, None) = identities_answer(answer) {
        let seen = filter.shown(entries);
        lemma_answer_fits(answer);
        let pred = |e: IdentityView| filter.shows(e.key);
        entries.lemma_filter_len(pred);
        assert forall|i: int| 0 <= i < seen.len() implies filter.shows(
            (#[trigger] seen[i]).key,
        ) && fits_fields(seen[i]) by {
            entries.lemma_filter_pred(pred, i);
            assert(pred(seen[i]));
            lemma_filter_keeps(entries, pred, i);
        }
        law_identities_read_back(seen);
    }
}

/// What a filter keeps was there before.
proof fn lemma_filter_keeps<A>(s: Seq<A>, pred: spec_fn(A) -> bool, i: int)
    requires
        0 <= i < s.filter(pred).len(),
    ensures
        exists|j: int| 0 <= j < s.len() && #[trigger] s[j] == s.filter(pred)[i],
    decreases s.len(),
{
    reveal(Seq::filter);
    let head = s.drop_last();
    if i < head.filter(pred).len() {
        lemma_filter_keeps(head, pred, i);
        let j = choose|j: int| 0 <= j < head.len() && #[trigger] head[j] == head.filter(pred)[i];
        assert(s[j] == s.filter(pred)[i]);
    } else {
        assert(s[s.len() - 1] == s.filter(pred)[i]);
    }
}

/// A request that is neither for a list of keys, nor for a signature, nor for the
/// removal of the protocol 1 keys is refused.
pub proof fn law_other_requests_are_refused(filter: FilterView, packet: Seq<u8>, now: u64)
    requires
        packet.len() > 0,
        packet[0] != SSH2_AGENTC_REQUEST_IDENTITIES,
        packet[0] != SSH2_AGENTC_SIGN_REQUEST,
        packet[0] != SSH_AGENTC_REQUEST_RSA_IDENTITIES,
        packet[0] != SSH_AGENTC_REMOVE_ALL_RSA_IDENTITIES,
    ensures
        on_client_packet(filter, packet, now) == refuse(),
{
}

/// A sign request goes to the agent at once for a key that is allowed, leads to a
/// question for another key that is shown, and is refused for a key that is neither
/// shown nor covered by the confirmation of all other keys.
pub proof fn law_sign_requests_follow_the_filter(
    filter: FilterView,
    packet: Seq<u8>,
    now: u64,
)
    requires
        packet.len() > 0,
        packet[0] == SSH2_AGENTC_SIGN_REQUEST,
        sign_request(packet) is Ok,
    ensures
        ({
            let key = sign_request(packet)->Ok_0.0;
            let step = on_client_packet(filter, packet, now);
            &&& filter.allowed.contains(key) <==> step.1 == ActionView::AskAgent(packet)
            &&& filter.shows(key) && !filter.allowed.contains(key) ==> step.1 is AskUser
            &&& !filter.shows(key) && filter.all_confirmed ==> step.1 is AskUser
            &&& !filter.shows(key) && !filter.all_confirmed <==> step == refuse()
        }),
{
}

/// What the user is asked rests on what the data says of the login: the algorithm,
/// the public key and the bytes behind it do not change the question.
pub proof fn law_question_shows_no_key(
    filter: FilterView,
    key_name: Seq<char>,
    a: LoginData,
    b: LoginData,
    now: u64,
)
    requires
        a.fits(),
        b.fits(),
        a.kind == b.kind,
        a.username == b.username,
        a.service == b.service,
        a.method == b.method,
        a.has_key == 0 <==> b.has_key == 0,
        pam_description(a.session_id, now) == pam_description(b.session_id, now),
    ensures
        filter.question(key_name, a.bytes(), now) == filter.question(key_name, b.bytes(), now),
{
    law_login_key_is_not_shown(a, b, now);
}

/// What the user does not confirm is refused, and what the user confirms goes to the
/// agent as the client sent it.
pub proof fn law_the_user_decides(filter: FilterView, request: Seq<u8>, yes: bool, now: u64)
    ensures
        next_step(filter, StateView::Confirming(request), EventView::UserAnswered(yes), now) == if yes {
            (StateView::Signing, ActionView::AskAgent(request))
        } else {
            refuse()
        },
{
}

/// Whether a filter is the one that selectors make of an agent's keys.
pub open spec fn made_by(filter: FilterView, sel: &Selectors, entries: Seq<IdentityView>) -> bool {
    &&& filter.allowed == allowed_keys(sel, entries)
    &&& filter.confirmed == confirmed_keys(sel, entries)
    &&& filter.all_confirmed == sel.all_confirmed
}

/// A key that no selector names is neither shown nor used, where not all other keys
/// are for use with confirmation.
pub proof fn law_unnamed_key_is_out_of_reach(
    filter: FilterView,
    sel: &Selectors,
    entries: Seq<IdentityView>,
    key: Seq<u8>,
)
    requires
        made_by(filter, sel, entries),
        !sel.all_confirmed,
        forall|i: int|
            0 <= i < entries.len() && (#[trigger] entries[i]).key == key ==> !sel.names_allowed(
                entries[i],
            ) && !sel.names_confirmed(entries[i]),
    ensures
        !filter.shows(key),
        forall|packet: Seq<u8>, now: u64|
            packet.len() > 0 && packet[0] == SSH2_AGENTC_SIGN_REQUEST && sign_request(packet) is Ok
                && sign_request(packet)->Ok_0.0 == key ==> #[trigger] on_client_packet(
                filter,
                packet,
                now,
            ) == refuse(),
{
    law_unnamed_key_stays_out(sel, entries, key);
}

/// Where all other keys are for use with confirmation, a client sees the agent's
/// list of keys as it is.
pub proof fn law_all_confirmed_shows_all(
    filter: FilterView,
    sel: &Selectors,
    entries: Seq<IdentityView>,
)
    requires
        made_by(filter, sel, entries),
        sel.all_confirmed,
    ensures
        filter.shown(entries) == entries,
{
    assert forall|i: int| 0 <= i < entries.len() implies filter.shows(
        (#[trigger] entries[i]).key,
    ) by {
        law_all_confirmed_hides_no_key(sel, entries, i);
    }
    lemma_filter_all(entries, |e: IdentityView| filter.shows(e.key));
}

/// A filter that all items pass leaves the sequence as it is.
proof fn lemma_filter_all<A>(s: Seq<A>, pred: spec_fn(A) -> bool)
    requires
        forall|i: int| 0 <= i < s.len() ==> pred(#[trigger] s[i]),
    ensures
        s.filter(pred) == s,
    decreases s.len(),
{
    reveal(Seq::filter);
    if s.len() > 0 {
        let head = s.drop_last();
        assert forall|i: int| 0 <= i < head.len() implies pred(#[trigger] head[i]) by {
            assert(head[i] == s[i]);
        }
        lemma_filter_all(head, pred);
        assert(pred(s[s.len() - 1]));
        assert(s.filter(pred) =~= s);
    } else {
        assert(s.filter(pred) =~= s);
    }
}

/// A sign request is its number, the key, the data and whatever else the client adds,
/// such as flags, which is not looked at. It goes to the agent as it came where the key
/// is allowed. Else the user is asked about the key under its own name where it has
/// one, under the name for unknown keys only where it has none and all other keys are
/// for use with confirmation. Else it is refused.
pub proof fn law_sign_request_is_decided_by_its_key(
    filter: FilterView,
    key: Seq<u8>,
    data: Seq<u8>,
    tail: Seq<u8>,
    now: u64,
)
    requires
        key.len() < 0x1_0000_0000,
        data.len() < 0x1_0000_0000,
    ensures
        ({
            let packet = seq![SSH2_AGENTC_SIGN_REQUEST] + (string_field(key) + (string_field(data)
                + tail));
            &&& sign_request(packet) == Ok::<(Seq<u8>, Seq<u8>), SignFault>((key, data))
            &&& next_step(filter, StateView::Idle, EventView::ClientSent(packet), now)
                == if filter.allowed.contains(key) {
                (StateView::Signing, ActionView::AskAgent(packet))
            } else if filter.confirmed.dom().contains(key) {
                (
                    StateView::Confirming(packet),
                    ActionView::AskUser(filter.question(filter.confirmed[key], data, now)),
                )
            } else if filter.all_confirmed {
                (
                    StateView::Confirming(packet),
                    ActionView::AskUser(filter.question("Unknown key (catch-all)"@, data, now)),
                )
            } else {
                (
                    StateView::Answering { must: true },
                    ActionView::Answer(seq![SSH_AGENT_FAILURE], None),
                )
            }
        }),
{
    let body = string_field(key) + (string_field(data) + tail);
    let packet = seq![SSH2_AGENTC_SIGN_REQUEST] + body;
    assert(packet.skip(1) =~= body);
    law_string_read_back(key, string_field(data) + tail);
    law_string_read_back(data, tail);
}

/// A sign request that is cut short in the key or in the data is given up, with a
/// complaint about the field that is not whole.
pub proof fn law_cut_sign_request_is_given_up(
    filter: FilterView,
    key: Seq<u8>,
    data: Seq<u8>,
    n: int,
    now: u64,
)
    requires
        key.len() < 0x1_0000_0000,
        data.len() < 0x1_0000_0000,
        1 <= n < 9 + key.len() + data.len(),
    ensures
        next_step(
            filter,
            StateView::Idle,
            EventView::ClientSent(
                (seq![SSH2_AGENTC_SIGN_REQUEST] + (string_field(key) + string_field(data))).take(n),
            ),
            now,
        ) == (
            StateView::Answering { must: false },
            ActionView::Answer(
                seq![SSH_AGENT_FAILURE],
                Some(
                    Complaint::SignRequest(
                        if n < 5 + key.len() {
                            SignFault::Key
                        } else {
                            SignFault::Data
                        },
                    ),
                ),
            ),
        ),
{
    let body = string_field(key) + string_field(data);
    let packet = seq![SSH2_AGENTC_SIGN_REQUEST] + body;
    lemma_string_field_len(key);
    lemma_string_field_len(data);
    assert(packet.take(n).skip(1) =~= body.take(n - 1));
    assert(packet.take(n)[0] == SSH2_AGENTC_SIGN_REQUEST);
    law_string_read_back(key, string_field(data));
    lemma_string_cut(body, n - 1);
    if n >= 5 + key.len() {
        law_string_read_back(data, Seq::empty());
        assert(string_field(data) + Seq::<u8>::empty() =~= string_field(data));
        lemma_string_cut(string_field(data), n - 5 - key.len());
    }
}

/// The question to the user names the filter, where it has a name, and the key, and
/// ends with what the data says, or that it is not known.
pub proof fn law_question_names_key_and_purpose(
    filter: FilterView,
    key_name: Seq<char>,
    data: Seq<u8>,
    now: u64,
)
    ensures
        ({
            let who = if filter.name is Some {
                " named '"@ + filter.name->Some_0 + "'"@
            } else {
                Seq::empty()
            };
            let what = if auth_description(data, now) is Some {
                auth_description(data, now)->Some_0
            } else {
                "The request format is unknown."@
            };
            filter.question(key_name, data, now) == "Something behind the ssh-agent-filter"@ + who
                + " requested use of the key named '"@ + key_name + "'.\n"@ + what
        }),
        forall|description: Option<Seq<char>>| #[trigger]
            filter.question_about(key_name, description) == "Something behind the ssh-agent-filter"@
                + (if filter.name is Some {
                " named '"@ + filter.name->Some_0 + "'"@
            } else {
                Seq::empty()
            }) + " requested use of the key named '"@ + key_name + "'.\n"@ + (
            if description is Some {
                description->Some_0
            } else {
                "The request format is unknown."@
            }),
{
}

/// A client that asks for the list of keys gets every entry of the agent's list whose
/// key is allowed or for confirmation, in the agent's order, as often as it stands
/// there and with its comment, and no other entry.
pub proof fn law_every_shown_key_is_listed(
    filter: FilterView,
    entries: Seq<IdentityView>,
    tail: Seq<u8>,
    now: u64,
)
    requires
        entries.len() < 0x1_0000_0000,
        forall|i: int|
            0 <= i < entries.len() ==> (#[trigger] entries[i]).key.len() < 0x1_0000_0000
                && entries[i].comment.len() < 0x1_0000_0000,
    ensures
        ({
            let kept = entries.filter(
                |e: IdentityView|
                    filter.allowed.contains(e.key) || filter.confirmed.dom().contains(e.key),
            );
            let answer = seq![SSH2_AGENT_IDENTITIES_ANSWER] + be_bytes(entries.len(), 4)
                + entries.map_values(
                |e: IdentityView| string_field(e.key) + string_field(e.comment),
            ).flatten() + tail;
            next_step(filter, StateView::Listing, EventView::AgentAnswered(answer), now) == (
                StateView::Answering { must: true },
                ActionView::Answer(
                    seq![SSH2_AGENT_IDENTITIES_ANSWER] + be_bytes(kept.len(), 4) + kept.map_values(
                        |e: IdentityView| string_field(e.key) + string_field(e.comment),
                    ).flatten(),
                    None,
                ),
            )
        }),
{
    let kept = entries.filter(
        |e: IdentityView| filter.allowed.contains(e.key) || filter.confirmed.dom().contains(e.key),
    );
    law_list_is_read_whole(entries, tail, 0);
    law_list_layout(kept);
    lemma_shown_is_filtered(filter, entries);
}

/// The entries that are shown are those whose key is allowed or for confirmation.
proof fn lemma_shown_is_filtered(filter: FilterView, entries: Seq<IdentityView>)
    ensures
        filter.shown(entries) == entries.filter(
            |e: IdentityView|
                filter.allowed.contains(e.key) || filter.confirmed.dom().contains(e.key),
        ),
{
    assert((|e: IdentityView| filter.shows(e.key)) =~= (|e: IdentityView|
        filter.allowed.contains(e.key) || filter.confirmed.dom().contains(e.key)));
}

/// Whatever whole list an agent answers with, the client reads in its own answer the
/// same list without the entries whose key is neither allowed nor for confirmation.
pub proof fn law_client_reads_the_filtered_list(
    filter: FilterView,
    answer: Seq<u8>,
    entries: Seq<IdentityView>,
    now: u64,
)
    requires
        identities_answer(answer) == AnswerView::Keys(entries, None),
    ensures
        next_step(filter, StateView::Listing, EventView::AgentAnswered(answer), now).1
            matches ActionView::Answer(packet, complaint) && complaint is None
            && identities_answer(packet) == AnswerView::Keys(
            entries.filter(
                |e: IdentityView|
                    filter.allowed.contains(e.key) || filter.confirmed.dom().contains(e.key),
            ),
            None,
        ),
{
    law_client_sees_shown_keys_only(filter, answer);
    lemma_shown_is_filtered(filter, entries);
}

/// A list of keys that breaks off, or an answer that is no message at all, is not
/// shown to the client: the request is given up, with a complaint about what is
/// missing. Any other message of the agent goes to the client as it is.
pub proof fn law_unreadable_list_is_given_up(
    filter: FilterView,
    entries: Seq<IdentityView>,
    rest: Seq<u8>,
    more: nat,
    other: Seq<u8>,
    now: u64,
)
    requires
        0 < more,
        entries.len() + more < 0x1_0000_0000,
        forall|i: int|
            0 <= i < entries.len() ==> (#[trigger] entries[i]).key.len() < 0x1_0000_0000
                && entries[i].comment.len() < 0x1_0000_0000,
        take_string(rest) matches Some((_, s)) ==> take_string(s) is None,
    ensures
        ({
            let answer = seq![SSH2_AGENT_IDENTITIES_ANSWER] + be_bytes(entries.len() + more, 4)
                + entries.map_values(
                |e: IdentityView| string_field(e.key) + string_field(e.comment),
            ).flatten() + rest;
            next_step(filter, StateView::Listing, EventView::AgentAnswered(answer), now) == (
                StateView::Answering { must: false },
                ActionView::Answer(
                    seq![SSH_AGENT_FAILURE],
                    Some(
                        Complaint::AnswerEntry(
                            if take_string(rest) is None {
                                Fault::Key
                            } else {
                                Fault::Comment
                            },
                        ),
                    ),
                ),
            )
        }),
        next_step(filter, StateView::Listing, EventView::AgentAnswered(other), now)
            == if other.len() == 0 {
            (
                StateView::Answering { must: false },
                ActionView::Answer(seq![SSH_AGENT_FAILURE], Some(Complaint::AnswerType)),
            )
        } else if other[0] != SSH2_AGENT_IDENTITIES_ANSWER {
            (StateView::Answering { must: false }, ActionView::Answer(other, None))
        } else if other.len() < 5 {
            (
                StateView::Answering { must: false },
                ActionView::Answer(seq![SSH_AGENT_FAILURE], Some(Complaint::AnswerCount)),
            )
        } else {
            on_key_list(filter, other)
        },
{
    law_list_is_read_whole(entries, rest, more);
    law_other_answers(other);
}

/// What comes of a packet that is no sign request follows from its first byte alone.
pub proof fn law_requests_go_by_their_number(filter: FilterView, packet: Seq<u8>, now: u64)
    requires
        packet.len() > 0 ==> packet[0] != SSH2_AGENTC_SIGN_REQUEST,
    ensures
        next_step(filter, StateView::Idle, EventView::ClientSent(packet), now)
            == if packet.len() == 0 {
            (StateView::Idle, ActionView::Read)
        } else if packet[0] == SSH2_AGENTC_REQUEST_IDENTITIES {
            (StateView::Listing, ActionView::AskAgent(packet))
        } else {
            (
                StateView::Answering { must: true },
                ActionView::Answer(
                    if packet[0] == SSH_AGENTC_REQUEST_RSA_IDENTITIES {
                        seq![SSH_AGENT_RSA_IDENTITIES_ANSWER, 0, 0, 0, 0]
                    } else if packet[0] == SSH_AGENTC_REMOVE_ALL_RSA_IDENTITIES {
                        seq![SSH_AGENT_SUCCESS]
                    } else {
                        seq![SSH_AGENT_FAILURE]
                    },
                    None,
                ),
            )
        },
{
    law_fields_are_big_endian(0, Seq::empty());
    assert(seq![SSH_AGENT_RSA_IDENTITIES_ANSWER] + be_bytes(0, 4) =~= seq![
        SSH_AGENT_RSA_IDENTITIES_ANSWER,
        0,
        0,
        0,
        0,
    ]);
}

/// What the agent, the user and the client's connection do is followed: a signature goes
/// to the client as the agent sent it, an agent that fails is answered for, the user's
/// word is carried out, and the connection ends with the client and only with it.
pub proof fn law_events_are_followed(
    filter: FilterView,
    request: Seq<u8>,
    answer: Seq<u8>,
    now: u64,
)
    ensures
        next_step(filter, StateView::Signing, EventView::AgentAnswered(answer), now) == (
            StateView::Answering { must: true },
            ActionView::Answer(answer, None),
        ),
        next_step(filter, StateView::Signing, EventView::AgentFailed, now) == (
            StateView::Answering { must: false },
            ActionView::Answer(seq![SSH_AGENT_FAILURE], None),
        ),
        next_step(filter, StateView::Listing, EventView::AgentFailed, now) == (
            StateView::Answering { must: false },
            ActionView::Answer(seq![SSH_AGENT_FAILURE], None),
        ),
        next_step(filter, StateView::Confirming(request), EventView::UserAnswered(true), now) == (
            StateView::Signing,
            ActionView::AskAgent(request),
        ),
        next_step(filter, StateView::Confirming(request), EventView::UserAnswered(false), now) == (
            StateView::Answering { must: true },
            ActionView::Answer(seq![SSH_AGENT_FAILURE], None),
        ),
        forall|must: bool| #[trigger]
            next_step(filter, StateView::Answering { must }, EventView::Delivered, now) == (
                StateView::Idle,
                ActionView::Read,
            ),
        next_step(filter, StateView::Answering { must: false }, EventView::NotDelivered, now) == (
            StateView::Idle,
            ActionView::Read,
        ),
        next_step(filter, StateView::Answering { must: true }, EventView::NotDelivered, now) == (
            StateView::Closed,
            ActionView::Abort,
        ),
        next_step(filter, StateView::Idle, EventView::ClientClosed, now) == (
            StateView::Closed,
            ActionView::Finish,
        ),
        next_step(filter, StateView::Idle, EventView::ClientFailed, now) == (
            StateView::Closed,
            ActionView::Abort,
        ),
{
}

/// Every event that can come of an action is expected, whatever it carries, and no
/// other.
pub proof fn law_events_are_expected(
    request: Seq<u8>,
    must: bool,
    event: EventView,
)
    ensures
        expects(StateView::Idle, event) <==> event is ClientSent || event is ClientClosed
            || event is ClientFailed,
        expects(StateView::Listing, event) <==> event is AgentAnswered || event is AgentFailed,
        expects(StateView::Signing, event) <==> event is AgentAnswered || event is AgentFailed,
        expects(StateView::Confirming(request), event) <==> event is UserAnswered,
        expects(StateView::Answering { must }, event) <==> event is Delivered
            || event is NotDelivered,
        !expects(StateView::Closed, event),
{
}

/// What a filter, a state, an event and an action stand for is what they hold.
pub proof fn law_views_are_faithful(
    filter: KeyFilter,
    packet: Vec<u8>,
    question: String,
    complaint: Option<Complaint>,
    flag: bool,
)
    ensures
        filter@.allowed == filter.allowed@,
        filter@.confirmed == filter.confirmed@,
        filter@.all_confirmed == filter.all_confirmed,
        filter@.name == text_of(filter.name),
        State::Idle@ == StateView::Idle,
        State::Listing@ == StateView::Listing,
        State::Confirming(packet)@ == StateView::Confirming(packet@),
        State::Signing@ == StateView::Signing,
        (State::Answering { must: flag })@ == (StateView::Answering { must: flag }),
        State::Closed@ == StateView::Closed,
        Event::ClientSent(packet)@ == EventView::ClientSent(packet@),
        Event::ClientClosed@ == EventView::ClientClosed,
        Event::ClientFailed@ == EventView::ClientFailed,
        Event::AgentAnswered(packet)@ == EventView::AgentAnswered(packet@),
        Event::AgentFailed@ == EventView::AgentFailed,
        Event::UserAnswered(flag)@ == EventView::UserAnswered(flag),
        Event::Delivered@ == EventView::Delivered,
        Event::NotDelivered@ == EventView::NotDelivered,
        Action::Read@ == ActionView::Read,
        Action::AskAgent(packet)@ == ActionView::AskAgent(packet@),
        Action::AskUser(question)@ == ActionView::AskUser(question@),
        Action::Answer(packet, complaint)@ == ActionView::Answer(packet@, complaint),
        Action::Finish@ == ActionView::Finish,
        Action::Abort@ == ActionView::Abort,
{
}

} // verus!
