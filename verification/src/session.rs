//! A client's connection: what the filter does about each request, step by step.
//!
//! The caller carries the actions out and reports what came of them. Nothing of a
//! client's request reaches the agent except by an action of this machine.

use vstd::prelude::*;
use vstd::slice::slice_to_vec;
use vstd::string::StringExecFns;
use crate::auth_data::{current_time, dissect_auth_data_ssh_at};
use crate::auth_data::auth_description;
use crate::identities::{parse_identities_answer, write_identities, Answer, Fault, Identity};
use crate::identities::{
    entry_views, identities_answer, identities_packet, AnswerView, IdentityView,
};
use crate::keys::{KeyNames, KeySet};
use crate::laws::made_by;
use crate::protocol::{
    SSH2_AGENTC_REQUEST_IDENTITIES, SSH2_AGENTC_SIGN_REQUEST, SSH_AGENTC_REMOVE_ALL_RSA_IDENTITIES,
    SSH_AGENTC_REQUEST_RSA_IDENTITIES, SSH_AGENT_FAILURE, SSH_AGENT_RSA_IDENTITIES_ANSWER,
    SSH_AGENT_SUCCESS,
};
use crate::setup::{SelectedKeys, Selectors};
use crate::text::append_all;
use crate::text::text_of;
use crate::wire::{BufferReader, BufferWriter};
use crate::wire::{be_bytes, take_string};

verus! {

/// What a connection is filtered by.
pub struct KeyFilter {
    /// Keys for use without question.
    pub allowed: KeySet,
    /// Keys for use with confirmation, and their names.
    pub confirmed: KeyNames,
    /// All other keys are for use with confirmation too.
    pub all_confirmed: bool,
    /// The name of this filter, for the questions to the user.
    pub name: Option<String>,
}

/// What a [`KeyFilter`] stands for.
pub struct FilterView {
    pub allowed: Set<Seq<u8>>,
    pub confirmed: Map<Seq<u8>, Seq<char>>,
    pub all_confirmed: bool,
    pub name: Option<Seq<char>>,
}

impl View for KeyFilter {
    type V = FilterView;

    open spec fn view(&self) -> FilterView {
        FilterView {
            allowed: self.allowed@,
            confirmed: self.confirmed@,
            all_confirmed: self.all_confirmed,
            name: match self.name {
                Some(name) => Some(name@),
                None => None,
            },
        }
    }
}

impl FilterView {
    /// Whether a key is shown in the list of keys.
    pub open spec fn shows(self, key: Seq<u8>) -> bool {
        self.allowed.contains(key) || self.confirmed.dom().contains(key)
    }

    /// The entries of a list of keys that are shown.
    pub open spec fn shown(self, entries: Seq<IdentityView>) -> Seq<IdentityView> {
        entries.filter(|e: IdentityView| self.shows(e.key))
    }

    /// The name under which the user is asked about a key, if the user is to be asked
    /// about a key that is not allowed.
    pub open spec fn asked_name(self, key: Seq<u8>) -> Option<Seq<char>> {
        if self.confirmed.dom().contains(key) {
            Some(self.confirmed[key])
        } else if self.all_confirmed {
            Some("Unknown key (catch-all)"@)
        } else {
            None
        }
    }

    /// What the user is asked about the use of a key, given what the request says.
    pub open spec fn question_about(
        self,
        key_name: Seq<char>,
        description: Option<Seq<char>>,
    ) -> Seq<char> {
        "Something behind the ssh-agent-filter"@ + (match self.name {
            Some(name) => " named '"@ + name + "'"@,
            None => Seq::empty(),
        }) + " requested use of the key named '"@ + key_name + "'.\n"@ + (match description {
            Some(text) => text,
            None => "The request format is unknown."@,
        })
    }

    /// What the user is asked about the use of a key for these data.
    pub open spec fn question(self, key_name: Seq<char>, data: Seq<u8>, now: u64) -> Seq<char> {
        self.question_about(key_name, auth_description(data, now))
    }
}

/// The field at which a sign request breaks off.
#[derive(Debug, Clone, Copy, PartialEq, Eq, Structural)]
pub enum SignFault {
    Key,
    Data,
}

/// Why a request could not be carried out, for the log.
#[derive(Debug, Clone, Copy, PartialEq, Eq, Structural)]
pub enum Complaint {
    /// The agent's answer has no message number.
    AnswerType,
    /// The agent's list of keys does not say how many there are.
    AnswerCount,
    /// The agent's list of keys breaks off.
    AnswerEntry(Fault),
    /// The client's sign request breaks off.
    SignRequest(SignFault),
}

/// Where a connection stands.
pub enum State {
    /// The client is to send a request.
    Idle,
    /// The agent is to send its list of keys.
    Listing,
    /// The user is to say whether this sign request goes to the agent.
    Confirming(Vec<u8>),
    /// The agent is to answer a sign request.
    Signing,
    /// The client is to get an answer. Where it must, the connection ends if it cannot.
    Answering { must: bool },
    /// The connection has ended.
    Closed,
}

/// What came of an action.
pub enum Event {
    /// The client sent a packet.
    ClientSent(Vec<u8>),
    /// The client closed the connection.
    ClientClosed,
    /// Nothing can be read from the client.
    ClientFailed,
    /// The agent answered with a packet.
    AgentAnswered(Vec<u8>),
    /// The agent could not be reached, or gave no answer.
    AgentFailed,
    /// The user was asked, and said yes or not.
    UserAnswered(bool),
    /// The answer went to the client.
    Delivered,
    /// The answer could not be sent to the client.
    NotDelivered,
}

/// What is to be done next.
pub enum Action {
    /// Read a packet from the client.
    Read,
    /// Send a packet to the agent and read its answer.
    AskAgent(Vec<u8>),
    /// Ask the user.
    AskUser(String),
    /// Send a packet to the client.
    Answer(Vec<u8>, Option<Complaint>),
    /// End the connection: the client has closed it.
    Finish,
    /// End the connection: the client cannot be read from or written to.
    Abort,
}

/// What a [`State`] stands for.
#[verifier::ext_equal]
pub enum StateView {
    Idle,
    Listing,
    Confirming(Seq<u8>),
    Signing,
    Answering { must: bool },
    Closed,
}

/// What an [`Event`] stands for.
#[verifier::ext_equal]
pub enum EventView {
    ClientSent(Seq<u8>),
    ClientClosed,
    ClientFailed,
    AgentAnswered(Seq<u8>),
    AgentFailed,
    UserAnswered(bool),
    Delivered,
    NotDelivered,
}

/// What an [`Action`] stands for.
#[verifier::ext_equal]
pub enum ActionView {
    Read,
    AskAgent(Seq<u8>),
    AskUser(Seq<char>),
    Answer(Seq<u8>, Option<Complaint>),
    Finish,
    Abort,
}

impl View for State {
    type V = StateView;

    open spec fn view(&self) -> StateView {
        match self {
            State::Idle => StateView::Idle,
            State::Listing => StateView::Listing,
            State::Confirming(request) => StateView::Confirming(request@),
            State::Signing => StateView::Signing,
            State::Answering { must } => StateView::Answering { must: *must },
            State::Closed => StateView::Closed,
        }
    }
}

impl View for Event {
    type V = EventView;

    open spec fn view(&self) -> EventView {
        match self {
            Event::ClientSent(packet) => EventView::ClientSent(packet@),
            Event::ClientClosed => EventView::ClientClosed,
            Event::ClientFailed => EventView::ClientFailed,
            Event::AgentAnswered(packet) => EventView::AgentAnswered(packet@),
            Event::AgentFailed => EventView::AgentFailed,
            Event::UserAnswered(yes) => EventView::UserAnswered(*yes),
            Event::Delivered => EventView::Delivered,
            Event::NotDelivered => EventView::NotDelivered,
        }
    }
}

impl View for Action {
    type V = ActionView;

    open spec fn view(&self) -> ActionView {
        match self {
            Action::Read => ActionView::Read,
            Action::AskAgent(packet) => ActionView::AskAgent(packet@),
            Action::AskUser(question) => ActionView::AskUser(question@),
            Action::Answer(packet, complaint) => ActionView::Answer(packet@, *complaint),
            Action::Finish => ActionView::Finish,
            Action::Abort => ActionView::Abort,
        }
    }
}

/// A state and the action that goes with it.
pub type Step = (StateView, ActionView);

/// The packet that refuses a request.
pub open spec fn failure_packet() -> Seq<u8> {
    seq![SSH_AGENT_FAILURE]
}

/// Refuses a request. The connection ends if the refusal cannot be sent.
pub open spec fn refuse() -> Step {
    (StateView::Answering { must: true }, ActionView::Answer(failure_packet(), None))
}

/// Gives up on a request. The connection goes on even if that cannot be sent.
pub open spec fn give_up(complaint: Option<Complaint>) -> Step {
    (StateView::Answering { must: false }, ActionView::Answer(failure_packet(), complaint))
}

/// A sign request: the key and the data to be signed, or where it breaks off.
pub open spec fn sign_request(packet: Seq<u8>) -> Result<(Seq<u8>, Seq<u8>), SignFault> {
    match take_string(packet.skip(1)) {
        None => Err(SignFault::Key),
        Some((key, s)) => match take_string(s) {
            None => Err(SignFault::Data),
            Some((data, _)) => Ok((key, data)),
        },
    }
}

/// What is done about a sign request that comes at the time `now`.
pub open spec fn on_sign_request(filter: FilterView, packet: Seq<u8>, now: u64) -> Step {
    match sign_request(packet) {
        Err(fault) => give_up(Some(Complaint::SignRequest(fault))),
        Ok((key, data)) => if filter.allowed.contains(key) {
            (StateView::Signing, ActionView::AskAgent(packet))
        } else {
            match filter.asked_name(key) {
                Some(name) => (
                    StateView::Confirming(packet),
                    ActionView::AskUser(filter.question(name, data, now)),
                ),
                None => refuse(),
            }
        },
    }
}

/// What is done about a packet that the client sends at the time `now`.
pub open spec fn on_client_packet(filter: FilterView, packet: Seq<u8>, now: u64) -> Step {
    if packet.len() == 0 {
        (StateView::Idle, ActionView::Read)
    } else if packet[0] == SSH2_AGENTC_REQUEST_IDENTITIES {
        (StateView::Listing, ActionView::AskAgent(packet))
    } else if packet[0] == SSH2_AGENTC_SIGN_REQUEST {
        on_sign_request(filter, packet, now)
    } else if packet[0] == SSH_AGENTC_REQUEST_RSA_IDENTITIES {
        (
            StateView::Answering { must: true },
            ActionView::Answer(seq![SSH_AGENT_RSA_IDENTITIES_ANSWER] + be_bytes(0, 4), None),
        )
    } else if packet[0] == SSH_AGENTC_REMOVE_ALL_RSA_IDENTITIES {
        (
            StateView::Answering { must: true },
            ActionView::Answer(seq![SSH_AGENT_SUCCESS], None),
        )
    } else {
        refuse()
    }
}

/// What is done about the agent's answer to the question for its keys. A list of
/// keys is cut down to those that are shown; any other message goes to the client.
pub open spec fn on_key_list(filter: FilterView, answer: Seq<u8>) -> Step {
    match identities_answer(answer) {
        AnswerView::NoType => give_up(Some(Complaint::AnswerType)),
        AnswerView::Other => (
            StateView::Answering { must: false },
            ActionView::Answer(answer, None),
        ),
        AnswerView::NoCount => give_up(Some(Complaint::AnswerCount)),
        AnswerView::Keys(_, Some(fault)) => give_up(Some(Complaint::AnswerEntry(fault))),
        AnswerView::Keys(entries, None) => (
            StateView::Answering { must: true },
            ActionView::Answer(identities_packet(filter.shown(entries)), None),
        ),
    }
}

/// Whether an event can come of the action that goes with a state.
pub open spec fn expects(state: StateView, event: EventView) -> bool {
    match state {
        StateView::Idle => event is ClientSent || event is ClientClosed || event is ClientFailed,
        StateView::Listing | StateView::Signing => event is AgentAnswered || event is AgentFailed,
        StateView::Confirming(_) => event is UserAnswered,
        StateView::Answering { .. } => event is Delivered || event is NotDelivered,
        StateView::Closed => false,
    }
}

/// What is done about an event at the time `now`.
pub open spec fn next_step(
    filter: FilterView,
    state: StateView,
    event: EventView,
    now: u64,
) -> Step
    recommends
        expects(state, event),
{
    match (state, event) {
        (StateView::Idle, EventView::ClientSent(packet)) => on_client_packet(filter, packet, now),
        (StateView::Idle, EventView::ClientClosed) => (StateView::Closed, ActionView::Finish),
        (StateView::Idle, EventView::ClientFailed) => (StateView::Closed, ActionView::Abort),
        (StateView::Listing, EventView::AgentAnswered(answer)) => on_key_list(filter, answer),
        (StateView::Listing, EventView::AgentFailed) => give_up(None),
        (StateView::Confirming(request), EventView::UserAnswered(yes)) => if yes {
            (StateView::Signing, ActionView::AskAgent(request))
        } else {
            refuse()
        },
        (StateView::Signing, EventView::AgentAnswered(answer)) => (
            StateView::Answering { must: true },
            ActionView::Answer(answer, None),
        ),
        (StateView::Signing, EventView::AgentFailed) => give_up(None),
        (StateView::Answering { must }, EventView::NotDelivered) if must => (
            StateView::Closed,
            ActionView::Abort,
        ),
        (StateView::Answering { must }, _) => (StateView::Idle, ActionView::Read),
        _ => (StateView::Closed, ActionView::Abort),
    }
}

/// A message that is one byte long.
fn one_byte(kind: u8) -> (packet: Vec<u8>)
    ensures
        packet@ == seq![kind],
{
    let mut writer = BufferWriter::new();
    writer.write_u8(kind);
    assert(writer@ =~= seq![kind]);
    writer.into_inner()
}

impl State {
    /// Whether an event can come of the action that goes with this state.
    pub fn expects(&self, event: &Event) -> (res: bool)
        ensures
            res == expects(self@, event@),
    {
        match (self, event) {
            (State::Idle, Event::ClientSent(_)) => true,
            (State::Idle, Event::ClientClosed) => true,
            (State::Idle, Event::ClientFailed) => true,
            (State::Listing, Event::AgentAnswered(_)) => true,
            (State::Listing, Event::AgentFailed) => true,
            (State::Signing, Event::AgentAnswered(_)) => true,
            (State::Signing, Event::AgentFailed) => true,
            (State::Confirming(_), Event::UserAnswered(_)) => true,
            (State::Answering { must: _ }, Event::Delivered) => true,
            (State::Answering { must: _ }, Event::NotDelivered) => true,
            _ => false,
        }
    }
}

/// Refuses a request.
fn refusal() -> (step: (State, Action))
    ensures
        (step.0@, step.1@) == refuse(),
{
    (State::Answering { must: true }, Action::Answer(one_byte(SSH_AGENT_FAILURE), None))
}

/// Gives up on a request.
fn giving_up(complaint: Option<Complaint>) -> (step: (State, Action))
    ensures
        (step.0@, step.1@) == give_up(complaint),
{
    (State::Answering { must: false }, Action::Answer(one_byte(SSH_AGENT_FAILURE), complaint))
}

impl KeyFilter {
    /// The filter that lets selected keys through, under a name for the questions.
    pub fn new(selected: SelectedKeys, sel: &Selectors, name: Option<String>) -> (filter: Self)
        ensures
            filter@ == (FilterView {
                allowed: selected.allowed@,
                confirmed: selected.confirmed@,
                all_confirmed: sel.all_confirmed,
                name: text_of(name),
            }),
            forall|entries: Seq<IdentityView>| #[trigger]
                selected.selected_from(sel, entries) ==> made_by(filter@, sel, entries),
    {
        KeyFilter {
            allowed: selected.allowed,
            confirmed: selected.confirmed,
            all_confirmed: sel.all_confirmed,
            name,
        }
    }

    /// A connection that has just been opened, and what is to be done about it.
    pub fn start(&self) -> (step: (State, Action))
        ensures
            (step.0@, step.1@) == (StateView::Idle, ActionView::Read),
    {
        (State::Idle, Action::Read)
    }

    /// What the user is asked about the use of a key, given what the request says.
    pub fn question_about(&self, key_name: &str, description: Option<String>) -> (text: String)
        ensures
            text@ == self@.question_about(key_name@, text_of(description)),
    {
        let mut text: String = "Something behind the ssh-agent-filter".to_owned();
        if let Some(name) = &self.name {
            append_all(&mut text, " named '", name.as_str(), "'");
        }
        append_all(&mut text, " requested use of the key named '", key_name, "'.\n");
        match &description {
            Some(desc) => {
                text.append(desc.as_str());
            },
            None => {
                text.append("The request format is unknown.");
            },
        }
        assert(text@ =~= self@.question_about(key_name@, text_of(description)));
        text
    }

    /// What the user is asked about the use of a key for these data.
    pub fn question(&self, key_name: &str, data: &[u8], now: u64) -> (text: String)
        ensures
            text@ == self@.question(key_name@, data@, now),
    {
        self.question_about(key_name, dissect_auth_data_ssh_at(data, now))
    }

    /// The name under which the user is asked about a key.
    fn asked_name(&self, key: &[u8]) -> (name: Option<String>)
        ensures
            match self@.asked_name(key@) {
                Some(want) => name is Some && name->Some_0@ == want,
                None => name is None,
            },
    {
        match self.confirmed.get(key) {
            Some(name) => Some(name.clone()),
            None => if self.all_confirmed {
                Some("Unknown key (catch-all)".to_owned())
            } else {
                None
            },
        }
    }

    /// What is done about a sign request that comes at the time `now`.
    fn sign_request_step(&self, packet: Vec<u8>, now: u64) -> (step: (State, Action))
        requires
            packet@.len() > 0,
        ensures
            (step.0@, step.1@) == on_sign_request(self@, packet@, now),
    {
        let mut reader = BufferReader::new(packet.as_slice());
        let _ = reader.read_u8();
        let key = match reader.read_string() {
            Ok(key) => key,
            Err(_) => {
                return giving_up(Some(Complaint::SignRequest(SignFault::Key)));
            },
        };
        let data = match reader.read_string() {
            Ok(data) => data,
            Err(_) => {
                return giving_up(Some(Complaint::SignRequest(SignFault::Data)));
            },
        };
        if self.allowed.contains(key) {
            return (State::Signing, Action::AskAgent(packet));
        }
        match self.asked_name(key) {
            Some(name) => {
                let question: String = self.question(name.as_str(), data, now);
                (State::Confirming(packet), Action::AskUser(question))
            },
            None => refusal(),
        }
    }

    /// What is done about a packet that the client sends at the time `now`.
    fn client_packet_step(&self, packet: Vec<u8>, now: u64) -> (step: (State, Action))
        ensures
            (step.0@, step.1@) == on_client_packet(self@, packet@, now),
    {
        if packet.len() == 0 {
            return (State::Idle, Action::Read);
        }
        let kind: u8 = packet[0];
        if kind == SSH2_AGENTC_REQUEST_IDENTITIES {
            (State::Listing, Action::AskAgent(packet))
        } else if kind == SSH2_AGENTC_SIGN_REQUEST {
            self.sign_request_step(packet, now)
        } else if kind == SSH_AGENTC_REQUEST_RSA_IDENTITIES {
            let mut writer = BufferWriter::new();
            writer.write_u8(SSH_AGENT_RSA_IDENTITIES_ANSWER);
            writer.write_u32(0);
            assert(writer@ =~= seq![SSH_AGENT_RSA_IDENTITIES_ANSWER] + be_bytes(0, 4));
            (State::Answering { must: true }, Action::Answer(writer.into_inner(), None))
        } else if kind == SSH_AGENTC_REMOVE_ALL_RSA_IDENTITIES {
            (State::Answering { must: true }, Action::Answer(one_byte(SSH_AGENT_SUCCESS), None))
        } else {
            refusal()
        }
    }

    /// The entries of a list of keys that are shown.
    fn shown(&self, entries: Vec<Identity>) -> (kept: Vec<Identity>)
        ensures
            entry_views(kept@) == self@.shown(entry_views(entries@)),
    {
        let ghost views = entry_views(entries@);
        let mut kept: Vec<Identity> = Vec::new();
        proof {
            reveal(Seq::filter);
            assert(views.take(0) =~= Seq::empty());
            assert(entry_views(kept@) =~= self@.shown(views.take(0)));
        }
        let mut i: usize = 0;
        while i < entries.len()
            invariant
                i <= entries@.len(),
                views == entry_views(entries@),
                entry_views(kept@) == self@.shown(views.take(i as int)),
            decreases entries@.len() - i,
        {
            let entry = &entries[i];
            proof {
                assert(views.take(i + 1).drop_last() =~= views.take(i as int));
                reveal(Seq::filter);
            }
            let ghost before = entry_views(kept@);
            if self.allowed.contains(entry.key.as_slice()) || self.confirmed.contains_key(
                entry.key.as_slice(),
            ) {
                kept.push(
                    Identity {
                        key: slice_to_vec(entry.key.as_slice()),
                        comment: slice_to_vec(entry.comment.as_slice()),
                    },
                );
                assert(entry_views(kept@) =~= before.push(views[i as int]));
            }
            i = i + 1;
        }
        assert(views.take(i as int) =~= views);
        kept
    }

    /// What is done about the agent's answer to the question for its keys.
    fn key_list_step(&self, answer: Vec<u8>) -> (step: (State, Action))
        ensures
            (step.0@, step.1@) == on_key_list(self@, answer@),
    {
        match parse_identities_answer(answer.as_slice()) {
            Answer::NoType => giving_up(Some(Complaint::AnswerType)),
            Answer::Other => (State::Answering { must: false }, Action::Answer(answer, None)),
            Answer::NoCount => giving_up(Some(Complaint::AnswerCount)),
            Answer::Keys(list) => match list.fault {
                Some(fault) => giving_up(Some(Complaint::AnswerEntry(fault))),
                None => {
                    let kept = self.shown(list.entries);
                    let packet: Vec<u8> = write_identities(kept.as_slice());
                    (State::Answering { must: true }, Action::Answer(packet, None))
                },
            },
        }
    }

    /// What is done about an event at the time `now`.
    pub fn step_at(&self, state: State, event: Event, now: u64) -> (step: (State, Action))
        requires
            expects(state@, event@),
        ensures
            (step.0@, step.1@) == next_step(self@, state@, event@, now),
    {
        match (state, event) {
            (State::Idle, Event::ClientSent(packet)) => self.client_packet_step(packet, now),
            (State::Idle, Event::ClientClosed) => (State::Closed, Action::Finish),
            (State::Listing, Event::AgentAnswered(answer)) => self.key_list_step(answer),
            (State::Listing, Event::AgentFailed) => giving_up(None),
            (State::Confirming(request), Event::UserAnswered(yes)) => if yes {
                (State::Signing, Action::AskAgent(request))
            } else {
                refusal()
            },
            (State::Signing, Event::AgentAnswered(answer)) => (
                State::Answering { must: true },
                Action::Answer(answer, None),
            ),
            (State::Signing, Event::AgentFailed) => giving_up(None),
            (State::Answering { must }, Event::NotDelivered) => if must {
                (State::Closed, Action::Abort)
            } else {
                (State::Idle, Action::Read)
            },
            (State::Answering { must: _ }, _) => (State::Idle, Action::Read),
            _ => (State::Closed, Action::Abort),
        }
    }

    /// What is done about an event now.
    pub fn step(&self, state: State, event: Event) -> (step: (State, Action))
        requires
            expects(state@, event@),
        ensures
            exists|now: u64|
                (step.0@, step.1@) == #[trigger] next_step(self@, state@, event@, now),
    {
        let now: u64 = current_time();
        self.step_at(state, event, now)
    }
}

} // verus!
