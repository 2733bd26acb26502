//! The list of keys that an agent answers with, read and written.

use vstd::prelude::*;
use vstd::slice::slice_to_vec;
use crate::protocol::{SSH2_AGENTC_REQUEST_IDENTITIES, SSH2_AGENT_IDENTITIES_ANSWER};
use crate::wire::{BufferReader, BufferWriter};
use crate::wire::{
    be_bytes, law_string_read_back, law_string_written_back, law_u32_read_back, lemma_be_bytes_low,
    lemma_four_bytes, string_field, take_string, take_u32, take_u8,
};

verus! {

/// A key of an agent and the comment that stands with it.
pub struct Identity {
    pub key: Vec<u8>,
    pub comment: Vec<u8>,
}

/// What an [`Identity`] stands for.
#[verifier::ext_equal]
pub struct IdentityView {
    pub key: Seq<u8>,
    pub comment: Seq<u8>,
}

impl View for Identity {
    type V = IdentityView;

    open spec fn view(&self) -> IdentityView {
        IdentityView { key: self.key@, comment: self.comment@ }
    }
}

/// The field at which a list of keys breaks off.
#[derive(Debug, Clone, Copy, PartialEq, Eq, Structural)]
pub enum Fault {
    Key,
    Comment,
}

/// The keys that were read from a list, and where it broke off if it did.
pub struct IdentityList {
    pub entries: Vec<Identity>,
    pub fault: Option<Fault>,
}

/// What the entries of a list stand for.
pub open spec fn entry_views(entries: Seq<Identity>) -> Seq<IdentityView> {
    entries.map_values(|e: Identity| e@)
}

/// The keys that `count` entries at the front of `s` give, up to the first field
/// that is not there, and which field that is.
pub open spec fn take_identities(s: Seq<u8>, count: nat) -> (Seq<IdentityView>, Option<Fault>)
    decreases count,
{
    if count == 0 {
        (Seq::empty(), None)
    } else {
        match take_string(s) {
            None => (Seq::empty(), Some(Fault::Key)),
            Some((key, s1)) => match take_string(s1) {
                None => (Seq::empty(), Some(Fault::Comment)),
                Some((comment, s2)) => {
                    let (entries, fault) = take_identities(s2, (count - 1) as nat);
                    (seq![IdentityView { key, comment }] + entries, fault)
                },
            },
        }
    }
}

/// Reads the entries of a list of keys.
fn read_identities(from: BufferReader<'_>, count: u32) -> (list: IdentityList)
    ensures
        (entry_views(list.entries@), list.fault) == take_identities(from@, count as nat),
{
    let mut reader = from;
    let mut entries: Vec<Identity> = Vec::new();
    let ghost all = take_identities(reader@, count as nat);
    let mut i: u32 = 0;
    assert(all.0 =~= entry_views(entries@) + all.0);
    while i < count
        invariant
            i <= count,
            all == take_identities(from@, count as nat),
            all.0 == entry_views(entries@) + take_identities(reader@, (count - i) as nat).0,
            all.1 == take_identities(reader@, (count - i) as nat).1,
        decreases count - i,
    {
        let ghost done = entry_views(entries@);
        let key = match reader.read_string() {
            Ok(key) => key,
            Err(_) => {
                assert(all.0 =~= done);
                return IdentityList { entries, fault: Some(Fault::Key) };
            },
        };
        let comment = match reader.read_string() {
            Ok(comment) => comment,
            Err(_) => {
                assert(all.0 =~= done);
                return IdentityList { entries, fault: Some(Fault::Comment) };
            },
        };
        entries.push(Identity { key: slice_to_vec(key), comment: slice_to_vec(comment) });
        i = i + 1;
        proof {
            let entry = IdentityView { key: key@, comment: comment@ };
            assert(entry_views(entries@) =~= done.push(entry));
            let rest = take_identities(reader@, (count - i) as nat).0;
            assert(done.push(entry) + rest =~= done + (seq![entry] + rest));
        }
    }
    assert(all.0 =~= entry_views(entries@));
    IdentityList { entries, fault: None }
}

/// The question for an agent's keys.
pub fn identities_request() -> (packet: Vec<u8>)
    ensures
        packet@ == seq![SSH2_AGENTC_REQUEST_IDENTITIES],
{
    let mut writer = BufferWriter::new();
    writer.write_u8(SSH2_AGENTC_REQUEST_IDENTITIES);
    assert(writer@ =~= seq![SSH2_AGENTC_REQUEST_IDENTITIES]);
    writer.into_inner()
}

/// An agent's answer to the question for its keys.
pub enum Answer {
    /// There is not even a message number.
    NoType,
    /// Some other message.
    Other,
    /// The number of keys is missing.
    NoCount,
    /// A list of keys.
    Keys(IdentityList),
}

/// What an [`Answer`] stands for.
#[verifier::ext_equal]
pub enum AnswerView {
    NoType,
    Other,
    NoCount,
    Keys(Seq<IdentityView>, Option<Fault>),
}

impl View for Answer {
    type V = AnswerView;

    open spec fn view(&self) -> AnswerView {
        match self {
            Answer::NoType => AnswerView::NoType,
            Answer::Other => AnswerView::Other,
            Answer::NoCount => AnswerView::NoCount,
            Answer::Keys(list) => AnswerView::Keys(entry_views(list.entries@), list.fault),
        }
    }
}

/// What a packet is as an answer to the question for the keys. Bytes behind the
/// last entry do not count.
pub open spec fn identities_answer(packet: Seq<u8>) -> AnswerView {
    match take_u8(packet) {
        None => AnswerView::NoType,
        Some((kind, s)) => if kind != SSH2_AGENT_IDENTITIES_ANSWER {
            AnswerView::Other
        } else {
            match take_u32(s) {
                None => AnswerView::NoCount,
                Some((count, s)) => {
                    let (entries, fault) = take_identities(s, count);
                    AnswerView::Keys(entries, fault)
                },
            }
        },
    }
}

/// Reads a packet as an answer to the question for the keys.
pub fn parse_identities_answer(packet: &[u8]) -> (answer: Answer)
    ensures
        answer@ == identities_answer(packet@),
{
    let mut reader = BufferReader::new(packet);
    let kind: u8 = match reader.read_u8() {
        Ok(kind) => kind,
        Err(_) => {
            return Answer::NoType;
        },
    };
    if kind != SSH2_AGENT_IDENTITIES_ANSWER {
        return Answer::Other;
    }
    let count: u32 = match reader.read_u32() {
        Ok(count) => count,
        Err(_) => {
            return Answer::NoCount;
        },
    };
    Answer::Keys(read_identities(reader, count))
}

/// The entries of a list of keys as they stand in a message.
pub open spec fn identity_fields(entries: Seq<IdentityView>) -> Seq<u8>
    decreases entries.len(),
{
    if entries.len() == 0 {
        Seq::empty()
    } else {
        string_field(entries[0].key) + string_field(entries[0].comment) + identity_fields(
            entries.drop_first(),
        )
    }
}

/// The message that lists keys. Of their number the lowest four bytes stand in it.
pub open spec fn identities_packet(entries: Seq<IdentityView>) -> Seq<u8> {
    seq![SSH2_AGENT_IDENTITIES_ANSWER] + be_bytes(entries.len(), 4) + identity_fields(entries)
}

/// Writes the message that lists keys.
pub fn write_identities(entries: &[Identity]) -> (packet: Vec<u8>)
    ensures
        packet@ == identities_packet(entry_views(entries@)),
{
    let ghost views = entry_views(entries@);
    let mut writer = BufferWriter::new();
    writer.write_u8(SSH2_AGENT_IDENTITIES_ANSWER);
    let len: usize = entries.len();
    writer.write_u32((len as u64 % 0x1_0000_0000) as u32);
    proof {
        lemma_be_bytes_low(len as nat);
        assert(views.skip(0) =~= views);
        assert(writer@ + identity_fields(views.skip(0)) =~= identities_packet(views));
    }
    let mut i: usize = 0;
    while i < entries.len()
        invariant
            i <= entries@.len(),
            views == entry_views(entries@),
            writer@ + identity_fields(views.skip(i as int)) == identities_packet(views),
        decreases entries@.len() - i,
    {
        let ghost before = writer@;
        writer.write_string(entries[i].key.as_slice());
        writer.write_string(entries[i].comment.as_slice());
        i = i + 1;
        proof {
            let rest = views.skip(i - 1);
            assert(rest.drop_first() =~= views.skip(i as int));
            assert(writer@ + identity_fields(views.skip(i as int)) =~= before + identity_fields(
                rest,
            ));
        }
    }
    assert(writer@ =~= identities_packet(views));
    writer.into_inner()
}

/// Whether four bytes hold the length of an entry's key and that of its comment.
pub open spec fn fits_fields(entry: IdentityView) -> bool {
    entry.key.len() < 0x1_0000_0000 && entry.comment.len() < 0x1_0000_0000
}

/// Entries that were written are read back.
proof fn lemma_entries_read_back(entries: Seq<IdentityView>)
    requires
        forall|i: int| 0 <= i < entries.len() ==> #[trigger] fits_fields(entries[i]),
    ensures
        take_identities(identity_fields(entries), entries.len()) == (entries, None::<Fault>),
    decreases entries.len(),
{
    if entries.len() > 0 {
        let rest = entries.drop_first();
        let s2 = identity_fields(rest);
        let s1 = string_field(entries[0].comment) + s2;
        assert(fits_fields(entries[0]));
        law_string_read_back(entries[0].key, s1);
        law_string_read_back(entries[0].comment, s2);
        assert(identity_fields(entries) =~= string_field(entries[0].key) + s1);
        assert forall|i: int| 0 <= i < rest.len() implies #[trigger] fits_fields(rest[i]) by {
            assert(fits_fields(entries[i + 1]));
        }
        lemma_entries_read_back(rest);
        assert(seq![entries[0]] + rest =~= entries);
    } else {
        assert(entries =~= Seq::empty());
    }
}

/// A list of keys that was written is read back, where four bytes hold the number
/// of keys and the lengths of their fields.
pub proof fn law_identities_read_back(entries: Seq<IdentityView>)
    requires
        entries.len() < 0x1_0000_0000,
        forall|i: int| 0 <= i < entries.len() ==> #[trigger] fits_fields(entries[i]),
    ensures
        identities_answer(identities_packet(entries)) == AnswerView::Keys(entries, None),
{
    let packet = identities_packet(entries);
    let body = be_bytes(entries.len(), 4) + identity_fields(entries);
    assert(packet.skip(1) =~= body);
    law_u32_read_back(entries.len(), identity_fields(entries));
    lemma_entries_read_back(entries);
}

/// The entries of a list that was read fit into a list that is written.
pub(crate) proof fn lemma_read_entries_fit(s: Seq<u8>, count: nat)
    ensures
        take_identities(s, count).0.len() <= count,
        forall|i: int|
            0 <= i < take_identities(s, count).0.len() ==> #[trigger] fits_fields(
                take_identities(s, count).0[i],
            ),
    decreases count,
{
    if count > 0 {
        law_string_written_back(s);
        if let Some((key, s1)) = take_string(s) {
            law_string_written_back(s1);
            if let Some((comment, s2)) = take_string(s1) {
                lemma_read_entries_fit(s2, (count - 1) as nat);
                let rest = take_identities(s2, (count - 1) as nat).0;
                let all = take_identities(s, count).0;
                assert forall|i: int| 0 <= i < all.len() implies #[trigger] fits_fields(
                    all[i],
                ) by {
                    if i > 0 {
                        assert(fits_fields(rest[i - 1]));
                    }
                }
            }
        }
    }
}

/// The keys in an answer fit into a list that is written.
pub(crate) proof fn lemma_answer_fits(packet: Seq<u8>)
    ensures
        identities_answer(packet) matches AnswerView::Keys(entries, _) ==> {
            &&& entries.len() < 0x1_0000_0000
            &&& forall|i: int| 0 <= i < entries.len() ==> #[trigger] fits_fields(entries[i])
        },
{
    if let AnswerView::Keys(entries, fault) = identities_answer(packet) {
        lemma_four_bytes();
        let s = packet.skip(1);
        lemma_read_entries_fit(s.skip(4), take_u32(s)->Some_0.0);
    }
}

/// No key in an answer is longer than the answer.
pub(crate) proof fn lemma_answer_bounds_keys(packet: Seq<u8>)
    ensures
        identities_answer(packet) matches AnswerView::Keys(entries, _) ==> forall|i: int|
            0 <= i < entries.len() ==> (#[trigger] entries[i]).key.len() <= packet.len(),
{
    if let AnswerView::Keys(entries, fault) = identities_answer(packet) {
        let s = packet.skip(1);
        lemma_read_keys_bounded(s.skip(4), take_u32(s)->Some_0.0);
    }
}

/// No key that was read is longer than what it was read from.
proof fn lemma_read_keys_bounded(s: Seq<u8>, count: nat)
    ensures
        forall|i: int|
            0 <= i < take_identities(s, count).0.len() ==> (#[trigger] take_identities(
                s,
                count,
            ).0[i]).key.len() <= s.len(),
    decreases count,
{
    if count > 0 {
        if let Some((key, s1)) = take_string(s) {
            if let Some((comment, s2)) = take_string(s1) {
                lemma_read_keys_bounded(s2, (count - 1) as nat);
                let rest = take_identities(s2, (count - 1) as nat).0;
                let all = take_identities(s, count).0;
                assert forall|i: int| 0 <= i < all.len() implies (#[trigger] all[i]).key.len()
                    <= s.len() by {
                    if i > 0 {
                        assert(all[i] == rest[i - 1]);
                    }
                }
            }
        }
    }
}

/// The views of entries show their bytes, each in its place.
pub proof fn law_entry_views_keep_place(entries: Seq<Identity>)
    ensures
        entry_views(entries).len() == entries.len(),
        forall|i: int|
            0 <= i < entries.len() ==> (#[trigger] entry_views(entries)[i]).key == entries[i].key@
                && entry_views(entries)[i].comment == entries[i].comment@,
{
}

/// The view of an answer shows which one it is, and the whole list where it is one.
pub proof fn law_answer_views_are_faithful(answer: Answer)
    ensures
        answer@ is NoType <==> answer is NoType,
        answer@ is Other <==> answer is Other,
        answer@ is NoCount <==> answer is NoCount,
        answer matches Answer::Keys(list) ==> answer@ == AnswerView::Keys(
            entry_views(list.entries@),
            list.fault,
        ),
{
}

/// The entries of a list, each as its key and its comment, one behind the other.
proof fn lemma_fields_flatten(entries: Seq<IdentityView>)
    ensures
        identity_fields(entries) == entries.map_values(
            |e: IdentityView| string_field(e.key) + string_field(e.comment),
        ).flatten(),
    decreases entries.len(),
{
    let field = |e: IdentityView| string_field(e.key) + string_field(e.comment);
    if entries.len() > 0 {
        lemma_fields_flatten(entries.drop_first());
        assert(entries.map_values(field).drop_first() =~= entries.drop_first().map_values(field));
        assert(entries.map_values(field).first() == field(entries[0]));
    }
}

/// The message that lists keys is its number, the number of keys in four bytes, and
/// for each key in turn the key and its comment.
pub proof fn law_list_layout(entries: Seq<IdentityView>)
    ensures
        identities_packet(entries) == seq![SSH2_AGENT_IDENTITIES_ANSWER] + be_bytes(
            entries.len(),
            4,
        ) + entries.map_values(
            |e: IdentityView| string_field(e.key) + string_field(e.comment),
        ).flatten(),
{
    lemma_fields_flatten(entries);
}

/// A whole entry at the front of a list is read.
proof fn lemma_entry_in_front(e: IdentityView, s: Seq<u8>, count: nat)
    requires
        e.key.len() < 0x1_0000_0000,
        e.comment.len() < 0x1_0000_0000,
    ensures
        take_identities(string_field(e.key) + (string_field(e.comment) + s), count + 1) == (
            seq![e] + take_identities(s, count).0,
            take_identities(s, count).1,
        ),
{
    law_string_read_back(e.key, string_field(e.comment) + s);
    law_string_read_back(e.comment, s);
}

/// Whole entries at the front of a list are read, and what follows them is read as the
/// rest of the list.
proof fn lemma_entries_in_front(entries: Seq<IdentityView>, rest: Seq<u8>, more: nat)
    requires
        forall|i: int|
            0 <= i < entries.len() ==> (#[trigger] entries[i]).key.len() < 0x1_0000_0000
                && entries[i].comment.len() < 0x1_0000_0000,
    ensures
        ({
            let all = take_identities(identity_fields(entries) + rest, entries.len() + more);
            let last = take_identities(rest, more);
            all == (entries + last.0, last.1)
        }),
    decreases entries.len(),
{
    if entries.len() > 0 {
        let tail = entries.drop_first();
        let s = identity_fields(tail) + rest;
        let e = entries[0];
        lemma_entry_in_front(e, s, tail.len() + more);
        assert(identity_fields(entries) + rest =~= string_field(e.key) + (string_field(e.comment)
            + s));
        assert forall|i: int| 0 <= i < tail.len() implies (#[trigger] tail[i]).key.len()
            < 0x1_0000_0000 && tail[i].comment.len() < 0x1_0000_0000 by {
            assert(tail[i] == entries[i + 1]);
        }
        lemma_entries_in_front(tail, rest, more);
        let last = take_identities(rest, more);
        assert(entries.len() + more == tail.len() + more + 1);
        assert(seq![e] + (tail + last.0) =~= entries + last.0);
    } else {
        assert(identity_fields(entries) + rest =~= rest);
        assert(entries + take_identities(rest, more).0 =~= take_identities(rest, more).0);
    }
}

/// The bytes of a list are read as all the keys that it announces, in order, with
/// their comments; what stands behind the last one does not count. Where the list
/// breaks off, the keys in front are read, and the field that is not whole is named.
pub proof fn law_list_is_read_whole(entries: Seq<IdentityView>, rest: Seq<u8>, more: nat)
    requires
        entries.len() + more < 0x1_0000_0000,
        forall|i: int|
            0 <= i < entries.len() ==> (#[trigger] entries[i]).key.len() < 0x1_0000_0000
                && entries[i].comment.len() < 0x1_0000_0000,
    ensures
        ({
            let fields = entries.map_values(
                |e: IdentityView| string_field(e.key) + string_field(e.comment),
            ).flatten();
            let packet = seq![SSH2_AGENT_IDENTITIES_ANSWER] + be_bytes(entries.len() + more, 4)
                + fields + rest;
            &&& more == 0 ==> identities_answer(packet) == AnswerView::Keys(entries, None)
            &&& more > 0 && take_string(rest) is None ==> identities_answer(packet)
                == AnswerView::Keys(entries, Some(Fault::Key))
            &&& more > 0 && take_string(rest) is Some && take_string(take_string(rest)->Some_0.1)
                is None ==> identities_answer(packet) == AnswerView::Keys(
                entries,
                Some(Fault::Comment),
            )
        }),
{
    lemma_fields_flatten(entries);
    let fields = identity_fields(entries);
    let count = entries.len() + more;
    let packet = seq![SSH2_AGENT_IDENTITIES_ANSWER] + be_bytes(count, 4) + fields + rest;
    assert(packet.skip(1) =~= be_bytes(count, 4) + (fields + rest));
    assert(packet[0] == SSH2_AGENT_IDENTITIES_ANSWER);
    law_u32_read_back(count, fields + rest);
    lemma_entries_in_front(entries, rest, more);
    assert(entries + Seq::<IdentityView>::empty() =~= entries);
}

/// An answer is no list of keys where it is empty, starts with another number, or
/// lacks the number of keys.
pub proof fn law_other_answers(packet: Seq<u8>)
    ensures
        identities_answer(packet) is NoType <==> packet.len() == 0,
        identities_answer(packet) is Other <==> packet.len() > 0 && packet[0]
            != SSH2_AGENT_IDENTITIES_ANSWER,
        identities_answer(packet) is NoCount <==> 0 < packet.len() < 5 && packet[0]
            == SSH2_AGENT_IDENTITIES_ANSWER,
{
}

} // verus!
