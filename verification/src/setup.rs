//! Which of the agent's keys the command line selects, and for what.

use vstd::hash_set::StringHashSet;
use vstd::prelude::*;
use vstd::utf8::valid_utf8;
use crate::fingerprint::{base64_encode, canonicalize_fingerprint, md5_hex};
use crate::fingerprint::{
    base64_len, base64_text, canonical_fingerprint, colon_form, law_base64_names_one_key,
    law_case_ignored, law_colons_ignored, law_computed_fingerprint_canonical, md5_text, upper_form,
};
use crate::identities::{parse_identities_answer, Answer, Identity};
use crate::identities::{
    entry_views, identities_answer, lemma_answer_bounds_keys, AnswerView, IdentityView,
};
use crate::keys::{KeyNames, KeySet};
use crate::text::{from_utf8_lossy, lists};
use crate::text::{texts, utf8_lossy};
use crate::wire::UNEXPECTED_END;

verus! {

/// The keys that the command line names: by comment, by fingerprint in canonical
/// form, or in base64; each for use without question or with confirmation.
pub struct Selectors {
    pub allowed_comments: Vec<String>,
    pub confirmed_comments: Vec<String>,
    pub allowed_md5s: Vec<String>,
    pub confirmed_md5s: Vec<String>,
    pub allowed_b64s: Vec<String>,
    pub confirmed_b64s: Vec<String>,
    /// All other keys are for use with confirmation.
    pub all_confirmed: bool,
}

/// Fingerprints in canonical form.
pub open spec fn canonical_list(list: Seq<Seq<char>>) -> Seq<Seq<char>> {
    list.map_values(|s: Seq<char>| canonical_fingerprint(s))
}

/// Brings fingerprints into canonical form.
fn canonicalize_all(list: &[String]) -> (canonical: Vec<String>)
    ensures
        texts(canonical@) == canonical_list(texts(list@)),
{
    let mut canonical: Vec<String> = Vec::new();
    let mut i: usize = 0;
    while i < list.len()
        invariant
            i <= list@.len(),
            canonical@.len() == i,
            forall|j: int| 0 <= j < i ==> canonical@[j]@ == canonical_fingerprint(list@[j]@),
        decreases list@.len() - i,
    {
        canonical.push(canonicalize_fingerprint(list[i].as_str()));
        i = i + 1;
    }
    assert(texts(canonical@) =~= canonical_list(texts(list@)));
    canonical
}

impl Selectors {
    /// The selectors that a command line gives. Fingerprints come as they were typed.
    pub fn new(
        allowed_comments: Vec<String>,
        confirmed_comments: Vec<String>,
        allowed_fingerprints: &[String],
        confirmed_fingerprints: &[String],
        allowed_b64s: Vec<String>,
        confirmed_b64s: Vec<String>,
        all_confirmed: bool,
    ) -> (sel: Self)
        ensures
            sel.allowed_comments == allowed_comments,
            sel.confirmed_comments == confirmed_comments,
            texts(sel.allowed_md5s@) == canonical_list(texts(allowed_fingerprints@)),
            texts(sel.confirmed_md5s@) == canonical_list(texts(confirmed_fingerprints@)),
            sel.allowed_b64s == allowed_b64s,
            sel.confirmed_b64s == confirmed_b64s,
            sel.all_confirmed == all_confirmed,
    {
        Selectors {
            allowed_comments,
            confirmed_comments,
            allowed_md5s: canonicalize_all(allowed_fingerprints),
            confirmed_md5s: canonicalize_all(confirmed_fingerprints),
            allowed_b64s,
            confirmed_b64s,
            all_confirmed,
        }
    }

    /// Whether a key with these texts is named for use without question.
    pub open spec fn allows(&self, comment: Seq<char>, md5: Seq<char>, b64: Seq<char>) -> bool {
        ||| texts(self.allowed_comments@).contains(comment)
        ||| texts(self.allowed_md5s@).contains(md5)
        ||| texts(self.allowed_b64s@).contains(b64)
    }

    /// Whether a key with these texts is named for use with confirmation.
    pub open spec fn confirms(&self, comment: Seq<char>, md5: Seq<char>, b64: Seq<char>) -> bool {
        ||| texts(self.confirmed_comments@).contains(comment)
        ||| texts(self.confirmed_md5s@).contains(md5)
        ||| texts(self.confirmed_b64s@).contains(b64)
    }

    /// What a key with these texts may be used for.
    pub fn access(&self, comment: &str, md5: &str, b64: &str) -> (access: Access)
        ensures
            access == if self.allows(comment@, md5@, b64@) {
                Access::Allowed
            } else if self.confirms(comment@, md5@, b64@) || self.all_confirmed {
                Access::Confirmed
            } else {
                Access::Hidden
            },
    {
        if lists(self.allowed_comments.as_slice(), comment) || lists(
            self.allowed_md5s.as_slice(),
            md5,
        ) || lists(self.allowed_b64s.as_slice(), b64) {
            Access::Allowed
        } else if lists(self.confirmed_comments.as_slice(), comment) || lists(
            self.confirmed_md5s.as_slice(),
            md5,
        ) || lists(self.confirmed_b64s.as_slice(), b64) || self.all_confirmed {
            Access::Confirmed
        } else {
            Access::Hidden
        }
    }

    /// Whether a key is named for use without question.
    pub open spec fn names_allowed(&self, entry: IdentityView) -> bool {
        self.allows(utf8_lossy(entry.comment), md5_text(entry.key), base64_text(entry.key))
    }

    /// Whether a key is named for use with confirmation.
    pub open spec fn names_confirmed(&self, entry: IdentityView) -> bool {
        self.confirms(utf8_lossy(entry.comment), md5_text(entry.key), base64_text(entry.key))
    }

    /// What a key may be used for.
    pub open spec fn access_of(&self, entry: IdentityView) -> Access {
        if self.names_allowed(entry) {
            Access::Allowed
        } else if self.names_confirmed(entry) || self.all_confirmed {
            Access::Confirmed
        } else {
            Access::Hidden
        }
    }
}

/// What a key may be used for.
#[derive(Debug, Clone, Copy, PartialEq, Eq, Structural)]
pub enum Access {
    /// Use without question.
    Allowed,
    /// Use when the user confirms it.
    Confirmed,
    /// No use.
    Hidden,
}

/// A key of the agent, by the texts that it may be named by, and what it may be
/// used for.
pub struct LoadedKey {
    pub comment: String,
    pub md5: String,
    pub b64: String,
    pub access: Access,
}

impl LoadedKey {
    /// Whether this tells what `sel` makes of an entry.
    pub open spec fn describes(&self, sel: &Selectors, entry: IdentityView) -> bool {
        &&& self.comment@ == utf8_lossy(entry.comment)
        &&& !valid_utf8(entry.comment) ==> self.comment@.contains('\u{FFFD}')
        &&& self.md5@ == md5_text(entry.key)
        &&& self.b64@ == base64_text(entry.key)
        &&& self.access == sel.access_of(entry)
    }
}

/// Whether loaded keys tell what `sel` makes of each entry of a list.
pub open spec fn describe_all(
    loaded: Seq<LoadedKey>,
    sel: &Selectors,
    entries: Seq<IdentityView>,
) -> bool {
    &&& loaded.len() == entries.len()
    &&& forall|i: int|
        0 <= i < entries.len() ==> (#[trigger] loaded[i]).describes(sel, entries[i])
}

/// Looks at one key of the agent.
fn load_key(sel: &Selectors, entry: &Identity) -> (loaded: LoadedKey)
    requires
        base64_len(entry.key@.len()) <= isize::MAX,
    ensures
        loaded.describes(sel, entry@),
{
    let comment: String = from_utf8_lossy(entry.comment.as_slice());
    let b64: String = base64_encode(entry.key.as_slice());
    let md5: String = md5_hex(entry.key.as_slice());
    let access = sel.access(comment.as_str(), md5.as_str(), b64.as_str());
    LoadedKey { comment, md5, b64, access }
}

/// Whether some entry of a list is this key, for this use.
pub open spec fn grants(
    sel: &Selectors,
    entries: Seq<IdentityView>,
    access: Access,
    key: Seq<u8>,
) -> bool {
    exists|i: int|
        0 <= i < entries.len() && (#[trigger] entries[i]).key == key && sel.access_of(entries[i])
            == access
}

/// The keys of a list that may be used without question.
pub open spec fn allowed_keys(sel: &Selectors, entries: Seq<IdentityView>) -> Set<Seq<u8>> {
    Set::new(|key: Seq<u8>| grants(sel, entries, Access::Allowed, key))
}

/// The keys of a list that may be used with confirmation, each with its comment: the
/// last one where the list has the key more than once.
pub open spec fn confirmed_keys(sel: &Selectors, entries: Seq<IdentityView>) -> Map<
    Seq<u8>,
    Seq<char>,
>
    decreases entries.len(),
{
    if entries.len() == 0 {
        Map::empty()
    } else {
        let earlier = confirmed_keys(sel, entries.drop_last());
        if sel.access_of(entries.last()) == Access::Confirmed {
            earlier.insert(entries.last().key, utf8_lossy(entries.last().comment))
        } else {
            earlier
        }
    }
}

/// Whether a key that may be used as `access` says was named by `text` for that use.
pub open spec fn named_by(
    access: Access,
    text: Seq<char>,
    allowed: Seq<String>,
    confirmed: Seq<String>,
) -> bool {
    match access {
        Access::Allowed => texts(allowed).contains(text),
        Access::Confirmed => texts(confirmed).contains(text),
        Access::Hidden => false,
    }
}

/// The comments on the command line that a key of the list was selected by.
pub open spec fn found_comments(sel: &Selectors, entries: Seq<IdentityView>) -> Set<Seq<char>> {
    Set::new(
        |text: Seq<char>|
            exists|i: int|
                0 <= i < entries.len() && utf8_lossy((#[trigger] entries[i]).comment) == text
                    && named_by(
                    sel.access_of(entries[i]),
                    text,
                    sel.allowed_comments@,
                    sel.confirmed_comments@,
                ),
    )
}

/// The fingerprints on the command line that a key of the list was selected by.
pub open spec fn found_md5s(sel: &Selectors, entries: Seq<IdentityView>) -> Set<Seq<char>> {
    Set::new(
        |text: Seq<char>|
            exists|i: int|
                0 <= i < entries.len() && md5_text((#[trigger] entries[i]).key) == text
                    && named_by(
                    sel.access_of(entries[i]),
                    text,
                    sel.allowed_md5s@,
                    sel.confirmed_md5s@,
                ),
    )
}

/// The base64 keys on the command line that a key of the list was selected by.
pub open spec fn found_b64s(sel: &Selectors, entries: Seq<IdentityView>) -> Set<Seq<char>> {
    Set::new(
        |text: Seq<char>|
            exists|i: int|
                0 <= i < entries.len() && base64_text((#[trigger] entries[i]).key) == text
                    && named_by(
                    sel.access_of(entries[i]),
                    text,
                    sel.allowed_b64s@,
                    sel.confirmed_b64s@,
                ),
    )
}

/// The selectors that a key was selected by.
pub struct FoundSelectors {
    pub comments: StringHashSet,
    pub md5s: StringHashSet,
    pub b64s: StringHashSet,
}

/// The keys that the filter lets through.
pub struct SelectedKeys {
    pub allowed: KeySet,
    pub confirmed: KeyNames,
    pub found: FoundSelectors,
}

impl SelectedKeys {
    /// Whether these are the keys of a list that `sel` selects.
    pub open spec fn selected_from(&self, sel: &Selectors, entries: Seq<IdentityView>) -> bool {
        &&& self.allowed@ == allowed_keys(sel, entries)
        &&& self.confirmed@ == confirmed_keys(sel, entries)
        &&& self.found.comments@ == found_comments(sel, entries)
        &&& self.found.md5s@ == found_md5s(sel, entries)
        &&& self.found.b64s@ == found_b64s(sel, entries)
    }
}

/// Why the agent's keys could not be loaded.
#[derive(Debug, Clone, Copy, PartialEq, Eq, Structural)]
pub enum SetupError {
    /// The agent's answer breaks off.
    UnexpectedEnd,
    /// The agent answered something else than a list of keys.
    UnexpectedType,
}

impl SetupError {
    /// The error in words.
    pub fn message(&self) -> (text: &'static str)
        ensures
            text@ == match self {
                SetupError::UnexpectedEnd => UNEXPECTED_END@,
                SetupError::UnexpectedType => "Unexpected response type from upstream agent"@,
            },
    {
        match self {
            SetupError::UnexpectedEnd => UNEXPECTED_END,
            SetupError::UnexpectedType => "Unexpected response type from upstream agent",
        }
    }
}

/// What came of an agent's list of keys: the keys that were looked at, and those
/// that were selected where the list was whole.
pub struct Setup {
    pub loaded: Vec<LoadedKey>,
    pub outcome: Result<SelectedKeys, SetupError>,
}

/// Notes that a key was selected by a text.
fn note_found(
    found: &mut StringHashSet,
    access: Access,
    text: &String,
    allowed: &Vec<String>,
    confirmed: &Vec<String>,
)
    ensures
        final(found)@ == if named_by(access, text@, allowed@, confirmed@) {
            old(found)@.insert(text@)
        } else {
            old(found)@
        },
{
    let named = match access {
        Access::Allowed => lists(allowed.as_slice(), text.as_str()),
        Access::Confirmed => lists(confirmed.as_slice(), text.as_str()),
        Access::Hidden => false,
    };
    if named {
        found.insert(text.clone());
    }
}

/// What one more entry adds to the keys that were selected.
proof fn lemma_one_more_key(sel: &Selectors, entries: Seq<IdentityView>, entry: IdentityView)
    ensures
        ({
            let more = entries.push(entry);
            let access = sel.access_of(entry);
            &&& allowed_keys(sel, more) == if access == Access::Allowed {
                allowed_keys(sel, entries).insert(entry.key)
            } else {
                allowed_keys(sel, entries)
            }
            &&& confirmed_keys(sel, more) == if access == Access::Confirmed {
                confirmed_keys(sel, entries).insert(entry.key, utf8_lossy(entry.comment))
            } else {
                confirmed_keys(sel, entries)
            }
        }),
{
    let more = entries.push(entry);
    let n = entries.len() as int;
    assert(more.drop_last() =~= entries);
    assert(forall|i: int| 0 <= i < n ==> more[i] == entries[i]);
    assert(more[n] == entry);
    let a0 = allowed_keys(sel, entries);
    let a1 = allowed_keys(sel, more);
    assert forall|key: Seq<u8>|
        a1.contains(key) == (a0.contains(key) || (sel.access_of(entry) == Access::Allowed && key
            == entry.key)) by {
        if a0.contains(key) {
            let i = choose|i: int|
                0 <= i < n && (#[trigger] entries[i]).key == key && sel.access_of(entries[i])
                    == Access::Allowed;
            assert(more[i].key == key);
        }
        if a1.contains(key) {
            let i = choose|i: int|
                0 <= i < more.len() && (#[trigger] more[i]).key == key && sel.access_of(more[i])
                    == Access::Allowed;
            assert(i == n || entries[i].key == key);
        }
    }
    if sel.access_of(entry) == Access::Allowed {
        assert(a1 =~= a0.insert(entry.key));
    } else {
        assert(a1 =~= a0);
    }
}

/// What one more entry adds to the selectors that were found.
proof fn lemma_one_more_found(sel: &Selectors, entries: Seq<IdentityView>, entry: IdentityView)
    ensures
        ({
            let more = entries.push(entry);
            let access = sel.access_of(entry);
            let comment = utf8_lossy(entry.comment);
            let md5 = md5_text(entry.key);
            let b64 = base64_text(entry.key);
            &&& found_comments(sel, more) == if named_by(
                access,
                comment,
                sel.allowed_comments@,
                sel.confirmed_comments@,
            ) {
                found_comments(sel, entries).insert(comment)
            } else {
                found_comments(sel, entries)
            }
            &&& found_md5s(sel, more) == if named_by(
                access,
                md5,
                sel.allowed_md5s@,
                sel.confirmed_md5s@,
            ) {
                found_md5s(sel, entries).insert(md5)
            } else {
                found_md5s(sel, entries)
            }
            &&& found_b64s(sel, more) == if named_by(
                access,
                b64,
                sel.allowed_b64s@,
                sel.confirmed_b64s@,
            ) {
                found_b64s(sel, entries).insert(b64)
            } else {
                found_b64s(sel, entries)
            }
        }),
{
    let more = entries.push(entry);
    let n = entries.len() as int;
    assert(more[n] == entry);
    assert forall|i: int| 0 <= i < n implies more[i] == #[trigger] entries[i] by {}
    assert forall|i: int| 0 <= i < n implies #[trigger] more[i] == entries[i] by {}
    let access = sel.access_of(entry);
    let comment = utf8_lossy(entry.comment);
    let md5 = md5_text(entry.key);
    let b64 = base64_text(entry.key);
    if named_by(access, comment, sel.allowed_comments@, sel.confirmed_comments@) {
        assert(found_comments(sel, more) =~= found_comments(sel, entries).insert(comment));
    } else {
        assert(found_comments(sel, more) =~= found_comments(sel, entries));
    }
    if named_by(access, md5, sel.allowed_md5s@, sel.confirmed_md5s@) {
        assert(found_md5s(sel, more) =~= found_md5s(sel, entries).insert(md5));
    } else {
        assert(found_md5s(sel, more) =~= found_md5s(sel, entries));
    }
    if named_by(access, b64, sel.allowed_b64s@, sel.confirmed_b64s@) {
        assert(found_b64s(sel, more) =~= found_b64s(sel, entries).insert(b64));
    } else {
        assert(found_b64s(sel, more) =~= found_b64s(sel, entries));
    }
}

/// Looks at the keys of a list and selects among them.
fn select_keys(sel: &Selectors, entries: &[Identity]) -> (res: (Vec<LoadedKey>, SelectedKeys))
    requires
        forall|i: int|
            0 <= i < entries@.len() ==> base64_len((#[trigger] entries@[i]).key@.len())
                <= isize::MAX,
    ensures
        describe_all(res.0@, sel, entry_views(entries@)),
        res.1.selected_from(sel, entry_views(entries@)),
{
    let ghost views = entry_views(entries@);
    let mut loaded: Vec<LoadedKey> = Vec::new();
    let mut allowed = KeySet::new();
    let mut confirmed = KeyNames::new();
    let mut comments = StringHashSet::new();
    let mut md5s = StringHashSet::new();
    let mut b64s = StringHashSet::new();
    proof {
        let none = views.take(0);
        assert(allowed@ =~= allowed_keys(sel, none));
        assert(confirmed@ =~= confirmed_keys(sel, none));
        assert(comments@ =~= found_comments(sel, none));
        assert(md5s@ =~= found_md5s(sel, none));
        assert(b64s@ =~= found_b64s(sel, none));
    }
    let mut i: usize = 0;
    while i < entries.len()
        invariant
            i <= entries@.len(),
            views == entry_views(entries@),
            forall|i: int|
                0 <= i < entries@.len() ==> base64_len((#[trigger] entries@[i]).key@.len())
                    <= isize::MAX,
            describe_all(loaded@, sel, views.take(i as int)),
            allowed@ == allowed_keys(sel, views.take(i as int)),
            confirmed@ == confirmed_keys(sel, views.take(i as int)),
            comments@ == found_comments(sel, views.take(i as int)),
            md5s@ == found_md5s(sel, views.take(i as int)),
            b64s@ == found_b64s(sel, views.take(i as int)),
        decreases entries@.len() - i,
    {
        proof {
            lemma_one_more_key(sel, views.take(i as int), views[i as int]);
            lemma_one_more_found(sel, views.take(i as int), views[i as int]);
            assert(views.take(i as int).push(views[i as int]) =~= views.take(i + 1));
        }
        let entry = &entries[i];
        let key = load_key(sel, entry);
        match key.access {
            Access::Allowed => {
                allowed.insert(entry.key.as_slice());
            },
            Access::Confirmed => {
                confirmed.insert(entry.key.as_slice(), key.comment.clone());
            },
            Access::Hidden => {},
        }
        note_found(
            &mut comments,
            key.access,
            &key.comment,
            &sel.allowed_comments,
            &sel.confirmed_comments,
        );
        note_found(&mut md5s, key.access, &key.md5, &sel.allowed_md5s, &sel.confirmed_md5s);
        note_found(&mut b64s, key.access, &key.b64, &sel.allowed_b64s, &sel.confirmed_b64s);
        loaded.push(key);
        i = i + 1;
    }
    assert(views.take(i as int) =~= views);
    (loaded, SelectedKeys { allowed, confirmed, found: FoundSelectors { comments, md5s, b64s } })
}

/// Loads the keys that an agent answered with and selects among them.
pub fn setup_filters(answer: &[u8], sel: &Selectors) -> (setup: Setup)
    requires
        base64_len(answer@.len()) <= isize::MAX,
    ensures
        match identities_answer(answer@) {
            AnswerView::NoType | AnswerView::NoCount => setup.loaded@.len() == 0 && setup.outcome
                == Err::<SelectedKeys, SetupError>(SetupError::UnexpectedEnd),
            AnswerView::Other => setup.loaded@.len() == 0 && setup.outcome == Err::<
                SelectedKeys,
                SetupError,
            >(SetupError::UnexpectedType),
            AnswerView::Keys(entries, fault) => {
                &&& describe_all(setup.loaded@, sel, entries)
                &&& match fault {
                    Some(_) => setup.outcome == Err::<SelectedKeys, SetupError>(
                        SetupError::UnexpectedEnd,
                    ),
                    None => setup.outcome is Ok && setup.outcome->Ok_0.selected_from(sel, entries),
                }
            },
        },
{
    match parse_identities_answer(answer) {
        Answer::NoType => Setup { loaded: Vec::new(), outcome: Err(SetupError::UnexpectedEnd) },
        Answer::NoCount => Setup { loaded: Vec::new(), outcome: Err(SetupError::UnexpectedEnd) },
        Answer::Other => Setup { loaded: Vec::new(), outcome: Err(SetupError::UnexpectedType) },
        Answer::Keys(list) => {
            proof {
                lemma_answer_bounds_keys(answer@);
                let views = entry_views(list.entries@);
                assert forall|i: int| 0 <= i < list.entries@.len() implies base64_len(
                    (#[trigger] list.entries@[i]).key@.len(),
                ) <= isize::MAX by {
                    assert(identities_answer(answer@) == AnswerView::Keys(views, list.fault));
                    let n = list.entries@[i].key@.len();
                    assert(views[i].key.len() == n);
                    assert(identities_answer(answer@)->Keys_0[i].key.len() <= answer@.len());
                    assert((n + 2) / 3 <= (answer@.len() + 2) / 3);
                }
            }
            let (loaded, selected) = select_keys(sel, list.entries.as_slice());
            match list.fault {
                Some(_) => Setup { loaded, outcome: Err(SetupError::UnexpectedEnd) },
                None => Setup { loaded, outcome: Ok(selected) },
            }
        },
    }
}

/// A key may be used with confirmation where the list has it for that use, and no
/// other key may.
pub proof fn law_confirmed_keys_are_granted(sel: &Selectors, entries: Seq<IdentityView>)
    ensures
        forall|key: Seq<u8>|
            #[trigger] confirmed_keys(sel, entries).dom().contains(key) <==> grants(
                sel,
                entries,
                Access::Confirmed,
                key,
            ),
    decreases entries.len(),
{
    if entries.len() > 0 {
        let earlier = entries.drop_last();
        let n = earlier.len() as int;
        law_confirmed_keys_are_granted(sel, earlier);
        assert forall|key: Seq<u8>|
            #[trigger] confirmed_keys(sel, entries).dom().contains(key) <==> grants(
                sel,
                entries,
                Access::Confirmed,
                key,
            ) by {
            assert(confirmed_keys(sel, earlier).dom().contains(key) <==> grants(
                sel,
                earlier,
                Access::Confirmed,
                key,
            ));
            if grants(sel, earlier, Access::Confirmed, key) {
                let i = choose|i: int|
                    0 <= i < n && (#[trigger] earlier[i]).key == key && sel.access_of(earlier[i])
                        == Access::Confirmed;
                assert(entries[i] == earlier[i]);
            }
            if grants(sel, entries, Access::Confirmed, key) {
                let i = choose|i: int|
                    0 <= i < entries.len() && (#[trigger] entries[i]).key == key && sel.access_of(
                        entries[i],
                    ) == Access::Confirmed;
                assert(i == n || earlier[i] == entries[i]);
            }
            assert(entries[n] == entries.last());
        }
    }
}

/// Where all other keys are for use with confirmation, the filter lets every key of
/// the agent through.
pub proof fn law_all_confirmed_hides_no_key(sel: &Selectors, entries: Seq<IdentityView>, i: int)
    requires
        sel.all_confirmed,
        0 <= i < entries.len(),
    ensures
        allowed_keys(sel, entries).contains(entries[i].key) || confirmed_keys(
            sel,
            entries,
        ).dom().contains(entries[i].key),
{
    law_confirmed_keys_are_granted(sel, entries);
    if sel.access_of(entries[i]) == Access::Allowed {
        assert(grants(sel, entries, Access::Allowed, entries[i].key));
    } else {
        assert(grants(sel, entries, Access::Confirmed, entries[i].key));
    }
}

/// A key that no selector names stays out, where not all other keys are for use with
/// confirmation.
pub proof fn law_unnamed_key_stays_out(
    sel: &Selectors,
    entries: Seq<IdentityView>,
    key: Seq<u8>,
)
    requires
        !sel.all_confirmed,
        forall|i: int|
            0 <= i < entries.len() && (#[trigger] entries[i]).key == key ==> !sel.names_allowed(
                entries[i],
            ) && !sel.names_confirmed(entries[i]),
    ensures
        !allowed_keys(sel, entries).contains(key),
        !confirmed_keys(sel, entries).dom().contains(key),
{
    law_confirmed_keys_are_granted(sel, entries);
}

/// A key that is named for both uses is used without question.
pub proof fn law_allowed_goes_before_confirmed(sel: &Selectors, entry: IdentityView)
    requires
        sel.names_allowed(entry),
    ensures
        sel.access_of(entry) == Access::Allowed,
{
}

/// A list of typed fingerprints selects a key where one of them has the digits of the
/// key's fingerprint, whatever their case and whatever stands between them, and
/// nowhere else.
pub proof fn law_fingerprint_digits_select(typed: Seq<Seq<char>>, key: Seq<u8>)
    ensures
        canonical_list(typed).contains(md5_text(key)) <==> exists|i: int|
            0 <= i < typed.len() && canonical_fingerprint(#[trigger] typed[i]) == md5_text(key),
        forall|shown: Seq<char>| #[trigger]
            typed.contains(shown) && canonical_fingerprint(shown) == md5_text(key)
                ==> canonical_list(typed).contains(md5_text(key)),
{
    let canonical = canonical_list(typed);
    assert forall|i: int| 0 <= i < typed.len() implies canonical[i] == canonical_fingerprint(
        #[trigger] typed[i],
    ) by {}
    if canonical.contains(md5_text(key)) {
        let i = choose|i: int| 0 <= i < canonical.len() && canonical[i] == md5_text(key);
        assert(canonical_fingerprint(typed[i]) == md5_text(key));
    }
}

/// The fingerprint of a key selects it, with colons or without, in capitals or not.
pub proof fn law_typed_fingerprint_selects(
    typed: Seq<Seq<char>>,
    shown: Seq<char>,
    key: Seq<u8>,
)
    requires
        typed.contains(shown),
        shown == md5_text(key) || shown == colon_form(md5_text(key)) || shown == upper_form(
            md5_text(key),
        ) || shown == upper_form(colon_form(md5_text(key))),
    ensures
        canonical_list(typed).contains(md5_text(key)),
{
    law_computed_fingerprint_canonical(key);
    law_colons_ignored(md5_text(key));
    law_case_ignored(md5_text(key));
    law_case_ignored(colon_form(md5_text(key)));
    law_fingerprint_digits_select(typed, key);
}

/// A key of the agent that a selector names is selected, for the use that it is
/// named for.
pub proof fn law_named_key_is_selected(sel: &Selectors, entries: Seq<IdentityView>, i: int)
    requires
        0 <= i < entries.len(),
    ensures
        sel.names_allowed(entries[i]) ==> allowed_keys(sel, entries).contains(entries[i].key),
        sel.names_confirmed(entries[i]) && !sel.names_allowed(entries[i]) ==> confirmed_keys(
            sel,
            entries,
        ).dom().contains(entries[i].key),
{
    law_confirmed_keys_are_granted(sel, entries);
    if sel.names_allowed(entries[i]) {
        assert(grants(sel, entries, Access::Allowed, entries[i].key));
    } else if sel.names_confirmed(entries[i]) {
        assert(grants(sel, entries, Access::Confirmed, entries[i].key));
    }
}

/// A key that is given in base64 selects itself and no other key.
pub proof fn law_base64_selects_one_key(sel: &Selectors, key: Seq<u8>, entry: IdentityView)
    requires
        texts(sel.allowed_b64s@) == seq![base64_text(key)],
        sel.allowed_comments@.len() == 0,
        sel.allowed_md5s@.len() == 0,
    ensures
        sel.access_of(entry) == Access::Allowed <==> entry.key == key,
{
    if entry.key == key {
        assert(texts(sel.allowed_b64s@)[0] == base64_text(key));
    }
    if base64_text(entry.key) == base64_text(key) {
        law_base64_names_one_key(entry.key, key);
    }
}

/// A text stands in a list where some member of the list has it.
proof fn lemma_listed(list: Seq<String>, text: Seq<char>)
    ensures
        texts(list).contains(text) <==> exists|j: int|
            0 <= j < list.len() && (#[trigger] list[j])@ == text,
{
    if texts(list).contains(text) {
        let j = choose|j: int| 0 <= j < texts(list).len() && texts(list)[j] == text;
        assert(list[j]@ == text);
    }
    assert forall|j: int| 0 <= j < list.len() && (#[trigger] list[j])@ == text implies texts(
        list,
    ).contains(text) by {
        assert(texts(list)[j] == text);
    }
}

/// Each fingerprint of a list is brought into canonical form in its place.
pub proof fn law_canonical_list_keeps_place(list: Seq<Seq<char>>)
    ensures
        canonical_list(list).len() == list.len(),
        forall|i: int|
            0 <= i < list.len() ==> #[trigger] canonical_list(list)[i] == canonical_fingerprint(
                list[i],
            ),
{
}

/// A key is named for a use where any member of any of the three lists for that use is
/// one of its texts.
pub proof fn law_any_selector_names(
    sel: &Selectors,
    comment: Seq<char>,
    md5: Seq<char>,
    b64: Seq<char>,
)
    ensures
        sel.allows(comment, md5, b64) <==> {
            ||| exists|j: int|
                0 <= j < sel.allowed_comments@.len() && (#[trigger] sel.allowed_comments@[j])@
                    == comment
            ||| exists|j: int|
                0 <= j < sel.allowed_md5s@.len() && (#[trigger] sel.allowed_md5s@[j])@ == md5
            ||| exists|j: int|
                0 <= j < sel.allowed_b64s@.len() && (#[trigger] sel.allowed_b64s@[j])@ == b64
        },
        sel.confirms(comment, md5, b64) <==> {
            ||| exists|j: int|
                0 <= j < sel.confirmed_comments@.len() && (#[trigger] sel.confirmed_comments@[j])@
                    == comment
            ||| exists|j: int|
                0 <= j < sel.confirmed_md5s@.len() && (#[trigger] sel.confirmed_md5s@[j])@ == md5
            ||| exists|j: int|
                0 <= j < sel.confirmed_b64s@.len() && (#[trigger] sel.confirmed_b64s@[j])@ == b64
        },
{
    lemma_listed(sel.allowed_comments@, comment);
    lemma_listed(sel.allowed_md5s@, md5);
    lemma_listed(sel.allowed_b64s@, b64);
    lemma_listed(sel.confirmed_comments@, comment);
    lemma_listed(sel.confirmed_md5s@, md5);
    lemma_listed(sel.confirmed_b64s@, b64);
}

/// What a key may be used for: without question where its comment, its fingerprint or
/// its base64 form is named for that; else with confirmation where it is named for
/// that or all other keys are for use with confirmation; else not at all.
pub proof fn law_access_follows_texts(sel: &Selectors, entry: IdentityView)
    ensures
        ({
            let comment = utf8_lossy(entry.comment);
            let md5 = md5_text(entry.key);
            let b64 = base64_text(entry.key);
            &&& sel.access_of(entry) == Access::Allowed <==> sel.allows(comment, md5, b64)
            &&& sel.access_of(entry) == Access::Confirmed <==> !sel.allows(comment, md5, b64) && (
            sel.all_confirmed || sel.confirms(comment, md5, b64))
            &&& sel.names_allowed(entry) <==> sel.allows(comment, md5, b64)
            &&& sel.names_confirmed(entry) <==> sel.confirms(comment, md5, b64)
        }),
{
}

/// Every selector for use without question counts: an entry of the agent that any of
/// them names, by comment, fingerprint or base64 key, is among the allowed keys.
pub proof fn law_every_allowed_selector_counts(
    sel: &Selectors,
    entries: Seq<IdentityView>,
    selected: SelectedKeys,
    i: int,
    j: int,
)
    requires
        selected.selected_from(sel, entries),
        0 <= i < entries.len(),
        ({
            ||| 0 <= j < sel.allowed_comments@.len() && sel.allowed_comments@[j]@ == utf8_lossy(
                entries[i].comment,
            )
            ||| 0 <= j < sel.allowed_md5s@.len() && sel.allowed_md5s@[j]@ == md5_text(
                entries[i].key,
            )
            ||| 0 <= j < sel.allowed_b64s@.len() && sel.allowed_b64s@[j]@ == base64_text(
                entries[i].key,
            )
        }),
    ensures
        selected.allowed@.contains(entries[i].key),
        0 <= j < sel.allowed_comments@.len() && sel.allowed_comments@[j]@ == utf8_lossy(
            entries[i].comment,
        ) ==> selected.found.comments@.contains(sel.allowed_comments@[j]@),
        0 <= j < sel.allowed_md5s@.len() && sel.allowed_md5s@[j]@ == md5_text(entries[i].key)
            ==> selected.found.md5s@.contains(sel.allowed_md5s@[j]@),
        0 <= j < sel.allowed_b64s@.len() && sel.allowed_b64s@[j]@ == base64_text(entries[i].key)
            ==> selected.found.b64s@.contains(sel.allowed_b64s@[j]@),
{
    let e = entries[i];
    law_any_selector_names(sel, utf8_lossy(e.comment), md5_text(e.key), base64_text(e.key));
    law_access_follows_texts(sel, e);
    lemma_listed(sel.allowed_comments@, utf8_lossy(e.comment));
    lemma_listed(sel.allowed_md5s@, md5_text(e.key));
    lemma_listed(sel.allowed_b64s@, base64_text(e.key));
    law_named_key_is_selected(sel, entries, i);
}

/// Every selector for use with confirmation counts: an entry of the agent that any of
/// them names is among the keys for confirmation, where no selector allows it.
pub proof fn law_every_confirmed_selector_counts(
    sel: &Selectors,
    entries: Seq<IdentityView>,
    selected: SelectedKeys,
    i: int,
    j: int,
)
    requires
        selected.selected_from(sel, entries),
        0 <= i < entries.len(),
        forall|k: int|
            0 <= k < sel.allowed_comments@.len() ==> (#[trigger] sel.allowed_comments@[k])@
                != utf8_lossy(entries[i].comment),
        forall|k: int|
            0 <= k < sel.allowed_md5s@.len() ==> (#[trigger] sel.allowed_md5s@[k])@ != md5_text(
                entries[i].key,
            ),
        forall|k: int|
            0 <= k < sel.allowed_b64s@.len() ==> (#[trigger] sel.allowed_b64s@[k])@ != base64_text(
                entries[i].key,
            ),
        ({
            ||| 0 <= j < sel.confirmed_comments@.len() && sel.confirmed_comments@[j]@ == utf8_lossy(
                entries[i].comment,
            )
            ||| 0 <= j < sel.confirmed_md5s@.len() && sel.confirmed_md5s@[j]@ == md5_text(
                entries[i].key,
            )
            ||| 0 <= j < sel.confirmed_b64s@.len() && sel.confirmed_b64s@[j]@ == base64_text(
                entries[i].key,
            )
            ||| sel.all_confirmed
        }),
    ensures
        selected.confirmed@.dom().contains(entries[i].key),
        0 <= j < sel.confirmed_comments@.len() && sel.confirmed_comments@[j]@ == utf8_lossy(
            entries[i].comment,
        ) ==> selected.found.comments@.contains(sel.confirmed_comments@[j]@),
        0 <= j < sel.confirmed_md5s@.len() && sel.confirmed_md5s@[j]@ == md5_text(entries[i].key)
            ==> selected.found.md5s@.contains(sel.confirmed_md5s@[j]@),
        0 <= j < sel.confirmed_b64s@.len() && sel.confirmed_b64s@[j]@ == base64_text(
            entries[i].key,
        ) ==> selected.found.b64s@.contains(sel.confirmed_b64s@[j]@),
{
    let e = entries[i];
    law_any_selector_names(sel, utf8_lossy(e.comment), md5_text(e.key), base64_text(e.key));
    law_access_follows_texts(sel, e);
    lemma_listed(sel.confirmed_comments@, utf8_lossy(e.comment));
    lemma_listed(sel.confirmed_md5s@, md5_text(e.key));
    lemma_listed(sel.confirmed_b64s@, base64_text(e.key));
    law_named_key_is_selected(sel, entries, i);
    law_confirmed_keys_are_granted(sel, entries);
    assert(grants(sel, entries, Access::Confirmed, e.key));
}

/// A key may be used without question only where an entry of the agent has it and a
/// selector for that use names the entry.
pub proof fn law_allowed_keys_were_named(
    sel: &Selectors,
    entries: Seq<IdentityView>,
    selected: SelectedKeys,
    key: Seq<u8>,
)
    requires
        selected.selected_from(sel, entries),
        selected.allowed@.contains(key),
    ensures
        ({
            ||| exists|i: int, j: int|
                0 <= i < entries.len() && 0 <= j < sel.allowed_comments@.len() && (
                #[trigger] entries[i]).key == key && (#[trigger] sel.allowed_comments@[j])@
                    == utf8_lossy(entries[i].comment)
            ||| exists|i: int, j: int|
                0 <= i < entries.len() && 0 <= j < sel.allowed_md5s@.len() && (
                #[trigger] entries[i]).key == key && (#[trigger] sel.allowed_md5s@[j])@
                    == md5_text(key)
            ||| exists|i: int, j: int|
                0 <= i < entries.len() && 0 <= j < sel.allowed_b64s@.len() && (
                #[trigger] entries[i]).key == key && (#[trigger] sel.allowed_b64s@[j])@
                    == base64_text(key)
        }),
{
    let i = choose|i: int|
        0 <= i < entries.len() && (#[trigger] entries[i]).key == key && sel.access_of(entries[i])
            == Access::Allowed;
    let e = entries[i];
    law_any_selector_names(sel, utf8_lossy(e.comment), md5_text(e.key), base64_text(e.key));
    law_access_follows_texts(sel, e);
}

/// A key may be used with confirmation only where an entry of the agent has it that no
/// selector allows, and all other keys are for use with confirmation or a selector
/// for that use names the entry.
pub proof fn law_confirmed_keys_were_named(
    sel: &Selectors,
    entries: Seq<IdentityView>,
    selected: SelectedKeys,
    key: Seq<u8>,
)
    requires
        selected.selected_from(sel, entries),
        selected.confirmed@.dom().contains(key),
    ensures
        exists|i: int|
            0 <= i < entries.len() && (#[trigger] entries[i]).key == key && !sel.allows(
                utf8_lossy(entries[i].comment),
                md5_text(key),
                base64_text(key),
            ) && (sel.all_confirmed || sel.confirms(
                utf8_lossy(entries[i].comment),
                md5_text(key),
                base64_text(key),
            )),
{
    law_confirmed_keys_are_granted(sel, entries);
    assert(grants(sel, entries, Access::Confirmed, key));
    let i = choose|i: int|
        0 <= i < entries.len() && (#[trigger] entries[i]).key == key && sel.access_of(entries[i])
            == Access::Confirmed;
    law_access_follows_texts(sel, entries[i]);
}

/// A key for confirmation goes by the comment of its last entry for that use.
pub proof fn law_last_comment_names_key(
    sel: &Selectors,
    entries: Seq<IdentityView>,
    selected: SelectedKeys,
    i: int,
)
    requires
        selected.selected_from(sel, entries),
        0 <= i < entries.len(),
        sel.access_of(entries[i]) == Access::Confirmed,
        forall|k: int|
            i < k < entries.len() && (#[trigger] entries[k]).key == entries[i].key
                ==> sel.access_of(entries[k]) != Access::Confirmed,
    ensures
        selected.confirmed@.dom().contains(entries[i].key),
        selected.confirmed@[entries[i].key] == utf8_lossy(entries[i].comment),
{
    lemma_last_comment(sel, entries, i);
}

/// A key for confirmation goes by the comment of its last entry for that use.
proof fn lemma_last_comment(sel: &Selectors, entries: Seq<IdentityView>, i: int)
    requires
        0 <= i < entries.len(),
        sel.access_of(entries[i]) == Access::Confirmed,
        forall|k: int|
            i < k < entries.len() && (#[trigger] entries[k]).key == entries[i].key
                ==> sel.access_of(entries[k]) != Access::Confirmed,
    ensures
        confirmed_keys(sel, entries).dom().contains(entries[i].key),
        confirmed_keys(sel, entries)[entries[i].key] == utf8_lossy(entries[i].comment),
    decreases entries.len(),
{
    let n = entries.len() - 1;
    let earlier = entries.drop_last();
    assert(entries[n] == entries.last());
    if i < n {
        assert forall|k: int|
            i < k < earlier.len() && (#[trigger] earlier[k]).key == earlier[i].key implies sel.access_of(
            earlier[k],
        ) != Access::Confirmed by {
            assert(earlier[k] == entries[k]);
        }
        lemma_last_comment(sel, earlier, i);
    }
}

/// A selector is found where an entry of the agent that is used as it says has its
/// text, and nowhere else.
pub proof fn law_found_selectors_have_keys(
    sel: &Selectors,
    entries: Seq<IdentityView>,
    selected: SelectedKeys,
    text: Seq<char>,
)
    requires
        selected.selected_from(sel, entries),
    ensures
        selected.found.comments@.contains(text) <==> exists|i: int|
            0 <= i < entries.len() && utf8_lossy((#[trigger] entries[i]).comment) == text && {
                ||| sel.access_of(entries[i]) == Access::Allowed && exists|j: int|
                    0 <= j < sel.allowed_comments@.len() && (#[trigger] sel.allowed_comments@[j])@
                        == text
                ||| sel.access_of(entries[i]) == Access::Confirmed && exists|j: int|
                    0 <= j < sel.confirmed_comments@.len() && (
                    #[trigger] sel.confirmed_comments@[j])@ == text
            },
        selected.found.md5s@.contains(text) <==> exists|i: int|
            0 <= i < entries.len() && md5_text((#[trigger] entries[i]).key) == text && {
                ||| sel.access_of(entries[i]) == Access::Allowed && exists|j: int|
                    0 <= j < sel.allowed_md5s@.len() && (#[trigger] sel.allowed_md5s@[j])@ == text
                ||| sel.access_of(entries[i]) == Access::Confirmed && exists|j: int|
                    0 <= j < sel.confirmed_md5s@.len() && (#[trigger] sel.confirmed_md5s@[j])@
                        == text
            },
        selected.found.b64s@.contains(text) <==> exists|i: int|
            0 <= i < entries.len() && base64_text((#[trigger] entries[i]).key) == text && {
                ||| sel.access_of(entries[i]) == Access::Allowed && exists|j: int|
                    0 <= j < sel.allowed_b64s@.len() && (#[trigger] sel.allowed_b64s@[j])@ == text
                ||| sel.access_of(entries[i]) == Access::Confirmed && exists|j: int|
                    0 <= j < sel.confirmed_b64s@.len() && (#[trigger] sel.confirmed_b64s@[j])@
                        == text
            },
{
    lemma_listed(sel.allowed_comments@, text);
    lemma_listed(sel.allowed_md5s@, text);
    lemma_listed(sel.allowed_b64s@, text);
    lemma_listed(sel.confirmed_comments@, text);
    lemma_listed(sel.confirmed_md5s@, text);
    lemma_listed(sel.confirmed_b64s@, text);
}

/// What is told about the keys of a list are their own texts and use, one by one.
pub proof fn law_loaded_keys_are_told(
    loaded: Seq<LoadedKey>,
    sel: &Selectors,
    entries: Seq<IdentityView>,
)
    requires
        describe_all(loaded, sel, entries),
    ensures
        loaded.len() == entries.len(),
        forall|i: int| 0 <= i < entries.len() ==> {
            &&& (#[trigger] loaded[i]).comment@ == utf8_lossy(entries[i].comment)
            &&& loaded[i].md5@ == md5_text(entries[i].key)
            &&& loaded[i].b64@ == base64_text(entries[i].key)
            &&& loaded[i].access == sel.access_of(entries[i])
        },
{
}

} // verus!
