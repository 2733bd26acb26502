//! The warnings about selectors on the command line that no key was selected by.

use vstd::hash_set::StringHashSet;
use vstd::prelude::*;
use vstd::string::StringExecFns;
use vstd::utf8::{
    decode_utf8, decode_utf8_encode_utf8, decode_utf8_split, encode_scalar, encode_utf8,
    encode_utf8_decode_utf8, encode_utf8_first_scalar, encode_utf8_valid_utf8, is_char_boundary,
    pop_first_scalar, valid_utf8_split,
};
use crate::setup::{FoundSelectors, Selectors};
use crate::text::append_all;
use crate::text::texts;

verus! {

/// How many bytes of a long base64 key a warning shows.
pub const SHOWN_KEY_LEN: usize = 20;

/// Whether a base64 key can be cut for a warning: no character lies across the cut.
pub open spec fn can_shorten(text: Seq<char>) -> bool {
    encode_utf8(text).len() > SHOWN_KEY_LEN ==> is_char_boundary(
        encode_utf8(text),
        SHOWN_KEY_LEN as int,
    )
}

/// A base64 key as a warning shows it: where it is long, its first bytes and dots.
pub open spec fn shortened(text: Seq<char>) -> Seq<char> {
    if encode_utf8(text).len() > SHOWN_KEY_LEN {
        decode_utf8(encode_utf8(text).subrange(0, SHOWN_KEY_LEN as int)) + "..."@
    } else {
        text
    }
}

/// Whether a base64 key can be cut for a warning.
fn is_shortenable(text: &str) -> (res: bool)
    ensures
        res == can_shorten(text@),
{
    text.as_bytes().len() <= SHOWN_KEY_LEN || text.is_char_boundary(SHOWN_KEY_LEN)
}

/// Cuts a base64 key for a warning.
pub fn shorten_key(text: &str) -> (short: String)
    requires
        can_shorten(text@),
    ensures
        short@ == shortened(text@),
{
    if text.as_bytes().len() <= SHOWN_KEY_LEN {
        return text.to_owned();
    }
    let (shown, _) = text.split_at(SHOWN_KEY_LEN);
    proof {
        encode_utf8_valid_utf8(shown@);
        encode_utf8_decode_utf8(shown@);
    }
    let mut short: String = shown.to_owned();
    short.append("...");
    short
}

/// The selectors of a list that no key was selected by.
pub open spec fn missing(list: Seq<Seq<char>>, found: Set<Seq<char>>) -> Seq<Seq<char>> {
    list.filter(|text: Seq<char>| !found.contains(text))
}

/// A warning about one selector.
pub open spec fn warning_text(kind: Seq<char>, shown: Seq<char>) -> Seq<char> {
    "Warning: "@ + kind + " '"@ + shown + "' was not found in the upstream agent."@
}

/// The warnings about a list of comments or fingerprints.
pub open spec fn warn_missing(
    kind: Seq<char>,
    list: Seq<Seq<char>>,
    found: Set<Seq<char>>,
) -> Seq<Seq<char>> {
    missing(list, found).map_values(|text: Seq<char>| warning_text(kind, text))
}

/// The warnings about a list of base64 keys.
pub open spec fn warn_missing_b64(
    kind: Seq<char>,
    list: Seq<Seq<char>>,
    found: Set<Seq<char>>,
) -> Seq<Seq<char>> {
    missing(list, found).map_values(|text: Seq<char>| warning_text(kind, shortened(text)))
}

/// The warnings about comments and fingerprints, in the order in which they are shown.
pub open spec fn name_warnings(
    sel: &Selectors,
    comments: Set<Seq<char>>,
    md5s: Set<Seq<char>>,
) -> Seq<Seq<char>> {
    warn_missing("Allowed key specified by comment"@, texts(sel.allowed_comments@), comments)
        + warn_missing(
        "Confirmed key specified by comment"@,
        texts(sel.confirmed_comments@),
        comments,
    ) + warn_missing("Allowed key specified by fingerprint"@, texts(sel.allowed_md5s@), md5s)
        + warn_missing("Confirmed key specified by fingerprint"@, texts(sel.confirmed_md5s@), md5s)
}

/// All warnings, in the order in which they are shown.
pub open spec fn all_warnings(
    sel: &Selectors,
    comments: Set<Seq<char>>,
    md5s: Set<Seq<char>>,
    b64s: Set<Seq<char>>,
) -> Seq<Seq<char>> {
    name_warnings(sel, comments, md5s) + warn_missing_b64(
        "Allowed key specified by base64 pubkey"@,
        texts(sel.allowed_b64s@),
        b64s,
    ) + warn_missing_b64(
        "Confirmed key specified by base64 pubkey"@,
        texts(sel.confirmed_b64s@),
        b64s,
    )
}

/// Whether every base64 key of a list that no key was selected by can be cut.
pub open spec fn missing_shortenable(list: Seq<Seq<char>>, found: Set<Seq<char>>) -> bool {
    forall|i: int|
        0 <= i < list.len() && !found.contains(#[trigger] list[i]) ==> can_shorten(list[i])
}

/// Where the first base64 key stands that needs a warning and cannot be cut for it, or
/// the length where there is none.
pub open spec fn first_uncut(list: Seq<Seq<char>>, found: Set<Seq<char>>) -> nat
    decreases list.len(),
{
    if list.len() == 0 || (!found.contains(list[0]) && !can_shorten(list[0])) {
        0
    } else {
        1 + first_uncut(list.drop_first(), found)
    }
}

/// The first key that cannot be cut is the one before which there is none.
proof fn lemma_first_uncut(list: Seq<Seq<char>>, found: Set<Seq<char>>, k: int)
    requires
        0 <= k <= list.len(),
        missing_shortenable(list.take(k), found),
        k < list.len() ==> !found.contains(list[k]) && !can_shorten(list[k]),
    ensures
        first_uncut(list, found) == k,
    decreases list.len(),
{
    if k > 0 {
        let rest = list.drop_first();
        assert(list.take(k)[0] == list[0]);
        assert forall|i: int|
            0 <= i < k - 1 && !found.contains(#[trigger] rest.take(k - 1)[i]) implies can_shorten(
            rest.take(k - 1)[i],
        ) by {
            assert(rest.take(k - 1)[i] == list.take(k)[i + 1]);
        }
        lemma_first_uncut(rest, found, k - 1);
    }
}

/// The warnings up to the first base64 key that cannot be cut.
pub open spec fn warnings_up_to_cut(
    sel: &Selectors,
    comments: Set<Seq<char>>,
    md5s: Set<Seq<char>>,
    b64s: Set<Seq<char>>,
) -> Seq<Seq<char>> {
    let allowed = texts(sel.allowed_b64s@);
    let confirmed = texts(sel.confirmed_b64s@);
    name_warnings(sel, comments, md5s) + warn_missing_b64(
        "Allowed key specified by base64 pubkey"@,
        allowed.take(first_uncut(allowed, b64s) as int),
        b64s,
    ) + if first_uncut(allowed, b64s) < allowed.len() {
        Seq::empty()
    } else {
        warn_missing_b64(
            "Confirmed key specified by base64 pubkey"@,
            confirmed.take(first_uncut(confirmed, b64s) as int),
            b64s,
        )
    }
}

/// One warning.
fn warning(kind: &str, shown: &str) -> (text: String)
    ensures
        text@ == warning_text(kind@, shown@),
{
    let mut text: String = "Warning: ".to_owned();
    append_all(&mut text, kind, " '", shown);
    text.append("' was not found in the upstream agent.");
    text
}

/// Adds the warnings about a list of comments or fingerprints.
fn add_warnings(
    warnings: &mut Vec<String>,
    kind: &str,
    list: &Vec<String>,
    found: &StringHashSet,
)
    ensures
        texts(final(warnings)@) == texts(old(warnings)@) + warn_missing(
            kind@,
            texts(list@),
            found@,
        ),
{
    let ghost all = texts(list@);
    let ghost start = texts(warnings@);
    proof {
        reveal(Seq::filter);
        assert(all.take(0) =~= Seq::empty());
        assert(texts(warnings@) =~= start + warn_missing(kind@, all.take(0), found@));
    }
    let mut i: usize = 0;
    while i < list.len()
        invariant
            i <= list@.len(),
            all == texts(list@),
            texts(warnings@) == start + warn_missing(kind@, all.take(i as int), found@),
        decreases list@.len() - i,
    {
        proof {
            assert(all.take(i + 1).drop_last() =~= all.take(i as int));
            reveal(Seq::filter);
        }
        let ghost before = texts(warnings@);
        if !found.contains(list[i].as_str()) {
            let text: String = warning(kind, list[i].as_str());
            warnings.push(text);
            assert(texts(warnings@) =~= before.push(text@));
        }
        i = i + 1;
        assert(texts(warnings@) =~= start + warn_missing(kind@, all.take(i as int), found@));
    }
    assert(all.take(i as int) =~= all);
}

/// Adds the warnings about a list of base64 keys up to the first that cannot be cut,
/// and says whether there is none.
fn add_b64_warnings(
    warnings: &mut Vec<String>,
    kind: &str,
    list: &Vec<String>,
    found: &StringHashSet,
) -> (whole: bool)
    ensures
        texts(final(warnings)@) == texts(old(warnings)@) + warn_missing_b64(
            kind@,
            texts(list@).take(first_uncut(texts(list@), found@) as int),
            found@,
        ),
        whole == (first_uncut(texts(list@), found@) >= list@.len()),
        whole == missing_shortenable(texts(list@), found@),
{
    let ghost all = texts(list@);
    let ghost start = texts(warnings@);
    proof {
        reveal(Seq::filter);
        assert(all.take(0) =~= Seq::empty());
        assert(texts(warnings@) =~= start + warn_missing_b64(kind@, all.take(0), found@));
    }
    let mut i: usize = 0;
    while i < list.len()
        invariant
            i <= list@.len(),
            all == texts(list@),
            start == texts(old(warnings)@),
            missing_shortenable(all.take(i as int), found@),
            texts(warnings@) == start + warn_missing_b64(kind@, all.take(i as int), found@),
        decreases list@.len() - i,
    {
        proof {
            assert(all.take(i + 1).drop_last() =~= all.take(i as int));
            reveal(Seq::filter);
            assert(all[i as int] == list@[i as int]@);
        }
        let ghost before = texts(warnings@);
        if !found.contains(list[i].as_str()) {
            if !is_shortenable(list[i].as_str()) {
                proof {
                    lemma_first_uncut(all, found@, i as int);
                }
                return false;
            }
            let text: String = warning(kind, shorten_key(list[i].as_str()).as_str());
            warnings.push(text);
            assert(texts(warnings@) =~= before.push(text@));
        }
        i = i + 1;
        assert(texts(warnings@) =~= start + warn_missing_b64(kind@, all.take(i as int), found@));
        assert forall|j: int|
            0 <= j < i && !found@.contains(#[trigger] all.take(i as int)[j]) implies can_shorten(
            all.take(i as int)[j],
        ) by {
            if j < i - 1 {
                assert(all.take(i as int)[j] == all.take(i - 1)[j]);
            }
        }
    }
    assert(all.take(i as int) =~= all);
    proof {
        lemma_first_uncut(all, found@, i as int);
    }
    true
}

/// The warnings about comments and fingerprints.
fn list_name_warnings(sel: &Selectors, found: &FoundSelectors) -> (warnings: Vec<String>)
    ensures
        texts(warnings@) == name_warnings(sel, found.comments@, found.md5s@),
{
    let mut warnings: Vec<String> = Vec::new();
    add_warnings(
        &mut warnings,
        "Allowed key specified by comment",
        &sel.allowed_comments,
        &found.comments,
    );
    add_warnings(
        &mut warnings,
        "Confirmed key specified by comment",
        &sel.confirmed_comments,
        &found.comments,
    );
    add_warnings(
        &mut warnings,
        "Allowed key specified by fingerprint",
        &sel.allowed_md5s,
        &found.md5s,
    );
    add_warnings(
        &mut warnings,
        "Confirmed key specified by fingerprint",
        &sel.confirmed_md5s,
        &found.md5s,
    );
    assert(texts(warnings@) =~= name_warnings(sel, found.comments@, found.md5s@));
    warnings
}

/// Whether every base64 key of a list that no key was selected by can be cut.
fn list_shortenable(list: &Vec<String>, found: &StringHashSet) -> (res: bool)
    ensures
        res == missing_shortenable(texts(list@), found@),
{
    let ghost all = texts(list@);
    let mut i: usize = 0;
    while i < list.len()
        invariant
            i <= list@.len(),
            all == texts(list@),
            forall|j: int|
                0 <= j < i && !found@.contains(#[trigger] all[j]) ==> can_shorten(all[j]),
        decreases list@.len() - i,
    {
        assert(all[i as int] == list@[i as int]@);
        if !found.contains(list[i].as_str()) && !is_shortenable(list[i].as_str()) {
            return false;
        }
        i = i + 1;
    }
    true
}

/// Whether every base64 key on the command line that no key was selected by can be
/// cut for a warning.
pub fn warnings_printable(sel: &Selectors, found: &FoundSelectors) -> (res: bool)
    ensures
        res == (missing_shortenable(texts(sel.allowed_b64s@), found.b64s@) && missing_shortenable(
            texts(sel.confirmed_b64s@),
            found.b64s@,
        )),
{
    list_shortenable(&sel.allowed_b64s, &found.b64s) && list_shortenable(
        &sel.confirmed_b64s,
        &found.b64s,
    )
}

/// The warnings that come before the first base64 key that cannot be cut for its own.
pub fn warnings_before_cut(sel: &Selectors, found: &FoundSelectors) -> (warnings: Vec<String>)
    ensures
        texts(warnings@) == warnings_up_to_cut(sel, found.comments@, found.md5s@, found.b64s@),
        missing_shortenable(texts(sel.allowed_b64s@), found.b64s@) && missing_shortenable(
            texts(sel.confirmed_b64s@),
            found.b64s@,
        ) ==> texts(warnings@) == all_warnings(sel, found.comments@, found.md5s@, found.b64s@),
{
    let mut warnings: Vec<String> = list_name_warnings(sel, found);
    let whole = add_b64_warnings(
        &mut warnings,
        "Allowed key specified by base64 pubkey",
        &sel.allowed_b64s,
        &found.b64s,
    );
    if whole {
        add_b64_warnings(
            &mut warnings,
            "Confirmed key specified by base64 pubkey",
            &sel.confirmed_b64s,
            &found.b64s,
        );
    }
    proof {
        let allowed = texts(sel.allowed_b64s@);
        let confirmed = texts(sel.confirmed_b64s@);
        assert(texts(warnings@) =~= warnings_up_to_cut(
            sel,
            found.comments@,
            found.md5s@,
            found.b64s@,
        ));
        if missing_shortenable(allowed, found.b64s@) && missing_shortenable(confirmed, found.b64s@) {
            assert(allowed.take(allowed.len() as int) =~= allowed);
            assert(confirmed.take(confirmed.len() as int) =~= confirmed);
            lemma_first_uncut(allowed, found.b64s@, allowed.len() as int);
            lemma_first_uncut(confirmed, found.b64s@, confirmed.len() as int);
        }
    }
    warnings
}

/// The warnings about selectors on the command line that no key was selected by.
pub fn unmatched_warnings(sel: &Selectors, found: &FoundSelectors) -> (warnings: Vec<String>)
    requires
        missing_shortenable(texts(sel.allowed_b64s@), found.b64s@),
        missing_shortenable(texts(sel.confirmed_b64s@), found.b64s@),
    ensures
        texts(warnings@) == all_warnings(sel, found.comments@, found.md5s@, found.b64s@),
{
    warnings_before_cut(sel, found)
}

/// Each selector that no key was selected by is warned about, in the order of the
/// command line and under the name of its kind, and no other is.
pub proof fn law_every_missing_selector_is_warned_about(
    sel: &Selectors,
    comments: Set<Seq<char>>,
    md5s: Set<Seq<char>>,
    b64s: Set<Seq<char>>,
)
    ensures
        name_warnings(sel, comments, md5s) == texts(sel.allowed_comments@).filter(
            |text: Seq<char>| !comments.contains(text),
        ).map_values(
            |text: Seq<char>|
                "Warning: "@ + "Allowed key specified by comment"@ + " '"@ + text
                    + "' was not found in the upstream agent."@,
        ) + texts(sel.confirmed_comments@).filter(
            |text: Seq<char>| !comments.contains(text),
        ).map_values(
            |text: Seq<char>|
                "Warning: "@ + "Confirmed key specified by comment"@ + " '"@ + text
                    + "' was not found in the upstream agent."@,
        ) + texts(sel.allowed_md5s@).filter(
            |text: Seq<char>| !md5s.contains(text),
        ).map_values(
            |text: Seq<char>|
                "Warning: "@ + "Allowed key specified by fingerprint"@ + " '"@ + text
                    + "' was not found in the upstream agent."@,
        ) + texts(sel.confirmed_md5s@).filter(
            |text: Seq<char>| !md5s.contains(text),
        ).map_values(
            |text: Seq<char>|
                "Warning: "@ + "Confirmed key specified by fingerprint"@ + " '"@ + text
                    + "' was not found in the upstream agent."@,
        ),
        all_warnings(sel, comments, md5s, b64s) == name_warnings(sel, comments, md5s) + texts(
            sel.allowed_b64s@,
        ).filter(|text: Seq<char>| !b64s.contains(text)).map_values(
            |text: Seq<char>|
                "Warning: "@ + "Allowed key specified by base64 pubkey"@ + " '"@ + shortened(text)
                    + "' was not found in the upstream agent."@,
        ) + texts(sel.confirmed_b64s@).filter(|text: Seq<char>| !b64s.contains(text)).map_values(
            |text: Seq<char>|
                "Warning: "@ + "Confirmed key specified by base64 pubkey"@ + " '"@ + shortened(text)
                    + "' was not found in the upstream agent."@,
        ),
{
    let named = name_warnings(sel, comments, md5s);
    assert(named =~= texts(sel.allowed_comments@).filter(
        |text: Seq<char>| !comments.contains(text),
    ).map_values(
        |text: Seq<char>|
            "Warning: "@ + "Allowed key specified by comment"@ + " '"@ + text
                + "' was not found in the upstream agent."@,
    ) + texts(sel.confirmed_comments@).filter(
        |text: Seq<char>| !comments.contains(text),
    ).map_values(
        |text: Seq<char>|
            "Warning: "@ + "Confirmed key specified by comment"@ + " '"@ + text
                + "' was not found in the upstream agent."@,
    ) + texts(sel.allowed_md5s@).filter(|text: Seq<char>| !md5s.contains(text)).map_values(
        |text: Seq<char>|
            "Warning: "@ + "Allowed key specified by fingerprint"@ + " '"@ + text
                + "' was not found in the upstream agent."@,
    ) + texts(sel.confirmed_md5s@).filter(|text: Seq<char>| !md5s.contains(text)).map_values(
        |text: Seq<char>|
            "Warning: "@ + "Confirmed key specified by fingerprint"@ + " '"@ + text
                + "' was not found in the upstream agent."@,
    ));
    assert(all_warnings(sel, comments, md5s, b64s) =~= named + texts(sel.allowed_b64s@).filter(
        |text: Seq<char>| !b64s.contains(text),
    ).map_values(
        |text: Seq<char>|
            "Warning: "@ + "Allowed key specified by base64 pubkey"@ + " '"@ + shortened(text)
                + "' was not found in the upstream agent."@,
    ) + texts(sel.confirmed_b64s@).filter(|text: Seq<char>| !b64s.contains(text)).map_values(
        |text: Seq<char>|
            "Warning: "@ + "Confirmed key specified by base64 pubkey"@ + " '"@ + shortened(text)
                + "' was not found in the upstream agent."@,
    ));
}

/// Where a base64 key for use without question is the first that cannot be cut, the
/// warnings about those in front of it are the last; where it is one for use with
/// confirmation, all those for use without question are warned about, and those in
/// front of it.
pub proof fn law_warnings_stop_at_the_cut(
    sel: &Selectors,
    comments: Set<Seq<char>>,
    md5s: Set<Seq<char>>,
    b64s: Set<Seq<char>>,
    j: int,
)
    requires
        0 <= j,
    ensures
        ({
            let allowed = texts(sel.allowed_b64s@);
            let confirmed = texts(sel.confirmed_b64s@);
            let shown = warnings_up_to_cut(sel, comments, md5s, b64s);
            let in_front = |list: Seq<Seq<char>>| j < list.len() && !b64s.contains(list[j])
                && !can_shorten(list[j]) && forall|i: int|
                0 <= i < j && !b64s.contains(#[trigger] list[i]) ==> can_shorten(list[i]);
            let whole = |list: Seq<Seq<char>>|
                forall|i: int|
                    0 <= i < list.len() && !b64s.contains(#[trigger] list[i]) ==> can_shorten(
                        list[i],
                    );
            let about_allowed = |list: Seq<Seq<char>>|
                list.filter(|text: Seq<char>| !b64s.contains(text)).map_values(
                    |text: Seq<char>|
                        "Warning: "@ + "Allowed key specified by base64 pubkey"@ + " '"@
                            + shortened(text) + "' was not found in the upstream agent."@,
                );
            let about_confirmed = |list: Seq<Seq<char>>|
                list.filter(|text: Seq<char>| !b64s.contains(text)).map_values(
                    |text: Seq<char>|
                        "Warning: "@ + "Confirmed key specified by base64 pubkey"@ + " '"@
                            + shortened(text) + "' was not found in the upstream agent."@,
                );
            let named = name_warnings(sel, comments, md5s);
            &&& in_front(allowed) ==> shown == named + about_allowed(allowed.take(j))
            &&& whole(allowed) && in_front(confirmed) ==> shown == named + about_allowed(allowed)
                + about_confirmed(confirmed.take(j))
            &&& whole(allowed) && whole(confirmed) ==> shown == all_warnings(
                sel,
                comments,
                md5s,
                b64s,
            )
            &&& missing_shortenable(allowed, b64s) <==> whole(allowed)
            &&& missing_shortenable(confirmed, b64s) <==> whole(confirmed)
        }),
{
    let allowed = texts(sel.allowed_b64s@);
    let confirmed = texts(sel.confirmed_b64s@);
    let about_allowed = |list: Seq<Seq<char>>|
        list.filter(|text: Seq<char>| !b64s.contains(text)).map_values(
            |text: Seq<char>|
                "Warning: "@ + "Allowed key specified by base64 pubkey"@ + " '"@ + shortened(text)
                    + "' was not found in the upstream agent."@,
        );
    let about_confirmed = |list: Seq<Seq<char>>|
        list.filter(|text: Seq<char>| !b64s.contains(text)).map_values(
            |text: Seq<char>|
                "Warning: "@ + "Confirmed key specified by base64 pubkey"@ + " '"@ + shortened(text)
                    + "' was not found in the upstream agent."@,
        );
    assert forall|list: Seq<Seq<char>>| #[trigger] about_allowed(list) == warn_missing_b64(
        "Allowed key specified by base64 pubkey"@,
        list,
        b64s,
    ) by {
        assert(about_allowed(list) =~= warn_missing_b64(
            "Allowed key specified by base64 pubkey"@,
            list,
            b64s,
        ));
    }
    assert forall|list: Seq<Seq<char>>| #[trigger] about_confirmed(list) == warn_missing_b64(
        "Confirmed key specified by base64 pubkey"@,
        list,
        b64s,
    ) by {
        assert(about_confirmed(list) =~= warn_missing_b64(
            "Confirmed key specified by base64 pubkey"@,
            list,
            b64s,
        ));
    }
    assert(allowed.take(allowed.len() as int) =~= allowed);
    assert(confirmed.take(confirmed.len() as int) =~= confirmed);
    if missing_shortenable(allowed, b64s) {
        lemma_first_uncut(allowed, b64s, allowed.len() as int);
    }
    if missing_shortenable(confirmed, b64s) {
        lemma_first_uncut(confirmed, b64s, confirmed.len() as int);
    }
    lemma_uncut_in_front(allowed, b64s, j);
    lemma_uncut_in_front(confirmed, b64s, j);
    let named = name_warnings(sel, comments, md5s);
    assert(named + about_allowed(allowed.take(j)) + Seq::<Seq<char>>::empty() =~= named
        + about_allowed(allowed.take(j)));
}

/// The key in front of which all can be cut, and which cannot, is the first of these.
proof fn lemma_uncut_in_front(list: Seq<Seq<char>>, found: Set<Seq<char>>, j: int)
    requires
        0 <= j,
    ensures
        (j < list.len() && !found.contains(list[j]) && !can_shorten(list[j]) && forall|i: int|
            0 <= i < j && !found.contains(#[trigger] list[i]) ==> can_shorten(list[i]))
            ==> first_uncut(list, found) == j,
{
    if j < list.len() && !found.contains(list[j]) && !can_shorten(list[j]) && (forall|i: int|
        0 <= i < j && !found.contains(#[trigger] list[i]) ==> can_shorten(list[i])) {
        assert forall|i: int|
            0 <= i < list.take(j).len() && !found.contains(
                #[trigger] list.take(j)[i],
            ) implies can_shorten(list.take(j)[i]) by {
            assert(list.take(j)[i] == list[i]);
        }
        lemma_first_uncut(list, found, j);
    }
}

/// Two texts are encoded one behind the other, and the second starts a character.
proof fn lemma_encoded_parts(a: Seq<char>, b: Seq<char>)
    ensures
        encode_utf8(a + b) == encode_utf8(a) + encode_utf8(b),
        is_char_boundary(encode_utf8(a + b), encode_utf8(a).len() as int),
    decreases a.len(),
{
    encode_utf8_valid_utf8(a + b);
    if a.len() == 0 {
        assert(a + b =~= b);
        assert(encode_utf8(a) + encode_utf8(b) =~= encode_utf8(b));
    } else {
        let rest = a.drop_first();
        assert((a + b).drop_first() =~= rest + b);
        lemma_encoded_parts(rest, b);
        assert(encode_utf8(a + b) =~= encode_utf8(a) + encode_utf8(b));
        encode_utf8_first_scalar(a + b);
        assert(pop_first_scalar(encode_utf8(a + b)) =~= encode_utf8(rest + b));
        assert(encode_utf8(a).len() == encode_scalar(a[0] as u32).len() + encode_utf8(rest).len());
    }
}

/// A key of up to twenty bytes is shown whole. A longer one is shown as the characters
/// that take up its first twenty bytes, and dots, where there are such characters.
pub proof fn law_long_key_is_cut(text: Seq<char>, a: Seq<char>, b: Seq<char>)
    ensures
        encode_utf8(text).len() <= 20 ==> can_shorten(text) && shortened(text) == text,
        encode_utf8(a).len() == 20 && b.len() > 0 ==> can_shorten(a + b) && shortened(a + b) == a
            + "..."@,
        encode_utf8(text).len() > 20 && can_shorten(text) ==> exists|head: Seq<char>, rest: Seq<
            char,
        >| #[trigger]
            (head + rest) == text && encode_utf8(head).len() == 20 && shortened(text) == head
                + "..."@,
{
    if encode_utf8(a).len() == 20 && b.len() > 0 {
        lemma_encoded_parts(a, b);
        let bytes = encode_utf8(a + b);
        encode_utf8_first_scalar(b);
        assert(encode_utf8(b).len() > 0);
        assert(bytes.subrange(0, 20) =~= encode_utf8(a));
        encode_utf8_decode_utf8(a);
    }
    if encode_utf8(text).len() > 20 && can_shorten(text) {
        let bytes = encode_utf8(text);
        encode_utf8_valid_utf8(text);
        encode_utf8_decode_utf8(text);
        valid_utf8_split(bytes, 20);
        decode_utf8_split(bytes, 20);
        decode_utf8_encode_utf8(bytes.subrange(0, 20));
        let head = decode_utf8(bytes.subrange(0, 20));
        let rest = decode_utf8(bytes.subrange(20, bytes.len() as int));
        assert(head + rest == text);
    }
}

} // verus!
