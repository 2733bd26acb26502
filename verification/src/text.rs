//! Text: what a message's bytes read as, lists of texts, and numbers in decimal.

use vstd::prelude::*;
use vstd::string::StringExecFns;
use vstd::utf8::{
    decode_utf8, decode_utf8_encode_utf8, encode_utf8, encode_utf8_decode_utf8,
    encode_utf8_valid_utf8, valid_utf8,
};

verus! {

/// What bytes that are not UTF-8 throughout read as when every part of them that is
/// not UTF-8 is replaced (`String::from_utf8_lossy`).
pub uninterp spec fn replaced_utf8(bytes: Seq<u8>) -> Seq<char>;

/// What bytes read as: the text that they encode, where they are UTF-8 throughout.
pub open spec fn utf8_lossy(bytes: Seq<u8>) -> Seq<char> {
    if valid_utf8(bytes) {
        decode_utf8(bytes)
    } else {
        replaced_utf8(bytes)
    }
}

/// `String::from_utf8_lossy`: bytes that are UTF-8 throughout read as the text that
/// they encode; the text of other bytes depends on them alone and shows a replacement
/// character. How many there are, and where, is not said.
#[verifier::external_body]
pub(crate) fn from_utf8_lossy(bytes: &[u8]) -> (text: String)
    ensures
        text@ == if valid_utf8(bytes@) {
            decode_utf8(bytes@)
        } else {
            replaced_utf8(bytes@)
        },
        !valid_utf8(bytes@) ==> text@.contains('\u{FFFD}'),
{
    String::from_utf8_lossy(bytes).into_owned()
}

/// Bytes read as a text without replacement characters where they encode it, and
/// nowhere else.
pub(crate) proof fn lemma_reads_as(bytes: Seq<u8>, wanted: Seq<char>)
    requires
        !valid_utf8(bytes) ==> utf8_lossy(bytes).contains('\u{FFFD}'),
        !wanted.contains('\u{FFFD}'),
    ensures
        utf8_lossy(bytes) == wanted <==> bytes == encode_utf8(wanted),
{
    encode_utf8_valid_utf8(wanted);
    encode_utf8_decode_utf8(wanted);
    if valid_utf8(bytes) {
        decode_utf8_encode_utf8(bytes);
    }
}

/// `String::push` puts one character behind the others.
pub assume_specification[ String::push ](s: &mut String, ch: char)
    ensures
        final(s)@ == old(s)@.push(ch),
;

/// The texts of a list.
pub open spec fn texts(list: Seq<String>) -> Seq<Seq<char>> {
    list.map_values(|s: String| s@)
}

/// Whether a text stands in a list.
pub(crate) fn lists(list: &[String], text: &str) -> (found: bool)
    ensures
        found == texts(list@).contains(text@),
{
    let wanted: String = text.to_owned();
    let mut i: usize = 0;
    while i < list.len()
        invariant
            i <= list@.len(),
            wanted@ == text@,
            forall|j: int| 0 <= j < i ==> list@[j]@ != text@,
        decreases list@.len() - i,
    {
        if list[i] == wanted {
            assert(texts(list@)[i as int] == text@);
            return true;
        }
        i = i + 1;
    }
    false
}

/// The text that there may be.
pub open spec fn text_of(text: Option<String>) -> Option<Seq<char>> {
    match text {
        Some(text) => Some(text@),
        None => None,
    }
}

/// Whether two texts are the same.
pub(crate) fn same_text(a: &str, b: &str) -> (same: bool)
    ensures
        same == (a@ == b@),
{
    a.to_owned() == b.to_owned()
}

/// The digit for a number below ten.
pub open spec fn decimal_digit(n: nat) -> char {
    (48 + n) as char
}

/// A number in decimal, without leading zeros.
pub open spec fn decimal(n: nat) -> Seq<char>
    decreases n,
{
    if n < 10 {
        seq![decimal_digit(n)]
    } else {
        decimal(n / 10).push(decimal_digit(n % 10))
    }
}

/// A number in decimal.
pub(crate) fn decimal_text(n: u64) -> (text: String)
    ensures
        text@ == decimal(n as nat),
    decreases n,
{
    let mut text: String = if n < 10 {
        String::new()
    } else {
        decimal_text(n / 10)
    };
    let digit: u8 = (n % 10) as u8;
    text.push((48 + digit) as char);
    assert(text@ =~= decimal(n as nat));
    text
}

/// Puts three texts one behind the other at the end of a fourth.
pub(crate) fn append_all(text: &mut String, a: &str, b: &str, c: &str)
    ensures
        final(text)@ == old(text)@ + a@ + b@ + c@,
{
    text.append(a);
    text.append(b);
    text.append(c);
}

/// The texts of a list are those of its members, each in its place.
pub proof fn law_texts_keep_place(list: Seq<String>, text: Option<String>)
    ensures
        texts(list).len() == list.len(),
        forall|i: int| 0 <= i < list.len() ==> #[trigger] texts(list)[i] == list[i]@,
        text_of(text) is Some <==> text is Some,
        text is Some ==> text_of(text) == Some(text->Some_0@),
{
}

/// Bytes that encode a text read as that text. Other bytes read as what the
/// replacement makes of them.
pub proof fn law_encoded_text_is_read(text: Seq<char>, bytes: Seq<u8>)
    ensures
        utf8_lossy(encode_utf8(text)) == text,
        !valid_utf8(bytes) ==> utf8_lossy(bytes) == replaced_utf8(bytes),
        valid_utf8(bytes) ==> encode_utf8(utf8_lossy(bytes)) == bytes,
{
    encode_utf8_valid_utf8(text);
    encode_utf8_decode_utf8(text);
    if valid_utf8(bytes) {
        decode_utf8_encode_utf8(bytes);
    }
}

/// A number in decimal has nothing but digits, no zero in front but where it is zero,
/// and the digits, each worth ten times the next, add up to the number.
pub proof fn law_decimal_adds_up(n: nat)
    ensures
        decimal(n).len() > 0,
        forall|i: int| 0 <= i < decimal(n).len() ==> '0' <= #[trigger] decimal(n)[i] <= '9',
        decimal(n)[0] == '0' <==> n == 0,
        n == 0 ==> decimal(n).len() == 1,
        decimal(n).fold_left(0int, |sum: int, c: char| sum * 10 + (c as int - '0' as int)) == n,
    decreases n,
{
    let worth = |sum: int, c: char| sum * 10 + (c as int - '0' as int);
    if n < 10 {
        reveal_with_fuel(Seq::fold_left, 2);
        assert(decimal(n).drop_last() =~= Seq::empty());
    } else {
        law_decimal_adds_up(n / 10);
        let head = decimal(n / 10);
        assert(decimal(n) =~= head.push(decimal_digit(n % 10)));
        assert(decimal(n).drop_last() =~= head);
        reveal_with_fuel(Seq::fold_left, 2);
        assert(decimal(n).fold_left(0int, worth) == worth(
            head.fold_left(0int, worth),
            decimal(n).last(),
        ));
        assert forall|i: int| 0 <= i < decimal(n).len() implies '0' <= #[trigger] decimal(n)[i]
            <= '9' by {
            if i < head.len() {
                assert(decimal(n)[i] == head[i]);
            }
        }
        assert(decimal(n)[0] == head[0]);
    }
}

} // verus!
