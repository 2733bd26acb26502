//! The texts by which a public key is named on the command line: its base64 form
//! and the hex digits of its MD5 fingerprint.

use base64::Engine;
use vstd::prelude::*;

verus! {

/// The character for six bits in the standard base64 alphabet.
pub open spec fn base64_symbol(v: int) -> char {
    if v < 26 {
        (65 + v) as char
    } else if v < 52 {
        (97 + v - 26) as char
    } else if v < 62 {
        (48 + v - 52) as char
    } else if v == 62 {
        '+'
    } else {
        '/'
    }
}

/// The byte at an index, or zero behind the end.
pub open spec fn byte_or_zero(bytes: Seq<u8>, i: int) -> int {
    if i < bytes.len() {
        bytes[i] as int
    } else {
        0
    }
}

/// The three bytes of group `g`, zeros behind the end, as one number.
pub open spec fn base64_group(bytes: Seq<u8>, g: int) -> int {
    byte_or_zero(bytes, 3 * g) * 0x1_0000 + byte_or_zero(bytes, 3 * g + 1) * 0x100 + byte_or_zero(
        bytes,
        3 * g + 2,
    )
}

/// Six bits out of the bytes, the `i`-th six from the front.
pub open spec fn base64_sextet(bytes: Seq<u8>, i: int) -> int {
    let group = base64_group(bytes, i / 4);
    if i % 4 == 0 {
        group / 0x4_0000
    } else if i % 4 == 1 {
        group / 0x1000 % 64
    } else if i % 4 == 2 {
        group / 64 % 64
    } else {
        group % 64
    }
}

/// How long the base64 form of `n` bytes is.
pub open spec fn base64_len(n: nat) -> nat {
    4 * ((n + 2) / 3)
}

/// The base64 form of bytes: one character for each six bits, then `=` up to a
/// multiple of four characters.
pub open spec fn base64_text(bytes: Seq<u8>) -> Seq<char> {
    Seq::new(
        base64_len(bytes.len()),
        |i: int|
            if 6 * i < 8 * bytes.len() {
                base64_symbol(base64_sextet(bytes, i))
            } else {
                '='
            },
    )
}

/// `encode` of the `base64` crate's standard engine: the standard alphabet, with
/// padding. It panics where a `String` cannot be that long.
#[verifier::external_body]
fn standard_base64(bytes: &[u8]) -> (text: String)
    requires
        base64_len(bytes@.len()) <= isize::MAX,
    ensures
        text@ == base64_text(bytes@),
{
    base64::prelude::BASE64_STANDARD.encode(bytes)
}

/// A public key in base64.
pub fn base64_encode(bytes: &[u8]) -> (text: String)
    requires
        base64_len(bytes@.len()) <= isize::MAX,
    ensures
        text@ == base64_text(bytes@),
{
    standard_base64(bytes)
}

/// The hex digit for four bits, in lower case.
pub open spec fn hex_digit(v: int) -> char {
    if v < 10 {
        (48 + v) as char
    } else {
        (97 + v - 10) as char
    }
}

/// Bytes in hex: two digits each, in lower case, the higher four bits first.
pub open spec fn hex_text(bytes: Seq<u8>) -> Seq<char> {
    Seq::new(
        2 * bytes.len(),
        |i: int|
            if i % 2 == 0 {
                hex_digit(bytes[i / 2] as int / 16)
            } else {
                hex_digit(bytes[i / 2] as int % 16)
            },
    )
}

/// `hex::encode`: two lower-case digits for each byte. It panics where a `String`
/// cannot be that long.
#[verifier::external_body]
fn hex_encode(bytes: &[u8]) -> (text: String)
    requires
        2 * bytes@.len() <= isize::MAX,
    ensures
        text@ == hex_text(bytes@),
{
    hex::encode(bytes)
}

/// The MD5 digest of bytes (`md5::compute`).
pub uninterp spec fn md5_digest(bytes: Seq<u8>) -> Seq<u8>;

/// `md5::compute`: sixteen bytes that depend on the input alone.
#[verifier::external_body]
fn md5_compute(bytes: &[u8]) -> (digest: [u8; 16])
    ensures
        digest@ == md5_digest(bytes@),
{
    md5::compute(bytes).0
}

/// The fingerprint of a public key: its MD5 digest in hex.
pub open spec fn md5_text(bytes: Seq<u8>) -> Seq<char> {
    hex_text(md5_digest(bytes))
}

/// The MD5 fingerprint of a public key in hex.
pub fn md5_hex(bytes: &[u8]) -> (text: String)
    ensures
        text@ == md5_text(bytes@),
        text@.len() == 32,
{
    let digest: [u8; 16] = md5_compute(bytes);
    hex_encode(digest.as_slice())
}

/// Whether a character is a hex digit, in either case.
pub open spec fn is_hex_digit(c: char) -> bool {
    ('0' <= c <= '9') || ('a' <= c <= 'f') || ('A' <= c <= 'F')
}

/// A character with an ASCII capital made small.
pub open spec fn lower_case(c: char) -> char {
    if 'A' <= c <= 'Z' {
        (c as int + 32) as char
    } else {
        c
    }
}

/// A fingerprint as it is compared: the hex digits alone, in lower case.
pub open spec fn canonical_fingerprint(s: Seq<char>) -> Seq<char> {
    s.filter(|c: char| is_hex_digit(c)).map_values(|c: char| lower_case(c))
}

/// Brings a fingerprint into the form in which it is compared.
pub fn canonicalize_fingerprint(s: &str) -> (text: String)
    ensures
        text@ == canonical_fingerprint(s@),
{
    let mut text: String = String::new();
    proof {
        assert(s@.take(0) =~= Seq::<char>::empty());
        reveal(Seq::filter);
        assert(text@ =~= canonical_fingerprint(s@.take(0)));
    }
    for c in it: s.chars()
        invariant
            it.seq() == s@,
            text@ == canonical_fingerprint(s@.take(it.index())),
    {
        let ghost i = it.index();
        proof {
            assert(s@.take(i + 1).drop_last() =~= s@.take(i));
            reveal(Seq::filter);
        }
        if ('0' <= c && c <= '9') || ('a' <= c && c <= 'f') {
            text.push(c);
        } else if 'A' <= c && c <= 'F' {
            let code: u8 = c as u8;
            text.push((code + 32) as char);
        }
        assert(text@ =~= canonical_fingerprint(s@.take(i + 1)));
    }
    assert(s@.take(s@.len() as int) =~= s@);
    text
}

/// The base64 form names one key: no other bytes have the same form.
pub proof fn law_base64_names_one_key(a: Seq<u8>, b: Seq<u8>)
    requires
        base64_text(a) == base64_text(b),
    ensures
        a == b,
{
    lemma_base64_len(a, b);
    assert forall|j: int| 0 <= j < a.len() implies a[j] == b[j] by {
        let g = j / 3;
        lemma_same_sextet(a, b, 4 * g);
        lemma_same_sextet(a, b, 4 * g + 1);
        lemma_same_sextet(a, b, 4 * g + 2);
        lemma_same_sextet(a, b, 4 * g + 3);
        lemma_group_of_sextets(a, g);
        lemma_group_of_sextets(b, g);
        lemma_bytes_of_group(a, j);
        lemma_bytes_of_group(b, j);
    }
    assert(a =~= b);
}

/// Four times six bits make up a group.
proof fn lemma_group_of_sextets(bytes: Seq<u8>, g: int)
    requires
        g >= 0,
    ensures
        base64_group(bytes, g) == base64_sextet(bytes, 4 * g) * 0x4_0000 + base64_sextet(
            bytes,
            4 * g + 1,
        ) * 0x1000 + base64_sextet(bytes, 4 * g + 2) * 64 + base64_sextet(bytes, 4 * g + 3),
{
    let w = base64_group(bytes, g);
    assert((4 * g) / 4 == g && (4 * g + 1) / 4 == g && (4 * g + 2) / 4 == g && (4 * g + 3) / 4
        == g);
    assert((4 * g) % 4 == 0 && (4 * g + 1) % 4 == 1 && (4 * g + 2) % 4 == 2 && (4 * g + 3) % 4
        == 3);
    lemma_six_bits(w);
}

/// A number made up of six bits at a time.
proof fn lemma_six_bits(w: int)
    ensures
        w == (w / 0x4_0000) * 0x4_0000 + (w / 0x1000 % 64) * 0x1000 + (w / 64 % 64) * 64 + w % 64,
{
    let w1 = w / 64;
    let w2 = w1 / 64;
    let w3 = w2 / 64;
    assert(w == 64 * w1 + w % 64);
    assert(w1 == 64 * w2 + w1 % 64);
    assert(w2 == 64 * w3 + w2 % 64);
    assert(w2 == w / 0x1000);
    assert(w3 == w / 0x4_0000);
}

/// A group holds its three bytes.
proof fn lemma_bytes_of_group(bytes: Seq<u8>, j: int)
    requires
        0 <= j < bytes.len(),
    ensures
        bytes[j] == if j % 3 == 0 {
            base64_group(bytes, j / 3) / 0x1_0000
        } else if j % 3 == 1 {
            base64_group(bytes, j / 3) / 0x100 % 0x100
        } else {
            base64_group(bytes, j / 3) % 0x100
        },
{
    let g = j / 3;
    let b0 = byte_or_zero(bytes, 3 * g);
    let b1 = byte_or_zero(bytes, 3 * g + 1);
    let b2 = byte_or_zero(bytes, 3 * g + 2);
    let w = b0 * 0x1_0000 + b1 * 0x100 + b2;
    assert(w / 0x1_0000 == b0);
    assert(w / 0x100 % 0x100 == b1);
    assert(w % 0x100 == b2);
}

/// The padding shows how many bytes a base64 form stands for.
proof fn lemma_base64_len(a: Seq<u8>, b: Seq<u8>)
    requires
        base64_text(a) == base64_text(b),
    ensures
        a.len() == b.len(),
{
    let ta = base64_text(a);
    let tb = base64_text(b);
    assert(ta.len() == base64_len(a.len()));
    assert(tb.len() == base64_len(b.len()));
    let m = (a.len() + 2) / 3;
    if m > 0 {
        lemma_symbol_range(a, 4 * m - 1);
        lemma_symbol_range(b, 4 * m - 1);
        lemma_symbol_range(a, 4 * m - 2);
        lemma_symbol_range(b, 4 * m - 2);
        assert(ta[4 * m - 1] == tb[4 * m - 1]);
        assert(ta[4 * m - 2] == tb[4 * m - 2]);
    }
}

/// A character of a base64 form is padding behind the last bits, and only there.
proof fn lemma_symbol_range(bytes: Seq<u8>, i: int)
    requires
        0 <= i < base64_len(bytes.len()),
    ensures
        0 <= base64_sextet(bytes, i) < 64,
        base64_text(bytes)[i] == '=' <==> 6 * i >= 8 * bytes.len(),
{
    let v = base64_sextet(bytes, i);
    assert(0 <= base64_group(bytes, i / 4) < 0x100_0000);
    assert(base64_symbol(v) != '=');
}

/// Where two base64 forms agree, so do the six bits behind the character.
proof fn lemma_same_sextet(a: Seq<u8>, b: Seq<u8>, i: int)
    requires
        base64_text(a) == base64_text(b),
        a.len() == b.len(),
        0 <= i < base64_len(a.len()),
    ensures
        base64_sextet(a, i) == base64_sextet(b, i),
        0 <= base64_sextet(a, i) < 64,
{
    lemma_symbol_range(a, i);
    lemma_symbol_range(b, i);
    let va = base64_sextet(a, i);
    let vb = base64_sextet(b, i);
    if 6 * i < 8 * a.len() {
        assert(base64_text(a)[i] == base64_text(b)[i]);
        assert(base64_symbol(va) == base64_symbol(vb));
    } else {
        assert(3 * (i / 4) + 2 >= a.len());
        if i % 4 == 2 {
            assert(3 * (i / 4) + 1 >= a.len());
        }
    }
}

/// Whether a character is a hex digit as the canonical form holds it.
pub open spec fn is_canonical_digit(c: char) -> bool {
    ('0' <= c <= '9') || ('a' <= c <= 'f')
}

/// The canonical form of a fingerprint holds nothing but lower-case hex digits.
pub proof fn law_canonical_digits(s: Seq<char>)
    ensures
        forall|i: int|
            0 <= i < canonical_fingerprint(s).len() ==> #[trigger] is_canonical_digit(
                canonical_fingerprint(s)[i],
            ),
{
    let kept = s.filter(|c: char| is_hex_digit(c));
    assert forall|i: int| 0 <= i < kept.len() implies #[trigger] is_canonical_digit(
        canonical_fingerprint(s)[i],
    ) by {
        s.lemma_filter_pred(|c: char| is_hex_digit(c), i);
        assert(is_hex_digit(kept[i]));
    }
}

/// What is in canonical form already stays as it is.
pub proof fn law_canonical_fixed(s: Seq<char>)
    requires
        forall|i: int| 0 <= i < s.len() ==> #[trigger] is_canonical_digit(s[i]),
    ensures
        canonical_fingerprint(s) == s,
    decreases s.len(),
{
    reveal(Seq::filter);
    if s.len() > 0 {
        let head = s.drop_last();
        assert forall|i: int| 0 <= i < head.len() implies #[trigger] is_canonical_digit(
            head[i],
        ) by {
            assert(is_canonical_digit(s[i]));
        }
        law_canonical_fixed(head);
        assert(is_canonical_digit(s[s.len() - 1]));
        assert(canonical_fingerprint(s) =~= canonical_fingerprint(head).push(s.last()));
    }
    assert(canonical_fingerprint(s) =~= s);
}

/// To bring a fingerprint into canonical form twice is to do it once.
pub proof fn law_canonical_idempotent(s: Seq<char>)
    ensures
        canonical_fingerprint(canonical_fingerprint(s)) == canonical_fingerprint(s),
{
    law_canonical_digits(s);
    law_canonical_fixed(canonical_fingerprint(s));
}

/// Two parts of a fingerprint are brought into canonical form each for itself.
pub proof fn law_canonical_parts(a: Seq<char>, b: Seq<char>)
    ensures
        canonical_fingerprint(a + b) == canonical_fingerprint(a) + canonical_fingerprint(b),
{
    Seq::filter_distributes_over_add(a, b, |c: char| is_hex_digit(c));
    assert(canonical_fingerprint(a + b) =~= canonical_fingerprint(a) + canonical_fingerprint(b));
}

/// A fingerprint as tools print it: pairs of digits with colons between them.
pub open spec fn colon_form(hex: Seq<char>) -> Seq<char>
    decreases hex.len(),
{
    if hex.len() <= 2 {
        hex
    } else {
        colon_form(hex.take(hex.len() - 2)) + seq![':'] + hex.skip(hex.len() - 2)
    }
}

/// A fingerprint with its letters in capitals.
pub open spec fn upper_form(s: Seq<char>) -> Seq<char> {
    s.map_values(|c: char| if 'a' <= c <= 'f' { (c as int - 32) as char } else { c })
}

/// Colons between the pairs of digits do not count.
pub proof fn law_colons_ignored(hex: Seq<char>)
    ensures
        canonical_fingerprint(colon_form(hex)) == canonical_fingerprint(hex),
    decreases hex.len(),
{
    if hex.len() > 2 {
        let head = hex.take(hex.len() - 2);
        let tail = hex.skip(hex.len() - 2);
        law_colons_ignored(head);
        law_canonical_parts(colon_form(head) + seq![':'], tail);
        law_canonical_parts(colon_form(head), seq![':']);
        reveal_with_fuel(Seq::filter, 2);
        assert(seq![':'].drop_last() =~= Seq::<char>::empty());
        assert(canonical_fingerprint(seq![':']) =~= Seq::<char>::empty());
        law_canonical_parts(head, tail);
        assert(head + tail =~= hex);
        assert(canonical_fingerprint(colon_form(hex)) =~= canonical_fingerprint(hex));
    }
}

/// Capitals count as small letters.
pub proof fn law_case_ignored(s: Seq<char>)
    ensures
        canonical_fingerprint(upper_form(s)) == canonical_fingerprint(s),
    decreases s.len(),
{
    reveal(Seq::filter);
    if s.len() > 0 {
        let head = s.drop_last();
        law_case_ignored(head);
        assert(upper_form(s).drop_last() =~= upper_form(head));
        assert(upper_form(s).last() == upper_form(seq![s.last()])[0]);
        if is_hex_digit(s.last()) {
            assert(canonical_fingerprint(s) =~= canonical_fingerprint(head).push(
                lower_case(s.last()),
            ));
            assert(canonical_fingerprint(upper_form(s)) =~= canonical_fingerprint(
                upper_form(head),
            ).push(lower_case(upper_form(s).last())));
        }
    } else {
        assert(upper_form(s) =~= s);
    }
}

/// The fingerprint that is computed of a key is in canonical form.
pub proof fn law_computed_fingerprint_canonical(key: Seq<u8>)
    ensures
        canonical_fingerprint(md5_text(key)) == md5_text(key),
{
    let s = md5_text(key);
    assert forall|i: int| 0 <= i < s.len() implies #[trigger] is_canonical_digit(s[i]) by {
        assert(0 <= md5_digest(key)[i / 2] as int / 16 < 16);
        assert(0 <= md5_digest(key)[i / 2] as int % 16 < 16);
    }
    law_canonical_fixed(s);
}

/// Of a single character the canonical form keeps a hex digit, in lower case, and
/// nothing else.
pub proof fn law_canonical_character(c: char)
    ensures
        canonical_fingerprint(seq![c]) == if ('0' <= c <= '9') || ('a' <= c <= 'f') {
            seq![c]
        } else if 'A' <= c <= 'F' {
            seq![(c as int - 'A' as int + 'a' as int) as char]
        } else {
            Seq::empty()
        },
        canonical_fingerprint(Seq::empty()) == Seq::<char>::empty(),
{
    reveal_with_fuel(Seq::filter, 2);
    assert(seq![c].drop_last() =~= Seq::empty());
    assert(canonical_fingerprint(Seq::empty()) =~= Seq::empty());
    assert(canonical_fingerprint(seq![c]) =~= if ('0' <= c <= '9') || ('a' <= c <= 'f') {
        seq![c]
    } else if 'A' <= c <= 'F' {
        seq![(c as int - 'A' as int + 'a' as int) as char]
    } else {
        Seq::empty()
    });
}

/// A fingerprint has two hex digits for each byte of the digest of the whole key, the
/// one for the higher four bits first.
pub proof fn law_fingerprint_shows_digest(key: Seq<u8>, i: int)
    requires
        0 <= i < md5_digest(key).len(),
    ensures
        md5_text(key).len() == 2 * md5_digest(key).len(),
        md5_text(key)[2 * i] == "0123456789abcdef"@[md5_digest(key)[i] as int / 16],
        md5_text(key)[2 * i + 1] == "0123456789abcdef"@[md5_digest(key)[i] as int % 16],
{
    reveal_strlit("0123456789abcdef");
    assert((2 * i) % 2 == 0 && (2 * i) / 2 == i && (2 * i + 1) % 2 == 1 && (2 * i + 1) / 2 == i);
}

/// The character for six bits stands at that place in the alphabet.
proof fn lemma_symbol_in_alphabet(v: int)
    requires
        0 <= v < 64,
    ensures
        base64_symbol(v)
            == "ABCDEFGHIJKLMNOPQRSTUVWXYZabcdefghijklmnopqrstuvwxyz0123456789+/"@[v],
{
    reveal_strlit("ABCDEFGHIJKLMNOPQRSTUVWXYZabcdefghijklmnopqrstuvwxyz0123456789+/");
}

/// In base64 every three bytes are four characters of the alphabet, six bits each, and
/// one or two bytes at the end are two or three characters and padding.
pub proof fn law_base64_layout(bytes: Seq<u8>, g: int)
    requires
        0 <= 3 * g < bytes.len(),
    ensures
        ({
            let alphabet = "ABCDEFGHIJKLMNOPQRSTUVWXYZabcdefghijklmnopqrstuvwxyz0123456789+/"@;
            let text = base64_text(bytes);
            let left = bytes.len() - 3 * g;
            let b0 = bytes[3 * g] as int;
            let b1 = if left > 1 {
                bytes[3 * g + 1] as int
            } else {
                0
            };
            let b2 = if left > 2 {
                bytes[3 * g + 2] as int
            } else {
                0
            };
            &&& text.len() == 4 * ((bytes.len() + 2) / 3)
            &&& text[4 * g] == alphabet[b0 / 4]
            &&& text[4 * g + 1] == alphabet[b0 % 4 * 16 + b1 / 16]
            &&& text[4 * g + 2] == if left > 1 {
                alphabet[b1 % 16 * 4 + b2 / 64]
            } else {
                '='
            }
            &&& text[4 * g + 3] == if left > 2 {
                alphabet[b2 % 64]
            } else {
                '='
            }
        }),
{
    let b0 = byte_or_zero(bytes, 3 * g);
    let b1 = byte_or_zero(bytes, 3 * g + 1);
    let b2 = byte_or_zero(bytes, 3 * g + 2);
    let w = base64_group(bytes, g);
    assert((4 * g) / 4 == g && (4 * g + 1) / 4 == g && (4 * g + 2) / 4 == g && (4 * g + 3) / 4
        == g);
    assert((4 * g) % 4 == 0 && (4 * g + 1) % 4 == 1 && (4 * g + 2) % 4 == 2 && (4 * g + 3) % 4
        == 3);
    lemma_sextets_of_bytes(b0, b1, b2);
    lemma_symbol_in_alphabet(b0 / 4);
    lemma_symbol_in_alphabet(b0 % 4 * 16 + b1 / 16);
    lemma_symbol_in_alphabet(b1 % 16 * 4 + b2 / 64);
    lemma_symbol_in_alphabet(b2 % 64);
}

/// The six bits that a group of three bytes has at each place.
proof fn lemma_sextets_of_bytes(b0: int, b1: int, b2: int)
    requires
        0 <= b0 < 256,
        0 <= b1 < 256,
        0 <= b2 < 256,
    ensures
        ({
            let w = b0 * 0x1_0000 + b1 * 0x100 + b2;
            &&& w / 0x4_0000 == b0 / 4
            &&& w / 0x1000 % 64 == b0 % 4 * 16 + b1 / 16
            &&& w / 64 % 64 == b1 % 16 * 4 + b2 / 64
            &&& w % 64 == b2 % 64
        }),
{
    let w = b0 * 0x1_0000 + b1 * 0x100 + b2;
    let (h0, l0) = (b0 / 4, b0 % 4);
    let (h1, l1) = (b1 / 16, b1 % 16);
    let (h2, l2) = (b2 / 64, b2 % 64);
    let x1 = l0 * 16 + h1;
    let x2 = l1 * 4 + h2;
    assert(w == h0 * 0x4_0000 + x1 * 0x1000 + x2 * 64 + l2);
    assert(w / 64 == h0 * 0x1000 + x1 * 64 + x2);
    assert(w / 0x1000 == h0 * 64 + x1);
}

} // verus!
