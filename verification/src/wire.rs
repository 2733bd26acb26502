//! The binary encoding of agent messages: big-endian integers and byte strings
//! that carry their length in front.

use vstd::prelude::*;
use vstd::slice::slice_subrange;

verus! {

/// The number that a sequence of bytes stands for, most significant byte first.
pub open spec fn be_value(s: Seq<u8>) -> nat
    decreases s.len(),
{
    if s.len() == 0 {
        0
    } else {
        be_value(s.drop_last()) * 256 + s.last() as nat
    }
}

/// The lowest `width` bytes of `n`, most significant byte first.
pub open spec fn be_bytes(n: nat, width: nat) -> Seq<u8>
    decreases width,
{
    if width == 0 {
        Seq::empty()
    } else {
        be_bytes(n / 256, (width - 1) as nat).push((n % 256) as u8)
    }
}

/// A byte string as it stands in a message: its length in four bytes, then the bytes.
pub open spec fn string_field(val: Seq<u8>) -> Seq<u8> {
    be_bytes(val.len(), 4) + val
}

/// The first byte of `s` and what follows it.
pub open spec fn take_u8(s: Seq<u8>) -> Option<(u8, Seq<u8>)> {
    if s.len() < 1 {
        None
    } else {
        Some((s[0], s.skip(1)))
    }
}

/// The number in the first four bytes of `s` and what follows them.
pub open spec fn take_u32(s: Seq<u8>) -> Option<(nat, Seq<u8>)> {
    if s.len() < 4 {
        None
    } else {
        Some((be_value(s.take(4)), s.skip(4)))
    }
}

/// The number in the first eight bytes of `s` and what follows them.
pub open spec fn take_u64(s: Seq<u8>) -> Option<(nat, Seq<u8>)> {
    if s.len() < 8 {
        None
    } else {
        Some((be_value(s.take(8)), s.skip(8)))
    }
}

/// The byte string at the front of `s` and what follows it.
pub open spec fn take_string(s: Seq<u8>) -> Option<(Seq<u8>, Seq<u8>)> {
    match take_u32(s) {
        None => None,
        Some((len, body)) => if body.len() < len {
            None
        } else {
            Some((body.take(len as int), body.skip(len as int)))
        },
    }
}

/// What is left of `s` after an attempt to take a byte string from it failed:
/// the length is gone where there was one.
pub open spec fn after_failed_string(s: Seq<u8>) -> Seq<u8> {
    if s.len() < 4 {
        s
    } else {
        s.skip(4)
    }
}

/// What a reader reports when a field goes beyond the end of the data.
pub const UNEXPECTED_END: &'static str = "unexpected end of buffer";

/// Reads fields one after the other from a block of bytes. Its view is the bytes
/// that have not been read.
pub struct BufferReader<'a> {
    data: &'a [u8],
    offset: usize,
}

impl<'a> View for BufferReader<'a> {
    type V = Seq<u8>;

    closed spec fn view(&self) -> Seq<u8> {
        self.data@.skip(self.offset as int)
    }
}

impl<'a> BufferReader<'a> {
    #[verifier::type_invariant]
    spec fn within_data(self) -> bool {
        self.offset <= self.data@.len()
    }

    /// A reader that stands at the front of `data`.
    pub fn new(data: &'a [u8]) -> (reader: Self)
        ensures
            reader@ == data@,
    {
        let reader = Self { data, offset: 0 };
        assert(data@.skip(0) =~= data@);
        reader
    }

    /// Reads one byte.
    pub fn read_u8(&mut self) -> (res: Result<u8, &'static str>)
        ensures
            match take_u8(old(self)@) {
                Some((val, rest)) => res == Ok::<u8, &'static str>(val) && final(self)@ == rest,
                None => res is Err && res->Err_0@ == UNEXPECTED_END@ && final(self)@ == old(self)@,
            },
    {
        proof {
            use_type_invariant(&*self);
        }
        if self.data.len() - self.offset < 1 {
            return Err(UNEXPECTED_END);
        }
        let val: u8 = self.data[self.offset];
        self.offset = self.offset + 1;
        assert(self@ =~= old(self)@.skip(1));
        Ok(val)
    }

    /// Reads four bytes as a number.
    pub fn read_u32(&mut self) -> (res: Result<u32, &'static str>)
        ensures
            match take_u32(old(self)@) {
                Some((val, rest)) => res is Ok && res->Ok_0 == val && final(self)@ == rest,
                None => res is Err && res->Err_0@ == UNEXPECTED_END@ && final(self)@ == old(self)@,
            },
    {
        proof {
            use_type_invariant(&*self);
        }
        if self.data.len() - self.offset < 4 {
            return Err(UNEXPECTED_END);
        }
        let val: u32 = be_u32(slice_subrange(self.data, self.offset, self.offset + 4));
        assert(self.data@.subrange(self.offset as int, self.offset + 4) =~= self@.take(4));
        self.offset = self.offset + 4;
        assert(self@ =~= old(self)@.skip(4));
        Ok(val)
    }

    /// Reads eight bytes as a number.
    pub fn read_u64(&mut self) -> (res: Result<u64, &'static str>)
        ensures
            match take_u64(old(self)@) {
                Some((val, rest)) => res is Ok && res->Ok_0 == val && final(self)@ == rest,
                None => res is Err && res->Err_0@ == UNEXPECTED_END@ && final(self)@ == old(self)@,
            },
    {
        proof {
            use_type_invariant(&*self);
        }
        if self.data.len() - self.offset < 8 {
            return Err(UNEXPECTED_END);
        }
        let high: u32 = be_u32(slice_subrange(self.data, self.offset, self.offset + 4));
        let low: u32 = be_u32(slice_subrange(self.data, self.offset + 4, self.offset + 8));
        proof {
            let s = self@.take(8);
            assert(self.data@.subrange(self.offset as int, self.offset + 4) =~= s.take(4));
            assert(self.data@.subrange(self.offset + 4, self.offset + 8) =~= s.skip(4));
            lemma_be_value_concat(s.take(4), s.skip(4));
            assert(s.take(4) + s.skip(4) =~= s);
            lemma_four_bytes();
        }
        self.offset = self.offset + 8;
        assert(self@ =~= old(self)@.skip(8));
        Ok(high as u64 * 0x1_0000_0000 + low as u64)
    }

    /// Reads a byte string. Where the length is there and the bytes are not, the
    /// length has been read all the same.
    pub fn read_string(&mut self) -> (res: Result<&'a [u8], &'static str>)
        ensures
            match take_string(old(self)@) {
                Some((val, rest)) => res is Ok && res->Ok_0@ == val && final(self)@ == rest,
                None => res is Err && res->Err_0@ == UNEXPECTED_END@ && final(self)@
                    == after_failed_string(old(self)@),
            },
    {
        let len: u32 = match self.read_u32() {
            Ok(len) => len,
            Err(e) => {
                return Err(e);
            },
        };
        proof {
            use_type_invariant(&*self);
        }
        let left: usize = self.data.len() - self.offset;
        if (left as u64) < (len as u64) {
            return Err(UNEXPECTED_END);
        }
        let start: usize = self.offset;
        let end: usize = start + len as usize;
        let ghost body = self@;
        let val = slice_subrange(self.data, start, end);
        assert(val@ =~= body.take(len as int));
        self.offset = end;
        assert(self@ =~= body.skip(len as int));
        Ok(val)
    }
}

/// The number in four bytes.
fn be_u32(s: &[u8]) -> (val: u32)
    requires
        s@.len() == 4,
    ensures
        val == be_value(s@),
{
    reveal_with_fuel(be_value, 5);
    s[0] as u32 * 0x100_0000 + s[1] as u32 * 0x1_0000 + s[2] as u32 * 0x100 + s[3] as u32
}

/// Collects the fields of a message. Its view is the bytes written.
pub struct BufferWriter {
    data: Vec<u8>,
}

impl View for BufferWriter {
    type V = Seq<u8>;

    closed spec fn view(&self) -> Seq<u8> {
        self.data@
    }
}

impl BufferWriter {
    /// A writer that holds nothing yet.
    pub fn new() -> (writer: Self)
        ensures
            writer@ == Seq::<u8>::empty(),
    {
        Self { data: Vec::new() }
    }

    /// Writes one byte.
    pub fn write_u8(&mut self, val: u8)
        ensures
            final(self)@ == old(self)@.push(val),
    {
        self.data.push(val);
    }

    /// Writes a number in four bytes.
    pub fn write_u32(&mut self, val: u32)
        ensures
            final(self)@ == old(self)@ + be_bytes(val as nat, 4),
    {
        self.data.push((val / 0x100_0000) as u8);
        self.data.push((val / 0x1_0000 % 0x100) as u8);
        self.data.push((val / 0x100 % 0x100) as u8);
        self.data.push((val % 0x100) as u8);
        reveal_with_fuel(be_bytes, 5);
        assert(self@ =~= old(self)@ + be_bytes(val as nat, 4));
    }

    /// Writes a byte string. Of its length the lowest four bytes are written.
    pub fn write_string(&mut self, val: &[u8])
        ensures
            final(self)@ == old(self)@ + string_field(val@),
    {
        let len: usize = val.len();
        let low: u32 = (len as u64 % 0x1_0000_0000) as u32;
        self.write_u32(low);
        proof {
            lemma_be_bytes_low(len as nat);
        }
        self.data.extend_from_slice(val);
        assert(self@ =~= old(self)@ + string_field(val@));
    }

    /// The bytes written.
    pub fn into_inner(self) -> (data: Vec<u8>)
        ensures
            data@ == self@,
    {
        self.data
    }
}

/// Four bytes hold a number below 2^32.
pub(crate) proof fn lemma_four_bytes()
    ensures
        forall|s: Seq<u8>| s.len() == 4 ==> #[trigger] be_value(s) < 0x1_0000_0000,
{
    assert forall|s: Seq<u8>| s.len() == 4 implies #[trigger] be_value(s) < 0x1_0000_0000 by {
        reveal_with_fuel(be_value, 5);
    }
}

/// Four bytes below others weigh 2^32 times less.
proof fn lemma_be_value_concat(a: Seq<u8>, b: Seq<u8>)
    requires
        b.len() == 4,
    ensures
        be_value(a + b) == be_value(a) * 0x1_0000_0000 + be_value(b),
{
    reveal_with_fuel(be_value, 5);
    let s = a + b;
    assert(s.drop_last() =~= a + b.drop_last());
    let s1 = a + b.drop_last();
    assert(s1.drop_last() =~= a + b.drop_last().drop_last());
    let s2 = a + b.drop_last().drop_last();
    assert(s2.drop_last() =~= a + b.drop_last().drop_last().drop_last());
    let s3 = a + b.drop_last().drop_last().drop_last();
    assert(s3.drop_last() =~= a);
}

/// The lowest four bytes of a number are those of its remainder modulo 2^32.
pub(crate) proof fn lemma_be_bytes_low(n: nat)
    ensures
        be_bytes(n % 0x1_0000_0000, 4) == be_bytes(n, 4),
{
    let q = n / 0x1_0000_0000;
    let m = n % 0x1_0000_0000;
    assert(n == q * 0x1_0000_0000 + m);
    assert(n / 256 == q * 0x100_0000 + m / 256);
    assert(n / 256 / 256 == q * 0x1_0000 + m / 256 / 256);
    assert(n / 256 / 256 / 256 == q * 0x100 + m / 256 / 256 / 256);
    lemma_be_bytes_4(n);
    lemma_be_bytes_4(m);
}

/// The four bytes of a number, written out.
proof fn lemma_be_bytes_4(n: nat)
    ensures
        be_bytes(n, 4) =~= seq![
            (n / 256 / 256 / 256 % 256) as u8,
            (n / 256 / 256 % 256) as u8,
            (n / 256 % 256) as u8,
            (n % 256) as u8,
        ],
{
    reveal_with_fuel(be_bytes, 5);
}

/// A number below 2^32 that was written in four bytes is read back, and nothing
/// of what follows it is read.
pub proof fn law_u32_read_back(n: nat, rest: Seq<u8>)
    requires
        n < 0x1_0000_0000,
    ensures
        take_u32(be_bytes(n, 4) + rest) == Some((n, rest)),
{
    lemma_be_bytes_4(n);
    let b = be_bytes(n, 4);
    assert((b + rest).take(4) =~= b);
    assert((b + rest).skip(4) =~= rest);
    reveal_with_fuel(be_value, 5);
}

/// Four bytes are what the number that they stand for is written as.
proof fn lemma_u32_written_back(s: Seq<u8>)
    requires
        s.len() == 4,
    ensures
        be_bytes(be_value(s), 4) == s,
{
    let n = be_value(s);
    lemma_be_value_4(s);
    lemma_be_bytes_4(n);
    assert(n / 256 == s[0] * 0x1_0000 + s[1] * 0x100 + s[2]);
    assert(n / 256 / 256 == s[0] * 0x100 + s[1]);
    assert(n / 256 / 256 / 256 == s[0]);
    assert(be_bytes(n, 4) =~= s);
}

/// A byte string that was written is read back, and nothing of what follows it is
/// read, where four bytes hold its length.
pub proof fn law_string_read_back(val: Seq<u8>, rest: Seq<u8>)
    requires
        val.len() < 0x1_0000_0000,
    ensures
        take_string(string_field(val) + rest) == Some((val, rest)),
{
    law_u32_read_back(val.len(), val + rest);
    assert(string_field(val) + rest =~= be_bytes(val.len(), 4) + (val + rest));
    assert((val + rest).take(val.len() as int) =~= val);
    assert((val + rest).skip(val.len() as int) =~= rest);
}

/// A byte string that was read, written again, gives the bytes that it was read
/// from, and four bytes hold its length.
pub proof fn law_string_written_back(s: Seq<u8>)
    ensures
        take_string(s) matches Some((val, rest)) ==> {
            &&& val.len() < 0x1_0000_0000
            &&& string_field(val) + rest == s
        },
{
    if let Some((val, rest)) = take_string(s) {
        lemma_four_bytes();
        lemma_u32_written_back(s.take(4));
        assert(val.len() == be_value(s.take(4)));
        assert(string_field(val) + rest =~= s);
    }
}

/// Numbers in messages stand with their most significant byte first, and are taken
/// from the front with nothing of what follows.
pub proof fn law_numbers_are_big_endian(
    b0: u8,
    b1: u8,
    b2: u8,
    b3: u8,
    b4: u8,
    b5: u8,
    b6: u8,
    b7: u8,
    rest: Seq<u8>,
)
    ensures
        take_u8(seq![b0] + rest) == Some((b0, rest)),
        take_u32(seq![b0, b1, b2, b3] + rest) == Some(
            ((b0 * 0x100_0000 + b1 * 0x1_0000 + b2 * 0x100 + b3) as nat, rest),
        ),
        take_u64(seq![b0, b1, b2, b3, b4, b5, b6, b7] + rest) == Some(
            (
                ((b0 * 0x100_0000 + b1 * 0x1_0000 + b2 * 0x100 + b3) * 0x1_0000_0000 + (b4
                    * 0x100_0000 + b5 * 0x1_0000 + b6 * 0x100 + b7)) as nat,
                rest,
            ),
        ),
        be_value(seq![b0, b1, b2, b3]) == b0 * 0x100_0000 + b1 * 0x1_0000 + b2 * 0x100 + b3,
{
    let four = seq![b0, b1, b2, b3];
    let low = seq![b4, b5, b6, b7];
    let eight = seq![b0, b1, b2, b3, b4, b5, b6, b7];
    assert((seq![b0] + rest).skip(1) =~= rest);
    assert((four + rest).take(4) =~= four);
    assert((four + rest).skip(4) =~= rest);
    assert((eight + rest).take(8) =~= eight);
    assert((eight + rest).skip(8) =~= rest);
    assert(eight =~= four + low);
    lemma_be_value_4(four);
    lemma_be_value_4(low);
    lemma_be_value_concat(four, low);
}

/// The number in four bytes, written out.
proof fn lemma_be_value_4(s: Seq<u8>)
    requires
        s.len() == 4,
    ensures
        be_value(s) == s[0] * 0x100_0000 + s[1] * 0x1_0000 + s[2] * 0x100 + s[3],
{
    reveal_with_fuel(be_value, 5);
}

/// Where there are too few bytes for a number, none is taken.
pub proof fn law_cut_number_is_not_taken(s: Seq<u8>)
    ensures
        take_u8(s) is None <==> s.len() < 1,
        take_u32(s) is None <==> s.len() < 4,
        take_u64(s) is None <==> s.len() < 8,
{
}

/// A number is written in four bytes, the most significant first, and a byte string
/// as its length and its bytes.
pub proof fn law_fields_are_big_endian(n: nat, val: Seq<u8>)
    requires
        n < 0x1_0000_0000,
        val.len() < 0x1_0000_0000,
    ensures
        be_bytes(n, 4) == seq![
            (n / 0x100_0000) as u8,
            (n / 0x1_0000 % 0x100) as u8,
            (n / 0x100 % 0x100) as u8,
            (n % 0x100) as u8,
        ],
        string_field(val) == seq![
            (val.len() / 0x100_0000) as u8,
            (val.len() / 0x1_0000 % 0x100) as u8,
            (val.len() / 0x100 % 0x100) as u8,
            (val.len() % 0x100) as u8,
        ] + val,
{
    lemma_be_bytes_4(n);
    lemma_be_bytes_4(val.len());
}

/// A byte string is taken where as many bytes as its length says follow the length,
/// and only there. Otherwise the length alone is gone, where it is there.
pub proof fn law_strings_are_taken_whole(s: Seq<u8>)
    ensures
        s.len() < 4 ==> take_string(s) is None && after_failed_string(s) == s,
        s.len() >= 4 ==> {
            let n = s[0] * 0x100_0000 + s[1] * 0x1_0000 + s[2] * 0x100 + s[3];
            &&& s.len() - 4 < n ==> take_string(s) is None
            &&& s.len() - 4 >= n ==> take_string(s) == Some((s.subrange(4, 4 + n), s.skip(4 + n)))
            &&& after_failed_string(s) == s.skip(4)
        },
{
    if s.len() >= 4 {
        lemma_be_value_4(s.take(4));
        let n = be_value(s.take(4)) as int;
        if s.len() - 4 >= n {
            assert(s.skip(4).take(n) =~= s.subrange(4, 4 + n));
            assert(s.skip(4).skip(n) =~= s.skip(4 + n));
        }
    }
}

/// A byte string that is cut short anywhere is not taken, and one that is cut behind
/// its end is taken as before.
pub(crate) proof fn lemma_string_cut(s: Seq<u8>, n: int)
    requires
        0 <= n <= s.len(),
    ensures
        take_string(s) matches Some((val, rest)) ==> {
            let used = 4 + val.len();
            &&& s.len() == used + rest.len()
            &&& n < used ==> take_string(s.take(n)) is None
            &&& n >= used ==> take_string(s.take(n)) == Some((val, rest.take(n - used)))
        },
{
    if let Some((val, rest)) = take_string(s) {
        let used = 4 + val.len();
        if n >= 4 {
            assert(s.take(n).take(4) =~= s.take(4));
            if n >= used {
                assert(s.take(n).skip(4).take(val.len() as int) =~= val);
                assert(s.take(n).skip(4).skip(val.len() as int) =~= rest.take(n - used));
            }
        }
    }
}

/// A number that was written in two halves of four bytes is read back.
pub(crate) proof fn lemma_u64_read_back(high: nat, low: nat, rest: Seq<u8>)
    requires
        high < 0x1_0000_0000,
        low < 0x1_0000_0000,
    ensures
        take_u64(be_bytes(high, 4) + (be_bytes(low, 4) + rest)) == Some(
            (high * 0x1_0000_0000 + low, rest),
        ),
        be_bytes(high, 4).len() == 4,
        be_bytes(low, 4).len() == 4,
{
    let h = be_bytes(high, 4);
    let l = be_bytes(low, 4);
    let s = h + (l + rest);
    lemma_be_bytes_4(high);
    lemma_be_bytes_4(low);
    law_u32_read_back(high, Seq::empty());
    law_u32_read_back(low, Seq::empty());
    assert((h + Seq::<u8>::empty()).take(4) =~= h);
    assert((l + Seq::<u8>::empty()).take(4) =~= l);
    assert(s.take(8) =~= h + l);
    assert(s.skip(8) =~= rest);
    lemma_be_value_concat(h, l);
}

/// A byte string is four bytes longer in a message.
pub(crate) proof fn lemma_string_field_len(val: Seq<u8>)
    ensures
        string_field(val).len() == 4 + val.len(),
{
    lemma_be_bytes_4(val.len());
}

} // verus!
