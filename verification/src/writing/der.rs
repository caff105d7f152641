//! Framing contents into units, with lengths as DER wants them.
//!
//! A length under 128 is written as one octet. A longer one is written
//! as the count of its octets, with the high bit set, and then the number,
//! most significant octet first and without leading zeros. A unit can also be
//! written with its length left open: its contents are then closed by two
//! zero octets. That form is BER only.
//!
//! The sink is a byte vector. The writer only ever appends to it.

use crate::identifier::{Class, Identifier, UniversalTag};
use crate::reading;
use crate::reading::Asn1Length;
use crate::window::{lemma_lies_at_index, lemma_lies_at_split, lemma_lies_at_start, lies_at};
use vstd::prelude::*;

verus! {

/// `std::io::Error`, the standard library's error of an input or output
/// operation. It is carried through as it is: nothing is claimed of what
/// such a value holds.
#[verifier::external_type_specification]
#[verifier::external_body]
pub struct ExIoError(std::io::Error);

/// Why a unit could not be written.
#[derive(Debug)]
pub enum Error {
    /// Input or output failed while the contents were produced.
    Io(std::io::Error),
}

impl From<std::io::Error> for Error {
    fn from(e: std::io::Error) -> (error: Error) {
        Error::Io(e)
    }
}

impl vstd::std_specs::convert::FromSpecImpl<std::io::Error> for Error {
    open spec fn obeys_from_spec() -> bool {
        true
    }

    open spec fn from_spec(e: std::io::Error) -> Error {
        Error::Io(e)
    }
}

pub type Result<T> = std::result::Result<T, Error>;

/// The octets of `n` in base 256, most significant first, without leading
/// zeros. Zero has none.
pub open spec fn be_bytes(n: nat) -> Seq<u8>
    decreases n,
{
    if n == 0 {
        Seq::empty()
    } else {
        be_bytes(n / 256).push((n % 256) as u8)
    }
}

/// The length octets for a value of `n` octets.
pub open spec fn length_octets(n: nat) -> Seq<u8> {
    if n < 128 {
        seq![n as u8]
    } else {
        seq![(128 + be_bytes(n).len()) as u8] + be_bytes(n)
    }
}

/// The unit with the identifier `id` and the value `data`, its length given
/// up front.
pub open spec fn definite_unit(id: Identifier, data: Seq<u8>) -> Seq<u8> {
    id.spec_bytes() + length_octets(data.len()) + data
}

/// The octets that open a unit whose length is left open.
pub open spec fn indefinite_header(id: Identifier) -> Seq<u8> {
    id.spec_bytes() + seq![0x80u8]
}

/// The unit with the identifier `id` and the contents `content`, its length
/// left open.
pub open spec fn indefinite_unit(id: Identifier, content: Seq<u8>) -> Seq<u8> {
    indefinite_header(id) + content + seq![0u8, 0u8]
}

/// A number that fits into 64 bits has at most eight octets.
pub proof fn lemma_be_bytes_len(n: nat)
    requires
        n <= u64::MAX,
    ensures
        be_bytes(n).len() <= 8,
        n != 0 ==> be_bytes(n).len() >= 1,
{
    reveal_with_fuel(be_bytes, 10);
}

/// The octets of a number start with one that is not zero: a long length
/// is written without padding.
pub proof fn lemma_be_bytes_minimal(n: nat)
    requires
        n != 0,
    ensures
        be_bytes(n).len() >= 1,
        be_bytes(n)[0] != 0,
    decreases n,
{
    if n / 256 != 0 {
        lemma_be_bytes_minimal(n / 256);
    } else {
        assert(be_bytes(n / 256).len() == 0);
    }
}

/// The shape of the length octets: one octet for a length under 128, and
/// for a longer one the count of the octets that follow, with the high bit
/// set, and then the length without a leading zero octet.
pub proof fn lemma_length_octets_shape(n: nat)
    requires
        n <= u64::MAX,
    ensures
        n < 128 ==> length_octets(n) == seq![n as u8],
        n >= 128 ==> {
            &&& 2 <= length_octets(n).len() <= 9
            &&& length_octets(n)[0] == 128 + (length_octets(n).len() - 1)
            &&& length_octets(n)[1] != 0
        },
{
    if n >= 128 {
        lemma_be_bytes_len(n);
        lemma_be_bytes_minimal(n);
    }
}

/// The number that a reader holds after it held `acc` and then took in the
/// octets of `n`.
pub open spec fn shift_in_octets(acc: nat, n: nat) -> nat
    decreases n,
{
    if n == 0 {
        acc
    } else {
        shift_in_octets(acc, n / 256) * 256 + n % 256
    }
}

/// A reader that starts from zero ends up holding the number itself.
pub proof fn lemma_shift_in_octets_zero(n: nat)
    ensures
        shift_in_octets(0, n) == n,
    decreases n,
{
    if n != 0 {
        lemma_shift_in_octets_zero(n / 256);
    }
}

/// A reader that meets the octets of `n` in a long length takes them all in
/// and goes on behind them, as long as the length stays within `usize`.
pub proof fn lemma_long_length_be_bytes(s: Seq<u8>, pos: int, count: nat, acc: nat, n: nat)
    requires
        lies_at(s, pos, be_bytes(n)),
        shift_in_octets(acc, n) <= usize::MAX,
    ensures
        reading::long_length_at(s, pos, count + be_bytes(n).len(), acc) == reading::long_length_at(
            s,
            pos + be_bytes(n).len(),
            count,
            shift_in_octets(acc, n),
        ),
    decreases n,
{
    if n != 0 {
        let before = be_bytes(n / 256);
        let last = seq![(n % 256) as u8];
        assert(be_bytes(n) == before + last);
        lemma_lies_at_split(s, pos, before, last);
        lemma_long_length_be_bytes(s, pos, count + 1, acc, n / 256);
        lemma_lies_at_index(s, pos + before.len(), last, 0);
        assert(count + 1 + before.len() == count + be_bytes(n).len());
    }
}

/// The length octets for `n` are read back as the length `n`, wherever in a
/// buffer they lie.
pub proof fn lemma_length_round_trip(s: Seq<u8>, pos: int, n: nat)
    requires
        n <= usize::MAX,
        lies_at(s, pos, length_octets(n)),
    ensures
        reading::length_at(s, pos) == Ok::<(Asn1Length, int), reading::Error>(
            (Asn1Length::Definite(n as usize), pos + length_octets(n).len()),
        ),
{
    lemma_lies_at_index(s, pos, length_octets(n), 0);
    if n >= 128 {
        lemma_be_bytes_len(n);
        let first = seq![(128 + be_bytes(n).len()) as u8];
        lemma_lies_at_split(s, pos, first, be_bytes(n));
        lemma_shift_in_octets_zero(n);
        lemma_long_length_be_bytes(s, pos + 1, 0, 0, n);
    }
}

/// A unit with its length given up front is read back as it was written,
/// wherever in a buffer it lies: with its identifier and its value, and the
/// next unit starts right behind it.
pub proof fn lemma_definite_unit_at(s: Seq<u8>, pos: int, id: Identifier, data: Seq<u8>)
    requires
        data.len() <= usize::MAX,
        lies_at(s, pos, definite_unit(id, data)),
    ensures
        reading::tlv_at(s, pos) == Ok::<reading::Tlv, reading::Error>(
            reading::Tlv {
                id,
                length: Asn1Length::Definite(data.len() as usize),
                value: data,
                id_len: id.spec_bytes().len() as int,
                len_len: length_octets(data.len()).len() as int,
                next: pos + definite_unit(id, data).len(),
            },
        ),
{
    let head = id.spec_bytes() + length_octets(data.len());
    lemma_lies_at_split(s, pos, head, data);
    lemma_lies_at_split(s, pos, id.spec_bytes(), length_octets(data.len()));
    reading::lemma_identifier_round_trip(s, pos, id);
    lemma_length_round_trip(s, pos + id.spec_bytes().len(), data.len());
}

/// Written alone into a sink, a unit with its length given up front is read
/// back by an iterator as that one unit, and after it the iterator gives
/// nothing.
pub proof fn lemma_definite_round_trip(id: Identifier, data: Seq<u8>)
    requires
        data.len() <= usize::MAX,
    ensures
        reading::poll_nth(definite_unit(id, data), Some(0int), 0) matches Some(Ok(t)) && t.id
            == id && t.value == data && t.next == definite_unit(id, data).len(),
        reading::poll_nth(definite_unit(id, data), Some(0int), 1) is None,
{
    let s = definite_unit(id, data);
    lemma_lies_at_start(s);
    lemma_definite_unit_at(s, 0, id, data);
    reveal_with_fuel(reading::poll_nth, 2);
}

/// The contents can be told from what closes them: no zero octet in them is
/// followed by another, and their last octet is not zero.
pub open spec fn holds_no_end_marker(content: Seq<u8>) -> bool {
    forall|j: int|
        0 <= j < content.len() && #[trigger] content[j] == 0 ==> j + 1 < content.len() && content[j
            + 1] != 0
}

/// Where two zero octets stand at `end` and no two stand in a row from
/// `pos` up to there, a reader at `pos` finds the end of the contents at
/// `end`.
pub proof fn lemma_end_of_contents_found(s: Seq<u8>, pos: int, end: int)
    requires
        0 <= pos <= end,
        end + 1 < s.len(),
        s[end] == 0,
        s[end + 1] == 0,
        forall|j: int| pos <= j < end ==> !(#[trigger] s[j] == 0 && s[j + 1] == 0),
    ensures
        reading::end_of_contents(s, pos) == Some(end),
    decreases end - pos,
{
    if pos < end {
        lemma_end_of_contents_found(s, pos + 1, end);
    }
}

/// A unit with its length left open is read back as it was written,
/// wherever in a buffer it lies, if its contents can be told from what
/// closes them.
pub proof fn lemma_indefinite_unit_at(s: Seq<u8>, pos: int, id: Identifier, content: Seq<u8>)
    requires
        holds_no_end_marker(content),
        lies_at(s, pos, indefinite_unit(id, content)),
    ensures
        reading::tlv_at(s, pos) == Ok::<reading::Tlv, reading::Error>(
            reading::Tlv {
                id,
                length: Asn1Length::Indefinite,
                value: content,
                id_len: id.spec_bytes().len() as int,
                len_len: 1,
                next: pos + indefinite_unit(id, content).len(),
            },
        ),
{
    let open = seq![0x80u8];
    let close = seq![0u8, 0u8];
    let start = pos + id.spec_bytes().len() + 1;
    let end = start + content.len();
    assert(indefinite_unit(id, content) == (id.spec_bytes() + open) + (content + close));
    lemma_lies_at_split(s, pos, id.spec_bytes() + open, content + close);
    lemma_lies_at_split(s, pos, id.spec_bytes(), open);
    lemma_lies_at_split(s, start, content, close);
    reading::lemma_identifier_round_trip(s, pos, id);
    lemma_lies_at_index(s, pos + id.spec_bytes().len(), open, 0);
    lemma_lies_at_index(s, end, close, 0);
    lemma_lies_at_index(s, end, close, 1);
    assert forall|j: int| start <= j < end implies !(#[trigger] s[j] == 0 && s[j + 1] == 0) by {
        lemma_lies_at_index(s, start, content, j - start);
        if content[j - start] == 0 {
            lemma_lies_at_index(s, start, content, j - start + 1);
        }
    }
    lemma_end_of_contents_found(s, start, end);
}

/// Written alone into a sink, a unit with its length left open is read back
/// by an iterator as that one unit, and after it the iterator gives nothing,
/// if its contents can be told from what closes them.
///
/// Contents that end in a zero octet are not covered, even where they hold
/// no two zero octets in a row: the reader would take their last octet for
/// the first of the two that close them.
pub proof fn lemma_indefinite_round_trip(id: Identifier, content: Seq<u8>)
    requires
        holds_no_end_marker(content),
    ensures
        reading::poll_nth(indefinite_unit(id, content), Some(0int), 0) matches Some(Ok(t)) && t.id
            == id && t.value == content && t.next == indefinite_unit(id, content).len(),
        reading::poll_nth(indefinite_unit(id, content), Some(0int), 1) is None,
{
    let s = indefinite_unit(id, content);
    lemma_lies_at_start(s);
    lemma_indefinite_unit_at(s, 0, id, content);
    reveal_with_fuel(reading::poll_nth, 2);
}

fn append(out: &mut Vec<u8>, data: &[u8])
    ensures
        final(out)@ == old(out)@ + data@,
{
    out.extend_from_slice(data);
}

fn append_be_bytes(n: usize, out: &mut Vec<u8>)
    ensures
        final(out)@ == old(out)@ + be_bytes(n as nat),
    decreases n,
{
    if n != 0 {
        append_be_bytes(n / 256, out);
        out.push((n % 256) as u8);
    }
}

/// The length octets for a value of `len` octets, in the least number of
/// octets.
fn encode_length(len: usize) -> (octets: Vec<u8>)
    ensures
        octets@ == length_octets(len as nat),
        1 <= octets@.len() <= 9,
{
    if len < 128 {
        let mut len_buf = Vec::with_capacity(1);
        len_buf.push(len as u8);
        len_buf
    } else {
        let mut digits: Vec<u8> = Vec::new();
        append_be_bytes(len, &mut digits);
        proof {
            lemma_be_bytes_len(len as nat);
        }
        let count = digits.len() as u8;
        assert(0x80u8 | count == 128 + count) by (bit_vector)
            requires
                count <= 8,
        ;
        let mut len_buf = Vec::with_capacity(digits.len() + 1);
        len_buf.push(0x80u8 | count);
        append(&mut len_buf, digits.as_slice());
        len_buf
    }
}

/// A writer of units into a byte vector.
///
/// The writer borrows its sink. Each method states what the sink holds when
/// the method returns ([`Writer::bytes`]), and that the writer is still bound
/// to the vector it was made for: what that vector holds once the writer is
/// gone is what the writer's sink holds then.
pub struct Writer<'w> {
    /// The sink.
    pub w: &'w mut Vec<u8>,
}

impl<'w> Writer<'w> {
    /// What the sink holds.
    pub open spec fn bytes(&self) -> Seq<u8> {
        self.w@
    }

    /// A writer that appends to `w`.
    pub fn new(w: &'w mut Vec<u8>) -> (writer: Self)
        ensures
            writer.bytes() == old(w)@,
            final(writer.w)@ == final(w)@,
    {
        Writer { w: w }
    }

    /// Writes the unit with the identifier `tag` and the value `data`, its
    /// length given up front, and returns how many octets that took.
    pub fn write_tag_and_data(&mut self, tag: Identifier, data: &[u8]) -> (r: Result<usize>)
        ensures
            final(self).bytes() == old(self).bytes() + definite_unit(tag, data@),
            final(final(self).w)@ == final(old(self).w)@,
            r matches Ok(n) && n == definite_unit(tag, data@).len(),
    {
        let len = data.len();
        let len: Vec<u8> = encode_length(len);
        let tag_bytes = tag.to_bytes();
        append(self.w, tag_bytes.as_slice());
        append(self.w, len.as_slice());
        append(self.w, data);
        assert(self.w@.len() == self.w.len());
        Ok(tag_bytes.len() + len.len() + data.len())
    }

    /// Writes a boolean: the universal tag for it and one octet, `0xFF` for
    /// true and `0x00` for false.
    pub fn write_boolean(&mut self, v: bool) -> (r: Result<usize>)
        ensures
            final(self).bytes() == old(self).bytes() + seq![
                0x01u8,
                0x01u8,
                if v {
                    0xffu8
                } else {
                    0x00u8
                },
            ],
            final(final(self).w)@ == final(old(self).w)@,
            r matches Ok(n) && n == 3,
    {
        let octet: u8 = if v {
            0xff
        } else {
            0
        };
        let contents = [octet];
        let id = Identifier::new(Class::Universal, false, UniversalTag::Boolean.into());
        proof {
            assert(id.spec_bytes() == seq![0x01u8]);
        }
        self.write_tag_and_data(id, contents.as_slice())
    }

    /// Writes a unit with the identifier `tag` whose length is left open:
    /// the identifier, the octet `0x80`, whatever `f` writes through the
    /// handle it is given, and two zero octets. Returns how many octets that
    /// took.
    ///
    /// Where `f` fails, its error is handed on and the two zero octets are
    /// not written: the sink is left with what was written until then.
    pub fn write_indefinite_tag<F>(&mut self, tag: Identifier, f: F) -> (r: Result<usize>) where
        F: FnOnce(&mut IndeterminateLengthContentWriter) -> Result<()>,

        requires
            forall|h: &mut IndeterminateLengthContentWriter|
                h.bytes() == old(self).bytes() + indefinite_header(tag)
                    && h.unit_start() == old(self).bytes().len()
                    ==> #[trigger] call_requires(f, (h,)),
        ensures
            final(final(self).w)@ == final(old(self).w)@,
            exists|h: &mut IndeterminateLengthContentWriter, done: Result<()>|
                {
                    &&& h.bytes() == old(self).bytes() + indefinite_header(tag)
                    &&& h.unit_start() == old(self).bytes().len()
                    &&& #[trigger] call_ensures(f, (h,), done)
                    &&& match done {
                        Ok(()) => {
                            &&& final(self).bytes() == final(h).bytes() + seq![0u8, 0u8]
                            &&& r matches Ok(n)
                                && n == final(self).bytes().len() - final(h).unit_start()
                        },
                        Err(e) => {
                            &&& final(self).bytes() == final(h).bytes()
                            &&& r matches Err(handed_on) && handed_on == e
                        },
                    }
                },
    {
        let start = self.w.len();
        let tag_bytes = tag.to_bytes();
        append(self.w, tag_bytes.as_slice());
        self.w.push(0x80u8);

        let mut sink: Vec<u8> = Vec::new();
        std::mem::swap(&mut *self.w, &mut sink);
        let mut ilcw = IndeterminateLengthContentWriter { w: sink, start: start };
        assert(ilcw.bytes() == old(self).bytes() + indefinite_header(tag));
        assert(ilcw.unit_start() == old(self).bytes().len());
        let done = f(&mut ilcw);
        proof {
            use_type_invariant(&ilcw);
        }
        let IndeterminateLengthContentWriter { w: mut sink, start } = ilcw;
        std::mem::swap(&mut *self.w, &mut sink);
        match done {
            Ok(()) => {},
            Err(e) => return Err(e),
        }

        self.w.push(0u8);
        self.w.push(0u8);
        Ok(self.w.len() - start)
    }
}

/// The handle through which the contents of a unit with an open length are
/// written. It appends to the sink and can do nothing else to it.
pub struct IndeterminateLengthContentWriter {
    w: Vec<u8>,
    start: usize,
}

impl IndeterminateLengthContentWriter {
    #[verifier::type_invariant]
    spec fn well_formed(&self) -> bool {
        self.start <= self.w@.len()
    }

    /// What the sink holds.
    pub closed spec fn bytes(&self) -> Seq<u8> {
        self.w@
    }

    /// Where in the sink the unit under way starts.
    pub closed spec fn unit_start(&self) -> nat {
        self.start as nat
    }

    /// Appends `buf` to the contents.
    pub fn write(&mut self, buf: &[u8]) -> (r: Result<()>)
        ensures
            final(self).bytes() == old(self).bytes() + buf@,
            final(self).unit_start() == old(self).unit_start(),
            r is Ok,
    {
        // The vector is moved out while it grows, so that the handle is whole
        // at every moment.
        let mut taken = IndeterminateLengthContentWriter { w: Vec::new(), start: 0 };
        std::mem::swap(self, &mut taken);
        proof {
            use_type_invariant(&taken);
        }
        let IndeterminateLengthContentWriter { w: mut w, start } = taken;
        append(&mut w, buf);
        *self = IndeterminateLengthContentWriter { w: w, start: start };
        Ok(())
    }
}

} // verus!
