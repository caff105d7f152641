//! Reading a buffer as a run of tag-length-value units.
//!
//! A unit is its identifier octets, its length octets and its value. The
//! length is given up front (in one octet when it is under 128, else as a
//! count of octets and then the number, most significant octet first), or it
//! is left open and the value runs up to two zero octets.
//!
//! The reader copies nothing: a value is handed out as a window of the
//! buffer. The value of a constructed unit is again a run of units, to be
//! read with a reader of its own.
//!
//! An open-ended value is taken to stop at the first two zero octets in a
//! row, wherever they stand. That is the end of the value only if the value
//! holds no such pair of its own.

use crate::base128;
use crate::identifier::{Class, Identifier};
use crate::window::{lemma_lies_at_index, lemma_lies_at_split, lies_at};
use vstd::prelude::*;

verus! {

/// Why a buffer could not be read as a unit.
#[derive(Copy, Clone, Debug, PartialEq, Eq, Structural, Hash)]
pub enum Error {
    /// The buffer ends inside the unit.
    UnexpectedEndOfData,
    /// The tag number does not fit into 64 bits.
    InvalidTag,
    /// The length does not fit into a `usize`.
    LengthOverflow,
}

impl Error {
    /// The words for the error.
    pub open spec fn spec_description(self) -> Seq<char> {
        match self {
            Error::UnexpectedEndOfData => "unexpected endofdata"@,
            Error::InvalidTag => "invalid tag"@,
            Error::LengthOverflow => "length overflow"@,
        }
    }

    /// A short text that names the error.
    pub fn description(&self) -> (text: &'static str)
        ensures
            text@ == self.spec_description(),
    {
        match self {
            Error::UnexpectedEndOfData => "unexpected endofdata",
            Error::InvalidTag => "invalid tag",
            Error::LengthOverflow => "length overflow",
        }
    }
}

pub type Result<T> = std::result::Result<T, Error>;

enum InternalReadU8Error {
    UnexpectedEndOfData,
}

enum InternalReadMultibyteError {
    UnexpectedEndOfData,
    MultibyteOverflow,
}

enum ScanState {
    Scanning,
    FoundOneNul,
}

/// What the length octets of a unit say.
#[derive(Copy, Clone, Debug, PartialEq, Eq, Structural, Hash)]
pub enum Asn1Length {
    /// The value runs up to the next two zero octets.
    Indefinite,
    /// The value has this many octets.
    Definite(usize),
}

/// One unit as it lies in a buffer.
pub struct Tlv {
    pub id: Identifier,
    pub length: Asn1Length,
    pub value: Seq<u8>,
    /// How many octets the identifier takes.
    pub id_len: int,
    /// How many octets the length takes.
    pub len_len: int,
    /// Where the next unit starts.
    pub next: int,
}

impl Tlv {
    /// How many octets close the value: two zero octets where the length was
    /// left open, none where it was given.
    pub open spec fn terminator_len(self) -> int {
        match self.length {
            Asn1Length::Indefinite => 2,
            Asn1Length::Definite(_) => 0,
        }
    }

    /// How many octets the whole unit takes.
    pub open spec fn extent(self) -> int {
        self.id_len + self.len_len + self.value.len() + self.terminator_len()
    }
}

/// The tag number in its long form, read from `pos` on, where the octets
/// before `pos` have added up to `acc`.
///
/// Each octet adds its low seven bits below what was read before; the first
/// octet with a clear high bit is the last. A number that leaves 64 bits when
/// it makes room for the next octet is refused.
pub open spec fn tag_number_at(s: Seq<u8>, pos: int, acc: nat) -> Result<(u64, int)>
    decreases s.len() - pos,
{
    if pos < 0 || pos >= s.len() {
        Err(Error::UnexpectedEndOfData)
    } else if acc * 128 > u64::MAX {
        Err(Error::InvalidTag)
    } else {
        let v = (acc * 128 + s[pos] % 128) as nat;
        if s[pos] >= 128 {
            tag_number_at(s, pos + 1, v)
        } else {
            Ok((v as u64, pos + 1))
        }
    }
}

/// The identifier that starts at `pos`, and where it ends.
pub open spec fn identifier_at(s: Seq<u8>, pos: int) -> Result<(Identifier, int)> {
    if pos < 0 || pos >= s.len() {
        Err(Error::UnexpectedEndOfData)
    } else {
        let b = s[pos];
        let class = Class::spec_from_u8(b);
        let constructed = (b / 32) % 2 == 1;
        if b % 32 != 31 {
            Ok((Identifier { class, constructed, tag: (b % 32) as u64 }, pos + 1))
        } else {
            match tag_number_at(s, pos + 1, 0) {
                Ok((tag, next)) => Ok((Identifier { class, constructed, tag }, next)),
                Err(e) => Err(e),
            }
        }
    }
}

/// The number that the next `count` octets from `pos` on spell, most
/// significant octet first, where the octets before `pos` have added up to
/// `acc`. A number that leaves the range of `usize` when it makes room for
/// the next octet is refused.
pub open spec fn long_length_at(s: Seq<u8>, pos: int, count: nat, acc: nat) -> Result<
    (Asn1Length, int),
>
    decreases count,
{
    if count == 0 {
        Ok((Asn1Length::Definite(acc as usize), pos))
    } else if pos < 0 || pos >= s.len() {
        Err(Error::UnexpectedEndOfData)
    } else if acc * 256 > usize::MAX {
        Err(Error::LengthOverflow)
    } else {
        long_length_at(s, pos + 1, (count - 1) as nat, acc * 256 + s[pos] as nat)
    }
}

/// The length that starts at `pos`, and where it ends.
pub open spec fn length_at(s: Seq<u8>, pos: int) -> Result<(Asn1Length, int)> {
    if pos < 0 || pos >= s.len() {
        Err(Error::UnexpectedEndOfData)
    } else if s[pos] == 128 {
        Ok((Asn1Length::Indefinite, pos + 1))
    } else if s[pos] < 128 {
        Ok((Asn1Length::Definite(s[pos] as usize), pos + 1))
    } else {
        long_length_at(s, pos + 1, (s[pos] - 128) as nat, 0)
    }
}

/// The first place from `pos` on where two zero octets stand in a row.
pub open spec fn end_of_contents(s: Seq<u8>, pos: int) -> Option<int>
    decreases s.len() - pos,
{
    if pos < 0 || pos + 1 >= s.len() {
        None
    } else if s[pos] == 0 && s[pos + 1] == 0 {
        Some(pos)
    } else {
        end_of_contents(s, pos + 1)
    }
}

/// The value that starts at `pos` under the length `len`, and where the
/// next unit starts.
pub open spec fn contents_at(s: Seq<u8>, pos: int, len: Asn1Length) -> Result<(Seq<u8>, int)> {
    match len {
        Asn1Length::Definite(n) => {
            if pos < 0 || pos + n > s.len() {
                Err(Error::UnexpectedEndOfData)
            } else {
                Ok((s.subrange(pos, pos + n), pos + n))
            }
        },
        Asn1Length::Indefinite => {
            match end_of_contents(s, pos) {
                Some(end) => Ok((s.subrange(pos, end), end + 2)),
                None => Err(Error::UnexpectedEndOfData),
            }
        },
    }
}

/// The unit that starts at `pos`.
pub open spec fn tlv_at(s: Seq<u8>, pos: int) -> Result<Tlv> {
    match identifier_at(s, pos) {
        Err(e) => Err(e),
        Ok((id, after_id)) => match length_at(s, after_id) {
            Err(e) => Err(e),
            Ok((length, after_len)) => match contents_at(s, after_len, length) {
                Err(e) => Err(e),
                Ok((value, next)) => Ok(
                    Tlv {
                        id,
                        length,
                        value,
                        id_len: after_id - pos,
                        len_len: after_len - after_id,
                        next,
                    },
                ),
            },
        },
    }
}

/// What a reader at `pos` finds next: nothing at the end of the buffer, else
/// the unit that starts there.
pub open spec fn unit_at(s: Seq<u8>, pos: int) -> Result<Option<Tlv>> {
    if pos >= s.len() {
        Ok(None)
    } else {
        match tlv_at(s, pos) {
            Ok(t) => Ok(Some(t)),
            Err(e) => Err(e),
        }
    }
}

/// Where a reader stands after it read, or tried to read, a long tag
/// number from `pos` on: behind the number, at the end of the buffer where
/// the number is cut short, or behind the octet at which the number left
/// 64 bits.
pub open spec fn tag_number_end(s: Seq<u8>, pos: int, acc: nat) -> int
    decreases s.len() - pos,
{
    if pos < 0 || pos >= s.len() {
        pos
    } else if acc * 128 > u64::MAX {
        pos + 1
    } else if s[pos] >= 128 {
        tag_number_end(s, pos + 1, (acc * 128 + s[pos] % 128) as nat)
    } else {
        pos + 1
    }
}

/// Where a reader stands after it read, or tried to read, an identifier at
/// `pos`.
pub open spec fn identifier_end(s: Seq<u8>, pos: int) -> int {
    if pos < 0 || pos >= s.len() {
        pos
    } else if s[pos] % 32 != 31 {
        pos + 1
    } else {
        tag_number_end(s, pos + 1, 0)
    }
}

/// Where a reader stands after it read, or tried to read, the `count`
/// octets of a long length from `pos` on: behind them, at the end of the
/// buffer where they are cut short, or behind the octet at which the length
/// left the range of `usize`.
pub open spec fn long_length_end(s: Seq<u8>, pos: int, count: nat, acc: nat) -> int
    decreases count,
{
    if count == 0 || pos < 0 || pos >= s.len() {
        pos
    } else if acc * 256 > usize::MAX {
        pos + 1
    } else {
        long_length_end(s, pos + 1, (count - 1) as nat, acc * 256 + s[pos] as nat)
    }
}

/// Where a reader stands after it read, or tried to read, a length at
/// `pos`.
pub open spec fn length_end(s: Seq<u8>, pos: int) -> int {
    if pos < 0 || pos >= s.len() {
        pos
    } else if s[pos] <= 128 {
        pos + 1
    } else {
        long_length_end(s, pos + 1, (s[pos] - 128) as nat, 0)
    }
}

/// Where a reader stands after it read, or tried to read, a value at `pos`
/// under the length `len`. A value of a given length that goes past the
/// buffer leaves the reader where it stood. A search for the end of an
/// open-ended value that finds none leaves it at the end of the buffer.
pub open spec fn contents_end(s: Seq<u8>, pos: int, len: Asn1Length) -> int {
    match len {
        Asn1Length::Definite(n) => {
            if pos < 0 || pos + n > s.len() {
                pos
            } else {
                pos + n
            }
        },
        Asn1Length::Indefinite => {
            match end_of_contents(s, pos) {
                Some(end) => end + 2,
                None => s.len() as int,
            }
        },
    }
}

/// Where a reader that stood at `pos` stands after it read, or tried to
/// read, the next unit: behind the unit, or where the part that failed left
/// it.
pub open spec fn unit_end(s: Seq<u8>, pos: int) -> int {
    if pos >= s.len() {
        pos
    } else {
        match identifier_at(s, pos) {
            Err(_) => identifier_end(s, pos),
            Ok((_, after_id)) => match length_at(s, after_id) {
                Err(_) => length_end(s, after_id),
                Ok((length, after_len)) => contents_end(s, after_len, length),
            },
        }
    }
}

/// A long tag number ends behind where it starts, within the buffer.
pub proof fn lemma_tag_number_extent(s: Seq<u8>, pos: int, acc: nat)
    requires
        tag_number_at(s, pos, acc) is Ok,
    ensures
        pos < tag_number_at(s, pos, acc)->Ok_0.1 <= s.len(),
    decreases s.len() - pos,
{
    if s[pos] >= 128 {
        lemma_tag_number_extent(s, pos + 1, (acc * 128 + s[pos] % 128) as nat);
    }
}

/// A long length takes exactly the octets that were announced.
pub proof fn lemma_long_length_extent(s: Seq<u8>, pos: int, count: nat, acc: nat)
    requires
        0 <= pos <= s.len(),
        long_length_at(s, pos, count, acc) is Ok,
    ensures
        long_length_at(s, pos, count, acc)->Ok_0.1 == pos + count,
        pos + count <= s.len(),
        long_length_at(s, pos, count, acc)->Ok_0.0 is Definite,
    decreases count,
{
    if count != 0 {
        lemma_long_length_extent(s, pos + 1, (count - 1) as nat, acc * 256 + s[pos] as nat);
    }
}

/// Where [`end_of_contents`] finds a place, two zero octets stand there and
/// no two stand in a row before it. Where it finds none, there are none.
pub proof fn lemma_end_of_contents_is_first(s: Seq<u8>, pos: int)
    requires
        0 <= pos,
    ensures
        match end_of_contents(s, pos) {
            Some(end) => {
                &&& pos <= end
                &&& end + 1 < s.len()
                &&& s[end] == 0
                &&& s[end + 1] == 0
                &&& forall|j: int| pos <= j < end ==> !(s[j] == 0 && #[trigger] s[j + 1] == 0)
            },
            None => forall|j: int|
                pos <= j && j + 1 < s.len() ==> !(s[j] == 0 && #[trigger] s[j + 1] == 0),
        },
    decreases s.len() - pos,
{
    if pos + 1 < s.len() && !(s[pos] == 0 && s[pos + 1] == 0) {
        lemma_end_of_contents_is_first(s, pos + 1);
    }
}

/// A unit takes its identifier, its length, its value and, where the length
/// was left open, the two octets that close it, and nothing else: the next
/// unit starts right behind them. The value is the window of the buffer
/// behind the length octets.
pub proof fn lemma_tlv_extent(s: Seq<u8>, pos: int)
    requires
        0 <= pos,
        tlv_at(s, pos) is Ok,
    ensures
        ({
            let t = tlv_at(s, pos)->Ok_0;
            &&& t.id_len >= 1
            &&& t.len_len >= 1
            &&& t.next == pos + t.extent()
            &&& t.next <= s.len()
            &&& t.value == s.subrange(
                pos + t.id_len + t.len_len,
                pos + t.id_len + t.len_len + t.value.len(),
            )
            &&& t.length matches Asn1Length::Definite(n) ==> t.value.len() == n
        }),
{
    let (id, after_id) = identifier_at(s, pos)->Ok_0;
    if s[pos] % 32 == 31 {
        lemma_tag_number_extent(s, pos + 1, 0);
    }
    let (length, after_len) = length_at(s, after_id)->Ok_0;
    if s[after_id] > 128 {
        lemma_long_length_extent(s, after_id + 1, (s[after_id] - 128) as nat, 0);
    }
    if length is Indefinite {
        lemma_end_of_contents_is_first(s, after_len);
    }
}

/// A reader that meets the leading groups of `n` takes them all in and goes
/// on behind them, as long as the tag number stays within 64 bits.
pub proof fn lemma_tag_number_leading_groups(s: Seq<u8>, pos: int, acc: nat, n: nat)
    requires
        lies_at(s, pos, base128::leading_groups(n)),
        base128::shift_in(acc, n) <= u64::MAX,
    ensures
        tag_number_at(s, pos, acc) == tag_number_at(
            s,
            pos + base128::leading_groups(n).len(),
            base128::shift_in(acc, n),
        ),
    decreases n,
{
    if n != 0 {
        let groups = base128::leading_groups(n);
        let before = base128::leading_groups(n / 128);
        let last = seq![(128 + n % 128) as u8];
        assert(groups == before + last);
        lemma_lies_at_split(s, pos, before, last);
        lemma_tag_number_leading_groups(s, pos, acc, n / 128);
        lemma_lies_at_index(s, pos + before.len(), last, 0);
    }
}

/// The octets of an identifier are read back as that identifier, wherever
/// in a buffer they lie.
pub proof fn lemma_identifier_round_trip(s: Seq<u8>, pos: int, id: Identifier)
    requires
        lies_at(s, pos, id.spec_bytes()),
    ensures
        identifier_at(s, pos) == Ok::<(Identifier, int), Error>(
            (id, pos + id.spec_bytes().len()),
        ),
{
    let first = seq![id.spec_first_octet()];
    if id.tag < 31 {
        lemma_lies_at_index(s, pos, id.spec_bytes(), 0);
    } else {
        let n = id.tag as nat;
        let groups = base128::leading_groups(n / 128);
        let last = seq![(n % 128) as u8];
        assert(base128::encoding(n) == groups + last);
        lemma_lies_at_split(s, pos, first, base128::encoding(n));
        lemma_lies_at_index(s, pos, first, 0);
        lemma_lies_at_split(s, pos + 1, groups, last);
        base128::lemma_shift_in_zero(n / 128);
        lemma_tag_number_leading_groups(s, pos + 1, 0, n / 128);
        lemma_lies_at_index(s, pos + 1 + groups.len(), last, 0);
        assert((n / 128) * 128 + n % 128 == n);
    }
}

/// After a unit the reader stands where the next one starts, and at the
/// end of the buffer it stays there. Whatever it met, it has not moved back
/// and has not left the buffer.
pub proof fn lemma_unit_end(s: Seq<u8>, pos: int)
    requires
        0 <= pos <= s.len(),
    ensures
        pos <= unit_end(s, pos) <= s.len(),
        unit_at(s, pos) matches Ok(Some(t)) ==> unit_end(s, pos) == t.next,
        unit_at(s, pos) matches Ok(None) ==> unit_end(s, pos) == pos,
{
    if pos < s.len() {
        lemma_tag_number_end(s, pos + 1, 0);
        match identifier_at(s, pos) {
            Err(_) => {},
            Ok((_, after_id)) => {
                if after_id < s.len() {
                    lemma_long_length_end(s, after_id + 1, (s[after_id] - 128) as nat, 0);
                }
                match length_at(s, after_id) {
                    Err(_) => {},
                    Ok((length, after_len)) => {
                        lemma_end_of_contents_is_first(s, after_len);
                    },
                }
            },
        }
    }
}

/// A reader of a long tag number ends up within the buffer, behind where it
/// started or there, and where the number was read, right behind it.
pub proof fn lemma_tag_number_end(s: Seq<u8>, pos: int, acc: nat)
    requires
        0 <= pos <= s.len(),
    ensures
        pos <= tag_number_end(s, pos, acc) <= s.len(),
        tag_number_at(s, pos, acc) matches Ok((_, next)) ==> tag_number_end(s, pos, acc) == next,
    decreases s.len() - pos,
{
    if pos < s.len() && acc * 128 <= u64::MAX && s[pos] >= 128 {
        lemma_tag_number_end(s, pos + 1, (acc * 128 + s[pos] % 128) as nat);
    }
}

/// A reader of a long length ends up within the buffer, behind where it
/// started or there, and where the length was read, right behind it.
pub proof fn lemma_long_length_end(s: Seq<u8>, pos: int, count: nat, acc: nat)
    requires
        0 <= pos <= s.len(),
    ensures
        pos <= long_length_end(s, pos, count, acc) <= s.len(),
        long_length_at(s, pos, count, acc) matches Ok((_, next)) ==> long_length_end(
            s,
            pos,
            count,
            acc,
        ) == next,
    decreases count,
{
    if count != 0 && pos < s.len() && acc * 256 <= usize::MAX {
        lemma_long_length_end(s, pos + 1, (count - 1) as nat, acc * 256 + s[pos] as nat);
    }
}

/// One poll of an iterator over the units of `s`.
///
/// The iterator is at a cursor, or it is latched (`None`). It gives the
/// unit at the cursor and moves behind it. At the end of the buffer it gives
/// nothing, at a malformed unit it gives the error, and both latch it. Once
/// latched it gives nothing and stays latched.
pub open spec fn poll(s: Seq<u8>, state: Option<int>) -> (Option<Result<Tlv>>, Option<int>) {
    match state {
        None => (None, None),
        Some(pos) => match unit_at(s, pos) {
            Ok(Some(t)) => (Some(Ok(t)), Some(t.next)),
            Ok(None) => (None, None),
            Err(e) => (Some(Err(e)), None),
        },
    }
}

/// What the poll after `n` earlier polls gives, for an iterator that starts
/// in `state`.
pub open spec fn poll_nth(s: Seq<u8>, state: Option<int>, n: nat) -> Option<Result<Tlv>>
    decreases n,
{
    if n == 0 {
        poll(s, state).0
    } else {
        poll_nth(s, poll(s, state).1, (n - 1) as nat)
    }
}

/// Whether what an iterator handed out is what the poll was to give: the
/// same unit, with its value as a window of the buffer, the same error, or
/// nothing.
pub open spec fn yields(item: Option<Result<(Identifier, &[u8])>>, poll: Option<Result<Tlv>>) -> bool {
    match (item, poll) {
        (None, None) => true,
        (Some(Ok((id, value))), Some(Ok(t))) => id == t.id && value@ == t.value,
        (Some(Err(e)), Some(Err(f))) => e == f,
        _ => false,
    }
}

/// A latched iterator gives nothing, however often it is polled.
pub proof fn lemma_latched_gives_nothing(s: Seq<u8>, n: nat)
    ensures
        poll_nth(s, None, n) is None,
    decreases n,
{
    if n != 0 {
        lemma_latched_gives_nothing(s, (n - 1) as nat);
    }
}

/// Once an iterator has given an error or nothing, every later poll gives
/// nothing.
pub proof fn lemma_iterator_latches(s: Seq<u8>, state: Option<int>, first: nat, later: nat)
    requires
        first < later,
        poll_nth(s, state, first) is None || (poll_nth(s, state, first) matches Some(Err(_))),
    ensures
        poll_nth(s, state, later) is None,
    decreases first,
{
    if first == 0 {
        lemma_latched_gives_nothing(s, (later - 1) as nat);
    } else {
        lemma_iterator_latches(s, poll(s, state).1, (first - 1) as nat, (later - 1) as nat);
    }
}

/// A reader over a borrowed buffer. It keeps a cursor into the buffer, which
/// only ever moves forward and never leaves the buffer.
pub struct Asn1Reader<'b> {
    buf: &'b [u8],
    pos: usize,
}

impl<'b> Asn1Reader<'b> {
    #[verifier::type_invariant]
    spec fn well_formed(&self) -> bool {
        self.pos <= self.buf@.len()
    }

    /// The buffer that the reader walks.
    pub closed spec fn input(&self) -> Seq<u8> {
        self.buf@
    }

    /// Where in the buffer the reader stands.
    pub closed spec fn cursor(&self) -> int {
        self.pos as int
    }

    /// A reader at the start of `b`.
    pub fn new(b: &'b [u8]) -> (reader: Self)
        ensures
            reader.input() == b@,
            reader.cursor() == 0,
    {
        Asn1Reader { buf: b, pos: 0 }
    }

    /// Whether the reader has taken the whole buffer.
    pub fn is_at_end(&self) -> (at_end: bool)
        ensures
            at_end <==> self.cursor() == self.input().len(),
            0 <= self.cursor() <= self.input().len(),
    {
        proof {
            use_type_invariant(self);
        }
        self.pos >= self.buf.len()
    }

    fn read_u8(&mut self) -> (r: std::result::Result<u8, InternalReadU8Error>)
        ensures
            final(self).input() == old(self).input(),
            0 <= old(self).cursor() <= old(self).input().len(),
            match r {
                Ok(v) => {
                    &&& old(self).cursor() < old(self).input().len()
                    &&& v == old(self).input()[old(self).cursor()]
                    &&& final(self).cursor() == old(self).cursor() + 1
                },
                Err(_) => {
                    &&& old(self).cursor() == old(self).input().len()
                    &&& final(self).cursor() == old(self).cursor()
                },
            },
    {
        proof {
            use_type_invariant(&*self);
        }
        if self.pos >= self.buf.len() {
            return Err(InternalReadU8Error::UnexpectedEndOfData);
        }
        let v = self.buf[self.pos];
        self.pos += 1;
        Ok(v)
    }

    fn read_identifier(&mut self) -> (r: Result<Identifier>)
        ensures
            final(self).input() == old(self).input(),
            old(self).cursor() <= final(self).cursor() <= old(self).input().len(),
            match identifier_at(old(self).input(), old(self).cursor()) {
                Ok((id, next)) => r == Ok::<Identifier, Error>(id) && final(self).cursor() == next,
                Err(e) => r == Err::<Identifier, Error>(e),
            },
            final(self).cursor() == identifier_end(old(self).input(), old(self).cursor()),
    {
        proof {
            use_type_invariant(&*self);
        }
        let b = match self.read_u8() {
            Ok(b) => b,
            Err(InternalReadU8Error::UnexpectedEndOfData) => return Err(Error::UnexpectedEndOfData),
        };
        let klass = Class::from_u8(b);
        let constructed = (b & 0x20) != 0;
        let tag = b & 0x1f;
        assert(((b & 0x20) != 0) == ((b / 32) % 2 == 1)) by (bit_vector);
        assert(b & 0x1f == b % 32) by (bit_vector);
        if tag != 0x1f {
            return Ok(Identifier::new(klass, constructed, tag as u64));
        }
        let tag = match self.read_multibyte_u64() {
            Ok(tag) => tag,
            Err(InternalReadMultibyteError::UnexpectedEndOfData) => return Err(
                Error::UnexpectedEndOfData,
            ),
            Err(InternalReadMultibyteError::MultibyteOverflow) => return Err(Error::InvalidTag),
        };
        Ok(Identifier::new(klass, constructed, tag))
    }

    fn read_multibyte_u64(&mut self) -> (r: std::result::Result<u64, InternalReadMultibyteError>)
        ensures
            final(self).input() == old(self).input(),
            old(self).cursor() <= final(self).cursor() <= old(self).input().len(),
            tag_number_at(old(self).input(), old(self).cursor(), 0) == match r {
                Ok(v) => Ok::<(u64, int), Error>((v, final(self).cursor())),
                Err(InternalReadMultibyteError::MultibyteOverflow) => Err(Error::InvalidTag),
                Err(InternalReadMultibyteError::UnexpectedEndOfData) => Err(
                    Error::UnexpectedEndOfData,
                ),
            },
            final(self).cursor() == tag_number_end(old(self).input(), old(self).cursor(), 0),
    {
        proof {
            use_type_invariant(&*self);
        }
        let mut v = 0u64;
        loop
            invariant_except_break
                tag_number_at(old(self).input(), old(self).cursor(), 0) == tag_number_at(
                    self.input(),
                    self.cursor(),
                    v as nat,
                ),
                tag_number_end(old(self).input(), old(self).cursor(), 0) == tag_number_end(
                    self.input(),
                    self.cursor(),
                    v as nat,
                ),
            invariant
                self.input() == old(self).input(),
                old(self).cursor() <= self.cursor() <= self.input().len(),
            ensures
                tag_number_at(old(self).input(), old(self).cursor(), 0) == Ok::<(u64, int), Error>(
                    (v, self.cursor()),
                ),
                tag_number_end(old(self).input(), old(self).cursor(), 0) == self.cursor(),
            decreases self.input().len() - self.cursor(),
        {
            let b = match self.read_u8() {
                Ok(b) => b,
                Err(InternalReadU8Error::UnexpectedEndOfData) => return Err(
                    InternalReadMultibyteError::UnexpectedEndOfData,
                ),
            };
            let has_continuation = b & 0x80 != 0;
            assert((b & 0x80 != 0) == (b >= 128)) by (bit_vector);
            let low = b & 0x7f;
            assert(low == b % 128) by (bit_vector)
                requires
                    low == b & 0x7f,
            ;
            v = match v.checked_mul(128) {
                Some(v) => v,
                None => return Err(InternalReadMultibyteError::MultibyteOverflow),
            };
            v += low as u64;
            if !has_continuation {
                break ;
            }
        }
        Ok(v)
    }

    fn read_length(&mut self) -> (r: Result<Asn1Length>)
        ensures
            final(self).input() == old(self).input(),
            old(self).cursor() <= final(self).cursor() <= old(self).input().len(),
            match length_at(old(self).input(), old(self).cursor()) {
                Ok((len, next)) => r == Ok::<Asn1Length, Error>(len) && final(self).cursor()
                    == next,
                Err(e) => r == Err::<Asn1Length, Error>(e),
            },
            final(self).cursor() == length_end(old(self).input(), old(self).cursor()),
    {
        proof {
            use_type_invariant(&*self);
        }
        let b = match self.read_u8() {
            Ok(b) => b,
            Err(InternalReadU8Error::UnexpectedEndOfData) => return Err(Error::UnexpectedEndOfData),
        };
        if b == 0b10000000 {
            return Ok(Asn1Length::Indefinite);
        }
        if b < 128 {
            return Ok(Asn1Length::Definite(b as usize));
        }
        let len_len = b - 128;

        let mut len = 0usize;
        let mut taken: u8 = 0;
        while taken < len_len
            invariant
                self.input() == old(self).input(),
                old(self).cursor() <= self.cursor() <= self.input().len(),
                taken <= len_len,
                length_at(old(self).input(), old(self).cursor()) == long_length_at(
                    self.input(),
                    self.cursor(),
                    (len_len - taken) as nat,
                    len as nat,
                ),
                length_end(old(self).input(), old(self).cursor()) == long_length_end(
                    self.input(),
                    self.cursor(),
                    (len_len - taken) as nat,
                    len as nat,
                ),
            decreases len_len - taken,
        {
            let b = match self.read_u8() {
                Ok(b) => b,
                Err(InternalReadU8Error::UnexpectedEndOfData) => return Err(
                    Error::UnexpectedEndOfData,
                ),
            };
            len = match len.checked_mul(256) {
                // A multiple of 256 within `usize` leaves room for one octet.
                Some(len) => len + b as usize,
                None => return Err(Error::LengthOverflow),
            };
            taken += 1;
        }
        Ok(Asn1Length::Definite(len))
    }

    fn read_contents(&mut self, len: Asn1Length) -> (r: Result<&'b [u8]>)
        ensures
            final(self).input() == old(self).input(),
            old(self).cursor() <= final(self).cursor() <= old(self).input().len(),
            match contents_at(old(self).input(), old(self).cursor(), len) {
                Ok((value, next)) => r matches Ok(v) && v@ == value && final(self).cursor()
                    == next,
                Err(e) => r matches Err(f) && f == e,
            },
            final(self).cursor() == contents_end(old(self).input(), old(self).cursor(), len),
    {
        match len {
            Asn1Length::Indefinite => self.read_indefinite_length_contents(),
            Asn1Length::Definite(len) => self.read_definite_length_contents(len),
        }
    }

    fn read_definite_length_contents(&mut self, len: usize) -> (r: Result<&'b [u8]>)
        ensures
            final(self).input() == old(self).input(),
            old(self).cursor() <= final(self).cursor() <= old(self).input().len(),
            match contents_at(old(self).input(), old(self).cursor(), Asn1Length::Definite(len)) {
                Ok((value, next)) => r matches Ok(v) && v@ == value && final(self).cursor()
                    == next,
                Err(e) => {
                    &&& r matches Err(f) && f == e
                    &&& final(self).cursor() == old(self).cursor()
                },
            },
            r is Err <==> len > old(self).input().len() - old(self).cursor(),
    {
        proof {
            use_type_invariant(&*self);
        }
        if len > self.buf.len() - self.pos {
            return Err(Error::UnexpectedEndOfData);
        }
        let contents = &self.buf[self.pos..self.pos + len];
        self.pos += len;
        Ok(contents)
    }

    fn read_indefinite_length_contents(&mut self) -> (r: Result<&'b [u8]>)
        ensures
            final(self).input() == old(self).input(),
            old(self).cursor() <= final(self).cursor() <= old(self).input().len(),
            match contents_at(old(self).input(), old(self).cursor(), Asn1Length::Indefinite) {
                Ok((value, next)) => r matches Ok(v) && v@ == value && final(self).cursor()
                    == next,
                Err(e) => {
                    &&& r matches Err(f) && f == e
                    &&& final(self).cursor() == old(self).input().len()
                },
            },
    {
        proof {
            use_type_invariant(&*self);
        }
        let pos = self.pos;

        let mut s = ScanState::Scanning;
        loop
            invariant_except_break
                match s {
                    ScanState::Scanning => end_of_contents(self.input(), pos as int)
                        == end_of_contents(self.input(), self.cursor()),
                    ScanState::FoundOneNul => {
                        &&& pos < self.cursor()
                        &&& self.input()[self.cursor() - 1] == 0
                        &&& end_of_contents(self.input(), pos as int) == end_of_contents(
                            self.input(),
                            self.cursor() - 1,
                        )
                    },
                },
            invariant
                self.input() == old(self).input(),
                pos == old(self).cursor(),
                pos <= self.cursor() <= self.input().len(),
            ensures
                end_of_contents(self.input(), pos as int) == Some(self.cursor() - 2),
                pos <= self.cursor() - 2,
            decreases self.input().len() - self.cursor(),
        {
            let b = match self.read_u8() {
                Ok(b) => b,
                Err(InternalReadU8Error::UnexpectedEndOfData) => return Err(
                    Error::UnexpectedEndOfData,
                ),
            };

            let b_is_nul = b == 0u8;
            match s {
                ScanState::Scanning => {
                    if b_is_nul {
                        s = ScanState::FoundOneNul;
                    }
                },
                ScanState::FoundOneNul => {
                    if b_is_nul {
                        break ;
                    }
                    s = ScanState::Scanning;
                },
            }
        }
        proof {
            use_type_invariant(&*self);
        }
        let contents = &self.buf[pos..self.pos - 2];
        Ok(contents)
    }

    /// Reads the next unit: its identifier and its value, as a window of the
    /// buffer. At the end of the buffer there is none.
    ///
    /// After a unit the cursor stands right behind it. After an error it
    /// stands where the part that failed left it: see [`unit_end`].
    pub fn next(&mut self) -> (r: Result<Option<(Identifier, &'b [u8])>>)
        ensures
            final(self).input() == old(self).input(),
            old(self).cursor() <= final(self).cursor() <= old(self).input().len(),
            match unit_at(old(self).input(), old(self).cursor()) {
                Ok(Some(t)) => {
                    &&& r matches Ok(Some((id, value)))
                    &&& id == t.id
                    &&& value@ == t.value
                    &&& final(self).cursor() == t.next
                    &&& final(self).cursor() == old(self).cursor() + t.id_len + t.len_len
                        + t.value.len() + t.terminator_len()
                },
                Ok(None) => r matches Ok(None) && final(self).cursor() == old(self).cursor(),
                Err(e) => r matches Err(f) && f == e,
            },
            final(self).cursor() == unit_end(old(self).input(), old(self).cursor()),
    {
        proof {
            use_type_invariant(&*self);
            if tlv_at(self.input(), self.cursor()) is Ok {
                lemma_tlv_extent(self.input(), self.cursor());
            }
        }
        if self.is_at_end() {
            return Ok(None);
        }
        let identifier = self.read_identifier()?;
        let len = self.read_length()?;
        let value = self.read_contents(len)?;
        Ok(Some((identifier, value)))
    }

    /// An iterator over the units from the cursor on, which moves this
    /// reader along.
    pub fn iter(&'b mut self) -> (it: Asn1ReaderRefIter<'b>)
        ensures
            it.input() == old(self).input(),
            it.state() == Some(old(self).cursor()),
            it.reader_cursor() == old(self).cursor(),
    {
        Asn1ReaderRefIter { r: self, have_vended_none_or_error: false }
    }

    /// An iterator over the units from the cursor on, which takes the reader
    /// over.
    pub fn into_iter(self) -> (it: Asn1ReaderIter<'b>)
        ensures
            it.input() == self.input(),
            it.state() == Some(self.cursor()),
            it.reader_cursor() == self.cursor(),
    {
        Asn1ReaderIter { r: self, have_vended_none_or_error: false }
    }
}

/// An iterator over the units of a buffer that owns its reader.
///
/// It hands out units until the buffer ends or a unit is malformed. It hands
/// out the error, once, and from then on nothing.
pub struct Asn1ReaderIter<'b> {
    r: Asn1Reader<'b>,
    have_vended_none_or_error: bool,
}

impl<'b> Asn1ReaderIter<'b> {
    /// The buffer that the iterator walks.
    pub closed spec fn input(&self) -> Seq<u8> {
        self.r.input()
    }

    /// Where the iterator stands, or `None` once it is latched.
    pub closed spec fn state(&self) -> Option<int> {
        if self.have_vended_none_or_error {
            None
        } else {
            Some(self.r.cursor())
        }
    }

    /// Where the reader under the iterator stands, latched or not.
    pub closed spec fn reader_cursor(&self) -> int {
        self.r.cursor()
    }

    /// Polls the iterator: see [`poll`].
    ///
    /// A latched iterator does no further work: it leaves its reader where
    /// it stands.
    pub fn next(&mut self) -> (item: Option<Result<(Identifier, &'b [u8])>>)
        ensures
            final(self).input() == old(self).input(),
            yields(item, poll(old(self).input(), old(self).state()).0),
            final(self).state() == poll(old(self).input(), old(self).state()).1,
            old(self).state() is None ==> item is None,
            (item is None || (item matches Some(Err(_)))) ==> final(self).state() is None,
            old(self).state() matches Some(c) ==> c == old(self).reader_cursor(),
            final(self).state() matches Some(c) ==> c == final(self).reader_cursor(),
            old(self).reader_cursor() <= final(self).reader_cursor() <= old(self).input().len(),
            old(self).state() is None ==> final(self).reader_cursor() == old(self).reader_cursor(),
            item is None ==> final(self).reader_cursor() == old(self).reader_cursor(),
            old(self).state() is Some ==> final(self).reader_cursor() == unit_end(
                old(self).input(),
                old(self).reader_cursor(),
            ),
    {
        proof {
            use_type_invariant(&self.r);
        }
        if self.have_vended_none_or_error {
            return None;
        }
        let item = match self.r.next() {
            Ok(item) => item,
            Err(e) => {
                self.have_vended_none_or_error = true;
                return Some(Err(e));
            },
        };
        if let Some(i) = item {
            return Some(Ok(i));
        }
        self.have_vended_none_or_error = true;
        None
    }
}

/// An iterator over the units of a buffer that moves a borrowed reader
/// along.
///
/// It hands out units until the buffer ends or a unit is malformed. It hands
/// out the error, once, and from then on nothing.
pub struct Asn1ReaderRefIter<'b> {
    r: &'b mut Asn1Reader<'b>,
    have_vended_none_or_error: bool,
}

impl<'b> Asn1ReaderRefIter<'b> {
    /// The buffer that the iterator walks.
    pub closed spec fn input(&self) -> Seq<u8> {
        self.r.input()
    }

    /// Where the iterator stands, or `None` once it is latched.
    pub closed spec fn state(&self) -> Option<int> {
        if self.have_vended_none_or_error {
            None
        } else {
            Some(self.r.cursor())
        }
    }

    /// Where the reader under the iterator stands, latched or not.
    pub closed spec fn reader_cursor(&self) -> int {
        self.r.cursor()
    }

    /// Polls the iterator: see [`poll`].
    ///
    /// A latched iterator does no further work: it leaves its reader where
    /// it stands.
    pub fn next(&mut self) -> (item: Option<Result<(Identifier, &'b [u8])>>)
        ensures
            final(self).input() == old(self).input(),
            yields(item, poll(old(self).input(), old(self).state()).0),
            final(self).state() == poll(old(self).input(), old(self).state()).1,
            old(self).state() is None ==> item is None,
            (item is None || (item matches Some(Err(_)))) ==> final(self).state() is None,
            old(self).state() matches Some(c) ==> c == old(self).reader_cursor(),
            final(self).state() matches Some(c) ==> c == final(self).reader_cursor(),
            old(self).reader_cursor() <= final(self).reader_cursor() <= old(self).input().len(),
            old(self).state() is None ==> final(self).reader_cursor() == old(self).reader_cursor(),
            item is None ==> final(self).reader_cursor() == old(self).reader_cursor(),
            old(self).state() is Some ==> final(self).reader_cursor() == unit_end(
                old(self).input(),
                old(self).reader_cursor(),
            ),
    {
        proof {
            use_type_invariant(&*self.r);
        }
        if self.have_vended_none_or_error {
            return None;
        }
        let item = match self.r.next() {
            Ok(item) => item,
            Err(e) => {
                self.have_vended_none_or_error = true;
                return Some(Err(e));
            },
        };
        if let Some(i) = item {
            return Some(Ok(i));
        }
        self.have_vended_none_or_error = true;
        None
    }
}

} // verus!
