//! Object identifiers: a path of numbered arcs, and its contents octets.
//!
//! The first octet packs the first two arcs as `40 * first + second`. Every
//! further arc follows in base 128 (see [`crate::base128`]), in the least
//! number of octets.

use crate::base128;
use crate::window::{lemma_lies_at_index, lemma_lies_at_split, lemma_lies_at_start, lies_at};
use vstd::prelude::*;

verus! {

/// Why a run of octets is not an object identifier.
#[derive(Copy, Clone, Debug, PartialEq, Eq, Structural, Hash)]
pub enum Error {
    /// The octets are empty, or they end inside an arc.
    UnexpectedEndOfData,
    /// An arc does not fit into 64 bits.
    ComponentOverflow,
}

impl Error {
    /// The words for the error.
    pub open spec fn spec_description(self) -> Seq<char> {
        match self {
            Error::UnexpectedEndOfData => "unexpected endofdata"@,
            Error::ComponentOverflow => "oid component overflow"@,
        }
    }

    /// A short text that names the error.
    pub fn description(&self) -> (text: &'static str)
        ensures
            text@ == self.spec_description(),
    {
        match self {
            Error::UnexpectedEndOfData => "unexpected endofdata",
            Error::ComponentOverflow => "oid component overflow",
        }
    }
}

pub type Result<T> = std::result::Result<T, Error>;

/// The arcs form an object identifier as X.680 has it: the first arc is 0, 1
/// or 2, and under 0 and 1 the second arc is less than 40.
pub open spec fn valid(arcs: Seq<u64>) -> bool {
    &&& arcs.len() >= 2
    &&& arcs[0] <= 2
    &&& arcs[0] <= 1 ==> arcs[1] < 40
}

/// The first two arcs can be packed into one octet and unpacked again.
///
/// Every valid path whose second arc is less than 40 is of this kind, and so
/// is every path that was read from octets.
pub open spec fn encodable(arcs: Seq<u64>) -> bool {
    &&& arcs.len() >= 2
    &&& arcs[1] < 40
    &&& 40 * arcs[0] + arcs[1] <= 255
}

/// A valid path whose second arc is less than 40 fits the first octet.
pub proof fn lemma_valid_is_encodable(arcs: Seq<u64>)
    requires
        valid(arcs),
        arcs[1] < 40,
    ensures
        encodable(arcs),
        40 * arcs[0] + arcs[1] < 120,
{
}

/// The octets of a run of arcs, each in base 128, one after the other.
pub open spec fn encode_arcs(arcs: Seq<u64>) -> Seq<u8>
    decreases arcs.len(),
{
    if arcs.len() == 0 {
        Seq::empty()
    } else {
        base128::encoding(arcs[0] as nat) + encode_arcs(arcs.skip(1))
    }
}

/// The contents octets of the path `arcs`.
pub open spec fn spec_encode(arcs: Seq<u64>) -> Seq<u8>
    recommends
        encodable(arcs),
{
    seq![(40 * arcs[0] + arcs[1]) as u8] + encode_arcs(arcs.skip(2))
}

/// How many octets a run of arcs takes.
pub open spec fn arcs_len(arcs: Seq<u64>) -> nat
    decreases arcs.len(),
{
    if arcs.len() == 0 {
        0
    } else {
        base128::encoding(arcs[0] as nat).len() + arcs_len(arcs.skip(1))
    }
}

/// How many contents octets the path `arcs` takes: one for the first two
/// arcs, and for each further arc one for each of its base-128 digits (one
/// for the arc 0).
pub open spec fn spec_bytes_len(arcs: Seq<u64>) -> nat
    recommends
        encodable(arcs),
{
    1 + arcs_len(arcs.skip(2))
}

/// The arcs that `s` holds from `pos` on.
///
/// `acc` is what the octets of the arc under way have added up to, and
/// `pending` says whether there is such an arc. An arc is refused as soon as
/// one more group would carry it past 64 bits, and the octets must not end
/// inside an arc.
pub open spec fn decode_arcs(s: Seq<u8>, pos: int, acc: nat, pending: bool) -> Result<Seq<u64>>
    decreases s.len() - pos,
{
    if pos < 0 || pos >= s.len() {
        if pending {
            Err(Error::UnexpectedEndOfData)
        } else {
            Ok(Seq::empty())
        }
    } else {
        let v = (acc * 128 + s[pos] % 128) as nat;
        if s[pos] >= 128 {
            if v > u64::MAX / 128 {
                Err(Error::ComponentOverflow)
            } else {
                decode_arcs(s, pos + 1, v, true)
            }
        } else {
            match decode_arcs(s, pos + 1, 0, false) {
                Ok(rest) => Ok(seq![v as u64] + rest),
                Err(e) => Err(e),
            }
        }
    }
}

/// The path that the contents octets `s` stand for.
pub open spec fn spec_decode(s: Seq<u8>) -> Result<Seq<u64>> {
    if s.len() == 0 {
        Err(Error::UnexpectedEndOfData)
    } else {
        match decode_arcs(s, 1, 0, false) {
            Ok(rest) => Ok(seq![(s[0] / 40) as u64, (s[0] % 40) as u64] + rest),
            Err(e) => Err(e),
        }
    }
}

/// `arcs` put in front of what a decoder went on to find.
pub open spec fn prepend(arcs: Seq<u64>, found: Result<Seq<u64>>) -> Result<Seq<u64>> {
    match found {
        Ok(rest) => Ok(arcs + rest),
        Err(e) => Err(e),
    }
}

/// The octets of a run of arcs are as many as [`arcs_len`] says.
pub proof fn lemma_encode_arcs_len(arcs: Seq<u64>)
    ensures
        encode_arcs(arcs).len() == arcs_len(arcs),
    decreases arcs.len(),
{
    if arcs.len() != 0 {
        lemma_encode_arcs_len(arcs.skip(1));
    }
}

/// The contents octets of a path are as many as [`spec_bytes_len`] says.
pub proof fn lemma_encode_len(arcs: Seq<u64>)
    ensures
        spec_encode(arcs).len() == spec_bytes_len(arcs),
{
    lemma_encode_arcs_len(arcs.skip(2));
}

/// A decoder that meets the leading groups of `n` at `pos` takes them all in
/// and goes on behind them, as long as the arc stays within 64 bits.
pub proof fn lemma_decode_leading_groups(s: Seq<u8>, pos: int, acc: nat, pending: bool, n: nat)
    requires
        lies_at(s, pos, base128::leading_groups(n)),
        base128::shift_in(acc, n) <= u64::MAX / 128,
    ensures
        decode_arcs(s, pos, acc, pending) == decode_arcs(
            s,
            pos + base128::leading_groups(n).len(),
            base128::shift_in(acc, n),
            pending || n != 0,
        ),
    decreases n,
{
    if n != 0 {
        let before = base128::leading_groups(n / 128);
        let last = seq![(128 + n % 128) as u8];
        assert(base128::leading_groups(n) == before + last);
        lemma_lies_at_split(s, pos, before, last);
        lemma_decode_leading_groups(s, pos, acc, pending, n / 128);
        lemma_lies_at_index(s, pos + before.len(), last, 0);
    }
}

/// Where the encoding of `arcs` lies at `pos` and runs up to the end of the
/// octets, a decoder that starts there between two arcs finds `arcs`.
pub proof fn lemma_decode_encoded_arcs(s: Seq<u8>, pos: int, arcs: Seq<u64>)
    requires
        lies_at(s, pos, encode_arcs(arcs)),
        pos + encode_arcs(arcs).len() == s.len(),
    ensures
        decode_arcs(s, pos, 0, false) == Ok::<Seq<u64>, Error>(arcs),
    decreases arcs.len(),
{
    if arcs.len() == 0 {
        assert(arcs == Seq::<u64>::empty());
    } else {
        let n = arcs[0] as nat;
        let groups = base128::leading_groups(n / 128);
        let last = seq![(n % 128) as u8];
        let tail = encode_arcs(arcs.skip(1));
        assert(encode_arcs(arcs) == (groups + last) + tail);
        lemma_lies_at_split(s, pos, groups + last, tail);
        lemma_lies_at_split(s, pos, groups, last);
        base128::lemma_shift_in_zero(n / 128);
        lemma_decode_leading_groups(s, pos, 0, false, n / 128);
        lemma_lies_at_index(s, pos + groups.len(), last, 0);
        assert((n / 128) * 128 + n % 128 == n);
        lemma_decode_encoded_arcs(s, pos + groups.len() + 1, arcs.skip(1));
        assert(seq![arcs[0]] + arcs.skip(1) == arcs);
    }
}

/// The octets of a path are read back as that path.
///
/// This is stated for every path whose first two arcs fit the first octet.
/// A valid path with a second arc of 40 or more (`2.40`, say) has no
/// encoding here and is not covered.
pub proof fn lemma_round_trip(arcs: Seq<u64>)
    requires
        encodable(arcs),
    ensures
        spec_decode(spec_encode(arcs)) == Ok::<Seq<u64>, Error>(arcs),
        spec_encode(arcs).len() == spec_bytes_len(arcs),
{
    let s = spec_encode(arcs);
    let first = seq![(40 * arcs[0] + arcs[1]) as u8];
    lemma_encode_len(arcs);
    lemma_lies_at_start(s);
    lemma_lies_at_split(s, 0, first, encode_arcs(arcs.skip(2)));
    lemma_decode_encoded_arcs(s, 1, arcs.skip(2));
    assert(seq![arcs[0], arcs[1]] + arcs.skip(2) == arcs);
}

/// A path of numbered arcs.
///
/// A value of this type always has at least two arcs, and its first two arcs
/// fit the first contents octet: [`encodable`] holds of it.
#[derive(Debug)]
pub struct ObjectIdentifier {
    components: Vec<u64>,
}

impl View for ObjectIdentifier {
    type V = Seq<u64>;

    closed spec fn view(&self) -> Seq<u64> {
        self.components@
    }
}

impl ObjectIdentifier {
    #[verifier::type_invariant]
    spec fn well_formed(&self) -> bool {
        &&& encodable(self.components@)
        &&& spec_bytes_len(self.components@) <= usize::MAX
    }

    /// Reads a path from its contents octets.
    ///
    /// The first octet `b` gives the arcs `b / 40` and `b % 40`. Each further
    /// arc is a group of octets that ends with the first octet whose high bit
    /// is clear.
    pub fn from_bytes(b: &[u8]) -> (r: Result<ObjectIdentifier>)
        ensures
            match spec_decode(b@) {
                Ok(arcs) => r is Ok && r->Ok_0@ == arcs && encodable(arcs),
                Err(e) => r is Err && r->Err_0 == e,
            },
    {
        if b.len() < 1 {
            return Err(Error::UnexpectedEndOfData);
        }
        let capacity = match b.len().checked_add(1) {
            Some(c) => c,
            None => b.len(),
        };
        let mut components = Vec::<u64>::with_capacity(capacity);
        let first = b[0];
        components.push((first / 40) as u64);
        components.push((first % 40) as u64);

        let mut expect_continuation = false;
        let mut accumulator = 0u64;
        let mut i: usize = 1;
        while i < b.len()
            invariant
                1 <= i <= b.len(),
                components@.len() >= 2,
                components@[0] == first / 40,
                components@[1] == first % 40,
                first == b@[0],
                accumulator % 128 == 0,
                !expect_continuation ==> accumulator == 0,
                decode_arcs(b@, 1, 0, false) == prepend(
                    components@.skip(2),
                    decode_arcs(b@, i as int, accumulator as nat / 128, expect_continuation),
                ),
                1 + arcs_len(components@.skip(2)) + base128::group_count(accumulator as nat / 128)
                    <= i,
            decreases b.len() - i,
        {
            let octet = b[i];
            let low = (octet & 0x7f) as u64;
            let ghost done = components@.skip(2);
            assert(low == octet % 128) by (bit_vector)
                requires
                    low == (octet & 0x7f) as u64,
            ;
            assert((octet & 0x80 != 0) == (octet >= 128)) by (bit_vector);
            assert(accumulator | low == accumulator + low) by (bit_vector)
                requires
                    accumulator % 128 == 0,
                    low < 128,
            ;
            accumulator |= low;
            if octet & 0x80 != 0 {
                if accumulator > u64::MAX / 128 {
                    return Err(Error::ComponentOverflow);
                }
                accumulator *= 128;
                expect_continuation = true;
            } else {
                components.push(accumulator);
                proof {
                    let found = decode_arcs(b@, i as int + 1, 0, false);
                    assert(components@.skip(2) == done.push(accumulator));
                    if found is Ok {
                        assert(done + (seq![accumulator] + found->Ok_0) == done.push(accumulator)
                            + found->Ok_0);
                    }
                    lemma_arcs_len_push(done, accumulator);
                    base128::lemma_encoding_len(accumulator as nat);
                }
                accumulator = 0;
                expect_continuation = false;
            }
            i += 1;
        }

        if expect_continuation {
            return Err(Error::UnexpectedEndOfData);
        }
        Ok(ObjectIdentifier { components: components })
    }

    /// The arcs of the path.
    pub fn components(&self) -> (arcs: &[u64])
        ensures
            arcs@ == self@,
            encodable(self@),
    {
        proof {
            use_type_invariant(self);
        }
        self.components.as_slice()
    }

    /// How many contents octets the path takes.
    #[inline]
    pub fn bytes_len(&self) -> (len: usize)
        ensures
            len == spec_bytes_len(self@),
            len == spec_encode(self@).len(),
    {
        proof {
            use_type_invariant(self);
            lemma_encode_len(self@);
        }
        let mut len: usize = 1;
        let mut i: usize = 2;
        while i < self.components.len()
            invariant
                2 <= i <= self.components@.len(),
                len + arcs_len(self.components@.skip(i as int)) == spec_bytes_len(
                    self.components@,
                ),
                spec_bytes_len(self.components@) <= usize::MAX,
            decreases self.components@.len() - i,
        {
            assert(self.components@.skip(i as int).skip(1) == self.components@.skip(i as int + 1));
            len += byte_len_for_component(self.components[i]);
            i += 1;
        }
        len
    }

    /// The contents octets of the path.
    #[inline]
    pub fn to_bytes(&self) -> (bytes: Vec<u8>)
        ensures
            bytes@ == spec_encode(self@),
    {
        let bytes_len = self.bytes_len();
        let mut v = Vec::with_capacity(bytes_len);
        self.write_to(&mut v);
        v
    }

    /// Appends the contents octets of the path to `w` and returns how many
    /// there were.
    pub fn write_to(&self, w: &mut Vec<u8>) -> (written: usize)
        ensures
            final(w)@ == old(w)@ + spec_encode(self@),
            written == spec_encode(self@).len(),
    {
        proof {
            use_type_invariant(self);
            lemma_encode_len(self@);
        }
        let first_byte_hi = self.components[0];
        let first_byte_lo = self.components[1];
        let mut len: usize = 1;
        w.push((first_byte_hi * 40 + first_byte_lo) as u8);

        let mut i: usize = 2;
        while i < self.components.len()
            invariant
                2 <= i <= self.components@.len(),
                w@ + encode_arcs(self.components@.skip(i as int)) == old(w)@ + spec_encode(
                    self.components@,
                ),
                len + arcs_len(self.components@.skip(i as int)) == spec_bytes_len(
                    self.components@,
                ),
                spec_bytes_len(self.components@) <= usize::MAX,
            decreases self.components@.len() - i,
        {
            assert(self.components@.skip(i as int).skip(1) == self.components@.skip(i as int + 1));
            len += base128::append_encoding(self.components[i], w);
            i += 1;
        }
        len
    }
}

/// Putting one more arc behind a run adds the octets of that arc.
pub proof fn lemma_arcs_len_push(arcs: Seq<u64>, arc: u64)
    ensures
        arcs_len(arcs.push(arc)) == arcs_len(arcs) + base128::encoding(arc as nat).len(),
    decreases arcs.len(),
{
    let longer = arcs.push(arc);
    if arcs.len() == 0 {
        assert(arcs_len(longer.skip(1)) == 0);
    } else {
        assert(longer.skip(1) == arcs.skip(1).push(arc));
        lemma_arcs_len_push(arcs.skip(1), arc);
    }
}

/// How many octets one arc takes in base 128: one for each digit, and one
/// for the arc 0.
#[inline]
pub fn byte_len_for_component(c: u64) -> (len: usize)
    ensures
        len == base128::encoding(c as nat).len(),
        1 <= len <= 10,
{
    proof {
        base128::lemma_encoding_len(c as nat);
        base128::lemma_group_count_u64(c as nat);
    }
    let mut len: usize = 1;
    let mut rest = c / 128;
    while rest > 0
        invariant
            len + base128::group_count(rest as nat) == base128::encoding(c as nat).len(),
            base128::encoding(c as nat).len() <= 10,
        decreases rest,
    {
        len += 1;
        rest /= 128;
    }
    len
}

} // verus!
