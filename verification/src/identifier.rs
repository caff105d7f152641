//! The identifier octets of a tag-length-value unit: class, the
//! primitive/constructed bit and the tag number.
//!
//! The first octet holds the class in its top two bits, the constructed bit
//! in bit 5 and the tag number in the low five bits. A tag number of 31 or
//! more does not fit there: the low five bits are then all set and the number
//! follows in base 128 (see [`crate::base128`]).

use crate::base128;
use vstd::prelude::*;

verus! {

/// The class of a tag: the top two bits of the first identifier octet.
#[derive(Copy, Clone, Debug, PartialEq, Eq, Structural, PartialOrd, Ord, Hash)]
pub enum Class {
    Universal,
    Application,
    ContextSpecific,
    Private,
}

impl Class {
    /// The class as the number that its two bits spell.
    pub open spec fn spec_bits(self) -> nat {
        match self {
            Class::Universal => 0,
            Class::Application => 1,
            Class::ContextSpecific => 2,
            Class::Private => 3,
        }
    }

    /// The class that the top two bits of `v` name.
    pub open spec fn spec_from_u8(v: u8) -> Class {
        if v < 64 {
            Class::Universal
        } else if v < 128 {
            Class::Application
        } else if v < 192 {
            Class::ContextSpecific
        } else {
            Class::Private
        }
    }

    /// Reads the class from the top two bits of an identifier octet. The
    /// other six bits are ignored.
    pub fn from_u8(v: u8) -> (class: Self)
        ensures
            class == Class::spec_from_u8(v),
            class.spec_bits() == v / 64,
    {
        let top = (v >> 6) & 0b11;
        assert(top == v / 64) by (bit_vector)
            requires
                top == (v >> 6) & 0b11,
        ;
        if top == 0b00 {
            Class::Universal
        } else if top == 0b01 {
            Class::Application
        } else if top == 0b10 {
            Class::ContextSpecific
        } else {
            Class::Private
        }
    }

    /// The class in place: its two bits at the top of an otherwise empty
    /// octet.
    pub fn into_u8(self) -> (v: u8)
        ensures
            v == self.spec_bits() * 64,
    {
        let bits: u8 = match self {
            Class::Universal => 0b00,
            Class::Application => 0b01,
            Class::ContextSpecific => 0b10,
            Class::Private => 0b11,
        };
        assert(bits << 6 == bits * 64) by (bit_vector)
            requires
                bits < 4,
        ;
        bits << 6
    }
}

impl From<Class> for u8 {
    fn from(v: Class) -> (octet: u8) {
        v.into_u8()
    }
}

impl vstd::std_specs::convert::FromSpecImpl<Class> for u8 {
    open spec fn obeys_from_spec() -> bool {
        true
    }

    open spec fn from_spec(v: Class) -> u8 {
        (v.spec_bits() * 64) as u8
    }
}

/// The tag numbers of the universal class. The numbers 14 and 15 are
/// reserved and 31 announces a tag number in the long form, so none of the
/// three has a name here.
#[derive(Copy, Clone, Debug, PartialEq, Eq, Structural, Hash)]
pub enum UniversalTag {
    EndOfContent,
    Boolean,
    Integer,
    BitString,
    OctetString,
    Null,
    ObjectIdentifier,
    ObjectDescriptor,
    External,
    Real,
    Enumerated,
    EmbeddedPdv,
    Utf8String,
    RelativeOid,
    Sequence,
    SetOf,
    NumericString,
    PrintableString,
    T61String,
    VideotexString,
    Ia5String,
    UtcTime,
    GeneralizedTime,
    GraphicString,
    VisibleString,
    GeneralString,
    UniversalString,
    CharacterString,
    BmpString,
}

impl UniversalTag {
    /// The tag number that X.680 assigns to the tag.
    pub open spec fn spec_number(self) -> u8 {
        match self {
            UniversalTag::EndOfContent => 0,
            UniversalTag::Boolean => 1,
            UniversalTag::Integer => 2,
            UniversalTag::BitString => 3,
            UniversalTag::OctetString => 4,
            UniversalTag::Null => 5,
            UniversalTag::ObjectIdentifier => 6,
            UniversalTag::ObjectDescriptor => 7,
            UniversalTag::External => 8,
            UniversalTag::Real => 9,
            UniversalTag::Enumerated => 10,
            UniversalTag::EmbeddedPdv => 11,
            UniversalTag::Utf8String => 12,
            UniversalTag::RelativeOid => 13,
            UniversalTag::Sequence => 16,
            UniversalTag::SetOf => 17,
            UniversalTag::NumericString => 18,
            UniversalTag::PrintableString => 19,
            UniversalTag::T61String => 20,
            UniversalTag::VideotexString => 21,
            UniversalTag::Ia5String => 22,
            UniversalTag::UtcTime => 23,
            UniversalTag::GeneralizedTime => 24,
            UniversalTag::GraphicString => 25,
            UniversalTag::VisibleString => 26,
            UniversalTag::GeneralString => 27,
            UniversalTag::UniversalString => 28,
            UniversalTag::CharacterString => 29,
            UniversalTag::BmpString => 30,
        }
    }

    /// The tag with the number `n`, if there is one.
    pub open spec fn spec_from_number(n: nat) -> Option<UniversalTag> {
        if n == 0 {
            Some(UniversalTag::EndOfContent)
        } else if n == 1 {
            Some(UniversalTag::Boolean)
        } else if n == 2 {
            Some(UniversalTag::Integer)
        } else if n == 3 {
            Some(UniversalTag::BitString)
        } else if n == 4 {
            Some(UniversalTag::OctetString)
        } else if n == 5 {
            Some(UniversalTag::Null)
        } else if n == 6 {
            Some(UniversalTag::ObjectIdentifier)
        } else if n == 7 {
            Some(UniversalTag::ObjectDescriptor)
        } else if n == 8 {
            Some(UniversalTag::External)
        } else if n == 9 {
            Some(UniversalTag::Real)
        } else if n == 10 {
            Some(UniversalTag::Enumerated)
        } else if n == 11 {
            Some(UniversalTag::EmbeddedPdv)
        } else if n == 12 {
            Some(UniversalTag::Utf8String)
        } else if n == 13 {
            Some(UniversalTag::RelativeOid)
        } else if n == 16 {
            Some(UniversalTag::Sequence)
        } else if n == 17 {
            Some(UniversalTag::SetOf)
        } else if n == 18 {
            Some(UniversalTag::NumericString)
        } else if n == 19 {
            Some(UniversalTag::PrintableString)
        } else if n == 20 {
            Some(UniversalTag::T61String)
        } else if n == 21 {
            Some(UniversalTag::VideotexString)
        } else if n == 22 {
            Some(UniversalTag::Ia5String)
        } else if n == 23 {
            Some(UniversalTag::UtcTime)
        } else if n == 24 {
            Some(UniversalTag::GeneralizedTime)
        } else if n == 25 {
            Some(UniversalTag::GraphicString)
        } else if n == 26 {
            Some(UniversalTag::VisibleString)
        } else if n == 27 {
            Some(UniversalTag::GeneralString)
        } else if n == 28 {
            Some(UniversalTag::UniversalString)
        } else if n == 29 {
            Some(UniversalTag::CharacterString)
        } else if n == 30 {
            Some(UniversalTag::BmpString)
        } else {
            None
        }
    }

    /// The tag number.
    pub fn into_u8(self) -> (n: u8)
        ensures
            n == self.spec_number(),
            n < 31,
    {
        match self {
            UniversalTag::EndOfContent => 0b00000,
            UniversalTag::Boolean => 0b00001,
            UniversalTag::Integer => 0b00010,
            UniversalTag::BitString => 0b00011,
            UniversalTag::OctetString => 0b00100,
            UniversalTag::Null => 0b00101,
            UniversalTag::ObjectIdentifier => 0b00110,
            UniversalTag::ObjectDescriptor => 0b00111,
            UniversalTag::External => 0b01000,
            UniversalTag::Real => 0b01001,
            UniversalTag::Enumerated => 0b01010,
            UniversalTag::EmbeddedPdv => 0b01011,
            UniversalTag::Utf8String => 0b01100,
            UniversalTag::RelativeOid => 0b01101,
            UniversalTag::Sequence => 0b10000,
            UniversalTag::SetOf => 0b10001,
            UniversalTag::NumericString => 0b10010,
            UniversalTag::PrintableString => 0b10011,
            UniversalTag::T61String => 0b10100,
            UniversalTag::VideotexString => 0b10101,
            UniversalTag::Ia5String => 0b10110,
            UniversalTag::UtcTime => 0b10111,
            UniversalTag::GeneralizedTime => 0b11000,
            UniversalTag::GraphicString => 0b11001,
            UniversalTag::VisibleString => 0b11010,
            UniversalTag::GeneralString => 0b11011,
            UniversalTag::UniversalString => 0b11100,
            UniversalTag::CharacterString => 0b11101,
            UniversalTag::BmpString => 0b11110,
        }
    }

    /// The tag whose number is `v`. There is none for the reserved numbers
    /// 14 and 15 and for any number above 30: such a tag number is not a
    /// recognized one, in whichever form it was written.
    pub fn from_u64(v: u64) -> (tag: Option<Self>)
        ensures
            tag == UniversalTag::spec_from_number(v as nat),
            tag is Some <==> v <= 30 && v != 14 && v != 15,
            tag matches Some(t) ==> t.spec_number() == v,
    {
        if v == 0b00000 {
            Some(UniversalTag::EndOfContent)
        } else if v == 0b00001 {
            Some(UniversalTag::Boolean)
        } else if v == 0b00010 {
            Some(UniversalTag::Integer)
        } else if v == 0b00011 {
            Some(UniversalTag::BitString)
        } else if v == 0b00100 {
            Some(UniversalTag::OctetString)
        } else if v == 0b00101 {
            Some(UniversalTag::Null)
        } else if v == 0b00110 {
            Some(UniversalTag::ObjectIdentifier)
        } else if v == 0b00111 {
            Some(UniversalTag::ObjectDescriptor)
        } else if v == 0b01000 {
            Some(UniversalTag::External)
        } else if v == 0b01001 {
            Some(UniversalTag::Real)
        } else if v == 0b01010 {
            Some(UniversalTag::Enumerated)
        } else if v == 0b01011 {
            Some(UniversalTag::EmbeddedPdv)
        } else if v == 0b01100 {
            Some(UniversalTag::Utf8String)
        } else if v == 0b01101 {
            Some(UniversalTag::RelativeOid)
        } else if v == 0b10000 {
            Some(UniversalTag::Sequence)
        } else if v == 0b10001 {
            Some(UniversalTag::SetOf)
        } else if v == 0b10010 {
            Some(UniversalTag::NumericString)
        } else if v == 0b10011 {
            Some(UniversalTag::PrintableString)
        } else if v == 0b10100 {
            Some(UniversalTag::T61String)
        } else if v == 0b10101 {
            Some(UniversalTag::VideotexString)
        } else if v == 0b10110 {
            Some(UniversalTag::Ia5String)
        } else if v == 0b10111 {
            Some(UniversalTag::UtcTime)
        } else if v == 0b11000 {
            Some(UniversalTag::GeneralizedTime)
        } else if v == 0b11001 {
            Some(UniversalTag::GraphicString)
        } else if v == 0b11010 {
            Some(UniversalTag::VisibleString)
        } else if v == 0b11011 {
            Some(UniversalTag::GeneralString)
        } else if v == 0b11100 {
            Some(UniversalTag::UniversalString)
        } else if v == 0b11101 {
            Some(UniversalTag::CharacterString)
        } else if v == 0b11110 {
            Some(UniversalTag::BmpString)
        } else {
            None
        }
    }

    /// A tag's number leads back to the tag.
    pub proof fn lemma_number_names_tag(self)
        ensures
            UniversalTag::spec_from_number(self.spec_number() as nat) == Some(self),
            self.spec_number() < 31,
    {
    }

    /// A number that names a tag is that tag's number.
    pub proof fn lemma_tag_has_number(n: nat)
        requires
            UniversalTag::spec_from_number(n) is Some,
        ensures
            UniversalTag::spec_from_number(n)->0.spec_number() == n,
    {
    }
}

impl From<UniversalTag> for u8 {
    fn from(tag: UniversalTag) -> (n: u8) {
        tag.into_u8()
    }
}

impl vstd::std_specs::convert::FromSpecImpl<UniversalTag> for u8 {
    open spec fn obeys_from_spec() -> bool {
        true
    }

    open spec fn from_spec(tag: UniversalTag) -> u8 {
        tag.spec_number()
    }
}

impl From<UniversalTag> for u32 {
    fn from(tag: UniversalTag) -> (n: u32) {
        tag.into_u8() as u32
    }
}

impl vstd::std_specs::convert::FromSpecImpl<UniversalTag> for u32 {
    open spec fn obeys_from_spec() -> bool {
        true
    }

    open spec fn from_spec(tag: UniversalTag) -> u32 {
        tag.spec_number() as u32
    }
}

impl From<UniversalTag> for u64 {
    fn from(tag: UniversalTag) -> (n: u64) {
        tag.into_u8() as u64
    }
}

impl vstd::std_specs::convert::FromSpecImpl<UniversalTag> for u64 {
    open spec fn obeys_from_spec() -> bool {
        true
    }

    open spec fn from_spec(tag: UniversalTag) -> u64 {
        tag.spec_number() as u64
    }
}

/// What the identifier octets of a unit say: its class, whether its value is
/// itself a run of units, and its tag number.
///
/// Any tag number can stand with any class. In particular a universal tag
/// number without a name in [`UniversalTag`] is kept as it is.
#[derive(Copy, Clone, Debug, PartialEq, Eq, Structural, Hash)]
pub struct Identifier {
    pub class: Class,
    pub constructed: bool,
    pub tag: u64,
}

impl Identifier {
    /// The first identifier octet: class, constructed bit, and the tag
    /// number or, where that is too large, five set bits.
    pub open spec fn spec_first_octet(self) -> u8 {
        (self.class.spec_bits() * 64 + if self.constructed {
            32nat
        } else {
            0nat
        } + if self.tag < 31 {
            self.tag as nat
        } else {
            31nat
        }) as u8
    }

    /// The identifier octets.
    pub open spec fn spec_bytes(self) -> Seq<u8> {
        if self.tag < 31 {
            seq![self.spec_first_octet()]
        } else {
            seq![self.spec_first_octet()] + base128::encoding(self.tag as nat)
        }
    }

    /// What a single octet says, where it is a whole identifier: there is
    /// none where the low five bits announce the long form.
    pub open spec fn spec_from_u8(v: u8) -> Option<Identifier> {
        if v % 32 == 31 {
            None
        } else {
            Some(
                Identifier {
                    class: Class::spec_from_u8(v),
                    constructed: (v / 32) % 2 == 1,
                    tag: (v % 32) as u64,
                },
            )
        }
    }

    pub fn new(klass: Class, constructed: bool, tag: u64) -> (id: Self)
        ensures
            id == (Identifier { class: klass, constructed, tag }),
    {
        Identifier { class: klass, constructed, tag }
    }

    /// Reads an identifier from its only octet. An octet whose low five
    /// bits are all set is the start of a longer identifier and gives none.
    pub fn from_u8(v: u8) -> (id: Option<Self>)
        ensures
            id == Identifier::spec_from_u8(v),
            id is None <==> v % 32 == 31,
    {
        let class = Class::from_u8(v & 0xc0);
        let constructed = (v & 0x20) != 0;
        let tag = v & 0x1f;
        assert((v & 0xc0) / 64 == v / 64) by (bit_vector);
        assert(((v & 0x20) != 0) == ((v / 32) % 2 == 1)) by (bit_vector);
        assert(v & 0x1f == v % 32) by (bit_vector);
        if tag == 0x1f {
            return None;
        }
        Some(Identifier { class, constructed, tag: tag as u64 })
    }

    #[inline]
    pub fn class(&self) -> (class: Class)
        ensures
            class == self.class,
    {
        self.class
    }

    #[inline]
    pub fn is_constructed(&self) -> (constructed: bool)
        ensures
            constructed == self.constructed,
    {
        self.constructed
    }

    #[inline]
    pub fn tag(&self) -> (tag: u64)
        ensures
            tag == self.tag,
    {
        self.tag
    }

    /// How many octets the identifier takes: one, and for a tag number of 31
    /// or more one for each of its base-128 digits.
    #[inline]
    pub fn bytes_len(&self) -> (len: usize)
        ensures
            len == self.spec_bytes().len(),
            len == if self.tag < 31 {
                1
            } else {
                1 + base128::group_count(self.tag as nat)
            },
            1 <= len <= 11,
    {
        let tag = self.tag();
        proof {
            base128::lemma_encoding_len(tag as nat);
            base128::lemma_group_count_u64(tag as nat);
        }
        if tag < 31 {
            return 1;
        }
        let mut tag = tag;
        let mut len: usize = 1;
        while tag != 0
            invariant
                len + base128::group_count(tag as nat) == 1 + base128::group_count(self.tag as nat),
                base128::group_count(self.tag as nat) <= 10,
            decreases tag,
        {
            len += 1;
            tag = tag / 128;
        }
        len
    }

    /// The identifier octets.
    #[inline]
    pub fn to_bytes(&self) -> (bytes: Vec<u8>)
        ensures
            bytes@ == self.spec_bytes(),
    {
        let bytes_len = self.bytes_len();
        let mut v = Vec::with_capacity(bytes_len);
        self.write_to(&mut v);
        v
    }

    /// Appends the identifier octets to `w` and returns how many there were.
    pub fn write_to(&self, w: &mut Vec<u8>) -> (written: usize)
        ensures
            final(w)@ == old(w)@ + self.spec_bytes(),
            written == self.spec_bytes().len(),
    {
        let tag = self.tag();
        let class = self.class.into_u8();
        let constructed: u8 = if self.constructed {
            0x20
        } else {
            0
        };
        if tag < 31 {
            let low = tag as u8;
            let b: u8 = class | constructed | low;
            assert(b == class + constructed + low) by (bit_vector)
                requires
                    b == class | constructed | low,
                    class == 0 || class == 64 || class == 128 || class == 192,
                    constructed == 0 || constructed == 32,
                    low < 31,
            ;
            w.push(b);
            return 1;
        }
        let b: u8 = class | constructed | 0x1f;
        assert(b == class + constructed + 31) by (bit_vector)
            requires
                b == class | constructed | 0x1f,
                class == 0 || class == 64 || class == 128 || class == 192,
                constructed == 0 || constructed == 32,
        ;
        w.push(b);
        proof {
            base128::lemma_encoding_len(tag as nat);
            base128::lemma_group_count_u64(tag as nat);
        }
        1 + base128::append_encoding(tag, w)
    }

    /// An octet that is a whole identifier is read and written back
    /// unchanged. This holds for the reserved tag numbers 14 and 15 too.
    pub proof fn lemma_octet_round_trip(b: u8)
        requires
            b % 32 != 31,
        ensures
            Identifier::spec_from_u8(b) is Some,
            Identifier::spec_from_u8(b)->0.spec_bytes() == seq![b],
    {
    }

    /// An identifier with a tag number under 31 is written as one octet, and
    /// reading that octet gives the identifier back.
    pub proof fn lemma_short_form_round_trip(self)
        requires
            self.tag < 31,
        ensures
            self.spec_bytes().len() == 1,
            Identifier::spec_from_u8(self.spec_bytes()[0]) == Some(self),
    {
    }
}

} // verus!
