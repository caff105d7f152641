//! Reading and writing ASN.1 data in its BER transfer encoding, with DER
//! conformance on the writing side.
//!
//! The crate is a tag-length-value codec: [`identifier`] holds the tag octets,
//! [`reading`] walks a buffer unit by unit and hands out borrowed windows of
//! it, [`writing`] frames contents into a byte sink, and
//! [`object_identifier`] is the value coder for object identifiers. The
//! module [`base128`] holds the number format that large tag numbers and
//! object identifier arcs share, and [`window`] a few facts about parts of a
//! byte sequence.
//!
//! Every executable function carries a contract over byte sequences. That
//! what is written is read back as it was is proved beside the encoders and
//! decoders, as lemmas over the same sequences.

pub mod base128;

pub mod identifier;
pub mod object_identifier;
pub mod reading;
pub mod window;
pub mod writing;

pub use identifier::Identifier;

pub use reading::Asn1Reader;
