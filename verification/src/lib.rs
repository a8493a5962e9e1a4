//! Mapping between control-file paragraphs and statically-typed records.
//!
//! A paragraph is an ordered list of named text fields, as a Debian control
//! file parser produces it. A record type declares its fields by identifier
//! and optionality; the mapper decodes a paragraph into such a record --
//! matching each paragraph field against the declared identifiers'
//! transformed names, ignoring unrecognized fields, and failing on the first
//! missing mandatory field -- and encodes a record back into a paragraph,
//! mandatory fields first, then the present optional ones.

mod laws;
mod mapper;
mod paragraph;
mod records;
mod transform;

pub use records::DebControl;
pub use records::DerivedStruct;
pub use records::StandaloneLicense;

pub use laws::lemma_absent_name_decodes_none;
pub use laws::lemma_optional_absent_encode;
pub use laws::lemma_round_trip;
pub use laws::lemma_unknown_field_tolerance;

pub use mapper::decode;
pub use mapper::decode_ok;
pub use mapper::decoded_slot;
pub use mapper::encode;
pub use mapper::encode_spec;
pub use mapper::first_missing_at;
pub use mapper::lookup;
pub use mapper::mandatory_fields;
pub use mapper::optional_fields;
pub use mapper::unique_names;
pub use mapper::values_match;

pub use paragraph::DeclView;
pub use paragraph::DecodeError;
pub use paragraph::Field;
pub use paragraph::FieldDecl;
pub use paragraph::FieldView;
pub use paragraph::Paragraph;
pub use paragraph::Record;
pub use paragraph::error_identifier;
pub use transform::ident_to_parse;
pub use transform::lemma_capitalization_forced;
pub use transform::lemma_upper_char_idempotent;
pub use transform::transform_chars;
pub use transform::transform_name;
pub use transform::upper_char;
