use vstd::prelude::*;
use vstd::string::StringExecFns;

use crate::mapper::decode;
use crate::mapper::decode_ok;
use crate::mapper::decoded_slot;
use crate::mapper::encode;
use crate::mapper::encode_spec;
use crate::mapper::first_missing_at;
use crate::mapper::unique_names;
use crate::mapper::values_match;
use crate::paragraph::DeclView;
use crate::paragraph::DecodeError;
use crate::paragraph::FieldDecl;
use crate::paragraph::Paragraph;
use crate::paragraph::Record;
use crate::paragraph::error_identifier;
use crate::transform::transform_chars;
use crate::transform::transform_name;

verus! {

/// A record type that can be mapped to and from a control-file paragraph.
/// `decls_spec` fixes the field declarations; decoding and encoding must
/// meet the record-mapper contract over those declarations.
pub trait DebControl: Sized {
    /// The field declarations of this record type, in declaration order.
    spec fn decls_spec() -> Seq<DeclView>;

    /// The record's value slots, in declaration order.
    spec fn values_spec(&self) -> Seq<Option<Seq<char>>>;

    /// Decode a paragraph into this record type: fill every declared
    /// field's slot from the last paragraph field carrying its transformed
    /// name, ignore unrecognized fields, and fail on the first mandatory
    /// declared field that stays empty.
    fn from_paragraph(p: &Paragraph) -> (res: Result<Self, DecodeError>)
        ensures
            res is Ok <==> decode_ok(Self::decls_spec(), p@),
            res matches Ok(rec) ==> values_match(Self::decls_spec(), rec.values_spec())
                && forall|i: int|
                0 <= i < Self::decls_spec().len() ==> rec.values_spec()[i] == decoded_slot(
                    Self::decls_spec(),
                    p@,
                    i,
                ),
            res matches Err(e) ==> exists|k: int|
                #[trigger] first_missing_at(Self::decls_spec(), p@, k) && error_identifier(e)
                    == Self::decls_spec()[k].identifier;

    /// Encode this record into a paragraph: all mandatory fields in
    /// declaration order, then all present optional fields in declaration
    /// order.
    fn to_paragraph(&self) -> (p: Paragraph)
        ensures
            p@ == encode_spec(Self::decls_spec(), self.values_spec());
}

/// A standalone license paragraph: a mandatory `License` field and an
/// optional `Comment` field.
#[derive(Debug, Clone, PartialEq, Eq)]
pub struct StandaloneLicense {
    pub license: String,
    pub comment: Option<String>,
}

/// A record with one single-word mandatory field, one multi-word mandatory
/// field and one optional field.
#[derive(Debug, Clone, PartialEq, Eq)]
pub struct DerivedStruct {
    pub first: String,
    pub multiple_words: String,
    pub optional: Option<String>,
}

proof fn lemma_concrete_names()
    ensures
        transform_name("license"@) == "License"@,
        transform_name("comment"@) == "Comment"@,
        transform_name("first"@) == "First"@,
        transform_name("multiple_words"@) == "Multiple-Words"@,
        transform_name("optional"@) == "Optional"@,
{
    reveal_strlit("license");
    reveal_strlit("License");
    reveal_strlit("comment");
    reveal_strlit("Comment");
    reveal_strlit("first");
    reveal_strlit("First");
    reveal_strlit("multiple_words");
    reveal_strlit("Multiple-Words");
    reveal_strlit("optional");
    reveal_strlit("Optional");
    reveal_with_fuel(transform_chars, 16);
    assert(transform_name("license"@) =~= "License"@);
    assert(transform_name("comment"@) =~= "Comment"@);
    assert(transform_name("first"@) =~= "First"@);
    assert(transform_name("multiple_words"@) =~= "Multiple-Words"@);
    assert(transform_name("optional"@) =~= "Optional"@);
}

proof fn lemma_standalone_unique()
    ensures
        unique_names(StandaloneLicense::decls_spec()),
{
    lemma_concrete_names();
    reveal_strlit("License");
    reveal_strlit("Comment");
    let ds = StandaloneLicense::decls_spec();
    assert("License"@[0] == 'L' && "Comment"@[0] == 'C');
    assert(transform_name(ds[0].identifier) != transform_name(ds[1].identifier));
    assert forall|i: int, j: int| 0 <= i < j < ds.len() implies transform_name(ds[i].identifier)
        != transform_name(ds[j].identifier) by {
        assert(i == 0 && j == 1);
    }
}

proof fn lemma_derived_unique()
    ensures
        unique_names(DerivedStruct::decls_spec()),
{
    lemma_concrete_names();
    reveal_strlit("First");
    reveal_strlit("Multiple-Words");
    reveal_strlit("Optional");
    let ds = DerivedStruct::decls_spec();
    assert("First"@.len() == 5 && "Multiple-Words"@.len() == 14 && "Optional"@.len() == 8);
    assert forall|i: int, j: int| 0 <= i < j < ds.len() implies transform_name(ds[i].identifier)
        != transform_name(ds[j].identifier) by {
        assert(transform_name(ds[0].identifier) == "First"@);
        assert(transform_name(ds[1].identifier) == "Multiple-Words"@);
        assert(transform_name(ds[2].identifier) == "Optional"@);
    }
}

fn standalone_decls() -> (d: Vec<FieldDecl>)
    ensures
        d.deep_view() == StandaloneLicense::decls_spec(),
{
    let mut d: Vec<FieldDecl> = Vec::new();
    d.push(FieldDecl { identifier: String::from_str("license"), optional: false });
    d.push(FieldDecl { identifier: String::from_str("comment"), optional: true });
    proof {
        assert(d.deep_view() =~= StandaloneLicense::decls_spec());
    }
    d
}

fn derived_decls() -> (d: Vec<FieldDecl>)
    ensures
        d.deep_view() == DerivedStruct::decls_spec(),
{
    let mut d: Vec<FieldDecl> = Vec::new();
    d.push(FieldDecl { identifier: String::from_str("first"), optional: false });
    d.push(FieldDecl { identifier: String::from_str("multiple_words"), optional: false });
    d.push(FieldDecl { identifier: String::from_str("optional"), optional: true });
    proof {
        assert(d.deep_view() =~= DerivedStruct::decls_spec());
    }
    d
}

impl DebControl for StandaloneLicense {
    open spec fn decls_spec() -> Seq<DeclView> {
        seq![
            DeclView { identifier: "license"@, optional: false },
            DeclView { identifier: "comment"@, optional: true },
        ]
    }

    open spec fn values_spec(&self) -> Seq<Option<Seq<char>>> {
        seq![
            Some(self.license@),
            match self.comment {
                Some(c) => Some(c@),
                None => None,
            },
        ]
    }

    fn from_paragraph(p: &Paragraph) -> (res: Result<Self, DecodeError>) {
        let decls = standalone_decls();
        proof {
            lemma_standalone_unique();
        }
        match decode(&decls, p) {
            Err(e) => Err(e),
            Ok(mut rec) => {
                proof {
                    assert(rec@.len() == 2);
                    assert(rec@[0] == decoded_slot(Self::decls_spec(), p@, 0));
                    assert(rec@[1] == decoded_slot(Self::decls_spec(), p@, 1));
                    assert(rec@[0] is Some);
                    assert(rec@[0] == rec.values@[0].deep_view());
                    assert(rec@[1] == rec.values@[1].deep_view());
                }
                let comment = rec.values.pop().unwrap();
                let license = rec.values.pop().unwrap().unwrap();
                let out = StandaloneLicense { license, comment };
                proof {
                    assert(out.values_spec()[0] == decoded_slot(Self::decls_spec(), p@, 0));
                    assert(out.values_spec()[1] == decoded_slot(Self::decls_spec(), p@, 1));
                }
                Ok(out)
            },
        }
    }

    fn to_paragraph(&self) -> (p: Paragraph) {
        let decls = standalone_decls();
        let mut values: Vec<Option<String>> = Vec::new();
        values.push(Some(self.license.clone()));
        let comment = match &self.comment {
            Some(c) => Some(c.clone()),
            None => None,
        };
        values.push(comment);
        let rec = Record { values };
        proof {
            assert(rec@ =~= self.values_spec());
            assert(values_match(Self::decls_spec(), rec@));
        }
        encode(&decls, &rec)
    }
}

impl DebControl for DerivedStruct {
    open spec fn decls_spec() -> Seq<DeclView> {
        seq![
            DeclView { identifier: "first"@, optional: false },
            DeclView { identifier: "multiple_words"@, optional: false },
            DeclView { identifier: "optional"@, optional: true },
        ]
    }

    open spec fn values_spec(&self) -> Seq<Option<Seq<char>>> {
        seq![
            Some(self.first@),
            Some(self.multiple_words@),
            match self.optional {
                Some(c) => Some(c@),
                None => None,
            },
        ]
    }

    fn from_paragraph(p: &Paragraph) -> (res: Result<Self, DecodeError>) {
        let decls = derived_decls();
        proof {
            lemma_derived_unique();
        }
        match decode(&decls, p) {
            Err(e) => Err(e),
            Ok(mut rec) => {
                proof {
                    assert(rec@.len() == 3);
                    assert(rec@[0] == decoded_slot(Self::decls_spec(), p@, 0));
                    assert(rec@[1] == decoded_slot(Self::decls_spec(), p@, 1));
                    assert(rec@[2] == decoded_slot(Self::decls_spec(), p@, 2));
                    assert(rec@[0] is Some);
                    assert(rec@[1] is Some);
                    assert(rec@[0] == rec.values@[0].deep_view());
                    assert(rec@[1] == rec.values@[1].deep_view());
                    assert(rec@[2] == rec.values@[2].deep_view());
                }
                let optional = rec.values.pop().unwrap();
                let multiple_words = rec.values.pop().unwrap().unwrap();
                let first = rec.values.pop().unwrap().unwrap();
                let out = DerivedStruct { first, multiple_words, optional };
                proof {
                    assert(out.values_spec()[0] == decoded_slot(Self::decls_spec(), p@, 0));
                    assert(out.values_spec()[1] == decoded_slot(Self::decls_spec(), p@, 1));
                    assert(out.values_spec()[2] == decoded_slot(Self::decls_spec(), p@, 2));
                }
                Ok(out)
            },
        }
    }

    fn to_paragraph(&self) -> (p: Paragraph) {
        let decls = derived_decls();
        let mut values: Vec<Option<String>> = Vec::new();
        values.push(Some(self.first.clone()));
        values.push(Some(self.multiple_words.clone()));
        let optional = match &self.optional {
            Some(c) => Some(c.clone()),
            None => None,
        };
        values.push(optional);
        let rec = Record { values };
        proof {
            assert(rec@ =~= self.values_spec());
            assert(values_match(Self::decls_spec(), rec@));
        }
        encode(&decls, &rec)
    }
}

} // verus!
