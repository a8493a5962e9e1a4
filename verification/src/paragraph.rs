use vstd::prelude::*;

verus! {

/// One named field of a control-file paragraph.
#[derive(Debug, Clone, PartialEq, Eq)]
pub struct Field {
    pub name: String,
    pub value: String,
}

/// The mathematical value of a `Field`: its name and value as character
/// sequences.
#[verifier::ext_equal]
pub ghost struct FieldView {
    pub name: Seq<char>,
    pub value: Seq<char>,
}

impl View for Field {
    type V = FieldView;

    open spec fn view(&self) -> FieldView {
        FieldView { name: self.name@, value: self.value@ }
    }
}

impl DeepView for Field {
    type V = FieldView;

    open spec fn deep_view(&self) -> FieldView {
        self.view()
    }
}

/// An ordered sequence of named fields, as an external control-file parser
/// hands it over. Order matters for encoding output; decoding tolerates any
/// order.
#[derive(Debug, Clone, PartialEq, Eq)]
pub struct Paragraph {
    pub fields: Vec<Field>,
}

impl View for Paragraph {
    type V = Seq<FieldView>;

    open spec fn view(&self) -> Seq<FieldView> {
        self.fields.deep_view()
    }
}

/// One declared field of a record type: its identifier (lower-case words
/// joined by `'_'`) and whether a paragraph may omit it.
#[derive(Debug, Clone, PartialEq, Eq)]
pub struct FieldDecl {
    pub identifier: String,
    pub optional: bool,
}

/// The mathematical value of a `FieldDecl`.
#[verifier::ext_equal]
pub ghost struct DeclView {
    pub identifier: Seq<char>,
    pub optional: bool,
}

impl View for FieldDecl {
    type V = DeclView;

    open spec fn view(&self) -> DeclView {
        DeclView { identifier: self.identifier@, optional: self.optional }
    }
}

impl DeepView for FieldDecl {
    type V = DeclView;

    open spec fn deep_view(&self) -> DeclView {
        self.view()
    }
}

/// A decoded record, one value slot per declared field, in declaration
/// order. A mandatory field's slot always holds a value; an optional
/// field's slot may be absent.
#[derive(Debug, Clone, PartialEq, Eq)]
pub struct Record {
    pub values: Vec<Option<String>>,
}

impl View for Record {
    type V = Seq<Option<Seq<char>>>;

    open spec fn view(&self) -> Seq<Option<Seq<char>>> {
        self.values.deep_view()
    }
}

/// The one way a decode can fail: a mandatory field's transformed name
/// matches no field of the paragraph. The error names the declared
/// identifier of the field that was missing.
#[derive(Debug, Clone, PartialEq, Eq)]
pub enum DecodeError {
    MissingMandatoryField { identifier: String },
}

/// The declared identifier that a `DecodeError` reports.
pub open spec fn error_identifier(e: DecodeError) -> Seq<char> {
    match e {
        DecodeError::MissingMandatoryField { identifier } => identifier@,
    }
}

impl DecodeError {
    /// The declared identifier of the missing field, for reporting.
    pub fn identifier(&self) -> (r: &String)
        ensures
            r@ == error_identifier(*self),
    {
        match self {
            DecodeError::MissingMandatoryField { identifier } => identifier,
        }
    }
}

} // verus!
