//! The declaration of a record, as it is handed to the schema compiler.

use vstd::prelude::*;

verus! {

/// What kind of item a record is declared as.
#[derive(Debug, Clone, Copy, PartialEq, Eq, Structural)]
pub enum RecordKind {
    /// A struct with named fields: the one kind a schema can be compiled
    /// for.
    Struct,
    /// A struct whose fields have positions but no names.
    TupleStruct,
    /// A struct without fields.
    UnitStruct,
    /// An enum.
    Enum,
    /// A union.
    Union,
}

/// A field as declared: its name, and its type and annotations as written.
#[derive(Debug, Clone, PartialEq, Eq)]
pub struct FieldDecl {
    /// The field's name, where it has one.
    pub name: Option<String>,
    /// The field's declared type, as written: `usize`, `String`,
    /// `(u64, u64)`, `[u32; 2]`, `Vec<i32>`.
    pub ty: String,
    /// The text of each annotation on the field, in order: what stands
    /// between the brackets, as in `testcase(lines = "n")`.
    pub annotations: Vec<String>,
}

/// A record as declared.
#[derive(Debug, Clone, PartialEq, Eq)]
pub struct RecordDecl {
    /// The record's name.
    pub name: String,
    /// What kind of item it is.
    pub kind: RecordKind,
    /// Its fields, in the order of declaration.
    pub fields: Vec<FieldDecl>,
}

/// What a `FieldDecl` holds.
pub ghost struct FieldDeclModel {
    pub name: Option<Seq<char>>,
    pub ty: Seq<char>,
    pub annotations: Seq<Seq<char>>,
}

/// What a `RecordDecl` holds.
pub ghost struct RecordDeclModel {
    pub name: Seq<char>,
    pub kind: RecordKind,
    pub fields: Seq<FieldDeclModel>,
}

impl DeepView for FieldDecl {
    type V = FieldDeclModel;

    open spec fn deep_view(&self) -> FieldDeclModel {
        FieldDeclModel {
            name: self.name.deep_view(),
            ty: self.ty@,
            annotations: self.annotations.deep_view(),
        }
    }
}

impl DeepView for RecordDecl {
    type V = RecordDeclModel;

    open spec fn deep_view(&self) -> RecordDeclModel {
        RecordDeclModel {
            name: self.name@,
            kind: self.kind,
            fields: self.fields.deep_view(),
        }
    }
}

} // verus!
