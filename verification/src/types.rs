//! The types a field of a record can be declared with.

use vstd::prelude::*;

verus! {

/// A type whose values are written as a single token.
#[derive(Debug, Clone, Copy, PartialEq, Eq, Structural)]
pub enum Primitive {
    U8,
    I8,
    U16,
    I16,
    U32,
    I32,
    U64,
    I64,
    U128,
    I128,
    Usize,
    Isize,
    /// Text: as a token, the token itself; as a whole line, the line
    /// without the white space at its ends.
    Text,
    /// A truth value, written `true` or `false`.
    Bool,
    /// A single character.
    Char,
}

/// What one line is read as.
#[derive(Debug, Clone, PartialEq, Eq)]
pub enum LineType {
    /// The whole line as one value.
    Single(Primitive),
    /// One token for each slot, in order, each slot with its own type.
    Tuple(Vec<Primitive>),
    /// Exactly as many tokens as the array is long, all of one type.
    Array(Primitive, usize),
    /// Every token of the line, all of one type.
    Sequence(Primitive),
}

/// The declared type of a field.
#[derive(Debug, Clone, PartialEq, Eq)]
pub enum FieldType {
    /// A value read from one line.
    Line(LineType),
    /// A sequence of rows, each row read from one line.
    Rows(LineType),
}

/// The most slots a tuple can have.
pub const MAX_ARITY: usize = 10;

/// What a `LineType` holds.
pub ghost enum LineTypeModel {
    Single(Primitive),
    Tuple(Seq<Primitive>),
    Array(Primitive, usize),
    Sequence(Primitive),
}

/// What a `FieldType` holds.
pub ghost enum FieldTypeModel {
    Line(LineTypeModel),
    Rows(LineTypeModel),
}

impl DeepView for LineType {
    type V = LineTypeModel;

    open spec fn deep_view(&self) -> LineTypeModel {
        match self {
            LineType::Single(p) => LineTypeModel::Single(*p),
            LineType::Tuple(slots) => LineTypeModel::Tuple(slots@),
            LineType::Array(p, n) => LineTypeModel::Array(*p, *n),
            LineType::Sequence(p) => LineTypeModel::Sequence(*p),
        }
    }
}

impl DeepView for FieldType {
    type V = FieldTypeModel;

    open spec fn deep_view(&self) -> FieldTypeModel {
        match self {
            FieldType::Line(line) => FieldTypeModel::Line(line.deep_view()),
            FieldType::Rows(line) => FieldTypeModel::Rows(line.deep_view()),
        }
    }
}

impl Primitive {
    /// Whether the type is one of the integer types.
    pub open spec fn is_integer(self) -> bool {
        self != Primitive::Text && self != Primitive::Bool && self != Primitive::Char
    }

    /// Whether the type is a signed integer type.
    pub open spec fn is_signed(self) -> bool {
        self == Primitive::I8 || self == Primitive::I16 || self == Primitive::I32 || self
            == Primitive::I64 || self == Primitive::I128 || self == Primitive::Isize
    }

    /// The smallest value of an integer type.
    pub open spec fn min(self) -> int {
        match self {
            Primitive::I8 => i8::MIN as int,
            Primitive::I16 => i16::MIN as int,
            Primitive::I32 => i32::MIN as int,
            Primitive::I64 => i64::MIN as int,
            Primitive::I128 => i128::MIN as int,
            Primitive::Isize => isize::MIN as int,
            _ => 0,
        }
    }

    /// The largest value of an integer type.
    pub open spec fn max(self) -> int {
        match self {
            Primitive::U8 => u8::MAX as int,
            Primitive::I8 => i8::MAX as int,
            Primitive::U16 => u16::MAX as int,
            Primitive::I16 => i16::MAX as int,
            Primitive::U32 => u32::MAX as int,
            Primitive::I32 => i32::MAX as int,
            Primitive::U64 => u64::MAX as int,
            Primitive::I64 => i64::MAX as int,
            Primitive::U128 => u128::MAX as int,
            Primitive::I128 => i128::MAX as int,
            Primitive::Usize => usize::MAX as int,
            Primitive::Isize => isize::MAX as int,
            _ => 0,
        }
    }

    /// Whether the type is a signed integer type.
    pub fn signed(self) -> (b: bool)
        ensures
            b == self.is_signed(),
    {
        match self {
            Primitive::I8 | Primitive::I16 | Primitive::I32 | Primitive::I64 | Primitive::I128
            | Primitive::Isize => true,
            _ => false,
        }
    }

    /// The smallest and the largest value of the type; zero twice for a
    /// type that is no integer type.
    pub fn bounds(self) -> (b: (i128, u128))
        ensures
            b.0 == self.min(),
            b.1 == self.max(),
            b.0 <= 0,
    {
        match self {
            Primitive::U8 => (0, u8::MAX as u128),
            Primitive::I8 => (i8::MIN as i128, i8::MAX as u128),
            Primitive::U16 => (0, u16::MAX as u128),
            Primitive::I16 => (i16::MIN as i128, i16::MAX as u128),
            Primitive::U32 => (0, u32::MAX as u128),
            Primitive::I32 => (i32::MIN as i128, i32::MAX as u128),
            Primitive::U64 => (0, u64::MAX as u128),
            Primitive::I64 => (i64::MIN as i128, i64::MAX as u128),
            Primitive::U128 => (0, u128::MAX),
            Primitive::I128 => (i128::MIN, i128::MAX as u128),
            Primitive::Usize => (0, usize::MAX as u128),
            Primitive::Isize => (isize::MIN as i128, isize::MAX as u128),
            _ => (0, 0),
        }
    }
}

impl LineTypeModel {
    /// The type of the slot in position `slot` of a line.
    pub open spec fn slot_type(self, slot: int) -> Primitive {
        match self {
            LineTypeModel::Single(p) => p,
            LineTypeModel::Tuple(slots) => slots[slot],
            LineTypeModel::Array(p, _) => p,
            LineTypeModel::Sequence(p) => p,
        }
    }

    /// Whether a line of this type can be read: a tuple has between one
    /// slot and `MAX_ARITY`.
    pub open spec fn supported(self) -> bool {
        self matches LineTypeModel::Tuple(slots) ==> 1 <= slots.len() <= MAX_ARITY
    }
}

impl LineType {
    /// The type of the slot in position `slot` of a line.
    pub(crate) fn slot_type(&self, slot: usize) -> (p: Primitive)
        requires
            self.deep_view() matches LineTypeModel::Tuple(slots) ==> slot < slots.len(),
        ensures
            p == self.deep_view().slot_type(slot as int),
    {
        match self {
            LineType::Single(p) => *p,
            LineType::Tuple(slots) => slots[slot],
            LineType::Array(p, _) => *p,
            LineType::Sequence(p) => *p,
        }
    }

    /// Whether a line of this type can be read.
    pub fn is_supported(&self) -> (b: bool)
        ensures
            b == self.deep_view().supported(),
    {
        match self {
            LineType::Tuple(slots) => 1 <= slots.len() && slots.len() <= MAX_ARITY,
            _ => true,
        }
    }

    /// A copy of this type.
    pub fn copy(&self) -> (other: LineType)
        ensures
            other.deep_view() == self.deep_view(),
    {
        match self {
            LineType::Single(p) => LineType::Single(*p),
            LineType::Tuple(slots) => {
                let mut copied: Vec<Primitive> = Vec::new();
                let mut i: usize = 0;
                while i < slots.len()
                    invariant
                        i <= slots.len(),
                        copied@ == slots@.take(i as int),
                    decreases slots.len() - i,
                {
                    copied.push(slots[i]);
                    assert(copied@ =~= slots@.take(i + 1));
                    i += 1;
                }
                assert(slots@.take(i as int) =~= slots@);
                LineType::Tuple(copied)
            },
            LineType::Array(p, n) => LineType::Array(*p, *n),
            LineType::Sequence(p) => LineType::Sequence(*p),
        }
    }
}

impl FieldType {
    /// A copy of this type.
    pub fn copy(&self) -> (other: FieldType)
        ensures
            other.deep_view() == self.deep_view(),
    {
        match self {
            FieldType::Line(line) => FieldType::Line(line.copy()),
            FieldType::Rows(line) => FieldType::Rows(line.copy()),
        }
    }
}

} // verus!
