//! Types written as source text: which declared types can be read, and as
//! what.

use crate::expr::{number, number_of, TreeModel};
use crate::syntax::{
    admitted, argument_type, expr_shape, is_admitted, read_type, segment_arguments,
    segment_contents, segment_name, type_contents, type_read, type_shape, Arguments,
    ArgumentsModel, ExprShape, SegmentModel, TypeModel, TypeShape,
};
use crate::text::same_text;
use crate::types::{FieldType, FieldTypeModel, LineType, LineTypeModel, Primitive};
use syn::{PathSegment, Type};
use vstd::prelude::*;

verus! {

/// The most levels of parentheses the text of a type may have.
pub const MAX_PARENS: usize = 8;

/// The type that is written `name`, where it is one whose values are
/// written as a single token.
pub open spec fn primitive_named(name: Seq<char>) -> Option<Primitive> {
    if name == "u8"@ {
        Some(Primitive::U8)
    } else if name == "i8"@ {
        Some(Primitive::I8)
    } else if name == "u16"@ {
        Some(Primitive::U16)
    } else if name == "i16"@ {
        Some(Primitive::I16)
    } else if name == "u32"@ {
        Some(Primitive::U32)
    } else if name == "i32"@ {
        Some(Primitive::I32)
    } else if name == "u64"@ {
        Some(Primitive::U64)
    } else if name == "i64"@ {
        Some(Primitive::I64)
    } else if name == "u128"@ {
        Some(Primitive::U128)
    } else if name == "i128"@ {
        Some(Primitive::I128)
    } else if name == "usize"@ {
        Some(Primitive::Usize)
    } else if name == "isize"@ {
        Some(Primitive::Isize)
    } else if name == "String"@ {
        Some(Primitive::Text)
    } else if name == "bool"@ {
        Some(Primitive::Bool)
    } else if name == "char"@ {
        Some(Primitive::Char)
    } else {
        None
    }
}

/// The type that is written `name`, where it is one whose values are
/// written as a single token.
pub fn primitive(name: &str) -> (r: Option<Primitive>)
    ensures
        r == primitive_named(name@),
{
    if same_text(name, "u8") {
        Some(Primitive::U8)
    } else if same_text(name, "i8") {
        Some(Primitive::I8)
    } else if same_text(name, "u16") {
        Some(Primitive::U16)
    } else if same_text(name, "i16") {
        Some(Primitive::I16)
    } else if same_text(name, "u32") {
        Some(Primitive::U32)
    } else if same_text(name, "i32") {
        Some(Primitive::I32)
    } else if same_text(name, "u64") {
        Some(Primitive::U64)
    } else if same_text(name, "i64") {
        Some(Primitive::I64)
    } else if same_text(name, "u128") {
        Some(Primitive::U128)
    } else if same_text(name, "i128") {
        Some(Primitive::I128)
    } else if same_text(name, "usize") {
        Some(Primitive::Usize)
    } else if same_text(name, "isize") {
        Some(Primitive::Isize)
    } else if same_text(name, "String") {
        Some(Primitive::Text)
    } else if same_text(name, "bool") {
        Some(Primitive::Bool)
    } else if same_text(name, "char") {
        Some(Primitive::Char)
    } else {
        None
    }
}

/// The type of a line that a name alone stands for: that of the single
/// values of the type of this name.
pub open spec fn single_of(name: Seq<char>) -> Option<LineTypeModel> {
    match primitive_named(name) {
        Some(p) => Some(LineTypeModel::Single(p)),
        None => None,
    }
}

/// The type of a line that a name with one argument stands for: `Vec` of a
/// type of single tokens is a sequence.
pub open spec fn sequence_of(name: Seq<char>, element: Option<Primitive>) -> Option<LineTypeModel> {
    match element {
        Some(p) => if name == "Vec"@ {
            Some(LineTypeModel::Sequence(p))
        } else {
            None
        },
        None => None,
    }
}

/// The type of a line that an array stands for: its element is a type of
/// single tokens, and its length a number.
pub open spec fn array_of(element: Option<Primitive>, digits: Seq<char>, suffix: Seq<char>) -> Option<
    LineTypeModel,
> {
    match element {
        Some(p) => match number_of(digits, suffix) {
            Ok(n) => Some(LineTypeModel::Array(p, n)),
            Err(_) => None,
        },
        None => None,
    }
}

/// The type of a line that a tuple stands for: each of its elements is a
/// type of single tokens.
pub open spec fn tuple_of(elements: Seq<Option<Primitive>>) -> Option<LineTypeModel> {
    if forall|i: int| 0 <= i < elements.len() ==> #[trigger] elements[i] is Some {
        Some(LineTypeModel::Tuple(Seq::new(elements.len(), |i: int| elements[i]->Some_0)))
    } else {
        None
    }
}

/// The type of a counted field that a name with one argument stands for:
/// `Vec` of the type of a line is a sequence of rows.
pub open spec fn rows_of(name: Seq<char>, row: Option<LineTypeModel>) -> Option<FieldTypeModel> {
    match row {
        Some(line) => if name == "Vec"@ {
            Some(FieldTypeModel::Rows(line))
        } else {
            None
        },
        None => None,
    }
}

/// The type of a line that a name alone stands for.
pub fn single(name: &str) -> (r: Option<LineType>)
    ensures
        r.deep_view() == single_of(name@),
{
    match primitive(name) {
        Some(p) => Some(LineType::Single(p)),
        None => None,
    }
}

/// The type of a line that a name with one argument stands for.
pub fn sequence(name: &str, element: Option<Primitive>) -> (r: Option<LineType>)
    ensures
        r.deep_view() == sequence_of(name@, element),
{
    match element {
        Some(p) => {
            if same_text(name, "Vec") {
                Some(LineType::Sequence(p))
            } else {
                None
            }
        },
        None => None,
    }
}

/// The type of a line that an array stands for.
pub fn array(element: Option<Primitive>, digits: &str, suffix: &str) -> (r: Option<LineType>)
    ensures
        r.deep_view() == array_of(element, digits@, suffix@),
{
    match element {
        Some(p) => match number(digits, suffix) {
            Ok(n) => Some(LineType::Array(p, n)),
            Err(_) => None,
        },
        None => None,
    }
}

/// The type of a line that a tuple stands for.
pub fn tuple(elements: &Vec<Option<Primitive>>) -> (r: Option<LineType>)
    ensures
        r.deep_view() == tuple_of(elements@),
{
    let mut types: Vec<Primitive> = Vec::new();
    let mut i: usize = 0;
    while i < elements.len()
        invariant
            i <= elements.len(),
            types.len() == i,
            forall|k: int| 0 <= k < i ==> elements@[k] == Some(#[trigger] types@[k]),
        decreases elements.len() - i,
    {
        match elements[i] {
            Some(p) => types.push(p),
            None => {
                assert(!(elements@[i as int] is Some));
                return None;
            },
        }
        i += 1;
    }
    assert forall|k: int| 0 <= k < elements@.len() implies #[trigger] elements@[k] is Some by {
        assert(elements@[k] == Some(types@[k]));
    }
    assert(types@ =~= Seq::new(elements@.len(), |i: int| elements@[i]->Some_0)) by {
        assert forall|k: int| 0 <= k < types@.len() implies types@[k] == elements@[k]->Some_0 by {
            assert(elements@[k] == Some(types@[k]));
        }
    }
    Some(LineType::Tuple(types))
}

/// The type of a counted field that a name with one argument stands for.
pub fn rows(name: &str, row: Option<LineType>) -> (r: Option<FieldType>)
    ensures
        r.deep_view() == rows_of(name@, row.deep_view()),
{
    match row {
        Some(line) => {
            if same_text(name, "Vec") {
                Some(FieldType::Rows(line))
            } else {
                None
            }
        },
        None => None,
    }
}

/// The segment that names the type a path leads to: the last one. The
/// segments before it say where the type is found, and are not looked at.
pub open spec fn named_of(segments: Seq<SegmentModel>) -> Option<SegmentModel> {
    if segments.len() == 0 {
        None
    } else {
        Some(segments.last())
    }
}

/// The one type between the angle brackets of a segment, where there is
/// exactly one argument and it is a type.
pub open spec fn single_argument_of(segment: SegmentModel) -> Option<TypeModel> {
    match segment.arguments {
        ArgumentsModel::Angle(list) => if list.len() == 1 {
            list[0]
        } else {
            None
        },
        _ => None,
    }
}

/// The type of a single token that the type `t` is: a path whose last
/// segment is the name of one and has no arguments, within at most `depth`
/// levels of parentheses.
pub open spec fn token_type_in(t: TypeModel, depth: nat) -> Option<Primitive>
    decreases depth,
{
    match t {
        TypeModel::Path(segments) => match named_of(segments) {
            None => None,
            Some(segment) => match segment.arguments {
                ArgumentsModel::Absent => primitive_named(segment.name),
                _ => None,
            },
        },
        TypeModel::Nested(inner) => if depth == 0 {
            None
        } else {
            token_type_in(*inner, (depth - 1) as nat)
        },
        _ => None,
    }
}

/// The type of a single token that the one argument of a segment is.
pub open spec fn element_type_in(segment: SegmentModel) -> Option<Primitive> {
    match single_argument_of(segment) {
        Some(element) => token_type_in(element, MAX_PARENS as nat),
        None => None,
    }
}

/// The type of a line that the type `t` is, within at most `depth` levels
/// of parentheses: a name alone, a name with one argument, a tuple or an
/// array, as `single_of`, `sequence_of`, `tuple_of` and `array_of` decide.
pub open spec fn line_type_in(t: TypeModel, depth: nat) -> Option<LineTypeModel>
    decreases depth,
{
    match t {
        TypeModel::Path(segments) => match named_of(segments) {
            None => None,
            Some(segment) => match segment.arguments {
                ArgumentsModel::Absent => single_of(segment.name),
                _ => sequence_of(segment.name, element_type_in(segment)),
            },
        },
        TypeModel::Tuple(elements) => tuple_of(
            Seq::new(elements.len(), |i: int| token_type_in(elements[i], MAX_PARENS as nat)),
        ),
        TypeModel::Array(element, len) => match len {
            TreeModel::Number(digits, suffix) => array_of(
                token_type_in(*element, MAX_PARENS as nat),
                digits,
                suffix,
            ),
            _ => None,
        },
        TypeModel::Nested(inner) => if depth == 0 {
            None
        } else {
            line_type_in(*inner, (depth - 1) as nat)
        },
        TypeModel::Other => None,
    }
}

/// The row of a counted field whose type has the last segment `segment`:
/// the type of a line that its one argument is.
pub open spec fn row_type_in(segment: SegmentModel) -> Option<LineTypeModel> {
    match single_argument_of(segment) {
        Some(row) => line_type_in(row, MAX_PARENS as nat),
        None => None,
    }
}

/// The type of a field that the type `t` is, read as rows where the field
/// is counted, else as one line. A counted field has the type `Vec` of the
/// type of its rows, as `rows_of` decides.
pub open spec fn field_type_in(t: TypeModel, counted: bool, depth: nat) -> Option<FieldTypeModel>
    decreases depth,
{
    if !counted {
        match line_type_in(t, depth) {
            Some(line) => Some(FieldTypeModel::Line(line)),
            None => None,
        }
    } else {
        match t {
            TypeModel::Path(segments) => match named_of(segments) {
                None => None,
                Some(segment) => rows_of(segment.name, row_type_in(segment)),
            },
            TypeModel::Nested(inner) => if depth == 0 {
                None
            } else {
                field_type_in(*inner, counted, (depth - 1) as nat)
            },
            _ => None,
        }
    }
}

/// The type of a line that `text` spells: that which `syn` finds in it,
/// where the text is admitted and `syn` finds one.
pub open spec fn line_type_read(text: Seq<char>, depth: nat) -> Option<LineTypeModel> {
    if !admitted(text) {
        None
    } else {
        match type_read(text) {
            Some(t) => line_type_in(t, depth),
            None => None,
        }
    }
}

/// The type of a field that `text` spells, read as rows where the field is
/// counted, else as one line.
pub open spec fn field_type_read(text: Seq<char>, counted: bool, depth: nat) -> Option<
    FieldTypeModel,
> {
    if !admitted(text) {
        None
    } else {
        match type_read(text) {
            Some(t) => field_type_in(t, counted, depth),
            None => None,
        }
    }
}

/// A field that is read gets rows exactly where it is counted.
pub proof fn lemma_counted_field_gets_rows(t: TypeModel, counted: bool, depth: nat)
    requires
        field_type_in(t, counted, depth) is Some,
    ensures
        counted <==> field_type_in(t, counted, depth)->Some_0 is Rows,
    decreases depth,
{
    if counted {
        match t {
            TypeModel::Nested(inner) => {
                lemma_counted_field_gets_rows(*inner, counted, (depth - 1) as nat);
            },
            _ => {},
        }
    }
}

/// The segment that names the type a path leads to: the last one.
pub(crate) fn named(segments: &Vec<PathSegment>) -> (r: Option<&PathSegment>)
    ensures
        match r {
            Some(segment) => segments.len() > 0 && *segment == segments@.last(),
            None => segments.len() == 0,
        },
{
    if segments.len() == 0 {
        None
    } else {
        Some(&segments[segments.len() - 1])
    }
}

/// The one type between the angle brackets of `segment`.
pub(crate) fn single_argument(segment: &PathSegment) -> (r: Option<Type>)
    ensures
        match r {
            Some(t) => single_argument_of(segment_contents(*segment)) == Some(type_contents(t)),
            None => single_argument_of(segment_contents(*segment)) is None,
        },
{
    match segment_arguments(segment) {
        Arguments::Angle(arguments) => {
            if arguments.len() == 1 {
                argument_type(&arguments[0])
            } else {
                None
            }
        },
        _ => None,
    }
}

/// The type of a single token that the tree `t` holds.
pub(crate) fn token_type(t: &Type, depth: usize) -> (r: Option<Primitive>)
    ensures
        r == token_type_in(type_contents(*t), depth as nat),
    decreases depth,
{
    match type_shape(t) {
        TypeShape::Path(segments) => match named(&segments) {
            None => None,
            Some(segment) => match segment_arguments(segment) {
                Arguments::Absent => primitive(segment_name(segment).as_str()),
                _ => None,
            },
        },
        TypeShape::Nested(inner) => {
            if depth == 0 {
                None
            } else {
                token_type(&inner, depth - 1)
            }
        },
        _ => None,
    }
}

/// The type of a single token that the one argument of `segment` holds.
pub(crate) fn element_type(segment: &PathSegment) -> (r: Option<Primitive>)
    ensures
        r == element_type_in(segment_contents(*segment)),
{
    match single_argument(segment) {
        Some(element) => token_type(&element, MAX_PARENS),
        None => None,
    }
}

/// The type of a line that the tree `t` holds.
pub(crate) fn line_type(t: &Type, depth: usize) -> (r: Option<LineType>)
    ensures
        r.deep_view() == line_type_in(type_contents(*t), depth as nat),
    decreases depth,
{
    match type_shape(t) {
        TypeShape::Path(segments) => {
            let segment = match named(&segments) {
                Some(segment) => segment,
                None => return None,
            };
            let name = segment_name(segment);
            match segment_arguments(segment) {
                Arguments::Absent => single(name.as_str()),
                _ => sequence(name.as_str(), element_type(segment)),
            }
        },
        TypeShape::Tuple(elements) => {
            let ghost all = Seq::new(
                elements@.len(),
                |k: int| token_type_in(type_contents(elements@[k]), MAX_PARENS as nat),
            );
            let mut types: Vec<Option<Primitive>> = Vec::new();
            let mut i: usize = 0;
            assert(types@ =~= all.take(0));
            while i < elements.len()
                invariant
                    i <= elements.len(),
                    all == Seq::new(
                        elements@.len(),
                        |k: int| token_type_in(type_contents(elements@[k]), MAX_PARENS as nat),
                    ),
                    types@ == all.take(i as int),
                decreases elements.len() - i,
            {
                types.push(token_type(&elements[i], MAX_PARENS));
                assert(types@ =~= all.take(i + 1));
                i += 1;
            }
            assert(all.take(i as int) =~= all);
            assert(Seq::new(
                Seq::new(elements@.len(), |k: int| type_contents(elements@[k])).len(),
                |k: int|
                    token_type_in(
                        Seq::new(elements@.len(), |k: int| type_contents(elements@[k]))[k],
                        MAX_PARENS as nat,
                    ),
            ) =~= all);
            tuple(&types)
        },
        TypeShape::Array(element, len) => match expr_shape(&len) {
            ExprShape::Number(digits, suffix) => array(
                token_type(&element, MAX_PARENS),
                digits.as_str(),
                suffix.as_str(),
            ),
            _ => None,
        },
        TypeShape::Nested(inner) => {
            if depth == 0 {
                None
            } else {
                line_type(&inner, depth - 1)
            }
        },
        TypeShape::Other => None,
    }
}

/// The type of a field that the tree `t` holds, read as rows where the field
/// is counted, else as one line.
pub(crate) fn field_type(t: &Type, counted: bool, depth: usize) -> (r: Option<FieldType>)
    ensures
        r.deep_view() == field_type_in(type_contents(*t), counted, depth as nat),
    decreases depth,
{
    if !counted {
        return match line_type(t, depth) {
            Some(line) => Some(FieldType::Line(line)),
            None => None,
        };
    }
    match type_shape(t) {
        TypeShape::Path(segments) => {
            let segment = match named(&segments) {
                Some(segment) => segment,
                None => return None,
            };
            let row = match single_argument(segment) {
                Some(row) => line_type(&row, MAX_PARENS),
                None => None,
            };
            rows(segment_name(segment).as_str(), row)
        },
        TypeShape::Nested(inner) => {
            if depth == 0 {
                None
            } else {
                field_type(&inner, counted, depth - 1)
            }
        },
        _ => None,
    }
}

/// The type of a line that `text` spells. A text that is not admitted is
/// not read.
pub fn parse_line_type(text: &str, depth: usize) -> (r: Option<LineType>)
    ensures
        r.deep_view() == line_type_read(text@, depth as nat),
{
    if !is_admitted(text) {
        return None;
    }
    match read_type(text) {
        Some(t) => line_type(&t, depth),
        None => None,
    }
}

/// The type of a field that `text` spells, read as rows where the field is
/// counted, else as one line. A text that is not admitted is not read.
pub fn parse_field_type(text: &str, counted: bool, depth: usize) -> (r: Option<FieldType>)
    ensures
        r.deep_view() == field_type_read(text@, counted, depth as nat),
{
    if !is_admitted(text) {
        return None;
    }
    match read_type(text) {
        Some(t) => field_type(&t, counted, depth),
        None => None,
    }
}

} // verus!
