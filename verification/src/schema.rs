//! The schema of a record: its fields grouped into the blocks that are read
//! one after another, and the compiler that derives it from a declaration.

use crate::attribute::{attribute_of, Attribute, AttributeModel};
use crate::decl::{FieldDecl, FieldDeclModel, RecordDecl, RecordDeclModel, RecordKind};
use crate::error::{agrees, SchemaError};
use crate::expr::{find, position, CountExpr, CountModel};
use crate::source::{field_type_read, parse_field_type, MAX_PARENS};
use crate::types::{FieldType, FieldTypeModel, LineType, LineTypeModel, Primitive, MAX_ARITY};
use vstd::prelude::*;

verus! {

/// A field of a record: its name and its declared type.
#[derive(Debug, Clone, PartialEq, Eq)]
pub struct Field {
    pub name: String,
    pub ty: FieldType,
}

/// A field together with the attribute that says how it is read.
#[derive(Debug, PartialEq, Eq)]
pub struct Annotated {
    pub field: Field,
    pub attribute: Attribute,
}

/// A group of fields that is read in one step.
#[derive(Debug, PartialEq, Eq)]
pub enum FieldBlock {
    /// Fields read from the tokens of one line, in order.
    Inline(Vec<Field>),
    /// One field read as a sequence of rows, one row from each of as many
    /// lines as `count` says.
    Lines { field: Field, count: CountExpr },
}

/// What a `Field` holds.
pub ghost struct FieldModel {
    pub name: Seq<char>,
    pub ty: FieldTypeModel,
}

/// What an `Annotated` holds.
pub ghost struct AnnotatedModel {
    pub field: FieldModel,
    pub attribute: AttributeModel,
}

/// What a `FieldBlock` holds.
pub ghost enum BlockModel {
    Inline(Seq<FieldModel>),
    Lines { field: FieldModel, count: CountModel },
}

impl DeepView for Field {
    type V = FieldModel;

    open spec fn deep_view(&self) -> FieldModel {
        FieldModel { name: self.name@, ty: self.ty.deep_view() }
    }
}

impl DeepView for Annotated {
    type V = AnnotatedModel;

    open spec fn deep_view(&self) -> AnnotatedModel {
        AnnotatedModel { field: self.field.deep_view(), attribute: self.attribute.deep_view() }
    }
}

impl DeepView for FieldBlock {
    type V = BlockModel;

    open spec fn deep_view(&self) -> BlockModel {
        match self {
            FieldBlock::Inline(fields) => BlockModel::Inline(fields.deep_view()),
            FieldBlock::Lines { field, count } => BlockModel::Lines {
                field: field.deep_view(),
                count: count.deep_view(),
            },
        }
    }
}

impl Field {
    /// A copy of this field.
    pub fn copy(&self) -> (other: Field)
        ensures
            other.deep_view() == self.deep_view(),
    {
        Field { name: self.name.clone(), ty: self.ty.copy() }
    }
}

impl BlockModel {
    /// The fields of the block, in order.
    pub open spec fn fields(self) -> Seq<FieldModel> {
        match self {
            BlockModel::Inline(fields) => fields,
            BlockModel::Lines { field, .. } => seq![field],
        }
    }
}

/// The fields of `blocks`, block after block.
pub open spec fn fields_of(blocks: Seq<BlockModel>) -> Seq<FieldModel>
    decreases blocks.len(),
{
    if blocks.len() == 0 {
        Seq::empty()
    } else {
        fields_of(blocks.drop_last()) + blocks.last().fields()
    }
}

/// The names of `fields`, in order.
pub open spec fn names_of(fields: Seq<FieldModel>) -> Seq<Seq<char>> {
    Seq::new(fields.len(), |i: int| fields[i].name)
}

/// The fields of `annotated`, without their attributes.
pub open spec fn plain(annotated: Seq<AnnotatedModel>) -> Seq<FieldModel> {
    Seq::new(annotated.len(), |i: int| annotated[i].field)
}

/// The inline block that is still open at the end of `blocks`: the fields
/// of the last block, where that is an inline block.
pub open spec fn open_block(blocks: Seq<BlockModel>) -> Option<Seq<FieldModel>> {
    if blocks.len() > 0 && blocks.last() is Inline {
        Some(blocks.last()->Inline_0)
    } else {
        None
    }
}

/// The blocks that `fields` fall into, taken in order. A counted field
/// closes the inline block that is open and stands as a block of its own.
/// Any other field, marked inline or not marked at all, joins the inline
/// block that is open, or opens one.
pub open spec fn grouped(fields: Seq<AnnotatedModel>) -> Seq<BlockModel>
    decreases fields.len(),
{
    if fields.len() == 0 {
        Seq::empty()
    } else {
        let before = grouped(fields.drop_last());
        let last = fields.last();
        match last.attribute {
            AttributeModel::Lines { count } => before.push(
                BlockModel::Lines { field: last.field, count },
            ),
            _ => match open_block(before) {
                Some(open) => before.drop_last().push(BlockModel::Inline(open.push(last.field))),
                None => before.push(BlockModel::Inline(seq![last.field])),
            },
        }
    }
}

/// The blocks hold every field exactly once, in the order of declaration.
pub proof fn lemma_grouped_keeps_the_fields(fields: Seq<AnnotatedModel>)
    ensures
        fields_of(grouped(fields)) == plain(fields),
    decreases fields.len(),
{
    if fields.len() == 0 {
        assert(plain(fields) =~= Seq::<FieldModel>::empty());
    } else {
        let head = fields.drop_last();
        let before = grouped(head);
        let last = fields.last();
        lemma_grouped_keeps_the_fields(head);
        assert(plain(fields) =~= plain(head).push(last.field));
        match last.attribute {
            AttributeModel::Lines { count } => {
                let block = BlockModel::Lines { field: last.field, count };
                assert(before.push(block).drop_last() =~= before);
                assert(fields_of(before) + seq![last.field] =~= plain(head).push(last.field));
            },
            _ => match open_block(before) {
                Some(open) => {
                    let block = BlockModel::Inline(open.push(last.field));
                    let closed = before.drop_last();
                    assert(closed.push(block).drop_last() =~= closed);
                    assert(fields_of(before) == fields_of(closed) + open);
                    assert(fields_of(closed) + open.push(last.field) =~= (fields_of(closed)
                        + open).push(last.field));
                },
                None => {
                    let block = BlockModel::Inline(seq![last.field]);
                    assert(before.push(block).drop_last() =~= before);
                    assert(fields_of(before) + seq![last.field] =~= plain(head).push(last.field));
                },
            },
        }
    }
}

/// No block is empty, and no inline block follows another: fields that
/// stand side by side without a counted field between them share one block.
pub proof fn lemma_grouped_blocks_are_maximal(fields: Seq<AnnotatedModel>, b: int)
    requires
        0 <= b < grouped(fields).len(),
    ensures
        grouped(fields)[b].fields().len() > 0,
        b > 0 ==> !(grouped(fields)[b - 1] is Inline && grouped(fields)[b] is Inline),
    decreases fields.len(),
{
    let head = fields.drop_last();
    let before = grouped(head);
    let last = fields.last();
    match last.attribute {
        AttributeModel::Lines { count } => {
            if b < before.len() {
                lemma_grouped_blocks_are_maximal(head, b);
            }
        },
        _ => match open_block(before) {
            Some(open) => {
                if b < before.len() - 1 {
                    lemma_grouped_blocks_are_maximal(head, b);
                } else if b > 0 {
                    lemma_grouped_blocks_are_maximal(head, b);
                }
            },
            None => {
                if b < before.len() {
                    lemma_grouped_blocks_are_maximal(head, b);
                }
            },
        },
    }
}

/// The blocks that `fields` fall into, taken in order.
pub fn iter_field_blocks(fields: &Vec<Annotated>) -> (blocks: Vec<FieldBlock>)
    ensures
        blocks.deep_view() == grouped(fields.deep_view()),
{
    let ghost all = fields.deep_view();
    let mut blocks: Vec<FieldBlock> = Vec::new();
    let mut open: Vec<Field> = Vec::new();
    let mut i: usize = 0;
    assert(all.take(0) =~= Seq::<AnnotatedModel>::empty());
    assert(blocks.deep_view() =~= Seq::<BlockModel>::empty());
    while i < fields.len()
        invariant
            i <= fields.len(),
            all == fields.deep_view(),
            grouped(all.take(i as int)) == if open.len() > 0 {
                blocks.deep_view().push(BlockModel::Inline(open.deep_view()))
            } else {
                blocks.deep_view()
            },
            open.len() == 0 ==> open_block(blocks.deep_view()) is None,
        decreases fields.len() - i,
    {
        let ghost before = grouped(all.take(i as int));
        let ghost closed = blocks.deep_view();
        let ghost pending = open.deep_view();
        proof {
            assert(all.take(i + 1).drop_last() =~= all.take(i as int));
            assert(all.take(i + 1).last() == fields@[i as int].deep_view());
            if open.len() > 0 {
                assert(before.drop_last() =~= closed);
            }
        }
        let item = &fields[i];
        match &item.attribute {
            Attribute::Lines { count } => {
                if open.len() > 0 {
                    blocks.push(FieldBlock::Inline(open));
                    open = Vec::new();
                    assert(blocks.deep_view() =~= closed.push(BlockModel::Inline(pending)));
                }
                let ghost flushed = blocks.deep_view();
                let block = FieldBlock::Lines { field: item.field.copy(), count: count.copy() };
                blocks.push(block);
                assert(blocks.deep_view() =~= flushed.push(block.deep_view()));
            },
            _ => {
                let field = item.field.copy();
                open.push(field);
                assert(open.deep_view() =~= pending.push(field.deep_view()));
                proof {
                    if pending.len() > 0 {
                        assert(closed.push(BlockModel::Inline(pending)).drop_last() =~= closed);
                    } else {
                        assert(open.deep_view() =~= seq![field.deep_view()]);
                    }
                }
            },
        }
        i += 1;
    }
    assert(all.take(i as int) =~= all);
    if open.len() > 0 {
        let ghost closed = blocks.deep_view();
        let ghost pending = open.deep_view();
        blocks.push(FieldBlock::Inline(open));
        assert(blocks.deep_view() =~= closed.push(BlockModel::Inline(pending)));
    }
    blocks
}

impl FieldTypeModel {
    /// The type that one line of the field is read as.
    pub open spec fn line(self) -> LineTypeModel {
        match self {
            FieldTypeModel::Line(line) => line,
            FieldTypeModel::Rows(line) => line,
        }
    }

    /// Whether a value of this type is a single value read from one line,
    /// so that it can share its line with others.
    pub open spec fn is_token(self) -> bool {
        self matches FieldTypeModel::Line(LineTypeModel::Single(_))
    }

    /// Whether a value of this type is a single integer.
    pub open spec fn is_integer(self) -> bool {
        self matches FieldTypeModel::Line(LineTypeModel::Single(p)) && p.is_integer()
    }
}

/// For each of `fields`, whether it holds a single integer.
pub open spec fn integers_of(fields: Seq<FieldModel>) -> Seq<bool> {
    Seq::new(fields.len(), |i: int| fields[i].ty.is_integer())
}

/// Whether `count` reads nothing but fields that stand before it and hold a
/// single integer: `names` are the names of the fields before it, and
/// `integers` says of each whether it holds one.
pub open spec fn readable(count: CountModel, names: Seq<Seq<char>>, integers: Seq<bool>) -> bool
    decreases count,
{
    match count {
        CountModel::Literal(_) => true,
        CountModel::Field(name) => match position(names, name) {
            Some(i) => i < integers.len() && integers[i],
            None => false,
        },
        CountModel::Binary(_, left, right) => readable(*left, names, integers) && readable(
            *right,
            names,
            integers,
        ),
    }
}

/// Whether the declared type of the field in position `slot` of an inline
/// block fits the way it is read. A field that has its line to itself may
/// be anything that is read from one line. A field that shares its line
/// takes one token of it, so it must be a single value.
pub open spec fn fits(fields: Seq<FieldModel>, slot: int) -> bool {
    if fields.len() == 1 {
        fields[0].ty matches FieldTypeModel::Line(line) && line.supported()
    } else {
        fields[slot].ty.is_token()
    }
}

/// What is wrong with the field in position `slot` of an inline block, if
/// anything; `base` fields stand before the block.
pub open spec fn slot_error(fields: Seq<FieldModel>, base: nat, slot: int) -> Option<SchemaError> {
    if slot >= MAX_ARITY {
        Some(SchemaError::TooWide { field: (base + slot) as usize })
    } else if !fits(fields, slot) {
        Some(SchemaError::Type { field: (base + slot) as usize })
    } else {
        None
    }
}

/// What is wrong with the first `n` fields of an inline block, if anything:
/// the fault of the first field that has one.
pub open spec fn inline_error(fields: Seq<FieldModel>, base: nat, n: nat) -> Option<SchemaError>
    decreases n,
{
    if n == 0 {
        None
    } else {
        match inline_error(fields, base, (n - 1) as nat) {
            Some(e) => Some(e),
            None => slot_error(fields, base, n - 1),
        }
    }
}

/// What is wrong with `block`, if anything, where the fields `earlier` stand
/// before it. An inline block holds at least one field and no more than a
/// tuple has slots, each of a type that fits. A counted block holds a
/// sequence of rows, and its count reads only fields that stand before it
/// and hold a single integer.
pub open spec fn block_error(block: BlockModel, earlier: Seq<FieldModel>) -> Option<SchemaError> {
    match block {
        BlockModel::Inline(fields) => {
            if fields.len() == 0 {
                Some(SchemaError::Empty { field: earlier.len() as usize })
            } else {
                inline_error(fields, earlier.len(), fields.len())
            }
        },
        BlockModel::Lines { field, count } => {
            if !(field.ty matches FieldTypeModel::Rows(line) && line.supported()) {
                Some(SchemaError::Type { field: earlier.len() as usize })
            } else if !readable(count, names_of(earlier), integers_of(earlier)) {
                Some(SchemaError::Reference { field: earlier.len() as usize })
            } else {
                None
            }
        },
    }
}

/// What is wrong with `blocks`, if anything: the fault of the first block
/// that has one.
pub open spec fn check(blocks: Seq<BlockModel>) -> Option<SchemaError>
    decreases blocks.len(),
{
    if blocks.len() == 0 {
        None
    } else {
        match check(blocks.drop_last()) {
            Some(e) => Some(e),
            None => block_error(blocks.last(), fields_of(blocks.drop_last())),
        }
    }
}

/// A fault among the first blocks is the fault of all.
pub proof fn lemma_check_failure_stays(blocks: Seq<BlockModel>, k: int)
    requires
        0 <= k <= blocks.len(),
        check(blocks.take(k)) is Some,
    ensures
        check(blocks) == check(blocks.take(k)),
    decreases blocks.len() - k,
{
    if k == blocks.len() {
        assert(blocks.take(k) =~= blocks);
    } else {
        assert(blocks.drop_last().take(k) =~= blocks.take(k));
        lemma_check_failure_stays(blocks.drop_last(), k);
    }
}

/// A fault among the first fields of an inline block is the fault of the
/// block.
pub proof fn lemma_inline_error_stays(fields: Seq<FieldModel>, base: nat, n: nat, m: nat)
    requires
        n <= m,
        inline_error(fields, base, n) is Some,
    ensures
        inline_error(fields, base, m) == inline_error(fields, base, n),
    decreases m,
{
    if n < m {
        lemma_inline_error_stays(fields, base, n, (m - 1) as nat);
    }
}

impl FieldType {
    /// The type that one line of the field is read as.
    pub fn line(&self) -> (line: &LineType)
        ensures
            line.deep_view() == self.deep_view().line(),
    {
        match self {
            FieldType::Line(line) => line,
            FieldType::Rows(line) => line,
        }
    }

    /// Whether a value of this type is a single value read from one line.
    pub fn is_token(&self) -> (b: bool)
        ensures
            b == self.deep_view().is_token(),
    {
        match self {
            FieldType::Line(LineType::Single(_)) => true,
            _ => false,
        }
    }

    /// Whether a value of this type is a single integer.
    pub fn is_integer(&self) -> (b: bool)
        ensures
            b == self.deep_view().is_integer(),
    {
        match self {
            FieldType::Line(LineType::Single(p)) => match p {
                Primitive::Text | Primitive::Bool | Primitive::Char => false,
                _ => true,
            },
            _ => false,
        }
    }
}

/// Whether `count` reads nothing but fields that stand before it and hold a
/// single integer.
pub fn is_readable(count: &CountExpr, names: &Vec<String>, integers: &Vec<bool>) -> (b: bool)
    ensures
        b == readable(count.deep_view(), names.deep_view(), integers@),
    decreases count,
{
    match count {
        CountExpr::Literal(_) => true,
        CountExpr::Field(name) => match find(names, name.as_str()) {
            Some(i) => i < integers.len() && integers[i],
            None => false,
        },
        CountExpr::Binary(_, left, right) => is_readable(left, names, integers) && is_readable(
            right,
            names,
            integers,
        ),
    }
}

/// The fields of some blocks and of one more are the fields of the first
/// and then those of the last.
pub proof fn lemma_fields_of_push(blocks: Seq<BlockModel>, block: BlockModel)
    ensures
        fields_of(blocks.push(block)) == fields_of(blocks) + block.fields(),
{
    assert(blocks.push(block).drop_last() =~= blocks);
}

/// The schema of a record: the blocks its fields fall into, with nothing
/// wrong with any of them.
#[derive(Debug, PartialEq, Eq)]
pub struct Schema {
    blocks: Vec<FieldBlock>,
    names: Vec<String>,
}

impl DeepView for Schema {
    type V = Seq<BlockModel>;

    /// The blocks of the schema, in the order in which they are read.
    closed spec fn deep_view(&self) -> Seq<BlockModel> {
        self.blocks.deep_view()
    }
}

impl Schema {
    #[verifier::type_invariant]
    spec fn well_formed(&self) -> bool {
        &&& check(self.blocks.deep_view()) is None
        &&& self.names.deep_view() == names_of(fields_of(self.blocks.deep_view()))
    }

    /// The schema that holds `blocks`, where nothing is wrong with them;
    /// else the fault of the first block that has one.
    pub fn new(blocks: Vec<FieldBlock>) -> (r: Result<Schema, SchemaError>)
        ensures
            match r {
                Ok(schema) => check(blocks.deep_view()) is None && schema.deep_view()
                    == blocks.deep_view(),
                Err(e) => check(blocks.deep_view()) == Some(e),
            },
    {
        let ghost all = blocks.deep_view();
        let mut names: Vec<String> = Vec::new();
        let mut integers: Vec<bool> = Vec::new();
        let mut b: usize = 0;
        proof {
            assert(all.take(0) =~= Seq::<BlockModel>::empty());
            assert(names.deep_view() =~= names_of(Seq::<FieldModel>::empty()));
            assert(integers@ =~= integers_of(Seq::<FieldModel>::empty()));
        }
        while b < blocks.len()
            invariant
                b <= blocks.len(),
                all == blocks.deep_view(),
                check(all.take(b as int)) is None,
                names.deep_view() == names_of(fields_of(all.take(b as int))),
                integers@ == integers_of(fields_of(all.take(b as int))),
            decreases blocks.len() - b,
        {
            let ghost earlier = fields_of(all.take(b as int));
            let ghost block = all[b as int];
            proof {
                assert(all.take(b + 1) =~= all.take(b as int).push(block));
                lemma_fields_of_push(all.take(b as int), block);
                assert(all.take(b + 1).drop_last() =~= all.take(b as int));
                assert(block == blocks@[b as int].deep_view());
                assert(names.deep_view().len() == names.len());
                assert(names.len() == earlier.len());
            }
            match &blocks[b] {
                FieldBlock::Inline(fields) => {
                    let ghost these = fields.deep_view();
                    if fields.len() == 0 {
                        proof {
                            lemma_check_failure_stays(all, b + 1);
                        }
                        return Err(SchemaError::Empty { field: names.len() });
                    }
                    let mut j: usize = 0;
                    assert(these.take(0) =~= Seq::<FieldModel>::empty());
                    assert(earlier + these.take(0) =~= earlier);
                    while j < fields.len()
                        invariant
                            j <= fields.len(),
                            fields.len() > 0,
                            b < blocks.len(),
                            all == blocks.deep_view(),
                            these == fields.deep_view(),
                            block == BlockModel::Inline(these),
                            block == all[b as int],
                            earlier == fields_of(all.take(b as int)),
                            check(all.take(b as int)) is None,
                            check(all.take(b + 1)) == block_error(block, earlier),
                            inline_error(these, earlier.len(), j as nat) is None,
                            names.deep_view() == names_of(earlier + these.take(j as int)),
                            integers@ == integers_of(earlier + these.take(j as int)),
                        decreases fields.len() - j,
                    {
                        proof {
                            assert(names.deep_view().len() == names.len());
                            assert(these.take(j as int).len() == j);
                            assert((earlier + these.take(j as int)).len() == earlier.len() + j);
                            assert(names.len() == earlier.len() + j);
                        }
                        let fit = if fields.len() == 1 {
                            match &fields[0].ty {
                                FieldType::Line(line) => line.is_supported(),
                                _ => false,
                            }
                        } else {
                            fields[j].ty.is_token()
                        };
                        assert(these[j as int] == fields@[j as int].deep_view());
                        assert(these[0] == fields@[0].deep_view());
                        assert(fit == fits(these, j as int));
                        if j >= MAX_ARITY {
                            proof {
                                lemma_inline_error_stays(
                                    these,
                                    earlier.len(),
                                    (j + 1) as nat,
                                    these.len(),
                                );
                                lemma_check_failure_stays(all, b + 1);
                            }
                            return Err(SchemaError::TooWide { field: names.len() });
                        }
                        if !fit {
                            proof {
                                lemma_inline_error_stays(
                                    these,
                                    earlier.len(),
                                    (j + 1) as nat,
                                    these.len(),
                                );
                                lemma_check_failure_stays(all, b + 1);
                            }
                            return Err(SchemaError::Type { field: names.len() });
                        }
                        let ghost before_names = names.deep_view();
                        let ghost before_integers = integers@;
                        names.push(fields[j].name.clone());
                        integers.push(fields[j].ty.is_integer());
                        proof {
                            let wider = earlier + these.take(j + 1);
                            assert(wider =~= (earlier + these.take(j as int)).push(these[j as int]));
                            assert(names.deep_view() =~= before_names.push(these[j as int].name));
                            assert(names.deep_view() =~= names_of(wider));
                            assert(integers@ =~= integers_of(wider));
                        }
                        j += 1;
                    }
                    proof {
                        assert(these.take(j as int) =~= these);
                    }
                },
                FieldBlock::Lines { field, count } => {
                    let rows = match &field.ty {
                        FieldType::Rows(line) => line.is_supported(),
                        _ => false,
                    };
                    if !rows {
                        proof {
                            lemma_check_failure_stays(all, b + 1);
                        }
                        return Err(SchemaError::Type { field: names.len() });
                    }
                    if !is_readable(count, &names, &integers) {
                        proof {
                            lemma_check_failure_stays(all, b + 1);
                        }
                        return Err(SchemaError::Reference { field: names.len() });
                    }
                    let ghost before_names = names.deep_view();
                    names.push(field.name.clone());
                    integers.push(false);
                    proof {
                        let wider = earlier + seq![field.deep_view()];
                        assert(wider =~= earlier.push(field.deep_view()));
                        assert(names.deep_view() =~= before_names.push(field.deep_view().name));
                        assert(names.deep_view() =~= names_of(wider));
                        assert(integers@ =~= integers_of(wider));
                    }
                },
            }
            b += 1;
        }
        proof {
            assert(all.take(b as int) =~= all);
        }
        Ok(Schema { blocks, names })
    }

    /// The blocks of the schema, in the order in which they are read.
    /// Nothing is wrong with them.
    pub fn blocks(&self) -> (blocks: &Vec<FieldBlock>)
        ensures
            blocks.deep_view() == self.deep_view(),
            check(self.deep_view()) is None,
    {
        proof {
            use_type_invariant(self);
        }
        &self.blocks
    }

    /// The names of the fields of the record, in the order of declaration.
    pub fn names(&self) -> (names: &Vec<String>)
        ensures
            names.deep_view() == names_of(fields_of(self.deep_view())),
    {
        proof {
            use_type_invariant(self);
        }
        &self.names
    }
}

/// The blocks of the schema that is built from the fields `fields` with
/// their attributes, or why there is none: the fields are grouped into
/// blocks, and the blocks are checked.
pub open spec fn built(fields: Seq<AnnotatedModel>) -> Result<Seq<BlockModel>, SchemaError> {
    match check(grouped(fields)) {
        Some(e) => Err(e),
        None => Ok(grouped(fields)),
    }
}

/// The field with its attribute that the declared field in position `index`
/// gives, or its fault, reported under that position: a field must have a
/// name, its annotations an attribute, and its type must be one that can be
/// read: as rows where the field is counted, else as one line.
pub open spec fn annotated_field(field: FieldDeclModel, index: int) -> Result<
    AnnotatedModel,
    SchemaError,
> {
    match field.name {
        None => Err(SchemaError::Unnamed { field: index as usize }),
        Some(name) => match attribute_of(field.annotations) {
            Err(kind) => Err(SchemaError::Attribute { field: index as usize, kind }),
            Ok(attribute) => match field_type_read(
                field.ty,
                attribute is Lines,
                MAX_PARENS as nat,
            ) {
                None => Err(SchemaError::Declared { field: index as usize }),
                Some(ty) => Ok(AnnotatedModel { field: FieldModel { name, ty }, attribute }),
            },
        },
    }
}

/// The fields with their attributes that the declared fields give, in
/// order, or the fault of the first that has one.
pub open spec fn annotated(fields: Seq<FieldDeclModel>) -> Result<Seq<AnnotatedModel>, SchemaError>
    decreases fields.len(),
{
    if fields.len() == 0 {
        Ok(Seq::empty())
    } else {
        match annotated(fields.drop_last()) {
            Err(e) => Err(e),
            Ok(head) => match annotated_field(fields.last(), fields.len() - 1) {
                Err(e) => Err(e),
                Ok(last) => Ok(head.push(last)),
            },
        }
    }
}

/// The blocks of the schema that is compiled for the declaration `decl`, or
/// why there is none. Only a struct with named fields has a schema. Its
/// fields are taken with their attributes and built into a schema.
pub open spec fn compiled(decl: RecordDeclModel) -> Result<Seq<BlockModel>, SchemaError> {
    if decl.kind != RecordKind::Struct {
        Err(SchemaError::UnsupportedRecord)
    } else {
        match annotated(decl.fields) {
            Err(e) => Err(e),
            Ok(fields) => built(fields),
        }
    }
}

/// A fault among the first declared fields is the fault of all.
pub proof fn lemma_annotated_failure_stays(fields: Seq<FieldDeclModel>, k: int)
    requires
        0 <= k <= fields.len(),
        annotated(fields.take(k)) is Err,
    ensures
        annotated(fields) == annotated(fields.take(k)),
    decreases fields.len() - k,
{
    if k == fields.len() {
        assert(fields.take(k) =~= fields);
    } else {
        assert(fields.drop_last().take(k) =~= fields.take(k));
        lemma_annotated_failure_stays(fields.drop_last(), k);
    }
}

/// A fault of a declared field is reported under the position of that
/// field: the first field that has a fault.
pub proof fn lemma_fault_names_its_field(fields: Seq<FieldDeclModel>)
    requires
        annotated(fields) is Err,
        fields.len() <= usize::MAX,
    ensures
        annotated(fields)->Err_0.field() matches Some(at) && at < fields.len() && annotated_field(
            fields[at as int],
            at as int,
        ) == Err::<AnnotatedModel, SchemaError>(annotated(fields)->Err_0) && forall|i: int|
            0 <= i < at ==> #[trigger] annotated_field(fields[i], i) is Ok,
    decreases fields.len(),
{
    let head = fields.drop_last();
    if annotated(head) is Err {
        lemma_fault_names_its_field(head);
        let at = annotated(head)->Err_0.field()->Some_0;
        assert(head[at as int] == fields[at as int]);
        assert forall|i: int| 0 <= i < at implies #[trigger] annotated_field(fields[i], i) is Ok by {
            assert(head[i] == fields[i]);
            assert(annotated_field(head[i], i) is Ok);
        }
    } else {
        lemma_annotated_all_fine(head);
        assert forall|i: int| 0 <= i < fields.len() - 1 implies #[trigger] annotated_field(
            fields[i],
            i,
        ) is Ok by {
            assert(head[i] == fields[i]);
            assert(annotated_field(head[i], i) is Ok);
        }
    }
}

/// Where the declared fields give fields with attributes, none of them has
/// a fault.
pub proof fn lemma_annotated_all_fine(fields: Seq<FieldDeclModel>)
    requires
        annotated(fields) is Ok,
    ensures
        forall|i: int| 0 <= i < fields.len() ==> #[trigger] annotated_field(fields[i], i) is Ok,
    decreases fields.len(),
{
    if fields.len() > 0 {
        let head = fields.drop_last();
        lemma_annotated_all_fine(head);
        assert forall|i: int| 0 <= i < fields.len() implies #[trigger] annotated_field(
            fields[i],
            i,
        ) is Ok by {
            if i < fields.len() - 1 {
                assert(head[i] == fields[i]);
                assert(annotated_field(head[i], i) is Ok);
            }
        }
    }
}

/// The fields of a record, where it is a struct with named fields.
pub fn iter_fields(decl: &RecordDecl) -> (r: Result<&Vec<FieldDecl>, SchemaError>)
    ensures
        match r {
            Ok(fields) => decl.kind == RecordKind::Struct && *fields == decl.fields,
            Err(e) => decl.kind != RecordKind::Struct && e == SchemaError::UnsupportedRecord,
        },
{
    match decl.kind {
        RecordKind::Struct => Ok(&decl.fields),
        _ => Err(SchemaError::UnsupportedRecord),
    }
}

/// The name of `field`, the field declared in position `index`.
pub fn field_ident(field: &FieldDecl, index: usize) -> (r: Result<&String, SchemaError>)
    ensures
        match r {
            Ok(name) => field.name == Some(*name),
            Err(e) => field.name is None && e == SchemaError::Unnamed { field: index },
        },
{
    match &field.name {
        Some(name) => Ok(name),
        None => Err(SchemaError::Unnamed { field: index }),
    }
}

/// The fields with their attributes that the declared fields give.
pub fn annotate(fields: &Vec<FieldDecl>) -> (r: Result<Vec<Annotated>, SchemaError>)
    ensures
        agrees(r, annotated(fields.deep_view())),
{
    let ghost all = fields.deep_view();
    let mut out: Vec<Annotated> = Vec::new();
    let mut i: usize = 0;
    proof {
        assert(all.take(0) =~= Seq::<FieldDeclModel>::empty());
        assert(out.deep_view() =~= Seq::<AnnotatedModel>::empty());
    }
    while i < fields.len()
        invariant
            i <= fields.len(),
            all == fields.deep_view(),
            annotated(all.take(i as int)) == Ok::<Seq<AnnotatedModel>, SchemaError>(
                out.deep_view(),
            ),
        decreases fields.len() - i,
    {
        proof {
            assert(all.take(i + 1).drop_last() =~= all.take(i as int));
            assert(all.take(i + 1).last() == fields@[i as int].deep_view());
        }
        let name = match field_ident(&fields[i], i) {
            Ok(name) => name.clone(),
            Err(e) => {
                proof {
                    lemma_annotated_failure_stays(all, i + 1);
                }
                return Err(e);
            },
        };
        let attribute = match Attribute::for_field(&fields[i]) {
            Ok(attribute) => attribute,
            Err(kind) => {
                proof {
                    lemma_annotated_failure_stays(all, i + 1);
                }
                return Err(SchemaError::Attribute { field: i, kind });
            },
        };
        let counted = match &attribute {
            Attribute::Lines { .. } => true,
            _ => false,
        };
        let ty = match parse_field_type(fields[i].ty.as_str(), counted, MAX_PARENS) {
            Some(ty) => ty,
            None => {
                proof {
                    lemma_annotated_failure_stays(all, i + 1);
                }
                return Err(SchemaError::Declared { field: i });
            },
        };
        let item = Annotated { field: Field { name, ty }, attribute };
        let ghost before = out.deep_view();
        out.push(item);
        assert(out.deep_view() =~= before.push(item.deep_view()));
        i += 1;
    }
    proof {
        assert(all.take(i as int) =~= all);
    }
    Ok(out)
}

/// Builds the schema of the fields `fields` with their attributes.
pub fn build(fields: &Vec<Annotated>) -> (r: Result<Schema, SchemaError>)
    ensures
        agrees(r, built(fields.deep_view())),
{
    Schema::new(iter_field_blocks(fields))
}

/// Compiles the schema of the record that `decl` declares.
pub fn compile(decl: &RecordDecl) -> (r: Result<Schema, SchemaError>)
    ensures
        agrees(r, compiled(decl.deep_view())),
{
    let fields = match iter_fields(decl) {
        Ok(fields) => fields,
        Err(e) => return Err(e),
    };
    let annotated = match annotate(fields) {
        Ok(annotated) => annotated,
        Err(e) => return Err(e),
    };
    build(&annotated)
}

/// Compiling is a function of the declaration: declarations that say the
/// same give the same blocks, or fail alike, however often they are
/// compiled.
pub proof fn lemma_compile_is_a_function(
    first: RecordDecl,
    second: RecordDecl,
    once: Result<Schema, SchemaError>,
    again: Result<Schema, SchemaError>,
)
    requires
        first.deep_view() == second.deep_view(),
        agrees(once, compiled(first.deep_view())),
        agrees(again, compiled(second.deep_view())),
    ensures
        match (once, again) {
            (Ok(a), Ok(b)) => a.deep_view() == b.deep_view(),
            (Err(a), Err(b)) => a == b,
            _ => false,
        },
{
}

/// The blocks of a compiled schema hold every declared field exactly once,
/// in the order of declaration, and nothing is wrong with them.
pub proof fn lemma_compiled_keeps_the_fields(decl: RecordDeclModel)
    requires
        compiled(decl) is Ok,
    ensures
        check(compiled(decl)->Ok_0) is None,
        fields_of(compiled(decl)->Ok_0) == plain(annotated(decl.fields)->Ok_0),
        fields_of(compiled(decl)->Ok_0).len() == decl.fields.len(),
        forall|i: int|
            0 <= i < decl.fields.len() ==> decl.fields[i].name == Some(
                #[trigger] fields_of(compiled(decl)->Ok_0)[i].name,
            ),
{
    let fields = annotated(decl.fields)->Ok_0;
    lemma_grouped_keeps_the_fields(fields);
    lemma_annotated_names(decl.fields);
}

/// Declared fields that give fields with attributes give one each, under
/// the name declared.
pub proof fn lemma_annotated_names(fields: Seq<FieldDeclModel>)
    requires
        annotated(fields) is Ok,
    ensures
        annotated(fields)->Ok_0.len() == fields.len(),
        forall|i: int|
            0 <= i < fields.len() ==> fields[i].name == Some(
                #[trigger] annotated(fields)->Ok_0[i].field.name,
            ),
    decreases fields.len(),
{
    if fields.len() > 0 {
        lemma_annotated_names(fields.drop_last());
        let head = annotated(fields.drop_last())->Ok_0;
        assert forall|i: int| 0 <= i < fields.len() implies fields[i].name == Some(
            #[trigger] annotated(fields)->Ok_0[i].field.name,
        ) by {
            if i < fields.len() - 1 {
                assert(fields.drop_last()[i] == fields[i]);
                assert(annotated(fields)->Ok_0[i] == head[i]);
            }
        }
    }
}

/// Building is a function of the fields and their attributes: fields that
/// say the same give the same blocks, or fail alike, however often they are
/// built.
pub proof fn lemma_build_is_a_function(
    first: Vec<Annotated>,
    second: Vec<Annotated>,
    once: Result<Schema, SchemaError>,
    again: Result<Schema, SchemaError>,
)
    requires
        first.deep_view() == second.deep_view(),
        agrees(once, built(first.deep_view())),
        agrees(again, built(second.deep_view())),
    ensures
        match (once, again) {
            (Ok(a), Ok(b)) => a.deep_view() == b.deep_view(),
            (Err(a), Err(b)) => a == b,
            _ => false,
        },
{
}

/// The blocks of a schema that is built hold every field exactly once, in
/// the order of declaration.
pub proof fn lemma_built_keeps_the_fields(fields: Seq<AnnotatedModel>)
    requires
        built(fields) is Ok,
    ensures
        fields_of(built(fields)->Ok_0) == plain(fields),
{
    lemma_grouped_keeps_the_fields(fields);
}

} // verus!
