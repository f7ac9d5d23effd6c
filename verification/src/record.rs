//! Reading a record under its schema: block after block, each from the
//! lines that follow the last, with the fields read so far at hand for the
//! counts of later blocks.

use crate::error::{agrees, Cause, ParseError, RecordError};
use crate::expr::{eval, evaluate};
use crate::read::{
    after_lines, lemma_rows_failure_stays, lemma_rows_of_zero, lemma_rows_takes_n_lines, line, rows,
    Reader,
};
use crate::schema::{fields_of, names_of, BlockModel, Field, FieldBlock, FieldModel, Schema};
use crate::text::{tokens, trim};
use crate::types::{FieldType, FieldTypeModel, LineType, LineTypeModel, Primitive};
use crate::value::{
    lemma_tuple_arity, line_parser, line_value, parse_line_value, FieldValue, FieldValueModel, LineValue,
    LineValueModel,
};
use vstd::prelude::*;

verus! {

impl FieldTypeModel {
    /// The type of the token that a field of this type takes of a line it
    /// shares with others.
    pub open spec fn token(self) -> Primitive {
        match self.line() {
            LineTypeModel::Single(p) => p,
            _ => Primitive::Text,
        }
    }
}

/// The types of the tokens that `fields` take of the line they share.
pub open spec fn token_types(fields: Seq<FieldModel>) -> Seq<Primitive> {
    Seq::new(fields.len(), |i: int| fields[i].ty.token())
}

/// What the line of an inline block is read as. A field that has the line
/// to itself is read as its own type says. Fields that share the line are
/// read as a tuple, with one slot for each.
pub open spec fn block_line(fields: Seq<FieldModel>) -> LineTypeModel {
    if fields.len() == 1 {
        fields[0].ty.line()
    } else {
        LineTypeModel::Tuple(token_types(fields))
    }
}

/// The values that the fields of an inline block are bound to, given the
/// value of its line. A field that has the line to itself takes the value.
/// Fields that share the line take one slot each, in order.
pub open spec fn bindings(fields: Seq<FieldModel>, value: LineValueModel) -> Seq<FieldValueModel> {
    if fields.len() == 1 {
        seq![FieldValueModel::Line(value)]
    } else {
        match value {
            LineValueModel::Many(values) => Seq::new(
                values.len(),
                |i: int| FieldValueModel::Line(LineValueModel::Single(values[i])),
            ),
            LineValueModel::Single(v) => seq![FieldValueModel::Line(LineValueModel::Single(v))],
        }
    }
}

/// Reading one block from `input`, where the fields before it are bound to
/// `values` and the fields of the record bear the names `names`: the values
/// with those of the block added, or why the block failed, and the input
/// that is left.
///
/// An inline block takes one line. A counted block takes as many lines as
/// its count comes to, each for one row; where the count comes to nothing,
/// no line is taken.
pub open spec fn block_outcome(
    block: BlockModel,
    names: Seq<Seq<char>>,
    values: Seq<FieldValueModel>,
    input: Seq<char>,
) -> (Result<Seq<FieldValueModel>, Cause>, Seq<char>) {
    match block {
        BlockModel::Inline(fields) => {
            let (read, rest) = line(input, line_parser(block_line(fields)));
            match read {
                Ok(value) => (Ok(values + bindings(fields, value)), rest),
                Err(e) => (Err(Cause::Parse(e)), rest),
            }
        },
        BlockModel::Lines { field, count } => match eval(count, names, values) {
            None => (Err(Cause::Count), input),
            Some(n) => {
                let (read, rest) = rows(input, n, line_parser(field.ty.line()));
                match read {
                    Ok(all) => (Ok(values.push(FieldValueModel::Rows(all))), rest),
                    Err(e) => (Err(Cause::Parse(e)), rest),
                }
            },
        },
    }
}

/// Reading the first `n` blocks of `blocks` from `input`, one after another:
/// the values of their fields in the order of declaration, or the failure
/// of the first block that fails, and the input that is left. After a
/// failure nothing more is taken.
pub open spec fn run(blocks: Seq<BlockModel>, names: Seq<Seq<char>>, n: nat, input: Seq<char>) -> (
    Result<Seq<FieldValueModel>, RecordError>,
    Seq<char>,
)
    decreases n,
{
    if n == 0 {
        (Ok(Seq::empty()), input)
    } else {
        let (head, left) = run(blocks, names, (n - 1) as nat, input);
        match head {
            Err(e) => (Err(e), left),
            Ok(values) => {
                let (read, rest) = block_outcome(blocks[n - 1], names, values, left);
                match read {
                    Ok(more) => (Ok(more), rest),
                    Err(cause) => (Err(RecordError { block: (n - 1) as usize, cause }), rest),
                }
            },
        }
    }
}

/// Reading a record with the blocks `blocks` from `input`: the values of
/// its fields in the order of declaration, or the failure of the first
/// block that fails, and the input that is left.
pub open spec fn record(blocks: Seq<BlockModel>, input: Seq<char>) -> (
    Result<Seq<FieldValueModel>, RecordError>,
    Seq<char>,
) {
    run(blocks, names_of(fields_of(blocks)), blocks.len(), input)
}

/// Once a block has failed, the blocks after it change nothing.
pub proof fn lemma_run_failure_stays(
    blocks: Seq<BlockModel>,
    names: Seq<Seq<char>>,
    n: nat,
    m: nat,
    input: Seq<char>,
)
    requires
        n <= m,
        run(blocks, names, n, input).0 is Err,
    ensures
        run(blocks, names, m, input) == run(blocks, names, n, input),
    decreases m,
{
    if n < m {
        lemma_run_failure_stays(blocks, names, n, (m - 1) as nat, input);
    }
}

/// A counted block whose count comes to `n` takes exactly the next `n`
/// lines, whatever they hold, and binds its field to exactly `n` rows,
/// where it does not fail on a row.
pub proof fn lemma_counted_block_takes_n_lines(
    block: BlockModel,
    names: Seq<Seq<char>>,
    values: Seq<FieldValueModel>,
    input: Seq<char>,
    n: nat,
)
    requires
        block matches BlockModel::Lines { count, .. } && eval(count, names, values) == Some(n),
        block_outcome(block, names, values, input).0 is Ok,
    ensures
        block_outcome(block, names, values, input).1 == after_lines(input, n),
        block_outcome(block, names, values, input).0->Ok_0.len() == values.len() + 1,
        block_outcome(block, names, values, input).0->Ok_0.drop_last() == values,
        block_outcome(block, names, values, input).0->Ok_0.last() matches FieldValueModel::Rows(
            all,
        ) && all.len() == n,
{
    let ty = block->Lines_field.ty.line();
    lemma_rows_takes_n_lines(input, n, line_parser(ty));
    let all = rows(input, n, line_parser(ty)).0->Ok_0;
    assert(values.push(FieldValueModel::Rows(all)).drop_last() =~= values);
}

/// A counted block whose count comes to zero takes no line and binds its
/// field to no rows.
pub proof fn lemma_counted_block_of_zero(
    block: BlockModel,
    names: Seq<Seq<char>>,
    values: Seq<FieldValueModel>,
    input: Seq<char>,
)
    requires
        block matches BlockModel::Lines { count, .. } && eval(count, names, values) == Some(0nat),
    ensures
        block_outcome(block, names, values, input) == (
            Ok::<Seq<FieldValueModel>, Cause>(values.push(FieldValueModel::Rows(Seq::empty()))),
            input,
        ),
{
    let ty = block->Lines_field.ty.line();
    lemma_rows_of_zero(input, line_parser(ty));
}

/// An inline block of `k` fields that share a line binds each field to one
/// token of the line, where the line has `k` tokens or more, and fails on
/// the first slot that stays empty where it has fewer.
pub proof fn lemma_inline_block_binds_each_field(fields: Seq<FieldModel>, text: Seq<char>)
    requires
        fields.len() != 1,
    ensures
        match line_value(block_line(fields), text) {
            Ok(value) => bindings(fields, value).len() == fields.len(),
            Err(e) => e.is_conversion_within(fields.len() as int) || e == (ParseError::MissingSlot {
                slot: tokens(text).len() as usize,
            }),
        },
{
    lemma_tuple_arity(token_types(fields), text);
}

impl FieldType {
    /// The type of the token that a field of this type takes of a line it
    /// shares with others.
    pub fn token(&self) -> (p: Primitive)
        ensures
            p == self.deep_view().token(),
    {
        match self.line() {
            LineType::Single(p) => *p,
            _ => Primitive::Text,
        }
    }
}

/// Reads the next `n` lines of `reader` as rows of the type `ty`.
pub fn parse_rows(reader: &mut Reader, n: usize, ty: &LineType) -> (r: Result<
    Vec<LineValue>,
    ParseError,
>)
    ensures
        agrees(r, rows(old(reader)@, n as nat, line_parser(ty.deep_view())).0),
        final(reader)@ == rows(old(reader)@, n as nat, line_parser(ty.deep_view())).1,
{
    let ghost input = reader@;
    let ghost row = line_parser(ty.deep_view());
    let mut out: Vec<LineValue> = Vec::new();
    let mut i: usize = 0;
    assert(out.deep_view() =~= Seq::<LineValueModel>::empty());
    while i < n
        invariant
            i <= n,
            input == old(reader)@,
            row == line_parser(ty.deep_view()),
            rows(input, i as nat, row) == (
                Ok::<Seq<LineValueModel>, ParseError>(out.deep_view()),
                reader@,
            ),
        decreases n - i,
    {
        let ghost left = reader@;
        let text = match reader.read_line() {
            Some(text) => text,
            None => {
                proof {
                    assert(rows(input, (i + 1) as nat, row) == (
                        Err::<Seq<LineValueModel>, ParseError>(ParseError::ShortRead),
                        left,
                    ));
                    lemma_rows_failure_stays(input, (i + 1) as nat, n as nat, row);
                }
                return Err(ParseError::ShortRead);
            },
        };
        match parse_line_value(ty, trim(text.as_str())) {
            Ok(v) => {
                let ghost before = out.deep_view();
                out.push(v);
                assert(out.deep_view() =~= before.push(v.deep_view()));
            },
            Err(e) => {
                proof {
                    assert(rows(input, (i + 1) as nat, row).0 == Err::<
                        Seq<LineValueModel>,
                        ParseError,
                    >(e));
                    lemma_rows_failure_stays(input, (i + 1) as nat, n as nat, row);
                }
                return Err(e);
            },
        }
        i += 1;
    }
    Ok(out)
}

/// Reads the next line of `reader` as a value of the type `ty`.
pub fn parse_row(reader: &mut Reader, ty: &LineType) -> (r: Result<LineValue, ParseError>)
    ensures
        agrees(r, line(old(reader)@, line_parser(ty.deep_view())).0),
        final(reader)@ == line(old(reader)@, line_parser(ty.deep_view())).1,
{
    match reader.read_line() {
        Some(text) => parse_line_value(ty, trim(text.as_str())),
        None => Err(ParseError::ShortRead),
    }
}

/// The type that the line of an inline block is read as.
pub fn line_of_block(fields: &Vec<Field>) -> (ty: LineType)
    ensures
        ty.deep_view() == block_line(fields.deep_view()),
{
    if fields.len() == 1 {
        fields[0].ty.line().copy()
    } else {
        let mut types: Vec<Primitive> = Vec::new();
        let mut i: usize = 0;
        while i < fields.len()
            invariant
                i <= fields.len(),
                types@ == token_types(fields.deep_view()).take(i as int),
            decreases fields.len() - i,
        {
            types.push(fields[i].ty.token());
            assert(types@ =~= token_types(fields.deep_view()).take(i + 1));
            i += 1;
        }
        assert(types@ =~= token_types(fields.deep_view()));
        LineType::Tuple(types)
    }
}

/// Binds the fields of an inline block to the value of its line, after the
/// values bound so far.
pub fn bind(fields: &Vec<Field>, value: LineValue, values: &mut Vec<FieldValue>)
    ensures
        final(values).deep_view() == old(values).deep_view() + bindings(
            fields.deep_view(),
            value.deep_view(),
        ),
{
    let ghost before = values.deep_view();
    if fields.len() == 1 {
        values.push(FieldValue::Line(value));
        assert(values.deep_view() =~= before + bindings(fields.deep_view(), value.deep_view()));
    } else {
        match value {
            LineValue::Single(v) => {
                let ghost model = v.deep_view();
                values.push(FieldValue::Line(LineValue::Single(v)));
                assert(values.deep_view() =~= before + seq![
                    FieldValueModel::Line(LineValueModel::Single(model)),
                ]);
            },
            LineValue::Many(slots) => {
                let ghost all = bindings(fields.deep_view(), value.deep_view());
                let mut i: usize = 0;
                assert(before + all.take(0) =~= before);
                while i < slots.len()
                    invariant
                        i <= slots.len(),
                        all.len() == slots.len(),
                        forall|k: int|
                            0 <= k < all.len() ==> #[trigger] all[k] == FieldValueModel::Line(
                                LineValueModel::Single(slots@[k].deep_view()),
                            ),
                        values.deep_view() == before + all.take(i as int),
                    decreases slots.len() - i,
                {
                    let ghost so_far = values.deep_view();
                    let v = slots[i].copy();
                    values.push(FieldValue::Line(LineValue::Single(v)));
                    assert(values.deep_view() =~= so_far.push(all[i as int]));
                    assert(before + all.take(i + 1) =~= (before + all.take(i as int)).push(
                        all[i as int],
                    ));
                    i += 1;
                }
                assert(all.take(i as int) =~= all);
            },
        }
    }
}

impl Schema {
    /// Reads a record from `reader`: the values of its fields, in the order
    /// of declaration, or the failure of the first block that fails. The
    /// lines read up to a failure stay read.
    pub fn parse(&self, reader: &mut Reader) -> (r: Result<Vec<FieldValue>, RecordError>)
        ensures
            agrees(r, record(self.deep_view(), old(reader)@).0),
            final(reader)@ == record(self.deep_view(), old(reader)@).1,
    {
        let blocks = self.blocks();
        let names = self.names();
        let ghost all = blocks.deep_view();
        let ghost labels = names.deep_view();
        let ghost input = reader@;
        let mut values: Vec<FieldValue> = Vec::new();
        let mut b: usize = 0;
        assert(values.deep_view() =~= Seq::<FieldValueModel>::empty());
        while b < blocks.len()
            invariant
                b <= blocks.len(),
                all == blocks.deep_view(),
                all == self.deep_view(),
                labels == names.deep_view(),
                labels == names_of(fields_of(all)),
                input == old(reader)@,
                run(all, labels, b as nat, input) == (
                    Ok::<Seq<FieldValueModel>, RecordError>(values.deep_view()),
                    reader@,
                ),
            decreases blocks.len() - b,
        {
            let ghost bound = values.deep_view();
            let ghost left = reader@;
            assert(all[b as int] == blocks@[b as int].deep_view());
            match &blocks[b] {
                FieldBlock::Inline(fields) => {
                    let ty = line_of_block(fields);
                    match parse_row(reader, &ty) {
                        Ok(value) => {
                            bind(fields, value, &mut values);
                        },
                        Err(e) => {
                            proof {
                                lemma_run_failure_stays(
                                    all,
                                    labels,
                                    (b + 1) as nat,
                                    all.len(),
                                    input,
                                );
                            }
                            return Err(RecordError { block: b, cause: Cause::Parse(e) });
                        },
                    }
                },
                FieldBlock::Lines { field, count } => {
                    let n = match evaluate(count, names, &values) {
                        Some(n) => n,
                        None => {
                            proof {
                                lemma_run_failure_stays(
                                    all,
                                    labels,
                                    (b + 1) as nat,
                                    all.len(),
                                    input,
                                );
                            }
                            return Err(RecordError { block: b, cause: Cause::Count });
                        },
                    };
                    match parse_rows(reader, n, field.ty.line()) {
                        Ok(read) => {
                            let ghost model = read.deep_view();
                            values.push(FieldValue::Rows(read));
                            assert(values.deep_view() =~= bound.push(FieldValueModel::Rows(model)));
                        },
                        Err(e) => {
                            proof {
                                lemma_run_failure_stays(
                                    all,
                                    labels,
                                    (b + 1) as nat,
                                    all.len(),
                                    input,
                                );
                            }
                            return Err(RecordError { block: b, cause: Cause::Parse(e) });
                        },
                    }
                },
            }
            b += 1;
        }
        Ok(values)
    }
}

} // verus!
