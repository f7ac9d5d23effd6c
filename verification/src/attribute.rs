//! The attribute of a field: what its annotations say about how it is read.
//!
//! An annotation for this library is written `testcase(..)` and holds one
//! directive: `inline`, or `lines = "<expression>"`. Annotations under other
//! names say nothing here, whatever they hold.

use crate::decl::FieldDecl;
use crate::error::{agrees, AttributeError};
use crate::expr::{count_read, parse_count, CountExpr, CountModel};
use crate::syntax::{
    admitted, is_admitted, item_contents, lemma_word_len_is, meta_read, meta_shape, nested_meta,
    read_meta, word_char, word_len, ItemModel, MetaModel, MetaShape,
};
use crate::text::{run_len, same_text, scan, to_chars};
use syn::NestedMeta;
use vstd::prelude::*;
use vstd::string::StrSliceExecFns;

verus! {

/// How a field is read.
#[derive(Debug, PartialEq, Eq)]
pub enum Attribute {
    /// The field has no directive: it is read inline.
    Absent,
    /// The field is marked as read inline.
    Inline,
    /// The field is a counted block of as many rows as the expression says.
    Lines { count: CountExpr },
}

/// What an `Attribute` holds.
pub ghost enum AttributeModel {
    Absent,
    Inline,
    Lines { count: CountModel },
}

impl DeepView for Attribute {
    type V = AttributeModel;

    open spec fn deep_view(&self) -> AttributeModel {
        match self {
            Attribute::Absent => AttributeModel::Absent,
            Attribute::Inline => AttributeModel::Inline,
            Attribute::Lines { count } => AttributeModel::Lines { count: count.deep_view() },
        }
    }
}

/// An item in the list of an annotation, as written.
#[derive(Debug, Clone, PartialEq, Eq)]
pub enum Directive {
    /// A name alone, as in `inline`.
    Word(String),
    /// A name and a string, as in `lines = "n"`: the name, then what the
    /// string holds.
    Text(String, String),
    /// Anything else.
    Other,
}

/// What a `Directive` holds.
pub ghost enum DirectiveModel {
    Word(Seq<char>),
    Text(Seq<char>, Seq<char>),
    Other,
}

impl DeepView for Directive {
    type V = DirectiveModel;

    open spec fn deep_view(&self) -> DirectiveModel {
        match self {
            Directive::Word(word) => DirectiveModel::Word(word@),
            Directive::Text(key, text) => DirectiveModel::Text(key@, text@),
            Directive::Other => DirectiveModel::Other,
        }
    }
}

/// What one annotation holds for this library.
#[derive(Debug, Clone, PartialEq, Eq)]
pub enum Annotation {
    /// The annotation stands under another name.
    Unrelated,
    /// The annotation bears this library's name and cannot be read, or does
    /// not hold a list.
    Malformed,
    /// The annotation holds a list: its items.
    Directives(Vec<Directive>),
}

/// What an `Annotation` holds.
pub ghost enum AnnotationModel {
    Unrelated,
    Malformed,
    Directives(Seq<DirectiveModel>),
}

impl DeepView for Annotation {
    type V = AnnotationModel;

    open spec fn deep_view(&self) -> AnnotationModel {
        match self {
            Annotation::Unrelated => AnnotationModel::Unrelated,
            Annotation::Malformed => AnnotationModel::Malformed,
            Annotation::Directives(items) => AnnotationModel::Directives(items.deep_view()),
        }
    }
}

/// What a directive asks for.
#[derive(Debug, Clone, PartialEq, Eq)]
pub enum Meaning {
    /// The field is read inline.
    Inline,
    /// The field is counted by the expression that this text spells.
    Lines(String),
}

/// What a `Meaning` holds.
pub ghost enum MeaningModel {
    Inline,
    Lines(Seq<char>),
}

impl DeepView for Meaning {
    type V = MeaningModel;

    open spec fn deep_view(&self) -> MeaningModel {
        match self {
            Meaning::Inline => MeaningModel::Inline,
            Meaning::Lines(text) => MeaningModel::Lines(text@),
        }
    }
}

/// The name that an annotation starts with: its first word, after the white
/// space before it.
pub open spec fn leading_name(s: Seq<char>) -> Seq<char> {
    let rest = s.skip(run_len(s, true) as int);
    rest.take(word_len(rest) as int)
}

/// Whether an annotation stands under this library's name.
pub open spec fn is_for_library(s: Seq<char>) -> bool {
    leading_name(s) == "testcase"@
}

/// The directive that an item of a list holds: a name alone, or a name with
/// a string. Anything else is no directive that the library knows.
pub open spec fn directive_in(item: ItemModel) -> DirectiveModel {
    match item {
        ItemModel::Word(Some(word)) => DirectiveModel::Word(word),
        ItemModel::Text(Some(key), text) => DirectiveModel::Text(key, text),
        _ => DirectiveModel::Other,
    }
}

/// What an annotation without a list holds for this library: malformed
/// under this library's name, unrelated under any other.
pub open spec fn unlisted_of(name: Option<Seq<char>>) -> AnnotationModel {
    if name == Some("testcase"@) {
        AnnotationModel::Malformed
    } else {
        AnnotationModel::Unrelated
    }
}

/// What the content of an annotation holds for this library: under this
/// library's name a list gives its items, each as a directive.
pub open spec fn annotation_in(m: MetaModel) -> AnnotationModel {
    match m {
        MetaModel::List(Some(name), items) => if name == "testcase"@ {
            AnnotationModel::Directives(Seq::new(items.len(), |i: int| directive_in(items[i])))
        } else {
            AnnotationModel::Unrelated
        },
        MetaModel::List(None, _) => AnnotationModel::Unrelated,
        MetaModel::Word(name) => unlisted_of(name),
        MetaModel::Text(name, _) => unlisted_of(name),
        MetaModel::Value(name) => unlisted_of(name),
    }
}

/// What the annotation `text` holds for this library. An annotation that
/// starts with another name is unrelated, whatever it holds. One that
/// starts with this library's name is malformed where it is not admitted or
/// `syn` finds no content of an attribute in it; else it holds what `syn`
/// finds.
pub open spec fn annotation_read(text: Seq<char>) -> AnnotationModel {
    if !is_for_library(text) {
        AnnotationModel::Unrelated
    } else if !admitted(text) {
        AnnotationModel::Malformed
    } else {
        match meta_read(text) {
            None => AnnotationModel::Malformed,
            Some(m) => annotation_in(m),
        }
    }
}

/// The attribute that the annotations of a field give: of the one directive
/// they hold, `inline` marks the field, and `lines` counts it by the
/// expression that its string spells. Without a directive the field has no
/// attribute.
pub open spec fn attribute_of(annotations: Seq<Seq<char>>) -> Result<
    AttributeModel,
    AttributeError,
> {
    match selected(Seq::new(annotations.len(), |i: int| annotation_read(annotations[i]))) {
        Err(e) => Err(e),
        Ok(None) => Ok(AttributeModel::Absent),
        Ok(Some(directive)) => match meaning_of(directive) {
            Err(e) => Err(e),
            Ok(MeaningModel::Inline) => Ok(AttributeModel::Inline),
            Ok(MeaningModel::Lines(text)) => match count_read(text) {
                Ok(count) => Ok(AttributeModel::Lines { count }),
                Err(e) => Err(AttributeError::Expression(e)),
            },
        },
    }
}

/// The items that one annotation holds for this library: none where it
/// stands under another name.
pub open spec fn directive_items(annotation: AnnotationModel) -> Result<
    Option<Seq<DirectiveModel>>,
    AttributeError,
> {
    match annotation {
        AnnotationModel::Unrelated => Ok(None),
        AnnotationModel::Malformed => Err(AttributeError::Malformed),
        AnnotationModel::Directives(items) => Ok(Some(items)),
    }
}

/// The lists of items that the annotations of a field hold for this library,
/// in order, or the failure of the first annotation that is malformed.
pub open spec fn directive_lists(annotations: Seq<AnnotationModel>) -> Result<
    Seq<Seq<DirectiveModel>>,
    AttributeError,
>
    decreases annotations.len(),
{
    if annotations.len() == 0 {
        Ok(Seq::empty())
    } else {
        match directive_lists(annotations.drop_last()) {
            Err(e) => Err(e),
            Ok(lists) => match directive_items(annotations.last()) {
                Err(e) => Err(e),
                Ok(None) => Ok(lists),
                Ok(Some(items)) => Ok(lists.push(items)),
            },
        }
    }
}

/// The one directive that the annotations of a field hold, or none where no
/// annotation is for this library. A field has at most one directive: two
/// annotations, or two items in one, are a duplicate, and an annotation with
/// an empty list misses its directive.
pub open spec fn selected(annotations: Seq<AnnotationModel>) -> Result<
    Option<DirectiveModel>,
    AttributeError,
> {
    match directive_lists(annotations) {
        Err(e) => Err(e),
        Ok(lists) => {
            if lists.len() == 0 {
                Ok(None)
            } else if lists.len() > 1 {
                Err(AttributeError::Duplicate)
            } else if lists[0].len() == 0 {
                Err(AttributeError::Missing)
            } else if lists[0].len() > 1 {
                Err(AttributeError::Duplicate)
            } else {
                Ok(Some(lists[0][0]))
            }
        },
    }
}

/// What a directive asks for: `inline`, or `lines` with a string. Any other
/// directive is malformed.
pub open spec fn meaning_of(directive: DirectiveModel) -> Result<MeaningModel, AttributeError> {
    match directive {
        DirectiveModel::Word(word) => if word == "inline"@ {
            Ok(MeaningModel::Inline)
        } else {
            Err(AttributeError::Malformed)
        },
        DirectiveModel::Text(key, text) => if key == "lines"@ {
            Ok(MeaningModel::Lines(text))
        } else {
            Err(AttributeError::Malformed)
        },
        DirectiveModel::Other => Err(AttributeError::Malformed),
    }
}

/// A failure among the first annotations is the failure of all.
pub proof fn lemma_directive_lists_failure_stays(annotations: Seq<AnnotationModel>, k: int)
    requires
        0 <= k <= annotations.len(),
        directive_lists(annotations.take(k)) is Err,
    ensures
        directive_lists(annotations) == directive_lists(annotations.take(k)),
    decreases annotations.len() - k,
{
    if k == annotations.len() {
        assert(annotations.take(k) =~= annotations);
    } else {
        assert(annotations.drop_last().take(k) =~= annotations.take(k));
        lemma_directive_lists_failure_stays(annotations.drop_last(), k);
    }
}

/// Annotations that all stand under other names hold no directive.
pub proof fn lemma_unrelated_annotations_say_nothing(annotations: Seq<AnnotationModel>)
    requires
        forall|i: int| 0 <= i < annotations.len() ==> #[trigger] annotations[i] is Unrelated,
    ensures
        directive_lists(annotations) == Ok::<Seq<Seq<DirectiveModel>>, AttributeError>(
            Seq::empty(),
        ),
        selected(annotations) == Ok::<Option<DirectiveModel>, AttributeError>(None),
    decreases annotations.len(),
{
    if annotations.len() > 0 {
        let head = annotations.drop_last();
        assert forall|i: int| 0 <= i < head.len() implies #[trigger] head[i] is Unrelated by {
            assert(head[i] == annotations[i]);
        }
        lemma_unrelated_annotations_say_nothing(head);
        assert(annotations.last() == annotations[annotations.len() - 1]);
    }
}

impl Directive {
    /// A copy of this directive.
    pub fn copy(&self) -> (other: Directive)
        ensures
            other.deep_view() == self.deep_view(),
    {
        match self {
            Directive::Word(word) => Directive::Word(word.clone()),
            Directive::Text(key, text) => Directive::Text(key.clone(), text.clone()),
            Directive::Other => Directive::Other,
        }
    }
}

/// Whether an annotation stands under this library's name.
pub fn names_library(annotation: &str) -> (b: bool)
    ensures
        b == is_for_library(annotation@),
{
    let chars = to_chars(annotation);
    let start = scan(&chars, 0, true);
    assert(chars@.skip(0) =~= chars@);
    let ghost rest = chars@.skip(start as int);
    let mut end: usize = start;
    while end < chars.len() && word_char(chars[end])
        invariant
            start <= end <= chars.len(),
            rest == chars@.skip(start as int),
            forall|t: int| 0 <= t < end - start ==> crate::syntax::is_word(#[trigger] rest[t]),
        decreases chars.len() - end,
    {
        end += 1;
    }
    proof {
        lemma_word_len_is(rest, end - start);
        assert(rest.take(end - start) =~= annotation@.subrange(start as int, end as int));
    }
    same_text(annotation.substring_char(start, end), "testcase")
}

/// Annotations under other names never change the attribute: a field that
/// bears no annotation under this library's name has none.
pub proof fn lemma_other_names_say_nothing(annotations: Seq<Seq<char>>)
    requires
        forall|i: int| 0 <= i < annotations.len() ==> !is_for_library(#[trigger] annotations[i]),
    ensures
        attribute_of(annotations) == Ok::<AttributeModel, AttributeError>(AttributeModel::Absent),
{
    let read = Seq::new(annotations.len(), |i: int| annotation_read(annotations[i]));
    assert forall|i: int| 0 <= i < read.len() implies #[trigger] read[i] is Unrelated by {
        assert(!is_for_library(annotations[i]));
    }
    lemma_unrelated_annotations_say_nothing(read);
}

/// The directive that the item `item` of a list holds.
pub(crate) fn directive_of(item: &NestedMeta) -> (r: Directive)
    ensures
        r.deep_view() == directive_in(item_contents(*item)),
{
    match nested_meta(item) {
        None => Directive::Other,
        Some(meta) => match meta_shape(&meta) {
            MetaShape::Word(Some(word)) => Directive::Word(word),
            MetaShape::Text(Some(key), text) => Directive::Text(key, text),
            _ => Directive::Other,
        },
    }
}

/// What one annotation holds for this library. An annotation under another
/// name is unrelated, whatever it holds: it is not read.
pub fn read_annotation(annotation: &str) -> (r: Annotation)
    ensures
        r.deep_view() == annotation_read(annotation@),
{
    if !names_library(annotation) {
        return Annotation::Unrelated;
    }
    if !is_admitted(annotation) {
        return Annotation::Malformed;
    }
    let meta = match read_meta(annotation) {
        Some(meta) => meta,
        None => return Annotation::Malformed,
    };
    match meta_shape(&meta) {
        MetaShape::List(Some(name), items) => {
            if !same_text(name.as_str(), "testcase") {
                return Annotation::Unrelated;
            }
            let ghost all = Seq::new(items@.len(), |k: int| directive_in(item_contents(items@[k])));
            let mut directives: Vec<Directive> = Vec::new();
            let mut i: usize = 0;
            assert(directives.deep_view() =~= all.take(0));
            while i < items.len()
                invariant
                    i <= items.len(),
                    all == Seq::new(items@.len(), |k: int| directive_in(item_contents(items@[k]))),
                    directives.deep_view() == all.take(i as int),
                decreases items.len() - i,
            {
                let ghost before = directives.deep_view();
                let directive = directive_of(&items[i]);
                directives.push(directive);
                assert(directives.deep_view() =~= before.push(directive.deep_view()));
                assert(directives.deep_view() =~= all.take(i + 1));
                i += 1;
            }
            assert(all.take(i as int) =~= all);
            assert(Seq::new(
                Seq::new(items@.len(), |k: int| item_contents(items@[k])).len(),
                |k: int| directive_in(Seq::new(items@.len(), |k: int| item_contents(items@[k]))[k]),
            ) =~= all);
            Annotation::Directives(directives)
        },
        MetaShape::List(None, _) => Annotation::Unrelated,
        MetaShape::Word(name) => unlisted(name),
        MetaShape::Text(name, _) => unlisted(name),
        MetaShape::Value(name) => unlisted(name),
    }
}

/// What an annotation without a list holds for this library.
pub fn unlisted(name: Option<String>) -> (r: Annotation)
    ensures
        r.deep_view() == unlisted_of(name.deep_view()),
{
    match name {
        Some(name) => {
            if same_text(name.as_str(), "testcase") {
                Annotation::Malformed
            } else {
                Annotation::Unrelated
            }
        },
        None => Annotation::Unrelated,
    }
}

/// The one directive that the annotations of a field hold.
pub fn select(annotations: &Vec<Annotation>) -> (r: Result<Option<Directive>, AttributeError>)
    ensures
        agrees(r, selected(annotations.deep_view())),
{
    let ghost all = annotations.deep_view();
    let mut lists: Vec<Vec<Directive>> = Vec::new();
    let mut i: usize = 0;
    assert(all.take(0) =~= Seq::<AnnotationModel>::empty());
    assert(lists.deep_view() =~= Seq::<Seq<DirectiveModel>>::empty());
    while i < annotations.len()
        invariant
            i <= annotations.len(),
            all == annotations.deep_view(),
            directive_lists(all.take(i as int)) == Ok::<Seq<Seq<DirectiveModel>>, AttributeError>(
                lists.deep_view(),
            ),
        decreases annotations.len() - i,
    {
        proof {
            assert(all.take(i + 1).drop_last() =~= all.take(i as int));
            assert(all.take(i + 1).last() == annotations@[i as int].deep_view());
        }
        match &annotations[i] {
            Annotation::Unrelated => {},
            Annotation::Malformed => {
                proof {
                    lemma_directive_lists_failure_stays(all, i + 1);
                }
                return Err(AttributeError::Malformed);
            },
            Annotation::Directives(items) => {
                let mut copied: Vec<Directive> = Vec::new();
                let mut j: usize = 0;
                assert(copied.deep_view() =~= items.deep_view().take(0));
                while j < items.len()
                    invariant
                        j <= items.len(),
                        copied.deep_view() == items.deep_view().take(j as int),
                    decreases items.len() - j,
                {
                    let ghost before = copied.deep_view();
                    let item = items[j].copy();
                    copied.push(item);
                    assert(copied.deep_view() =~= before.push(item.deep_view()));
                    assert(copied.deep_view() =~= items.deep_view().take(j + 1));
                    j += 1;
                }
                assert(items.deep_view().take(j as int) =~= items.deep_view());
                let ghost before = lists.deep_view();
                lists.push(copied);
                assert(lists.deep_view() =~= before.push(items.deep_view()));
            },
        }
        i += 1;
    }
    assert(all.take(i as int) =~= all);
    if lists.len() == 0 {
        Ok(None)
    } else if lists.len() > 1 {
        Err(AttributeError::Duplicate)
    } else if lists[0].len() == 0 {
        Err(AttributeError::Missing)
    } else if lists[0].len() > 1 {
        Err(AttributeError::Duplicate)
    } else {
        Ok(Some(lists[0][0].copy()))
    }
}

/// What a directive asks for.
pub fn meaning(directive: &Directive) -> (r: Result<Meaning, AttributeError>)
    ensures
        agrees(r, meaning_of(directive.deep_view())),
{
    match directive {
        Directive::Word(word) => {
            if same_text(word.as_str(), "inline") {
                Ok(Meaning::Inline)
            } else {
                Err(AttributeError::Malformed)
            }
        },
        Directive::Text(key, text) => {
            if same_text(key.as_str(), "lines") {
                Ok(Meaning::Lines(text.clone()))
            } else {
                Err(AttributeError::Malformed)
            }
        },
        Directive::Other => Err(AttributeError::Malformed),
    }
}

impl Attribute {
    /// The attribute that the annotations of `field` give.
    pub fn for_field(field: &FieldDecl) -> (r: Result<Attribute, AttributeError>)
        ensures
            agrees(r, attribute_of(field.deep_view().annotations)),
    {
        let annotations = &field.annotations;
        let ghost texts = field.deep_view().annotations;
        let ghost all = Seq::new(texts.len(), |k: int| annotation_read(texts[k]));
        let mut read: Vec<Annotation> = Vec::new();
        let mut i: usize = 0;
        assert(read.deep_view() =~= all.take(0));
        while i < annotations.len()
            invariant
                i <= annotations.len(),
                *annotations == field.annotations,
                texts == field.deep_view().annotations,
                all == Seq::new(texts.len(), |k: int| annotation_read(texts[k])),
                read.deep_view() == all.take(i as int),
            decreases annotations.len() - i,
        {
            let ghost before = read.deep_view();
            assert(texts[i as int] == annotations@[i as int]@);
            let annotation = read_annotation(annotations[i].as_str());
            read.push(annotation);
            assert(read.deep_view() =~= before.push(annotation.deep_view()));
            assert(read.deep_view() =~= all.take(i + 1));
            i += 1;
        }
        assert(all.take(i as int) =~= all);
        let directive = match select(&read) {
            Ok(Some(directive)) => directive,
            Ok(None) => return Ok(Attribute::Absent),
            Err(e) => return Err(e),
        };
        match meaning(&directive) {
            Err(e) => Err(e),
            Ok(Meaning::Inline) => Ok(Attribute::Inline),
            Ok(Meaning::Lines(text)) => match parse_count(text.as_str()) {
                Ok(count) => Ok(Attribute::Lines { count }),
                Err(e) => Err(AttributeError::Expression(e)),
            },
        }
    }
}

} // verus!
