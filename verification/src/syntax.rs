//! Rust syntax written as text, read with `syn`: expressions, the content of
//! attributes, and types.
//!
//! A text goes to `syn` only after a scan has admitted it: a short text of
//! words, decimal numbers, blanks, signs and plain strings, without
//! comments. What `syn` hands back is a tree of its own, which the readers
//! here take apart one node at a time.
//!
//! What `syn` finds in a text is not proved here. It is named: each reader
//! claims that its answer is what the text, or the node, holds, and nothing
//! more. The callers decide everything else, and say what they decide over
//! those names.

use crate::expr::{Operator, TreeModel};
use crate::number::is_digit;
use crate::text::to_chars;
use syn::{BinOp, Expr, GenericArgument, Lit, Meta, NestedMeta, PathArguments, PathSegment, Type};
use vstd::prelude::*;

verus! {

/// The most characters a text may have to be read.
pub const MAX_TEXT: usize = 160;

/// The most marks a text may have to be read.
pub const MAX_MARKS: usize = 24;

/// Whether `c` can stand in a word: a letter of the English alphabet, a
/// digit or `_`.
pub open spec fn is_word(c: char) -> bool {
    ('a' <= c <= 'z') || ('A' <= c <= 'Z') || ('0' <= c <= '9') || c == '_'
}

/// Whether `c` is a blank: a space, a tab, or the end of a line.
pub open spec fn is_blank(c: char) -> bool {
    c == ' ' || c == '\t' || c == '\n' || c == '\r'
}

/// Whether `c` is one of the signs that may stand outside a string:
/// brackets, the signs that separate, and the operators that no literal
/// starts with.
pub open spec fn is_sign(c: char) -> bool {
    c == '(' || c == ')' || c == '[' || c == ']' || c == '<' || c == '>' || c == ',' || c == ';'
        || c == ':' || c == '=' || c == '+' || c == '-' || c == '*' || c == '/' || c == '%'
        || c == '&' || c == '|' || c == '^' || c == '!' || c == '?'
}

/// Whether `c` is a digit or `_`.
pub open spec fn is_digit_or_bar(c: char) -> bool {
    is_digit(c) || c == '_'
}

/// The number of marks in `s`: the characters that neither stand in a word
/// nor are blanks.
pub open spec fn marks(s: Seq<char>) -> nat
    decreases s.len(),
{
    if s.len() == 0 {
        0
    } else {
        marks(s.drop_last()) + if !is_word(s.last()) && !is_blank(s.last()) {
            1nat
        } else {
            0nat
        }
    }
}

/// The number of double quotes in `s`.
pub open spec fn quotes(s: Seq<char>) -> nat
    decreases s.len(),
{
    if s.len() == 0 {
        0
    } else {
        quotes(s.drop_last()) + if s.last() == '"' {
            1nat
        } else {
            0nat
        }
    }
}

/// Length of the longest prefix of `s` made of digits and `_`.
pub open spec fn digits_len(s: Seq<char>) -> nat
    decreases s.len(),
{
    if s.len() > 0 && is_digit_or_bar(s[0]) {
        1 + digits_len(s.skip(1))
    } else {
        0
    }
}

/// Length of the longest prefix of `s` made of characters of words.
pub open spec fn word_len(s: Seq<char>) -> nat
    decreases s.len(),
{
    if s.len() > 0 && is_word(s[0]) {
        1 + word_len(s.skip(1))
    } else {
        0
    }
}

/// Whether the word that starts at `i` is a plain number: digits and `_`,
/// and after them nothing, or `usize`.
pub open spec fn plain_number(s: Seq<char>, i: int) -> bool {
    let digits = digits_len(s.skip(i));
    let word = word_len(s.skip(i));
    word == digits || s.subrange(i + digits, i + word) == seq!['u', 's', 'i', 'z', 'e']
}

/// Whether `c` may stand inside a string: any character but a double
/// quote, a backslash and the control characters.
pub open spec fn is_plain(c: char) -> bool {
    c != '"' && c != '\\' && ' ' <= c && c != '\u{7f}'
}

/// Whether the character at `i` may stand where it stands.
///
/// A double quote that opens a string does not follow a word, and one that
/// closes a string is not followed by one. Inside a string stands any plain
/// character. Outside stand the characters of words, blanks and signs; a `/`
/// starts no comment, and a word that starts with a digit is a plain number.
pub open spec fn admitted_at(s: Seq<char>, i: int) -> bool {
    let c = s[i];
    let inside = quotes(s.take(i)) % 2 == 1;
    if c == '"' {
        if inside {
            i + 1 == s.len() || !is_word(s[i + 1])
        } else {
            i == 0 || !is_word(s[i - 1])
        }
    } else if inside {
        is_plain(c)
    } else {
        &&& is_word(c) || is_blank(c) || is_sign(c)
        &&& c == '/' ==> !(i + 1 < s.len() && (s[i + 1] == '/' || s[i + 1] == '*'))
        &&& is_digit(c) && (i == 0 || !is_word(s[i - 1])) ==> plain_number(s, i)
    }
}

/// Whether `s` is admitted: no longer than `MAX_TEXT`, with no more marks
/// than `MAX_MARKS`, and every character where it may stand.
///
/// Each bound keeps `syn` from a failure that it does not hand back as an
/// error:
///
/// - The length and the marks bound the nesting. `syn` parses by recursive
///   descent and a level of nesting costs a text a mark or a word, so an
///   admitted text is at most 24 brackets or some 40 words deep, which an
///   ordinary stack holds.
/// - A quote that opens a string follows no word, and `#` and `'` are no
///   signs: this leaves out strings with a prefix, raw strings, characters
///   and bytes. `syn` panics on a literal whose prefix it does not know.
/// - A string holds no backslash and no control character: this leaves out
///   escapes, which the readers of literals take apart with indexing.
/// - A word that starts with a digit is a plain number: this leaves out
///   numbers in other bases, with exponents or with other suffixes, for
///   which the literal may be none that `syn` knows.
/// - A `/` starts no comment, and `.` is no sign: this leaves out comments,
///   the marker that the lexer keeps for a failed expansion, and numbers
///   with a point.
///
/// Braces, `@`, `$`, `~`, the backquote and letters beyond the English
/// alphabet are left out as well. No bound above asks for that; they open
/// parts of the grammar (blocks, items, patterns) that none of the three
/// readers has a use for: a text that holds one spells no count, no
/// annotation of this library and no type that can be read.
pub open spec fn admitted(s: Seq<char>) -> bool {
    &&& s.len() <= MAX_TEXT
    &&& marks(s) <= MAX_MARKS
    &&& forall|i: int| 0 <= i < s.len() ==> #[trigger] admitted_at(s, i)
}

/// A run of digits and `_` ends at the first character that is neither.
pub proof fn lemma_digits_len_is(s: Seq<char>, n: int)
    requires
        0 <= n <= s.len(),
        forall|i: int| 0 <= i < n ==> is_digit_or_bar(#[trigger] s[i]),
        n == s.len() || !is_digit_or_bar(s[n]),
    ensures
        digits_len(s) == n,
    decreases n,
{
    if n > 0 {
        let t = s.skip(1);
        assert forall|i: int| 0 <= i < n - 1 implies is_digit_or_bar(#[trigger] t[i]) by {
            assert(t[i] == s[i + 1]);
        }
        lemma_digits_len_is(t, n - 1);
    }
}

/// A word ends at the first character that cannot stand in one.
pub proof fn lemma_word_len_is(s: Seq<char>, n: int)
    requires
        0 <= n <= s.len(),
        forall|i: int| 0 <= i < n ==> is_word(#[trigger] s[i]),
        n == s.len() || !is_word(s[n]),
    ensures
        word_len(s) == n,
    decreases n,
{
    if n > 0 {
        let t = s.skip(1);
        assert forall|i: int| 0 <= i < n - 1 implies is_word(#[trigger] t[i]) by {
            assert(t[i] == s[i + 1]);
        }
        lemma_word_len_is(t, n - 1);
    }
}

/// Whether `c` can stand in a word.
pub fn word_char(c: char) -> (b: bool)
    ensures
        b == is_word(c),
{
    ('a' <= c && c <= 'z') || ('A' <= c && c <= 'Z') || ('0' <= c && c <= '9') || c == '_'
}

/// Whether the word that starts at `i` is a plain number.
fn number_at(chars: &Vec<char>, i: usize) -> (b: bool)
    requires
        i < chars.len(),
    ensures
        b == plain_number(chars@, i as int),
{
    let ghost s = chars@.skip(i as int);
    let mut j: usize = i;
    while j < chars.len() && (('0' <= chars[j] && chars[j] <= '9') || chars[j] == '_')
        invariant
            i <= j <= chars.len(),
            s == chars@.skip(i as int),
            forall|t: int| 0 <= t < j - i ==> is_digit_or_bar(#[trigger] s[t]),
        decreases chars.len() - j,
    {
        j += 1;
    }
    let mut k: usize = j;
    while k < chars.len() && word_char(chars[k])
        invariant
            i <= j <= k <= chars.len(),
            s == chars@.skip(i as int),
            forall|t: int| 0 <= t < j - i ==> is_digit_or_bar(#[trigger] s[t]),
            forall|t: int| 0 <= t < k - i ==> is_word(#[trigger] s[t]),
        decreases chars.len() - k,
    {
        k += 1;
    }
    proof {
        lemma_digits_len_is(s, j - i);
        lemma_word_len_is(s, k - i);
    }
    if k == j {
        return true;
    }
    let same = k - j == 5 && chars[j] == 'u' && chars[j + 1] == 's' && chars[j + 2] == 'i'
        && chars[j + 3] == 'z' && chars[j + 4] == 'e';
    proof {
        let tail = chars@.subrange(j as int, k as int);
        if same {
            assert(tail =~= seq!['u', 's', 'i', 'z', 'e']);
        } else if k - j == 5 {
            assert(tail[0] == chars@[j as int]);
            assert(tail[1] == chars@[j + 1]);
            assert(tail[2] == chars@[j + 2]);
            assert(tail[3] == chars@[j + 3]);
            assert(tail[4] == chars@[j + 4]);
        }
    }
    same
}

/// Whether `text` is admitted.
pub fn is_admitted(text: &str) -> (b: bool)
    ensures
        b == admitted(text@),
{
    let chars = to_chars(text);
    let n = chars.len();
    if n > MAX_TEXT {
        return false;
    }
    let mut count: usize = 0;
    let mut inside = false;
    let mut i: usize = 0;
    assert(chars@.take(0) =~= Seq::<char>::empty());
    while i < n
        invariant
            i <= n <= MAX_TEXT,
            n == chars.len(),
            chars@ == text@,
            count == marks(chars@.take(i as int)),
            count <= i,
            inside == (quotes(chars@.take(i as int)) % 2 == 1),
            forall|k: int| 0 <= k < i ==> #[trigger] admitted_at(chars@, k),
        decreases n - i,
    {
        assert(chars@.take(i + 1).drop_last() =~= chars@.take(i as int));
        let c = chars[i];
        let word = word_char(c);
        let blank = c == ' ' || c == '\t' || c == '\n' || c == '\r';
        let sign = c == '(' || c == ')' || c == '[' || c == ']' || c == '<' || c == '>' || c == ','
            || c == ';' || c == ':' || c == '=' || c == '+' || c == '-' || c == '*' || c == '/'
            || c == '%' || c == '&' || c == '|' || c == '^' || c == '!' || c == '?';
        let mut fine = true;
        if c == '"' {
            if !inside {
                if i > 0 && word_char(chars[i - 1]) {
                    fine = false;
                }
            } else if i + 1 < n && word_char(chars[i + 1]) {
                fine = false;
            }
            inside = !inside;
        } else if inside {
            fine = c != '\\' && ' ' <= c && c != '\u{7f}';
        } else {
            fine = word || blank || sign;
            if c == '/' && i + 1 < n && (chars[i + 1] == '/' || chars[i + 1] == '*') {
                fine = false;
            }
            if '0' <= c && c <= '9' && (i == 0 || !word_char(chars[i - 1])) {
                if !number_at(&chars, i) {
                    fine = false;
                }
            }
        }
        if !fine {
            assert(!admitted_at(chars@, i as int));
            return false;
        }
        if !word && !blank {
            count += 1;
        }
        i += 1;
    }
    assert(chars@.take(i as int) =~= chars@);
    count <= MAX_MARKS
}

#[verifier::external_type_specification]
#[verifier::external_body]
pub struct ExExpr(Expr);

#[verifier::external_type_specification]
#[verifier::external_body]
pub struct ExBinOp(BinOp);

#[verifier::external_type_specification]
#[verifier::external_body]
pub struct ExMeta(Meta);

#[verifier::external_type_specification]
#[verifier::external_body]
pub struct ExNestedMeta(NestedMeta);

#[verifier::external_type_specification]
#[verifier::external_body]
pub struct ExType(Type);

#[verifier::external_type_specification]
#[verifier::external_body]
pub struct ExPathSegment(PathSegment);

#[verifier::external_type_specification]
#[verifier::external_body]
pub struct ExGenericArgument(GenericArgument);

/// What the outermost node of an expression holds.
pub enum ExprShape {
    /// A single name.
    Name(String),
    /// An integer: its digits in base ten, and its suffix.
    Number(String, String),
    /// A binary operation: the operator, then the left and right operands.
    Binary(BinOp, Expr, Expr),
    /// An expression in parentheses: what stands inside.
    Nested(Expr),
    /// Anything else.
    Other,
}

/// What the outermost node of the content of an attribute holds. The name
/// is that of a path of one name; of any other path there is none.
pub enum MetaShape {
    /// A path alone, as in `inline`.
    Word(Option<String>),
    /// A path and a list, as in `testcase(inline)`.
    List(Option<String>, Vec<NestedMeta>),
    /// A path and a string, as in `lines = "n"`: what the string holds.
    Text(Option<String>, String),
    /// A path and a literal that is no string.
    Value(Option<String>),
}

/// What the outermost node of a type holds.
pub enum TypeShape {
    /// A path: its segments, from first to last.
    Path(Vec<PathSegment>),
    /// A tuple: its elements.
    Tuple(Vec<Type>),
    /// An array: its element and its length.
    Array(Type, Expr),
    /// A type in parentheses: what stands inside.
    Nested(Type),
    /// Anything else.
    Other,
}

/// What stands behind the name of a segment of a path.
pub enum Arguments {
    /// Nothing.
    Absent,
    /// Arguments between angle brackets.
    Angle(Vec<GenericArgument>),
    /// Arguments of another form.
    Other,
}

/// What the content of an attribute holds. The name is that of a path of
/// one name; of any other path there is none.
pub ghost enum MetaModel {
    Word(Option<Seq<char>>),
    List(Option<Seq<char>>, Seq<ItemModel>),
    Text(Option<Seq<char>>, Seq<char>),
    Value(Option<Seq<char>>),
}

/// What an item in the list of an attribute holds: a literal, or the content
/// of an attribute itself, of which the items of a list are left out.
pub ghost enum ItemModel {
    Word(Option<Seq<char>>),
    List(Option<Seq<char>>),
    Text(Option<Seq<char>>, Seq<char>),
    Value(Option<Seq<char>>),
    Literal,
}

/// What a type holds.
pub ghost enum TypeModel {
    /// A path that no type qualifies: its segments, from first to last.
    Path(Seq<SegmentModel>),
    Tuple(Seq<TypeModel>),
    /// An array: its element and its length.
    Array(Box<TypeModel>, TreeModel),
    Nested(Box<TypeModel>),
    Other,
}

/// What a segment of a path holds: its name, and what stands behind it.
pub ghost struct SegmentModel {
    pub name: Seq<char>,
    pub arguments: ArgumentsModel,
}

/// What stands behind the name of a segment of a path. An argument between
/// angle brackets that is no type is none.
pub ghost enum ArgumentsModel {
    Absent,
    Angle(Seq<Option<TypeModel>>),
    Other,
}

/// The expression that `syn::parse_str::<syn::Expr>` finds in `text`, or none
/// where it finds none.
pub uninterp spec fn expression_read(text: Seq<char>) -> Option<TreeModel>;

/// What the expression `e` holds.
pub uninterp spec fn expr_contents(e: Expr) -> TreeModel;

/// The operation of arithmetic that `op` is, or none where it is another.
pub uninterp spec fn operator_contents(op: BinOp) -> Option<Operator>;

/// The content of an attribute that `syn::parse_str::<syn::Meta>` finds in
/// `text`, or none where it finds none.
pub uninterp spec fn meta_read(text: Seq<char>) -> Option<MetaModel>;

/// What the content `m` of an attribute holds.
pub uninterp spec fn meta_contents(m: Meta) -> MetaModel;

/// What the item `item` in the list of an attribute holds.
pub uninterp spec fn item_contents(item: NestedMeta) -> ItemModel;

/// The type that `syn::parse_str::<syn::Type>` finds in `text`, or none where
/// it finds none.
pub uninterp spec fn type_read(text: Seq<char>) -> Option<TypeModel>;

/// What the type `t` holds.
pub uninterp spec fn type_contents(t: Type) -> TypeModel;

/// What the segment `segment` of a path holds.
pub uninterp spec fn segment_contents(segment: PathSegment) -> SegmentModel;

/// The type that the argument `argument` is, or none where it is no type.
pub uninterp spec fn argument_contents(argument: GenericArgument) -> Option<TypeModel>;

/// What a node of an expression holds, given its shape.
pub open spec fn expr_shape_contents(shape: ExprShape) -> TreeModel {
    match shape {
        ExprShape::Name(name) => TreeModel::Name(name@),
        ExprShape::Number(digits, suffix) => TreeModel::Number(digits@, suffix@),
        ExprShape::Binary(op, left, right) => TreeModel::Binary(
            operator_contents(op),
            Box::new(expr_contents(left)),
            Box::new(expr_contents(right)),
        ),
        ExprShape::Nested(inner) => TreeModel::Nested(Box::new(expr_contents(inner))),
        ExprShape::Other => TreeModel::Other,
    }
}

/// What the content of an attribute holds, given its shape.
pub open spec fn meta_shape_contents(shape: MetaShape) -> MetaModel {
    match shape {
        MetaShape::Word(name) => MetaModel::Word(name.deep_view()),
        MetaShape::List(name, items) => MetaModel::List(
            name.deep_view(),
            Seq::new(items@.len(), |i: int| item_contents(items@[i])),
        ),
        MetaShape::Text(name, text) => MetaModel::Text(name.deep_view(), text@),
        MetaShape::Value(name) => MetaModel::Value(name.deep_view()),
    }
}

/// The content of an attribute as an item of a list: the items of a list of
/// its own are left out.
pub open spec fn as_item(m: MetaModel) -> ItemModel {
    match m {
        MetaModel::Word(name) => ItemModel::Word(name),
        MetaModel::List(name, _) => ItemModel::List(name),
        MetaModel::Text(name, text) => ItemModel::Text(name, text),
        MetaModel::Value(name) => ItemModel::Value(name),
    }
}

/// What a type holds, given its shape.
pub open spec fn type_shape_contents(shape: TypeShape) -> TypeModel {
    match shape {
        TypeShape::Path(segments) => TypeModel::Path(
            Seq::new(segments@.len(), |i: int| segment_contents(segments@[i])),
        ),
        TypeShape::Tuple(elements) => TypeModel::Tuple(
            Seq::new(elements@.len(), |i: int| type_contents(elements@[i])),
        ),
        TypeShape::Array(element, len) => TypeModel::Array(
            Box::new(type_contents(element)),
            expr_contents(len),
        ),
        TypeShape::Nested(inner) => TypeModel::Nested(Box::new(type_contents(inner))),
        TypeShape::Other => TypeModel::Other,
    }
}

/// What stands behind the name of a segment, given its shape.
pub open spec fn arguments_contents(arguments: Arguments) -> ArgumentsModel {
    match arguments {
        Arguments::Absent => ArgumentsModel::Absent,
        Arguments::Angle(list) => ArgumentsModel::Angle(
            Seq::new(list@.len(), |i: int| argument_contents(list@[i])),
        ),
        Arguments::Other => ArgumentsModel::Other,
    }
}

/// `syn::parse_str::<syn::Expr>`: the expression that `text` spells, where
/// `syn` finds one. The contract claims that the answer depends on `text`
/// alone, and names it. The text must be admitted; see `admitted`.
#[verifier::external_body]
pub(crate) fn read_expr(text: &str) -> (r: Option<Expr>)
    requires
        admitted(text@),
    ensures
        match r {
            Some(e) => expression_read(text@) == Some(expr_contents(e)),
            None => expression_read(text@) is None,
        },
{
    syn::parse_str::<Expr>(text).ok()
}

/// Tells the variants of `syn::Expr` apart and hands over what the node
/// holds: of a path that no type qualifies its one name
/// (`Path::get_ident`), of an integer literal its digits and suffix
/// (`LitInt::base10_digits`, `LitInt::suffix`), of a binary operation and of
/// parentheses their parts. The contract claims that this is what the
/// expression holds.
#[verifier::external_body]
pub(crate) fn expr_shape(e: &Expr) -> (shape: ExprShape)
    ensures
        expr_shape_contents(shape) == expr_contents(*e),
{
    match e {
        Expr::Path(p) => match (&p.qself, p.path.get_ident()) {
            (None, Some(name)) => ExprShape::Name(name.to_string()),
            _ => ExprShape::Other,
        },
        Expr::Lit(l) => match &l.lit {
            Lit::Int(n) => ExprShape::Number(n.base10_digits().to_string(), n.suffix().to_string()),
            _ => ExprShape::Other,
        },
        Expr::Binary(b) => ExprShape::Binary(b.op, (*b.left).clone(), (*b.right).clone()),
        Expr::Paren(p) => ExprShape::Nested((*p.expr).clone()),
        _ => ExprShape::Other,
    }
}

/// Tells the variants of `syn::BinOp` apart: the five operations of
/// arithmetic, or none of them. The contract names the answer.
#[verifier::external_body]
pub(crate) fn operator_of(op: &BinOp) -> (r: Option<Operator>)
    ensures
        r == operator_contents(*op),
{
    match op {
        BinOp::Add(_) => Some(Operator::Plus),
        BinOp::Sub(_) => Some(Operator::Minus),
        BinOp::Mul(_) => Some(Operator::Times),
        BinOp::Div(_) => Some(Operator::Over),
        BinOp::Rem(_) => Some(Operator::Modulo),
        _ => None,
    }
}

/// `syn::parse_str::<syn::Meta>`: the content of an attribute that `text`
/// spells, where `syn` finds one. The contract claims that the answer
/// depends on `text` alone, and names it. The text must be admitted; see
/// `admitted`.
#[verifier::external_body]
pub(crate) fn read_meta(text: &str) -> (r: Option<Meta>)
    requires
        admitted(text@),
    ensures
        match r {
            Some(m) => meta_read(text@) == Some(meta_contents(m)),
            None => meta_read(text@) is None,
        },
{
    syn::parse_str::<Meta>(text).ok()
}

/// Tells the variants of `syn::Meta` apart and hands over what the node
/// holds: the one name of its path (`Path::get_ident`), the items of a
/// list, the content of a string (`LitStr::value`). The contract claims
/// that this is what the content holds.
#[verifier::external_body]
pub(crate) fn meta_shape(m: &Meta) -> (shape: MetaShape)
    ensures
        meta_shape_contents(shape) == meta_contents(*m),
{
    let name = m.path().get_ident().map(|name| name.to_string());
    match m {
        Meta::Path(_) => MetaShape::Word(name),
        Meta::List(l) => MetaShape::List(name, l.nested.iter().cloned().collect()),
        Meta::NameValue(v) => match &v.lit {
            Lit::Str(s) => MetaShape::Text(name, s.value()),
            _ => MetaShape::Value(name),
        },
    }
}

/// Tells the variants of `syn::NestedMeta` apart: an item that is itself
/// the content of an attribute, or a literal, of which nothing is handed
/// over. The contract claims that this is what the item holds.
#[verifier::external_body]
pub(crate) fn nested_meta(item: &NestedMeta) -> (r: Option<Meta>)
    ensures
        match r {
            Some(m) => item_contents(*item) == as_item(meta_contents(m)),
            None => item_contents(*item) == ItemModel::Literal,
        },
{
    match item {
        NestedMeta::Meta(m) => Some(m.clone()),
        NestedMeta::Lit(_) => None,
    }
}

/// `syn::parse_str::<syn::Type>`: the type that `text` spells, where `syn`
/// finds one. The contract claims that the answer depends on `text` alone,
/// and names it. The text must be admitted; see `admitted`.
#[verifier::external_body]
pub(crate) fn read_type(text: &str) -> (r: Option<Type>)
    requires
        admitted(text@),
    ensures
        match r {
            Some(t) => type_read(text@) == Some(type_contents(t)),
            None => type_read(text@) is None,
        },
{
    syn::parse_str::<Type>(text).ok()
}

/// Tells the variants of `syn::Type` apart and hands over what the node
/// holds: of a path every segment, of a tuple, an array and parentheses
/// their parts. A path that is qualified by a type is `Other`. The contract
/// claims that this is what the type holds.
#[verifier::external_body]
pub(crate) fn type_shape(t: &Type) -> (shape: TypeShape)
    ensures
        type_shape_contents(shape) == type_contents(*t),
{
    match t {
        Type::Path(p) => match &p.qself {
            None => TypeShape::Path(p.path.segments.iter().cloned().collect()),
            Some(_) => TypeShape::Other,
        },
        Type::Tuple(t) => TypeShape::Tuple(t.elems.iter().cloned().collect()),
        Type::Array(a) => TypeShape::Array((*a.elem).clone(), a.len.clone()),
        Type::Paren(p) => TypeShape::Nested((*p.elem).clone()),
        _ => TypeShape::Other,
    }
}

/// The name of a segment of a path (`Ident::to_string`). The contract claims
/// that this is the name the segment holds.
#[verifier::external_body]
pub(crate) fn segment_name(segment: &PathSegment) -> (name: String)
    ensures
        name@ == segment_contents(*segment).name,
{
    segment.ident.to_string()
}

/// Tells the variants of `syn::PathArguments` apart and hands over the
/// arguments between angle brackets. The contract claims that this is what
/// stands behind the name of the segment.
#[verifier::external_body]
pub(crate) fn segment_arguments(segment: &PathSegment) -> (arguments: Arguments)
    ensures
        arguments_contents(arguments) == segment_contents(*segment).arguments,
{
    match &segment.arguments {
        PathArguments::None => Arguments::Absent,
        PathArguments::AngleBracketed(a) => Arguments::Angle(a.args.iter().cloned().collect()),
        PathArguments::Parenthesized(_) => Arguments::Other,
    }
}

/// Tells the variants of `syn::GenericArgument` apart: an argument that is
/// a type, or one of another kind, of which nothing is handed over. The
/// contract claims that this is what the argument holds.
#[verifier::external_body]
pub(crate) fn argument_type(argument: &GenericArgument) -> (r: Option<Type>)
    ensures
        match r {
            Some(t) => argument_contents(*argument) == Some(type_contents(t)),
            None => argument_contents(*argument) is None,
        },
{
    match argument {
        GenericArgument::Type(t) => Some(t.clone()),
        _ => None,
    }
}

} // verus!
