//! Characters, whitespace and the splitting of a line into tokens.

use vstd::prelude::*;
use vstd::std_specs::iter::IteratorSpec;
use vstd::string::StrSliceExecFns;

verus! {

broadcast use vstd::string::group_string_axioms;

/// Whether `c` is white space: the characters that carry the Unicode property
/// `White_Space`.
pub open spec fn is_whitespace(c: char) -> bool {
    let n = c as u32;
    (0x09 <= n <= 0x0D) || n == 0x20 || n == 0x85 || n == 0xA0 || n == 0x1680 || (0x2000 <= n
        <= 0x200A) || n == 0x2028 || n == 0x2029 || n == 0x202F || n == 0x205F || n == 0x3000
}

/// Length of the longest prefix of `s` in which every character is white
/// space (`space` true) or every character is not (`space` false).
pub open spec fn run_len(s: Seq<char>, space: bool) -> nat
    decreases s.len(),
{
    if s.len() > 0 && is_whitespace(s[0]) == space {
        1 + run_len(s.skip(1), space)
    } else {
        0
    }
}

/// Number of white-space characters at the end of `s`.
pub open spec fn trailing_spaces(s: Seq<char>) -> nat
    decreases s.len(),
{
    if s.len() > 0 && is_whitespace(s.last()) {
        1 + trailing_spaces(s.drop_last())
    } else {
        0
    }
}

/// `s` without the white space at its two ends.
pub open spec fn trimmed(s: Seq<char>) -> Seq<char> {
    let body = s.take(s.len() - trailing_spaces(s));
    body.skip(run_len(body, true) as int)
}

/// The tokens of `s`: its maximal runs of characters that are not white space,
/// from left to right.
pub open spec fn tokens(s: Seq<char>) -> Seq<Seq<char>>
    decreases s.len(),
{
    let rest = s.skip(run_len(s, true) as int);
    let len = run_len(rest, false);
    if len == 0 {
        Seq::empty()
    } else {
        proof {
            lemma_run_len_bound(s, true);
            lemma_run_len_bound(rest, false);
        }
        seq![rest.take(len as int)] + tokens(rest.skip(len as int))
    }
}

/// The texts of a sequence of string slices.
pub open spec fn views(words: Seq<&str>) -> Seq<Seq<char>> {
    Seq::new(words.len(), |i: int| words[i]@)
}

/// A run is no longer than the text it lies in.
pub proof fn lemma_run_len_bound(s: Seq<char>, space: bool)
    ensures
        run_len(s, space) <= s.len(),
    decreases s.len(),
{
    if s.len() > 0 && is_whitespace(s[0]) == space {
        lemma_run_len_bound(s.skip(1), space);
    }
}

/// A run ends at the first character of the other kind, or at the end.
pub proof fn lemma_run_len_is(s: Seq<char>, space: bool, n: int)
    requires
        0 <= n <= s.len(),
        forall|i: int| 0 <= i < n ==> is_whitespace(#[trigger] s[i]) == space,
        n == s.len() || is_whitespace(s[n]) != space,
    ensures
        run_len(s, space) == n,
    decreases n,
{
    if n > 0 {
        let t = s.skip(1);
        assert forall|i: int| 0 <= i < n - 1 implies is_whitespace(#[trigger] t[i]) == space by {
            assert(t[i] == s[i + 1]);
        }
        lemma_run_len_is(t, space, n - 1);
    }
}

/// The white space at the end of `s` starts after the last character that is
/// not white space.
pub proof fn lemma_trailing_spaces_is(s: Seq<char>, n: int)
    requires
        0 <= n <= s.len(),
        forall|i: int| s.len() - n <= i < s.len() ==> is_whitespace(#[trigger] s[i]),
        n == s.len() || !is_whitespace(s[s.len() - n - 1]),
    ensures
        trailing_spaces(s) == n,
    decreases n,
{
    if n > 0 {
        let t = s.drop_last();
        assert forall|i: int| t.len() - (n - 1) <= i < t.len() implies is_whitespace(
            #[trigger] t[i],
        ) by {
            assert(t[i] == s[i]);
        }
        lemma_trailing_spaces_is(t, n - 1);
    }
}

/// Text that neither starts nor ends with white space is its own trimmed
/// form.
pub proof fn lemma_trimmed_keeps_bare_text(s: Seq<char>)
    requires
        s.len() > 0 ==> !is_whitespace(s[0]) && !is_whitespace(s.last()),
    ensures
        trimmed(s) == s,
{
    assert(trailing_spaces(s) == 0);
    assert(s.take(s.len() as int) =~= s);
    assert(run_len(s, true) == 0);
    assert(s.skip(0) =~= s);
}

/// Trimmed text neither starts nor ends with white space, so that trimming
/// it again changes nothing.
pub proof fn lemma_trimmed_is_bare(s: Seq<char>)
    ensures
        trimmed(s).len() > 0 ==> !is_whitespace(trimmed(s)[0]) && !is_whitespace(
            trimmed(s).last(),
        ),
        trimmed(trimmed(s)) == trimmed(s),
{
    let body = s.take(s.len() - trailing_spaces(s));
    lemma_trailing_spaces_bound(s);
    lemma_run_len_bound(body, true);
    let t = trimmed(s);
    if t.len() > 0 {
        lemma_run_len_stops(body, true);
        assert(t[0] == body[run_len(body, true) as int]);
        lemma_trailing_spaces_stop(s);
        assert(t.last() == body.last());
        assert(body.last() == s[s.len() - trailing_spaces(s) - 1]);
    }
    lemma_trimmed_keeps_bare_text(t);
}

/// The white space at the end of a text is no longer than the text.
pub proof fn lemma_trailing_spaces_bound(s: Seq<char>)
    ensures
        trailing_spaces(s) <= s.len(),
    decreases s.len(),
{
    if s.len() > 0 && is_whitespace(s.last()) {
        lemma_trailing_spaces_bound(s.drop_last());
    }
}

/// A run stops before a character of the other kind.
pub proof fn lemma_run_len_stops(s: Seq<char>, space: bool)
    ensures
        run_len(s, space) < s.len() ==> is_whitespace(s[run_len(s, space) as int]) != space,
    decreases s.len(),
{
    if s.len() > 0 && is_whitespace(s[0]) == space {
        lemma_run_len_stops(s.skip(1), space);
        lemma_run_len_bound(s.skip(1), space);
    }
}

/// The white space at the end of a text starts after a character that is
/// none.
pub proof fn lemma_trailing_spaces_stop(s: Seq<char>)
    ensures
        trailing_spaces(s) < s.len() ==> !is_whitespace(s[s.len() - trailing_spaces(s) - 1]),
    decreases s.len(),
{
    if s.len() > 0 && is_whitespace(s.last()) {
        lemma_trailing_spaces_stop(s.drop_last());
        lemma_trailing_spaces_bound(s.drop_last());
    }
}

/// The characters of `s`, in a vector.
pub fn to_chars(s: &str) -> (chars: Vec<char>)
    ensures
        chars@ == s@,
{
    let mut chars: Vec<char> = Vec::new();
    let mut it = s.chars();
    loop
        invariant
            it.obeys_prophetic_iter_laws(),
            it.decrease() is Some,
            chars@ + it.remaining() == s@,
        ensures
            chars@ == s@,
        decreases it.decrease()->0,
    {
        match it.next() {
            Some(c) => {
                chars.push(c);
            },
            None => {
                assert(chars@ =~= chars@ + it.remaining());
                break ;
            },
        }
    }
    chars
}

/// Whether `c` is white space.
pub fn is_space(c: char) -> (b: bool)
    ensures
        b == is_whitespace(c),
{
    let n: u32 = c as u32;
    (0x09 <= n && n <= 0x0D) || n == 0x20 || n == 0x85 || n == 0xA0 || n == 0x1680 || (0x2000 <= n
        && n <= 0x200A) || n == 0x2028 || n == 0x2029 || n == 0x202F || n == 0x205F || n == 0x3000
}

/// The end of the run of `space` characters that starts at `from`.
pub(crate) fn scan(chars: &Vec<char>, from: usize, space: bool) -> (to: usize)
    requires
        from <= chars.len(),
    ensures
        from <= to <= chars.len(),
        to - from == run_len(chars@.skip(from as int), space),
{
    let mut to: usize = from;
    while to < chars.len() && is_space(chars[to]) == space
        invariant
            from <= to <= chars.len(),
            forall|i: int| from <= i < to ==> is_whitespace(#[trigger] chars@[i]) == space,
        decreases chars.len() - to,
    {
        to += 1;
    }
    proof {
        let s = chars@.skip(from as int);
        assert forall|i: int| 0 <= i < to - from implies is_whitespace(#[trigger] s[i])
            == space by {
            assert(s[i] == chars@[from + i]);
        }
        lemma_run_len_is(s, space, to - from);
    }
    to
}

/// The start of the white space that ends at `to`.
pub(crate) fn scan_back(chars: &Vec<char>, to: usize) -> (from: usize)
    requires
        to <= chars.len(),
    ensures
        from <= to,
        to - from == trailing_spaces(chars@.take(to as int)),
{
    let mut from: usize = to;
    while from > 0 && is_space(chars[from - 1])
        invariant
            from <= to <= chars.len(),
            forall|i: int| from <= i < to ==> is_whitespace(#[trigger] chars@[i]),
        decreases from,
    {
        from -= 1;
    }
    proof {
        let s = chars@.take(to as int);
        assert forall|i: int| s.len() - (to - from) <= i < s.len() implies is_whitespace(
            #[trigger] s[i],
        ) by {
            assert(s[i] == chars@[i]);
        }
        lemma_trailing_spaces_is(s, to - from);
    }
    from
}

/// `line` without the white space at its two ends.
pub fn trim<'a>(line: &'a str) -> (body: &'a str)
    ensures
        body@ == trimmed(line@),
{
    let chars = to_chars(line);
    let end = scan_back(&chars, chars.len());
    let mut start: usize = 0;
    while start < end && is_space(chars[start])
        invariant
            start <= end <= chars.len(),
            forall|i: int| 0 <= i < start ==> is_whitespace(#[trigger] chars@[i]),
        decreases end - start,
    {
        start += 1;
    }
    proof {
        assert(chars@.take(chars.len() as int) =~= chars@);
        let s = chars@.take(end as int);
        assert forall|i: int| 0 <= i < start implies is_whitespace(#[trigger] s[i]) by {
            assert(s[i] == chars@[i]);
        }
        lemma_run_len_is(s, true, start as int);
        assert(s.skip(start as int) =~= line@.subrange(start as int, end as int));
    }
    line.substring_char(start, end)
}

/// The tokens of `line`, from left to right.
pub fn split_whitespace<'a>(line: &'a str) -> (words: Vec<&'a str>)
    ensures
        views(words@) == tokens(line@),
{
    let chars = to_chars(line);
    let mut words: Vec<&'a str> = Vec::new();
    let mut at: usize = 0;
    proof {
        assert(line@.skip(0) =~= line@);
        assert(views(words@) + tokens(line@) =~= tokens(line@));
    }
    loop
        invariant
            chars@ == line@,
            at <= chars.len(),
            tokens(line@) == views(words@) + tokens(line@.skip(at as int)),
        ensures
            views(words@) == tokens(line@),
        decreases chars.len() - at,
    {
        let start = scan(&chars, at, true);
        let end = scan(&chars, start, false);
        proof {
            let s = line@.skip(at as int);
            assert(s.skip(start - at) =~= line@.skip(start as int));
        }
        if end == start {
            assert(tokens(line@.skip(at as int)) =~= Seq::<Seq<char>>::empty());
            assert(views(words@) + Seq::<Seq<char>>::empty() =~= views(words@));
            break ;
        }
        let word = line.substring_char(start, end);
        proof {
            let rest = line@.skip(start as int);
            assert(rest.take(end - start) =~= word@);
            assert(rest.skip(end - start) =~= line@.skip(end as int));
            assert(tokens(line@.skip(at as int)) == seq![word@] + tokens(line@.skip(end as int)));
            assert(views(words@.push(word)) =~= views(words@) + seq![word@]);
            assert(views(words@) + (seq![word@] + tokens(line@.skip(end as int))) =~= (views(
                words@,
            ) + seq![word@]) + tokens(line@.skip(end as int)));
        }
        words.push(word);
        at = end;
    }
    words
}

/// Whether `a` and `b` are the same text.
pub fn same_text(a: &str, b: &str) -> (same: bool)
    ensures
        same == (a@ == b@),
{
    let left = to_chars(a);
    let right = to_chars(b);
    if left.len() != right.len() {
        return false;
    }
    let mut i: usize = 0;
    while i < left.len()
        invariant
            i <= left.len(),
            left.len() == right.len(),
            left@ == a@,
            right@ == b@,
            left@.take(i as int) == right@.take(i as int),
        decreases left.len() - i,
    {
        if left[i] != right[i] {
            return false;
        }
        assert(left@.take(i + 1) =~= left@.take(i as int).push(left@[i as int]));
        assert(right@.take(i + 1) =~= right@.take(i as int).push(right@[i as int]));
        i += 1;
    }
    assert(left@.take(i as int) =~= left@);
    assert(right@.take(i as int) =~= right@);
    true
}

} // verus!
