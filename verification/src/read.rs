//! A reader over text held in memory, and the three ways of taking a value
//! from it: from one line, from a counted block of lines, or as a whole
//! record.

use crate::error::{agrees, ParseError};
use crate::testcase::{line_parser, BlockTestCase, InlineTestCase, TestCase};
use crate::text::{to_chars, trim, trimmed};
use vstd::prelude::*;
use vstd::string::StrSliceExecFns;

verus! {

/// Length of the first line of `input`, its line feed included. The last line
/// of an input may lack the line feed.
pub open spec fn line_len(input: Seq<char>) -> nat
    decreases input.len(),
{
    if input.len() == 0 {
        0
    } else if input[0] == '\n' {
        1
    } else {
        1 + line_len(input.skip(1))
    }
}

/// The first line of `input`, its line feed included.
pub open spec fn first_line(input: Seq<char>) -> Seq<char> {
    input.take(line_len(input) as int)
}

/// What is left of `input` after its first line.
pub open spec fn after_line(input: Seq<char>) -> Seq<char> {
    input.skip(line_len(input) as int)
}

/// What is left of `input` after its first `n` lines, or nothing where it has
/// fewer.
pub open spec fn after_lines(input: Seq<char>, n: nat) -> Seq<char>
    decreases n,
{
    if n == 0 {
        input
    } else {
        after_lines(after_line(input), (n - 1) as nat)
    }
}

/// Reading one value from the first line of `input` with the line parser
/// `row`: the value or the failure, and the input that is left. The line is
/// handed to `row` without the white space at its ends. On an input that has
/// ended the read is short and nothing is taken.
pub open spec fn line<V>(input: Seq<char>, row: spec_fn(Seq<char>) -> Result<V, ParseError>) -> (
    Result<V, ParseError>,
    Seq<char>,
) {
    if input.len() == 0 {
        (Err(ParseError::ShortRead), input)
    } else {
        (row(trimmed(first_line(input))), after_line(input))
    }
}

/// Reading `n` values from the first `n` lines of `input`, one per line: the
/// values in the order read or the first failure, and the input that is left.
/// After a failure no further line is taken.
pub open spec fn rows<V>(
    input: Seq<char>,
    n: nat,
    row: spec_fn(Seq<char>) -> Result<V, ParseError>,
) -> (Result<Seq<V>, ParseError>, Seq<char>)
    decreases n,
{
    if n == 0 {
        (Ok(Seq::empty()), input)
    } else {
        let (head, left) = rows(input, (n - 1) as nat, row);
        match head {
            Err(e) => (Err(e), left),
            Ok(values) => match line(left, row) {
                (Ok(v), rest) => (Ok(values.push(v)), rest),
                (Err(e), rest) => (Err(e), rest),
            },
        }
    }
}

/// The first line ends with the first line feed, or with the input where it
/// holds none.
pub proof fn lemma_line_len_is(input: Seq<char>, n: int)
    requires
        0 <= n <= input.len(),
        n == 0 ==> input.len() == 0,
        forall|i: int| 0 <= i < n - 1 ==> #[trigger] input[i] != '\n',
        n > 0 ==> (input[n - 1] == '\n' || n == input.len()),
    ensures
        line_len(input) == n,
    decreases n,
{
    if n > 1 {
        let t = input.skip(1);
        assert forall|i: int| 0 <= i < n - 2 implies #[trigger] t[i] != '\n' by {
            assert(t[i] == input[i + 1]);
        }
        assert(t[n - 2] == input[n - 1]);
        assert(input[0] != '\n');
        lemma_line_len_is(t, n - 1);
    } else if n == 1 {
        if input[0] != '\n' {
            assert(input.skip(1).len() == 0);
            assert(line_len(input.skip(1)) == 0);
        }
    }
}

/// Once a block has failed, asking for more rows changes nothing: the same
/// failure comes back and the same input is left.
pub proof fn lemma_rows_failure_stays<V>(
    input: Seq<char>,
    n: nat,
    m: nat,
    row: spec_fn(Seq<char>) -> Result<V, ParseError>,
)
    requires
        n <= m,
        rows(input, n, row).0 is Err,
    ensures
        rows(input, m, row) == rows(input, n, row),
    decreases m,
{
    if n < m {
        lemma_rows_failure_stays(input, n, (m - 1) as nat, row);
    }
}

/// A block that succeeds holds exactly as many values as lines were asked
/// for, and leaves the input after exactly that many lines.
pub proof fn lemma_rows_takes_n_lines<V>(
    input: Seq<char>,
    n: nat,
    row: spec_fn(Seq<char>) -> Result<V, ParseError>,
)
    requires
        rows(input, n, row).0 is Ok,
    ensures
        rows(input, n, row).0->Ok_0.len() == n,
        rows(input, n, row).1 == after_lines(input, n),
    decreases n,
{
    if n > 0 {
        lemma_rows_takes_n_lines(input, (n - 1) as nat, row);
        lemma_after_lines_step(input, (n - 1) as nat);
    }
}

/// Taking `n` lines and then one more is taking `n + 1` lines.
pub proof fn lemma_after_lines_step(input: Seq<char>, n: nat)
    ensures
        after_lines(input, n + 1) == after_line(after_lines(input, n)),
    decreases n,
{
    if n > 0 {
        lemma_after_lines_step(after_line(input), (n - 1) as nat);
        assert(after_lines(input, n) == after_lines(after_line(input), (n - 1) as nat));
    } else {
        assert(after_lines(after_line(input), 0) == after_line(input));
    }
    assert(after_lines(input, n + 1) == after_lines(after_line(input), n));
}

/// A block of no lines takes nothing from the input and holds no value.
pub proof fn lemma_rows_of_zero<V>(
    input: Seq<char>,
    row: spec_fn(Seq<char>) -> Result<V, ParseError>,
)
    ensures
        rows(input, 0, row) == (Ok::<Seq<V>, ParseError>(Seq::empty()), input),
{
}

/// Text held in memory, read line by line from its start.
pub struct Reader {
    text: String,
    chars: Vec<char>,
    at: usize,
}

impl View for Reader {
    type V = Seq<char>;

    /// The input that has not been read yet.
    closed spec fn view(&self) -> Seq<char> {
        self.chars@.skip(self.at as int)
    }
}

impl Reader {
    #[verifier::type_invariant]
    spec fn well_formed(&self) -> bool {
        &&& self.chars@ == self.text@
        &&& self.at <= self.chars.len()
    }

    /// A reader at the start of `input`.
    pub fn new(input: &str) -> (reader: Reader)
        ensures
            reader@ == input@,
    {
        let chars = to_chars(input);
        let text = input.to_owned();
        assert(chars@.skip(0) =~= chars@);
        Reader { text, chars, at: 0 }
    }

    /// Whether all of the input has been read.
    pub fn is_at_end(&self) -> (done: bool)
        ensures
            done == (self@.len() == 0),
    {
        proof {
            use_type_invariant(self);
        }
        self.at == self.chars.len()
    }

    /// Takes the next line, its line feed included. `None` where the input
    /// has ended; nothing is taken then.
    pub fn read_line(&mut self) -> (taken: Option<String>)
        ensures
            match taken {
                None => old(self)@.len() == 0 && final(self)@ == old(self)@,
                Some(text) => {
                    &&& old(self)@.len() > 0
                    &&& text@ == first_line(old(self)@)
                    &&& final(self)@ == after_line(old(self)@)
                },
            },
    {
        proof {
            use_type_invariant(&*self);
        }
        let start = self.at;
        let n = self.chars.len();
        if start == n {
            return None;
        }
        let ghost input = self.chars@.skip(start as int);
        let mut end: usize = start;
        while end < n && self.chars[end] != '\n'
            invariant
                start <= end <= n,
                n == self.chars.len(),
                input == self.chars@.skip(start as int),
                forall|i: int| 0 <= i < end - start ==> #[trigger] input[i] != '\n',
            decreases n - end,
        {
            assert(input[end - start] == self.chars@[end as int]);
            end += 1;
        }
        if end < n {
            assert(input[end - start] == self.chars@[end as int]);
            end += 1;
        }
        proof {
            if end - start >= 1 {
                assert(input[end - start - 1] == self.chars@[end - 1]);
            }
            lemma_line_len_is(input, end - start);
            assert(input.take(end - start) =~= self.text@.subrange(start as int, end as int));
            assert(input.skip(end - start) =~= self.chars@.skip(end as int));
        }
        let text = self.text.as_str().substring_char(start, end).to_owned();
        self.at = end;
        Some(text)
    }
}

/// A source of lines from which a value can be read off one line.
pub trait ParseLine: View<V = Seq<char>> {
    /// Takes one line from the input and reads a `T` from it. The line is
    /// taken whether or not it holds a `T`.
    fn parse_line<T: InlineTestCase>(&mut self) -> (r: Result<T, ParseError>)
        ensures
            agrees(r, line(old(self)@, line_parser::<T>()).0),
            final(self)@ == line(old(self)@, line_parser::<T>()).1,
    ;
}

impl ParseLine for Reader {
    fn parse_line<T: InlineTestCase>(&mut self) -> (r: Result<T, ParseError>) {
        match self.read_line() {
            Some(text) => T::parse_line(trim(text.as_str())),
            None => Err(ParseError::ShortRead),
        }
    }
}

/// A source of lines from which a value can be read off a counted block of
/// lines.
pub trait ParseBlock: View<V = Seq<char>> {
    /// Takes `n` lines from the input and reads a `T` from them.
    fn parse_lines<T: BlockTestCase>(&mut self, n: usize) -> (r: Result<T, ParseError>)
        ensures
            agrees(r, T::block_value(old(self)@, n as nat).0),
            final(self)@ == T::block_value(old(self)@, n as nat).1,
    ;
}

impl ParseBlock for Reader {
    fn parse_lines<T: BlockTestCase>(&mut self, n: usize) -> (r: Result<T, ParseError>) {
        T::parse_n(self, n)
    }
}

/// A source of lines from which a whole record can be read.
pub trait Parse: View<V = Seq<char>> {
    /// Takes from the input as many lines as a `T` needs and reads it.
    fn parse_testcase<T: TestCase>(&mut self) -> (r: Result<T, ParseError>)
        ensures
            agrees(r, T::record_value(old(self)@).0),
            final(self)@ == T::record_value(old(self)@).1,
    ;
}

impl Parse for Reader {
    fn parse_testcase<T: TestCase>(&mut self) -> (r: Result<T, ParseError>) {
        T::parse(self)
    }
}

/// A block of rows that is read one line at a time, for a source that hands
/// its lines out as they come: the block says whether it wants another
/// line, and takes it.
pub struct Block<T: InlineTestCase> {
    wanted: usize,
    rows: Vec<T>,
}

impl<T: InlineTestCase> Block<T> {
    /// How many rows the block is to hold.
    pub closed spec fn wanted(&self) -> nat {
        self.wanted as nat
    }

    /// The rows read so far, in the order read.
    pub closed spec fn rows(&self) -> Seq<T::V> {
        self.rows.deep_view()
    }

    /// Whether the block holds all its rows.
    pub open spec fn complete(&self) -> bool {
        self.rows().len() >= self.wanted()
    }

    /// A block that is to hold `n` rows and holds none yet.
    pub fn new(n: usize) -> (block: Self)
        ensures
            block.wanted() == n,
            block.rows() == Seq::<T::V>::empty(),
    {
        let rows: Vec<T> = Vec::new();
        assert(rows.deep_view() =~= Seq::<T::V>::empty());
        Block { wanted: n, rows }
    }

    /// Whether the block holds all its rows, so that no further line is to
    /// be taken from the source.
    pub fn is_complete(&self) -> (b: bool)
        ensures
            b == self.complete(),
    {
        self.rows.len() >= self.wanted
    }

    /// Takes the next line of the source, or the news that it has ended. A
    /// block that is complete takes nothing. Else the end of the source is
    /// a short read, and a line is read as a row, without the white space
    /// at its ends: the row is added, or the failure is handed out and the
    /// block stays as it was.
    pub fn feed(&mut self, line: Option<&str>) -> (r: Result<(), ParseError>)
        ensures
            final(self).wanted() == old(self).wanted(),
            old(self).complete() ==> r is Ok && final(self).rows() == old(self).rows(),
            !old(self).complete() ==> match line {
                None => r == Err::<(), ParseError>(ParseError::ShortRead) && final(self).rows()
                    == old(self).rows(),
                Some(text) => match T::line_value(trimmed(text@)) {
                    Ok(row) => r is Ok && final(self).rows() == old(self).rows().push(row),
                    Err(e) => r == Err::<(), ParseError>(e) && final(self).rows() == old(
                        self,
                    ).rows(),
                },
            },
    {
        if self.rows.len() >= self.wanted {
            return Ok(());
        }
        let text = match line {
            Some(text) => text,
            None => return Err(ParseError::ShortRead),
        };
        match T::parse_line(trim(text)) {
            Ok(row) => {
                let ghost before = self.rows.deep_view();
                self.rows.push(row);
                assert(self.rows.deep_view() =~= before.push(row.deep_view()));
                Ok(())
            },
            Err(e) => Err(e),
        }
    }

    /// The rows that the block holds.
    pub fn finish(self) -> (rows: Vec<T>)
        ensures
            rows.deep_view() == self.rows(),
    {
        self.rows
    }
}

} // verus!
