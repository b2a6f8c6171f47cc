//! The interactive shell, without its console.
//!
//! The shell reads lines until one holds a semicolon, which ends a command.
//! The lines of the command, joined by spaces and in lower case, are the
//! query. A line that ends a command and holds the word `exit` ends the
//! session instead. This module decides; whoever calls it reads the lines
//! and prints the texts.
use vstd::prelude::*;
use crate::console_printer::{ConsolePrinter, banner_text, help_text, table_text, total_width};
use crate::steeldb::{ExecutionResult, ExecutionResultView, SteelDB, answer};
use crate::storage::Storage;
use crate::table::{TableView, names_of};
use crate::text::{Span, contains_char, has_char, join, quote, quoted, span_is, to_chars};

verus! {

/// `s` in lower case, as `str::to_lowercase` gives it.
pub uninterp spec fn lowercase(s: Seq<char>) -> Seq<char>;

/// `str::to_lowercase`: the text in lower case, by the rules of Unicode.
#[verifier::external_body]
fn to_lowercase(s: &str) -> (r: String)
    ensures
        r@ == lowercase(s@),
{
    s.to_lowercase()
}

/// `s` holds the text `word`.
pub open spec fn has_text(s: Seq<char>, word: Seq<char>) -> bool {
    exists|i: int| 0 <= i && i + word.len() <= s.len() && #[trigger] s.subrange(i, i + word.len()) == word
}

/// The word that ends a session.
pub open spec fn exit_word() -> Seq<char> {
    seq!['e', 'x', 'i', 't']
}

/// The query that the lines of a command make.
pub open spec fn query_of(lines: Seq<Seq<char>>) -> Seq<char> {
    lowercase(join(lines, ' '))
}

/// What the shell does after a line.
#[derive(Debug)]
pub enum ReplStep {
    /// End the session.
    Exit,
    /// Carry out this query.
    Execute(String),
    /// Read another line of the same command.
    Continue,
}

/// A step of the shell as a mathematical value.
pub enum ReplStepView {
    Exit,
    Execute(Seq<char>),
    Continue,
}

impl View for ReplStep {
    type V = ReplStepView;

    open spec fn view(&self) -> ReplStepView {
        match self {
            ReplStep::Exit => ReplStepView::Exit,
            ReplStep::Execute(query) => ReplStepView::Execute(query@),
            ReplStep::Continue => ReplStepView::Continue,
        }
    }
}

/// What the shell remembers between lines.
pub struct ReplView {
    /// The lines of the command that is being read.
    pub previous_lines: Seq<Seq<char>>,
    /// A command was begun and is not ended yet.
    pub is_in_multiline: bool,
}

/// What the shell does after `line`, and what it remembers then.
pub open spec fn step(state: ReplView, line: Seq<char>) -> (ReplStepView, ReplView) {
    let lines = state.previous_lines.push(line);
    if has_char(line, ';') {
        if has_text(line, exit_word()) {
            (
                ReplStepView::Exit,
                ReplView { previous_lines: lines, is_in_multiline: state.is_in_multiline },
            )
        } else {
            (
                ReplStepView::Execute(query_of(lines)),
                ReplView { previous_lines: Seq::empty(), is_in_multiline: false },
            )
        }
    } else {
        (ReplStepView::Continue, ReplView { previous_lines: lines, is_in_multiline: true })
    }
}

/// The table can be drawn: every name that was asked for names a column,
/// and the names are not wider together than a width can say.
pub open spec fn drawable(t: TableView) -> bool {
    t.selection_present() && total_width(t.select_columns) <= usize::MAX
}

/// What is printed for a query that could not be read, `shown` being what
/// is shown of the reason.
pub open spec fn parse_error_block(shown: Seq<char>) -> Seq<char> {
    "\n\n<------------------- PARSE ERROR ------------------->\n"@ + shown
        + "\n\nPlease check your input\n<--------------------------------------------------->\n\n"@
}

/// What is printed for a query that could not be carried out, `shown` being
/// what is shown of the reason.
pub open spec fn command_error_block(shown: Seq<char>) -> Seq<char> {
    "\n\n<------------------ COMMAND FAILED ------------------>\n"@ + shown
        + "\n\n<---------------------------------------------------->\n\n"@
}

/// What is printed for the result of a query. The reason of a failure is
/// shown quoted.
pub open spec fn report_text(padding: int, result: ExecutionResultView) -> Seq<char> {
    match result {
        ExecutionResultView::VoidOK => "OK!\n"@,
        ExecutionResultView::TableResult(t) => if drawable(t) {
            table_text(padding, t)
        } else {
            "The table cannot be drawn\n"@
        },
        ExecutionResultView::ParseError(text) => parse_error_block(quoted(text)),
        ExecutionResultView::CommandError(text) => command_error_block(quoted(text)),
    }
}

/// The text that is printed for a query that could not be read.
pub fn parse_error_text(shown: &str) -> (s: String)
    ensures
        s@ == parse_error_block(shown@),
{
    let mut out = String::new();
    out.push_str("\n\n<------------------- PARSE ERROR ------------------->\n");
    out.push_str(shown);
    out.push_str(
        "\n\nPlease check your input\n<--------------------------------------------------->\n\n",
    );
    assert(out@ =~= parse_error_block(shown@));
    out
}

/// The text that is printed for a query that could not be carried out.
pub fn command_error_text(shown: &str) -> (s: String)
    ensures
        s@ == command_error_block(shown@),
{
    let mut out = String::new();
    out.push_str("\n\n<------------------ COMMAND FAILED ------------------>\n");
    out.push_str(shown);
    out.push_str("\n\n<---------------------------------------------------->\n\n");
    assert(out@ =~= command_error_block(shown@));
    out
}

/// Whether `v` holds the text `word`.
pub fn contains_text(v: &Vec<char>, word: &Vec<char>) -> (b: bool)
    ensures
        b == has_text(v@, word@),
{
    if word.len() > v.len() {
        return false;
    }
    let last = v.len() - word.len();
    let mut i: usize = 0;
    while i < last
        invariant
            i <= last,
            last == v.len() - word.len(),
            forall|k: int| 0 <= k < i ==> #[trigger] v@.subrange(k, k + word.len()) != word@,
        decreases last - i,
    {
        if span_is(v, Span { start: i, end: i + word.len() }, word) {
            return true;
        }
        i += 1;
    }
    let found = span_is(v, Span { start: last, end: v.len() }, word);
    proof {
        let at_last = v@.subrange(last as int, last + word.len());
        assert(found == (at_last == word@));
        if !found && has_text(v@, word@) {
            let k = choose|k: int|
                0 <= k && k + word.len() <= v.len() && #[trigger] v@.subrange(k, k + word.len())
                    == word@;
            assert(k == last);
        }
    }
    found
}

/// The texts of `lines`, with `sep` between neighbours.
fn join_lines(lines: &Vec<String>, sep: char) -> (s: String)
    ensures
        s@ == join(names_of(lines@), sep),
{
    let ghost all = names_of(lines@);
    let mut out = String::new();
    let mut k: usize = 0;
    assert(all.take(0) =~= Seq::<Seq<char>>::empty());
    while k < lines.len()
        invariant
            k <= lines.len(),
            all == names_of(lines@),
            out@ == join(all.take(k as int), sep),
        decreases lines.len() - k,
    {
        proof {
            let next = all.take(k + 1);
            assert(next.drop_last() =~= all.take(k as int));
            assert(next.last() == lines@[k as int]@);
            if k == 0 {
                assert(next[0] == lines@[0]@);
            }
        }
        if k > 0 {
            out.push(sep);
        }
        out.push_str(lines[k].as_str());
        k += 1;
    }
    assert(all.take(k as int) =~= all);
    out
}

/// The interactive shell.
#[derive(Debug)]
pub struct Repl {
    previous_lines: Vec<String>,
    database: SteelDB,
    is_in_multiline: bool,
    console: ConsolePrinter,
}

impl View for Repl {
    type V = ReplView;

    closed spec fn view(&self) -> ReplView {
        ReplView {
            previous_lines: names_of(self.previous_lines@),
            is_in_multiline: self.is_in_multiline,
        }
    }
}

impl Repl {
    /// The spaces that the shell's printer puts around a name.
    pub closed spec fn padding(self) -> int {
        self.console.padding()
    }

    /// A shell that has read nothing yet. Its printer puts four spaces
    /// around a name.
    pub fn new() -> (r: Repl)
        ensures
            r@.previous_lines.len() == 0,
            !r@.is_in_multiline,
            r.padding() == 4,
    {
        let r = Repl {
            previous_lines: Vec::new(),
            database: SteelDB::new(),
            is_in_multiline: false,
            console: ConsolePrinter::new(4),
        };
        assert(names_of(r.previous_lines@) =~= Seq::<Seq<char>>::empty());
        r
    }

    /// What opens a session: the banner and the help.
    pub fn greeting(&self) -> (s: String)
        ensures
            s@ == banner_text() + help_text(),
    {
        let mut out = self.console.banner();
        out.push_str(self.console.help().as_str());
        out
    }

    /// What asks for the next line: `>> ` for a new command, `| ` inside
    /// one.
    pub fn prompt(&self) -> (s: &'static str)
        ensures
            s@ == if self@.is_in_multiline {
                "| "@
            } else {
                ">> "@
            },
    {
        if self.is_in_multiline {
            "| "
        } else {
            ">> "
        }
    }

    /// Takes one line and decides what to do.
    pub fn feed(&mut self, line: String) -> (r: ReplStep)
        ensures
            (r@, final(self)@) == step(old(self)@, line@),
            final(self).padding() == old(self).padding(),
    {
        let ends = contains_char(line.as_str(), ';');
        let chars = to_chars(line.as_str());
        let ghost before = names_of(self.previous_lines@);
        self.previous_lines.push(line);
        assert(names_of(self.previous_lines@) =~= before.push(line@));
        if ends {
            let word = vec!['e', 'x', 'i', 't'];
            assert(word@ =~= exit_word());
            if contains_text(&chars, &word) {
                return ReplStep::Exit;
            }
            self.is_in_multiline = false;
            let query = to_lowercase(join_lines(&self.previous_lines, ' ').as_str());
            self.previous_lines = Vec::new();
            assert(names_of(self.previous_lines@) =~= Seq::<Seq<char>>::empty());
            ReplStep::Execute(query)
        } else {
            self.is_in_multiline = true;
            ReplStep::Continue
        }
    }

    /// Carries out `query` against `storage`.
    pub fn execute(&mut self, query: String, storage: &Storage) -> (r: ExecutionResult)
        ensures
            r@ == answer(query@, storage@),
            final(self)@ == old(self)@,
            final(self).padding() == old(self).padding(),
    {
        self.database.execute(query, storage)
    }

    /// The text that is printed for the result of a query.
    pub fn report(&self, result: &ExecutionResult) -> (s: String)
        ensures
            s@ == report_text(self.padding(), result@),
    {
        match result {
            ExecutionResult::VoidOK => "OK!\n".to_string(),
            ExecutionResult::TableResult(table) => {
                match self.console.try_table(table) {
                    Some(text) => text,
                    None => "The table cannot be drawn\n".to_string(),
                }
            },
            ExecutionResult::ParseError(text) => parse_error_text(quote(text.as_str()).as_str()),
            ExecutionResult::CommandError(text) => command_error_text(
                quote(text.as_str()).as_str(),
            ),
        }
    }
}

} // verus!
