//! The query language: `select <column>, <column>, ...;`.
//!
//! A query is cut into tokens, with any white space between them:
//!
//! ```txt
//! SELECT    = "select "            (the word and one space)
//! LITERAL   = [a-z*_0-9]+          (as long as it can be)
//! COMMA     = ","
//! SEMICOLON = ";"
//! ```
//!
//! and the tokens must read `SELECT LITERAL (COMMA LITERAL)* SEMICOLON`. The
//! literals, in order, are the columns that the query asks for.
//!
//! A query is read from left to right, token by token, and the first thing
//! that is wrong with it is what is told: a character that starts no token,
//! a token that may not stand where it stands, or the end of the query where
//! a token is missing.
use vstd::prelude::*;
use crate::command::{Command, CommandView};
use crate::config::DEFAULT_TABLE;
use crate::numeric::is_digit;
use crate::table::names_of;
use crate::text::{Span, to_chars, to_text};

verus! {

/// Why a query could not be read.
#[derive(Debug)]
pub enum ParseError {
    /// The query is no select statement; the text says why.
    Error(String),
}

impl ParseError {
    /// What the error says.
    pub open spec fn text(self) -> Seq<char> {
        match self {
            ParseError::Error(text) => text@,
        }
    }
}

/// One token of a query.
pub enum Token {
    Select,
    Literal(Seq<char>),
    Comma,
    Semicolon,
}

/// `c` is white space.
pub open spec fn is_space(c: char) -> bool {
    let u = c as u32;
    ||| 0x09 <= u <= 0x0D
    ||| u == 0x20
    ||| u == 0x85
    ||| u == 0xA0
    ||| u == 0x1680
    ||| 0x2000 <= u <= 0x200A
    ||| u == 0x2028
    ||| u == 0x2029
    ||| u == 0x202F
    ||| u == 0x205F
    ||| u == 0x3000
}

/// `c` may stand in a literal: a lower-case letter, a digit, `*` or `_`.
pub open spec fn is_name_char(c: char) -> bool {
    ||| 97 <= c as u32 <= 122
    ||| is_digit(c)
    ||| c == '*'
    ||| c == '_'
}

/// Where the literal that starts at `from` ends.
pub open spec fn name_run(s: Seq<char>, from: int) -> int
    decreases s.len() - from,
{
    if 0 <= from < s.len() && is_name_char(s[from]) {
        name_run(s, from + 1)
    } else {
        from
    }
}

/// The text of the token `SELECT`.
pub open spec fn select_word() -> Seq<char> {
    seq!['s', 'e', 'l', 'e', 'c', 't', ' ']
}

/// The token `SELECT` stands at `from`.
pub open spec fn select_at(s: Seq<char>, from: int) -> bool {
    0 <= from && from + 7 <= s.len() && s.subrange(from, from + 7) == select_word()
}

/// Why a query is no select statement.
#[derive(Clone, Copy, Debug, PartialEq, Eq, Structural)]
pub enum Fault {
    /// A character starts no token.
    InvalidToken,
    /// A token may not stand where it stands.
    UnrecognizedToken,
    /// The query ends where a token is missing.
    UnrecognizedEof,
}

impl Fault {
    /// What a query with this fault is told.
    pub open spec fn message(self) -> Seq<char> {
        match self {
            Fault::InvalidToken => "Failed to parse, error: InvalidToken"@,
            Fault::UnrecognizedToken => "Failed to parse, error: UnrecognizedToken"@,
            Fault::UnrecognizedEof => "Failed to parse, error: UnrecognizedEof"@,
        }
    }

    /// What a query with this fault is told.
    pub fn text(&self) -> (s: String)
        ensures
            s@ == self.message(),
    {
        match self {
            Fault::InvalidToken => "Failed to parse, error: InvalidToken".to_string(),
            Fault::UnrecognizedToken => "Failed to parse, error: UnrecognizedToken".to_string(),
            Fault::UnrecognizedEof => "Failed to parse, error: UnrecognizedEof".to_string(),
        }
    }
}

/// What may come next in a query.
#[derive(Clone, Copy, Debug, PartialEq, Eq, Structural)]
pub enum Expect {
    /// The token `SELECT`: nothing was read yet.
    Select,
    /// A literal: `SELECT` or a comma was read last.
    Name,
    /// A comma or a semicolon: a literal was read last.
    Separator,
    /// Nothing: the semicolon was read.
    End,
}

/// The token that starts at `from`, where no white space stands, and the
/// place where it ends; nothing where no token starts there.
pub open spec fn token_at(s: Seq<char>, from: int) -> Option<(Token, int)> {
    if select_at(s, from) {
        Some((Token::Select, from + 7))
    } else if 0 <= from < s.len() && is_name_char(s[from]) {
        Some((Token::Literal(s.subrange(from, name_run(s, from))), name_run(s, from)))
    } else if 0 <= from < s.len() && s[from] == ',' {
        Some((Token::Comma, from + 1))
    } else if 0 <= from < s.len() && s[from] == ';' {
        Some((Token::Semicolon, from + 1))
    } else {
        None
    }
}

/// What may come after `token` where `expect` may come; nothing where the
/// token may not stand there.
pub open spec fn after(expect: Expect, token: Token) -> Option<Expect> {
    match (expect, token) {
        (Expect::Select, Token::Select) => Some(Expect::Name),
        (Expect::Name, Token::Literal(_)) => Some(Expect::Separator),
        (Expect::Separator, Token::Comma) => Some(Expect::Name),
        (Expect::Separator, Token::Semicolon) => Some(Expect::End),
        _ => None,
    }
}

/// The names read so far, once `token` is read too.
pub open spec fn named(names: Seq<Seq<char>>, token: Token) -> Seq<Seq<char>> {
    match token {
        Token::Literal(name) => names.push(name),
        _ => names,
    }
}

/// What reading the rest of the query `s` gives, from `from` on, where
/// `expect` may come next and `names` are the names read so far: all names
/// of the query, or the first fault of the rest. (A token ends after the
/// place where it starts and within the query, so that the reading goes on
/// behind every token that may stand where it stands.)
pub open spec fn read_from(s: Seq<char>, from: int, expect: Expect, names: Seq<Seq<char>>) -> Result<
    Seq<Seq<char>>,
    Fault,
>
    decreases s.len() - from,
{
    if from < 0 || from >= s.len() {
        if expect is End {
            Ok(names)
        } else {
            Err(Fault::UnrecognizedEof)
        }
    } else if is_space(s[from]) {
        read_from(s, from + 1, expect, names)
    } else {
        match token_at(s, from) {
            None => Err(Fault::InvalidToken),
            Some((token, end)) => match after(expect, token) {
                None => Err(Fault::UnrecognizedToken),
                Some(next) => if from < end <= s.len() {
                    read_from(s, end, next, named(names, token))
                } else {
                    Err(Fault::InvalidToken)
                },
            },
        }
    }
}

/// What reading the query `s` gives: its names, or its first fault.
pub open spec fn read_query(s: Seq<char>) -> Result<Seq<Seq<char>>, Fault> {
    read_from(s, 0, Expect::Select, Seq::empty())
}

/// The columns that the query `s` asks for, or why it asks for none.
pub open spec fn select_columns(s: Seq<char>) -> Result<Seq<Seq<char>>, Seq<char>> {
    match read_query(s) {
        Ok(names) => Ok(names),
        Err(fault) => Err(fault.message()),
    }
}

/// What reading a query gave, as a mathematical value.
pub open spec fn columns_view(r: Result<Vec<String>, ParseError>) -> Result<
    Seq<Seq<char>>,
    Seq<char>,
> {
    match r {
        Ok(names) => Ok(names_of(names@)),
        Err(e) => Err(e.text()),
    }
}

/// A token of a query, its text given by its place in the query.
#[derive(Clone, Copy, Debug, PartialEq, Eq, Structural)]
pub enum Lexeme {
    Select,
    Literal(Span),
    Comma,
    Semicolon,
}

impl Lexeme {
    /// The token, its text taken from `s`.
    pub open spec fn token(self, s: Seq<char>) -> Token {
        match self {
            Lexeme::Select => Token::Select,
            Lexeme::Literal(span) => Token::Literal(span.of(s)),
            Lexeme::Comma => Token::Comma,
            Lexeme::Semicolon => Token::Semicolon,
        }
    }
}

/// A literal ends at `to` when its characters fill `from..to` and none
/// stands at `to`.
proof fn lemma_name_run_to(s: Seq<char>, from: int, to: int)
    requires
        0 <= from <= to <= s.len(),
        forall|k: int| from <= k < to ==> is_name_char(#[trigger] s[k]),
        to < s.len() ==> !is_name_char(s[to]),
    ensures
        name_run(s, from) == to,
    decreases to - from,
{
    if from < to {
        lemma_name_run_to(s, from + 1, to);
    }
}

/// Whether `c` is white space.
fn space(c: char) -> (b: bool)
    ensures
        b == is_space(c),
{
    let u = c as u32;
    (0x09 <= u && u <= 0x0D) || u == 0x20 || u == 0x85 || u == 0xA0 || u == 0x1680 || (0x2000 <= u
        && u <= 0x200A) || u == 0x2028 || u == 0x2029 || u == 0x202F || u == 0x205F || u == 0x3000
}

/// Whether `c` may stand in a literal.
fn name_char(c: char) -> (b: bool)
    ensures
        b == is_name_char(c),
{
    let u = c as u32;
    (97 <= u && u <= 122) || (48 <= u && u <= 57) || c == '*' || c == '_'
}

/// Whether the token `SELECT` stands at `from`.
fn select_here(v: &Vec<char>, from: usize) -> (b: bool)
    requires
        from <= v.len(),
    ensures
        b == select_at(v@, from as int),
{
    if v.len() - from < 7 {
        return false;
    }
    let b = v[from] == 's' && v[from + 1] == 'e' && v[from + 2] == 'l' && v[from + 3] == 'e' && v[from
        + 4] == 'c' && v[from + 5] == 't' && v[from + 6] == ' ';
    proof {
        let part = v@.subrange(from as int, from + 7);
        if b {
            assert(part =~= select_word());
        } else {
            assert(part[0] == v@[from as int]);
            assert(part[1] == v@[from + 1]);
            assert(part[2] == v@[from + 2]);
            assert(part[3] == v@[from + 3]);
            assert(part[4] == v@[from + 4]);
            assert(part[5] == v@[from + 5]);
            assert(part[6] == v@[from + 6]);
        }
    }
    b
}

/// The token that starts at `from`, and where it ends.
fn token_here(v: &Vec<char>, from: usize) -> (r: Option<(Lexeme, usize)>)
    requires
        from < v.len(),
    ensures
        match r {
            Some((lexeme, end)) => {
                &&& token_at(v@, from as int) == Some((lexeme.token(v@), end as int))
                &&& from < end <= v.len()
                &&& lexeme matches Lexeme::Literal(span) ==> span.within(0, v.len() as int)
            },
            None => token_at(v@, from as int) is None,
        },
{
    let c = v[from];
    if select_here(v, from) {
        Some((Lexeme::Select, from + 7))
    } else if name_char(c) {
        let mut end: usize = from + 1;
        while end < v.len() && name_char(v[end])
            invariant
                from < end <= v.len(),
                forall|k: int| from <= k < end ==> is_name_char(#[trigger] v@[k]),
            decreases v.len() - end,
        {
            end += 1;
        }
        proof {
            lemma_name_run_to(v@, from as int, end as int);
        }
        Some((Lexeme::Literal(Span { start: from, end }), end))
    } else if c == ',' {
        Some((Lexeme::Comma, from + 1))
    } else if c == ';' {
        Some((Lexeme::Semicolon, from + 1))
    } else {
        None
    }
}

/// What may come after `lexeme` where `expect` may come.
fn follow(expect: Expect, lexeme: Lexeme) -> (r: Option<Expect>)
    ensures
        forall|s: Seq<char>| r == after(expect, #[trigger] lexeme.token(s)),
{
    match (expect, lexeme) {
        (Expect::Select, Lexeme::Select) => Some(Expect::Name),
        (Expect::Name, Lexeme::Literal(_)) => Some(Expect::Separator),
        (Expect::Separator, Lexeme::Comma) => Some(Expect::Name),
        (Expect::Separator, Lexeme::Semicolon) => Some(Expect::End),
        _ => None,
    }
}

/// Reads a query: its names, or its first fault.
fn read(v: &Vec<char>) -> (r: Result<Vec<String>, Fault>)
    ensures
        match r {
            Ok(names) => read_query(v@) == Ok::<Seq<Seq<char>>, Fault>(names_of(names@)),
            Err(fault) => read_query(v@) == Err::<Seq<Seq<char>>, Fault>(fault),
        },
{
    let ghost s = v@;
    let mut names: Vec<String> = Vec::new();
    let mut expect = Expect::Select;
    let mut i: usize = 0;
    assert(names_of(names@) =~= Seq::<Seq<char>>::empty());
    while i < v.len()
        invariant
            i <= v.len(),
            s == v@,
            read_query(s) == read_from(s, i as int, expect, names_of(names@)),
        decreases v.len() - i,
    {
        if space(v[i]) {
            i += 1;
        } else {
            let (lexeme, end) = match token_here(v, i) {
                None => {
                    return Err(Fault::InvalidToken);
                },
                Some(found) => found,
            };
            let next = match follow(expect, lexeme) {
                None => {
                    assert(after(expect, lexeme.token(s)) is None);
                    return Err(Fault::UnrecognizedToken);
                },
                Some(next) => next,
            };
            assert(after(expect, lexeme.token(s)) == Some(next));
            let ghost before = names_of(names@);
            match lexeme {
                Lexeme::Literal(span) => {
                    names.push(to_text(v, span));
                    assert(names_of(names@) =~= before.push(span.of(s)));
                },
                _ => {},
            }
            assert(names_of(names@) == named(before, lexeme.token(s)));
            expect = next;
            i = end;
        }
    }
    match expect {
        Expect::End => Ok(names),
        _ => Err(Fault::UnrecognizedEof),
    }
}

/// Reads a select statement: the columns it asks for, in order.
pub fn parse_select(input: String) -> (r: Result<Vec<String>, ParseError>)
    ensures
        columns_view(r) == select_columns(input@),
{
    let v = to_chars(input.as_str());
    match read(&v) {
        Ok(names) => Ok(names),
        Err(fault) => Err(ParseError::Error(fault.text())),
    }
}

/// The table that every query reads.
pub open spec fn default_table() -> Seq<char> {
    DEFAULT_TABLE@
}

/// Reads a query: the commands that carry it out. A select statement
/// becomes one command, which loads its columns from the default table.
pub fn parse(input: String) -> (r: Result<Vec<Command>, ParseError>)
    ensures
        match r {
            Ok(commands) => select_columns(input@) is Ok && commands.len() == 1 && commands@[0]@
                == CommandView::SelectFrom(select_columns(input@)->Ok_0, default_table()),
            Err(e) => select_columns(input@) == Err::<Seq<Seq<char>>, Seq<char>>(e.text()),
        },
{
    match parse_select(input) {
        Ok(columns) => {
            let mut commands: Vec<Command> = Vec::new();
            commands.push(Command::SelectFrom(columns, DEFAULT_TABLE.to_string()));
            Ok(commands)
        },
        Err(e) => Err(e),
    }
}

} // verus!
