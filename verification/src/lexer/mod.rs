use vstd::prelude::*;

pub mod errors;
pub mod types;

use errors::{LexerError, LexerErrorKind};
use crate::text::push_char;
use types::{Position, Range, Token, TokenType};

verus! {

broadcast use vstd::string::axiom_spec_iter;

/// The characters of a string literal body, read up to and including its
/// closing quote: the unescaped contents and how many characters were read.
/// `None` when the input ends before the closing quote.
///
/// A backslash escapes the next character: `\n` and `\t` stand for a newline
/// and a tab, any other escaped character stands for itself.
pub open spec fn string_body(s: Seq<char>, escaped: bool) -> Option<(Seq<char>, nat)>
    decreases s.len(),
{
    if s.len() == 0 {
        None
    } else if !escaped && s[0] == '\\' {
        match string_body(s.drop_first(), true) {
            Some((v, n)) => Some((v, n + 1)),
            None => None,
        }
    } else if !escaped && s[0] == '"' {
        Some((Seq::<char>::empty(), 1))
    } else {
        match string_body(s.drop_first(), false) {
            Some((v, n)) => Some((seq![unescaped(s[0], escaped)] + v, n + 1)),
            None => None,
        }
    }
}

/// In a string literal, a backslash and `t` read as one tab character
/// (U+0009), a backslash and `n` as one newline (U+000A), and the rest of
/// the literal reads on as it would alone.
pub proof fn lemma_escaped_tab_and_newline(s: Seq<char>)
    ensures
        string_body(seq!['\\', 't'] + s, false) == match string_body(s, false) {
            Some((v, n)) => Some((seq!['\u{9}'] + v, n + 2)),
            None => None,
        },
        string_body(seq!['\\', 'n'] + s, false) == match string_body(s, false) {
            Some((v, n)) => Some((seq!['\u{a}'] + v, n + 2)),
            None => None,
        },
{
    lemma_escape_step(s, 't');
    lemma_escape_step(s, 'n');
    assert(unescaped('t', true) == '\u{9}');
    assert(unescaped('n', true) == '\u{a}');
}

/// In a string literal, a backslash before any character but `t` and `n`
/// (a quote or a backslash among them) reads as that character itself.
pub proof fn lemma_escaped_other(s: Seq<char>, c: char)
    requires
        c != 't' && c != 'n',
    ensures
        string_body(seq!['\\', c] + s, false) == match string_body(s, false) {
            Some((v, n)) => Some((seq![c] + v, n + 2)),
            None => None,
        },
{
    lemma_escape_step(s, c);
}

/// A backslash and `c` read as the character `c` stands for after a
/// backslash, followed by the rest of the literal.
proof fn lemma_escape_step(s: Seq<char>, c: char)
    ensures
        string_body(seq!['\\', c] + s, false) == match string_body(s, false) {
            Some((v, n)) => Some((seq![unescaped(c, true)] + v, n + 2)),
            None => None,
        },
{
    let x = seq!['\\', c] + s;
    let y = seq![c] + s;
    assert(x.drop_first() =~= y);
    assert(y.drop_first() =~= s);
    assert(x[0] == '\\');
    assert(y[0] == c);
    assert(string_body(y, true) == match string_body(s, false) {
        Some((v, n)) => Some((seq![unescaped(c, true)] + v, n + 1)),
        None => None,
    });
}

/// The character that `c` stands for, after a backslash when `escaped`.
pub open spec fn unescaped(c: char, escaped: bool) -> char {
    if escaped && c == 'n' {
        '\n'
    } else if escaped && c == 't' {
        '\t'
    } else {
        c
    }
}

/// What reading a string literal body `rest`, started at `start` after
/// `read_before` characters, yields: the token (or error) and where the
/// reading ends, after `read_after` characters at `end`.
pub open spec fn string_read(
    rest: Seq<char>,
    start: Position,
    read_before: nat,
    read_after: nat,
    end: Position,
    r: Result<Token, LexerError>,
) -> bool {
    &&& end.line == start.line
    &&& match string_body(rest, false) {
        Some((v, n)) => {
            &&& read_after == read_before + n
            &&& end.char == start.char + n
            &&& r matches Ok(t) && t.token_type matches TokenType::String(s) && s@ == v
                && t.range == (Range { start, end })
        },
        None => {
            &&& read_after == read_before + rest.len()
            &&& end.char == start.char + rest.len() + 1
            &&& r == Err::<Token, LexerError>(
                LexerError { range: Range { start, end }, source: LexerErrorKind::UnterminatedString },
            )
        },
    }
}

/// A lexer over the characters of a source text.
pub struct Lexer {
    input: Vec<char>,
    cursor: usize,
    current_char: char,
    position: Position,
}

impl Lexer {
    #[verifier::type_invariant]
    spec fn cursor_in_input(&self) -> bool {
        self.cursor <= self.input@.len()
    }

    /// The source characters.
    pub closed spec fn source(&self) -> Seq<char> {
        self.input@
    }

    /// How many source characters have been read.
    pub closed spec fn read_count(&self) -> nat {
        self.cursor as nat
    }

    /// The characters not read yet.
    pub open spec fn rest(&self) -> Seq<char> {
        self.source().skip(self.read_count() as int)
    }

    /// The position the lexer has reached.
    pub closed spec fn at(&self) -> Position {
        self.position
    }

    /// The last character read.
    pub closed spec fn current(&self) -> char {
        self.current_char
    }

    /// The next character to be read, if any.
    pub fn peek(&self) -> (c: Option<char>)
        ensures
            self.rest().len() > 0 ==> c == Some(self.rest()[0]),
            self.rest().len() == 0 ==> c is None,
    {
        proof {
            use_type_invariant(self);
        }
        if self.cursor < self.input.len() {
            Some(self.input[self.cursor])
        } else {
            None
        }
    }

    /// The position the lexer has reached.
    pub fn position(&self) -> (p: Position)
        ensures
            p == self.at(),
    {
        self.position
    }

    /// How many characters are not read yet.
    pub fn remaining(&self) -> (n: usize)
        ensures
            n == self.rest().len(),
    {
        proof {
            use_type_invariant(self);
        }
        self.input.len() - self.cursor
    }

    /// A lexer at the start of `input`, positioned at `0:0`.
    pub fn new(input: &str) -> (l: Self)
        ensures
            l.source() == input@,
            l.read_count() == 0,
            l.at() == (Position { line: 0, char: 0 }),
            l.current() == '\0',
    {
        let mut chars: Vec<char> = Vec::new();
        for c in it: input.chars()
            invariant
                chars@ == it.seq().take(it.index()),
        {
            chars.push(c);
        }
        Self { input: chars, cursor: 0, position: Position { line: 0, char: 0 }, current_char: '\0' }
    }

    /// Leaves the lexer as it is: whitespace is not consumed here.
    fn skip_whitespace(&mut self)
        ensures
            *final(self) == *old(self),
    {
    }

    /// Advances the column and reads the next character, if any.
    fn next_char(&mut self) -> (c: Option<char>)
        requires
            old(self).at().char < usize::MAX,
        ensures
            final(self).source() == old(self).source(),
            final(self).at() == (Position { line: old(self).at().line, char: (old(self).at().char + 1) as usize }),
            old(self).read_count() < old(self).source().len() ==> {
                &&& c == Some(old(self).source()[old(self).read_count() as int])
                &&& final(self).read_count() == old(self).read_count() + 1
                &&& final(self).current() == old(self).source()[old(self).read_count() as int]
            },
            old(self).read_count() >= old(self).source().len() ==> {
                &&& c is None
                &&& final(self).read_count() == old(self).read_count()
                &&& final(self).current() == old(self).current()
            },
    {
        proof {
            use_type_invariant(&*self);
        }
        self.position.char = self.position.char + 1;
        if self.cursor < self.input.len() {
            let c = self.input[self.cursor];
            self.cursor = self.cursor + 1;
            self.current_char = c;
            Some(c)
        } else {
            None
        }
    }

    /// Reads a string literal whose opening quote has just been read.
    ///
    /// On success the token spans from the position at the call to the
    /// position after the closing quote; when the input ends first, the error
    /// spans to the position after the failed read.
    fn parse_string(&mut self) -> (r: Result<Token, LexerError>)
        requires
            old(self).at().char + (old(self).source().len() - old(self).read_count()) + 1 <= usize::MAX,
        ensures
            final(self).source() == old(self).source(),
            string_read(
                old(self).rest(),
                old(self).at(),
                old(self).read_count(),
                final(self).read_count(),
                final(self).at(),
                r,
            ),
    {
        proof {
            use_type_invariant(&*self);
        }
        let start = self.position.clone();
        let mut string = String::new();
        let mut backslashed = false;
        let mut closed = false;
        let ghost first = self.cursor as int;
        let ghost whole = self.input@.skip(first);
        proof {
            assert(self.input@.skip(self.cursor as int) == whole);
            match string_body(whole, false) {
                Some((v, n)) => {
                    assert(string@ + v =~= v);
                },
                None => {},
            }
        }
        loop
            invariant_except_break
                !closed,
                self.input@ == old(self).input@,
                first <= self.cursor <= self.input@.len(),
                whole == self.input@.skip(first),
                start == old(self).position,
                self.position.line == start.line,
                self.position.char == start.char + (self.cursor - first),
                start.char + (self.input@.len() - first) + 1 <= usize::MAX,
                string_body(whole, false) == match string_body(self.input@.skip(self.cursor as int), backslashed) {
                    Some((v, n)) => Some((string@ + v, (n + (self.cursor - first)) as nat)),
                    None => None,
                },
            ensures
                self.input@ == old(self).input@,
                self.position.line == start.line,
                start == old(self).position,
                first <= self.cursor <= self.input@.len(),
                closed ==> {
                    &&& string_body(whole, false) == Some((string@, (self.cursor - first) as nat))
                    &&& self.position.char == start.char + (self.cursor - first)
                },
                !closed ==> {
                    &&& string_body(whole, false) is None
                    &&& self.cursor == self.input@.len()
                    &&& self.position.char == start.char + (self.input@.len() - first) + 1
                },
            decreases self.input@.len() - self.cursor,
        {
            proof {
                use_type_invariant(&*self);
            }
            let ghost before = self.input@.skip(self.cursor as int);
            let c = match self.next_char() {
                Some(c) => c,
                None => {
                    break;
                },
            };
            assert(before.drop_first() =~= self.input@.skip(self.cursor as int));
            assert(before[0] == c);
            if c == '\\' && !backslashed {
                backslashed = true;
                continue;
            }
            if c == '"' && !backslashed {
                closed = true;
                proof {
                    assert(string@ + Seq::<char>::empty() =~= string@);
                }
                break;
            }
            let pushed = if backslashed && c == 'n' {
                '\n'
            } else if backslashed && c == 't' {
                '\t'
            } else {
                c
            };
            let ghost s0 = string@;
            push_char(&mut string, pushed);
            proof {
                match string_body(self.input@.skip(self.cursor as int), false) {
                    Some((v, n)) => {
                        assert(s0 + (seq![pushed] + v) =~= string@ + v);
                    },
                    None => {},
                }
            }
            backslashed = false;
        }
        if closed {
            Ok(Token {
                range: Range { start: start.clone(), end: self.position.clone() },
                token_type: TokenType::String(string),
            })
        } else {
            Err(LexerError {
                range: Range { start: start.clone(), end: self.position.clone() },
                source: LexerErrorKind::UnterminatedString,
            })
        }
    }

    /// Reads the next token.
    ///
    /// Whitespace is not skipped. A double quote starts a string literal;
    /// the end of the input and a NUL character end the token stream.
    pub fn next(&mut self) -> (r: Option<Result<Token, LexerError>>)
        requires
            old(self).rest().len() > 0 ==> old(self).rest()[0] == '"' || old(self).rest()[0] == '\0',
            old(self).at().char + old(self).rest().len() + 2 <= usize::MAX,
        ensures
            final(self).source() == old(self).source(),
            old(self).rest().len() == 0 ==> {
                &&& r is None
                &&& final(self).read_count() == old(self).read_count()
                &&& final(self).at() == (Position { line: old(self).at().line, char: (old(self).at().char + 1) as usize })
            },
            old(self).rest().len() > 0 && old(self).rest()[0] == '\0' ==> {
                &&& r is None
                &&& final(self).read_count() == old(self).read_count() + 1
                &&& final(self).at() == (Position { line: old(self).at().line, char: (old(self).at().char + 1) as usize })
            },
            old(self).rest().len() > 0 && old(self).rest()[0] == '"' ==> (r matches Some(t) && string_read(
                old(self).rest().drop_first(),
                Position { line: old(self).at().line, char: (old(self).at().char + 1) as usize },
                old(self).read_count() + 1,
                final(self).read_count(),
                final(self).at(),
                t,
            )),
    {
        proof {
            use_type_invariant(&*self);
        }
        self.skip_whitespace();
        let ghost rest = self.input@.skip(self.cursor as int);
        match self.next_char() {
            Some(c) => {
                assert(rest.drop_first() =~= self.input@.skip(self.cursor as int));
                if c == '"' {
                    Some(self.parse_string())
                } else {
                    None
                }
            },
            None => None,
        }
    }
}

} // verus!
