//! One scanning step, stated over plain mathematical values.
//!
//! A lexer is a text and a cursor into it. `scan` says which token the next step
//! yields from a given state and in which state it leaves the lexer; the functions
//! before it say the same of the parts of a step.
//!
//! The column moves with the index: every character passed adds one to both, and a run
//! of line feeds restarts the column at 1. So the column is always that of the character
//! under the cursor, and a token is reported at the place of its first character.
use vstd::prelude::*;
use crate::chars::{alphabetic, numeric, run_end, Run};
use crate::number::{decimal, representable};
use crate::token::{Kind, TokenView};

verus! {

/// A lexer as plain values: the text, the line and column of the cursor, and the index
/// of the character under the cursor. The index is -1 before the first character has
/// been read.
pub struct LexerView {
    pub content: Seq<char>,
    pub line: nat,
    pub column: nat,
    pub index: int,
}

/// What one step yields: a token, and the lexer as the step leaves it.
pub struct Step {
    pub token: TokenView,
    pub lexer: LexerView,
}

/// The text of a token that stands for the end of the input.
pub open spec fn end_text() -> Seq<char> {
    "EndOfFile"@
}

/// The text of a newline token: a backslash and the letter n.
pub open spec fn newline_text() -> Seq<char> {
    "\\n"@
}

/// What the first character of a token decides about the token.
pub enum Lead {
    /// `=`: an assignment or the first half of `==`.
    Assign,
    /// `!`: the first half of `!=`.
    Bang,
    /// `>`, alone or before `=`.
    Greater,
    /// `<`, alone or before `=`.
    Less,
    /// A token of one fixed character.
    Punctuation(Kind),
    /// A single or double quote, which opens a string literal.
    Quote,
    /// An alphabetic character, which opens an identifier.
    Letter,
    /// A numeral, which opens an integer literal.
    Numeral,
    /// A line feed, which opens a run of newlines.
    Newline,
    /// Anything else.
    Other,
}

/// The kind of the token that consists of the one character `c`, if there is one.
pub open spec fn punctuation(c: char) -> Option<Kind> {
    if c == ';' {
        Some(Kind::Semicolon)
    } else if c == ':' {
        Some(Kind::Colon)
    } else if c == '(' {
        Some(Kind::LeftParen)
    } else if c == ')' {
        Some(Kind::RightParen)
    } else if c == '{' {
        Some(Kind::LeftCurlyBracket)
    } else if c == '}' {
        Some(Kind::RightCurlyBracket)
    } else if c == ',' {
        Some(Kind::Comma)
    } else if c == '+' {
        Some(Kind::Plus)
    } else if c == '-' {
        Some(Kind::Minus)
    } else if c == '*' {
        Some(Kind::Multiply)
    } else if c == '/' {
        Some(Kind::Divide)
    } else {
        None
    }
}

/// How a token that begins with `c` is scanned. The fixed characters are tried first,
/// then letters, then numerals, then the line feed.
pub open spec fn lead(c: char) -> Lead {
    if c == '=' {
        Lead::Assign
    } else if c == '!' {
        Lead::Bang
    } else if c == '>' {
        Lead::Greater
    } else if c == '<' {
        Lead::Less
    } else if punctuation(c) is Some {
        Lead::Punctuation(punctuation(c)->0)
    } else if c == '"' || c == '\'' {
        Lead::Quote
    } else if alphabetic(c) {
        Lead::Letter
    } else if numeric(c) {
        Lead::Numeral
    } else if c == '\n' {
        Lead::Newline
    } else {
        Lead::Other
    }
}

impl LexerView {
    /// The character under the cursor, if the cursor is inside the text.
    pub open spec fn current(self) -> Option<char> {
        if 0 <= self.index < self.content.len() {
            Some(self.content[self.index])
        } else {
            None
        }
    }

    /// Whether the cursor is on a character of the text.
    pub open spec fn inside(self) -> bool {
        0 <= self.index < self.content.len()
    }

    /// The same lexer with the cursor `n` characters further: the index and the column
    /// both grow by `n`. A negative `n` takes the cursor back.
    pub open spec fn advanced(self, n: int) -> LexerView {
        LexerView { column: (self.column + n) as nat, index: self.index + n, ..self }
    }

    /// Whether the column is that of the character under the cursor, counted from 1, in
    /// a line whose first character stands at index `line_start`.
    pub open spec fn counts_from(self, line_start: int) -> bool {
        self.column == self.index - line_start + 1
    }

    /// Whether every number that scanning from here can reach fits its machine type.
    ///
    /// The index never passes the end of the text by more than one. A step adds at most
    /// one column and one line for each character that it passes, so the column and the
    /// line are each given room for as many characters as are left.
    pub open spec fn fits(self) -> bool {
        &&& -1 <= self.index <= self.content.len() + 1
        &&& self.content.len() + 1 <= isize::MAX
        &&& self.column + (self.content.len() + 1 - self.index) <= usize::MAX
        &&& self.line + (self.content.len() + 1 - self.index) <= usize::MAX
    }

    /// The index of the next character that is neither space nor tab, or the end of the
    /// text where there is none. A cursor before the text starts at its first character.
    pub open spec fn mark(self) -> int {
        run_end(
            self.content,
            Run::Blanks,
            if self.index < 0 {
                0
            } else {
                self.index
            },
        )
    }

    /// The lexer once the cursor has walked to `mark`, one column per character.
    pub open spec fn at_mark(self) -> LexerView {
        self.advanced(self.mark() - self.index)
    }

    /// Whether nothing but spaces and tabs is left to scan.
    pub open spec fn at_end(self) -> bool {
        self.mark() >= self.content.len()
    }

    /// Where the numeral run that starts under the cursor ends.
    pub open spec fn numerals_end(self) -> int {
        run_end(self.content, Run::Numerals, self.index)
    }

    /// Whether the next token, if it is an integer literal, has a value that a token can
    /// carry.
    pub open spec fn literal_fits(self) -> bool {
        let at = self.at_mark();
        !self.at_end() && lead(at.content[at.index]) is Numeral ==> representable(
            at.content.subrange(at.index, at.numerals_end()),
        )
    }
}

/// A token without a value at the cursor of `l`.
pub open spec fn token_at(l: LexerView, kind: Kind, text: Seq<char>) -> TokenView {
    TokenView { kind, text, value: None, position: (l.line, l.column) }
}

/// The token that stands for the end of the input, at the cursor of `l`.
pub open spec fn end_token(l: LexerView) -> TokenView {
    token_at(l, Kind::EOF, end_text())
}

/// A string literal whose opening quote is under the cursor: the text runs from the
/// character after the quote up to the next occurrence of the same quote, or to the end
/// of the input where the literal is not closed. The cursor ends past the closing quote.
pub open spec fn scan_string(l: LexerView) -> Step {
    let close = run_end(l.content, Run::Quoted(l.content[l.index]), l.index + 1);
    Step {
        token: token_at(l, Kind::String, l.content.subrange(l.index + 1, close)),
        lexer: l.advanced(close + 1 - l.index),
    }
}

/// An identifier whose first character is under the cursor: the longest run of
/// identifier characters. The cursor ends on the character after it.
pub open spec fn scan_identifier(l: LexerView) -> Step {
    let end = run_end(l.content, Run::Word, l.index);
    Step {
        token: token_at(l, Kind::Identifier, l.content.subrange(l.index, end)),
        lexer: l.advanced(end - l.index),
    }
}

/// An integer literal whose first character is under the cursor: the longest run of
/// numerals, with its decimal value. The cursor ends on the character after it.
pub open spec fn scan_number(l: LexerView) -> Step {
    let end = l.numerals_end();
    let text = l.content.subrange(l.index, end);
    Step {
        token: TokenView {
            kind: Kind::Integer,
            text,
            value: Some(decimal(text)),
            position: (l.line, l.column),
        },
        lexer: l.advanced(end - l.index),
    }
}

/// A run of line feeds whose first is under the cursor: one token for the whole run, at
/// the place where the run begins. Every line feed adds a line, and the cursor ends on
/// the character after the run, which is the first of its line: column 1.
pub open spec fn scan_newlines(l: LexerView) -> Step {
    let end = run_end(l.content, Run::Newlines, l.index);
    Step {
        token: token_at(l, Kind::Newline, newline_text()),
        lexer: LexerView {
            content: l.content,
            line: (l.line + (end - l.index)) as nat,
            column: 1,
            index: end,
        },
    }
}

/// An operator that may be followed by `=`, with its first character under the cursor.
///
/// Each is reported at the place of its first character, and the cursor ends on the
/// character after the operator. A `!` that no `=` follows is no token: the step yields
/// the end-of-input token instead and passes over the character after the `!`.
pub open spec fn scan_operator(l: LexerView) -> Step {
    let c = l.content[l.index];
    let doubled = l.advanced(1).current() == Some('=');
    let single = seq![c];
    let double = seq![c, '='];
    let kind = if c == '=' {
        if doubled {
            Kind::Equal
        } else {
            Kind::Assign
        }
    } else if c == '>' {
        if doubled {
            Kind::GreaterThanOrEqual
        } else {
            Kind::GreaterThan
        }
    } else {
        if doubled {
            Kind::LessThanOrEqual
        } else {
            Kind::LessThan
        }
    };
    if c == '!' {
        Step {
            token: if doubled {
                token_at(l, Kind::NotEqual, double)
            } else {
                end_token(l)
            },
            lexer: l.advanced(2),
        }
    } else if doubled {
        Step { token: token_at(l, kind, double), lexer: l.advanced(2) }
    } else {
        Step { token: token_at(l, kind, single), lexer: l.advanced(1) }
    }
}

/// The step from a lexer whose cursor is on the first character of a token: the scan
/// that this character calls for. A character that begins no token yields the
/// end-of-input token and is passed over.
pub open spec fn scan_token(l: LexerView) -> Step {
    let c = l.content[l.index];
    match lead(c) {
        Lead::Assign | Lead::Bang | Lead::Greater | Lead::Less => scan_operator(l),
        Lead::Punctuation(kind) => Step { token: token_at(l, kind, seq![c]), lexer: l.advanced(1) },
        Lead::Quote => scan_string(l),
        Lead::Letter => scan_identifier(l),
        Lead::Numeral => scan_number(l),
        Lead::Newline => scan_newlines(l),
        Lead::Other => Step { token: end_token(l), lexer: l.advanced(1) },
    }
}

/// The step from any lexer: what `Lexer::next_token` returns and how it leaves the lexer.
///
/// Spaces and tabs are passed over, one column each. Where nothing else is left, the
/// step yields the end-of-input token at the place reached and leaves the cursor there;
/// otherwise it scans the token that begins at the next character.
pub open spec fn scan(l: LexerView) -> Step {
    if l.at_end() {
        Step { token: end_token(l.at_mark()), lexer: l.at_mark() }
    } else {
        scan_token(l.at_mark())
    }
}

} // verus!
