//! The scanner: a cursor over a source that yields one token per call.
use vstd::prelude::*;
use crate::chars::{
    lemma_run_end, lemma_run_end_bounds, lemma_run_end_from_inside, lemma_run_end_unique, Run,
};
use crate::io::Source;
use crate::number::{lemma_decimal_nonnegative, parse_integer, representable};
use crate::scan::{
    lead, scan, scan_identifier, scan_newlines, scan_number, scan_string, scan_token, LexerView,
    Step,
};
use crate::token::{Kind, Token};

verus! {

/// A cursor over a source.
pub struct Lexer {
    pub source: Source,
    /// Line and column of the character under the cursor, both counted from 1. A new
    /// lexer stands before the text, at column 0.
    pub position: (usize, usize),
    /// The index of the character under the cursor; -1 before the first one has been read.
    pub index: isize,
    /// The character under the cursor, or `None` where the cursor is outside the text.
    pub current: Option<char>,
}

impl View for Lexer {
    type V = LexerView;

    open spec fn view(&self) -> LexerView {
        LexerView {
            content: self.source.content@,
            line: self.position.0 as nat,
            column: self.position.1 as nat,
            index: self.index as int,
        }
    }
}

impl Lexer {
    /// Whether the remembered character is the one that the text holds at the index.
    pub open spec fn synced(&self) -> bool {
        self.current == self@.current()
    }

    /// The invariant of a lexer between two calls: the remembered character agrees with
    /// the text, and the numbers that scanning can reach fit their machine types.
    pub open spec fn wf(&self) -> bool {
        &&& self@.fits()
        &&& self.synced()
    }

    /// A lexer over `source`, with the cursor before the first character, on line 1 and
    /// column 0.
    ///
    /// The index can pass the end of the text by one, so the text must be short enough
    /// for that index to fit.
    pub fn new(source: Source) -> (lexer: Lexer)
        requires
            source.content@.len() < isize::MAX,
        ensures
            lexer.wf(),
            lexer.source == source,
            lexer@ == (LexerView { content: source.content@, line: 1, column: 0, index: -1 }),
    {
        Lexer { source, position: (1, 0), index: -1, current: None }
    }

    /// Yields the next token and moves the cursor past it.
    ///
    /// Spaces and tabs before the token are passed over. The token is reported at the
    /// line and column of its first character, and the cursor ends on the character after
    /// the token. Once nothing else is left, every call yields the end-of-input token and
    /// leaves the lexer as it is. The token and the lexer afterwards are those of `scan`.
    ///
    /// An integer literal must be made of ASCII decimal digits alone and have a value
    /// within `isize`; `literal_fits` tells whether the next one is, and `try_next_token`
    /// asks before it scans.
    pub fn next_token(&mut self) -> (token: Token)
        requires
            old(self).wf(),
            old(self)@.literal_fits(),
        ensures
            final(self).wf(),
            final(self).source == old(self).source,
            (Step { token: token@, lexer: final(self)@ }) == scan(old(self)@),
            token@.wf(),
    {
        let ghost start = self@;
        let ghost from = if start.index < 0 { 0 } else { start.index };
        let len = self.source.content.as_str().unicode_len();
        loop
            invariant
                start == old(self)@,
                self.source == old(self).source,
                self.wf(),
                self@.content == start.content,
                self@.line == start.line,
                len == start.content.len(),
                self@.column == start.column + (self.index - start.index),
                self.index == start.index || from <= self.index <= start.mark(),
                from == if start.index < 0 { 0 } else { start.index },
            ensures
                self@ == start.at_mark(),
                self@.inside(),
                !start.at_end(),
            decreases len + 1 - self.index,
        {
            proof {
                lemma_run_end(start.content, Run::Blanks, from);
                if from <= self.index {
                    lemma_run_end_from_inside(start.content, Run::Blanks, from, self.index as int);
                    lemma_run_end(start.content, Run::Blanks, self.index as int);
                }
            }
            match self.current {
                None => {
                    if self.index < len as isize {
                        self.advance();
                    } else {
                        let end = Token::new(
                            Kind::EOF,
                            "EndOfFile".to_owned(),
                            None,
                            (self.position.0, self.position.1),
                        );
                        return end;
                    }
                },
                Some(c) => {
                    if c == ' ' || c == '\t' {
                        self.advance();
                    } else {
                        break ;
                    }
                },
            }
        }
        let ghost at = self@;
        let mut token = Token::new(
            Kind::EOF,
            "EndOfFile".to_owned(),
            None,
            (self.position.0, self.position.1),
        );
        match self.current {
            Some('=') => {
                self.advance();
                if self.current == Some('=') {
                    token = Token::new(
                        Kind::Equal,
                        "==".to_owned(),
                        None,
                        (self.position.0, self.position.1 - 1),
                    );
                    proof {
                        reveal_strlit("==");
                        assert("=="@ =~= seq!['=', '=']);
                    }
                } else {
                    self.retreat();
                    token = Token::new(
                        Kind::Assign,
                        "=".to_owned(),
                        None,
                        (self.position.0, self.position.1),
                    );
                    proof {
                        reveal_strlit("=");
                        assert("="@ =~= seq!['=']);
                    }
                }
            },
            Some(';') => {
                token = Token::new(
                    Kind::Semicolon,
                    ";".to_owned(),
                    None,
                    (self.position.0, self.position.1),
                );
                proof {
                    reveal_strlit(";");
                    assert(";"@ =~= seq![';']);
                }
            },
            Some(':') => {
                token = Token::new(
                    Kind::Colon,
                    ":".to_owned(),
                    None,
                    (self.position.0, self.position.1),
                );
                proof {
                    reveal_strlit(":");
                    assert(":"@ =~= seq![':']);
                }
            },
            Some('(') => {
                token = Token::new(
                    Kind::LeftParen,
                    "(".to_owned(),
                    None,
                    (self.position.0, self.position.1),
                );
                proof {
                    reveal_strlit("(");
                    assert("("@ =~= seq!['(']);
                }
            },
            Some(')') => {
                token = Token::new(
                    Kind::RightParen,
                    ")".to_owned(),
                    None,
                    (self.position.0, self.position.1),
                );
                proof {
                    reveal_strlit(")");
                    assert(")"@ =~= seq![')']);
                }
            },
            Some('{') => {
                token = Token::new(
                    Kind::LeftCurlyBracket,
                    "{".to_owned(),
                    None,
                    (self.position.0, self.position.1),
                );
                proof {
                    reveal_strlit("{");
                    assert("{"@ =~= seq!['{']);
                }
            },
            Some('}') => {
                token = Token::new(
                    Kind::RightCurlyBracket,
                    "}".to_owned(),
                    None,
                    (self.position.0, self.position.1),
                );
                proof {
                    reveal_strlit("}");
                    assert("}"@ =~= seq!['}']);
                }
            },
            Some(',') => {
                token = Token::new(
                    Kind::Comma,
                    ",".to_owned(),
                    None,
                    (self.position.0, self.position.1),
                );
                proof {
                    reveal_strlit(",");
                    assert(","@ =~= seq![',']);
                }
            },
            Some('+') => {
                token = Token::new(
                    Kind::Plus,
                    "+".to_owned(),
                    None,
                    (self.position.0, self.position.1),
                );
                proof {
                    reveal_strlit("+");
                    assert("+"@ =~= seq!['+']);
                }
            },
            Some('-') => {
                token = Token::new(
                    Kind::Minus,
                    "-".to_owned(),
                    None,
                    (self.position.0, self.position.1),
                );
                proof {
                    reveal_strlit("-");
                    assert("-"@ =~= seq!['-']);
                }
            },
            Some('*') => {
                token = Token::new(
                    Kind::Multiply,
                    "*".to_owned(),
                    None,
                    (self.position.0, self.position.1),
                );
                proof {
                    reveal_strlit("*");
                    assert("*"@ =~= seq!['*']);
                }
            },
            Some('/') => {
                token = Token::new(
                    Kind::Divide,
                    "/".to_owned(),
                    None,
                    (self.position.0, self.position.1),
                );
                proof {
                    reveal_strlit("/");
                    assert("/"@ =~= seq!['/']);
                }
            },
            Some('!') => {
                self.advance();
                if self.current == Some('=') {
                    token = Token::new(
                        Kind::NotEqual,
                        "!=".to_owned(),
                        None,
                        (self.position.0, self.position.1 - 1),
                    );
                    proof {
                        reveal_strlit("!=");
                        assert("!="@ =~= seq!['!', '=']);
                    }
                }
            },
            Some('>') => {
                self.advance();
                if self.current == Some('=') {
                    token = Token::new(
                        Kind::GreaterThanOrEqual,
                        ">=".to_owned(),
                        None,
                        (self.position.0, self.position.1 - 1),
                    );
                    proof {
                        reveal_strlit(">=");
                        assert(">="@ =~= seq!['>', '=']);
                    }
                } else {
                    self.retreat();
                    token = Token::new(
                        Kind::GreaterThan,
                        ">".to_owned(),
                        None,
                        (self.position.0, self.position.1),
                    );
                    proof {
                        reveal_strlit(">");
                        assert(">"@ =~= seq!['>']);
                    }
                }
            },
            Some('<') => {
                self.advance();
                if self.current == Some('=') {
                    token = Token::new(
                        Kind::LessThanOrEqual,
                        "<=".to_owned(),
                        None,
                        (self.position.0, self.position.1 - 1),
                    );
                    proof {
                        reveal_strlit("<=");
                        assert("<="@ =~= seq!['<', '=']);
                    }
                } else {
                    self.retreat();
                    token = Token::new(
                        Kind::LessThan,
                        "<".to_owned(),
                        None,
                        (self.position.0, self.position.1),
                    );
                    proof {
                        reveal_strlit("<");
                        assert("<"@ =~= seq!['<']);
                    }
                }
            },
            Some('"') | Some('\'') => {
                proof {
                    lemma_run_end_bounds(at.content, Run::Quoted(at.content[at.index]), at.index + 1);
                }
                token = self.lex_string();
            },
            Some(c) => {
                if c.is_alphabetic() {
                    proof {
                        lemma_run_end_bounds(at.content, Run::Word, at.index);
                    }
                    token = self.lex_identifier();
                } else if c.is_numeric() {
                    proof {
                        lemma_run_end_bounds(at.content, Run::Numerals, at.index);
                    }
                    token = self.lex_number();
                } else if c == '\n' {
                    proof {
                        lemma_run_end_bounds(at.content, Run::Newlines, at.index);
                    }
                    token = self.skip_lines();
                }
            },
            None => {},
        }
        assert((Step { token: token@, lexer: self@.advanced(1) }) == scan_token(at));
        self.advance();
        token
    }

    /// Yields the next token where `next_token` can: `None`, with the lexer unchanged,
    /// where the next token is an integer literal whose value no token can carry.
    pub fn try_next_token(&mut self) -> (token: Option<Token>)
        requires
            old(self).wf(),
        ensures
            final(self).wf(),
            final(self).source == old(self).source,
            token is Some <==> old(self)@.literal_fits(),
            token is Some ==> (Step { token: token->0@, lexer: final(self)@ }) == scan(old(self)@)
                && token->0@.wf(),
            token is None ==> *final(self) == *old(self),
    {
        if self.literal_fits() {
            Some(self.next_token())
        } else {
            None
        }
    }

    /// Whether `next_token` may be called: whether the next token, if it is an integer
    /// literal, has a value that a token can carry. The lexer is only read.
    pub fn literal_fits(&self) -> (fits: bool)
        requires
            self.wf(),
        ensures
            fits == self@.literal_fits(),
    {
        let content = self.source.content.as_str();
        let len = content.unicode_len();
        let from: usize = if self.index < 0 {
            0
        } else {
            self.index as usize
        };
        let mut first = from;
        while first < len && is_blank(content.get_char(first))
            invariant
                len == content@.len(),
                from <= first,
                first <= len || first == from,
                forall|i: int| from <= i < first ==> Run::Blanks.holds(#[trigger] content@[i]),
            decreases len - first,
        {
            first += 1;
        }
        proof {
            if first <= len {
                lemma_run_end_unique(content@, Run::Blanks, from as int, first as int);
            }
        }
        if first >= len {
            return true;
        }
        if !leads_number(content.get_char(first)) {
            return true;
        }
        let mut end = first;
        while end < len && content.get_char(end).is_numeric()
            invariant
                len == content@.len(),
                first <= end <= len,
                forall|i: int| first <= i < end ==> Run::Numerals.holds(#[trigger] content@[i]),
            decreases len - end,
        {
            end += 1;
        }
        proof {
            lemma_run_end_unique(content@, Run::Numerals, first as int, end as int);
        }
        parse_integer(content.substring_char(first, end)).is_some()
    }

    /// Moves the cursor one character on, and the column with it.
    fn advance(&mut self)
        requires
            -1 <= old(self).index <= old(self)@.content.len() < isize::MAX,
            old(self).position.1 < usize::MAX,
        ensures
            final(self).source == old(self).source,
            final(self)@ == old(self)@.advanced(1),
            final(self).synced(),
    {
        self.position.1 += 1;
        self.index += 1;
        let content = self.source.content.as_str();
        let at = self.index as usize;
        self.current = if at < content.unicode_len() {
            Some(content.get_char(at))
        } else {
            None
        };
    }

    /// Takes the cursor one character back, and the column with it. The remembered
    /// character is left as it is: the next advance reads it anew.
    fn retreat(&mut self)
        requires
            0 <= old(self).index,
            1 <= old(self).position.1,
        ensures
            final(self).source == old(self).source,
            final(self)@ == old(self)@.advanced(-1),
    {
        self.position.1 -= 1;
        self.index -= 1;
    }

    /// Scans the string literal whose opening quote is under the cursor, and leaves the
    /// cursor on the closing quote.
    fn lex_string(&mut self) -> (token: Token)
        requires
            old(self).synced(),
            old(self)@.inside(),
            old(self)@.content.len() < isize::MAX,
            old(self)@.column + (old(self)@.content.len() - old(self)@.index) <= usize::MAX,
        ensures
            final(self).source == old(self).source,
            final(self).synced(),
            (Step { token: token@, lexer: final(self)@.advanced(1) }) == scan_string(old(self)@),
    {
        let quote = self.current;
        let start = self.position.1;
        let open = self.index;
        let ghost content = self@.content;
        self.advance();
        while self.current.is_some() && self.current != quote
            invariant
                self.source == old(self).source,
                self.synced(),
                self@.content == content,
                self@.line == old(self)@.line,
                content.len() < isize::MAX,
                quote == Some(content[open as int]),
                0 <= open < self.index <= content.len(),
                self.position.1 == start + (self.index - open),
                self.position.1 + (content.len() - self.index) <= usize::MAX,
                forall|i: int| open < i < self.index ==> Run::Quoted(content[open as int]).holds(#[trigger] content[i]),
            decreases content.len() - self.index,
        {
            self.advance();
        }
        proof {
            lemma_run_end_unique(content, Run::Quoted(content[open as int]), open + 1, self.index as int);
        }
        let body = self.source.content.as_str().substring_char((open + 1) as usize, self.index as usize);
        Token::new(Kind::String, body.to_owned(), None, (self.position.0, start))
    }

    /// Scans the identifier whose first character is under the cursor, and leaves the
    /// cursor on its last character.
    fn lex_identifier(&mut self) -> (token: Token)
        requires
            old(self).synced(),
            old(self)@.inside(),
            Run::Word.holds(old(self)@.content[old(self)@.index]),
            old(self)@.content.len() < isize::MAX,
            old(self)@.column + (old(self)@.content.len() - old(self)@.index) <= usize::MAX,
        ensures
            final(self).source == old(self).source,
            (Step { token: token@, lexer: final(self)@.advanced(1) }) == scan_identifier(old(self)@),
    {
        let start = self.position.1;
        let first = self.index;
        let ghost content = self@.content;
        while self.current.is_some() && (self.current.unwrap().is_alphanumeric()
            || self.current.unwrap() == '_')
            invariant
                self.source == old(self).source,
                self.synced(),
                self@.content == content,
                self@.line == old(self)@.line,
                content.len() < isize::MAX,
                0 <= first <= self.index <= content.len(),
                self.position.1 == start + (self.index - first),
                self.position.1 + (content.len() - self.index) <= usize::MAX,
                forall|i: int| first <= i < self.index ==> Run::Word.holds(#[trigger] content[i]),
            decreases content.len() - self.index,
        {
            self.advance();
        }
        proof {
            lemma_run_end_unique(content, Run::Word, first as int, self.index as int);
        }
        let text = self.source.content.as_str().substring_char(
            first as usize,
            self.index as usize,
        ).to_owned();
        self.retreat();
        Token::new(Kind::Identifier, text, None, (self.position.0, start))
    }

    /// Scans the integer literal whose first character is under the cursor, and leaves
    /// the cursor on its last character.
    fn lex_number(&mut self) -> (token: Token)
        requires
            old(self).synced(),
            old(self)@.inside(),
            old(self)@.content.len() < isize::MAX,
            old(self)@.column + (old(self)@.content.len() - old(self)@.index) <= usize::MAX,
            representable(
                old(self)@.content.subrange(old(self)@.index, old(self)@.numerals_end()),
            ),
        ensures
            final(self).source == old(self).source,
            (Step { token: token@, lexer: final(self)@.advanced(1) }) == scan_number(old(self)@),
    {
        let start = self.position.1;
        let first = self.index;
        let ghost content = self@.content;
        while self.current.is_some() && self.current.unwrap().is_numeric()
            invariant
                self.source == old(self).source,
                self.synced(),
                self@.content == content,
                self@.line == old(self)@.line,
                content.len() < isize::MAX,
                0 <= first <= self.index <= content.len(),
                self.position.1 == start + (self.index - first),
                self.position.1 + (content.len() - self.index) <= usize::MAX,
                forall|i: int| first <= i < self.index ==> Run::Numerals.holds(#[trigger] content[i]),
            decreases content.len() - self.index,
        {
            self.advance();
        }
        proof {
            lemma_run_end_unique(content, Run::Numerals, first as int, self.index as int);
        }
        let text = self.source.content.as_str().substring_char(
            first as usize,
            self.index as usize,
        ).to_owned();
        self.retreat();
        let value = parse_integer(text.as_str());
        proof {
            lemma_decimal_nonnegative(text@);
        }
        Token::new(Kind::Integer, text, Some(value.unwrap()), (self.position.0, start))
    }

    /// Scans the run of line feeds whose first is under the cursor, and leaves the cursor
    /// on the last of them: one character, and one column, before the first of the new
    /// line.
    fn skip_lines(&mut self) -> (token: Token)
        requires
            old(self).synced(),
            old(self)@.inside(),
            old(self)@.content.len() < isize::MAX,
            old(self)@.column + (old(self)@.content.len() - old(self)@.index) <= usize::MAX,
            old(self)@.line + (old(self)@.content.len() - old(self)@.index) <= usize::MAX,
        ensures
            final(self).source == old(self).source,
            (Step { token: token@, lexer: final(self)@.advanced(1) }) == scan_newlines(old(self)@),
    {
        let (line, column) = (self.position.0, self.position.1);
        let first = self.index;
        let ghost content = self@.content;
        while self.current == Some('\n')
            invariant
                self.source == old(self).source,
                self.synced(),
                self@.content == content,
                content.len() < isize::MAX,
                0 <= first <= self.index <= content.len(),
                self.position.0 == line + (self.index - first),
                self.position.0 + (content.len() - self.index) <= usize::MAX,
                self.position.1 == column + (self.index - first),
                self.position.1 + (content.len() - self.index) <= usize::MAX,
                forall|i: int| first <= i < self.index ==> Run::Newlines.holds(#[trigger] content[i]),
            decreases content.len() - self.index,
        {
            self.position.0 += 1;
            self.advance();
        }
        proof {
            lemma_run_end_unique(content, Run::Newlines, first as int, self.index as int);
        }
        self.position.1 = 1;
        self.retreat();
        Token::new(Kind::Newline, "\\n".to_owned(), None, (line, column))
    }
}

/// Whether `c` is a space or a tab.
fn is_blank(c: char) -> (blank: bool)
    ensures
        blank == crate::chars::is_blank(c),
{
    c == ' ' || c == '\t'
}

/// Whether a token that begins with `c` is an integer literal.
fn leads_number(c: char) -> (number: bool)
    ensures
        number == (lead(c) is Numeral),
{
    match c {
        '=' | '!' | '>' | '<' | ';' | ':' | '(' | ')' | '{' | '}' | ',' | '+' | '-' | '*' | '/'
        | '"' | '\'' => false,
        _ => !c.is_alphabetic() && c.is_numeric(),
    }
}

} // verus!
