//! What holds of every scan.
//!
//! Each law is stated over `scan`, the function by which `Lexer::next_token` is
//! specified, so it holds of every call of `next_token`.
use vstd::prelude::*;
use crate::chars::{
    is_blank, lemma_run_end, lemma_run_end_across, lemma_run_end_bounds, lemma_run_end_unique,
    Run,
};
use crate::scan::{end_token, newline_text, scan, scan_newlines, token_at, LexerView};
use crate::token::Kind;

verus! {

/// Spaces and tabs yield no token and cost one column each: a cursor that stands at the
/// start of `n` of them yields the same token, and ends in the same state, as a cursor
/// that stands just past them with its column `n` further. The same holds of a cursor
/// before the text and its first character.
pub proof fn lemma_blanks_yield_nothing(l: LexerView, n: nat)
    requires
        -1 <= l.index,
        l.index + n <= l.content.len(),
        forall|i: int| 0 <= i && l.index <= i < l.index + n ==> is_blank(#[trigger] l.content[i]),
    ensures
        scan(l) == scan(l.advanced(n as int)),
{
    let from = if l.index < 0 { 0 } else { l.index };
    let to = if l.index + n < 0 { 0 } else { l.index + n };
    assert forall|i: int| from <= i < to implies Run::Blanks.holds(#[trigger] l.content[i]) by {
        assert(is_blank(l.content[i]));
    }
    lemma_run_end_across(l.content, Run::Blanks, from, to);
    let m = l.advanced(n as int);
    assert(m.mark() == l.mark());
    assert(m.at_mark() == l.at_mark());
}

/// The end of the input is final: once nothing but spaces and tabs is left, a step
/// yields the end-of-input token at the place where the text ends, and every step after
/// it yields the same token and leaves the lexer as it is.
pub proof fn lemma_end_is_final(l: LexerView)
    requires
        -1 <= l.index,
        l.at_end(),
    ensures
        scan(l).token == end_token(l.at_mark()),
        scan(l).token.kind == Kind::EOF,
        scan(l).lexer.at_end(),
        scan(scan(l).lexer) == scan(l),
        scan(scan(l).lexer).lexer == scan(l).lexer,
{
    let m = l.at_mark();
    lemma_run_end(l.content, Run::Blanks, if l.index < 0 { 0 } else { l.index });
    lemma_run_end(l.content, Run::Blanks, m.index);
    assert(m.mark() == m.index);
    assert(m.at_mark() == m);
}

/// An empty text yields the end-of-input token at line 1, column 1, on the first step
/// of a new lexer and on every later one.
pub proof fn lemma_empty_text_ends_at_once(l: LexerView)
    requires
        l.content.len() == 0,
        l.line == 1,
        l.column == 0,
        l.index == -1,
    ensures
        scan(l).token == end_token(LexerView { content: l.content, line: 1, column: 1, index: 0 }),
        scan(scan(l).lexer) == scan(l),
{
    lemma_end_is_final(l);
}

/// A run of `n` line feeds yields one newline token, placed where the run begins; the
/// line is then `n` further, the column is 1 and the cursor is on the character after
/// the run.
pub proof fn lemma_newlines_collapse(l: LexerView, n: nat)
    requires
        l.inside(),
        n >= 1,
        l.index + n <= l.content.len(),
        forall|i: int| l.index <= i < l.index + n ==> #[trigger] l.content[i] == '\n',
        l.index + n < l.content.len() ==> l.content[l.index + n] != '\n',
    ensures
        scan_newlines(l).token == token_at(l, Kind::Newline, newline_text()),
        scan_newlines(l).lexer == (LexerView {
            content: l.content,
            line: l.line + n,
            column: 1,
            index: l.index + n,
        }),
{
    lemma_run_end_unique(l.content, Run::Newlines, l.index, l.index + n);
}

/// A token carries a value exactly when it is an integer literal.
pub proof fn lemma_value_marks_integers(l: LexerView)
    ensures
        scan(l).token.wf(),
{
}

/// A token is reported at the place of its first character: on the line of the cursor,
/// and as many columns past the cursor as there are spaces and tabs before the token.
pub proof fn lemma_token_stands_at_its_first_character(l: LexerView)
    requires
        -1 <= l.index,
    ensures
        scan(l).token.position == (l.line, (l.column + (l.mark() - l.index)) as nat),
        scan(l).token.position == (l.at_mark().line, l.at_mark().column),
{
    lemma_run_end(l.content, Run::Blanks, if l.index < 0 { 0 } else { l.index });
}

/// The column moves with the index: a step adds as many columns as it passes
/// characters, but for a run of line feeds, after which the column is 1.
pub proof fn lemma_column_follows_index(l: LexerView)
    requires
        l.fits(),
    ensures
        scan(l).token.kind != Kind::Newline ==> scan(l).lexer.column - l.column == scan(
            l,
        ).lexer.index - l.index,
        scan(l).token.kind == Kind::Newline ==> scan(l).lexer.column == 1,
{
    lemma_run_end(l.content, Run::Blanks, if l.index < 0 { 0 } else { l.index });
    let m = l.at_mark();
    if !l.at_end() {
        let c = m.content[m.index];
        lemma_run_end_bounds(m.content, Run::Quoted(c), m.index + 1);
        lemma_run_end_bounds(m.content, Run::Word, m.index);
        lemma_run_end_bounds(m.content, Run::Numerals, m.index);
        lemma_run_end_bounds(m.content, Run::Newlines, m.index);
    }
}

/// The column is always that of the character under the cursor. Where it is so before
/// a step, in a line that begins at index `line_start`, the token is reported at the
/// column of its first character in that line, and the column is that of the cursor
/// after the step too: in the same line, or, after a run of line feeds, in the line that
/// begins at the cursor. A new lexer counts from index 0. Only a run of line feeds that
/// the lexer scans begins a line: one inside a string literal does not.
pub proof fn lemma_column_is_that_of_the_cursor(l: LexerView, line_start: int)
    requires
        l.fits(),
        l.counts_from(line_start),
    ensures
        scan(l).token.position.1 == l.mark() - line_start + 1,
        scan(l).token.kind != Kind::Newline ==> scan(l).lexer.counts_from(line_start),
        scan(l).token.kind == Kind::Newline ==> scan(l).lexer.counts_from(scan(l).lexer.index),
{
    lemma_run_end(l.content, Run::Blanks, if l.index < 0 { 0 } else { l.index });
    let m = l.at_mark();
    if !l.at_end() {
        let c = m.content[m.index];
        lemma_run_end_bounds(m.content, Run::Quoted(c), m.index + 1);
        lemma_run_end_bounds(m.content, Run::Word, m.index);
        lemma_run_end_bounds(m.content, Run::Numerals, m.index);
        lemma_run_end_bounds(m.content, Run::Newlines, m.index);
    }
}

/// A step changes neither the text nor, but within a run of line feeds, the line; the
/// token it yields lies on the line that the step began on.
pub proof fn lemma_step_stays_on_its_line(l: LexerView)
    requires
        l.fits(),
    ensures
        scan(l).lexer.content == l.content,
        scan(l).token.position.0 == l.line,
        scan(l).token.kind != Kind::Newline ==> scan(l).lexer.line == l.line,
        scan(l).lexer.line >= l.line,
{
    lemma_run_end(l.content, Run::Blanks, if l.index < 0 { 0 } else { l.index });
    if !l.at_end() {
        lemma_run_end_bounds(l.content, Run::Newlines, l.at_mark().index);
    }
}

/// A step never moves the cursor back, and it moves the cursor on unless the lexer has
/// come to rest at the end of the input: so a caller that asks for token after token
/// reaches the end after no more steps than the text has characters, and two more.
pub proof fn lemma_step_moves_on(l: LexerView)
    requires
        l.fits(),
    ensures
        scan(l).lexer.index > l.index || (l.at_end() && scan(l).lexer == l),
        scan(l).lexer.index <= l.content.len() + 1,
{
    lemma_run_end(l.content, Run::Blanks, if l.index < 0 { 0 } else { l.index });
    let m = l.at_mark();
    if !l.at_end() {
        let c = m.content[m.index];
        lemma_run_end_bounds(m.content, Run::Quoted(c), m.index + 1);
        lemma_run_end_bounds(m.content, Run::Word, m.index);
        lemma_run_end_bounds(m.content, Run::Numerals, m.index);
        lemma_run_end_bounds(m.content, Run::Newlines, m.index);
    }
}

/// A step keeps every number within its machine type: from a lexer that fits, the lexer
/// after the step fits too.
pub proof fn lemma_step_fits(l: LexerView)
    requires
        l.fits(),
    ensures
        scan(l).lexer.fits(),
{
    lemma_run_end(l.content, Run::Blanks, if l.index < 0 { 0 } else { l.index });
    let m = l.at_mark();
    if !l.at_end() {
        let c = m.content[m.index];
        lemma_run_end_bounds(m.content, Run::Quoted(c), m.index + 1);
        lemma_run_end_bounds(m.content, Run::Word, m.index);
        lemma_run_end_bounds(m.content, Run::Numerals, m.index);
        lemma_run_end_bounds(m.content, Run::Newlines, m.index);
    }
}

} // verus!
