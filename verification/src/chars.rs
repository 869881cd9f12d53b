//! The character classes of the scanner.
//!
//! Letters and numerals are told apart by the standard library's Unicode tables. Their
//! answers are not computed here: each gets a name, and the contracts of this crate speak
//! of those names.
use vstd::prelude::*;

verus! {

/// The answer of `char::is_alphabetic` for `c`: whether `c` has the Unicode property
/// `Alphabetic`.
pub uninterp spec fn alphabetic(c: char) -> bool;

/// The answer of `char::is_numeric` for `c`: whether `c` belongs to one of the Unicode
/// general categories for numbers (`Nd`, `Nl`, `No`).
pub uninterp spec fn numeric(c: char) -> bool;

/// `char::is_alphabetic` is a function of the character alone; its result is
/// `alphabetic(c)`. Nothing more is claimed of it.
pub assume_specification[ char::is_alphabetic ](c: char) -> (b: bool)
    ensures
        b == alphabetic(c),
;

/// `char::is_numeric` is a function of the character alone; its result is `numeric(c)`.
/// Nothing more is claimed of it.
pub assume_specification[ char::is_numeric ](c: char) -> (b: bool)
    ensures
        b == numeric(c),
;

/// `char::is_alphanumeric` holds of exactly the characters of which `char::is_alphabetic`
/// or `char::is_numeric` holds, as its documentation says.
pub assume_specification[ char::is_alphanumeric ](c: char) -> (b: bool)
    ensures
        b == (alphabetic(c) || numeric(c)),
;

/// Space or tab: the characters that separate tokens without producing one.
pub open spec fn is_blank(c: char) -> bool {
    c == ' ' || c == '\t'
}

/// A character that may continue an identifier.
pub open spec fn is_word(c: char) -> bool {
    alphabetic(c) || numeric(c) || c == '_'
}

/// One of the ten ASCII decimal digits.
pub open spec fn is_digit(c: char) -> bool {
    '0' <= c <= '9'
}

/// The kinds of run that the scanner consumes in one sweep.
pub enum Run {
    /// Spaces and tabs.
    Blanks,
    /// Line feeds.
    Newlines,
    /// Identifier characters.
    Word,
    /// Numerals.
    Numerals,
    /// Everything up to the given closing quote.
    Quoted(char),
}

impl Run {
    /// Whether `c` belongs to a run of this kind.
    pub open spec fn holds(self, c: char) -> bool {
        match self {
            Run::Blanks => is_blank(c),
            Run::Newlines => c == '\n',
            Run::Word => is_word(c),
            Run::Numerals => numeric(c),
            Run::Quoted(quote) => c != quote,
        }
    }
}

/// The index at which the run of kind `run` that starts at `from` ends: the first index
/// at or after `from` that lies outside `s` or holds a character outside the run.
pub open spec fn run_end(s: Seq<char>, run: Run, from: int) -> int
    decreases s.len() - from,
{
    if 0 <= from < s.len() && run.holds(s[from]) {
        run_end(s, run, from + 1)
    } else {
        from
    }
}

/// What marks the end of a run: every character from `from` up to the end belongs to the
/// run, and the end is either outside `s` or a character that does not belong.
pub proof fn lemma_run_end(s: Seq<char>, run: Run, from: int)
    ensures
        from <= run_end(s, run, from),
        0 <= from <= s.len() ==> run_end(s, run, from) <= s.len(),
        !(0 <= from < s.len()) ==> run_end(s, run, from) == from,
        forall|i: int| from <= i < run_end(s, run, from) ==> 0 <= i < s.len() && run.holds(#[trigger] s[i]),
        0 <= run_end(s, run, from) < s.len() ==> !run.holds(s[run_end(s, run, from)]),
    decreases s.len() - from,
{
    if 0 <= from < s.len() && run.holds(s[from]) {
        lemma_run_end(s, run, from + 1);
    }
}

/// Where a run starts the index stays; elsewhere the run ends past its start and inside
/// `s` or at its end.
pub proof fn lemma_run_end_bounds(s: Seq<char>, run: Run, from: int)
    requires
        0 <= from <= s.len(),
    ensures
        from <= run_end(s, run, from) <= s.len(),
        from < s.len() && run.holds(s[from]) ==> from < run_end(s, run, from),
{
    lemma_run_end(s, run, from);
    lemma_run_end(s, run, from + 1);
}

/// The end of a run is the only index of which `lemma_run_end` holds.
pub proof fn lemma_run_end_unique(s: Seq<char>, run: Run, from: int, end: int)
    requires
        0 <= from <= end <= s.len(),
        forall|i: int| from <= i < end ==> run.holds(#[trigger] s[i]),
        end < s.len() ==> !run.holds(s[end]),
    ensures
        run_end(s, run, from) == end,
    decreases end - from,
{
    if from < end {
        lemma_run_end_unique(s, run, from + 1, end);
    }
}

/// A stretch of characters that all belong to the run does not end it: the run ends at
/// the same index from either side of the stretch.
pub proof fn lemma_run_end_across(s: Seq<char>, run: Run, from: int, to: int)
    requires
        0 <= from <= to <= s.len(),
        forall|i: int| from <= i < to ==> run.holds(#[trigger] s[i]),
    ensures
        run_end(s, run, from) == run_end(s, run, to),
    decreases to - from,
{
    if from < to {
        lemma_run_end_across(s, run, from + 1, to);
    }
}

/// A run may be entered anywhere inside it without changing where it ends.
pub proof fn lemma_run_end_from_inside(s: Seq<char>, run: Run, from: int, inside: int)
    requires
        from <= inside <= run_end(s, run, from),
    ensures
        run_end(s, run, inside) == run_end(s, run, from),
    decreases inside - from,
{
    if from < inside {
        lemma_run_end(s, run, from);
        lemma_run_end_from_inside(s, run, from + 1, inside);
    }
}

} // verus!
