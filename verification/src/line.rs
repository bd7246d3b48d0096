//! The line classifier: it takes the comment and the surrounding whitespace
//! off a source line and tells which of five shapes the line has.

use crate::chars::cut;
use crate::chars::lemma_tokens_exist;
use crate::chars::lemma_trimmed_end_solid;
use crate::chars::split_once;
use crate::chars::tokens;
use crate::chars::trim;
use crate::chars::trimmed;
use crate::chars::trimmed_start;
use vstd::prelude::*;

verus! {

/// What starts a comment.
pub const COMMENT_MARK: [char; 2] = ['/', '/'];

/// What makes a line a text directive.
pub const TEXT_MARK: [char; 5] = ['.', 't', 'e', 'x', 't'];

/// What makes a line a word-list directive.
pub const WORD_MARK: [char; 5] = ['.', 'w', 'o', 'r', 'd'];

/// What ends a label.
pub const LABEL_MARK: [char; 1] = [':'];

/// A source line by its shape, with the parts that the shape splits it into.
#[derive(Clone, Copy, Debug, PartialEq, Eq)]
pub enum Line<'a> {
    /// Nothing but whitespace and perhaps a comment.
    Blank,
    /// A text directive: what stands before the first `.text`, and what
    /// stands after it.
    Text { before: &'a [char], rest: &'a [char] },
    /// A word-list directive: what stands before the first `.word`, and
    /// what stands after it.
    Words { before: &'a [char], rest: &'a [char] },
    /// A labelled statement: what stands before the first colon, and what
    /// stands after it.
    Labelled { before: &'a [char], rest: &'a [char] },
    /// A statement without a label.
    Bare { code: &'a [char] },
}

/// A classified line as a mathematical value.
pub ghost enum LineView {
    Blank,
    Text { before: Seq<char>, rest: Seq<char> },
    Words { before: Seq<char>, rest: Seq<char> },
    Labelled { before: Seq<char>, rest: Seq<char> },
    Bare { code: Seq<char> },
}

impl View for Line<'_> {
    type V = LineView;

    open spec fn view(&self) -> LineView {
        match self {
            Line::Blank => LineView::Blank,
            Line::Text { before, rest } => LineView::Text { before: before@, rest: rest@ },
            Line::Words { before, rest } => LineView::Words { before: before@, rest: rest@ },
            Line::Labelled { before, rest } => LineView::Labelled { before: before@, rest: rest@ },
            Line::Bare { code } => LineView::Bare { code: code@ },
        }
    }
}

/// The part of a source line that counts: what stands before the first
/// comment mark, without the whitespace around it.
pub open spec fn code_of(raw: Seq<char>) -> Seq<char> {
    match cut(raw, COMMENT_MARK@) {
        Some((before, _)) => trimmed(before),
        None => trimmed(raw),
    }
}

/// The shape of the source line `raw`.
///
/// A line whose code is empty is blank. Otherwise the first of these that
/// fits decides: the code holds `.text`; it holds `.word`; it holds a colon;
/// none of them. So a line that holds `.text` anywhere is a text directive,
/// whatever else it holds.
pub open spec fn classified(raw: Seq<char>) -> LineView {
    let code = code_of(raw);
    if code.len() == 0 {
        LineView::Blank
    } else {
        match cut(code, TEXT_MARK@) {
            Some((before, rest)) => LineView::Text { before, rest },
            None => match cut(code, WORD_MARK@) {
                Some((before, rest)) => LineView::Words { before, rest },
                None => match cut(code, LABEL_MARK@) {
                    Some((before, rest)) => LineView::Labelled { before, rest },
                    None => LineView::Bare { code },
                },
            },
        }
    }
}

/// The code of a line that is not blank has a token.
pub proof fn lemma_code_has_token(raw: Seq<char>)
    requires
        code_of(raw).len() > 0,
    ensures
        tokens(code_of(raw)).len() > 0,
{
    let code = code_of(raw);
    match cut(raw, COMMENT_MARK@) {
        Some((before, _)) => lemma_trimmed_end_solid(trimmed_start(before)),
        None => lemma_trimmed_end_solid(trimmed_start(raw)),
    }
    lemma_tokens_exist(code, code.len() - 1);
}

/// The code of a source line: the line without its comment and without the
/// whitespace around what is left.
pub fn strip<'a>(raw: &'a [char]) -> (r: &'a [char])
    ensures
        r@ == code_of(raw@),
{
    let comment = COMMENT_MARK;
    match split_once(raw, comment.as_slice()) {
        Some((before, _)) => trim(before),
        None => trim(raw),
    }
}

/// Tells the shape of the source line `raw`.
pub fn classify<'a>(raw: &'a [char]) -> (r: Line<'a>)
    ensures
        r@ == classified(raw@),
{
    let code = strip(raw);
    if code.len() == 0 {
        return Line::Blank;
    }
    let text = TEXT_MARK;
    let word = WORD_MARK;
    let colon = LABEL_MARK;
    match split_once(code, text.as_slice()) {
        Some((before, rest)) => Line::Text { before, rest },
        None => match split_once(code, word.as_slice()) {
            Some((before, rest)) => Line::Words { before, rest },
            None => match split_once(code, colon.as_slice()) {
                Some((before, rest)) => Line::Labelled { before, rest },
                None => Line::Bare { code },
            },
        },
    }
}

} // verus!
