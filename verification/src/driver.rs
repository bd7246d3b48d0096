//! Assembling a whole source: its lines are read in order by the state
//! machine, and the image that they leave is written out as text.

use crate::chars::pieces;
use crate::chars::split;
use crate::chars::to_chars;
use crate::chars::views;
use crate::error::AsmError;
use crate::error::AsmErrorView;
use crate::image::Image;
use crate::image::ImageView;
use crate::machine::lemma_step_wf;
use crate::machine::Assembler;
use crate::machine::AssemblerView;
use vstd::prelude::*;

verus! {

/// The lines of a source: what stands between its line feeds. A line feed
/// at the very end closes the last line and opens no further one.
pub open spec fn lines_of(source: Seq<char>) -> Seq<Seq<char>> {
    let parts = pieces(source, '\n');
    if parts.len() > 0 && parts.last().len() == 0 {
        parts.drop_last()
    } else {
        parts
    }
}

/// The state after reading `lines` in order from the initial state, or the
/// first error on the way.
#[verifier::opaque]
pub open spec fn run(lines: Seq<Seq<char>>) -> Result<AssemblerView, AsmErrorView>
    decreases lines.len(),
{
    if lines.len() == 0 {
        Ok(AssemblerView::initial())
    } else {
        match run(lines.drop_last()) {
            Err(e) => Err(e),
            Ok(s) => s.step(lines.last()),
        }
    }
}

/// The image that a source describes, or the error that it holds: the first
/// error of a line, or else a missing `END`.
pub open spec fn parsed(source: Seq<char>) -> Result<ImageView, AsmErrorView> {
    match run(lines_of(source)) {
        Err(e) => Err(e),
        Ok(s) => s.finished(),
    }
}

/// The text of the image that a source describes, or the error that it
/// holds.
pub open spec fn assembled(source: Seq<char>) -> Result<Seq<char>, AsmErrorView> {
    match parsed(source) {
        Err(e) => Err(e),
        Ok(image) => Ok(image.text()),
    }
}

/// Reading no line leaves the initial state.
pub proof fn lemma_run_none()
    ensures
        run(Seq::empty()) == Ok::<AssemblerView, AsmErrorView>(AssemblerView::initial()),
{
    reveal(run);
}

/// Reading lines is reading all but the last, and then the last.
pub proof fn lemma_run_last(lines: Seq<Seq<char>>)
    requires
        lines.len() > 0,
    ensures
        run(lines) == match run(lines.drop_last()) {
            Err(e) => Err(e),
            Ok(s) => s.step(lines.last()),
        },
{
    reveal(run);
}

/// Reading the first `k + 1` lines is reading the first `k`, and then line
/// `k`.
pub proof fn lemma_run_next(lines: Seq<Seq<char>>, k: int)
    requires
        0 <= k < lines.len(),
    ensures
        run(lines.take(k + 1)) == match run(lines.take(k)) {
            Err(e) => Err(e),
            Ok(s) => s.step(lines[k]),
        },
{
    assert(lines.take(k + 1).drop_last() =~= lines.take(k));
    lemma_run_last(lines.take(k + 1));
}

/// Every state on the way is well formed, and has read as many lines as
/// there were.
pub proof fn lemma_run_wf(lines: Seq<Seq<char>>)
    ensures
        run(lines) matches Ok(s) ==> s.wf() && s.line == lines.len(),
    decreases lines.len(),
{
    if lines.len() > 0 {
        lemma_run_last(lines);
        lemma_run_wf(lines.drop_last());
        if let Ok(s) = run(lines.drop_last()) {
            lemma_step_wf(s, lines.last());
        }
    } else {
        lemma_run_none();
        assert(lines =~= Seq::empty());
    }
}

/// An error on the way is the error of the whole: reading stops there.
pub proof fn lemma_run_stops(lines: Seq<Seq<char>>, k: int)
    requires
        0 <= k <= lines.len(),
        run(lines.take(k)) is Err,
    ensures
        run(lines) == run(lines.take(k)),
    decreases lines.len() - k,
{
    if k == lines.len() {
        assert(lines.take(k) =~= lines);
    } else {
        assert(lines.drop_last().take(k) =~= lines.take(k));
        lemma_run_stops(lines.drop_last(), k);
        lemma_run_last(lines);
    }
}

/// Reads a source and builds its image.
pub fn parse(source: &[char]) -> (r: Result<Image, AsmError>)
    ensures
        match r {
            Ok(image) => parsed(source@) == Ok::<ImageView, AsmErrorView>(image@) && image@.wf(),
            Err(e) => parsed(source@) == Err::<ImageView, AsmErrorView>(e@),
        },
{
    let mut lines = split(source, '\n');
    if lines.len() > 0 && lines[lines.len() - 1].len() == 0 {
        let ghost whole = lines@;
        lines.pop();
        assert(views(lines@) =~= views(whole).drop_last());
    }
    let ghost all = lines_of(source@);
    let mut state = Assembler::new();
    let mut i: usize = 0;
    proof {
        lemma_run_none();
        assert(all.take(0) =~= Seq::<Seq<char>>::empty());
    }
    while i < lines.len()
        invariant
            i <= lines.len(),
            all == views(lines@),
            all == lines_of(source@),
            run(all.take(i as int)) == Ok::<AssemblerView, AsmErrorView>(state@),
            state@.wf(),
            state@.line == i,
        decreases lines.len() - i,
    {
        proof {
            lemma_run_next(all, i as int);
            assert(all[i as int] == lines@[i as int]@);
        }
        match state.feed(lines[i].as_slice()) {
            Err(e) => {
                proof {
                    lemma_run_stops(all, i + 1);
                }
                return Err(e);
            },
            Ok(next) => {
                state = next;
            },
        }
        i += 1;
    }
    assert(all.take(lines.len() as int) =~= all);
    state.finish()
}

/// Assembles a source: the text of its image, or the first error in it.
pub fn assemble(source: &str) -> (r: Result<String, AsmError>)
    ensures
        match r {
            Ok(text) => assembled(source@) == Ok::<Seq<char>, AsmErrorView>(text@),
            Err(e) => assembled(source@) == Err::<Seq<char>, AsmErrorView>(e@),
        },
{
    let chars = to_chars(source);
    match parse(chars.as_slice()) {
        Ok(image) => Ok(image.text()),
        Err(e) => Err(e),
    }
}

} // verus!
