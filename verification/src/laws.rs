//! What holds of every source: how many header entries an image has, what
//! offset a label gets, and which sources are always rejected.

use crate::chars::cut;
use crate::chars::free_of;
use crate::chars::lemma_pieces_free;
use crate::chars::lemma_pieces_stacked;
use crate::chars::lemma_tokens_solid;
use crate::chars::lemma_trimmed_free;
use crate::chars::pieces;
use crate::chars::tokens;
use crate::chars::trimmed_end;
use crate::chars::trimmed_start;
use crate::driver::assembled;
use crate::driver::lemma_run_last;
use crate::driver::lemma_run_next;
use crate::driver::lemma_run_none;
use crate::driver::lemma_run_stops;
use crate::driver::lemma_run_wf;
use crate::driver::lines_of;
use crate::driver::parsed;
use crate::driver::run;
use crate::error::fault_at;
use crate::error::AsmErrorView;
use crate::error::ErrorKind;
use crate::image::declares;
use crate::image::HeaderEntryView;
use crate::image::ImageView;
use crate::image::InstructionView;
use crate::image::OFFSET_LIMIT;
use crate::line::classified;
use crate::line::code_of;
use crate::line::lemma_code_has_token;
use crate::line::LineView;
use crate::line::COMMENT_MARK;
use crate::machine::directive_label;
use crate::machine::unquoted;
use crate::machine::AssemblerView;
use crate::number::binary_u32;
use crate::number::decimal;
use crate::number::decimal_u8;
use crate::opcode::lemma_tables_disjoint;
use crate::opcode::OpCodes;
use crate::opcode::PseudoOps;
use crate::statement::lemma_statement_wf;
use crate::statement::statement;
use crate::statement::StatementView;
use vstd::prelude::*;

verus! {

/// The tokens of the statement that a line holds: for a labelled line what
/// follows the label, for a line without a label all of it, and none for
/// any other line.
pub open spec fn statement_tokens(raw: Seq<char>) -> Seq<Seq<char>> {
    match classified(raw) {
        LineView::Labelled { rest, .. } => tokens(rest),
        LineView::Bare { code } => tokens(code),
        _ => Seq::empty(),
    }
}

/// Whether the statement of a line starts with the pseudo-instruction `p`.
pub open spec fn opens_with(raw: Seq<char>, p: PseudoOps) -> bool {
    let toks = statement_tokens(raw);
    toks.len() > 0 && PseudoOps::named(toks[0]) == Some(p)
}

/// Whether a line is blank: it holds nothing but whitespace and perhaps a
/// comment.
pub open spec fn is_blank(raw: Seq<char>) -> bool {
    classified(raw) is Blank
}

/// Whether a line is a labelled statement.
pub open spec fn is_labelled(raw: Seq<char>) -> bool {
    classified(raw) is Labelled
}

/// Whether a line is a declaration: a text directive, a word-list directive
/// or an `EXTERN` statement.
pub open spec fn is_declaration(raw: Seq<char>) -> bool {
    ||| classified(raw) is Text
    ||| classified(raw) is Words
    ||| classified(raw) is Bare && opens_with(raw, PseudoOps::EXTERN)
}

/// Whether a line is an `END` statement, with or without a label.
pub open spec fn is_end(raw: Seq<char>) -> bool {
    opens_with(raw, PseudoOps::END)
}

/// The label that a line defines, if its shape lets it define one: the label
/// of a directive, or the label of a labelled statement.
pub open spec fn defined_label(raw: Seq<char>) -> Option<Seq<char>> {
    match classified(raw) {
        LineView::Text { before, .. } => directive_label(before),
        LineView::Words { before, .. } => directive_label(before),
        LineView::Labelled { before, .. } => Some(trimmed_end(before)),
        _ => None,
    }
}

/// The name that a line brings into the header, if its shape lets it bring
/// one: the label that it defines, or the name after `EXTERN`.
pub open spec fn declared_name(raw: Seq<char>) -> Option<Seq<char>> {
    match classified(raw) {
        LineView::Bare { code } => if opens_with(raw, PseudoOps::EXTERN) && tokens(code).len()
            >= 2 {
            Some(tokens(code)[1])
        } else {
            None
        },
        _ => defined_label(raw),
    }
}

/// How many of the lines are declarations.
pub open spec fn declarations(lines: Seq<Seq<char>>) -> nat
    decreases lines.len(),
{
    if lines.len() == 0 {
        0
    } else {
        declarations(lines.drop_last()) + if is_declaration(lines.last()) {
            1nat
        } else {
            0nat
        }
    }
}

/// How many of the lines are labelled statements.
pub open spec fn labels(lines: Seq<Seq<char>>) -> nat
    decreases lines.len(),
{
    if lines.len() == 0 {
        0
    } else {
        labels(lines.drop_last()) + if is_labelled(lines.last()) {
            1nat
        } else {
            0nat
        }
    }
}

/// Whether a line holds an instruction: it holds a statement, and that is no
/// `END` statement.
pub open spec fn holds_instruction(raw: Seq<char>) -> bool {
    statement_tokens(raw).len() > 0 && !is_end(raw)
}

/// How many of the lines are instruction lines of the body: lines that hold
/// an instruction and are read after `BEGIN` and before `END`.
pub open spec fn instructions(lines: Seq<Seq<char>>) -> nat
    decreases lines.len(),
{
    if lines.len() == 0 {
        0
    } else {
        instructions(lines.drop_last()) + if holds_instruction(lines.last()) && (run(
            lines.drop_last(),
        ) matches Ok(s) && s.phase is InBody) {
            1nat
        } else {
            0nat
        }
    }
}

/// How many of the lines are blank lines of the body: blank lines that are
/// read after `BEGIN` and before `END`.
pub open spec fn blanks_in_body(lines: Seq<Seq<char>>) -> nat
    decreases lines.len(),
{
    if lines.len() == 0 {
        0
    } else {
        blanks_in_body(lines.drop_last()) + if is_blank(lines.last()) && (run(lines.drop_last())
            matches Ok(s) && s.phase is InBody) {
            1nat
        } else {
            0nat
        }
    }
}

/// Where the whole is read without error, so is every part from the start.
pub proof fn lemma_run_prefix(lines: Seq<Seq<char>>, k: int)
    requires
        0 <= k <= lines.len(),
        run(lines) is Ok,
    ensures
        run(lines.take(k)) is Ok,
{
    if run(lines.take(k)) is Err {
        lemma_run_stops(lines, k);
    }
}

/// What one line does to the header: a declaration or a labelled statement
/// adds one entry, any other line adds none, and no line changes an entry
/// that is there.
pub proof fn lemma_step_header(s: AssemblerView, raw: Seq<char>)
    requires
        s.step(raw) is Ok,
    ensures
        ({
            let t = s.step(raw)->Ok_0;
            &&& t.header.len() == s.header.len() + if is_declaration(raw) || is_labelled(raw) {
                1nat
            } else {
                0nat
            }
            &&& t.header.take(s.header.len() as int) == s.header
            &&& declared_name(raw) matches Some(name) ==> t.header.len() == s.header.len() + 1
                && t.header.last().name() == name
        }),
{
    let t = s.step(raw)->Ok_0;
    match classified(raw) {
        LineView::Bare { code } => {
            let toks = tokens(code);
            if toks.len() > 0 {
                if let Some(op) = OpCodes::named(toks[0]) {
                    lemma_tables_disjoint(op, PseudoOps::EXTERN);
                }
            }
        },
        _ => {},
    }
    assert(t.header.take(s.header.len() as int) =~= s.header);
}

/// The header of a source that is read without error has one entry for each
/// declaration and one for each labelled statement.
pub proof fn law_header_count(lines: Seq<Seq<char>>)
    requires
        run(lines) is Ok,
    ensures
        run(lines)->Ok_0.header.len() == declarations(lines) + labels(lines),
    decreases lines.len(),
{
    if lines.len() > 0 {
        lemma_run_last(lines);
        law_header_count(lines.drop_last());
        lemma_step_header(run(lines.drop_last())->Ok_0, lines.last());
    } else {
        lemma_run_none();
        assert(lines =~= Seq::empty());
    }
}

/// Where a source without labelled statements is assembled, the image has
/// exactly as many header entries as the source has declarations: text
/// directives, word-list directives and `EXTERN` statements.
pub proof fn law_header_counts_declarations(source: Seq<char>)
    requires
        parsed(source) is Ok,
        labels(lines_of(source)) == 0,
    ensures
        parsed(source)->Ok_0.header.len() == declarations(lines_of(source)),
        parsed(source)->Ok_0.lines()[0] == decimal(declarations(lines_of(source))),
{
    law_header_count(lines_of(source));
}

/// What one line does to the distance between the next line and the
/// body-start offset, measured against the number of instructions: `BEGIN`
/// starts both at 0, a blank line of the body adds one to the distance alone,
/// and any other line of the body adds the same to both.
pub proof fn lemma_step_distance(s: AssemblerView, raw: Seq<char>)
    requires
        s.wf(),
        s.step(raw) is Ok,
    ensures
        ({
            let t = s.step(raw)->Ok_0;
            &&& t.phase is PreBody ==> s.phase is PreBody
            &&& s.phase is PreBody && t.phase is InBody ==> t.line == t.origin && t.body.len() == 0
            &&& s.phase is InBody && t.phase is InBody ==> t.line - t.origin - t.body.len() == s.line
                - s.origin - s.body.len() + if is_blank(raw) {
                1int
            } else {
                0int
            }
            &&& t.phase is InBody ==> !(s.phase is Terminated)
        }),
{
    let toks = statement_tokens(raw);
    if !is_blank(raw) {
        lemma_code_has_token(raw);
    }
    if toks.len() > 0 && !(s.phase is Terminated) {
        match classified(raw) {
            LineView::Labelled { rest, .. } => {
                lemma_tokens_solid(rest);
                lemma_statement_wf(toks, true, true, s.number());
            },
            LineView::Bare { code } => {
                lemma_tokens_solid(code);
                lemma_statement_wf(toks, s.phase is InBody, false, s.number());
            },
            _ => {},
        }
    }
}

/// In the body, the distance of the next line from the body-start offset is
/// the number of instructions so far plus the number of blank lines of the
/// body so far. Before the body there are no blank lines of the body.
pub proof fn lemma_distance(lines: Seq<Seq<char>>)
    requires
        run(lines) is Ok,
    ensures
        ({
            let s = run(lines)->Ok_0;
            &&& s.phase is PreBody ==> blanks_in_body(lines) == 0
            &&& s.phase is InBody ==> s.line - s.origin == s.body.len() + blanks_in_body(lines)
        }),
    decreases lines.len(),
{
    if lines.len() > 0 {
        lemma_run_last(lines);
        lemma_distance(lines.drop_last());
        lemma_run_wf(lines.drop_last());
        lemma_step_distance(run(lines.drop_last())->Ok_0, lines.last());
    } else {
        lemma_run_none();
        assert(lines =~= Seq::empty());
    }
}

/// The offset of a label is the number of instructions that stand before it
/// in the body, plus the number of blank lines that stand before it in the
/// body.
///
/// `lines[k]` is a labelled statement, and the lines up to it are read
/// without error: then the entry that it adds to the header is its label with
/// that offset.
pub proof fn law_label_offset(lines: Seq<Seq<char>>, k: int)
    requires
        0 <= k < lines.len(),
        is_labelled(lines[k]),
        run(lines.take(k + 1)) is Ok,
    ensures
        ({
            let s = run(lines.take(k))->Ok_0;
            let t = run(lines.take(k + 1))->Ok_0;
            &&& run(lines.take(k)) is Ok
            &&& s.body.len() + blanks_in_body(lines.take(k)) < u32::MAX
            &&& t.header == s.header.push(
                HeaderEntryView::Offset {
                    name: defined_label(lines[k]).unwrap(),
                    offset: (s.body.len() + blanks_in_body(lines.take(k))) as u32,
                },
            )
        }),
{
    lemma_run_next(lines, k);
    lemma_distance(lines.take(k));
    let s = run(lines.take(k))->Ok_0;
    let t = run(lines.take(k + 1))->Ok_0;
    lemma_step_header(s, lines[k]);
    assert(t.header =~= s.header.push(t.header.last()));
}

/// What one line does to the body: an instruction line of the body adds one
/// instruction, and any other line adds none.
pub proof fn lemma_step_body(s: AssemblerView, raw: Seq<char>)
    requires
        s.wf(),
        s.step(raw) is Ok,
    ensures
        s.step(raw)->Ok_0.body.len() == s.body.len() + if s.phase is InBody && holds_instruction(
            raw,
        ) {
            1nat
        } else {
            0nat
        },
{
    let toks = statement_tokens(raw);
    if toks.len() > 0 && !(s.phase is Terminated) {
        if let Some(op) = OpCodes::named(toks[0]) {
            lemma_tables_disjoint(op, PseudoOps::END);
        }
        match classified(raw) {
            LineView::Labelled { rest, .. } => {
                lemma_tokens_solid(rest);
                lemma_statement_wf(toks, true, true, s.number());
            },
            LineView::Bare { code } => {
                lemma_tokens_solid(code);
                lemma_statement_wf(toks, s.phase is InBody, false, s.number());
            },
            _ => {},
        }
    }
}

/// The body holds one instruction for each instruction line of the body.
pub proof fn lemma_instructions(lines: Seq<Seq<char>>)
    requires
        run(lines) is Ok,
    ensures
        run(lines)->Ok_0.body.len() == instructions(lines),
    decreases lines.len(),
{
    if lines.len() > 0 {
        lemma_run_last(lines);
        lemma_instructions(lines.drop_last());
        lemma_run_wf(lines.drop_last());
        lemma_step_body(run(lines.drop_last())->Ok_0, lines.last());
    } else {
        lemma_run_none();
        assert(lines =~= Seq::empty());
    }
}

/// The entry of a label in the image of a source.
///
/// Line `k` of the source is a labelled statement. Its entry stands in the
/// header behind one entry for each declaration and each labelled statement
/// above it. It holds the label, and as offset the number of instruction
/// lines of the body above it plus the number of blank lines of the body
/// above it.
pub proof fn law_label_entry(source: Seq<char>, k: int)
    requires
        parsed(source) is Ok,
        0 <= k < lines_of(source).len(),
        is_labelled(lines_of(source)[k]),
    ensures
        ({
            let lines = lines_of(source);
            let image = parsed(source)->Ok_0;
            let at = declarations(lines.take(k)) + labels(lines.take(k));
            let offset = instructions(lines.take(k)) + blanks_in_body(lines.take(k));
            &&& at < image.header.len()
            &&& offset < OFFSET_LIMIT
            &&& image.header[at as int] == HeaderEntryView::Offset {
                name: defined_label(lines[k]).unwrap(),
                offset: offset as u32,
            }
        }),
{
    let lines = lines_of(source);
    let image = parsed(source)->Ok_0;
    assert(lines.take(lines.len() as int) =~= lines);
    lemma_header_grows(lines, k + 1, lines.len() as int);
    lemma_run_next(lines, k);
    law_label_offset(lines, k);
    law_header_count(lines.take(k));
    lemma_instructions(lines.take(k));
    lemma_run_wf(lines.take(k + 1));
    let s = run(lines.take(k))->Ok_0;
    let t = run(lines.take(k + 1))->Ok_0;
    let at = s.header.len() as int;
    assert(t.header[at] == image.header.take(t.header.len() as int)[at]);
    assert(t.image().header[at].wf());
}

/// In a body without blank lines, the offset of a label is the number of
/// instruction lines that stand above it in the body: a label marks the
/// instruction that comes next, counted from 0.
pub proof fn law_label_offset_counts_instructions(source: Seq<char>, k: int)
    requires
        parsed(source) is Ok,
        0 <= k < lines_of(source).len(),
        is_labelled(lines_of(source)[k]),
        blanks_in_body(lines_of(source).take(k)) == 0,
    ensures
        ({
            let lines = lines_of(source);
            let image = parsed(source)->Ok_0;
            let at = declarations(lines.take(k)) + labels(lines.take(k));
            &&& at < image.header.len()
            &&& image.header[at as int] == HeaderEntryView::Offset {
                name: defined_label(lines[k]).unwrap(),
                offset: instructions(lines.take(k)) as u32,
            }
        }),
{
    law_label_entry(source, k);
}

/// The entries of the header stay where they are: what the header holds
/// after `a` lines, it holds after `b` lines for every later `b`.
pub proof fn lemma_header_grows(lines: Seq<Seq<char>>, a: int, b: int)
    requires
        0 <= a <= b <= lines.len(),
        run(lines.take(b)) is Ok,
    ensures
        run(lines.take(a)) is Ok,
        run(lines.take(a))->Ok_0.header.len() <= run(lines.take(b))->Ok_0.header.len(),
        run(lines.take(b))->Ok_0.header.take(run(lines.take(a))->Ok_0.header.len() as int) == run(
            lines.take(a),
        )->Ok_0.header,
    decreases b - a,
{
    if a == b {
        let h = run(lines.take(a))->Ok_0.header;
        assert(h.take(h.len() as int) =~= h);
    } else {
        lemma_run_next(lines, b - 1);
        lemma_header_grows(lines, a, b - 1);
        let sa = run(lines.take(a))->Ok_0;
        let sm = run(lines.take(b - 1))->Ok_0;
        let sb = run(lines.take(b))->Ok_0;
        lemma_step_header(sm, lines[b - 1]);
        assert(sb.header.take(sa.header.len() as int) =~= sm.header.take(sa.header.len() as int));
    }
}

/// A line that defines a label which the header already declares is an
/// error.
pub proof fn lemma_step_redefinition(s: AssemblerView, raw: Seq<char>, name: Seq<char>)
    requires
        defined_label(raw) == Some(name),
        declares(s.header, name),
    ensures
        s.step(raw) is Err,
{
}

/// A source that defines a label whose name an earlier line has brought into
/// the header is rejected, whatever the two lines are: the earlier one a text
/// directive, a word-list directive, an `EXTERN` statement or a labelled
/// statement, the later one any of these but an `EXTERN` statement.
pub proof fn law_redefinition_rejected(source: Seq<char>, i: int, j: int, name: Seq<char>)
    requires
        0 <= i < j < lines_of(source).len(),
        declared_name(lines_of(source)[i]) == Some(name),
        defined_label(lines_of(source)[j]) == Some(name),
    ensures
        parsed(source) is Err,
        assembled(source) is Err,
{
    let lines = lines_of(source);
    if run(lines) is Ok {
        lemma_run_prefix(lines, j + 1);
        lemma_run_next(lines, j);
        lemma_header_grows(lines, i + 1, j);
        lemma_run_next(lines, i);
        let si = run(lines.take(i))->Ok_0;
        let sn = run(lines.take(i + 1))->Ok_0;
        let sj = run(lines.take(j))->Ok_0;
        lemma_step_header(si, lines[i]);
        let at = sn.header.len() - 1;
        assert(sj.header.take(sn.header.len() as int)[at] == sj.header[at]);
        assert(sj.header[at].name() == name);
        lemma_step_redefinition(sj, lines[j], name);
    }
}

/// A line that is no `END` statement does not end the program.
pub proof fn lemma_step_not_end(s: AssemblerView, raw: Seq<char>)
    requires
        !(s.phase is Terminated),
        !is_end(raw),
    ensures
        s.step(raw) matches Ok(t) ==> !(t.phase is Terminated),
{
}

/// Without an `END` statement the program is never complete.
pub proof fn lemma_run_not_end(lines: Seq<Seq<char>>)
    requires
        forall|k: int| 0 <= k < lines.len() ==> !is_end(#[trigger] lines[k]),
    ensures
        run(lines) matches Ok(s) ==> !(s.phase is Terminated),
    decreases lines.len(),
{
    if lines.len() > 0 {
        let before = lines.drop_last();
        assert forall|k: int| 0 <= k < before.len() implies !is_end(#[trigger] before[k]) by {
            assert(before[k] == lines[k]);
        }
        lemma_run_last(lines);
        lemma_run_not_end(before);
        if let Ok(s) = run(before) {
            lemma_step_not_end(s, lines.last());
        }
    } else {
        lemma_run_none();
        assert(lines =~= Seq::empty());
    }
}

/// A source without an `END` statement is rejected.
pub proof fn law_missing_end_rejected(source: Seq<char>)
    requires
        forall|k: int| 0 <= k < lines_of(source).len() ==> !is_end(#[trigger] lines_of(source)[k]),
    ensures
        parsed(source) is Err,
        assembled(source) is Err,
{
    lemma_run_not_end(lines_of(source));
}

/// An `END` statement that is read without error ends the program.
pub proof fn lemma_step_end(s: AssemblerView, raw: Seq<char>)
    requires
        is_end(raw),
    ensures
        s.step(raw) matches Ok(t) ==> t.phase is Terminated,
{
    let toks = statement_tokens(raw);
    if let Some(op) = OpCodes::named(toks[0]) {
        lemma_tables_disjoint(op, PseudoOps::END);
    }
}

/// After the end of the program, a line that is read without error leaves
/// the program ended.
pub proof fn lemma_step_after_end(s: AssemblerView, raw: Seq<char>)
    requires
        s.phase is Terminated,
    ensures
        s.step(raw) matches Ok(t) ==> t.phase is Terminated && is_blank(raw),
{
}

/// Once the program has ended, it stays ended as long as lines are read
/// without error.
pub proof fn lemma_stays_ended(lines: Seq<Seq<char>>, a: int, b: int)
    requires
        0 <= a <= b <= lines.len(),
        run(lines.take(a)) matches Ok(s) && s.phase is Terminated,
    ensures
        run(lines.take(b)) matches Ok(s) ==> s.phase is Terminated,
    decreases b - a,
{
    if a < b {
        lemma_run_next(lines, b - 1);
        lemma_stays_ended(lines, a, b - 1);
        if let Ok(s) = run(lines.take(b - 1)) {
            lemma_step_after_end(s, lines[b - 1]);
        }
    }
}

/// A source with a line that is not blank after an `END` statement is
/// rejected.
pub proof fn law_content_after_end_rejected(source: Seq<char>, k: int, j: int)
    requires
        0 <= k < j < lines_of(source).len(),
        is_end(lines_of(source)[k]),
        !is_blank(lines_of(source)[j]),
    ensures
        parsed(source) is Err,
        assembled(source) is Err,
{
    let lines = lines_of(source);
    if run(lines) is Ok {
        lemma_run_prefix(lines, j + 1);
        lemma_run_prefix(lines, k + 1);
        lemma_run_prefix(lines, k);
        lemma_run_next(lines, k);
        lemma_step_end(run(lines.take(k))->Ok_0, lines[k]);
        lemma_stays_ended(lines, k + 1, j);
        lemma_run_next(lines, j);
        lemma_step_after_end(run(lines.take(j))->Ok_0, lines[j]);
    }
}

/// The code of a line without line feed holds no line feed.
pub proof fn lemma_code_free(raw: Seq<char>)
    requires
        free_of(raw, '\n'),
    ensures
        free_of(code_of(raw), '\n'),
{
    match cut(raw, COMMENT_MARK@) {
        Some((before, _)) => {
            assert forall|i: int| 0 <= i < before.len() implies #[trigger] before[i] != '\n' by {
                assert(before[i] == raw[i]);
            }
            lemma_trimmed_free(before, '\n');
            lemma_trimmed_free(trimmed_start(before), '\n');
        },
        None => {
            lemma_trimmed_free(raw, '\n');
            lemma_trimmed_free(trimmed_start(raw), '\n');
        },
    }
}

/// Reading a line without line feed brings no line feed into a text
/// constant.
pub proof fn lemma_step_texts(s: AssemblerView, raw: Seq<char>)
    requires
        free_of(raw, '\n'),
        s.image().texts_free(),
        s.step(raw) is Ok,
    ensures
        s.step(raw)->Ok_0.image().texts_free(),
{
    let t = s.step(raw)->Ok_0;
    lemma_step_header(s, raw);
    lemma_code_free(raw);
    let code = code_of(raw);
    assert forall|i: int| 0 <= i < t.header.len() implies (#[trigger] t.header[i]).text_free() by {
        if i < s.header.len() {
            assert(t.header.take(s.header.len() as int)[i] == t.header[i]);
            assert(s.image().header[i].text_free());
        } else if let LineView::Text { before, rest } = classified(raw) {
            let payload = trimmed_start(rest);
            assert forall|k: int| 0 <= k < rest.len() implies #[trigger] rest[k] != '\n' by {
                assert(rest[k] == code[k + (code.len() - rest.len())]);
            }
            lemma_trimmed_free(rest, '\n');
            let text = unquoted(payload);
            assert forall|k: int| 0 <= k < text.len() implies #[trigger] text[k] != '\n' by {
                if payload[0] == '"' {
                    assert(text[k] == payload[k + 1]);
                } else {
                    assert(text[k] == payload[k]);
                }
            }
            assert(t.header[i] == HeaderEntryView::Text {
                name: defined_label(raw).unwrap(),
                text,
            });
        }
    }
}

/// Reading lines without line feed leaves text constants without line feed.
pub proof fn lemma_run_texts(lines: Seq<Seq<char>>)
    requires
        forall|k: int| 0 <= k < lines.len() ==> free_of(#[trigger] lines[k], '\n'),
        run(lines) is Ok,
    ensures
        run(lines)->Ok_0.image().texts_free(),
    decreases lines.len(),
{
    if lines.len() > 0 {
        let before = lines.drop_last();
        assert forall|k: int| 0 <= k < before.len() implies free_of(#[trigger] before[k], '\n') by {
            assert(before[k] == lines[k]);
        }
        lemma_run_last(lines);
        lemma_run_texts(before);
        lemma_step_texts(run(before)->Ok_0, lines.last());
    } else {
        lemma_run_none();
        assert(lines =~= Seq::empty());
    }
}

/// The layout of an image as text: its first line is the number of header
/// entries, the lines after it are the header entries, one each, and the
/// lines after those are the instructions, one each. This holds of every
/// well-formed image whose text constants hold no line feed.
pub proof fn law_image_layout(image: ImageView)
    requires
        image.wf(),
        image.texts_free(),
    ensures
        lines_of(image.text()) == image.lines(),
        image.lines().len() == 1 + image.header.len() + image.body.len(),
        image.lines()[0] == decimal(image.header.len()),
        forall|i: int|
            0 <= i < image.header.len() ==> image.lines()[1 + i] == (
            #[trigger] image.header[i]).line(),
        forall|i: int|
            0 <= i < image.body.len() ==> image.lines()[1 + image.header.len() + i] == (
            #[trigger] image.body[i]).line(),
{
    image.lemma_lines_free();
    lemma_pieces_stacked(image.lines());
    let parts = pieces(image.text(), '\n');
    assert(parts.drop_last() =~= image.lines());
}

/// The text of every image that the assembler makes has that layout.
pub proof fn law_assembled_layout(source: Seq<char>)
    requires
        parsed(source) is Ok,
    ensures
        lines_of(parsed(source)->Ok_0.text()) == parsed(source)->Ok_0.lines(),
{
    let lines = lines_of(source);
    lemma_pieces_free(source, '\n');
    assert forall|k: int| 0 <= k < lines.len() implies free_of(#[trigger] lines[k], '\n') by {
        assert(lines[k] == pieces(source, '\n')[k]);
    }
    lemma_run_texts(lines);
    lemma_run_wf(lines);
    law_image_layout(parsed(source)->Ok_0);
}

/// What `IRQ` with a type and at most one more token means in the body: the
/// types 0 and 4 stand alone, the types 1, 2 and 3 take the token after them
/// as their argument, and a type above 4 is an error whatever follows. The
/// instruction holds the type as a number.
pub proof fn law_interrupt(toks: Seq<Seq<char>>, labelled: bool, line: nat, kind: nat)
    requires
        toks.len() == 2 || toks.len() == 3,
        toks[0] == OpCodes::IRQ.spelling(),
        decimal_u8(toks[1]) == Some(kind),
    ensures
        statement(toks, true, labelled, line) is Ok <==> (toks.len() == 2 && (kind == 0 || kind
            == 4)) || (toks.len() == 3 && 1 <= kind <= 3),
        statement(toks, true, labelled, line) matches Ok(st) ==> st == StatementView::Emit(
            InstructionView::Irq {
                kind: kind as u8,
                operand: if toks.len() == 3 {
                    Some(toks[2])
                } else {
                    None
                },
            },
        ),
        kind > 4 ==> statement(toks, true, labelled, line) == Err::<StatementView, AsmErrorView>(
            fault_at(ErrorKind::UnknownIrqType, line, toks[1]),
        ),
{
    OpCodes::lemma_named_spelling(OpCodes::IRQ);
}

/// `SET` with a binary literal becomes the interrupt 3 with the literal as
/// it is written, and the image holds it as `IRQ 3` and the literal.
pub proof fn law_set(toks: Seq<Seq<char>>, labelled: bool, line: nat)
    requires
        toks.len() == 2,
        toks[0] == PseudoOps::SET.spelling(),
        binary_u32(toks[1]) is Some,
    ensures
        statement(toks, true, labelled, line) == Ok::<StatementView, AsmErrorView>(
            StatementView::Emit(InstructionView::Irq { kind: 3, operand: Some(toks[1]) }),
        ),
        (InstructionView::Irq { kind: 3, operand: Some(toks[1]) }).line()
            == OpCodes::IRQ.spelling() + seq![' ', '3', ' '] + toks[1],
{
    PseudoOps::lemma_named_spelling(PseudoOps::SET);
    if let Some(op) = OpCodes::named(toks[0]) {
        lemma_tables_disjoint(op, PseudoOps::SET);
    }
    let written = (InstructionView::Irq { kind: 3, operand: Some(toks[1]) }).line();
    assert(written =~= OpCodes::IRQ.spelling() + seq![' ', '3', ' '] + toks[1]);
}

/// `PRINT` and `READ` with an argument become the interrupts 1 and 2 with
/// that argument.
pub proof fn law_print_read(toks: Seq<Seq<char>>, labelled: bool, line: nat, p: PseudoOps)
    requires
        toks.len() == 2,
        p == PseudoOps::PRINT || p == PseudoOps::READ,
        toks[0] == p.spelling(),
    ensures
        statement(toks, true, labelled, line) == Ok::<StatementView, AsmErrorView>(
            StatementView::Emit(
                InstructionView::Irq {
                    kind: if p == PseudoOps::PRINT {
                        1u8
                    } else {
                        2u8
                    },
                    operand: Some(toks[1]),
                },
            ),
        ),
{
    PseudoOps::lemma_named_spelling(p);
    if let Some(op) = OpCodes::named(toks[0]) {
        lemma_tables_disjoint(op, p);
    }
}

} // verus!
