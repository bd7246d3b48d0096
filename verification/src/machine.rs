//! The assembler as a state machine: it reads the source one line at a
//! time, and each line either adds to the header, adds to the body, moves the
//! machine to its next phase, or ends the attempt with an error.

use crate::chars::contains_whitespace;
use crate::chars::equal;
use crate::chars::has_space;
use crate::chars::is_space;
use crate::chars::is_whitespace;
use crate::chars::lemma_pieces_nonempty;
use crate::chars::lemma_tokens_solid;
use crate::chars::lemma_views_push;
use crate::chars::pieces;
use crate::chars::split;
use crate::chars::split_whitespace;
use crate::chars::tokens;
use crate::chars::trim;
use crate::chars::trim_end;
use crate::chars::trim_start;
use crate::chars::trimmed;
use crate::chars::trimmed_end;
use crate::chars::trimmed_start;
use crate::chars::views;
use crate::error::fault;
use crate::error::fault_at;
use crate::error::AsmError;
use crate::error::AsmErrorView;
use crate::error::ErrorKind;
use crate::image::entry_views;
use crate::image::instruction_views;
use crate::image::lemma_entry_views_push;
use crate::image::lemma_instruction_views_push;
use crate::image::lemma_push_entry_wf;
use crate::image::lemma_push_instruction_wf;
use crate::image::taken;
use crate::image::HeaderEntry;
use crate::image::HeaderEntryView;
use crate::image::Image;
use crate::image::ImageView;
use crate::image::Instruction;
use crate::image::InstructionView;
use crate::image::OFFSET_LIMIT;
use crate::line::classified;
use crate::line::classify;
use crate::line::Line;
use crate::line::LineView;
use crate::number::decimal_u32;
use crate::number::parse_u32;
use crate::statement::lemma_statement_wf;
use crate::statement::parse_statement;
use crate::statement::statement;
use crate::statement::Statement;
use crate::statement::StatementView;
use vstd::prelude::*;
use vstd::slice::slice_subrange;
use vstd::slice::slice_to_vec;

verus! {

/// Where in the source the assembler is.
#[derive(Clone, Copy, Debug, PartialEq, Eq, Hash, Structural)]
pub enum Phase {
    /// Before `BEGIN`: declarations only.
    PreBody,
    /// After `BEGIN` and before `END`: labels and instructions.
    InBody,
    /// After `END`: nothing but blank lines.
    Terminated,
}

/// The state of an assembly attempt between two lines.
#[derive(Clone, Debug, PartialEq, Eq)]
pub struct Assembler {
    phase: Phase,
    line: usize,
    origin: usize,
    header: Vec<HeaderEntry>,
    body: Vec<Instruction>,
}

/// The state of an assembly attempt as a mathematical value.
pub ghost struct AssemblerView {
    /// The phase that the next line is read in.
    pub phase: Phase,
    /// How many lines have been read.
    pub line: nat,
    /// The body-start offset: the index, counted from 0, of the source line
    /// that has offset 0. `BEGIN` sets it to the line after itself, and every
    /// line that holds a label and nothing else moves it on by one, so that
    /// such a line takes up no offset.
    pub origin: nat,
    /// The header entries so far.
    pub header: Seq<HeaderEntryView>,
    /// The instructions so far.
    pub body: Seq<InstructionView>,
}

impl View for Assembler {
    type V = AssemblerView;

    closed spec fn view(&self) -> AssemblerView {
        AssemblerView {
            phase: self.phase,
            line: self.line as nat,
            origin: self.origin as nat,
            header: entry_views(self.header@),
            body: instruction_views(self.body@),
        }
    }
}

/// The label of a directive, given what stands before the directive's mark:
/// that must end in a colon, and the label is what stands before the colon,
/// without trailing whitespace.
pub open spec fn directive_label(before: Seq<char>) -> Option<Seq<char>> {
    let b = trimmed_end(before);
    if b.len() > 0 && b.last() == ':' {
        Some(trimmed_end(b.drop_last()))
    } else {
        None
    }
}

/// A text payload without the quotation mark that opens it and the one that
/// closes it, where it has them.
pub open spec fn unquoted(payload: Seq<char>) -> Seq<char> {
    let opened = if payload.len() > 0 && payload[0] == '"' {
        payload.drop_first()
    } else {
        payload
    };
    if opened.len() > 0 && opened.last() == '"' {
        opened.drop_last()
    } else {
        opened
    }
}

/// The items of a word list: what stands between the commas, each without
/// the whitespace around it.
pub open spec fn word_items(list: Seq<char>) -> Seq<Seq<char>> {
    let parts = pieces(list, ',');
    Seq::new(parts.len(), |i: int| trimmed(parts[i]))
}

/// Whether `items[i]` is the first item that is no 32-bit decimal literal.
pub open spec fn is_first_bad(items: Seq<Seq<char>>, i: int) -> bool {
    &&& 0 <= i < items.len()
    &&& decimal_u32(items[i]) is None
    &&& forall|j: int| 0 <= j < i ==> (#[trigger] decimal_u32(items[j])) is Some
}

/// The index of the first item that is no 32-bit decimal literal, if there is
/// such an item.
pub open spec fn first_bad(items: Seq<Seq<char>>) -> Option<int> {
    if exists|i: int| is_first_bad(items, i) {
        Some(choose|i: int| is_first_bad(items, i))
    } else {
        None
    }
}

impl AssemblerView {
    /// The state before the first line.
    pub open spec fn initial() -> AssemblerView {
        AssemblerView {
            phase: Phase::PreBody,
            line: 0,
            origin: 0,
            header: Seq::empty(),
            body: Seq::empty(),
        }
    }

    /// The image that the header and the body make up.
    pub open spec fn image(self) -> ImageView {
        ImageView { header: self.header, body: self.body }
    }

    /// Whether the state is one that reading lines can lead to.
    pub open spec fn wf(self) -> bool {
        &&& self.phase is PreBody ==> self.body.len() == 0
        &&& !(self.phase is PreBody) ==> self.origin <= self.line
        &&& self.image().wf()
    }

    /// The number, counted from 1, of the line that is read next.
    pub open spec fn number(self) -> nat {
        self.line + 1
    }

    /// The state after a line that changes nothing.
    pub open spec fn advanced(self) -> AssemblerView {
        AssemblerView { line: self.line + 1, ..self }
    }

    /// The state after a line that holds the statement `st`.
    pub open spec fn apply(self, st: StatementView) -> Result<AssemblerView, AsmErrorView> {
        match st {
            StatementView::Begin => if self.line + 1 > u32::MAX {
                Err(fault(ErrorKind::FileTooBig, self.number()))
            } else {
                Ok(AssemblerView { phase: Phase::InBody, origin: self.line + 1, ..self.advanced() })
            },
            StatementView::End => Ok(AssemblerView { phase: Phase::Terminated, ..self.advanced() }),
            StatementView::Declare { name } => Ok(
                AssemblerView {
                    header: self.header.push(HeaderEntryView::External { name }),
                    ..self.advanced()
                },
            ),
            StatementView::Emit(i) => Ok(
                AssemblerView { body: self.body.push(i), ..self.advanced() },
            ),
        }
    }

    /// The label of a directive whose mark has `before` in front of it, or
    /// the reason why the line cannot define one. `missing` is the kind of
    /// error for a line without a label.
    pub open spec fn new_label(self, before: Seq<char>, missing: ErrorKind) -> Result<
        Seq<char>,
        AsmErrorView,
    > {
        match directive_label(before) {
            None => Err(fault(missing, self.number())),
            Some(name) => if has_space(name) {
                Err(fault_at(ErrorKind::WhitespaceInLabel, self.number(), name))
            } else if taken(self.header, name) {
                Err(fault_at(ErrorKind::LabelRedefined, self.number(), name))
            } else {
                Ok(name)
            },
        }
    }

    /// The state after a text directive: `before` stands in front of the
    /// mark and `rest` behind it.
    pub open spec fn text_directive(self, before: Seq<char>, rest: Seq<char>) -> Result<
        AssemblerView,
        AsmErrorView,
    > {
        if !(self.phase is PreBody) {
            Err(fault(ErrorKind::TextAfterBegin, self.number()))
        } else {
            match self.new_label(before, ErrorKind::TextWithoutLabel) {
                Err(e) => Err(e),
                Ok(name) => if !(rest.len() > 0 && is_space(rest[0])) {
                    Err(fault(ErrorKind::TextWithoutWhitespace, self.number()))
                } else {
                    Ok(
                        AssemblerView {
                            header: self.header.push(
                                HeaderEntryView::Text {
                                    name,
                                    text: unquoted(trimmed_start(rest)),
                                },
                            ),
                            ..self.advanced()
                        },
                    )
                },
            }
        }
    }

    /// The state after a word-list directive: `before` stands in front of
    /// the mark and `rest` behind it.
    pub open spec fn word_directive(self, before: Seq<char>, rest: Seq<char>) -> Result<
        AssemblerView,
        AsmErrorView,
    > {
        if !(self.phase is PreBody) {
            Err(fault(ErrorKind::WordAfterBegin, self.number()))
        } else {
            match self.new_label(before, ErrorKind::WordWithoutLabel) {
                Err(e) => Err(e),
                Ok(name) => if !(rest.len() > 0 && is_space(rest[0])) {
                    Err(fault(ErrorKind::WordWithoutWhitespace, self.number()))
                } else {
                    match first_bad(word_items(rest)) {
                        Some(i) => Err(
                            fault_at(ErrorKind::BadWord, self.number(), word_items(rest)[i]),
                        ),
                        None => Ok(
                            AssemblerView {
                                header: self.header.push(
                                    HeaderEntryView::Words { name, words: word_items(rest) },
                                ),
                                ..self.advanced()
                            },
                        ),
                    }
                },
            }
        }
    }

    /// The state after a labelled line: `before` stands in front of the
    /// first colon and `rest` behind it.
    ///
    /// The label goes into the header with the offset of the line, which is
    /// the distance of the line from the body-start offset. What follows the
    /// label is read as a statement; where nothing follows, the body-start
    /// offset moves on by one.
    pub open spec fn labelled(self, before: Seq<char>, rest: Seq<char>) -> Result<
        AssemblerView,
        AsmErrorView,
    > {
        let name = trimmed_end(before);
        if self.phase is PreBody {
            Err(fault(ErrorKind::LabelBeforeBegin, self.number()))
        } else if has_space(name) {
            Err(fault_at(ErrorKind::WhitespaceInLabel, self.number(), name))
        } else if taken(self.header, name) {
            Err(fault_at(ErrorKind::LabelPreviouslyDefined, self.number(), name))
        } else if self.line - self.origin >= OFFSET_LIMIT {
            Err(fault(ErrorKind::FileTooBig, self.number()))
        } else {
            let marked = AssemblerView {
                header: self.header.push(
                    HeaderEntryView::Offset { name, offset: (self.line - self.origin) as u32 },
                ),
                ..self
            };
            if tokens(rest).len() == 0 {
                Ok(AssemblerView { origin: self.origin + 1, ..marked.advanced() })
            } else {
                match statement(tokens(rest), true, true, self.number()) {
                    Err(e) => Err(e),
                    Ok(st) => marked.apply(st),
                }
            }
        }
    }

    /// The state after a line that is neither a directive nor labelled.
    pub open spec fn bare(self, code: Seq<char>) -> Result<AssemblerView, AsmErrorView> {
        if tokens(code).len() == 0 {
            Ok(self.advanced())
        } else {
            match statement(tokens(code), self.phase is InBody, false, self.number()) {
                Err(e) => Err(e),
                Ok(st) => self.apply(st),
            }
        }
    }

    /// The state after the source line `raw`, or the error that the line
    /// ends the attempt with.
    ///
    /// A blank line changes nothing. After `END` any other line is an error.
    /// Otherwise the shape of the line decides what it does.
    pub open spec fn step(self, raw: Seq<char>) -> Result<AssemblerView, AsmErrorView> {
        match classified(raw) {
            LineView::Blank => Ok(self.advanced()),
            line => if self.phase is Terminated {
                Err(fault(ErrorKind::ContentAfterEnd, self.number()))
            } else {
                match line {
                    LineView::Text { before, rest } => self.text_directive(before, rest),
                    LineView::Words { before, rest } => self.word_directive(before, rest),
                    LineView::Labelled { before, rest } => self.labelled(before, rest),
                    LineView::Bare { code } => self.bare(code),
                    LineView::Blank => Ok(self.advanced()),
                }
            },
        }
    }

    /// The image of a source that ends in this state: the source must have
    /// reached its `END`.
    pub open spec fn finished(self) -> Result<ImageView, AsmErrorView> {
        if self.phase is Terminated {
            Ok(self.image())
        } else {
            Err(fault(ErrorKind::MissingEnd, self.line))
        }
    }
}

/// Where no item is the first bad one, every item is a 32-bit decimal
/// literal.
pub proof fn lemma_no_bad_item(items: Seq<Seq<char>>, n: int)
    requires
        first_bad(items) is None,
        0 <= n <= items.len(),
    ensures
        forall|j: int| 0 <= j < n ==> (#[trigger] decimal_u32(items[j])) is Some,
    decreases n,
{
    if n > 0 {
        lemma_no_bad_item(items, n - 1);
        if decimal_u32(items[n - 1]) is None {
            assert(is_first_bad(items, n - 1));
        }
    }
}

/// A statement leads from a well-formed state to a well-formed state.
pub proof fn lemma_apply_wf(s: AssemblerView, st: StatementView)
    requires
        s.wf(),
        st.wf(s.phase is InBody),
        !(s.phase is Terminated),
    ensures
        s.apply(st) matches Ok(t) ==> t.wf(),
{
    match st {
        StatementView::Declare { name } => {
            lemma_push_entry_wf(s.image(), HeaderEntryView::External { name });
        },
        StatementView::Emit(i) => {
            lemma_push_instruction_wf(s.image(), i);
        },
        _ => {},
    }
}

/// Reading a line leads from a well-formed state to a well-formed state,
/// which has read one line more.
pub proof fn lemma_step_wf(s: AssemblerView, raw: Seq<char>)
    requires
        s.wf(),
    ensures
        s.step(raw) matches Ok(t) ==> t.wf() && t.line == s.line + 1,
{
    if s.phase is Terminated {
        return ;
    }
    match classified(raw) {
        LineView::Blank => {},
        LineView::Text { before, rest } => {
            if let Ok(name) = s.new_label(before, ErrorKind::TextWithoutLabel) {
                lemma_push_entry_wf(
                    s.image(),
                    HeaderEntryView::Text { name, text: unquoted(trimmed_start(rest)) },
                );
            }
        },
        LineView::Words { before, rest } => {
            if let Ok(name) = s.new_label(before, ErrorKind::WordWithoutLabel) {
                let items = word_items(rest);
                if first_bad(items) is None {
                    lemma_pieces_nonempty(rest, ',');
                    lemma_no_bad_item(items, items.len() as int);
                    lemma_push_entry_wf(s.image(), HeaderEntryView::Words { name, words: items });
                }
            }
        },
        LineView::Labelled { before, rest } => {
            if s.labelled(before, rest) is Ok {
                let entry = HeaderEntryView::Offset {
                    name: trimmed_end(before),
                    offset: (s.line - s.origin) as u32,
                };
                let marked = AssemblerView { header: s.header.push(entry), ..s };
                lemma_push_entry_wf(s.image(), entry);
                let toks = tokens(rest);
                if toks.len() > 0 {
                    lemma_tokens_solid(rest);
                    lemma_statement_wf(toks, true, true, s.number());
                    lemma_apply_wf(marked, statement(toks, true, true, s.number())->Ok_0);
                }
            }
        },
        LineView::Bare { code } => {
            let toks = tokens(code);
            if toks.len() > 0 {
                lemma_tokens_solid(code);
                lemma_statement_wf(toks, s.phase is InBody, false, s.number());
                if let Ok(st) = statement(toks, s.phase is InBody, false, s.number()) {
                    lemma_apply_wf(s, st);
                }
            }
        },
    }
}

/// Whether `r` is the result `model`, seen as mathematical values.
pub open spec fn state_is(
    r: Result<Assembler, AsmError>,
    model: Result<AssemblerView, AsmErrorView>,
) -> bool {
    match r {
        Ok(s) => model == Ok::<AssemblerView, AsmErrorView>(s@),
        Err(e) => model == Err::<AssemblerView, AsmErrorView>(e@),
    }
}

/// A text payload without its quotation marks.
pub fn unquote(payload: &[char]) -> (r: &[char])
    ensures
        r@ == unquoted(payload@),
{
    let opened = if payload.len() > 0 && payload[0] == '"' {
        slice_subrange(payload, 1, payload.len())
    } else {
        payload
    };
    if opened.len() > 0 && opened[opened.len() - 1] == '"' {
        slice_subrange(opened, 0, opened.len() - 1)
    } else {
        opened
    }
}

/// The label of a directive, given what stands before the directive's mark.
pub fn label_before(before: &[char]) -> (r: Option<&[char]>)
    ensures
        match r {
            Some(name) => directive_label(before@) == Some(name@),
            None => directive_label(before@) is None,
        },
{
    let b = trim_end(before);
    if b.len() > 0 && b[b.len() - 1] == ':' {
        Some(trim_end(slice_subrange(b, 0, b.len() - 1)))
    } else {
        None
    }
}

/// The items of a word list, or the first item that is no 32-bit decimal
/// literal.
pub fn parse_words(list: &[char]) -> (r: Result<Vec<Vec<char>>, Vec<char>>)
    ensures
        match r {
            Ok(words) => first_bad(word_items(list@)) is None && views(words@) == word_items(
                list@,
            ),
            Err(bad) => first_bad(word_items(list@)) matches Some(i) && bad@ == word_items(
                list@,
            )[i],
        },
{
    let parts = split(list, ',');
    let ghost items = word_items(list@);
    let mut words: Vec<Vec<char>> = Vec::new();
    let mut i: usize = 0;
    assert(views(words@) =~= items.take(0));
    while i < parts.len()
        invariant
            i <= parts.len(),
            views(parts@) == pieces(list@, ','),
            items == word_items(list@),
            views(words@) == items.take(i as int),
            forall|j: int| 0 <= j < i ==> (#[trigger] decimal_u32(items[j])) is Some,
        decreases parts.len() - i,
    {
        let item = trim(parts[i].as_slice());
        assert(item@ == items[i as int]) by {
            assert(views(parts@)[i as int] == parts@[i as int]@);
        }
        if parse_u32(item).is_none() {
            proof {
                assert(is_first_bad(items, i as int));
                let k = choose|k: int| is_first_bad(items, k);
                if k < i {
                    assert(decimal_u32(items[k]) is Some);
                }
                if i < k {
                    assert(decimal_u32(items[i as int]) is Some);
                }
            }
            return Err(slice_to_vec(item));
        }
        let word = slice_to_vec(item);
        proof {
            lemma_views_push(words@, word);
            assert(items.take(i as int).push(item@) =~= items.take(i + 1));
        }
        words.push(word);
        i += 1;
    }
    proof {
        assert(items.take(parts.len() as int) =~= items);
        assert forall|k: int| !is_first_bad(items, k) by {
            if 0 <= k < items.len() {
                assert(decimal_u32(items[k]) is Some);
            }
        }
    }
    Ok(words)
}

impl Assembler {
    /// The state before the first line.
    pub fn new() -> (r: Assembler)
        ensures
            r@ == AssemblerView::initial(),
            r@.wf(),
    {
        let r = Assembler {
            phase: Phase::PreBody,
            line: 0,
            origin: 0,
            header: Vec::new(),
            body: Vec::new(),
        };
        assert(r@.header =~= Seq::empty());
        assert(r@.body =~= Seq::empty());
        r
    }

    /// The phase that the next line is read in.
    pub fn phase(&self) -> (r: Phase)
        ensures
            r == self@.phase,
    {
        self.phase
    }

    /// How many lines have been read.
    pub fn lines_read(&self) -> (r: usize)
        ensures
            r == self@.line,
    {
        self.line
    }

    /// The header entries so far.
    pub fn header(&self) -> (r: &Vec<HeaderEntry>)
        ensures
            entry_views(r@) == self@.header,
    {
        &self.header
    }

    /// The instructions so far.
    pub fn body(&self) -> (r: &Vec<Instruction>)
        ensures
            instruction_views(r@) == self@.body,
    {
        &self.body
    }

    /// Whether `name` cannot be given to a new label.
    pub fn is_taken(&self, name: &[char]) -> (r: bool)
        ensures
            r == taken(self@.header, name@),
    {
        if name.len() == 0 {
            return true;
        }
        let ghost header = entry_views(self.header@);
        let mut i: usize = 0;
        while i < self.header.len()
            invariant
                i <= self.header.len(),
                header == entry_views(self.header@),
                forall|j: int| 0 <= j < i ==> (#[trigger] header[j]).name() != name@,
            decreases self.header.len() - i,
        {
            if equal(self.header[i].name(), name) {
                assert(header[i as int].name() == name@);
                return true;
            }
            i += 1;
        }
        false
    }

    fn advance(self) -> (r: Assembler)
        requires
            self@.line < usize::MAX,
        ensures
            r@ == self@.advanced(),
    {
        Assembler {
            phase: self.phase,
            line: self.line + 1,
            origin: self.origin,
            header: self.header,
            body: self.body,
        }
    }

    fn push_entry(self, entry: HeaderEntry) -> (r: Assembler)
        ensures
            r@ == (AssemblerView { header: self@.header.push(entry@), ..self@ }),
    {
        let mut header = self.header;
        proof {
            lemma_entry_views_push(header@, entry);
        }
        header.push(entry);
        Assembler {
            phase: self.phase,
            line: self.line,
            origin: self.origin,
            header,
            body: self.body,
        }
    }

    fn apply(self, st: Statement) -> (r: Result<Assembler, AsmError>)
        requires
            self@.line < usize::MAX,
        ensures
            state_is(r, self@.apply(st@)),
    {
        let number = self.line + 1;
        match st {
            Statement::Begin => {
                if self.line >= u32::MAX as usize {
                    Err(AsmError::new(ErrorKind::FileTooBig, number))
                } else {
                    Ok(
                        Assembler {
                            phase: Phase::InBody,
                            line: number,
                            origin: number,
                            header: self.header,
                            body: self.body,
                        },
                    )
                }
            },
            Statement::End => Ok(
                Assembler {
                    phase: Phase::Terminated,
                    line: number,
                    origin: self.origin,
                    header: self.header,
                    body: self.body,
                },
            ),
            Statement::Declare { name } => Ok(
                self.push_entry(HeaderEntry::External { name }).advance(),
            ),
            Statement::Emit(i) => {
                let mut body = self.body;
                proof {
                    lemma_instruction_views_push(body@, i);
                }
                body.push(i);
                Ok(
                    Assembler {
                        phase: self.phase,
                        line: number,
                        origin: self.origin,
                        header: self.header,
                        body,
                    },
                )
            },
        }
    }

    fn new_label<'a>(&self, before: &'a [char], missing: ErrorKind) -> (r: Result<
        &'a [char],
        AsmError,
    >)
        requires
            self@.line < usize::MAX,
        ensures
            match r {
                Ok(name) => self@.new_label(before@, missing) == Ok::<Seq<char>, AsmErrorView>(
                    name@,
                ),
                Err(e) => self@.new_label(before@, missing) == Err::<Seq<char>, AsmErrorView>(e@),
            },
    {
        let number = self.line + 1;
        match label_before(before) {
            None => Err(AsmError::new(missing, number)),
            Some(name) => {
                if contains_whitespace(name) {
                    Err(AsmError::with_token(ErrorKind::WhitespaceInLabel, number, name))
                } else if self.is_taken(name) {
                    Err(AsmError::with_token(ErrorKind::LabelRedefined, number, name))
                } else {
                    Ok(name)
                }
            },
        }
    }

    fn text_directive(self, before: &[char], rest: &[char]) -> (r: Result<Assembler, AsmError>)
        requires
            self@.line < usize::MAX,
        ensures
            state_is(r, self@.text_directive(before@, rest@)),
    {
        let number = self.line + 1;
        if self.phase != Phase::PreBody {
            return Err(AsmError::new(ErrorKind::TextAfterBegin, number));
        }
        let name = match self.new_label(before, ErrorKind::TextWithoutLabel) {
            Err(e) => {
                return Err(e);
            },
            Ok(name) => name,
        };
        if !(rest.len() > 0 && is_whitespace(rest[0])) {
            return Err(AsmError::new(ErrorKind::TextWithoutWhitespace, number));
        }
        let entry = HeaderEntry::Text {
            name: slice_to_vec(name),
            text: slice_to_vec(unquote(trim_start(rest))),
        };
        Ok(self.push_entry(entry).advance())
    }

    fn word_directive(self, before: &[char], rest: &[char]) -> (r: Result<Assembler, AsmError>)
        requires
            self@.line < usize::MAX,
        ensures
            state_is(r, self@.word_directive(before@, rest@)),
    {
        let number = self.line + 1;
        if self.phase != Phase::PreBody {
            return Err(AsmError::new(ErrorKind::WordAfterBegin, number));
        }
        let name = match self.new_label(before, ErrorKind::WordWithoutLabel) {
            Err(e) => {
                return Err(e);
            },
            Ok(name) => name,
        };
        if !(rest.len() > 0 && is_whitespace(rest[0])) {
            return Err(AsmError::new(ErrorKind::WordWithoutWhitespace, number));
        }
        match parse_words(rest) {
            Err(bad) => Err(AsmError::with_token(ErrorKind::BadWord, number, bad.as_slice())),
            Ok(words) => {
                let entry = HeaderEntry::Words { name: slice_to_vec(name), words };
                Ok(self.push_entry(entry).advance())
            },
        }
    }

    fn labelled(self, before: &[char], rest: &[char]) -> (r: Result<Assembler, AsmError>)
        requires
            self@.line < usize::MAX,
            self@.wf(),
        ensures
            state_is(r, self@.labelled(before@, rest@)),
    {
        let number = self.line + 1;
        let name = trim_end(before);
        if self.phase == Phase::PreBody {
            return Err(AsmError::new(ErrorKind::LabelBeforeBegin, number));
        }
        if contains_whitespace(name) {
            return Err(AsmError::with_token(ErrorKind::WhitespaceInLabel, number, name));
        }
        if self.is_taken(name) {
            return Err(AsmError::with_token(ErrorKind::LabelPreviouslyDefined, number, name));
        }
        let distance = self.line - self.origin;
        if distance >= OFFSET_LIMIT as usize {
            return Err(AsmError::new(ErrorKind::FileTooBig, number));
        }
        let entry = HeaderEntry::Offset { name: slice_to_vec(name), offset: distance as u32 };
        let marked = self.push_entry(entry);
        let toks = split_whitespace(rest);
        if toks.len() == 0 {
            Ok(
                Assembler {
                    phase: marked.phase,
                    line: number,
                    origin: marked.origin + 1,
                    header: marked.header,
                    body: marked.body,
                },
            )
        } else {
            match parse_statement(&toks, true, true, number) {
                Err(e) => Err(e),
                Ok(st) => marked.apply(st),
            }
        }
    }

    fn bare(self, code: &[char]) -> (r: Result<Assembler, AsmError>)
        requires
            self@.line < usize::MAX,
        ensures
            state_is(r, self@.bare(code@)),
    {
        let toks = split_whitespace(code);
        if toks.len() == 0 {
            Ok(self.advance())
        } else {
            match parse_statement(&toks, self.phase == Phase::InBody, false, self.line + 1) {
                Err(e) => Err(e),
                Ok(st) => self.apply(st),
            }
        }
    }

    /// Reads the source line `raw`: the state after it, or the error that
    /// ends the attempt.
    pub fn feed(self, raw: &[char]) -> (r: Result<Assembler, AsmError>)
        requires
            self@.wf(),
            self@.line < usize::MAX,
        ensures
            state_is(r, self@.step(raw@)),
            r matches Ok(next) ==> next@.wf() && next@.line == self@.line + 1,
    {
        proof {
            lemma_step_wf(self@, raw@);
        }
        let line = classify(raw);
        if let Line::Blank = line {
            return Ok(self.advance());
        }
        if self.phase == Phase::Terminated {
            return Err(AsmError::new(ErrorKind::ContentAfterEnd, self.line + 1));
        }
        match line {
            Line::Text { before, rest } => self.text_directive(before, rest),
            Line::Words { before, rest } => self.word_directive(before, rest),
            Line::Labelled { before, rest } => self.labelled(before, rest),
            Line::Bare { code } => self.bare(code),
            Line::Blank => Ok(self.advance()),
        }
    }

    /// Ends the attempt: the image, provided the source reached its `END`.
    pub fn finish(self) -> (r: Result<Image, AsmError>)
        ensures
            match r {
                Ok(image) => self@.finished() == Ok::<ImageView, AsmErrorView>(image@),
                Err(e) => self@.finished() == Err::<ImageView, AsmErrorView>(e@),
            },
    {
        if self.phase == Phase::Terminated {
            Ok(Image { header: self.header, body: self.body })
        } else {
            Err(AsmError::new(ErrorKind::MissingEnd, self.line))
        }
    }
}

} // verus!
