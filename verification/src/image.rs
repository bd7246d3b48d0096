//! The program image: a header of symbols and constants, then a body of
//! instructions, and the text that an image is written out as.

use crate::chars::free_of;
use crate::chars::has_space;
use crate::chars::is_space;
use crate::chars::joined;
use crate::chars::push_chars;
use crate::chars::push_joined;
use crate::chars::push_str;
use crate::chars::stacked;
use crate::chars::to_string;
use crate::chars::views;
use crate::number::decimal;
use crate::number::decimal_u32;
use crate::number::digit_value;
use crate::number::lemma_decimal_digits;
use crate::number::lemma_literal_chars;
use crate::number::push_decimal;
use crate::opcode::OpCodes;
use vstd::prelude::*;

verus! {

/// The first offset that is too large for a label: offsets keep the seven
/// top bits of a 32-bit word clear.
pub const OFFSET_LIMIT: u32 = 0x200_0000;

/// One entry of the header.
#[derive(Clone, Debug, PartialEq, Eq)]
pub enum HeaderEntry {
    /// A name that is defined elsewhere; it has no value here.
    External { name: Vec<char> },
    /// A text constant. `text` is the text itself, without the quotes that
    /// surround it in the source and in the image.
    Text { name: Vec<char>, text: Vec<char> },
    /// A list of 32-bit words, each as the decimal literal that the source
    /// gave.
    Words { name: Vec<char>, words: Vec<Vec<char>> },
    /// A label in the body: the offset of the instruction that it marks.
    Offset { name: Vec<char>, offset: u32 },
}

/// A header entry as a mathematical value.
pub ghost enum HeaderEntryView {
    External { name: Seq<char> },
    Text { name: Seq<char>, text: Seq<char> },
    Words { name: Seq<char>, words: Seq<Seq<char>> },
    Offset { name: Seq<char>, offset: u32 },
}

impl View for HeaderEntry {
    type V = HeaderEntryView;

    open spec fn view(&self) -> HeaderEntryView {
        match self {
            HeaderEntry::External { name } => HeaderEntryView::External { name: name@ },
            HeaderEntry::Text { name, text } => HeaderEntryView::Text { name: name@, text: text@ },
            HeaderEntry::Words { name, words } => HeaderEntryView::Words {
                name: name@,
                words: views(words@),
            },
            HeaderEntry::Offset { name, offset } => HeaderEntryView::Offset {
                name: name@,
                offset: *offset,
            },
        }
    }
}

/// One instruction of the body.
#[derive(Clone, Debug, PartialEq, Eq)]
pub enum Instruction {
    /// An instruction other than the interrupt, with its one argument.
    Op { opcode: OpCodes, arg: Vec<char> },
    /// An interrupt: its type, and the argument that types 1 to 3 take.
    Irq { kind: u8, operand: Option<Vec<char>> },
}

/// An instruction as a mathematical value.
pub ghost enum InstructionView {
    Op { opcode: OpCodes, arg: Seq<char> },
    Irq { kind: u8, operand: Option<Seq<char>> },
}

impl View for Instruction {
    type V = InstructionView;

    open spec fn view(&self) -> InstructionView {
        match self {
            Instruction::Op { opcode, arg } => InstructionView::Op { opcode: *opcode, arg: arg@ },
            Instruction::Irq { kind, operand } => InstructionView::Irq {
                kind: *kind,
                operand: match operand {
                    Some(a) => Some(a@),
                    None => None,
                },
            },
        }
    }
}

/// A whole program: the header entries in the order in which the source
/// declared them, and the instructions in source order.
#[derive(Clone, Debug, PartialEq, Eq)]
pub struct Image {
    pub header: Vec<HeaderEntry>,
    pub body: Vec<Instruction>,
}

/// An image as a mathematical value.
pub ghost struct ImageView {
    pub header: Seq<HeaderEntryView>,
    pub body: Seq<InstructionView>,
}

/// The entries of a header as mathematical values.
pub open spec fn entry_views(v: Seq<HeaderEntry>) -> Seq<HeaderEntryView> {
    Seq::new(v.len(), |i: int| v[i]@)
}

/// The instructions of a body as mathematical values.
pub open spec fn instruction_views(v: Seq<Instruction>) -> Seq<InstructionView> {
    Seq::new(v.len(), |i: int| v[i]@)
}

impl View for Image {
    type V = ImageView;

    open spec fn view(&self) -> ImageView {
        ImageView { header: entry_views(self.header@), body: instruction_views(self.body@) }
    }
}

/// Whether `name` can stand for a symbol: it is not empty and holds no
/// whitespace.
pub open spec fn is_name(name: Seq<char>) -> bool {
    name.len() > 0 && !has_space(name)
}

impl HeaderEntryView {
    /// The name that the entry declares.
    pub open spec fn name(self) -> Seq<char> {
        match self {
            HeaderEntryView::External { name } => name,
            HeaderEntryView::Text { name, .. } => name,
            HeaderEntryView::Words { name, .. } => name,
            HeaderEntryView::Offset { name, .. } => name,
        }
    }

    /// The entry as one line of the image.
    pub open spec fn line(self) -> Seq<char> {
        match self {
            HeaderEntryView::External { name } => name,
            HeaderEntryView::Text { name, text } => name + seq![' ', '"'] + text + seq!['"'],
            HeaderEntryView::Words { name, words } => name.push(' ') + joined(words, ','),
            HeaderEntryView::Offset { name, offset } => name.push(' ') + decimal(offset as nat),
        }
    }

    /// Whether the entry is one that the assembler can produce.
    pub open spec fn wf(self) -> bool {
        &&& is_name(self.name())
        &&& self matches HeaderEntryView::Words { words, .. } ==> words.len() > 0 && forall|
            i: int,
        | 0 <= i < words.len() ==> (#[trigger] decimal_u32(words[i])) is Some
        &&& self matches HeaderEntryView::Offset { offset, .. } ==> offset < OFFSET_LIMIT
    }
}

impl InstructionView {
    /// The instruction as one line of the image.
    pub open spec fn line(self) -> Seq<char> {
        match self {
            InstructionView::Op { opcode, arg } => opcode.spelling().push(' ') + arg,
            InstructionView::Irq { kind, operand: None } => OpCodes::IRQ.spelling().push(' ') + decimal(
                kind as nat,
            ),
            InstructionView::Irq { kind, operand: Some(a) } => (OpCodes::IRQ.spelling().push(' ')
                + decimal(kind as nat)).push(' ') + a,
        }
    }

    /// Whether the instruction is one that the target machine has: any
    /// mnemonic but `IRQ` with one argument, or an interrupt of type 0 to 4
    /// that has an argument exactly when its type is 1, 2 or 3.
    pub open spec fn wf(self) -> bool {
        match self {
            InstructionView::Op { opcode, arg } => opcode != OpCodes::IRQ && is_name(arg),
            InstructionView::Irq { kind, operand } => {
                &&& kind <= 4
                &&& operand is Some <==> 1 <= kind <= 3
                &&& operand matches Some(a) ==> is_name(a)
            },
        }
    }
}

/// Whether an entry of `header` declares `name`.
pub open spec fn declares(header: Seq<HeaderEntryView>, name: Seq<char>) -> bool {
    exists|i: int| 0 <= i < header.len() && (#[trigger] header[i]).name() == name
}

/// Whether `name` cannot be given to a new label: the empty name never can,
/// and no name that the header already declares.
pub open spec fn taken(header: Seq<HeaderEntryView>, name: Seq<char>) -> bool {
    name.len() == 0 || declares(header, name)
}

impl ImageView {
    /// The lines of the header, one for each entry.
    pub open spec fn header_lines(self) -> Seq<Seq<char>> {
        Seq::new(self.header.len(), |i: int| self.header[i].line())
    }

    /// The lines of the body, one for each instruction.
    pub open spec fn body_lines(self) -> Seq<Seq<char>> {
        Seq::new(self.body.len(), |i: int| self.body[i].line())
    }

    /// The lines of the image: the number of header entries, the header, the
    /// body.
    pub open spec fn lines(self) -> Seq<Seq<char>> {
        seq![decimal(self.header.len())] + self.header_lines() + self.body_lines()
    }

    /// The image as text: each of its lines, followed by a line feed.
    pub open spec fn text(self) -> Seq<char> {
        stacked(self.lines())
    }

    /// Whether the image is one that the assembler can produce: every entry
    /// and every instruction is well formed, and every label is new where it
    /// is defined. Only an external name may repeat a name declared above it.
    pub open spec fn wf(self) -> bool {
        &&& forall|i: int| 0 <= i < self.header.len() ==> (#[trigger] self.header[i]).wf()
        &&& forall|i: int, j: int|
            0 <= i < j < self.header.len() && !(self.header[j] is External) ==> (
            #[trigger] self.header[i]).name() != (#[trigger] self.header[j]).name()
        &&& forall|i: int| 0 <= i < self.body.len() ==> (#[trigger] self.body[i]).wf()
    }
}

/// A well-formed image stays well formed when it gets one more well-formed
/// entry that is an external name or declares a name that is new.
pub proof fn lemma_push_entry_wf(image: ImageView, entry: HeaderEntryView)
    requires
        image.wf(),
        entry.wf(),
        entry is External || !declares(image.header, entry.name()),
    ensures
        (ImageView { header: image.header.push(entry), ..image }).wf(),
{
    let grown = ImageView { header: image.header.push(entry), ..image };
    assert forall|i: int| 0 <= i < grown.header.len() implies (#[trigger] grown.header[i]).wf() by {
        if i < image.header.len() {
            assert(grown.header[i] == image.header[i]);
        }
    }
    assert forall|i: int, j: int|
        0 <= i < j < grown.header.len() && !(grown.header[j] is External) implies (
    #[trigger] grown.header[i]).name() != (#[trigger] grown.header[j]).name() by {
        assert(grown.header[i] == image.header[i]);
        if j < image.header.len() {
            assert(grown.header[j] == image.header[j]);
        }
    }
}

/// A well-formed image stays well formed when it gets one more well-formed
/// instruction.
pub proof fn lemma_push_instruction_wf(image: ImageView, instruction: InstructionView)
    requires
        image.wf(),
        instruction.wf(),
    ensures
        (ImageView { body: image.body.push(instruction), ..image }).wf(),
{
    let grown = ImageView { body: image.body.push(instruction), ..image };
    assert forall|i: int| 0 <= i < grown.body.len() implies (#[trigger] grown.body[i]).wf() by {
        if i < image.body.len() {
            assert(grown.body[i] == image.body[i]);
        }
    }
}

/// A text without whitespace holds no line feed.
pub proof fn lemma_solid_free(s: Seq<char>)
    requires
        !has_space(s),
    ensures
        free_of(s, '\n'),
{
    assert forall|i: int| 0 <= i < s.len() implies #[trigger] s[i] != '\n' by {
        assert(!is_space(s[i]));
    }
}

/// A number is written without line feed.
pub proof fn lemma_decimal_free(n: nat)
    ensures
        free_of(decimal(n), '\n'),
{
    lemma_decimal_digits(n);
    assert forall|i: int| 0 <= i < decimal(n).len() implies #[trigger] decimal(n)[i] != '\n' by {
        assert(digit_value(decimal(n)[i], 10) is Some);
    }
}

/// Parts without line feed, joined with a comma, hold no line feed.
pub proof fn lemma_joined_free(parts: Seq<Seq<char>>)
    requires
        forall|k: int| 0 <= k < parts.len() ==> free_of(#[trigger] parts[k], '\n'),
    ensures
        free_of(joined(parts, ','), '\n'),
    decreases parts.len(),
{
    if parts.len() >= 2 {
        let init = parts.drop_last();
        assert forall|k: int| 0 <= k < init.len() implies free_of(#[trigger] init[k], '\n') by {
            assert(init[k] == parts[k]);
        }
        lemma_joined_free(init);
        assert(free_of(parts.last(), '\n'));
    } else if parts.len() == 1 {
        assert(free_of(parts[0], '\n'));
    }
}

impl HeaderEntryView {
    /// Whether the entry holds no line feed in the one place where an entry
    /// can hold whitespace: the text of a text constant.
    pub open spec fn text_free(self) -> bool {
        self matches HeaderEntryView::Text { text, .. } ==> free_of(text, '\n')
    }

    /// A well-formed entry whose text holds no line feed is written as one
    /// line.
    pub proof fn lemma_line_free(self)
        requires
            self.wf(),
            self.text_free(),
        ensures
            free_of(self.line(), '\n'),
    {
        lemma_solid_free(self.name());
        match self {
            HeaderEntryView::Words { words, .. } => {
                assert forall|k: int| 0 <= k < words.len() implies free_of(
                    #[trigger] words[k],
                    '\n',
                ) by {
                    assert(decimal_u32(words[k]) is Some);
                    lemma_literal_chars(words[k], 10);
                }
                lemma_joined_free(words);
            },
            HeaderEntryView::Offset { offset, .. } => {
                lemma_decimal_free(offset as nat);
            },
            _ => {},
        }
    }
}

impl InstructionView {
    /// A well-formed instruction is written as one line.
    pub proof fn lemma_line_free(self)
        requires
            self.wf(),
        ensures
            free_of(self.line(), '\n'),
    {
        match self {
            InstructionView::Op { opcode, arg } => {
                OpCodes::lemma_spelling_solid(opcode);
                lemma_solid_free(opcode.spelling());
                lemma_solid_free(arg);
            },
            InstructionView::Irq { kind, operand } => {
                OpCodes::lemma_spelling_solid(OpCodes::IRQ);
                lemma_solid_free(OpCodes::IRQ.spelling());
                lemma_decimal_free(kind as nat);
                if let Some(a) = operand {
                    lemma_solid_free(a);
                }
            },
        }
    }
}

impl ImageView {
    /// Whether no text constant of the header holds a line feed.
    pub open spec fn texts_free(self) -> bool {
        forall|i: int| 0 <= i < self.header.len() ==> (#[trigger] self.header[i]).text_free()
    }

    /// A well-formed image whose text constants hold no line feed is written
    /// line by line: no line of it holds a line feed.
    pub proof fn lemma_lines_free(self)
        requires
            self.wf(),
            self.texts_free(),
        ensures
            forall|k: int| 0 <= k < self.lines().len() ==> free_of(#[trigger] self.lines()[k], '\n'),
    {
        let lines = self.lines();
        assert forall|k: int| 0 <= k < lines.len() implies free_of(#[trigger] lines[k], '\n') by {
            if k == 0 {
                lemma_decimal_free(self.header.len());
            } else if k <= self.header.len() {
                assert(lines[k] == self.header[k - 1].line());
                self.header[k - 1].lemma_line_free();
            } else {
                assert(lines[k] == self.body[k - 1 - self.header.len()].line());
                self.body[k - 1 - self.header.len()].lemma_line_free();
            }
        }
    }
}

/// The values of a header with one more entry are the values of the header
/// with the value of that entry.
pub proof fn lemma_entry_views_push(v: Seq<HeaderEntry>, e: HeaderEntry)
    ensures
        entry_views(v.push(e)) == entry_views(v).push(e@),
{
    assert(entry_views(v.push(e)) =~= entry_views(v).push(e@));
}

/// The values of a body with one more instruction are the values of the body
/// with the value of that instruction.
pub proof fn lemma_instruction_views_push(v: Seq<Instruction>, i: Instruction)
    ensures
        instruction_views(v.push(i)) == instruction_views(v).push(i@),
{
    assert(instruction_views(v.push(i)) =~= instruction_views(v).push(i@));
}

impl HeaderEntry {
    /// The name that the entry declares.
    pub fn name(&self) -> (r: &[char])
        ensures
            r@ == self@.name(),
    {
        match self {
            HeaderEntry::External { name } => name.as_slice(),
            HeaderEntry::Text { name, .. } => name.as_slice(),
            HeaderEntry::Words { name, .. } => name.as_slice(),
            HeaderEntry::Offset { name, .. } => name.as_slice(),
        }
    }

    /// Appends the entry, as one line of the image, to `out`. The line feed
    /// is not part of it.
    pub fn push_line(&self, out: &mut Vec<char>)
        ensures
            final(out)@ == old(out)@ + self@.line(),
    {
        match self {
            HeaderEntry::External { name } => {
                push_chars(out, name.as_slice());
            },
            HeaderEntry::Text { name, text } => {
                push_chars(out, name.as_slice());
                out.push(' ');
                out.push('"');
                push_chars(out, text.as_slice());
                out.push('"');
                assert(out@ =~= old(out)@ + (name@ + seq![' ', '"'] + text@ + seq!['"']));
            },
            HeaderEntry::Words { name, words } => {
                push_chars(out, name.as_slice());
                out.push(' ');
                push_joined(out, words, ',');
                assert(out@ =~= old(out)@ + (name@.push(' ') + joined(views(words@), ',')));
            },
            HeaderEntry::Offset { name, offset } => {
                push_chars(out, name.as_slice());
                out.push(' ');
                push_decimal(out, *offset as u64);
                assert(out@ =~= old(out)@ + (name@.push(' ') + decimal(*offset as nat)));
            },
        }
    }

    /// The entry as one line of the image.
    pub fn line(&self) -> (r: String)
        ensures
            r@ == self@.line(),
    {
        let mut out: Vec<char> = Vec::new();
        self.push_line(&mut out);
        assert(out@ =~= self@.line());
        to_string(out.as_slice())
    }
}

impl Instruction {
    /// Appends the instruction, as one line of the image, to `out`. The line
    /// feed is not part of it.
    pub fn push_line(&self, out: &mut Vec<char>)
        ensures
            final(out)@ == old(out)@ + self@.line(),
    {
        match self {
            Instruction::Op { opcode, arg } => {
                push_str(out, opcode.mnemonic());
                out.push(' ');
                push_chars(out, arg.as_slice());
                assert(out@ =~= old(out)@ + (opcode.spelling().push(' ') + arg@));
            },
            Instruction::Irq { kind, operand } => {
                push_str(out, OpCodes::IRQ.mnemonic());
                out.push(' ');
                push_decimal(out, *kind as u64);
                let ghost head = OpCodes::IRQ.spelling().push(' ') + decimal(*kind as nat);
                assert(out@ =~= old(out)@ + head);
                match operand {
                    Some(a) => {
                        out.push(' ');
                        push_chars(out, a.as_slice());
                        assert(out@ =~= old(out)@ + (head.push(' ') + a@));
                    },
                    None => {},
                }
            },
        }
    }

    /// The instruction as one line of the image.
    pub fn line(&self) -> (r: String)
        ensures
            r@ == self@.line(),
    {
        let mut out: Vec<char> = Vec::new();
        self.push_line(&mut out);
        assert(out@ =~= self@.line());
        to_string(out.as_slice())
    }
}

impl Image {
    /// The image as text: the number of header entries, then the header
    /// entries, then the instructions, one to a line.
    pub fn text(&self) -> (r: String)
        ensures
            r@ == self@.text(),
    {
        let ghost lines = self@.lines();
        let mut out: Vec<char> = Vec::new();
        push_decimal(&mut out, self.header.len() as u64);
        out.push('\n');
        proof {
            assert(lines.take(1).drop_last() =~= Seq::<Seq<char>>::empty());
            assert(stacked(lines.take(1).drop_last()) =~= Seq::<char>::empty());
            assert(out@ =~= stacked(lines.take(1)));
        }
        let mut i: usize = 0;
        while i < self.header.len()
            invariant
                i <= self.header.len(),
                lines == self@.lines(),
                out@ == stacked(lines.take(1 + i)),
            decreases self.header.len() - i,
        {
            let ghost before = lines.take(1 + i);
            let ghost now = lines.take(2 + i);
            assert(now.drop_last() =~= before);
            assert(now.last() == self.header@[i as int]@.line());
            self.header[i].push_line(&mut out);
            out.push('\n');
            assert(out@ =~= stacked(before) + now.last().push('\n'));
            i += 1;
        }
        let n = self.header.len();
        let mut k: usize = 0;
        while k < self.body.len()
            invariant
                k <= self.body.len(),
                n == self.header.len(),
                lines == self@.lines(),
                out@ == stacked(lines.take(1 + n + k)),
            decreases self.body.len() - k,
        {
            let ghost before = lines.take(1 + n + k);
            let ghost now = lines.take(2 + n + k);
            assert(now.drop_last() =~= before);
            assert(now.last() == self.body@[k as int]@.line());
            self.body[k].push_line(&mut out);
            out.push('\n');
            assert(out@ =~= stacked(before) + now.last().push('\n'));
            k += 1;
        }
        assert(lines.take(1 + n + self.body.len()) =~= lines);
        to_string(out.as_slice())
    }
}

} // verus!
