//! Why an assembly attempt failed: the kind of error, the source line and
//! the token at fault, and the message that tells a person about it.

use crate::chars::push_chars;
use crate::chars::push_str;
use crate::chars::to_string;
use crate::number::decimal;
use crate::number::push_decimal;
use vstd::prelude::*;
use vstd::slice::slice_to_vec;

verus! {

/// The ways in which a source can be wrong.
#[derive(Clone, Copy, Debug, PartialEq, Eq, Hash, Structural)]
pub enum ErrorKind {
    /// A line that is not blank follows `END`.
    ContentAfterEnd,
    /// A `.text` directive stands after `BEGIN`.
    TextAfterBegin,
    /// A `.word` directive stands after `BEGIN`.
    WordAfterBegin,
    /// What stands before `.text` does not end in a colon.
    TextWithoutLabel,
    /// What stands before `.word` does not end in a colon.
    WordWithoutLabel,
    /// A label holds whitespace; the token is the label.
    WhitespaceInLabel,
    /// A directive's label is empty or already in the header; the token is the
    /// label.
    LabelRedefined,
    /// A label in the body is empty or already in the header; the token is the
    /// label.
    LabelPreviouslyDefined,
    /// No whitespace follows `.text`.
    TextWithoutWhitespace,
    /// No whitespace follows `.word`.
    WordWithoutWhitespace,
    /// An item of a word list is no 32-bit decimal literal; the token is the
    /// item.
    BadWord,
    /// A labelled statement stands before `BEGIN`.
    LabelBeforeBegin,
    /// A label's offset, or the line of `BEGIN`, is beyond what the image can
    /// hold.
    FileTooBig,
    /// `IRQ` stands without an interrupt type.
    ExpectedInteger,
    /// The interrupt type is no 8-bit decimal literal; the token is what
    /// stands in its place.
    BadInteger,
    /// A token is left over after a complete statement; the token is the first
    /// one left over.
    UnexpectedArgument,
    /// The interrupt type is above 4; the token is the type as written.
    UnknownIrqType,
    /// An instruction stands without the argument it needs.
    ExpectedLabel,
    /// What follows a label is no mnemonic; the token is what stands in its
    /// place.
    ExpectedInstruction,
    /// A line starts with something that is no mnemonic; the token is what
    /// stands in its place.
    ExpectedLabelOrInstruction,
    /// `EXTERN` stands after `BEGIN`.
    ExternAfterBegin,
    /// `BEGIN` stands after `BEGIN`.
    RepeatedBegin,
    /// The argument of `SET` is no 32-bit binary literal; the token is the
    /// argument.
    BadBinary,
    /// An instruction stands before `BEGIN`.
    InstructionBeforeBegin,
    /// `EXTERN` stands without a name.
    ExternWithoutLabel,
    /// A pseudo-instruction other than `BEGIN` and `EXTERN` stands before
    /// `BEGIN`; the token is its mnemonic.
    ExpectedBeginOrExtern,
    /// The source ends without `END`.
    MissingEnd,
}

/// One error: its kind, the number of the source line (counted from 1) on
/// which it was found, and the token at fault where the kind names one (empty
/// where it names none).
#[derive(Clone, Debug, PartialEq, Eq)]
pub struct AsmError {
    pub kind: ErrorKind,
    pub line: usize,
    pub token: Vec<char>,
}

/// An error as a mathematical value.
pub ghost struct AsmErrorView {
    pub kind: ErrorKind,
    pub line: nat,
    pub token: Seq<char>,
}

impl View for AsmError {
    type V = AsmErrorView;

    open spec fn view(&self) -> AsmErrorView {
        AsmErrorView { kind: self.kind, line: self.line as nat, token: self.token@ }
    }
}

/// The error of kind `kind` on line `line` that names no token.
pub open spec fn fault(kind: ErrorKind, line: nat) -> AsmErrorView {
    AsmErrorView { kind, line, token: Seq::empty() }
}

/// The error of kind `kind` on line `line` about `token`.
pub open spec fn fault_at(kind: ErrorKind, line: nat, token: Seq<char>) -> AsmErrorView {
    AsmErrorView { kind, line, token }
}

impl AsmErrorView {
    /// The message for a person.
    pub open spec fn message(self) -> Seq<char> {
        match self.kind {
            ErrorKind::ContentAfterEnd => "File continues after END"@,
            ErrorKind::TextAfterBegin => "Found .text directive after BEGIN statement at line "@
                + decimal(self.line),
            ErrorKind::WordAfterBegin => "Found .word directive after BEGIN statement at line "@
                + decimal(self.line),
            ErrorKind::TextWithoutLabel => "Expected label before .text directive at line "@
                + decimal(self.line),
            ErrorKind::WordWithoutLabel => "Expected label before .word directive at line "@
                + decimal(self.line),
            ErrorKind::WhitespaceInLabel => "Found whitespace in label at line "@
                + decimal(self.line) + "\n\t"@ + self.token,
            ErrorKind::LabelRedefined => "Found label redefinition at line "@
                + decimal(self.line) + "\n\t"@ + self.token,
            ErrorKind::LabelPreviouslyDefined => "Label "@
                + self.token + " found at line "@ + decimal(self.line) + " previously defined"@,
            ErrorKind::TextWithoutWhitespace => "Expected whitespace after .text directive at line "@
                + decimal(self.line),
            ErrorKind::WordWithoutWhitespace => "Expected whitespace after .word directive at line "@
                + decimal(self.line),
            ErrorKind::BadWord => "Couldn't parse word at line "@
                + decimal(self.line) + "\n\t"@ + self.token,
            ErrorKind::LabelBeforeBegin => "Expected directive after label at line "@
                + decimal(self.line),
            ErrorKind::FileTooBig => "File too big!"@,
            ErrorKind::ExpectedInteger => "Expected integer at line "@ + decimal(self.line),
            ErrorKind::BadInteger => "Expected integer at line "@
                + decimal(self.line) + "\n\tfound "@ + self.token + " instead"@,
            ErrorKind::UnexpectedArgument => "Unexpected argument at line "@
                + decimal(self.line) + "\n\t"@ + self.token,
            ErrorKind::UnknownIrqType => "Unknown IRQ type at line "@
                + decimal(self.line) + "\n\t"@ + self.token,
            ErrorKind::ExpectedLabel => "Expected label at line "@ + decimal(self.line),
            ErrorKind::ExpectedInstruction => "Expected instruction at line "@
                + decimal(self.line) + "\t\nfound "@ + self.token + " instead"@,
            ErrorKind::ExpectedLabelOrInstruction => "Expected label or instruction at line "@
                + decimal(self.line) + "\t\nfound "@ + self.token + " instead"@,
            ErrorKind::ExternAfterBegin => "Found EXTERN statement after BEGIN at line "@
                + decimal(self.line),
            ErrorKind::RepeatedBegin => "Found repeated BEGIN statement at line "@
                + decimal(self.line),
            ErrorKind::BadBinary => "Expected binary number as argument at line "@
                + decimal(self.line) + "\n\tfound "@ + self.token + " instead"@,
            ErrorKind::InstructionBeforeBegin => "Found instruction before BEGIN statement at line "@
                + decimal(self.line),
            ErrorKind::ExternWithoutLabel => "Expected label after EXTERN at line "@
                + decimal(self.line),
            ErrorKind::ExpectedBeginOrExtern => "Expected BEGIN or EXTERN statement or label at line "@
                + decimal(self.line) + "\n\tfound "@ + self.token + " instead"@,
            ErrorKind::MissingEnd => "END statement missing"@,
        }
    }
}

impl AsmError {
    /// An error that names no token.
    pub fn new(kind: ErrorKind, line: usize) -> (e: AsmError)
        ensures
            e@ == fault(kind, line as nat),
    {
        AsmError { kind, line, token: Vec::new() }
    }

    /// An error about `token`.
    pub fn with_token(kind: ErrorKind, line: usize, token: &[char]) -> (e: AsmError)
        ensures
            e@ == fault_at(kind, line as nat, token@),
    {
        AsmError { kind, line, token: slice_to_vec(token) }
    }

    /// The message for a person.
    pub fn message(&self) -> (r: String)
        ensures
            r@ == self@.message(),
    {
        let mut out: Vec<char> = Vec::new();
        let line: u64 = self.line as u64;
        match self.kind {
            ErrorKind::ContentAfterEnd => {
                push_str(&mut out, "File continues after END");
            },
            ErrorKind::TextAfterBegin => {
                push_str(&mut out, "Found .text directive after BEGIN statement at line ");
                push_decimal(&mut out, line);
            },
            ErrorKind::WordAfterBegin => {
                push_str(&mut out, "Found .word directive after BEGIN statement at line ");
                push_decimal(&mut out, line);
            },
            ErrorKind::TextWithoutLabel => {
                push_str(&mut out, "Expected label before .text directive at line ");
                push_decimal(&mut out, line);
            },
            ErrorKind::WordWithoutLabel => {
                push_str(&mut out, "Expected label before .word directive at line ");
                push_decimal(&mut out, line);
            },
            ErrorKind::WhitespaceInLabel => {
                push_str(&mut out, "Found whitespace in label at line ");
                push_decimal(&mut out, line);
                push_str(&mut out, "\n\t");
                push_chars(&mut out, self.token.as_slice());
            },
            ErrorKind::LabelRedefined => {
                push_str(&mut out, "Found label redefinition at line ");
                push_decimal(&mut out, line);
                push_str(&mut out, "\n\t");
                push_chars(&mut out, self.token.as_slice());
            },
            ErrorKind::LabelPreviouslyDefined => {
                push_str(&mut out, "Label ");
                push_chars(&mut out, self.token.as_slice());
                push_str(&mut out, " found at line ");
                push_decimal(&mut out, line);
                push_str(&mut out, " previously defined");
            },
            ErrorKind::TextWithoutWhitespace => {
                push_str(&mut out, "Expected whitespace after .text directive at line ");
                push_decimal(&mut out, line);
            },
            ErrorKind::WordWithoutWhitespace => {
                push_str(&mut out, "Expected whitespace after .word directive at line ");
                push_decimal(&mut out, line);
            },
            ErrorKind::BadWord => {
                push_str(&mut out, "Couldn't parse word at line ");
                push_decimal(&mut out, line);
                push_str(&mut out, "\n\t");
                push_chars(&mut out, self.token.as_slice());
            },
            ErrorKind::LabelBeforeBegin => {
                push_str(&mut out, "Expected directive after label at line ");
                push_decimal(&mut out, line);
            },
            ErrorKind::FileTooBig => {
                push_str(&mut out, "File too big!");
            },
            ErrorKind::ExpectedInteger => {
                push_str(&mut out, "Expected integer at line ");
                push_decimal(&mut out, line);
            },
            ErrorKind::BadInteger => {
                push_str(&mut out, "Expected integer at line ");
                push_decimal(&mut out, line);
                push_str(&mut out, "\n\tfound ");
                push_chars(&mut out, self.token.as_slice());
                push_str(&mut out, " instead");
            },
            ErrorKind::UnexpectedArgument => {
                push_str(&mut out, "Unexpected argument at line ");
                push_decimal(&mut out, line);
                push_str(&mut out, "\n\t");
                push_chars(&mut out, self.token.as_slice());
            },
            ErrorKind::UnknownIrqType => {
                push_str(&mut out, "Unknown IRQ type at line ");
                push_decimal(&mut out, line);
                push_str(&mut out, "\n\t");
                push_chars(&mut out, self.token.as_slice());
            },
            ErrorKind::ExpectedLabel => {
                push_str(&mut out, "Expected label at line ");
                push_decimal(&mut out, line);
            },
            ErrorKind::ExpectedInstruction => {
                push_str(&mut out, "Expected instruction at line ");
                push_decimal(&mut out, line);
                push_str(&mut out, "\t\nfound ");
                push_chars(&mut out, self.token.as_slice());
                push_str(&mut out, " instead");
            },
            ErrorKind::ExpectedLabelOrInstruction => {
                push_str(&mut out, "Expected label or instruction at line ");
                push_decimal(&mut out, line);
                push_str(&mut out, "\t\nfound ");
                push_chars(&mut out, self.token.as_slice());
                push_str(&mut out, " instead");
            },
            ErrorKind::ExternAfterBegin => {
                push_str(&mut out, "Found EXTERN statement after BEGIN at line ");
                push_decimal(&mut out, line);
            },
            ErrorKind::RepeatedBegin => {
                push_str(&mut out, "Found repeated BEGIN statement at line ");
                push_decimal(&mut out, line);
            },
            ErrorKind::BadBinary => {
                push_str(&mut out, "Expected binary number as argument at line ");
                push_decimal(&mut out, line);
                push_str(&mut out, "\n\tfound ");
                push_chars(&mut out, self.token.as_slice());
                push_str(&mut out, " instead");
            },
            ErrorKind::InstructionBeforeBegin => {
                push_str(&mut out, "Found instruction before BEGIN statement at line ");
                push_decimal(&mut out, line);
            },
            ErrorKind::ExternWithoutLabel => {
                push_str(&mut out, "Expected label after EXTERN at line ");
                push_decimal(&mut out, line);
            },
            ErrorKind::ExpectedBeginOrExtern => {
                push_str(&mut out, "Expected BEGIN or EXTERN statement or label at line ");
                push_decimal(&mut out, line);
                push_str(&mut out, "\n\tfound ");
                push_chars(&mut out, self.token.as_slice());
                push_str(&mut out, " instead");
            },
            ErrorKind::MissingEnd => {
                push_str(&mut out, "END statement missing");
            },
        }
        assert(out@ =~= self@.message());
        to_string(out.as_slice())
    }
}

} // verus!
