//! Statements: what the tokens of a line, once any label is taken off, ask
//! the assembler to do. Instructions are checked against the mnemonic
//! tables, and pseudo-instructions are expanded into interrupts.

use crate::chars::views;
use crate::error::fault;
use crate::error::fault_at;
use crate::error::AsmError;
use crate::error::AsmErrorView;
use crate::error::ErrorKind;
use crate::image::is_name;
use crate::image::Instruction;
use crate::image::InstructionView;
use crate::number::binary_u32;
use crate::number::decimal_u8;
use crate::number::parse_binary;
use crate::number::parse_u8;
use crate::opcode::OpCodes;
use crate::opcode::PseudoOps;
use vstd::prelude::*;

verus! {

/// What one statement asks for.
#[derive(Clone, Debug, PartialEq, Eq)]
pub enum Statement {
    /// `BEGIN`: the body starts on the next line.
    Begin,
    /// `END`: the program is complete.
    End,
    /// `EXTERN name`: `name` is defined elsewhere.
    Declare { name: Vec<char> },
    /// An instruction for the body.
    Emit(Instruction),
}

/// A statement as a mathematical value.
pub ghost enum StatementView {
    Begin,
    End,
    Declare { name: Seq<char> },
    Emit(InstructionView),
}

impl View for Statement {
    type V = StatementView;

    open spec fn view(&self) -> StatementView {
        match self {
            Statement::Begin => StatementView::Begin,
            Statement::End => StatementView::End,
            Statement::Declare { name } => StatementView::Declare { name: name@ },
            Statement::Emit(i) => StatementView::Emit(i@),
        }
    }
}

/// The statement `done`, which used the first `used` tokens, unless a token
/// is left over.
pub open spec fn closing(toks: Seq<Seq<char>>, used: int, line: nat, done: StatementView) -> Result<
    StatementView,
    AsmErrorView,
> {
    if toks.len() > used {
        Err(fault_at(ErrorKind::UnexpectedArgument, line, toks[used]))
    } else {
        Ok(done)
    }
}

/// The interrupt that `IRQ` and the tokens after it write: a type from 0 to
/// 4, and an argument exactly for the types 1, 2 and 3.
pub open spec fn interrupt_statement(toks: Seq<Seq<char>>, line: nat) -> Result<
    StatementView,
    AsmErrorView,
> {
    if toks.len() < 2 {
        Err(fault(ErrorKind::ExpectedInteger, line))
    } else {
        match decimal_u8(toks[1]) {
            None => Err(fault_at(ErrorKind::BadInteger, line, toks[1])),
            Some(v) => if v > 4 {
                Err(fault_at(ErrorKind::UnknownIrqType, line, toks[1]))
            } else if 1 <= v <= 3 {
                if toks.len() < 3 {
                    Err(fault(ErrorKind::ExpectedLabel, line))
                } else {
                    closing(
                        toks,
                        3,
                        line,
                        StatementView::Emit(
                            InstructionView::Irq { kind: v as u8, operand: Some(toks[2]) },
                        ),
                    )
                }
            } else {
                closing(
                    toks,
                    2,
                    line,
                    StatementView::Emit(InstructionView::Irq { kind: v as u8, operand: None }),
                )
            },
        }
    }
}

/// The instruction that a mnemonic other than `IRQ` and the tokens after it
/// write: the mnemonic with exactly one argument.
pub open spec fn operation_statement(opcode: OpCodes, toks: Seq<Seq<char>>, line: nat) -> Result<
    StatementView,
    AsmErrorView,
> {
    if toks.len() < 2 {
        Err(fault(ErrorKind::ExpectedLabel, line))
    } else {
        closing(toks, 2, line, StatementView::Emit(InstructionView::Op { opcode, arg: toks[1] }))
    }
}

/// What a pseudo-instruction means in the body. `HALT` and `CLEAR` become
/// the interrupt of their type; `PRINT` and `READ` the interrupt of their
/// type with their argument; `SET` the interrupt 3 with its argument, which
/// must be a binary literal and is kept as written. `END` closes the body;
/// `BEGIN` and `EXTERN` are errors here.
pub open spec fn body_pseudo(p: PseudoOps, toks: Seq<Seq<char>>, line: nat) -> Result<
    StatementView,
    AsmErrorView,
> {
    match p {
        PseudoOps::EXTERN => Err(fault(ErrorKind::ExternAfterBegin, line)),
        PseudoOps::BEGIN => Err(fault(ErrorKind::RepeatedBegin, line)),
        PseudoOps::END => closing(toks, 1, line, StatementView::End),
        PseudoOps::SET => if toks.len() < 2 {
            Err(fault(ErrorKind::ExpectedLabel, line))
        } else if binary_u32(toks[1]) is None {
            Err(fault_at(ErrorKind::BadBinary, line, toks[1]))
        } else {
            closing(
                toks,
                2,
                line,
                StatementView::Emit(InstructionView::Irq { kind: 3, operand: Some(toks[1]) }),
            )
        },
        PseudoOps::PRINT | PseudoOps::READ => if toks.len() < 2 {
            Err(fault(ErrorKind::ExpectedLabel, line))
        } else {
            closing(
                toks,
                2,
                line,
                StatementView::Emit(
                    InstructionView::Irq { kind: p.spec_interrupt().unwrap(), operand: Some(toks[1]) },
                ),
            )
        },
        PseudoOps::HALT | PseudoOps::CLEAR => closing(
            toks,
            1,
            line,
            StatementView::Emit(
                InstructionView::Irq { kind: p.spec_interrupt().unwrap(), operand: None },
            ),
        ),
    }
}

/// What a pseudo-instruction means before the body: `BEGIN` opens the body,
/// `EXTERN` declares the name after it, and every other one is an error.
pub open spec fn prelude_pseudo(p: PseudoOps, toks: Seq<Seq<char>>, line: nat) -> Result<
    StatementView,
    AsmErrorView,
> {
    match p {
        PseudoOps::BEGIN => closing(toks, 1, line, StatementView::Begin),
        PseudoOps::EXTERN => if toks.len() < 2 {
            Err(fault(ErrorKind::ExternWithoutLabel, line))
        } else {
            closing(toks, 2, line, StatementView::Declare { name: toks[1] })
        },
        _ => Err(fault_at(ErrorKind::ExpectedBeginOrExtern, line, toks[0])),
    }
}

/// The statement that the tokens `toks` write on source line `line`.
///
/// The first token is looked up among the instructions, then among the
/// pseudo-instructions. `in_body` tells whether `BEGIN` has been seen: before
/// it no instruction is allowed, and only `BEGIN` and `EXTERN` among the
/// pseudo-instructions. `labelled` tells whether a label stands before the
/// statement, which only changes the kind of error for an unknown mnemonic.
pub open spec fn statement(toks: Seq<Seq<char>>, in_body: bool, labelled: bool, line: nat) -> Result<
    StatementView,
    AsmErrorView,
>
    recommends
        toks.len() > 0,
{
    match OpCodes::named(toks[0]) {
        Some(opcode) => if !in_body {
            Err(fault(ErrorKind::InstructionBeforeBegin, line))
        } else if opcode == OpCodes::IRQ {
            interrupt_statement(toks, line)
        } else {
            operation_statement(opcode, toks, line)
        },
        None => match PseudoOps::named(toks[0]) {
            Some(p) => if in_body {
                body_pseudo(p, toks, line)
            } else {
                prelude_pseudo(p, toks, line)
            },
            None => Err(
                fault_at(
                    if labelled {
                        ErrorKind::ExpectedInstruction
                    } else {
                        ErrorKind::ExpectedLabelOrInstruction
                    },
                    line,
                    toks[0],
                ),
            ),
        },
    }
}

impl StatementView {
    /// Whether the statement is one that a line can hold: before the body
    /// only `BEGIN` and the declaration of a name, in the body only `END` and
    /// well-formed instructions.
    pub open spec fn wf(self, in_body: bool) -> bool {
        match self {
            StatementView::Begin => !in_body,
            StatementView::Declare { name } => !in_body && is_name(name),
            StatementView::End => in_body,
            StatementView::Emit(i) => in_body && i.wf(),
        }
    }
}

/// The statement that tokens write is well formed.
pub proof fn lemma_statement_wf(toks: Seq<Seq<char>>, in_body: bool, labelled: bool, line: nat)
    requires
        toks.len() > 0,
        forall|i: int| 0 <= i < toks.len() ==> is_name(#[trigger] toks[i]),
    ensures
        statement(toks, in_body, labelled, line) matches Ok(st) ==> st.wf(in_body),
{
    if toks.len() >= 2 {
        assert(is_name(toks[1]));
    }
    if toks.len() >= 3 {
        assert(is_name(toks[2]));
    }
}

/// Whether `r` is the result `model`, seen as mathematical values.
pub open spec fn statement_is(
    r: Result<Statement, AsmError>,
    model: Result<StatementView, AsmErrorView>,
) -> bool {
    match r {
        Ok(s) => model == Ok::<StatementView, AsmErrorView>(s@),
        Err(e) => model == Err::<StatementView, AsmErrorView>(e@),
    }
}

fn close(toks: &Vec<Vec<char>>, used: usize, line: usize, done: Statement) -> (r: Result<
    Statement,
    AsmError,
>)
    ensures
        statement_is(r, closing(views(toks@), used as int, line as nat, done@)),
{
    if toks.len() > used {
        Err(AsmError::with_token(ErrorKind::UnexpectedArgument, line, toks[used].as_slice()))
    } else {
        Ok(done)
    }
}

fn parse_interrupt(toks: &Vec<Vec<char>>, line: usize) -> (r: Result<Statement, AsmError>)
    requires
        toks.len() > 0,
    ensures
        statement_is(r, interrupt_statement(views(toks@), line as nat)),
{
    if toks.len() < 2 {
        return Err(AsmError::new(ErrorKind::ExpectedInteger, line));
    }
    match parse_u8(toks[1].as_slice()) {
        None => Err(AsmError::with_token(ErrorKind::BadInteger, line, toks[1].as_slice())),
        Some(v) => {
            if v > 4 {
                Err(AsmError::with_token(ErrorKind::UnknownIrqType, line, toks[1].as_slice()))
            } else if 1 <= v && v <= 3 {
                if toks.len() < 3 {
                    Err(AsmError::new(ErrorKind::ExpectedLabel, line))
                } else {
                    let arg = toks[2].clone();
                    close(toks, 3, line, Statement::Emit(Instruction::Irq { kind: v, operand: Some(arg) }))
                }
            } else {
                close(toks, 2, line, Statement::Emit(Instruction::Irq { kind: v, operand: None }))
            }
        },
    }
}

fn parse_operation(opcode: OpCodes, toks: &Vec<Vec<char>>, line: usize) -> (r: Result<
    Statement,
    AsmError,
>)
    requires
        toks.len() > 0,
    ensures
        statement_is(r, operation_statement(opcode, views(toks@), line as nat)),
{
    if toks.len() < 2 {
        Err(AsmError::new(ErrorKind::ExpectedLabel, line))
    } else {
        let arg = toks[1].clone();
        close(toks, 2, line, Statement::Emit(Instruction::Op { opcode, arg }))
    }
}

fn parse_body_pseudo(p: PseudoOps, toks: &Vec<Vec<char>>, line: usize) -> (r: Result<
    Statement,
    AsmError,
>)
    requires
        toks.len() > 0,
    ensures
        statement_is(r, body_pseudo(p, views(toks@), line as nat)),
{
    match p.interrupt() {
        None => match p {
            PseudoOps::EXTERN => Err(AsmError::new(ErrorKind::ExternAfterBegin, line)),
            PseudoOps::BEGIN => Err(AsmError::new(ErrorKind::RepeatedBegin, line)),
            _ => close(toks, 1, line, Statement::End),
        },
        Some(kind) => match p {
            PseudoOps::HALT | PseudoOps::CLEAR => close(
                toks,
                1,
                line,
                Statement::Emit(Instruction::Irq { kind, operand: None }),
            ),
            _ => {
                if toks.len() < 2 {
                    return Err(AsmError::new(ErrorKind::ExpectedLabel, line));
                }
                if p == PseudoOps::SET && parse_binary(toks[1].as_slice()).is_none() {
                    return Err(
                        AsmError::with_token(ErrorKind::BadBinary, line, toks[1].as_slice()),
                    );
                }
                let arg = toks[1].clone();
                close(toks, 2, line, Statement::Emit(Instruction::Irq { kind, operand: Some(arg) }))
            },
        },
    }
}

fn parse_prelude_pseudo(p: PseudoOps, toks: &Vec<Vec<char>>, line: usize) -> (r: Result<
    Statement,
    AsmError,
>)
    requires
        toks.len() > 0,
    ensures
        statement_is(r, prelude_pseudo(p, views(toks@), line as nat)),
{
    match p {
        PseudoOps::BEGIN => close(toks, 1, line, Statement::Begin),
        PseudoOps::EXTERN => {
            if toks.len() < 2 {
                Err(AsmError::new(ErrorKind::ExternWithoutLabel, line))
            } else {
                let name = toks[1].clone();
                close(toks, 2, line, Statement::Declare { name })
            }
        },
        _ => Err(AsmError::with_token(ErrorKind::ExpectedBeginOrExtern, line, toks[0].as_slice())),
    }
}

/// Reads the statement that the tokens `toks` write on source line `line`.
pub fn parse_statement(toks: &Vec<Vec<char>>, in_body: bool, labelled: bool, line: usize) -> (r:
    Result<Statement, AsmError>)
    requires
        toks.len() > 0,
    ensures
        statement_is(r, statement(views(toks@), in_body, labelled, line as nat)),
{
    match OpCodes::from_mnemonic(toks[0].as_slice()) {
        Some(opcode) => {
            if !in_body {
                Err(AsmError::new(ErrorKind::InstructionBeforeBegin, line))
            } else if opcode == OpCodes::IRQ {
                parse_interrupt(toks, line)
            } else {
                parse_operation(opcode, toks, line)
            }
        },
        None => match PseudoOps::from_mnemonic(toks[0].as_slice()) {
            Some(p) => {
                if in_body {
                    parse_body_pseudo(p, toks, line)
                } else {
                    parse_prelude_pseudo(p, toks, line)
                }
            },
            None => {
                let kind = if labelled {
                    ErrorKind::ExpectedInstruction
                } else {
                    ErrorKind::ExpectedLabelOrInstruction
                };
                Err(AsmError::with_token(kind, line, toks[0].as_slice()))
            },
        },
    }
}

} // verus!
