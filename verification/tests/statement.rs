use assembler::error::AsmError;
use assembler::error::ErrorKind;
use assembler::image::Instruction;
use assembler::opcode::OpCodes;
use assembler::statement::parse_statement;
use assembler::statement::Statement;

fn cs(s: &str) -> Vec<char> {
    s.chars().collect()
}

fn toks(s: &str) -> Vec<Vec<char>> {
    s.split_whitespace().map(cs).collect()
}

fn in_body(s: &str) -> Result<Statement, AsmError> {
    parse_statement(&toks(s), true, false, 7)
}

fn before_body(s: &str) -> Result<Statement, AsmError> {
    parse_statement(&toks(s), false, false, 7)
}

fn irq(kind: u8, operand: Option<&str>) -> Result<Statement, AsmError> {
    Ok(Statement::Emit(Instruction::Irq { kind, operand: operand.map(cs) }))
}

fn fails(kind: ErrorKind, token: &str) -> Result<Statement, AsmError> {
    Err(AsmError { kind, line: 7, token: cs(token) })
}

#[test]
fn every_opcode_but_irq_takes_one_argument() {
    for code in 1..33u16 {
        let opcode = OpCodes::from_repr(code).unwrap();
        let name = opcode.mnemonic();
        assert_eq!(
            in_body(&format!("{} target", name)),
            Ok(Statement::Emit(Instruction::Op { opcode, arg: cs("target") }))
        );
        assert_eq!(in_body(name), fails(ErrorKind::ExpectedLabel, ""));
        assert_eq!(
            in_body(&format!("{} target more", name)),
            fails(ErrorKind::UnexpectedArgument, "more")
        );
        assert_eq!(
            before_body(&format!("{} target", name)),
            fails(ErrorKind::InstructionBeforeBegin, "")
        );
    }
}

#[test]
fn the_argument_of_an_opcode_may_be_a_literal() {
    assert_eq!(
        in_body("ADD 12"),
        Ok(Statement::Emit(Instruction::Op { opcode: OpCodes::ADD, arg: cs("12") }))
    );
}

#[test]
fn interrupts_without_argument() {
    assert_eq!(in_body("IRQ 0"), irq(0, None));
    assert_eq!(in_body("IRQ 4"), irq(4, None));
    assert_eq!(in_body("IRQ 0 x"), fails(ErrorKind::UnexpectedArgument, "x"));
    assert_eq!(in_body("IRQ 4 x"), fails(ErrorKind::UnexpectedArgument, "x"));
}

#[test]
fn interrupts_with_argument() {
    assert_eq!(in_body("IRQ 1 X"), irq(1, Some("X")));
    assert_eq!(in_body("IRQ 2 X"), irq(2, Some("X")));
    assert_eq!(in_body("IRQ 3 X"), irq(3, Some("X")));
    assert_eq!(in_body("IRQ 1"), fails(ErrorKind::ExpectedLabel, ""));
    assert_eq!(in_body("IRQ 2"), fails(ErrorKind::ExpectedLabel, ""));
    assert_eq!(in_body("IRQ 3"), fails(ErrorKind::ExpectedLabel, ""));
    assert_eq!(in_body("IRQ 1 X Y"), fails(ErrorKind::UnexpectedArgument, "Y"));
}

#[test]
fn interrupt_types_are_written_as_numbers() {
    assert_eq!(in_body("IRQ +1 X"), irq(1, Some("X")));
    assert_eq!(in_body("IRQ 004"), irq(4, None));
    assert_eq!(in_body("IRQ +0"), irq(0, None));
}

#[test]
fn interrupt_types_out_of_range() {
    assert_eq!(in_body("IRQ 5"), fails(ErrorKind::UnknownIrqType, "5"));
    assert_eq!(in_body("IRQ 5 X"), fails(ErrorKind::UnknownIrqType, "5"));
    assert_eq!(in_body("IRQ 255"), fails(ErrorKind::UnknownIrqType, "255"));
    assert_eq!(in_body("IRQ 255 X Y"), fails(ErrorKind::UnknownIrqType, "255"));
}

#[test]
fn interrupt_types_that_are_no_numbers() {
    assert_eq!(in_body("IRQ"), fails(ErrorKind::ExpectedInteger, ""));
    assert_eq!(in_body("IRQ x"), fails(ErrorKind::BadInteger, "x"));
    assert_eq!(in_body("IRQ 256"), fails(ErrorKind::BadInteger, "256"));
    assert_eq!(in_body("IRQ -1"), fails(ErrorKind::BadInteger, "-1"));
    assert_eq!(in_body("IRQ 1x y"), fails(ErrorKind::BadInteger, "1x"));
}

#[test]
fn pseudo_instructions_expand_to_interrupts() {
    assert_eq!(in_body("HALT"), irq(0, None));
    assert_eq!(in_body("PRINT foo"), irq(1, Some("foo")));
    assert_eq!(in_body("READ foo"), irq(2, Some("foo")));
    assert_eq!(in_body("SET 1010"), irq(3, Some("1010")));
    assert_eq!(in_body("CLEAR"), irq(4, None));
}

#[test]
fn set_keeps_its_literal_as_written() {
    assert_eq!(in_body("SET +0011"), irq(3, Some("+0011")));
    assert_eq!(in_body("SET 0"), irq(3, Some("0")));
    assert_eq!(
        in_body("SET 11111111111111111111111111111111"),
        irq(3, Some("11111111111111111111111111111111"))
    );
}

#[test]
fn set_wants_a_binary_literal() {
    assert_eq!(in_body("SET"), fails(ErrorKind::ExpectedLabel, ""));
    assert_eq!(in_body("SET 102"), fails(ErrorKind::BadBinary, "102"));
    assert_eq!(in_body("SET foo"), fails(ErrorKind::BadBinary, "foo"));
    assert_eq!(
        in_body("SET 100000000000000000000000000000000"),
        fails(ErrorKind::BadBinary, "100000000000000000000000000000000")
    );
    assert_eq!(in_body("SET 1 0"), fails(ErrorKind::UnexpectedArgument, "0"));
}

#[test]
fn pseudo_instructions_and_their_arguments() {
    assert_eq!(in_body("PRINT"), fails(ErrorKind::ExpectedLabel, ""));
    assert_eq!(in_body("READ"), fails(ErrorKind::ExpectedLabel, ""));
    assert_eq!(in_body("PRINT a b"), fails(ErrorKind::UnexpectedArgument, "b"));
    assert_eq!(in_body("HALT now"), fails(ErrorKind::UnexpectedArgument, "now"));
    assert_eq!(in_body("CLEAR all"), fails(ErrorKind::UnexpectedArgument, "all"));
}

#[test]
fn structure_in_the_body() {
    assert_eq!(in_body("END"), Ok(Statement::End));
    assert_eq!(in_body("END now"), fails(ErrorKind::UnexpectedArgument, "now"));
    assert_eq!(in_body("BEGIN"), fails(ErrorKind::RepeatedBegin, ""));
    assert_eq!(in_body("EXTERN name"), fails(ErrorKind::ExternAfterBegin, ""));
    assert_eq!(in_body("EXTERN"), fails(ErrorKind::ExternAfterBegin, ""));
}

#[test]
fn structure_before_the_body() {
    assert_eq!(before_body("BEGIN"), Ok(Statement::Begin));
    assert_eq!(before_body("BEGIN now"), fails(ErrorKind::UnexpectedArgument, "now"));
    assert_eq!(before_body("EXTERN name"), Ok(Statement::Declare { name: cs("name") }));
    assert_eq!(before_body("EXTERN"), fails(ErrorKind::ExternWithoutLabel, ""));
    assert_eq!(before_body("EXTERN a b"), fails(ErrorKind::UnexpectedArgument, "b"));
}

#[test]
fn other_pseudo_instructions_before_the_body() {
    for name in ["HALT", "PRINT", "READ", "SET", "CLEAR", "END"] {
        assert_eq!(before_body(name), fails(ErrorKind::ExpectedBeginOrExtern, name));
        assert_eq!(
            before_body(&format!("{} x", name)),
            fails(ErrorKind::ExpectedBeginOrExtern, name)
        );
    }
}

#[test]
fn instructions_before_the_body_fail_before_their_arguments_are_read() {
    assert_eq!(before_body("IRQ"), fails(ErrorKind::InstructionBeforeBegin, ""));
    assert_eq!(before_body("IRQ 9"), fails(ErrorKind::InstructionBeforeBegin, ""));
    assert_eq!(before_body("LDA"), fails(ErrorKind::InstructionBeforeBegin, ""));
}

#[test]
fn unknown_mnemonics() {
    assert_eq!(in_body("FOO x"), fails(ErrorKind::ExpectedLabelOrInstruction, "FOO"));
    assert_eq!(before_body("FOO"), fails(ErrorKind::ExpectedLabelOrInstruction, "FOO"));
    assert_eq!(in_body("lda x"), fails(ErrorKind::ExpectedLabelOrInstruction, "lda"));
    assert_eq!(
        parse_statement(&toks("FOO x"), true, true, 7),
        fails(ErrorKind::ExpectedInstruction, "FOO")
    );
}

#[test]
fn the_line_number_is_passed_on() {
    let e = parse_statement(&toks("LDA"), true, false, 123).unwrap_err();
    assert_eq!(e.line, 123);
}
