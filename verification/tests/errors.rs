use assembler::driver::assemble;
use assembler::error::AsmError;
use assembler::error::ErrorKind;

fn cs(s: &str) -> Vec<char> {
    s.chars().collect()
}

fn check(source: &str, kind: ErrorKind, line: usize, token: &str, message: &str) {
    let e = assemble(source).unwrap_err();
    assert_eq!(e, AsmError { kind, line, token: cs(token) }, "{:?}", source);
    assert_eq!(e.message(), message, "{:?}", source);
}

#[test]
fn content_after_end() {
    check("BEGIN\nEND\nLDA x", ErrorKind::ContentAfterEnd, 3, "", "File continues after END");
    check("BEGIN\nEND\n\nEND", ErrorKind::ContentAfterEnd, 4, "", "File continues after END");
    check("BEGIN\nx: END\n???", ErrorKind::ContentAfterEnd, 3, "", "File continues after END");
}

#[test]
fn directives_after_begin() {
    check(
        "BEGIN\nl: .text \"x\"",
        ErrorKind::TextAfterBegin,
        2,
        "",
        "Found .text directive after BEGIN statement at line 2",
    );
    check(
        "BEGIN\nLDA my.text",
        ErrorKind::TextAfterBegin,
        2,
        "",
        "Found .text directive after BEGIN statement at line 2",
    );
    check(
        "\nBEGIN\n\nl: .word 1",
        ErrorKind::WordAfterBegin,
        4,
        "",
        "Found .word directive after BEGIN statement at line 4",
    );
}

#[test]
fn directives_without_label() {
    check(
        ".text \"x\"",
        ErrorKind::TextWithoutLabel,
        1,
        "",
        "Expected label before .text directive at line 1",
    );
    check(
        "lbl .text \"x\"",
        ErrorKind::TextWithoutLabel,
        1,
        "",
        "Expected label before .text directive at line 1",
    );
    check(
        "EXTERN a\nw .word 1",
        ErrorKind::WordWithoutLabel,
        2,
        "",
        "Expected label before .word directive at line 2",
    );
}

#[test]
fn whitespace_in_labels() {
    check(
        "my lbl: .text \"x\"",
        ErrorKind::WhitespaceInLabel,
        1,
        "my lbl",
        "Found whitespace in label at line 1\n\tmy lbl",
    );
    check(
        "my\tlbl : .word 1",
        ErrorKind::WhitespaceInLabel,
        1,
        "my\tlbl",
        "Found whitespace in label at line 1\n\tmy\tlbl",
    );
    check(
        "BEGIN\nmy lbl: LDA x",
        ErrorKind::WhitespaceInLabel,
        2,
        "my lbl",
        "Found whitespace in label at line 2\n\tmy lbl",
    );
}

#[test]
fn redefined_labels() {
    check(
        "a: .text \"x\"\na: .word 1",
        ErrorKind::LabelRedefined,
        2,
        "a",
        "Found label redefinition at line 2\n\ta",
    );
    check(
        "a: .word 1\n\na: .text \"x\"",
        ErrorKind::LabelRedefined,
        3,
        "a",
        "Found label redefinition at line 3\n\ta",
    );
    check(
        "EXTERN a\na: .text \"x\"",
        ErrorKind::LabelRedefined,
        2,
        "a",
        "Found label redefinition at line 2\n\ta",
    );
    check(
        "a: .text \"x\"\nBEGIN\na: LDA x",
        ErrorKind::LabelPreviouslyDefined,
        3,
        "a",
        "Label a found at line 3 previously defined",
    );
    check(
        "EXTERN a\nBEGIN\na: LDA x",
        ErrorKind::LabelPreviouslyDefined,
        3,
        "a",
        "Label a found at line 3 previously defined",
    );
    check(
        "BEGIN\na: LDA x\na: LDA y",
        ErrorKind::LabelPreviouslyDefined,
        3,
        "a",
        "Label a found at line 3 previously defined",
    );
    check(
        "BEGIN\na:\na:",
        ErrorKind::LabelPreviouslyDefined,
        3,
        "a",
        "Label a found at line 3 previously defined",
    );
}

#[test]
fn empty_labels_are_never_free() {
    check(
        ": .text \"x\"",
        ErrorKind::LabelRedefined,
        1,
        "",
        "Found label redefinition at line 1\n\t",
    );
    check(
        " : .word 1",
        ErrorKind::LabelRedefined,
        1,
        "",
        "Found label redefinition at line 1\n\t",
    );
    check(
        "BEGIN\n: LDA x",
        ErrorKind::LabelPreviouslyDefined,
        2,
        "",
        "Label  found at line 2 previously defined",
    );
}

#[test]
fn directives_without_whitespace() {
    check(
        "a: .text\"x\"",
        ErrorKind::TextWithoutWhitespace,
        1,
        "",
        "Expected whitespace after .text directive at line 1",
    );
    check(
        "a: .text",
        ErrorKind::TextWithoutWhitespace,
        1,
        "",
        "Expected whitespace after .text directive at line 1",
    );
    check(
        "a: .text // nothing",
        ErrorKind::TextWithoutWhitespace,
        1,
        "",
        "Expected whitespace after .text directive at line 1",
    );
    check(
        "a: .word1,2",
        ErrorKind::WordWithoutWhitespace,
        1,
        "",
        "Expected whitespace after .word directive at line 1",
    );
    check(
        "a: .word",
        ErrorKind::WordWithoutWhitespace,
        1,
        "",
        "Expected whitespace after .word directive at line 1",
    );
}

#[test]
fn bad_words() {
    check("a: .word 1, x2, y3", ErrorKind::BadWord, 1, "x2", "Couldn't parse word at line 1\n\tx2");
    check("a: .word 1,,2", ErrorKind::BadWord, 1, "", "Couldn't parse word at line 1\n\t");
    check(
        "a: .word 4294967296",
        ErrorKind::BadWord,
        1,
        "4294967296",
        "Couldn't parse word at line 1\n\t4294967296",
    );
    check("a: .word -1", ErrorKind::BadWord, 1, "-1", "Couldn't parse word at line 1\n\t-1");
    check("a: .word 1 2", ErrorKind::BadWord, 1, "1 2", "Couldn't parse word at line 1\n\t1 2");
}

#[test]
fn labels_before_begin() {
    check(
        "a: LDA x",
        ErrorKind::LabelBeforeBegin,
        1,
        "",
        "Expected directive after label at line 1",
    );
    check("a:", ErrorKind::LabelBeforeBegin, 1, "", "Expected directive after label at line 1");
    check(
        "a b: BEGIN",
        ErrorKind::LabelBeforeBegin,
        1,
        "",
        "Expected directive after label at line 1",
    );
}

#[test]
fn interrupts() {
    check("BEGIN\nIRQ", ErrorKind::ExpectedInteger, 2, "", "Expected integer at line 2");
    check(
        "BEGIN\nIRQ x",
        ErrorKind::BadInteger,
        2,
        "x",
        "Expected integer at line 2\n\tfound x instead",
    );
    check(
        "BEGIN\nl: IRQ 256 y",
        ErrorKind::BadInteger,
        2,
        "256",
        "Expected integer at line 2\n\tfound 256 instead",
    );
    check("BEGIN\nIRQ 0 x", ErrorKind::UnexpectedArgument, 2, "x", "Unexpected argument at line 2\n\tx");
    check("BEGIN\nIRQ 5", ErrorKind::UnknownIrqType, 2, "5", "Unknown IRQ type at line 2\n\t5");
    check("BEGIN\nIRQ 5 x", ErrorKind::UnknownIrqType, 2, "5", "Unknown IRQ type at line 2\n\t5");
    check("BEGIN\nIRQ 1", ErrorKind::ExpectedLabel, 2, "", "Expected label at line 2");
}

#[test]
fn arguments() {
    check("BEGIN\nLDA", ErrorKind::ExpectedLabel, 2, "", "Expected label at line 2");
    check("BEGIN\nx: STA", ErrorKind::ExpectedLabel, 2, "", "Expected label at line 2");
    check("BEGIN\nSET", ErrorKind::ExpectedLabel, 2, "", "Expected label at line 2");
    check("BEGIN\nPRINT", ErrorKind::ExpectedLabel, 2, "", "Expected label at line 2");
    check("BEGIN\nLDA x y", ErrorKind::UnexpectedArgument, 2, "y", "Unexpected argument at line 2\n\ty");
    check(
        "BEGIN\nl: LDA x y",
        ErrorKind::UnexpectedArgument,
        2,
        "y",
        "Unexpected argument at line 2\n\ty",
    );
    check("BEGIN\nEND now", ErrorKind::UnexpectedArgument, 2, "now", "Unexpected argument at line 2\n\tnow");
    check("BEGIN now", ErrorKind::UnexpectedArgument, 1, "now", "Unexpected argument at line 1\n\tnow");
    check("EXTERN a b", ErrorKind::UnexpectedArgument, 1, "b", "Unexpected argument at line 1\n\tb");
    check(
        "BEGIN\nSET 102",
        ErrorKind::BadBinary,
        2,
        "102",
        "Expected binary number as argument at line 2\n\tfound 102 instead",
    );
}

#[test]
fn unknown_mnemonic_errors() {
    check(
        "BEGIN\nl: FOO x",
        ErrorKind::ExpectedInstruction,
        2,
        "FOO",
        "Expected instruction at line 2\t\nfound FOO instead",
    );
    check(
        "FOO",
        ErrorKind::ExpectedLabelOrInstruction,
        1,
        "FOO",
        "Expected label or instruction at line 1\t\nfound FOO instead",
    );
    check(
        "BEGIN\nbegin",
        ErrorKind::ExpectedLabelOrInstruction,
        2,
        "begin",
        "Expected label or instruction at line 2\t\nfound begin instead",
    );
}

#[test]
fn structure() {
    check(
        "BEGIN\nEXTERN a",
        ErrorKind::ExternAfterBegin,
        2,
        "",
        "Found EXTERN statement after BEGIN at line 2",
    );
    check(
        "BEGIN\nl: EXTERN a",
        ErrorKind::ExternAfterBegin,
        2,
        "",
        "Found EXTERN statement after BEGIN at line 2",
    );
    check(
        "BEGIN\nBEGIN",
        ErrorKind::RepeatedBegin,
        2,
        "",
        "Found repeated BEGIN statement at line 2",
    );
    check(
        "BEGIN\nHALT\nl: BEGIN",
        ErrorKind::RepeatedBegin,
        3,
        "",
        "Found repeated BEGIN statement at line 3",
    );
    check(
        "LDA x",
        ErrorKind::InstructionBeforeBegin,
        1,
        "",
        "Found instruction before BEGIN statement at line 1",
    );
    check("EXTERN", ErrorKind::ExternWithoutLabel, 1, "", "Expected label after EXTERN at line 1");
    check(
        "HALT",
        ErrorKind::ExpectedBeginOrExtern,
        1,
        "HALT",
        "Expected BEGIN or EXTERN statement or label at line 1\n\tfound HALT instead",
    );
    check(
        "END",
        ErrorKind::ExpectedBeginOrExtern,
        1,
        "END",
        "Expected BEGIN or EXTERN statement or label at line 1\n\tfound END instead",
    );
}

#[test]
fn missing_end() {
    check("", ErrorKind::MissingEnd, 0, "", "END statement missing");
    check("BEGIN", ErrorKind::MissingEnd, 1, "", "END statement missing");
    check("a: .text \"x\"\nBEGIN\nLDA a\n", ErrorKind::MissingEnd, 3, "", "END statement missing");
    check("BEGIN\nLDA END\n", ErrorKind::MissingEnd, 2, "", "END statement missing");
    check("BEGIN\n// END\n", ErrorKind::MissingEnd, 2, "", "END statement missing");
}

#[test]
fn the_first_error_wins() {
    check(
        "FOO\nBEGIN\nBEGIN",
        ErrorKind::ExpectedLabelOrInstruction,
        1,
        "FOO",
        "Expected label or instruction at line 1\t\nfound FOO instead",
    );
    check(
        "BEGIN\nLDA\nEND\nmore",
        ErrorKind::ExpectedLabel,
        2,
        "",
        "Expected label at line 2",
    );
}

#[test]
fn line_numbers_have_all_their_digits() {
    let mut source = String::from("BEGIN\n");
    for _ in 0..1233 {
        source.push_str("HALT\n");
    }
    source.push_str("LDA\n");
    check(&source, ErrorKind::ExpectedLabel, 1235, "", "Expected label at line 1235");
}

#[test]
fn messages_of_errors_made_by_hand() {
    let e = AsmError::new(ErrorKind::FileTooBig, 9);
    assert_eq!(e, AsmError { kind: ErrorKind::FileTooBig, line: 9, token: vec![] });
    assert_eq!(e.message(), "File too big!");
    let e = AsmError::with_token(ErrorKind::BadWord, 10, &cs("1x"));
    assert_eq!(e, AsmError { kind: ErrorKind::BadWord, line: 10, token: cs("1x") });
    assert_eq!(e.message(), "Couldn't parse word at line 10\n\t1x");
}
