use assembler::driver::assemble;
use assembler::driver::parse;
use assembler::error::ErrorKind;
use assembler::image::HeaderEntry;
use assembler::image::Instruction;
use assembler::opcode::OpCodes;

fn cs(s: &str) -> Vec<char> {
    s.chars().collect()
}

fn kind_of(source: &str) -> ErrorKind {
    assemble(source).unwrap_err().kind
}

fn header_count(source: &str) -> usize {
    parse(&cs(source)).unwrap().header.len()
}

#[test]
fn round_trip_scenario() {
    let source = "lbl: .text \"hi\"\nBEGIN\nstart: LDA lbl\nEND";
    assert_eq!(assemble(source).unwrap(), "2\nlbl \"hi\"\nstart 0\nLDA lbl\n");
    let image = parse(&cs(source)).unwrap();
    assert_eq!(
        image.header,
        vec![
            HeaderEntry::Text { name: cs("lbl"), text: cs("hi") },
            HeaderEntry::Offset { name: cs("start"), offset: 0 },
        ]
    );
    assert_eq!(image.body, vec![Instruction::Op { opcode: OpCodes::LDA, arg: cs("lbl") }]);
}

#[test]
fn a_final_line_feed_changes_nothing() {
    let source = "lbl: .text \"hi\"\nBEGIN\nstart: LDA lbl\nEND";
    let with_feed = "lbl: .text \"hi\"\nBEGIN\nstart: LDA lbl\nEND\n";
    assert_eq!(assemble(source), assemble(with_feed));
}

#[test]
fn carriage_returns_are_whitespace() {
    assert_eq!(assemble("BEGIN\r\nHALT\r\nEND\r\n").unwrap(), "0\nIRQ 0\n");
    assert_eq!(
        assemble("m: .text \"a b\"\r\nBEGIN\r\nEND\r\n").unwrap(),
        "1\nm \"a b\"\n"
    );
}

#[test]
fn the_smallest_program() {
    assert_eq!(assemble("BEGIN\nEND").unwrap(), "0\n");
}

#[test]
fn a_whole_program() {
    let source = "\
// constants
EXTERN putc
msg: .text \"hello, world\"   // greeting
tbl: .word 1, 2,3 , +4
BEGIN
start: LDA msg
       PRINT msg
loop:
       ADD tbl
       IRQ 2 buf
       SET 0101
       HALT
       CLEAR
done:  END
";
    let want = "\
6
putc
msg \"hello, world\"
tbl 1,2,3,+4
start 0
loop 2
done 7
LDA msg
IRQ 1 msg
ADD tbl
IRQ 2 buf
IRQ 3 0101
IRQ 0
IRQ 4
";
    assert_eq!(assemble(source).unwrap(), want);
}

#[test]
fn irq_zero_without_argument() {
    assert_eq!(assemble("BEGIN\nIRQ 0\nEND").unwrap(), "0\nIRQ 0\n");
}

#[test]
fn irq_one_with_label() {
    assert_eq!(assemble("BEGIN\nIRQ 1 X\nEND").unwrap(), "0\nIRQ 1 X\n");
}

#[test]
fn irq_one_without_argument_is_rejected() {
    assert_eq!(kind_of("BEGIN\nIRQ 1\nEND"), ErrorKind::ExpectedLabel);
}

#[test]
fn irq_five_is_rejected_whatever_follows() {
    assert_eq!(kind_of("BEGIN\nIRQ 5\nEND"), ErrorKind::UnknownIrqType);
    assert_eq!(kind_of("BEGIN\nIRQ 5 X\nEND"), ErrorKind::UnknownIrqType);
    assert_eq!(kind_of("BEGIN\nIRQ 5 X Y\nEND"), ErrorKind::UnknownIrqType);
}

#[test]
fn set_keeps_the_binary_literal() {
    assert_eq!(assemble("BEGIN\nSET 1010\nEND").unwrap(), "0\nIRQ 3 1010\n");
    assert_eq!(assemble("BEGIN\nSET +0001\nEND").unwrap(), "0\nIRQ 3 +0001\n");
}

#[test]
fn print_and_read_expand_to_their_interrupts() {
    assert_eq!(assemble("BEGIN\nPRINT foo\nEND").unwrap(), "0\nIRQ 1 foo\n");
    assert_eq!(assemble("BEGIN\nREAD foo\nEND").unwrap(), "0\nIRQ 2 foo\n");
}

#[test]
fn halt_and_clear_expand_to_their_interrupts() {
    assert_eq!(assemble("BEGIN\nHALT\nCLEAR\nEND").unwrap(), "0\nIRQ 0\nIRQ 4\n");
}

#[test]
fn the_header_counts_the_declarations() {
    assert_eq!(header_count("BEGIN\nHALT\nEND"), 0);
    assert_eq!(header_count("EXTERN a\nBEGIN\nEND"), 1);
    assert_eq!(header_count("a: .text \"x\"\nb: .word 1\nEXTERN c\nEXTERN d\nBEGIN\nLDA a\nEND"), 4);
    assert_eq!(
        assemble("a: .text \"x\"\nb: .word 1\nEXTERN c\nBEGIN\nLDA a\nEND").unwrap(),
        "3\na \"x\"\nb 1\nc\nLDA a\n"
    );
}

#[test]
fn the_header_counts_labels_too() {
    assert_eq!(header_count("EXTERN a\nBEGIN\nx: HALT\ny:\nEND"), 3);
}

#[test]
fn offsets_in_a_body_without_blank_lines() {
    assert_eq!(
        assemble("BEGIN\nLDA a\nLDA b\nthird: LDA c\nLDA d\nfifth: END").unwrap(),
        "2\nthird 2\nfifth 4\nLDA a\nLDA b\nLDA c\nLDA d\n"
    );
}

#[test]
fn redefinitions_are_rejected_whatever_the_kinds() {
    let first = ["a: .text \"x\"", "a: .word 1", "EXTERN a"];
    let second = ["a: .text \"y\"", "a: .word 2"];
    for f in first {
        for s in second {
            assert_eq!(kind_of(&format!("{}\n{}\nBEGIN\nEND", f, s)), ErrorKind::LabelRedefined);
        }
        assert_eq!(
            kind_of(&format!("{}\nBEGIN\na: HALT\nEND", f)),
            ErrorKind::LabelPreviouslyDefined
        );
    }
    assert_eq!(kind_of("BEGIN\na: HALT\nLDA x\na:\nEND"), ErrorKind::LabelPreviouslyDefined);
}

#[test]
fn names_that_only_share_a_start_are_different_names() {
    assert_eq!(
        assemble("ab: .text \"x\"\na: .text \"y\"\nabc: .word 1\nBEGIN\nEND").unwrap(),
        "3\nab \"x\"\na \"y\"\nabc 1\n"
    );
}

#[test]
fn an_external_name_may_repeat_a_name() {
    assert_eq!(assemble("EXTERN a\nEXTERN a\nBEGIN\nEND").unwrap(), "2\na\na\n");
    assert_eq!(assemble("a: .text \"x\"\nEXTERN a\nBEGIN\nEND").unwrap(), "2\na \"x\"\na\n");
}

#[test]
fn a_source_without_end_is_rejected() {
    assert_eq!(kind_of("BEGIN\nLDA x\n"), ErrorKind::MissingEnd);
    assert_eq!(kind_of("a: .text \"x\"\nBEGIN\nl: LDA a\nHALT"), ErrorKind::MissingEnd);
    assert_eq!(kind_of(""), ErrorKind::MissingEnd);
}

#[test]
fn content_after_end_is_rejected() {
    assert_eq!(kind_of("BEGIN\nEND\nHALT"), ErrorKind::ContentAfterEnd);
    assert_eq!(kind_of("BEGIN\nEND\n\n\n  x"), ErrorKind::ContentAfterEnd);
    assert_eq!(kind_of("BEGIN\nEND\nEND"), ErrorKind::ContentAfterEnd);
    assert_eq!(kind_of("BEGIN\nEND\na: .text \"x\""), ErrorKind::ContentAfterEnd);
}

#[test]
fn blank_lines_and_comments_after_end_are_fine() {
    assert_eq!(assemble("BEGIN\nEND\n\n  \n// bye\n").unwrap(), "0\n");
}

#[test]
fn text_payloads() {
    let cases = [
        ("a: .text \"hi\"", "a \"hi\""),
        ("a: .text hi", "a \"hi\""),
        ("a: .text \"hi", "a \"hi\""),
        ("a: .text    \"x y\"", "a \"x y\""),
        ("a : .text \"x\"", "a \"x\""),
        ("a: .text \"\"", "a \"\""),
        ("a: .text \"", "a \"\""),
        ("a: .text \"a\"b\"", "a \"a\"b\""),
        ("a: .text \"b:c\"", "a \"b:c\""),
        ("a: .text\t\"tab\"", "a \"tab\""),
        ("a: .text \"x\" // \"y\"", "a \"x\""),
        ("a: .text \"1 .word 2\"", "a \"1 .word 2\""),
    ];
    for (line, entry) in cases {
        assert_eq!(
            assemble(&format!("{}\nBEGIN\nEND", line)).unwrap(),
            format!("1\n{}\n", entry),
            "{:?}",
            line
        );
    }
}

#[test]
fn word_lists_keep_their_items_as_written() {
    assert_eq!(
        assemble("t: .word 007, +1 ,4294967295\nBEGIN\nEND").unwrap(),
        "1\nt 007,+1,4294967295\n"
    );
    assert_eq!(assemble("t : .word\t5\nBEGIN\nEND").unwrap(), "1\nt 5\n");
}

#[test]
fn labels_may_stand_apart_from_their_colon() {
    assert_eq!(assemble("BEGIN\nloop : HALT\nEND").unwrap(), "1\nloop 0\nIRQ 0\n");
}

#[test]
fn a_statement_may_follow_its_label_at_once() {
    assert_eq!(assemble("BEGIN\nloop:HALT\nEND").unwrap(), "1\nloop 0\nIRQ 0\n");
}

#[test]
fn the_image_has_a_line_for_the_count_and_one_for_each_entry_and_instruction() {
    let source = "EXTERN e\nt: .text \"a b  c\"\nw: .word 1,2\nBEGIN\nx: LDA t\ny:\nIRQ 2 w\nEND";
    let image = parse(&cs(source)).unwrap();
    let text = image.text();
    let lines: Vec<&str> = text.lines().collect();
    assert_eq!(lines.len(), 1 + image.header.len() + image.body.len());
    assert_eq!(lines[0], image.header.len().to_string());
    for (i, entry) in image.header.iter().enumerate() {
        assert_eq!(lines[1 + i], entry.line());
    }
    for (i, instruction) in image.body.iter().enumerate() {
        assert_eq!(lines[1 + image.header.len() + i], instruction.line());
    }
    assert!(text.ends_with('\n'));
    assert_eq!(assemble(source).unwrap(), text);
}
