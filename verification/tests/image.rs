use assembler::chars::push_joined;
use assembler::image::HeaderEntry;
use assembler::image::Image;
use assembler::image::Instruction;
use assembler::image::OFFSET_LIMIT;
use assembler::opcode::OpCodes;

fn cs(s: &str) -> Vec<char> {
    s.chars().collect()
}

#[test]
fn header_entries_as_lines() {
    assert_eq!(HeaderEntry::External { name: cs("putc") }.line(), "putc");
    assert_eq!(HeaderEntry::Text { name: cs("lbl"), text: cs("hi") }.line(), "lbl \"hi\"");
    assert_eq!(HeaderEntry::Text { name: cs("e"), text: cs("") }.line(), "e \"\"");
    assert_eq!(
        HeaderEntry::Words { name: cs("tbl"), words: vec![cs("1"), cs("+2"), cs("003")] }.line(),
        "tbl 1,+2,003"
    );
    assert_eq!(HeaderEntry::Words { name: cs("one"), words: vec![cs("7")] }.line(), "one 7");
    assert_eq!(HeaderEntry::Offset { name: cs("start"), offset: 0 }.line(), "start 0");
    assert_eq!(
        HeaderEntry::Offset { name: cs("far"), offset: OFFSET_LIMIT - 1 }.line(),
        "far 33554431"
    );
}

#[test]
fn header_entries_have_names() {
    assert_eq!(HeaderEntry::External { name: cs("a") }.name(), &cs("a")[..]);
    assert_eq!(HeaderEntry::Text { name: cs("b"), text: cs("t") }.name(), &cs("b")[..]);
    assert_eq!(HeaderEntry::Words { name: cs("c"), words: vec![] }.name(), &cs("c")[..]);
    assert_eq!(HeaderEntry::Offset { name: cs("d"), offset: 3 }.name(), &cs("d")[..]);
}

#[test]
fn instructions_as_lines() {
    assert_eq!(Instruction::Op { opcode: OpCodes::LDA, arg: cs("lbl") }.line(), "LDA lbl");
    assert_eq!(Instruction::Op { opcode: OpCodes::REM, arg: cs("12") }.line(), "REM 12");
    assert_eq!(Instruction::Irq { kind: 0, operand: None }.line(), "IRQ 0");
    assert_eq!(Instruction::Irq { kind: 1, operand: Some(cs("X")) }.line(), "IRQ 1 X");
    assert_eq!(Instruction::Irq { kind: 3, operand: Some(cs("1010")) }.line(), "IRQ 3 1010");
}

#[test]
fn joining_puts_the_separator_between() {
    let mut out = cs(">");
    push_joined(&mut out, &vec![], ',');
    assert_eq!(out, cs(">"));
    push_joined(&mut out, &vec![cs("a")], ',');
    assert_eq!(out, cs(">a"));
    push_joined(&mut out, &vec![cs("b"), cs(""), cs("c")], ';');
    assert_eq!(out, cs(">ab;;c"));
}

#[test]
fn the_empty_image() {
    assert_eq!(Image { header: vec![], body: vec![] }.text(), "0\n");
}

#[test]
fn an_image_as_text() {
    let image = Image {
        header: vec![
            HeaderEntry::External { name: cs("putc") },
            HeaderEntry::Text { name: cs("msg"), text: cs("hello, world") },
            HeaderEntry::Words { name: cs("tbl"), words: vec![cs("1"), cs("2")] },
            HeaderEntry::Offset { name: cs("start"), offset: 0 },
        ],
        body: vec![
            Instruction::Op { opcode: OpCodes::LDA, arg: cs("msg") },
            Instruction::Irq { kind: 1, operand: Some(cs("msg")) },
            Instruction::Irq { kind: 0, operand: None },
        ],
    };
    assert_eq!(
        image.text(),
        "4\nputc\nmsg \"hello, world\"\ntbl 1,2\nstart 0\nLDA msg\nIRQ 1 msg\nIRQ 0\n"
    );
}

#[test]
fn the_count_has_as_many_digits_as_it_needs() {
    let header: Vec<HeaderEntry> =
        (0..12).map(|i| HeaderEntry::Offset { name: cs("l"), offset: i }).collect();
    let text = Image { header, body: vec![] }.text();
    assert!(text.starts_with("12\nl 0\nl 1\n"));
    assert!(text.ends_with("l 11\n"));
    assert_eq!(text.lines().count(), 13);
}
