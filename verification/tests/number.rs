use assembler::number::digit_of;
use assembler::number::digit_to_char;
use assembler::number::parse_binary;
use assembler::number::parse_u32;
use assembler::number::parse_u8;
use assembler::number::parse_unsigned;
use assembler::number::push_decimal;
use assembler::number::to_decimal;

fn cs(s: &str) -> Vec<char> {
    s.chars().collect()
}

const LITERALS: [&str; 40] = [
    "",
    "+",
    "-",
    "0",
    "1",
    "9",
    "10",
    "007",
    "+5",
    "+0",
    "++5",
    "-1",
    "-0",
    "255",
    "256",
    "0255",
    "+255",
    "4294967295",
    "4294967296",
    "04294967295",
    "42949672950",
    "99999999999999999999",
    "00000000000000000000000000000000000000001",
    "12a",
    "a12",
    " 1",
    "1 ",
    "1_000",
    "0x10",
    "１２",
    "1010",
    "2",
    "102",
    "11111111111111111111111111111111",
    "100000000000000000000000000000000",
    "+11111111",
    "011111111111111111111111111111111",
    "1.5",
    "1e3",
    "٣",
];

#[test]
fn decimal_32_bit_literals_agree_with_std() {
    for s in LITERALS {
        assert_eq!(parse_u32(&cs(s)), s.parse::<u32>().ok(), "{:?}", s);
    }
}

#[test]
fn decimal_8_bit_literals_agree_with_std() {
    for s in LITERALS {
        assert_eq!(parse_u8(&cs(s)), s.parse::<u8>().ok(), "{:?}", s);
    }
}

#[test]
fn binary_literals_agree_with_std() {
    for s in LITERALS {
        assert_eq!(parse_binary(&cs(s)), u32::from_str_radix(s, 2).ok(), "{:?}", s);
    }
}

#[test]
fn parse_unsigned_honours_radix_and_bound() {
    assert_eq!(parse_unsigned(&cs("777"), 8, 511), Some(511));
    assert_eq!(parse_unsigned(&cs("1000"), 8, 511), None);
    assert_eq!(parse_unsigned(&cs("8"), 8, 511), None);
    assert_eq!(parse_unsigned(&cs("12"), 3, 100), Some(5));
    assert_eq!(parse_unsigned(&cs("0"), 2, 0), Some(0));
    assert_eq!(parse_unsigned(&cs("1"), 2, 0), None);
}

#[test]
fn exact_values() {
    assert_eq!(parse_u32(&cs("4294967295")), Some(4294967295));
    assert_eq!(parse_u32(&cs("+42")), Some(42));
    assert_eq!(parse_u8(&cs("4")), Some(4));
    assert_eq!(parse_u8(&cs("255")), Some(255));
    assert_eq!(parse_u8(&cs("256")), None);
    assert_eq!(parse_binary(&cs("1010")), Some(10));
    assert_eq!(parse_binary(&cs("11111111111111111111111111111111")), Some(u32::MAX));
}

#[test]
fn digits_both_ways() {
    assert_eq!(digit_of('0', 10), Some(0));
    assert_eq!(digit_of('9', 10), Some(9));
    assert_eq!(digit_of('1', 2), Some(1));
    assert_eq!(digit_of('2', 2), None);
    assert_eq!(digit_of('/', 10), None);
    assert_eq!(digit_of(':', 10), None);
    assert_eq!(digit_of('a', 10), None);
    for d in 0..10u8 {
        let c = digit_to_char(d);
        assert_eq!(c, (b'0' + d) as char);
        assert_eq!(digit_of(c, 10), Some(d as u32));
    }
}

#[test]
fn decimal_writing_agrees_with_std() {
    let values = [
        0u64,
        1,
        9,
        10,
        11,
        99,
        100,
        101,
        255,
        33554431,
        33554432,
        4294967295,
        4294967296,
        u64::MAX - 1,
        u64::MAX,
    ];
    for n in values {
        let got: String = to_decimal(n).iter().collect();
        assert_eq!(got, n.to_string());
    }
}

#[test]
fn push_decimal_appends() {
    let mut out = cs("line ");
    push_decimal(&mut out, 120);
    push_decimal(&mut out, 0);
    let got: String = out.iter().collect();
    assert_eq!(got, "line 1200");
}

#[test]
fn written_numbers_read_back() {
    for n in [0u32, 7, 10, 4096, 33554431, u32::MAX] {
        assert_eq!(parse_u32(&to_decimal(n as u64)), Some(n));
    }
}
