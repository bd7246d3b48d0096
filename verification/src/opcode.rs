//! The mnemonics of the target machine: its real instructions and the
//! pseudo-instructions that the assembler expands or obeys.

use crate::chars::has_space;
use crate::chars::is_space;
use crate::chars::spells;
use vstd::prelude::*;

verus! {

/// The instructions of the target machine, in the order of their numbers.
/// Every one but `IRQ` takes exactly one argument.
#[allow(non_camel_case_types)]
#[derive(Clone, Copy, Debug, PartialEq, Eq, Hash, Structural)]
pub enum OpCodes {
    /// Interrupt: the one instruction whose arguments depend on its first one,
    /// the interrupt type.
    IRQ,
    /// Load.
    LDA,
    /// Store.
    STA,
    /// Add.
    ADD,
    /// Subtract.
    SUB,
    /// Multiply.
    MUL,
    /// Divide.
    DIV,
    /// Compare.
    CMP,
    /// Negate.
    NEG,
    /// Branch on a condition.
    BEQ,
    /// Branch on a condition.
    BGT,
    /// Branch on a condition.
    BLT,
    /// Branch on a condition.
    BHS,
    /// Branch on a condition.
    BMI,
    /// Branch on a condition.
    BVS,
    /// Branch on a condition.
    BHI,
    /// Push on the stack.
    PSH,
    /// Pop off the stack.
    POP,
    /// Call.
    JAL,
    /// Jump.
    JMP,
    /// Bitwise and.
    AND,
    /// Bitwise or.
    ORR,
    /// Bitwise not.
    NOT,
    /// Bitwise exclusive or.
    XOR,
    /// Shift left.
    LSL,
    /// Shift right.
    LSR,
    /// Arithmetic shift left.
    ASL,
    /// Arithmetic shift right.
    ASR,
    /// Rotate.
    ROR,
    /// Rotate.
    RCR,
    /// Count leading zeros.
    CLZ,
    /// Return.
    RET,
    /// Remainder.
    REM,
}

/// The pseudo-instructions, in the order of their numbers. The first five
/// stand for an interrupt whose type is their number.
#[allow(non_camel_case_types)]
#[derive(Clone, Copy, Debug, PartialEq, Eq, Hash, Structural)]
pub enum PseudoOps {
    /// Stops the machine: interrupt 0.
    HALT,
    /// Prints the text at a label: interrupt 1.
    PRINT,
    /// Reads into the storage at a label: interrupt 2.
    READ,
    /// Sets flags from a binary literal: interrupt 3.
    SET,
    /// Clears the flags: interrupt 4.
    CLEAR,
    /// Opens the body.
    BEGIN,
    /// Closes the body.
    END,
    /// Declares a name that is defined elsewhere.
    EXTERN,
}

/// The length and the first three characters of `s`: enough to tell any two
/// mnemonics of one table apart.
pub open spec fn initials(s: Seq<char>) -> (nat, char, char, char) {
    (s.len(), s[0], s[1], s[2])
}

impl OpCodes {
    /// The mnemonic, as it is written in a source line.
    pub open spec fn spelling(self) -> Seq<char> {
        match self {
            OpCodes::IRQ => "IRQ"@,
            OpCodes::LDA => "LDA"@,
            OpCodes::STA => "STA"@,
            OpCodes::ADD => "ADD"@,
            OpCodes::SUB => "SUB"@,
            OpCodes::MUL => "MUL"@,
            OpCodes::DIV => "DIV"@,
            OpCodes::CMP => "CMP"@,
            OpCodes::NEG => "NEG"@,
            OpCodes::BEQ => "BEQ"@,
            OpCodes::BGT => "BGT"@,
            OpCodes::BLT => "BLT"@,
            OpCodes::BHS => "BHS"@,
            OpCodes::BMI => "BMI"@,
            OpCodes::BVS => "BVS"@,
            OpCodes::BHI => "BHI"@,
            OpCodes::PSH => "PSH"@,
            OpCodes::POP => "POP"@,
            OpCodes::JAL => "JAL"@,
            OpCodes::JMP => "JMP"@,
            OpCodes::AND => "AND"@,
            OpCodes::ORR => "ORR"@,
            OpCodes::NOT => "NOT"@,
            OpCodes::XOR => "XOR"@,
            OpCodes::LSL => "LSL"@,
            OpCodes::LSR => "LSR"@,
            OpCodes::ASL => "ASL"@,
            OpCodes::ASR => "ASR"@,
            OpCodes::ROR => "ROR"@,
            OpCodes::RCR => "RCR"@,
            OpCodes::CLZ => "CLZ"@,
            OpCodes::RET => "RET"@,
            OpCodes::REM => "REM"@,
        }
    }

    /// The number of the mnemonic in the table.
    pub open spec fn spec_code(self) -> int {
        match self {
            OpCodes::IRQ => 0,
            OpCodes::LDA => 1,
            OpCodes::STA => 2,
            OpCodes::ADD => 3,
            OpCodes::SUB => 4,
            OpCodes::MUL => 5,
            OpCodes::DIV => 6,
            OpCodes::CMP => 7,
            OpCodes::NEG => 8,
            OpCodes::BEQ => 9,
            OpCodes::BGT => 10,
            OpCodes::BLT => 11,
            OpCodes::BHS => 12,
            OpCodes::BMI => 13,
            OpCodes::BVS => 14,
            OpCodes::BHI => 15,
            OpCodes::PSH => 16,
            OpCodes::POP => 17,
            OpCodes::JAL => 18,
            OpCodes::JMP => 19,
            OpCodes::AND => 20,
            OpCodes::ORR => 21,
            OpCodes::NOT => 22,
            OpCodes::XOR => 23,
            OpCodes::LSL => 24,
            OpCodes::LSR => 25,
            OpCodes::ASL => 26,
            OpCodes::ASR => 27,
            OpCodes::ROR => 28,
            OpCodes::RCR => 29,
            OpCodes::CLZ => 30,
            OpCodes::RET => 31,
            OpCodes::REM => 32,
        }
    }

    /// The mnemonic with number `code`, if the table has one.
    pub open spec fn at(code: int) -> Option<OpCodes> {
        if code == 0 {
            Some(OpCodes::IRQ)
        } else
        if code == 1 {
            Some(OpCodes::LDA)
        } else
        if code == 2 {
            Some(OpCodes::STA)
        } else
        if code == 3 {
            Some(OpCodes::ADD)
        } else
        if code == 4 {
            Some(OpCodes::SUB)
        } else
        if code == 5 {
            Some(OpCodes::MUL)
        } else
        if code == 6 {
            Some(OpCodes::DIV)
        } else
        if code == 7 {
            Some(OpCodes::CMP)
        } else
        if code == 8 {
            Some(OpCodes::NEG)
        } else
        if code == 9 {
            Some(OpCodes::BEQ)
        } else
        if code == 10 {
            Some(OpCodes::BGT)
        } else
        if code == 11 {
            Some(OpCodes::BLT)
        } else
        if code == 12 {
            Some(OpCodes::BHS)
        } else
        if code == 13 {
            Some(OpCodes::BMI)
        } else
        if code == 14 {
            Some(OpCodes::BVS)
        } else
        if code == 15 {
            Some(OpCodes::BHI)
        } else
        if code == 16 {
            Some(OpCodes::PSH)
        } else
        if code == 17 {
            Some(OpCodes::POP)
        } else
        if code == 18 {
            Some(OpCodes::JAL)
        } else
        if code == 19 {
            Some(OpCodes::JMP)
        } else
        if code == 20 {
            Some(OpCodes::AND)
        } else
        if code == 21 {
            Some(OpCodes::ORR)
        } else
        if code == 22 {
            Some(OpCodes::NOT)
        } else
        if code == 23 {
            Some(OpCodes::XOR)
        } else
        if code == 24 {
            Some(OpCodes::LSL)
        } else
        if code == 25 {
            Some(OpCodes::LSR)
        } else
        if code == 26 {
            Some(OpCodes::ASL)
        } else
        if code == 27 {
            Some(OpCodes::ASR)
        } else
        if code == 28 {
            Some(OpCodes::ROR)
        } else
        if code == 29 {
            Some(OpCodes::RCR)
        } else
        if code == 30 {
            Some(OpCodes::CLZ)
        } else
        if code == 31 {
            Some(OpCodes::RET)
        } else
        if code == 32 {
            Some(OpCodes::REM)
        } else {
            None
        }
    }

    /// The mnemonic that `token` spells, if it spells one. Spelling is exact:
    /// upper case, with nothing before or after.
    pub open spec fn named(token: Seq<char>) -> Option<OpCodes> {
        if exists|m: OpCodes| m.spelling() == token {
            Some(choose|m: OpCodes| m.spelling() == token)
        } else {
            None
        }
    }

    /// The mnemonic, as it is written in a source line.
    pub fn mnemonic(self) -> (r: &'static str)
        ensures
            r@ == self.spelling(),
    {
        match self {
            OpCodes::IRQ => "IRQ",
            OpCodes::LDA => "LDA",
            OpCodes::STA => "STA",
            OpCodes::ADD => "ADD",
            OpCodes::SUB => "SUB",
            OpCodes::MUL => "MUL",
            OpCodes::DIV => "DIV",
            OpCodes::CMP => "CMP",
            OpCodes::NEG => "NEG",
            OpCodes::BEQ => "BEQ",
            OpCodes::BGT => "BGT",
            OpCodes::BLT => "BLT",
            OpCodes::BHS => "BHS",
            OpCodes::BMI => "BMI",
            OpCodes::BVS => "BVS",
            OpCodes::BHI => "BHI",
            OpCodes::PSH => "PSH",
            OpCodes::POP => "POP",
            OpCodes::JAL => "JAL",
            OpCodes::JMP => "JMP",
            OpCodes::AND => "AND",
            OpCodes::ORR => "ORR",
            OpCodes::NOT => "NOT",
            OpCodes::XOR => "XOR",
            OpCodes::LSL => "LSL",
            OpCodes::LSR => "LSR",
            OpCodes::ASL => "ASL",
            OpCodes::ASR => "ASR",
            OpCodes::ROR => "ROR",
            OpCodes::RCR => "RCR",
            OpCodes::CLZ => "CLZ",
            OpCodes::RET => "RET",
            OpCodes::REM => "REM",
        }
    }

    /// The number of the mnemonic in the table.
    pub fn code(self) -> (r: u16)
        ensures
            r == self.spec_code(),
            OpCodes::at(r as int) == Some(self),
    {
        match self {
            OpCodes::IRQ => 0,
            OpCodes::LDA => 1,
            OpCodes::STA => 2,
            OpCodes::ADD => 3,
            OpCodes::SUB => 4,
            OpCodes::MUL => 5,
            OpCodes::DIV => 6,
            OpCodes::CMP => 7,
            OpCodes::NEG => 8,
            OpCodes::BEQ => 9,
            OpCodes::BGT => 10,
            OpCodes::BLT => 11,
            OpCodes::BHS => 12,
            OpCodes::BMI => 13,
            OpCodes::BVS => 14,
            OpCodes::BHI => 15,
            OpCodes::PSH => 16,
            OpCodes::POP => 17,
            OpCodes::JAL => 18,
            OpCodes::JMP => 19,
            OpCodes::AND => 20,
            OpCodes::ORR => 21,
            OpCodes::NOT => 22,
            OpCodes::XOR => 23,
            OpCodes::LSL => 24,
            OpCodes::LSR => 25,
            OpCodes::ASL => 26,
            OpCodes::ASR => 27,
            OpCodes::ROR => 28,
            OpCodes::RCR => 29,
            OpCodes::CLZ => 30,
            OpCodes::RET => 31,
            OpCodes::REM => 32,
        }
    }

    /// The mnemonic with number `code`.
    pub fn from_repr(code: u16) -> (r: Option<OpCodes>)
        ensures
            r == OpCodes::at(code as int),
            r matches Some(m) ==> m.spec_code() == code,
            r is None <==> code >= 33,
    {
        match code {
            0 => Some(OpCodes::IRQ),
            1 => Some(OpCodes::LDA),
            2 => Some(OpCodes::STA),
            3 => Some(OpCodes::ADD),
            4 => Some(OpCodes::SUB),
            5 => Some(OpCodes::MUL),
            6 => Some(OpCodes::DIV),
            7 => Some(OpCodes::CMP),
            8 => Some(OpCodes::NEG),
            9 => Some(OpCodes::BEQ),
            10 => Some(OpCodes::BGT),
            11 => Some(OpCodes::BLT),
            12 => Some(OpCodes::BHS),
            13 => Some(OpCodes::BMI),
            14 => Some(OpCodes::BVS),
            15 => Some(OpCodes::BHI),
            16 => Some(OpCodes::PSH),
            17 => Some(OpCodes::POP),
            18 => Some(OpCodes::JAL),
            19 => Some(OpCodes::JMP),
            20 => Some(OpCodes::AND),
            21 => Some(OpCodes::ORR),
            22 => Some(OpCodes::NOT),
            23 => Some(OpCodes::XOR),
            24 => Some(OpCodes::LSL),
            25 => Some(OpCodes::LSR),
            26 => Some(OpCodes::ASL),
            27 => Some(OpCodes::ASR),
            28 => Some(OpCodes::ROR),
            29 => Some(OpCodes::RCR),
            30 => Some(OpCodes::CLZ),
            31 => Some(OpCodes::RET),
            32 => Some(OpCodes::REM),
            _ => None,
        }
    }

    /// The mnemonic that `token` spells.
    pub fn from_mnemonic(token: &[char]) -> (r: Option<OpCodes>)
        ensures
            r == OpCodes::named(token@),
    {
        let mut code: u16 = 0;
        while code < 33
            invariant
                code <= 33,
                forall|m: OpCodes| m.spec_code() < code ==> #[trigger] m.spelling() != token@,
            decreases 33 - code,
        {
            match OpCodes::from_repr(code) {
                Some(m) => {
                    if spells(token, m.mnemonic()) {
                        proof {
                            let c = choose|c: OpCodes| c.spelling() == token@;
                            OpCodes::lemma_spelling_injective(c, m);
                        }
                        return Some(m);
                    }
                },
                None => {},
            }
            code += 1;
        }
        None
    }

    /// Different mnemonics are spelled differently.
    pub proof fn lemma_spelling_injective(a: OpCodes, b: OpCodes)
        requires
            a.spelling() == b.spelling(),
        ensures
            a == b,
    {
        reveal_strlit("IRQ");
        reveal_strlit("LDA");
        reveal_strlit("STA");
        reveal_strlit("ADD");
        reveal_strlit("SUB");
        reveal_strlit("MUL");
        reveal_strlit("DIV");
        reveal_strlit("CMP");
        reveal_strlit("NEG");
        reveal_strlit("BEQ");
        reveal_strlit("BGT");
        reveal_strlit("BLT");
        reveal_strlit("BHS");
        reveal_strlit("BMI");
        reveal_strlit("BVS");
        reveal_strlit("BHI");
        reveal_strlit("PSH");
        reveal_strlit("POP");
        reveal_strlit("JAL");
        reveal_strlit("JMP");
        reveal_strlit("AND");
        reveal_strlit("ORR");
        reveal_strlit("NOT");
        reveal_strlit("XOR");
        reveal_strlit("LSL");
        reveal_strlit("LSR");
        reveal_strlit("ASL");
        reveal_strlit("ASR");
        reveal_strlit("ROR");
        reveal_strlit("RCR");
        reveal_strlit("CLZ");
        reveal_strlit("RET");
        reveal_strlit("REM");
        assert(initials(a.spelling()) == initials(b.spelling()));
    }

    /// A mnemonic has at least one character and holds no whitespace.
    pub proof fn lemma_spelling_solid(m: OpCodes)
        ensures
            m.spelling().len() > 0,
            !has_space(m.spelling()),
    {
        reveal_strlit("IRQ");
        reveal_strlit("LDA");
        reveal_strlit("STA");
        reveal_strlit("ADD");
        reveal_strlit("SUB");
        reveal_strlit("MUL");
        reveal_strlit("DIV");
        reveal_strlit("CMP");
        reveal_strlit("NEG");
        reveal_strlit("BEQ");
        reveal_strlit("BGT");
        reveal_strlit("BLT");
        reveal_strlit("BHS");
        reveal_strlit("BMI");
        reveal_strlit("BVS");
        reveal_strlit("BHI");
        reveal_strlit("PSH");
        reveal_strlit("POP");
        reveal_strlit("JAL");
        reveal_strlit("JMP");
        reveal_strlit("AND");
        reveal_strlit("ORR");
        reveal_strlit("NOT");
        reveal_strlit("XOR");
        reveal_strlit("LSL");
        reveal_strlit("LSR");
        reveal_strlit("ASL");
        reveal_strlit("ASR");
        reveal_strlit("ROR");
        reveal_strlit("RCR");
        reveal_strlit("CLZ");
        reveal_strlit("RET");
        reveal_strlit("REM");
        let s = m.spelling();
        assert forall|i: int| 0 <= i < s.len() implies !is_space(#[trigger] s[i]) by {
            assert(i == 0 || i == 1 || i == 2 || i == 3 || i == 4 || i == 5);
        }
    }

    /// A mnemonic is the one that its own spelling names.
    pub proof fn lemma_named_spelling(m: OpCodes)
        ensures
            OpCodes::named(m.spelling()) == Some(m),
    {
        let c = choose|c: OpCodes| c.spelling() == m.spelling();
        OpCodes::lemma_spelling_injective(c, m);
    }
}

impl PseudoOps {
    /// The mnemonic, as it is written in a source line.
    pub open spec fn spelling(self) -> Seq<char> {
        match self {
            PseudoOps::HALT => "HALT"@,
            PseudoOps::PRINT => "PRINT"@,
            PseudoOps::READ => "READ"@,
            PseudoOps::SET => "SET"@,
            PseudoOps::CLEAR => "CLEAR"@,
            PseudoOps::BEGIN => "BEGIN"@,
            PseudoOps::END => "END"@,
            PseudoOps::EXTERN => "EXTERN"@,
        }
    }

    /// The number of the mnemonic in the table.
    pub open spec fn spec_code(self) -> int {
        match self {
            PseudoOps::HALT => 0,
            PseudoOps::PRINT => 1,
            PseudoOps::READ => 2,
            PseudoOps::SET => 3,
            PseudoOps::CLEAR => 4,
            PseudoOps::BEGIN => 5,
            PseudoOps::END => 6,
            PseudoOps::EXTERN => 7,
        }
    }

    /// The mnemonic with number `code`, if the table has one.
    pub open spec fn at(code: int) -> Option<PseudoOps> {
        if code == 0 {
            Some(PseudoOps::HALT)
        } else
        if code == 1 {
            Some(PseudoOps::PRINT)
        } else
        if code == 2 {
            Some(PseudoOps::READ)
        } else
        if code == 3 {
            Some(PseudoOps::SET)
        } else
        if code == 4 {
            Some(PseudoOps::CLEAR)
        } else
        if code == 5 {
            Some(PseudoOps::BEGIN)
        } else
        if code == 6 {
            Some(PseudoOps::END)
        } else
        if code == 7 {
            Some(PseudoOps::EXTERN)
        } else {
            None
        }
    }

    /// The mnemonic that `token` spells, if it spells one. Spelling is exact:
    /// upper case, with nothing before or after.
    pub open spec fn named(token: Seq<char>) -> Option<PseudoOps> {
        if exists|m: PseudoOps| m.spelling() == token {
            Some(choose|m: PseudoOps| m.spelling() == token)
        } else {
            None
        }
    }

    /// The interrupt type that the pseudo-instruction stands for. `BEGIN`,
    /// `END` and `EXTERN` shape the program and stand for none.
    pub open spec fn spec_interrupt(self) -> Option<u8> {
        match self {
            PseudoOps::HALT => Some(0u8),
            PseudoOps::PRINT => Some(1u8),
            PseudoOps::READ => Some(2u8),
            PseudoOps::SET => Some(3u8),
            PseudoOps::CLEAR => Some(4u8),
            PseudoOps::BEGIN => None,
            PseudoOps::END => None,
            PseudoOps::EXTERN => None,
        }
    }

    /// The interrupt type that the pseudo-instruction stands for.
    pub fn interrupt(self) -> (r: Option<u8>)
        ensures
            r == self.spec_interrupt(),
    {
        match self {
            PseudoOps::HALT => Some(0),
            PseudoOps::PRINT => Some(1),
            PseudoOps::READ => Some(2),
            PseudoOps::SET => Some(3),
            PseudoOps::CLEAR => Some(4),
            PseudoOps::BEGIN => None,
            PseudoOps::END => None,
            PseudoOps::EXTERN => None,
        }
    }

    /// The mnemonic, as it is written in a source line.
    pub fn mnemonic(self) -> (r: &'static str)
        ensures
            r@ == self.spelling(),
    {
        match self {
            PseudoOps::HALT => "HALT",
            PseudoOps::PRINT => "PRINT",
            PseudoOps::READ => "READ",
            PseudoOps::SET => "SET",
            PseudoOps::CLEAR => "CLEAR",
            PseudoOps::BEGIN => "BEGIN",
            PseudoOps::END => "END",
            PseudoOps::EXTERN => "EXTERN",
        }
    }

    /// The number of the mnemonic in the table.
    pub fn code(self) -> (r: u8)
        ensures
            r == self.spec_code(),
            PseudoOps::at(r as int) == Some(self),
    {
        match self {
            PseudoOps::HALT => 0,
            PseudoOps::PRINT => 1,
            PseudoOps::READ => 2,
            PseudoOps::SET => 3,
            PseudoOps::CLEAR => 4,
            PseudoOps::BEGIN => 5,
            PseudoOps::END => 6,
            PseudoOps::EXTERN => 7,
        }
    }

    /// The mnemonic with number `code`.
    pub fn from_repr(code: u8) -> (r: Option<PseudoOps>)
        ensures
            r == PseudoOps::at(code as int),
            r matches Some(m) ==> m.spec_code() == code,
            r is None <==> code >= 8,
    {
        match code {
            0 => Some(PseudoOps::HALT),
            1 => Some(PseudoOps::PRINT),
            2 => Some(PseudoOps::READ),
            3 => Some(PseudoOps::SET),
            4 => Some(PseudoOps::CLEAR),
            5 => Some(PseudoOps::BEGIN),
            6 => Some(PseudoOps::END),
            7 => Some(PseudoOps::EXTERN),
            _ => None,
        }
    }

    /// The mnemonic that `token` spells.
    pub fn from_mnemonic(token: &[char]) -> (r: Option<PseudoOps>)
        ensures
            r == PseudoOps::named(token@),
    {
        let mut code: u8 = 0;
        while code < 8
            invariant
                code <= 8,
                forall|m: PseudoOps| m.spec_code() < code ==> #[trigger] m.spelling() != token@,
            decreases 8 - code,
        {
            match PseudoOps::from_repr(code) {
                Some(m) => {
                    if spells(token, m.mnemonic()) {
                        proof {
                            let c = choose|c: PseudoOps| c.spelling() == token@;
                            PseudoOps::lemma_spelling_injective(c, m);
                        }
                        return Some(m);
                    }
                },
                None => {},
            }
            code += 1;
        }
        None
    }

    /// Different mnemonics are spelled differently.
    pub proof fn lemma_spelling_injective(a: PseudoOps, b: PseudoOps)
        requires
            a.spelling() == b.spelling(),
        ensures
            a == b,
    {
        reveal_strlit("HALT");
        reveal_strlit("PRINT");
        reveal_strlit("READ");
        reveal_strlit("SET");
        reveal_strlit("CLEAR");
        reveal_strlit("BEGIN");
        reveal_strlit("END");
        reveal_strlit("EXTERN");
        assert(initials(a.spelling()) == initials(b.spelling()));
    }

    /// A mnemonic has at least one character and holds no whitespace.
    pub proof fn lemma_spelling_solid(m: PseudoOps)
        ensures
            m.spelling().len() > 0,
            !has_space(m.spelling()),
    {
        reveal_strlit("HALT");
        reveal_strlit("PRINT");
        reveal_strlit("READ");
        reveal_strlit("SET");
        reveal_strlit("CLEAR");
        reveal_strlit("BEGIN");
        reveal_strlit("END");
        reveal_strlit("EXTERN");
        let s = m.spelling();
        assert forall|i: int| 0 <= i < s.len() implies !is_space(#[trigger] s[i]) by {
            assert(i == 0 || i == 1 || i == 2 || i == 3 || i == 4 || i == 5);
        }
    }

    /// A mnemonic is the one that its own spelling names.
    pub proof fn lemma_named_spelling(m: PseudoOps)
        ensures
            PseudoOps::named(m.spelling()) == Some(m),
    {
        let c = choose|c: PseudoOps| c.spelling() == m.spelling();
        PseudoOps::lemma_spelling_injective(c, m);
    }
}

/// No instruction is spelled as a pseudo-instruction is.
pub proof fn lemma_tables_disjoint(op: OpCodes, p: PseudoOps)
    ensures
        op.spelling() != p.spelling(),
{
    reveal_strlit("IRQ");
    reveal_strlit("LDA");
    reveal_strlit("STA");
    reveal_strlit("ADD");
    reveal_strlit("SUB");
    reveal_strlit("MUL");
    reveal_strlit("DIV");
    reveal_strlit("CMP");
    reveal_strlit("NEG");
    reveal_strlit("BEQ");
    reveal_strlit("BGT");
    reveal_strlit("BLT");
    reveal_strlit("BHS");
    reveal_strlit("BMI");
    reveal_strlit("BVS");
    reveal_strlit("BHI");
    reveal_strlit("PSH");
    reveal_strlit("POP");
    reveal_strlit("JAL");
    reveal_strlit("JMP");
    reveal_strlit("AND");
    reveal_strlit("ORR");
    reveal_strlit("NOT");
    reveal_strlit("XOR");
    reveal_strlit("LSL");
    reveal_strlit("LSR");
    reveal_strlit("ASL");
    reveal_strlit("ASR");
    reveal_strlit("ROR");
    reveal_strlit("RCR");
    reveal_strlit("CLZ");
    reveal_strlit("RET");
    reveal_strlit("REM");
    reveal_strlit("HALT");
    reveal_strlit("PRINT");
    reveal_strlit("READ");
    reveal_strlit("SET");
    reveal_strlit("CLEAR");
    reveal_strlit("BEGIN");
    reveal_strlit("END");
    reveal_strlit("EXTERN");
    assert(initials(op.spelling()) != initials(p.spelling()));
}

} // verus!
