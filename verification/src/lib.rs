//! A single-pass assembler for a small instruction set: it reads the source
//! text of a program line by line and writes the program image, a header of
//! symbols and constants followed by the instructions.

pub mod chars;
pub mod driver;
pub mod error;
pub mod image;
pub mod laws;
pub mod line;
pub mod machine;
pub mod number;
pub mod opcode;
pub mod statement;

pub use crate::driver::assemble;
pub use crate::driver::parse;
pub use crate::error::AsmError;
pub use crate::error::ErrorKind;
pub use crate::image::HeaderEntry;
pub use crate::image::Image;
pub use crate::image::Instruction;
pub use crate::machine::Assembler;
pub use crate::machine::Phase;
pub use crate::opcode::OpCodes;
pub use crate::opcode::PseudoOps;
