//! Programs compiled to uBPF bytecode: loading an object, the tables its
//! bytecode looks up, and the byte images that cross into the machine.
pub mod abi;
pub mod elf;
pub mod meta;
pub mod pipeline;
pub mod table;
pub mod vm;
