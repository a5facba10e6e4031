//! Assembler and fetch-decode-execute engine for the Little Man Computer.
pub mod alu;
pub mod assembler;
pub mod lmc;
pub mod table;
pub mod text;
