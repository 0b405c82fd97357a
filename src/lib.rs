//! A RISC-V integer-ISA emulator core (RV32I / RV64I): instruction decoding,
//! execution, a bounds-checked little-endian memory, and the placement of an
//! ELF executable's loadable segments in that memory.
pub mod alu;
pub mod bus;
pub mod cpu;
pub mod decode;
pub mod dram;
pub mod fault;
pub mod loader;
