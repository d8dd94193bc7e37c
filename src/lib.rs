//! Firmware image analysis: memory layout and region conflicts, the trace
//! control block, symbol tables and the debug-information symbol tree.

pub mod types;
pub mod text;
pub mod conflicts;
pub mod dwarf;
pub mod dwarf_attr;
pub mod elf;
pub mod order;
pub mod regions;
pub mod rtt;
pub mod size_text;
