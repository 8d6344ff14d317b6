//! Watch expressions over the memory of a simulated AVR microcontroller.

pub mod avr_print;
pub mod command_line;
pub mod data_type;
pub mod decode;
pub mod dump;
pub mod elf;
pub mod error;
pub mod evaluate;
pub mod machine;
pub mod mcu;
pub mod order;
pub mod pointer;
pub mod render;
pub mod report;
pub mod snapshot;
pub mod space;
pub mod symbols;
pub mod text;
pub mod toolchain;
pub mod value;
pub mod watch;
