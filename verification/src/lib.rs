//! Verified core of a kernel-development IDE: page-table walking, descriptor
//! decoding, QEMU monitor parsing, SSE/HTTP framing for the AI layer, and the
//! IPC command routing of the desktop shell.

pub mod text;
pub mod scan;
pub mod guestmem;
pub mod pagetable;
pub mod descriptor;
pub mod monitor;
pub mod contract;
pub mod sse;
pub mod error_map;
pub mod http;
pub mod response;
pub mod config;
pub mod openai;
pub mod mock;
pub mod ops;
pub mod events;
pub mod doctor;
pub mod lsp;
pub mod sandbox;
pub mod demangle;
pub mod source;
pub mod dwarf;
pub mod hex;
pub mod elf;
pub mod disasm;
pub mod debug;
