# princess

The verified core of a kernel-development IDE, written in Verus.

`src/` is the library; every function in it carries a `requires`/`ensures`
contract that Verus proves:

- x86_64 page-table walking, GDT/LDT/IDT/TSS decoding and guest memory
  (`pagetable`, `descriptor`, `guestmem`);
- QEMU monitor reply parsing (`monitor`);
- ELF facts, DWARF source lines, disassembly and demangling (`elf`, `dwarf`,
  `source`, `disasm`, `demangle`), with `object`, `gimli`/`addr2line`,
  `iced-x86`, `rustc-demangle` and `cpp_demangle` called behind trusted
  wrappers whose contracts name what those crates return;
- a windowed hex reader with a hard memory bound (`hex`);
- the AI transport: configuration, HTTP/1.1 framing, the response reader,
  Server-Sent Events, the provider's decisions and a mock server's script
  (`config`, `http`, `response`, `sse`, `openai`, `mock`, `error_map`);
- the desktop shell's contract, operation registry, event ring, toolchain
  doctor, language-server framing, file sandbox and debug decisions
  (`contract`, `ops`, `events`, `doctor`, `lsp`, `sandbox`, `debug`).

Laws that span several calls are public proof functions named `law_*`.

`app/` is ordinary Rust around the library: a JSON-lines host on stdio,
sockets, processes, files and the clock.  It hands the library plain values
and performs what the library decides.

`tests/` exercises the library from outside.
