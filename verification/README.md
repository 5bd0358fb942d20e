# beamr

A verified library for loading and compiling BEAM modules: the container and its
chunks, a registry of module versions, mailboxes with selective receive, and the
lowering of instructions to the operations of a code generator.

- `src/loader/` reads containers, chunks, compact operands, external terms and
  archives, resolves imports, validates operands and registers modules.
- `src/module.rs` keeps two versions of each module.
- `src/mailbox/` copies messages between heaps and receives them selectively.
- `src/jit/` lowers functions, tracks the types of registers, profiles calls,
  reads and writes compiled bundles, and holds the decisions of the runtime
  functions that compiled code calls. The modules `meaning*` say what lowered
  operations do when they run, and prove what lowered instructions do and what whole
  functions return.
- `app/` is ordinary Rust around the library: files, threads and native code.
- `tests/` runs the library.
