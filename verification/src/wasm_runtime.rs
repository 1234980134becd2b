//! What the sandbox for WebAssembly programs shares with the rest of the
//! kernel: the state of a process, the ways in which running one fails, and a
//! small program to try it with.

use vstd::prelude::*;

verus! {

/// The state of a running program.
pub struct ProcessState {
    /// The name of the process.
    pub name: String,
    /// What the process has printed, line by line.
    pub output: Vec<String>,
}

/// The ways in which running a program fails.
#[derive(Debug, Clone, Copy, PartialEq, Eq, Structural)]
pub enum WasmError {
    /// The module is not valid bytecode.
    CompilationFailed,
    /// The module could not be instantiated.
    InstantiationFailed,
    /// The module exports no function of the name asked for.
    EntryPointNotFound,
    /// The program trapped.
    ExecutionFailed,
}

/// Length of the sample module in bytes.
pub const HELLO_WORLD_LEN: usize = 157;

/// The sample module: it imports `env.print_char` and `env.print_newline`
/// and exports `main`, which prints "Hello from WASM!" one character at a
/// time.
pub open spec fn hello_world_module() -> Seq<u8> {
    seq![
        0x00u8, 0x61, 0x73, 0x6d, 0x01, 0x00, 0x00, 0x00, 0x01, 0x08, 0x02, 0x60, 0x01, 0x7f,
        0x00, 0x60, 0x00, 0x00, 0x02, 0x26, 0x02, 0x03, 0x65, 0x6e, 0x76, 0x0a, 0x70, 0x72,
        0x69, 0x6e, 0x74, 0x5f, 0x63, 0x68, 0x61, 0x72, 0x00, 0x00, 0x03, 0x65, 0x6e, 0x76,
        0x0d, 0x70, 0x72, 0x69, 0x6e, 0x74, 0x5f, 0x6e, 0x65, 0x77, 0x6c, 0x69, 0x6e, 0x65,
        0x00, 0x01, 0x03, 0x02, 0x01, 0x01, 0x07, 0x08, 0x01, 0x04, 0x6d, 0x61, 0x69, 0x6e,
        0x00, 0x02, 0x0a, 0x53, 0x01, 0x51, 0x00, 0x41, 0xc8, 0x00, 0x10, 0x00, 0x41, 0xe5,
        0x00, 0x10, 0x00, 0x41, 0xec, 0x00, 0x10, 0x00, 0x41, 0xec, 0x00, 0x10, 0x00, 0x41,
        0xef, 0x00, 0x10, 0x00, 0x41, 0x20, 0x10, 0x00, 0x41, 0xe6, 0x00, 0x10, 0x00, 0x41,
        0xf2, 0x00, 0x10, 0x00, 0x41, 0xef, 0x00, 0x10, 0x00, 0x41, 0xed, 0x00, 0x10, 0x00,
        0x41, 0x20, 0x10, 0x00, 0x41, 0xd7, 0x00, 0x10, 0x00, 0x41, 0xc1, 0x00, 0x10, 0x00,
        0x41, 0xd3, 0x00, 0x10, 0x00, 0x41, 0xcd, 0x00, 0x10, 0x00, 0x41, 0x21, 0x10, 0x00,
        0x10, 0x01, 0x0b,
    ]
}

/// The bytes of the sample module.
pub fn hello_world_wasm() -> (module: Vec<u8>)
    ensures
        module@ == hello_world_module(),
        module@.len() == HELLO_WORLD_LEN,
{
    let bytes: [u8; 157] = [
        0x00, 0x61, 0x73, 0x6d, 0x01, 0x00, 0x00, 0x00, 0x01, 0x08, 0x02, 0x60, 0x01, 0x7f,
        0x00, 0x60, 0x00, 0x00, 0x02, 0x26, 0x02, 0x03, 0x65, 0x6e, 0x76, 0x0a, 0x70, 0x72,
        0x69, 0x6e, 0x74, 0x5f, 0x63, 0x68, 0x61, 0x72, 0x00, 0x00, 0x03, 0x65, 0x6e, 0x76,
        0x0d, 0x70, 0x72, 0x69, 0x6e, 0x74, 0x5f, 0x6e, 0x65, 0x77, 0x6c, 0x69, 0x6e, 0x65,
        0x00, 0x01, 0x03, 0x02, 0x01, 0x01, 0x07, 0x08, 0x01, 0x04, 0x6d, 0x61, 0x69, 0x6e,
        0x00, 0x02, 0x0a, 0x53, 0x01, 0x51, 0x00, 0x41, 0xc8, 0x00, 0x10, 0x00, 0x41, 0xe5,
        0x00, 0x10, 0x00, 0x41, 0xec, 0x00, 0x10, 0x00, 0x41, 0xec, 0x00, 0x10, 0x00, 0x41,
        0xef, 0x00, 0x10, 0x00, 0x41, 0x20, 0x10, 0x00, 0x41, 0xe6, 0x00, 0x10, 0x00, 0x41,
        0xf2, 0x00, 0x10, 0x00, 0x41, 0xef, 0x00, 0x10, 0x00, 0x41, 0xed, 0x00, 0x10, 0x00,
        0x41, 0x20, 0x10, 0x00, 0x41, 0xd7, 0x00, 0x10, 0x00, 0x41, 0xc1, 0x00, 0x10, 0x00,
        0x41, 0xd3, 0x00, 0x10, 0x00, 0x41, 0xcd, 0x00, 0x10, 0x00, 0x41, 0x21, 0x10, 0x00,
        0x10, 0x01, 0x0b,
    ];
    let module = vstd::slice::slice_to_vec(bytes.as_slice());
    assert(module@ =~= hello_world_module());
    module
}

} // verus!
