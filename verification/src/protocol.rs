//! What the debug client and the server say to each other, and the plain
//! values in which the host describes the interpreter to the server.

use crate::resolver::Instruction;
use vstd::prelude::*;

verus! {

/// Identity of a proc in the interpreter: its path and which of the
/// definitions under that path is meant.
#[derive(Clone, Debug, PartialEq, Eq)]
pub struct ProcRef {
    pub path: String,
    pub override_id: u32,
}

/// A bytecode offset within a proc.
#[derive(Clone, Debug, PartialEq, Eq)]
pub struct InstructionRef {
    pub proc: ProcRef,
    pub offset: u32,
}

/// How execution goes on after a pause.
#[derive(Clone, Copy, Debug, PartialEq, Eq)]
pub enum ContinueKind {
    Continue,
    StepOver,
    StepInto,
    StepOut,
}

/// Why execution paused.
#[derive(Clone, Copy, Debug, PartialEq, Eq)]
pub enum BreakpointReason {
    Breakpoint,
    Step,
    Pause,
}

/// Handle to a value that the interpreter owns: a tag and the data that goes
/// with it. It names the value and does not keep it alive.
#[derive(Clone, Copy, Debug, PartialEq, Eq)]
pub struct ValueRef {
    pub tag: u8,
    pub data: u32,
}

/// Names a group of variables.
#[derive(Clone, Copy, Debug, PartialEq, Eq)]
pub enum VariablesRef {
    Arguments { frame: u16 },
    Locals { frame: u16 },
    Internal { tag: u8, data: u32 },
}

/// One variable as shown to the client.
#[derive(Clone, Debug, PartialEq, Eq)]
pub struct Variable {
    pub name: String,
    pub kind: String,
    pub value: String,
    pub variables: Option<VariablesRef>,
}

/// One frame of a stack listing.
#[derive(Clone, Debug, PartialEq, Eq)]
pub struct StackFrame {
    pub instruction: InstructionRef,
    pub line: Option<u32>,
}

#[derive(Clone, Copy, Debug, PartialEq, Eq)]
pub enum BreakpointSetResult {
    Success { line: Option<u32> },
    Failed,
}

/// What the client asks.
#[derive(Clone, Debug, PartialEq, Eq)]
pub enum Request {
    BreakpointSet { instruction: InstructionRef },
    BreakpointUnset { instruction: InstructionRef },
    LineNumber { proc: ProcRef, offset: u32 },
    Offset { proc: ProcRef, line: u32 },
    StackFrames { thread_id: u32, start_frame: Option<u32>, count: Option<u32> },
    Scopes { frame_id: u32 },
    Variables { vars: VariablesRef },
    Continue { kind: ContinueKind },
    Pause,
}

/// What the server answers, and `BreakpointHit`, which it sends unasked.
#[derive(Clone, Debug, PartialEq, Eq)]
pub enum Response {
    BreakpointSet { result: BreakpointSetResult },
    BreakpointUnset { success: bool },
    LineNumber { line: Option<u32> },
    Offset { offset: Option<u32> },
    StackFrames { frames: Vec<StackFrame>, total_count: u32 },
    Scopes {
        arguments: Option<VariablesRef>,
        locals: Option<VariablesRef>,
        globals: Option<VariablesRef>,
    },
    Variables { vars: Vec<Variable> },
    BreakpointHit { reason: BreakpointReason },
}

/// One active call as the host captured it when execution paused: the proc,
/// the offset it stands at, and the names bound as arguments and as locals.
#[derive(Clone, Debug, PartialEq, Eq)]
pub struct Frame {
    pub proc: ProcRef,
    pub offset: u32,
    pub args: Vec<String>,
    pub locals: Vec<String>,
}

/// An instruction of a stack listing together with what the lookup of its
/// proc gave: the disassembly, or `None` for a proc that was not found.
#[derive(Clone, Debug, PartialEq, Eq)]
pub struct Located {
    pub instruction: InstructionRef,
    pub code: Option<Vec<Instruction>>,
}

/// A child of a value as reflection found it: its name and its value
/// rendered as text.
#[derive(Clone, Debug, PartialEq, Eq)]
pub struct Child {
    pub name: String,
    pub rendering: String,
}

/// Where the names of a value's children are read from.
#[derive(Clone, Copy, Debug, PartialEq, Eq)]
pub enum Names {
    /// The value's own list of variable names, read off the value as the
    /// property that the dispatcher names.
    Property,
    /// The list behind another handle.
    Table { list: ValueRef },
}

/// What a proc was looked up for.
#[derive(Clone, Copy, Debug, PartialEq, Eq)]
pub enum Purpose {
    SetBreakpoint { offset: u32 },
    UnsetBreakpoint { offset: u32 },
    LineNumber { offset: u32 },
    Offset { line: u32 },
}

/// What the host does next for a request. The server decides; the host
/// reaches into the interpreter and onto the wire.
#[derive(Clone, Debug, PartialEq, Eq)]
pub enum Step {
    /// Look the proc up and disassemble it; `resolved` says how to go on.
    Resolve { proc: ProcRef, purpose: Purpose },
    /// Install a trap; `hooked` gives the answer.
    Hook { instruction: InstructionRef, line: Option<u32> },
    /// Remove a trap; `unhooked` gives the answer.
    Unhook { instruction: InstructionRef },
    /// Look up and disassemble the proc of each instruction of `window`;
    /// `annotated` gives the answer.
    Annotate { window: Vec<InstructionRef>, total_count: u32 },
    /// Read the handle of the globals; `scopes` gives the answer.
    Globals { arguments: Option<VariablesRef>, locals: Option<VariablesRef> },
    /// List the children of a value; `value_to_variables` gives the answer.
    Enumerate { value: ValueRef, names: Names },
    /// Send this answer.
    Reply { response: Response },
    /// Nothing to do and nothing to send.
    Nothing,
}

/// The same proc identity, held a second time.
pub fn copy_proc(proc: &ProcRef) -> (copy: ProcRef)
    ensures
        copy == *proc,
{
    ProcRef { path: proc.path.clone(), override_id: proc.override_id }
}

/// The same instruction reference, held a second time.
pub fn copy_instruction(instruction: &InstructionRef) -> (copy: InstructionRef)
    ensures
        copy == *instruction,
{
    InstructionRef { proc: copy_proc(&instruction.proc), offset: instruction.offset }
}

} // verus!
