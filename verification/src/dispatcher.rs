//! The dispatcher: what the server holds between requests, what it answers
//! to each of them, and how a pause begins and ends. It decides and never
//! reaches into the interpreter or onto the wire itself: each decision comes
//! back as a `Step` for the host to carry out.

use crate::framing::{frame, DELIMITER};
use crate::protocol::{
    copy_instruction, copy_proc, BreakpointReason, BreakpointSetResult, Child, ContinueKind, Frame,
    InstructionRef, Located, Names, ProcRef, Purpose, Request, Response, StackFrame, Step,
    ValueRef, Variable, VariablesRef,
};
use crate::resolver::{line_at, line_for_offset, offset_at, offset_for_line, Instruction};
use vstd::prelude::*;

verus! {

/// The kind every variable is given for now.
pub const PLACEHOLDER_KIND: &'static str = "TODO";

/// The property under which a value lists the names of its variables.
pub const VARS_PROPERTY: &'static str = "vars";

/// The line of `offset` in a proc that may have no disassembly.
pub open spec fn resolved_line(code: Option<Seq<Instruction>>, offset: u32) -> Option<u32> {
    match code {
        Some(code) => line_at(code, offset),
        None => None,
    }
}

/// The disassembly of a lookup as a sequence.
pub open spec fn listing(code: Option<Vec<Instruction>>) -> Option<Seq<Instruction>> {
    match code {
        Some(code) => Some(code@),
        None => None,
    }
}

/// Where a captured frame stands.
pub open spec fn position(frame: Frame) -> InstructionRef {
    InstructionRef { proc: frame.proc, offset: frame.offset }
}

/// An instruction of a stack listing with its line.
pub open spec fn described(located: Located) -> StackFrame {
    StackFrame {
        instruction: located.instruction,
        line: resolved_line(listing(located.code), located.instruction.offset),
    }
}

/// Where a stack listing starts: at the frame asked for, or at the top, and
/// never behind the end of the stack.
pub open spec fn window_start(len: int, start_frame: Option<u32>) -> int {
    let start = match start_frame {
        Some(start) => start as int,
        None => 0,
    };
    if start < len {
        start
    } else {
        len
    }
}

/// Where a stack listing ends: `count` frames after its start, or at the end
/// of the stack where that comes first or no count is given.
pub open spec fn window_end(len: int, start_frame: Option<u32>, count: Option<u32>) -> int {
    let start = window_start(len, start_frame);
    match count {
        Some(count) => if start + count < len {
            start + count
        } else {
            len
        },
        None => len,
    }
}

/// The instructions of a stack listing: where each frame between the
/// listing's start and its end stands, in the order of the stack.
pub open spec fn listed(stack: Seq<Frame>, start_frame: Option<u32>, count: Option<u32>) -> Seq<
    InstructionRef,
> {
    let start = window_start(stack.len() as int, start_frame);
    let end = window_end(stack.len() as int, start_frame, count);
    Seq::new((end - start) as nat, |i: int| position(stack[start + i]))
}

/// The scope that stands for a group of bindings, if the group has any.
pub open spec fn scope_of(bindings: Seq<String>, scope: VariablesRef) -> Option<VariablesRef> {
    if bindings.len() > 0 {
        Some(scope)
    } else {
        None
    }
}

/// What a request for the scopes of frame `frame_id` leads to: without a
/// pause, or for a frame that the stack does not have, an answer with no
/// scope in it; else the globals are read next, and the answer will name the
/// frame's arguments and locals where it has any. A scope names its frame
/// by the low 16 bits of the frame's index.
pub open spec fn scopes_step(stack: Option<Seq<Frame>>, frame_id: u32) -> Step {
    if stack is Some && (frame_id as int) < stack.unwrap().len() {
        let held = stack.unwrap()[frame_id as int];
        Step::Globals {
            arguments: scope_of(
                held.args@,
                VariablesRef::Arguments { frame: (frame_id % 0x10000) as u16 },
            ),
            locals: scope_of(
                held.locals@,
                VariablesRef::Locals { frame: (frame_id % 0x10000) as u16 },
            ),
        }
    } else {
        Step::Reply {
            response: Response::Scopes { arguments: None, locals: None, globals: None },
        }
    }
}

/// How a lookup goes on. A proc that was not found fails the request, and no
/// trap is touched. For one that was found, a breakpoint is installed or
/// removed at the offset asked for, or the query is answered from its
/// disassembly.
pub open spec fn resolution(proc: ProcRef, purpose: Purpose, code: Option<Seq<Instruction>>) -> Step {
    match purpose {
        Purpose::SetBreakpoint { offset } => match code {
            Some(code) => Step::Hook {
                instruction: InstructionRef { proc, offset },
                line: line_at(code, offset),
            },
            None => Step::Reply {
                response: Response::BreakpointSet { result: BreakpointSetResult::Failed },
            },
        },
        Purpose::UnsetBreakpoint { offset } => match code {
            Some(_) => Step::Unhook { instruction: InstructionRef { proc, offset } },
            None => Step::Reply { response: Response::BreakpointUnset { success: false } },
        },
        Purpose::LineNumber { offset } => Step::Reply {
            response: Response::LineNumber { line: resolved_line(code, offset) },
        },
        Purpose::Offset { line } => Step::Reply {
            response: Response::Offset {
                offset: match code {
                    Some(code) => offset_at(code, line),
                    None => None,
                },
            },
        },
    }
}

/// What the server holds: whether a client is connected, the stack captured
/// for the current pause, and the two handles that reflection on the globals
/// needs.
pub struct ServerView {
    pub connected: bool,
    pub stack: Option<Seq<Frame>>,
    pub singleton: ValueRef,
    pub table: ValueRef,
}

/// Where the names of the children of `value` are read: for the singleton
/// that stands for the globals, from the table of global variables; for any
/// other value, from the value itself.
pub open spec fn names_for(server: ServerView, value: ValueRef) -> Names {
    if value.tag == server.singleton.tag && value.data == server.singleton.data {
        Names::Table { list: server.table }
    } else {
        Names::Property
    }
}

/// `step` is what `request` asks of a server in state `server`. A request
/// about a proc leads to the lookup of that proc. A request for stack frames
/// leads to the annotation of the part of the captured stack that it names,
/// together with the length of the whole stack; without a pause, or for a
/// thread other than thread 0, it is answered with no frames and a length of
/// 0. A request for the variables of a value leads to the listing of its
/// children; the variables of arguments and of locals are not listed, and the
/// answer holds none. A request to continue or to pause asks for no step.
pub open spec fn serves(server: ServerView, request: Request, step: Step) -> bool {
    match request {
        Request::BreakpointSet { instruction } => step == Step::Resolve {
            proc: instruction.proc,
            purpose: Purpose::SetBreakpoint { offset: instruction.offset },
        },
        Request::BreakpointUnset { instruction } => step == Step::Resolve {
            proc: instruction.proc,
            purpose: Purpose::UnsetBreakpoint { offset: instruction.offset },
        },
        Request::LineNumber { proc, offset } => step == Step::Resolve {
            proc,
            purpose: Purpose::LineNumber { offset },
        },
        Request::Offset { proc, line } => step == Step::Resolve {
            proc,
            purpose: Purpose::Offset { line },
        },
        Request::StackFrames { thread_id, start_frame, count } => if thread_id == 0
            && server.stack is Some {
            &&& step matches Step::Annotate { window, total_count }
            &&& window@ == listed(server.stack.unwrap(), start_frame, count)
            &&& total_count == server.stack.unwrap().len()
        } else {
            &&& step matches Step::Reply { response: Response::StackFrames { frames, total_count } }
            &&& frames@.len() == 0
            &&& total_count == 0
        },
        Request::Scopes { frame_id } => step == scopes_step(server.stack, frame_id),
        Request::Variables { vars } => match vars {
            VariablesRef::Internal { tag, data } => step == Step::Enumerate {
                value: ValueRef { tag, data },
                names: names_for(server, ValueRef { tag, data }),
            },
            _ => {
                &&& step matches Step::Reply { response: Response::Variables { vars: none } }
                &&& none@.len() == 0
            },
        },
        Request::Continue { kind } => step == Step::Nothing,
        Request::Pause => step == Step::Nothing,
    }
}

/// The mode in which execution goes on after a paused server received
/// `received`, where `None` says that no request will ever come: a request to
/// continue names the mode, the end of the requests means the plain mode, and
/// after any other request the pause lasts.
pub open spec fn resumes(received: Option<Request>) -> Option<ContinueKind> {
    match received {
        None => Some(ContinueKind::Continue),
        Some(Request::Continue { kind }) => Some(kind),
        Some(_) => None,
    }
}

/// The state of a paused server after it received `received`: the captured
/// stack is dropped where the pause ends, and nothing changes where it lasts.
pub open spec fn after_received(server: ServerView, received: Option<Request>) -> ServerView {
    if resumes(received) is Some {
        ServerView { stack: None, ..server }
    } else {
        server
    }
}

/// The state of a paused server after it received `requests` one by one.
pub open spec fn after_all(server: ServerView, requests: Seq<Request>) -> ServerView
    decreases requests.len(),
{
    if requests.len() == 0 {
        server
    } else {
        after_received(after_all(server, requests.drop_last()), Some(requests.last()))
    }
}

/// What came of one request: the next step, and whether the request asks
/// for execution to pause.
#[derive(Clone, Debug, PartialEq, Eq)]
pub struct Handled {
    pub step: Step,
    pub pause: bool,
}

/// What came of one poll: the steps for the requests that were queued, in
/// their order, and whether one of the requests asks for a pause.
#[derive(Clone, Debug, PartialEq, Eq)]
pub struct Poll {
    pub steps: Vec<Step>,
    pub pause: bool,
}

/// What a paused server does with what it received.
#[derive(Clone, Debug, PartialEq, Eq)]
pub enum Waiting {
    /// The pause is over: execution goes on in this mode.
    Resume { kind: ContinueKind },
    /// The pause lasts: carry this step out, then receive again.
    Serve { step: Step },
}

/// The line of `offset` in a proc, if the proc was found and the line is
/// known.
pub fn get_line_number(code: &Option<Vec<Instruction>>, offset: u32) -> (line: Option<u32>)
    ensures
        line == resolved_line(listing(*code), offset),
{
    match code {
        Some(code) => line_for_offset(code, offset),
        None => None,
    }
}

/// How to go on once the proc of a request was looked up: `code` is its
/// disassembly, or `None` where the interpreter knows no such proc.
pub fn resolved(proc: ProcRef, purpose: Purpose, code: Option<Vec<Instruction>>) -> (step: Step)
    ensures
        step == resolution(proc, purpose, listing(code)),
{
    match purpose {
        Purpose::SetBreakpoint { offset } => match code {
            Some(code) => Step::Hook {
                instruction: InstructionRef { proc, offset },
                line: line_for_offset(&code, offset),
            },
            None => Step::Reply {
                response: Response::BreakpointSet { result: BreakpointSetResult::Failed },
            },
        },
        Purpose::UnsetBreakpoint { offset } => match code {
            Some(_) => Step::Unhook { instruction: InstructionRef { proc, offset } },
            None => Step::Reply { response: Response::BreakpointUnset { success: false } },
        },
        Purpose::LineNumber { offset } => Step::Reply {
            response: Response::LineNumber { line: get_line_number(&code, offset) },
        },
        Purpose::Offset { line } => Step::Reply {
            response: Response::Offset {
                offset: match code {
                    Some(code) => offset_for_line(&code, line),
                    None => None,
                },
            },
        },
    }
}

/// The answer to a request to set a breakpoint, once the trap was tried.
pub fn hooked(line: Option<u32>, installed: bool) -> (response: Response)
    ensures
        response == (Response::BreakpointSet {
            result: if installed {
                BreakpointSetResult::Success { line }
            } else {
                BreakpointSetResult::Failed
            },
        }),
{
    if installed {
        Response::BreakpointSet { result: BreakpointSetResult::Success { line } }
    } else {
        Response::BreakpointSet { result: BreakpointSetResult::Failed }
    }
}

/// The answer to a request to unset a breakpoint, once the removal was tried.
pub fn unhooked(removed: bool) -> (response: Response)
    ensures
        response == (Response::BreakpointUnset { success: removed }),
{
    Response::BreakpointUnset { success: removed }
}

/// The answer to a request for a frame's scopes, once the handle of the
/// globals was read: the globals are always among them.
pub fn scopes(
    arguments: Option<VariablesRef>,
    locals: Option<VariablesRef>,
    globals: ValueRef,
) -> (response: Response)
    ensures
        response == (Response::Scopes {
            arguments,
            locals,
            globals: Some(VariablesRef::Internal { tag: globals.tag, data: globals.data }),
        }),
{
    Response::Scopes {
        arguments,
        locals,
        globals: Some(VariablesRef::Internal { tag: globals.tag, data: globals.data }),
    }
}

/// A child of a value as the client sees it: under its name, with its value
/// as text, and with nothing to expand.
pub fn value_to_variable(name: String, rendering: String) -> (variable: Variable)
    ensures
        variable.name == name,
        variable.value == rendering,
        variable.kind@ == PLACEHOLDER_KIND@,
        variable.variables is None,
{
    Variable { name, kind: PLACEHOLDER_KIND.to_owned(), value: rendering, variables: None }
}

/// `variable` shows `child`.
pub open spec fn shows(variable: Variable, child: Child) -> bool {
    &&& variable.name == child.name
    &&& variable.value == child.rendering
    &&& variable.kind@ == PLACEHOLDER_KIND@
    &&& variable.variables is None
}

/// The answer to a request for the variables of a value, once reflection
/// listed its children: one variable for each child, in their order; none
/// where reflection failed.
pub fn value_to_variables(children: Option<Vec<Child>>) -> (response: Response)
    ensures
        response matches Response::Variables { vars } && match children {
            Some(children) => {
                &&& vars@.len() == children@.len()
                &&& forall|i: int| 0 <= i < vars@.len() ==> shows(#[trigger] vars@[i], children@[i])
            },
            None => vars@.len() == 0,
        },
{
    let mut vars: Vec<Variable> = Vec::new();
    if let Some(found) = children {
        let mut i: usize = 0;
        while i < found.len()
            invariant
                i <= found.len(),
                vars@.len() == i,
                forall|j: int| 0 <= j < i ==> shows(#[trigger] vars@[j], found@[j]),
            decreases found.len() - i,
        {
            let child = &found[i];
            vars.push(value_to_variable(child.name.clone(), child.rendering.clone()));
            i += 1;
        }
        Response::Variables { vars }
    } else {
        Response::Variables { vars }
    }
}

/// The part of a captured stack that a listing shows: from `start_frame`, or
/// from the top, `count` frames, or all that follow; never more than the
/// stack holds.
pub fn stack_frames(stack: &Vec<Frame>, start_frame: Option<u32>, count: Option<u32>) -> (window:
    Vec<InstructionRef>)
    ensures
        window@ == listed(stack@, start_frame, count),
{
    let len = stack.len();
    let asked: usize = match start_frame {
        Some(start) => start as usize,
        None => 0,
    };
    let start: usize = if asked < len {
        asked
    } else {
        len
    };
    let end: usize = match count {
        Some(count) => if (count as usize) < len - start {
            start + count as usize
        } else {
            len
        },
        None => len,
    };
    let mut window: Vec<InstructionRef> = Vec::new();
    let mut i: usize = start;
    while i < end
        invariant
            start <= i <= end <= stack.len(),
            window@.len() == i - start,
            forall|j: int| 0 <= j < i - start ==> #[trigger] window@[j] == position(stack@[start + j]),
        decreases end - i,
    {
        let held = &stack[i];
        window.push(InstructionRef { proc: copy_proc(&held.proc), offset: held.offset });
        i += 1;
    }
    assert(window@ =~= listed(stack@, start_frame, count));
    window
}

/// The answer to a request for stack frames, once the proc of each
/// instruction of the listing was looked up: every instruction with its
/// line, in the order given, and the length of the whole stack.
pub fn annotated(located: Vec<Located>, total_count: u32) -> (response: Response)
    ensures
        response matches Response::StackFrames { frames, total_count: total }
            && total == total_count
            && frames@ == Seq::new(located@.len(), |i: int| described(located@[i])),
{
    let mut frames: Vec<StackFrame> = Vec::new();
    let mut i: usize = 0;
    while i < located.len()
        invariant
            i <= located.len(),
            frames@.len() == i,
            forall|j: int| 0 <= j < i ==> #[trigger] frames@[j] == described(located@[j]),
        decreases located.len() - i,
    {
        let found = &located[i];
        frames.push(
            StackFrame {
                instruction: copy_instruction(&found.instruction),
                line: get_line_number(&found.code, found.instruction.offset),
            },
        );
        i += 1;
    }
    assert(frames@ =~= Seq::new(located@.len(), |i: int| described(located@[i])));
    Response::StackFrames { frames, total_count }
}

/// The dispatcher's state. It lives on the interpreter's own thread.
pub struct Server {
    connected: bool,
    stacks: Option<Vec<Frame>>,
    singleton: ValueRef,
    table: ValueRef,
}

impl View for Server {
    type V = ServerView;

    closed spec fn view(&self) -> ServerView {
        ServerView {
            connected: self.connected,
            stack: match self.stacks {
                Some(stack) => Some(stack@),
                None => None,
            },
            singleton: self.singleton,
            table: self.table,
        }
    }
}

impl Server {
    /// A captured stack is short enough for its length to go on the wire.
    pub open spec fn wf(&self) -> bool {
        self@.stack matches Some(stack) ==> stack.len() <= u32::MAX
    }

    /// A server that waits for its client: not connected and not paused.
    /// `singleton` is the handle of the value that stands for the globals,
    /// `table` that of the table of global variables.
    pub fn listen(singleton: ValueRef, table: ValueRef) -> (server: Server)
        ensures
            server.wf(),
            server@ == (ServerView { connected: false, stack: None, singleton, table }),
    {
        Server { connected: false, stacks: None, singleton, table }
    }

    /// Whether a client is connected.
    pub fn is_connected(&self) -> (connected: bool)
        ensures
            connected == self@.connected,
    {
        self.connected
    }

    /// Whether execution is paused, that is, whether a captured stack is
    /// held.
    pub fn is_paused(&self) -> (paused: bool)
        ensures
            paused == self@.stack is Some,
    {
        self.stacks.is_some()
    }

    /// Decides what one request asks for. Only a request to pause reports a
    /// pause; a request to continue means nothing here, since no pause is
    /// being waited out.
    pub fn handle_request(&self, request: &Request) -> (handled: Handled)
        requires
            self.wf(),
        ensures
            serves(self@, *request, handled.step),
            handled.pause == (*request is Pause),
    {
        match request {
            Request::BreakpointSet { instruction } => Handled {
                step: Step::Resolve {
                    proc: copy_proc(&instruction.proc),
                    purpose: Purpose::SetBreakpoint { offset: instruction.offset },
                },
                pause: false,
            },
            Request::BreakpointUnset { instruction } => Handled {
                step: Step::Resolve {
                    proc: copy_proc(&instruction.proc),
                    purpose: Purpose::UnsetBreakpoint { offset: instruction.offset },
                },
                pause: false,
            },
            Request::LineNumber { proc, offset } => Handled {
                step: Step::Resolve {
                    proc: copy_proc(proc),
                    purpose: Purpose::LineNumber { offset: *offset },
                },
                pause: false,
            },
            Request::Offset { proc, line } => Handled {
                step: Step::Resolve {
                    proc: copy_proc(proc),
                    purpose: Purpose::Offset { line: *line },
                },
                pause: false,
            },
            Request::StackFrames { thread_id, start_frame, count } => {
                let step = match &self.stacks {
                    Some(stack) => if *thread_id == 0 {
                        Step::Annotate {
                            window: stack_frames(stack, *start_frame, *count),
                            total_count: stack.len() as u32,
                        }
                    } else {
                        Step::Reply {
                            response: Response::StackFrames { frames: Vec::new(), total_count: 0 },
                        }
                    },
                    None => Step::Reply {
                        response: Response::StackFrames { frames: Vec::new(), total_count: 0 },
                    },
                };
                Handled { step, pause: false }
            },
            Request::Scopes { frame_id } => Handled {
                step: self.scopes_of(*frame_id),
                pause: false,
            },
            Request::Variables { vars } => match vars {
                VariablesRef::Internal { tag, data } => {
                    let value = ValueRef { tag: *tag, data: *data };
                    let names = if value.tag == self.singleton.tag && value.data
                        == self.singleton.data {
                        Names::Table { list: self.table }
                    } else {
                        Names::Property
                    };
                    Handled { step: Step::Enumerate { value, names }, pause: false }
                },
                _ => Handled {
                    step: Step::Reply { response: Response::Variables { vars: Vec::new() } },
                    pause: false,
                },
            },
            Request::Continue { kind: _ } => Handled { step: Step::Nothing, pause: false },
            Request::Pause => Handled { step: Step::Nothing, pause: true },
        }
    }

    /// The step for a request for the scopes of frame `frame_id`.
    pub fn scopes_of(&self, frame_id: u32) -> (step: Step)
        ensures
            step == scopes_step(self@.stack, frame_id),
    {
        match &self.stacks {
            Some(stack) => if (frame_id as usize) < stack.len() {
                let held = &stack[frame_id as usize];
                let short: u16 = (frame_id % 0x10000) as u16;
                let arguments = if held.args.len() > 0 {
                    Some(VariablesRef::Arguments { frame: short })
                } else {
                    None
                };
                let locals = if held.locals.len() > 0 {
                    Some(VariablesRef::Locals { frame: short })
                } else {
                    None
                };
                Step::Globals { arguments, locals }
            } else {
                Step::Reply {
                    response: Response::Scopes { arguments: None, locals: None, globals: None },
                }
            },
            None => Step::Reply {
                response: Response::Scopes { arguments: None, locals: None, globals: None },
            },
        }
    }

    /// One poll between two steps of the interpreter. `handed_over` says
    /// whether the connection has just arrived, `queued` holds the requests
    /// that were waiting. Without a client, now or before, nothing happens.
    /// With one, every request gets its step, in order, and the poll reports
    /// a pause if one of them asks for it.
    pub fn process(&mut self, handed_over: bool, queued: Vec<Request>) -> (poll: Poll)
        requires
            old(self).wf(),
        ensures
            final(self).wf(),
            !old(self)@.connected && !handed_over ==> {
                &&& final(self)@ == old(self)@
                &&& poll.steps@.len() == 0
                &&& !poll.pause
            },
            old(self)@.connected || handed_over ==> {
                &&& final(self)@ == (ServerView { connected: true, ..old(self)@ })
                &&& poll.steps@.len() == queued@.len()
                &&& forall|i: int|
                    0 <= i < queued@.len() ==> serves(old(self)@, queued@[i], #[trigger] poll.steps@[i])
                &&& poll.pause == exists|i: int| 0 <= i < queued@.len() && #[trigger] queued@[i] is Pause
            },
    {
        let mut steps: Vec<Step> = Vec::new();
        let mut pause = false;
        if !self.connected {
            if !handed_over {
                return Poll { steps, pause };
            }
            self.connected = true;
        }
        let mut i: usize = 0;
        while i < queued.len()
            invariant
                i <= queued.len(),
                self.wf(),
                self@ == (ServerView { connected: true, ..old(self)@ }),
                steps@.len() == i,
                forall|j: int| 0 <= j < i ==> serves(old(self)@, queued@[j], #[trigger] steps@[j]),
                pause == exists|j: int| 0 <= j < i && #[trigger] queued@[j] is Pause,
            decreases queued.len() - i,
        {
            let handled = self.handle_request(&queued[i]);
            proof {
                lemma_serves_any_session(self@, old(self)@, queued@[i as int], handled.step);
            }
            steps.push(handled.step);
            pause = pause || handled.pause;
            i += 1;
        }
        Poll { steps, pause }
    }

    /// Begins a pause at a trap: keeps the stack that the host captured and
    /// gives the notice that goes to the client.
    pub fn handle_breakpoint(&mut self, stack: Vec<Frame>, reason: BreakpointReason) -> (notice:
        Response)
        requires
            stack@.len() <= u32::MAX,
        ensures
            final(self).wf(),
            final(self)@ == (ServerView { stack: Some(stack@), ..old(self)@ }),
            notice == (Response::BreakpointHit { reason }),
    {
        self.stacks = Some(stack);
        Response::BreakpointHit { reason }
    }

    /// Takes what a paused server received; `None` says that no request will
    /// ever come. A request to continue ends the pause in the mode it names,
    /// and the end of the requests ends it in the plain mode; either way the
    /// captured stack is dropped. Any other request is served as at any
    /// other time, and the pause lasts.
    pub fn await_continue(&mut self, received: Option<Request>) -> (waiting: Waiting)
        requires
            old(self).wf(),
        ensures
            final(self).wf(),
            final(self)@ == after_received(old(self)@, received),
            match resumes(received) {
                Some(kind) => waiting == (Waiting::Resume { kind }),
                None => {
                    &&& waiting matches Waiting::Serve { step }
                    &&& serves(old(self)@, received.unwrap(), step)
                },
            },
    {
        match received {
            None => {
                self.stacks = None;
                Waiting::Resume { kind: ContinueKind::Continue }
            },
            Some(Request::Continue { kind }) => {
                self.stacks = None;
                Waiting::Resume { kind }
            },
            Some(request) => {
                let handled = self.handle_request(&request);
                Waiting::Serve { step: handled.step }
            },
        }
    }

    /// The bytes to write for an answer that the codec has encoded: the
    /// answer, then the delimiter. Without a client nothing is written.
    pub fn outgoing(&self, encoded: Vec<u8>) -> (bytes: Option<Vec<u8>>)
        ensures
            self@.connected ==> bytes is Some && bytes.unwrap()@ == encoded@.push(DELIMITER),
            !self@.connected ==> bytes is None,
    {
        if self.connected {
            Some(frame(encoded))
        } else {
            None
        }
    }

    /// Takes note of how a write went: after one that failed, the client
    /// counts as gone.
    pub fn written(&mut self, delivered: bool)
        ensures
            final(self)@ == (ServerView {
                connected: old(self)@.connected && delivered,
                ..old(self)@
            }),
    {
        if !delivered {
            self.connected = false;
        }
    }
}

/// What a request asks for does not depend on whether a client is connected.
pub proof fn lemma_serves_any_session(
    server: ServerView,
    other: ServerView,
    request: Request,
    step: Step,
)
    requires
        serves(server, request, step),
        server.stack == other.stack,
        server.singleton == other.singleton,
        server.table == other.table,
    ensures
        serves(other, request, step),
{
}

/// A breakpoint is set through one hook at the instruction asked for, and
/// through none where the proc is unknown: the request leads to a lookup of
/// its proc; a lookup that found nothing is answered with a failure; one
/// that found the proc leads to the hook of just that instruction.
pub proof fn lemma_breakpoint_set_hooks_known_procs(
    server: ServerView,
    instruction: InstructionRef,
    first: Step,
    code: Option<Seq<Instruction>>,
)
    requires
        serves(server, Request::BreakpointSet { instruction }, first),
    ensures
        first == (Step::Resolve {
            proc: instruction.proc,
            purpose: Purpose::SetBreakpoint { offset: instruction.offset },
        }),
        code is None ==> resolution(
            instruction.proc,
            Purpose::SetBreakpoint { offset: instruction.offset },
            code,
        ) == (Step::Reply {
            response: Response::BreakpointSet { result: BreakpointSetResult::Failed },
        }),
        code is Some ==> resolution(
            instruction.proc,
            Purpose::SetBreakpoint { offset: instruction.offset },
            code,
        ) == (Step::Hook { instruction, line: line_at(code.unwrap(), instruction.offset) }),
{
}

/// Requests other than one to continue do not end a pause, however many
/// there are: the server is afterwards as it was before, captured stack
/// included.
pub proof fn lemma_pause_lasts(server: ServerView, requests: Seq<Request>)
    requires
        forall|i: int| 0 <= i < requests.len() ==> !(#[trigger] requests[i] is Continue),
    ensures
        after_all(server, requests) == server,
    decreases requests.len(),
{
    if requests.len() > 0 {
        lemma_pause_lasts(server, requests.drop_last());
        assert(!(requests[requests.len() - 1] is Continue));
    }
}

/// The first request to continue ends the pause in the mode it names and
/// drops the captured stack, whatever was asked before it.
pub proof fn lemma_continue_ends_pause(
    server: ServerView,
    requests: Seq<Request>,
    kind: ContinueKind,
)
    requires
        forall|i: int| 0 <= i < requests.len() ==> !(#[trigger] requests[i] is Continue),
    ensures
        resumes(Some(Request::Continue { kind })) == Some(kind),
        after_all(server, requests.push(Request::Continue { kind })) == (ServerView {
            stack: None,
            ..server
        }),
{
    let all = requests.push(Request::Continue { kind });
    assert(all.drop_last() =~= requests);
    lemma_pause_lasts(server, requests);
}

} // verus!
