use debug_server::dispatcher::{
    annotated, get_line_number, hooked, resolved, scopes, stack_frames, unhooked,
    value_to_variable, value_to_variables, Handled, Server, Waiting, PLACEHOLDER_KIND,
    VARS_PROPERTY,
};
use debug_server::protocol::{
    copy_instruction, copy_proc, BreakpointReason, BreakpointSetResult, Child, ContinueKind,
    Frame, InstructionRef, Located, Names, ProcRef, Purpose, Request, Response, StackFrame, Step,
    ValueRef, Variable, VariablesRef,
};
use debug_server::resolver::Instruction;

const SINGLETON: ValueRef = ValueRef { tag: 14, data: 1 };
const TABLE: ValueRef = ValueRef { tag: 42, data: 0 };

fn server() -> Server {
    Server::listen(SINGLETON, TABLE)
}

fn proc_ref(path: &str) -> ProcRef {
    ProcRef { path: path.to_owned(), override_id: 0 }
}

fn at(path: &str, offset: u32) -> InstructionRef {
    InstructionRef { proc: proc_ref(path), offset }
}

fn code() -> Vec<Instruction> {
    vec![
        Instruction { offset: 0, line: Some(7) },
        Instruction { offset: 1, line: None },
        Instruction { offset: 5, line: Some(9) },
        Instruction { offset: 6, line: None },
    ]
}

fn held(path: &str, offset: u32, args: &[&str], locals: &[&str]) -> Frame {
    Frame {
        proc: proc_ref(path),
        offset,
        args: args.iter().map(|name| name.to_string()).collect(),
        locals: locals.iter().map(|name| name.to_string()).collect(),
    }
}

fn five_frames() -> Vec<Frame> {
    vec![
        held("/proc/a", 0, &[], &[]),
        held("/proc/b", 1, &["x"], &[]),
        held("/proc/c", 5, &[], &["i"]),
        held("/proc/d", 6, &["x", "y"], &["i", "j"]),
        held("/proc/e", 3, &[], &[]),
    ]
}

fn shown(path: &str, offset: u32, line: Option<u32>) -> StackFrame {
    StackFrame { instruction: at(path, offset), line }
}

fn lookup(instruction: InstructionRef) -> Located {
    let code = if instruction.proc.path == "/proc/e" { None } else { Some(code()) };
    Located { instruction, code }
}

fn carried_out(handled: Handled) -> Response {
    assert!(!handled.pause);
    match handled.step {
        Step::Annotate { window, total_count } => {
            annotated(window.into_iter().map(lookup).collect(), total_count)
        }
        Step::Reply { response } => response,
        other => panic!("no stack listing: {:?}", other),
    }
}

fn paused() -> Server {
    let mut server = server();
    server.handle_breakpoint(five_frames(), BreakpointReason::Breakpoint);
    server
}

fn reply(response: Response) -> Handled {
    Handled { step: Step::Reply { response }, pause: false }
}

fn frames_request(start_frame: Option<u32>, count: Option<u32>) -> Request {
    Request::StackFrames { thread_id: 0, start_frame, count }
}

fn no_scopes() -> Response {
    Response::Scopes { arguments: None, locals: None, globals: None }
}

#[test]
fn a_new_server_is_neither_connected_nor_paused() {
    let server = server();
    assert!(!server.is_connected());
    assert!(!server.is_paused());
}

#[test]
fn copies_equal_what_they_were_taken_from() {
    let instruction = at("/proc/a", 12);
    assert_eq!(copy_instruction(&instruction), instruction);
    assert_eq!(copy_proc(&instruction.proc), instruction.proc);
}

#[test]
fn setting_a_breakpoint_first_looks_the_proc_up() {
    let handled = server().handle_request(&Request::BreakpointSet { instruction: at("/proc/a", 5) });
    assert_eq!(
        handled,
        Handled {
            step: Step::Resolve {
                proc: proc_ref("/proc/a"),
                purpose: Purpose::SetBreakpoint { offset: 5 },
            },
            pause: false,
        }
    );
}

#[test]
fn setting_a_breakpoint_in_an_unknown_proc_fails_without_a_hook() {
    let step = resolved(proc_ref("/proc/none"), Purpose::SetBreakpoint { offset: 5 }, None);
    assert_eq!(
        step,
        Step::Reply { response: Response::BreakpointSet { result: BreakpointSetResult::Failed } }
    );
}

#[test]
fn setting_a_breakpoint_in_a_known_proc_hooks_that_instruction() {
    let step = resolved(proc_ref("/proc/a"), Purpose::SetBreakpoint { offset: 6 }, Some(code()));
    assert_eq!(step, Step::Hook { instruction: at("/proc/a", 6), line: Some(9) });
    let off_boundary =
        resolved(proc_ref("/proc/a"), Purpose::SetBreakpoint { offset: 3 }, Some(code()));
    assert_eq!(off_boundary, Step::Hook { instruction: at("/proc/a", 3), line: None });
}

#[test]
fn a_hook_that_held_reports_the_line() {
    assert_eq!(
        hooked(Some(9), true),
        Response::BreakpointSet { result: BreakpointSetResult::Success { line: Some(9) } }
    );
    assert_eq!(
        hooked(None, true),
        Response::BreakpointSet { result: BreakpointSetResult::Success { line: None } }
    );
    assert_eq!(
        hooked(Some(9), false),
        Response::BreakpointSet { result: BreakpointSetResult::Failed }
    );
}

#[test]
fn unsetting_a_breakpoint_mirrors_setting_one() {
    let handled =
        server().handle_request(&Request::BreakpointUnset { instruction: at("/proc/a", 5) });
    assert_eq!(
        handled.step,
        Step::Resolve { proc: proc_ref("/proc/a"), purpose: Purpose::UnsetBreakpoint { offset: 5 } }
    );
    assert!(!handled.pause);
    assert_eq!(
        resolved(proc_ref("/proc/a"), Purpose::UnsetBreakpoint { offset: 5 }, Some(code())),
        Step::Unhook { instruction: at("/proc/a", 5) }
    );
    assert_eq!(
        resolved(proc_ref("/proc/a"), Purpose::UnsetBreakpoint { offset: 5 }, None),
        Step::Reply { response: Response::BreakpointUnset { success: false } }
    );
    assert_eq!(unhooked(true), Response::BreakpointUnset { success: true });
    assert_eq!(unhooked(false), Response::BreakpointUnset { success: false });
}

#[test]
fn line_number_query_is_answered_from_the_disassembly() {
    let handled =
        server().handle_request(&Request::LineNumber { proc: proc_ref("/proc/a"), offset: 1 });
    assert_eq!(
        handled.step,
        Step::Resolve { proc: proc_ref("/proc/a"), purpose: Purpose::LineNumber { offset: 1 } }
    );
    assert_eq!(
        resolved(proc_ref("/proc/a"), Purpose::LineNumber { offset: 1 }, Some(code())),
        Step::Reply { response: Response::LineNumber { line: Some(7) } }
    );
    assert_eq!(
        resolved(proc_ref("/proc/a"), Purpose::LineNumber { offset: 2 }, Some(code())),
        Step::Reply { response: Response::LineNumber { line: None } }
    );
    assert_eq!(
        resolved(proc_ref("/proc/a"), Purpose::LineNumber { offset: 1 }, None),
        Step::Reply { response: Response::LineNumber { line: None } }
    );
}

#[test]
fn offset_query_is_answered_from_the_disassembly() {
    let handled = server().handle_request(&Request::Offset { proc: proc_ref("/proc/a"), line: 9 });
    assert_eq!(
        handled.step,
        Step::Resolve { proc: proc_ref("/proc/a"), purpose: Purpose::Offset { line: 9 } }
    );
    assert_eq!(
        resolved(proc_ref("/proc/a"), Purpose::Offset { line: 9 }, Some(code())),
        Step::Reply { response: Response::Offset { offset: Some(6) } }
    );
    assert_eq!(
        resolved(proc_ref("/proc/a"), Purpose::Offset { line: 8 }, Some(code())),
        Step::Reply { response: Response::Offset { offset: None } }
    );
    assert_eq!(
        resolved(proc_ref("/proc/a"), Purpose::Offset { line: 9 }, None),
        Step::Reply { response: Response::Offset { offset: None } }
    );
}

#[test]
fn line_of_a_proc_without_disassembly_is_unknown() {
    assert_eq!(get_line_number(&None, 0), None);
    assert_eq!(get_line_number(&Some(code()), 6), Some(9));
}

#[test]
fn stack_listing_from_two_for_two_gives_frames_two_and_three() {
    let handled = paused().handle_request(&frames_request(Some(2), Some(2)));
    assert_eq!(
        handled,
        Handled {
            step: Step::Annotate {
                window: vec![at("/proc/c", 5), at("/proc/d", 6)],
                total_count: 5,
            },
            pause: false,
        }
    );
    assert_eq!(
        carried_out(handled),
        Response::StackFrames {
            frames: vec![shown("/proc/c", 5, Some(9)), shown("/proc/d", 6, Some(9))],
            total_count: 5,
        }
    );
}

#[test]
fn stack_listing_is_clipped_at_the_end_of_the_stack() {
    let handled = paused().handle_request(&frames_request(Some(4), Some(10)));
    assert_eq!(
        carried_out(handled),
        Response::StackFrames { frames: vec![shown("/proc/e", 3, None)], total_count: 5 }
    );
}

#[test]
fn stack_listing_behind_the_stack_is_empty() {
    let handled = paused().handle_request(&frames_request(Some(10), None));
    assert_eq!(carried_out(handled), Response::StackFrames { frames: vec![], total_count: 5 });
    let counted = paused().handle_request(&frames_request(Some(10), Some(3)));
    assert_eq!(
        counted,
        Handled { step: Step::Annotate { window: vec![], total_count: 5 }, pause: false }
    );
}

#[test]
fn stack_listing_without_bounds_gives_the_whole_stack() {
    let handled = paused().handle_request(&frames_request(None, None));
    assert_eq!(
        carried_out(handled),
        Response::StackFrames {
            frames: vec![
                shown("/proc/a", 0, Some(7)),
                shown("/proc/b", 1, Some(7)),
                shown("/proc/c", 5, Some(9)),
                shown("/proc/d", 6, Some(9)),
                shown("/proc/e", 3, None),
            ],
            total_count: 5,
        }
    );
}

#[test]
fn stack_window_is_cut_to_the_stack() {
    let stack = five_frames();
    assert_eq!(stack_frames(&stack, None, Some(1)), vec![at("/proc/a", 0)]);
    assert_eq!(stack_frames(&stack, Some(1), Some(0)), vec![]);
    assert_eq!(stack_frames(&stack, Some(1), Some(2)), vec![at("/proc/b", 1), at("/proc/c", 5)]);
    assert_eq!(stack_frames(&stack, Some(u32::MAX), Some(u32::MAX)), vec![]);
    assert_eq!(
        stack_frames(&stack, Some(3), Some(u32::MAX)),
        vec![at("/proc/d", 6), at("/proc/e", 3)]
    );
    assert_eq!(stack_frames(&stack, Some(5), None), vec![]);
    assert_eq!(stack_frames(&Vec::new(), None, None), vec![]);
}

#[test]
fn annotation_gives_each_instruction_its_line() {
    let located = vec![
        Located { instruction: at("/proc/a", 6), code: Some(code()) },
        Located { instruction: at("/proc/b", 2), code: Some(code()) },
        Located { instruction: at("/proc/c", 0), code: None },
    ];
    assert_eq!(
        annotated(located, 12),
        Response::StackFrames {
            frames: vec![
                shown("/proc/a", 6, Some(9)),
                shown("/proc/b", 2, None),
                shown("/proc/c", 0, None),
            ],
            total_count: 12,
        }
    );
    assert_eq!(annotated(vec![], 0), Response::StackFrames { frames: vec![], total_count: 0 });
}

#[test]
fn stack_listing_when_not_paused_is_empty() {
    let handled = server().handle_request(&frames_request(None, None));
    assert_eq!(handled, reply(Response::StackFrames { frames: vec![], total_count: 0 }));
}

#[test]
fn stack_listing_for_another_thread_is_empty() {
    let handled = paused().handle_request(&Request::StackFrames {
        thread_id: 1,
        start_frame: None,
        count: None,
    });
    assert_eq!(handled, reply(Response::StackFrames { frames: vec![], total_count: 0 }));
}

#[test]
fn scopes_of_a_frame_with_one_argument_and_no_locals() {
    let server = paused();
    let handled = server.handle_request(&Request::Scopes { frame_id: 1 });
    assert_eq!(
        handled,
        Handled {
            step: Step::Globals {
                arguments: Some(VariablesRef::Arguments { frame: 1 }),
                locals: None,
            },
            pause: false,
        }
    );
    let response = scopes(Some(VariablesRef::Arguments { frame: 1 }), None, SINGLETON);
    assert_eq!(
        response,
        Response::Scopes {
            arguments: Some(VariablesRef::Arguments { frame: 1 }),
            locals: None,
            globals: Some(VariablesRef::Internal { tag: 14, data: 1 }),
        }
    );
}

#[test]
fn scopes_name_what_the_frame_has() {
    let server = paused();
    assert_eq!(
        server.scopes_of(0),
        Step::Globals { arguments: None, locals: None }
    );
    assert_eq!(
        server.scopes_of(2),
        Step::Globals { arguments: None, locals: Some(VariablesRef::Locals { frame: 2 }) }
    );
    assert_eq!(
        server.scopes_of(3),
        Step::Globals {
            arguments: Some(VariablesRef::Arguments { frame: 3 }),
            locals: Some(VariablesRef::Locals { frame: 3 }),
        }
    );
    assert_eq!(
        scopes(None, None, TABLE),
        Response::Scopes {
            arguments: None,
            locals: None,
            globals: Some(VariablesRef::Internal { tag: 42, data: 0 }),
        }
    );
}

#[test]
fn scopes_of_a_frame_that_is_not_there_are_absent() {
    assert_eq!(paused().handle_request(&Request::Scopes { frame_id: 5 }), reply(no_scopes()));
    assert_eq!(
        paused().handle_request(&Request::Scopes { frame_id: u32::MAX }),
        reply(no_scopes())
    );
}

#[test]
fn scopes_when_not_paused_are_absent() {
    assert_eq!(server().handle_request(&Request::Scopes { frame_id: 0 }), reply(no_scopes()));
}

#[test]
fn variables_of_a_value_are_read_from_the_value() {
    let handled = server()
        .handle_request(&Request::Variables { vars: VariablesRef::Internal { tag: 2, data: 77 } });
    assert_eq!(
        handled,
        Handled {
            step: Step::Enumerate { value: ValueRef { tag: 2, data: 77 }, names: Names::Property },
            pause: false,
        }
    );
    let same_tag = server()
        .handle_request(&Request::Variables { vars: VariablesRef::Internal { tag: 14, data: 2 } });
    assert_eq!(
        same_tag.step,
        Step::Enumerate { value: ValueRef { tag: 14, data: 2 }, names: Names::Property }
    );
}

#[test]
fn variables_of_the_globals_are_read_from_the_table() {
    let handled = server()
        .handle_request(&Request::Variables { vars: VariablesRef::Internal { tag: 14, data: 1 } });
    assert_eq!(
        handled.step,
        Step::Enumerate { value: SINGLETON, names: Names::Table { list: TABLE } }
    );
}

#[test]
fn variables_of_arguments_and_locals_are_none() {
    let server = paused();
    assert_eq!(
        server.handle_request(&Request::Variables { vars: VariablesRef::Arguments { frame: 1 } }),
        reply(Response::Variables { vars: vec![] })
    );
    assert_eq!(
        server.handle_request(&Request::Variables { vars: VariablesRef::Locals { frame: 2 } }),
        reply(Response::Variables { vars: vec![] })
    );
}

#[test]
fn each_child_becomes_one_variable() {
    let children = vec![
        Child { name: "health".to_owned(), rendering: "100".to_owned() },
        Child { name: "name".to_owned(), rendering: "\"bob\"".to_owned() },
    ];
    assert_eq!(
        value_to_variables(Some(children)),
        Response::Variables {
            vars: vec![
                Variable {
                    name: "health".to_owned(),
                    kind: "TODO".to_owned(),
                    value: "100".to_owned(),
                    variables: None,
                },
                Variable {
                    name: "name".to_owned(),
                    kind: "TODO".to_owned(),
                    value: "\"bob\"".to_owned(),
                    variables: None,
                },
            ],
        }
    );
    assert_eq!(value_to_variables(Some(vec![])), Response::Variables { vars: vec![] });
}

#[test]
fn names_of_variables_are_listed_under_vars() {
    assert_eq!(VARS_PROPERTY, "vars");
}

#[test]
fn failed_reflection_gives_no_variables() {
    assert_eq!(value_to_variables(None), Response::Variables { vars: vec![] });
}

#[test]
fn a_variable_has_the_placeholder_kind_and_nothing_nested() {
    let variable = value_to_variable("a".to_owned(), "null".to_owned());
    assert_eq!(variable.name, "a");
    assert_eq!(variable.value, "null");
    assert_eq!(variable.kind, PLACEHOLDER_KIND);
    assert_eq!(variable.variables, None);
}

#[test]
fn continue_outside_a_pause_does_nothing() {
    let server = server();
    let handled = server.handle_request(&Request::Continue { kind: ContinueKind::StepInto });
    assert_eq!(handled, Handled { step: Step::Nothing, pause: false });
    assert!(!server.is_paused());
}

#[test]
fn pause_request_reports_a_pause() {
    assert_eq!(
        server().handle_request(&Request::Pause),
        Handled { step: Step::Nothing, pause: true }
    );
}

#[test]
fn poll_without_a_client_does_nothing() {
    let mut server = server();
    let poll = server.process(false, vec![Request::Pause]);
    assert!(poll.steps.is_empty());
    assert!(!poll.pause);
    assert!(!server.is_connected());
}

#[test]
fn poll_installs_the_connection_and_serves_what_is_queued() {
    let mut server = server();
    let poll = server.process(
        true,
        vec![
            Request::Scopes { frame_id: 0 },
            Request::Pause,
            Request::LineNumber { proc: proc_ref("/proc/a"), offset: 1 },
        ],
    );
    assert!(server.is_connected());
    assert!(poll.pause);
    assert_eq!(
        poll.steps,
        vec![
            Step::Reply { response: no_scopes() },
            Step::Nothing,
            Step::Resolve { proc: proc_ref("/proc/a"), purpose: Purpose::LineNumber { offset: 1 } },
        ]
    );
    let next = server.process(false, vec![Request::Scopes { frame_id: 0 }]);
    assert!(!next.pause);
    assert_eq!(next.steps, vec![Step::Reply { response: no_scopes() }]);
    let idle = server.process(false, vec![]);
    assert!(!idle.pause);
    assert!(idle.steps.is_empty());
    assert!(server.is_connected());
}

#[test]
fn a_trap_captures_the_stack_and_notifies_the_client() {
    let mut server = server();
    let notice = server.handle_breakpoint(five_frames(), BreakpointReason::Pause);
    assert_eq!(notice, Response::BreakpointHit { reason: BreakpointReason::Pause });
    assert!(server.is_paused());
}

#[test]
fn a_pause_lasts_until_continue() {
    let mut server = paused();
    let first = server.await_continue(Some(frames_request(Some(4), None)));
    assert_eq!(
        first,
        Waiting::Serve { step: Step::Annotate { window: vec![at("/proc/e", 3)], total_count: 5 } }
    );
    assert!(server.is_paused());
    let second = server.await_continue(Some(Request::Pause));
    assert_eq!(second, Waiting::Serve { step: Step::Nothing });
    assert!(server.is_paused());
    let third = server.await_continue(Some(Request::Scopes { frame_id: 1 }));
    assert_eq!(
        third,
        Waiting::Serve {
            step: Step::Globals {
                arguments: Some(VariablesRef::Arguments { frame: 1 }),
                locals: None,
            },
        }
    );
    assert!(server.is_paused());
    let last = server.await_continue(Some(Request::Continue { kind: ContinueKind::StepOver }));
    assert_eq!(last, Waiting::Resume { kind: ContinueKind::StepOver });
    assert!(!server.is_paused());
    assert_eq!(
        server.handle_request(&frames_request(None, None)),
        reply(Response::StackFrames { frames: vec![], total_count: 0 })
    );
}

#[test]
fn a_pause_ends_in_the_plain_mode_when_the_client_is_gone() {
    let mut server = paused();
    assert_eq!(server.await_continue(None), Waiting::Resume { kind: ContinueKind::Continue });
    assert!(!server.is_paused());
}

#[test]
fn every_mode_of_continuing_is_handed_back() {
    for kind in [
        ContinueKind::Continue,
        ContinueKind::StepOver,
        ContinueKind::StepInto,
        ContinueKind::StepOut,
    ] {
        let mut server = paused();
        assert_eq!(
            server.await_continue(Some(Request::Continue { kind })),
            Waiting::Resume { kind }
        );
        assert!(!server.is_paused());
    }
}

#[test]
fn nothing_is_written_without_a_client() {
    assert_eq!(server().outgoing(b"{}".to_vec()), None);
}

#[test]
fn an_answer_goes_out_with_its_delimiter() {
    let mut server = server();
    server.process(true, vec![]);
    assert_eq!(server.outgoing(b"{\"a\":1}".to_vec()), Some(b"{\"a\":1}\0".to_vec()));
}

#[test]
fn a_failed_write_loses_the_client() {
    let mut server = paused();
    server.process(true, vec![]);
    server.written(true);
    assert!(server.is_connected());
    server.written(false);
    assert!(!server.is_connected());
    assert!(server.is_paused());
    assert_eq!(server.outgoing(b"x".to_vec()), None);
    let poll = server.process(false, vec![Request::Pause]);
    assert!(!poll.pause);
    assert!(poll.steps.is_empty());
}
