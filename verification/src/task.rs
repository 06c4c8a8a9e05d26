//! Tasks: the stepwise runner of functions.
//!
//! A task is a stack of calls in progress. Each step of a task executes one
//! instruction of the innermost call, makes or ends a call, or takes up an
//! instruction that was waiting for the host. A step never blocks and never
//! loops: the host decides how often to step, and several tasks can take
//! turns on one script.

use vstd::prelude::*;
use crate::action::{
    Action, ActionModel, Event, EventModel, Loop, LoopModel, Outcome, OutcomeModel, Pending,
    PendingModel,
};
use crate::command::{commands_view, Command, CommandModel};
use crate::command_type::CommandType;
use crate::engine::{
    effect, fetch, fetch_var, forget, forget_var, in_view, may_draw, out_view, plain_outcome,
    resumed, settle, settle_var, state_of, FileOutModel, State,
};
use crate::error::ScriptError;
use crate::function::{
    entered, functions_view, Frame, FrameModel, Function, FunctionModel, Running, RunningModel,
};
use crate::ops::int_value;
use crate::running_script::{function_index, RunningScript, Table};
use crate::var_type::VarType;
use crate::text::texts;
use crate::variable::{entries, values, Value, Variable};

verus! {

/// What all tasks of a script share: the global variables and the streams.
pub struct World {
    pub globals: Table,
    pub inputs: Seq<Option<Seq<u8>>>,
    pub outputs: Seq<Option<FileOutModel>>,
}

/// The shared state of a running script.
pub open spec fn world_of(script: &RunningScript) -> World {
    World {
        globals: script.globals(),
        inputs: in_view(script.in_streams@),
        outputs: out_view(script.out_streams@),
    }
}

/// The state that an instruction of the call `f` works on.
pub open spec fn state_in(w: World, f: FrameModel) -> State {
    State {
        globals: w.globals,
        locals: f.locals,
        temps: f.temps,
        inputs: w.inputs,
        outputs: w.outputs,
    }
}

/// The shared part of a state.
pub open spec fn world_after(st: State) -> World {
    World { globals: st.globals, inputs: st.inputs, outputs: st.outputs }
}

/// The call `f` with the local part of a state.
pub open spec fn frame_after(f: FrameModel, st: State) -> FrameModel {
    FrameModel { locals: st.locals, temps: st.temps, ..f }
}

/// An instruction that waits for the host, and what it does with the
/// host's report.
#[derive(Debug, PartialEq)]
pub struct Waiting {
    pub pending: Pending,
    pub command: Command,
}

/// The mathematical content of a `Waiting`.
pub struct WaitingModel {
    pub pending: PendingModel,
    pub command: CommandModel,
}

impl View for Waiting {
    type V = WaitingModel;

    open spec fn view(&self) -> WaitingModel {
        WaitingModel { pending: self.pending@, command: self.command@ }
    }
}

/// A task: its calls in progress, the innermost last, and the instruction
/// that waits for the host, if one does. A task without calls has ended.
pub struct Task {
    pub frames: Vec<Frame>,
    pub waiting: Option<Waiting>,
}

/// The mathematical content of a `Task`.
pub struct TaskModel {
    pub frames: Seq<FrameModel>,
    pub waiting: Option<WaitingModel>,
}

/// The contents of a stack of calls.
pub open spec fn frames_view(v: Seq<Frame>) -> Seq<FrameModel> {
    v.map_values(|f: Frame| f@)
}

impl View for Task {
    type V = TaskModel;

    open spec fn view(&self) -> TaskModel {
        TaskModel {
            frames: frames_view(self.frames@),
            waiting: match self.waiting {
                Some(w) => Some(w@),
                None => None,
            },
        }
    }
}

/// A task that has ended.
pub open spec fn ended() -> TaskModel {
    TaskModel { frames: Seq::empty(), waiting: None }
}

/// The state after the first `n` temporary variables were removed. A name
/// that stands for nothing any more is passed over.
pub open spec fn swept(st: State, n: nat) -> State
    decreases n,
{
    if n == 0 || n > st.temps.len() {
        st
    } else {
        forget(swept(st, (n - 1) as nat), st.temps[n - 1]).0
    }
}

/// The state after the first `n` temporary variables were removed, but for
/// any whose name is `keep`.
pub open spec fn swept_but(st: State, n: nat, keep: Seq<char>) -> State
    decreases n,
{
    if n == 0 || n > st.temps.len() {
        st
    } else if st.temps[n - 1] == keep {
        swept_but(st, (n - 1) as nat, keep)
    } else {
        forget(swept_but(st, (n - 1) as nat, keep), st.temps[n - 1]).0
    }
}

/// The state once a temporary declaration is complete: the temporary
/// variables that were pending before it are removed, and the one that it
/// declared, whose name is the last of the list, is the only one pending.
pub open spec fn renewed(st: State) -> State {
    if st.temps.len() == 0 {
        st
    } else {
        State {
            temps: seq![st.temps.last()],
            ..swept_but(st, (st.temps.len() - 1) as nat, st.temps.last())
        }
    }
}

/// The call and the shared state once an instruction of the given kind is
/// complete. Every temporary variable that was pending before the
/// instruction is removed. A temporary declaration leaves the variable
/// that it declared as the only one pending; after any other instruction
/// none is pending. Then the call moves on to its next instruction.
pub open spec fn completed(f: FrameModel, st: State, kind: CommandType) -> (FrameModel, World) {
    let st2 = if kind == CommandType::TempVar {
        renewed(st)
    } else {
        State { temps: Seq::empty(), ..swept(st, st.temps.len()) }
    };
    (
        FrameModel {
            pc: if f.pc < usize::MAX {
                (f.pc + 1) as usize
            } else {
                f.pc
            },
            running: None,
            locals: st2.locals,
            temps: st2.temps,
            ..f
        },
        world_after(st2),
    )
}

/// The shared state that a failed instruction leaves behind: every temporary
/// variable of its call is removed, whatever the instruction was.
pub open spec fn abandoned(st: State) -> World {
    world_after(swept(st, st.temps.len()))
}

/// A call that a control-flow instruction makes.
pub struct CallModel {
    pub function: FunctionModel,
    pub result_var: Seq<char>,
    pub args: Seq<Value>,
}

/// What a control-flow instruction does next: nothing more, or a call,
/// after which `rest` is left to do.
pub enum AdvanceModel {
    Done,
    Call { call: CallModel, rest: LoopModel },
}

/// The next call of a control-flow instruction.
///
/// A single call is made once. A range calls with each of its integers in
/// rising order, a list with each of its items in order, a mapping with the
/// key and the value of each of its entries in order; the results are
/// discarded. A predicate loop calls once in any case, and then again for
/// as long as the variable `while`, which takes each result, is true.
pub open spec fn advance(l: LoopModel, st: State) -> Result<AdvanceModel, ScriptError> {
    match l {
        LoopModel::Over => Ok(AdvanceModel::Done),
        LoopModel::Once { function, result_var, args } => Ok(
            AdvanceModel::Call {
                call: CallModel { function, result_var, args },
                rest: LoopModel::Over,
            },
        ),
        LoopModel::Range { function, start, end } => if start > end {
            Ok(AdvanceModel::Done)
        } else {
            Ok(
                AdvanceModel::Call {
                    call: CallModel { function, result_var: "null"@, args: seq![int_value(start)] },
                    rest: if start < end {
                        LoopModel::Range { function, start: (start + 1) as isize, end }
                    } else {
                        LoopModel::Over
                    },
                },
            )
        },
        LoopModel::Items { function, items, next } => if next >= items.len() {
            Ok(AdvanceModel::Done)
        } else {
            Ok(
                AdvanceModel::Call {
                    call: CallModel {
                        function,
                        result_var: "null"@,
                        args: seq![items[next as int]],
                    },
                    rest: LoopModel::Items { function, items, next: (next + 1) as usize },
                },
            )
        },
        LoopModel::Entries { function, entries, next } => if next >= entries.len() {
            Ok(AdvanceModel::Done)
        } else {
            Ok(
                AdvanceModel::Call {
                    call: CallModel {
                        function,
                        result_var: "null"@,
                        args: seq![entries[next as int].0, entries[next as int].1],
                    },
                    rest: LoopModel::Entries { function, entries, next: (next + 1) as usize },
                },
            )
        },
        LoopModel::While { function, started } => if !started {
            Ok(
                AdvanceModel::Call {
                    call: CallModel { function, result_var: "while"@, args: Seq::empty() },
                    rest: LoopModel::While { function, started: true },
                },
            )
        } else {
            match fetch(st, "while"@) {
                Err(e) => Err(e),
                Ok(v) => match v.as_bool() {
                    Err(e) => Err(e),
                    Ok(b) => if b {
                        Ok(
                            AdvanceModel::Call {
                                call: CallModel {
                                    function,
                                    result_var: "while"@,
                                    args: Seq::empty(),
                                },
                                rest: l,
                            },
                        )
                    } else {
                        Ok(AdvanceModel::Done)
                    },
                },
            }
        },
    }
}

/// The end of a task on an error.
pub open spec fn failed(w: World, e: ScriptError, cmd: CommandModel) -> (
    TaskModel,
    World,
    ActionModel,
) {
    (ended(), w, ActionModel::Finished(Err((e, cmd))))
}

/// A step that leaves the task with the calls `frames` and nothing to ask.
pub open spec fn goes_on(frames: Seq<FrameModel>, w: World) -> (TaskModel, World, ActionModel) {
    (TaskModel { frames, waiting: None }, w, ActionModel::Continue)
}

/// The instruction that a call is in the middle of.
pub open spec fn current_command(f: FrameModel) -> CommandModel {
    match f.running {
        Some(r) => r.command,
        None => CommandModel { command_type: CommandType::Return, args: Seq::empty(), line: 0 },
    }
}

/// The end of the call `top`, above the calls `below`.
///
/// Where the call ends after its last instruction and its result is wanted,
/// the value of its variable `result` is settled in the variable that the
/// caller named, in the caller's tables: assigned where the name stands
/// for a value, declared where it stands for nothing. A call that ends on
/// a `RETURN` hands no result on. The end of the outermost call ends the
/// task.
pub open spec fn returned(below: Seq<FrameModel>, top: FrameModel, w: World, hand_on: bool) -> (
    TaskModel,
    World,
    ActionModel,
) {
    if below.len() == 0 {
        (ended(), w, ActionModel::Finished(Ok(())))
    } else {
        let caller = below.last();
        if hand_on && top.result_var != "null"@ {
            if !top.locals.contains_key("result"@) {
                failed(
                    abandoned(state_in(w, caller)),
                    ScriptError::UnknownVarError,
                    current_command(caller),
                )
            } else {
                let (st2, r) = settle(
                    state_in(w, caller),
                    top.result_var,
                    top.locals["result"@],
                    caller.is_global,
                );
                match r {
                    Err(e) => failed(abandoned(st2), e, current_command(caller)),
                    Ok(()) => goes_on(
                        below.drop_last().push(frame_after(caller, st2)),
                        world_after(st2),
                    ),
                }
            }
        } else {
            goes_on(below, w)
        }
    }
}

/// A step that takes up the instruction that was waiting for the host.
pub open spec fn step_resumed(
    below: Seq<FrameModel>,
    top: FrameModel,
    wait: WaitingModel,
    w: World,
    event: EventModel,
) -> (TaskModel, World, ActionModel) {
    let (st2, r) = resumed(wait.pending, event, top.is_global, state_in(w, top));
    match r {
        Err(e) => failed(abandoned(st2), e, wait.command),
        Ok(()) => {
            let (f2, w2) = completed(top, st2, wait.command.command_type);
            goes_on(below.push(f2), w2)
        },
    }
}

/// A step that goes on with a control-flow instruction: it makes the next
/// call, or completes the instruction where no call is left. A call with
/// fewer arguments than the function has parameters fails.
pub open spec fn step_advanced(below: Seq<FrameModel>, top: FrameModel, run: RunningModel, w: World) -> (
    TaskModel,
    World,
    ActionModel,
) {
    match advance(run.calls, state_in(w, top)) {
        Err(e) => failed(abandoned(state_in(w, top)), e, run.command),
        Ok(AdvanceModel::Done) => {
            let (f2, w2) = completed(top, state_in(w, top), run.command.command_type);
            goes_on(below.push(f2), w2)
        },
        Ok(AdvanceModel::Call { call, rest }) => if call.args.len()
            < call.function.parameters.len() {
            failed(
                abandoned(state_in(w, top)),
                ScriptError::CommandArgsInvalidError,
                run.command,
            )
        } else {
            goes_on(
                below.push(
                    FrameModel {
                        running: Some(RunningModel { command: run.command, calls: rest }),
                        ..top
                    },
                ).push(entered(call.function, call.result_var, call.args, false)),
                w,
            )
        },
    }
}

/// A step that executes the instruction `cmd` of the call `top`.
pub open spec fn step_executed(
    below: Seq<FrameModel>,
    top: FrameModel,
    cmd: CommandModel,
    w: World,
    fs: Seq<FunctionModel>,
    drawn: isize,
) -> (TaskModel, World, ActionModel) {
    let (st2, r) = effect(cmd, fs, top.is_global, state_in(w, top), drawn);
    let top2 = frame_after(top, st2);
    let w2 = world_after(st2);
    match r {
        Err(e) => failed(abandoned(st2), e, cmd),
        Ok(OutcomeModel::Done) => {
            let (f2, w3) = completed(top, st2, cmd.command_type);
            goes_on(below.push(f2), w3)
        },
        Ok(OutcomeModel::Return) => returned(below, top2, w2, false),
        Ok(OutcomeModel::Loop(l)) => goes_on(
            below.push(
                FrameModel { running: Some(RunningModel { command: cmd, calls: l }), ..top2 },
            ),
            w2,
        ),
        Ok(OutcomeModel::Host { action, pending }) => (
            TaskModel {
                frames: below.push(top2),
                waiting: Some(WaitingModel { pending, command: cmd }),
            },
            w2,
            action,
        ),
    }
}

/// One step of a task: the task and the shared state after it, and what it
/// asks of the host. `event` is the host's report on what the step before
/// asked for; `drawn` is the number that a `RANDOM` instruction draws.
///
/// An instruction that fails ends the task: the temporary variables of its
/// call are removed, and the step reports the error and the instruction.
pub open spec fn stepped(t: TaskModel, w: World, fs: Seq<FunctionModel>, event: EventModel, drawn: isize) -> (
    TaskModel,
    World,
    ActionModel,
) {
    if t.frames.len() == 0 {
        (ended(), w, ActionModel::Finished(Ok(())))
    } else {
        let top = t.frames.last();
        let below = t.frames.drop_last();
        match t.waiting {
            Some(wait) => step_resumed(below, top, wait, w, event),
            None => match top.running {
                Some(run) => step_advanced(below, top, run, w),
                None => if top.pc >= top.commands.len() {
                    returned(below, top, w, true)
                } else {
                    step_executed(below, top, top.commands[top.pc as int], w, fs, drawn)
                },
            },
        }
    }
}

/// Whether `drawn` is a number that the step may draw.
pub open spec fn step_may_draw(t: TaskModel, w: World, drawn: isize) -> bool {
    t.frames.len() > 0 && t.waiting is None && t.frames.last().running is None
        && t.frames.last().pc < t.frames.last().commands.len() ==> may_draw(
        t.frames.last().commands[t.frames.last().pc as int],
        state_in(w, t.frames.last()),
        drawn,
    )
}

/// What a control-flow instruction does next.
pub enum Advance {
    Done,
    Call { function: Function, result_var: String, args: Vec<Variable>, rest: Loop },
}

impl View for Advance {
    type V = AdvanceModel;

    open spec fn view(&self) -> AdvanceModel {
        match self {
            Advance::Done => AdvanceModel::Done,
            Advance::Call { function, result_var, args, rest } => AdvanceModel::Call {
                call: CallModel {
                    function: function@,
                    result_var: result_var@,
                    args: values(args@),
                },
                rest: rest@,
            },
        }
    }
}

/// Finds the next call of a control-flow instruction.
pub fn advance_loop(l: Loop, script: &RunningScript, frame: &Frame) -> (r: Result<
    Advance,
    ScriptError,
>)
    ensures
        match r {
            Ok(a) => advance(l@, state_of(script, &frame.locals, &frame.temp_vars)) == Ok::<
                AdvanceModel,
                ScriptError,
            >(a@),
            Err(e) => advance(l@, state_of(script, &frame.locals, &frame.temp_vars)) == Err::<
                AdvanceModel,
                ScriptError,
            >(e),
        },
{
    match l {
        Loop::Over => Ok(Advance::Done),
        Loop::Once { function, result_var, args } => Ok(
            Advance::Call { function, result_var, args, rest: Loop::Over },
        ),
        Loop::Range { function, start, end } => {
            if start > end {
                Ok(Advance::Done)
            } else {
                let mut args: Vec<Variable> = Vec::new();
                args.push(Variable::from_int(Some(start)));
                assert(values(args@) =~= seq![int_value(start)]);
                let rest = if start < end {
                    Loop::Range { function: function.clone(), start: start + 1, end }
                } else {
                    Loop::Over
                };
                Ok(Advance::Call { function, result_var: "null".to_owned(), args, rest })
            }
        },
        Loop::Items { function, items, next } => {
            if next >= items.len() {
                Ok(Advance::Done)
            } else {
                let mut args: Vec<Variable> = Vec::new();
                args.push(items[next].clone());
                assert(values(args@) =~= seq![values(items@)[next as int]]);
                Ok(
                    Advance::Call {
                        function: function.clone(),
                        result_var: "null".to_owned(),
                        args,
                        rest: Loop::Items { function, items, next: next + 1 },
                    },
                )
            }
        },
        Loop::Entries { function, entries: l, next } => {
            if next >= l.len() {
                Ok(Advance::Done)
            } else {
                let mut args: Vec<Variable> = Vec::new();
                args.push(l[next].0.clone());
                args.push(l[next].1.clone());
                assert(values(args@) =~= seq![
                    entries(l@)[next as int].0,
                    entries(l@)[next as int].1,
                ]);
                Ok(
                    Advance::Call {
                        function: function.clone(),
                        result_var: "null".to_owned(),
                        args,
                        rest: Loop::Entries { function, entries: l, next: next + 1 },
                    },
                )
            }
        },
        Loop::While { function, started } => {
            let args: Vec<Variable> = Vec::new();
            assert(values(args@) =~= Seq::<Value>::empty());
            if !started {
                Ok(
                    Advance::Call {
                        function: function.clone(),
                        result_var: "while".to_owned(),
                        args,
                        rest: Loop::While { function, started: true },
                    },
                )
            } else {
                let slot = "while".to_owned();
                match fetch_var(script, &frame.locals, &slot) {
                    Err(e) => Err(e),
                    Ok(v) => match v.as_bool() {
                        Err(e) => Err(e),
                        Ok(b) => if b {
                            Ok(
                                Advance::Call {
                                    function: function.clone(),
                                    result_var: "while".to_owned(),
                                    args,
                                    rest: Loop::While { function, started: true },
                                },
                            )
                        } else {
                            Ok(Advance::Done)
                        },
                    },
                }
            }
        },
    }
}

/// Removes the temporary variables of the call `frame`. The list of their
/// names stays.
fn sweep(frame: &mut Frame, script: &mut RunningScript)
    ensures
        final(script).main_function == old(script).main_function,
        final(script).functions == old(script).functions,
        final(frame).temp_vars == old(frame).temp_vars,
        final(frame).commands == old(frame).commands,
        final(frame).pc == old(frame).pc,
        final(frame).is_global == old(frame).is_global,
        final(frame).result_var == old(frame).result_var,
        final(frame).running == old(frame).running,
        state_of(final(script), &final(frame).locals, &final(frame).temp_vars) == swept(
            state_of(old(script), &old(frame).locals, &old(frame).temp_vars),
            old(frame).temp_vars@.len(),
        ),
{
    let ghost start = state_of(script, &frame.locals, &frame.temp_vars);
    let mut i: usize = 0;
    while i < frame.temp_vars.len()
        invariant
            0 <= i <= frame.temp_vars.len(),
            script.main_function == old(script).main_function,
            script.functions == old(script).functions,
            frame.temp_vars == old(frame).temp_vars,
            frame.commands == old(frame).commands,
            frame.pc == old(frame).pc,
            frame.is_global == old(frame).is_global,
            frame.result_var == old(frame).result_var,
            frame.running == old(frame).running,
            start == state_of(old(script), &old(frame).locals, &old(frame).temp_vars),
            state_of(script, &frame.locals, &frame.temp_vars) == swept(start, i as nat),
        decreases frame.temp_vars.len() - i,
    {
        let name = frame.temp_vars[i].clone();
        let _ = forget_var(script, &mut frame.locals, &frame.temp_vars, &name);
        i += 1;
    }
}

/// Removes the temporary variables of the call `frame` but the last, and
/// any of the name of the last. The list of their names stays.
fn sweep_older(frame: &mut Frame, script: &mut RunningScript)
    requires
        old(frame).temp_vars.len() > 0,
    ensures
        final(script).main_function == old(script).main_function,
        final(script).functions == old(script).functions,
        final(frame).temp_vars == old(frame).temp_vars,
        final(frame).commands == old(frame).commands,
        final(frame).pc == old(frame).pc,
        final(frame).is_global == old(frame).is_global,
        final(frame).result_var == old(frame).result_var,
        final(frame).running == old(frame).running,
        state_of(final(script), &final(frame).locals, &final(frame).temp_vars) == swept_but(
            state_of(old(script), &old(frame).locals, &old(frame).temp_vars),
            (old(frame).temp_vars@.len() - 1) as nat,
            old(frame).temp_vars@.last()@,
        ),
{
    let ghost start = state_of(script, &frame.locals, &frame.temp_vars);
    let last: usize = frame.temp_vars.len() - 1;
    let keep = frame.temp_vars[last].clone();
    let mut i: usize = 0;
    while i < last
        invariant
            0 <= i <= last,
            last == frame.temp_vars.len() - 1,
            keep@ == frame.temp_vars@[last as int]@,
            script.main_function == old(script).main_function,
            script.functions == old(script).functions,
            frame.temp_vars == old(frame).temp_vars,
            frame.commands == old(frame).commands,
            frame.pc == old(frame).pc,
            frame.is_global == old(frame).is_global,
            frame.result_var == old(frame).result_var,
            frame.running == old(frame).running,
            start == state_of(old(script), &old(frame).locals, &old(frame).temp_vars),
            state_of(script, &frame.locals, &frame.temp_vars) == swept_but(
                start,
                i as nat,
                keep@,
            ),
        decreases last - i,
    {
        let name = frame.temp_vars[i].clone();
        assert(start.temps[i as int] == name@);
        if !name.as_str().eq(keep.as_str()) {
            let _ = forget_var(script, &mut frame.locals, &frame.temp_vars, &name);
        }
        i += 1;
    }
}

/// Completes an instruction of the given kind in the call `frame`.
pub fn complete(frame: &mut Frame, script: &mut RunningScript, kind: CommandType)
    ensures
        final(script).main_function == old(script).main_function,
        final(script).functions == old(script).functions,
        (final(frame)@, world_of(final(script))) == completed(
            old(frame)@,
            state_of(old(script), &old(frame).locals, &old(frame).temp_vars),
            kind,
        ),
{
    match kind {
        CommandType::TempVar => {
            if frame.temp_vars.len() > 0 {
                sweep_older(frame, script);
                let keep = frame.temp_vars[frame.temp_vars.len() - 1].clone();
                let mut pending: Vec<String> = Vec::new();
                pending.push(keep);
                frame.temp_vars = pending;
                assert(texts(frame.temp_vars@) =~= seq![keep@]);
            }
        },
        _ => {
            sweep(frame, script);
            frame.temp_vars = Vec::new();
            assert(texts(frame.temp_vars@) =~= Seq::<Seq<char>>::empty());
        },
    }
    if frame.pc < usize::MAX {
        frame.pc = frame.pc + 1;
    }
    frame.running = None;
}

/// Ends the task on the failure of an instruction of the call `frame`.
fn abandon(task: &mut Task, frame: Frame, script: &mut RunningScript, e: ScriptError, cmd: Command) -> (action:
    Action)
    ensures
        final(script).main_function == old(script).main_function,
        final(script).functions == old(script).functions,
        (final(task)@, world_of(final(script)), action@) == failed(
            abandoned(state_of(old(script), &frame.locals, &frame.temp_vars)),
            e,
            cmd@,
        ),
{
    let mut frame = frame;
    sweep(&mut frame, script);
    fail(task, e, cmd)
}

fn command_in_progress(f: &Frame) -> (r: Command)
    ensures
        r@ == current_command(f@),
{
    match &f.running {
        Some(run) => run.command.clone(),
        None => {
            let args: Vec<String> = Vec::new();
            assert(texts(args@) =~= Seq::<Seq<char>>::empty());
            Command::new(CommandType::Return, 0, args)
        },
    }
}

fn fail(task: &mut Task, e: ScriptError, cmd: Command) -> (action: Action)
    ensures
        final(task)@ == ended(),
        action@ == ActionModel::Finished(Err((e, cmd@))),
{
    task.frames = Vec::new();
    task.waiting = None;
    assert(frames_view(task.frames@) =~= Seq::<FrameModel>::empty());
    Action::Finished(Err((e, cmd)))
}

fn finish(task: &mut Task) -> (action: Action)
    ensures
        final(task)@ == ended(),
        action@ == ActionModel::Finished(Ok(())),
{
    task.frames = Vec::new();
    task.waiting = None;
    assert(frames_view(task.frames@) =~= Seq::<FrameModel>::empty());
    Action::Finished(Ok(()))
}

fn push_frame(task: &mut Task, f: Frame)
    ensures
        final(task).waiting == old(task).waiting,
        frames_view(final(task).frames@) == frames_view(old(task).frames@).push(f@),
{
    task.frames.push(f);
    assert(frames_view(task.frames@) =~= frames_view(old(task).frames@).push(f@));
}

fn pop_frame(task: &mut Task) -> (r: Option<Frame>)
    ensures
        final(task).waiting == old(task).waiting,
        match r {
            Some(f) => old(task).frames@.len() > 0 && f@ == frames_view(old(task).frames@).last()
                && frames_view(final(task).frames@) == frames_view(old(task).frames@).drop_last(),
            None => old(task).frames@.len() == 0 && final(task).frames@.len() == 0,
        },
{
    let r = task.frames.pop();
    if r.is_some() {
        assert(frames_view(task.frames@) =~= frames_view(old(task).frames@).drop_last());
    }
    r
}

/// Ends the call `top`; the calls below it are those of `task`.
fn do_return(task: &mut Task, top: Frame, script: &mut RunningScript, hand_on: bool) -> (action:
    Action)
    requires
        old(task).waiting is None,
    ensures
        final(script).main_function == old(script).main_function,
        final(script).functions == old(script).functions,
        (final(task)@, world_of(final(script)), action@) == returned(
            frames_view(old(task).frames@),
            top@,
            world_of(old(script)),
            hand_on,
        ),
{
    let mut caller = match pop_frame(task) {
        None => {
            return finish(task);
        },
        Some(f) => f,
    };
    let ghost below = frames_view(old(task).frames@);
    if hand_on && !top.result_var.as_str().eq("null") {
        let result = match top.locals.get("result") {
            None => {
                let cmd = command_in_progress(&caller);
                return abandon(task, caller, script, ScriptError::UnknownVarError, cmd);
            },
            Some(v) => v.clone(),
        };
        let global = caller.is_global;
        match settle_var(
            script,
            &mut caller.locals,
            &caller.temp_vars,
            &top.result_var,
            result,
            global,
        ) {
            Err(e) => {
                let cmd = command_in_progress(&caller);
                abandon(task, caller, script, e, cmd)
            },
            Ok(()) => {
                push_frame(task, caller);
                Action::Continue
            },
        }
    } else {
        push_frame(task, caller);
        assert(below.drop_last().push(below.last()) =~= below);
        Action::Continue
    }
}

/// Takes up the instruction that was waiting for the host.
fn do_resume(
    task: &mut Task,
    top: Frame,
    wait: Waiting,
    script: &mut RunningScript,
    event: Event,
) -> (action: Action)
    requires
        old(task).waiting is None,
    ensures
        final(script).main_function == old(script).main_function,
        final(script).functions == old(script).functions,
        (final(task)@, world_of(final(script)), action@) == step_resumed(
            frames_view(old(task).frames@),
            top@,
            wait@,
            world_of(old(script)),
            event@,
        ),
{
    let mut top = top;
    let Waiting { pending, command } = wait;
    let global = top.is_global;
    let r = command.resume(pending, event, script, global, &mut top.locals, &mut top.temp_vars);
    match r {
        Err((e, c)) => abandon(task, top, script, e, c),
        Ok(()) => {
            complete(&mut top, script, command.command_type);
            push_frame(task, top);
            Action::Continue
        },
    }
}

/// Goes on with the control-flow instruction that the call `top` is in the
/// middle of.
fn do_advance(task: &mut Task, top: Frame, run: Running, script: &mut RunningScript) -> (action:
    Action)
    requires
        old(task).waiting is None,
        top.running is None,
    ensures
        final(script).main_function == old(script).main_function,
        final(script).functions == old(script).functions,
        (final(task)@, world_of(final(script)), action@) == step_advanced(
            frames_view(old(task).frames@),
            FrameModel { running: Some(run@), ..top@ },
            run@,
            world_of(old(script)),
        ),
{
    let mut top = top;
    let Running { command, calls } = run;
    match advance_loop(calls, script, &top) {
        Err(e) => abandon(task, top, script, e, command),
        Ok(Advance::Done) => {
            complete(&mut top, script, command.command_type);
            push_frame(task, top);
            Action::Continue
        },
        Ok(Advance::Call { function, result_var, args, rest }) => {
            if args.len() < function.parameters.len() {
                abandon(task, top, script, ScriptError::CommandArgsInvalidError, command)
            } else {
                top.running = Some(Running { command, calls: rest });
                let callee = function.execute(result_var, args, false);
                push_frame(task, top);
                push_frame(task, callee);
                Action::Continue
            }
        },
    }
}

/// Executes the next instruction of the call `top`.
fn do_execute(task: &mut Task, top: Frame, script: &mut RunningScript) -> (r: (
    Action,
    Ghost<isize>,
))
    requires
        old(task).waiting is None,
        top.running is None,
        top.pc < top.commands.len(),
    ensures
        final(script).main_function == old(script).main_function,
        final(script).functions == old(script).functions,
        may_draw(
            top@.commands[top.pc as int],
            state_in(world_of(old(script)), top@),
            r.1@,
        ),
        (final(task)@, world_of(final(script)), r.0@) == step_executed(
            frames_view(old(task).frames@),
            top@,
            top@.commands[top.pc as int],
            world_of(old(script)),
            functions_view(old(script).functions@),
            r.1@,
        ),
{
    let mut top = top;
    let cmd = top.commands[top.pc].clone();
    let global = top.is_global;
    let ghost before = state_of(script, &top.locals, &top.temp_vars);
    let ghost fs = functions_view(script.functions@);
    let r = cmd.execute(script, global, &mut top.locals, &mut top.temp_vars);
    let ghost drawn = choose|d: isize|
        may_draw(cmd@, before, d) && (
            state_of(script, &top.locals, &top.temp_vars),
            plain_outcome(r),
        ) == effect(cmd@, fs, global, before, d);
    let action = match r {
        Err((e, c)) => abandon(task, top, script, e, c),
        Ok(Outcome::Done) => {
            complete(&mut top, script, cmd.command_type);
            push_frame(task, top);
            Action::Continue
        },
        Ok(Outcome::Return) => do_return(task, top, script, false),
        Ok(Outcome::Loop(l)) => {
            top.running = Some(Running { command: cmd, calls: l });
            push_frame(task, top);
            Action::Continue
        },
        Ok(Outcome::Host { action, pending }) => {
            push_frame(task, top);
            task.waiting = Some(Waiting { pending, command: cmd });
            action
        },
    };
    (action, Ghost(drawn))
}

impl Task {
    /// The task that runs the script from its first instruction: one call
    /// of the script's `main`, at the top level.
    pub fn new(script: &RunningScript) -> (r: Task)
        requires
            script.main_function.parameters.len() == 0,
        ensures
            r@ == (TaskModel {
                frames: seq![entered(script.main_function@, "null"@, Seq::empty(), true)],
                waiting: None,
            }),
    {
        let args: Vec<Variable> = Vec::new();
        assert(values(args@) =~= Seq::<Value>::empty());
        let frame = script.main_function.execute("null".to_owned(), args, true);
        let mut frames: Vec<Frame> = Vec::new();
        frames.push(frame);
        assert(frames_view(frames@) =~= seq![frame@]);
        Task { frames, waiting: None }
    }

    /// A task that runs one call of `function` with the given arguments,
    /// below the top level, and discards the result. Fails with
    /// `CommandArgsInvalidError` where an argument is missing.
    pub fn call(function: &Function, args: Vec<Variable>) -> (r: Result<Task, ScriptError>)
        ensures
            match r {
                Ok(t) => args.len() >= function.parameters.len() && t@ == (TaskModel {
                    frames: seq![entered(function@, "null"@, values(args@), false)],
                    waiting: None,
                }),
                Err(e) => args.len() < function.parameters.len() && e
                    == ScriptError::CommandArgsInvalidError,
            },
    {
        if args.len() < function.parameters.len() {
            return Err(ScriptError::CommandArgsInvalidError);
        }
        let frame = function.execute("null".to_owned(), args, false);
        let mut frames: Vec<Frame> = Vec::new();
        frames.push(frame);
        assert(frames_view(frames@) =~= seq![frame@]);
        Ok(Task { frames, waiting: None })
    }

    /// Whether the task has ended.
    pub fn is_finished(&self) -> (r: bool)
        ensures
            r == (self@.frames.len() == 0),
    {
        self.frames.len() == 0
    }

    /// Takes one step.
    ///
    /// `event` is the host's report on what the step before asked for, and
    /// `Event::Nothing` where it asked for nothing. The result is what
    /// this step asks of the host. Of a `RANDOM` instruction the number
    /// that it stores is some number between its bounds.
    pub fn step(&mut self, script: &mut RunningScript, event: Event) -> (action: Action)
        ensures
            final(script).main_function == old(script).main_function,
            final(script).functions == old(script).functions,
            exists|drawn: isize|
                step_may_draw(old(self)@, world_of(old(script)), drawn) && (
                    final(self)@,
                    world_of(final(script)),
                    action@,
                ) == #[trigger] stepped(
                    old(self)@,
                    world_of(old(script)),
                    functions_view(old(script).functions@),
                    event@,
                    drawn,
                ),
    {
        let ghost t0 = self@;
        let ghost w0 = world_of(script);
        let ghost fs = functions_view(script.functions@);
        let waiting = self.waiting.take();
        let mut top = match pop_frame(self) {
            None => {
                let action = finish(self);
                assert((self@, world_of(script), action@) == stepped(t0, w0, fs, event@, 0));
                return action;
            },
            Some(f) => f,
        };
        match waiting {
            Some(wait) => {
                let action = do_resume(self, top, wait, script, event);
                assert((self@, world_of(script), action@) == stepped(t0, w0, fs, event@, 0));
                action
            },
            None => {
                match top.running.take() {
                    Some(run) => {
                        let action = do_advance(self, top, run, script);
                        assert((self@, world_of(script), action@) == stepped(t0, w0, fs, event@, 0));
                        action
                    },
                    None => {
                        if top.pc >= top.commands.len() {
                            let action = do_return(self, top, script, true);
                            assert((self@, world_of(script), action@) == stepped(
                                t0,
                                w0,
                                fs,
                                event@,
                                0,
                            ));
                            action
                        } else {
                            let (action, Ghost(drawn)) = do_execute(self, top, script);
                            assert((self@, world_of(script), action@) == stepped(
                                t0,
                                w0,
                                fs,
                                event@,
                                drawn,
                            ));
                            action
                        }
                    },
                }
            },
        }
    }
}

/// The task, the shared state and the request after `n + 1` steps, of which
/// the first takes `event` and the others take no report, and of which
/// step `j` draws the number `draws[j]`.
pub open spec fn after(
    t: TaskModel,
    w: World,
    fs: Seq<FunctionModel>,
    event: EventModel,
    draws: Seq<isize>,
    n: nat,
) -> (TaskModel, World, ActionModel)
    decreases n,
{
    if n == 0 {
        stepped(t, w, fs, event, draws[0])
    } else {
        let (t1, w1, _) = after(t, w, fs, event, draws, (n - 1) as nat);
        stepped(t1, w1, fs, EventModel::Nothing, draws[n as int])
    }
}

/// Whether `draws[n]` is a number that step `n` of a run may draw.
pub open spec fn drawable(
    t: TaskModel,
    w: World,
    fs: Seq<FunctionModel>,
    event: EventModel,
    draws: Seq<isize>,
    n: nat,
) -> bool {
    if n == 0 {
        step_may_draw(t, w, draws[0])
    } else {
        let (t1, w1, _) = after(t, w, fs, event, draws, (n - 1) as nat);
        step_may_draw(t1, w1, draws[n as int])
    }
}

/// Whether a run of `n + 1` steps with the numbers `draws` is one that the
/// engine makes: every step but the last asks nothing of the host, and
/// every number is one that its step may draw.
pub open spec fn is_run(
    t: TaskModel,
    w: World,
    fs: Seq<FunctionModel>,
    event: EventModel,
    draws: Seq<isize>,
    n: nat,
) -> bool {
    &&& draws.len() == n + 1
    &&& forall|j: nat| j < n ==> (#[trigger] after(t, w, fs, event, draws, j)).2 is Continue
    &&& forall|j: nat| j <= n ==> #[trigger] drawable(t, w, fs, event, draws, j)
}

/// Later numbers do not change earlier steps.
pub proof fn lemma_after_stable(
    t: TaskModel,
    w: World,
    fs: Seq<FunctionModel>,
    event: EventModel,
    draws: Seq<isize>,
    x: isize,
    n: nat,
)
    requires
        n < draws.len(),
    ensures
        after(t, w, fs, event, draws.push(x), n) == after(t, w, fs, event, draws, n),
        drawable(t, w, fs, event, draws.push(x), n) == drawable(t, w, fs, event, draws, n),
    decreases n,
{
    if n > 0 {
        lemma_after_stable(t, w, fs, event, draws, x, (n - 1) as nat);
    }
}

fn asks_nothing(action: &Action) -> (r: bool)
    ensures
        r == (action@ is Continue),
{
    match action {
        Action::Continue => true,
        _ => false,
    }
}

impl Task {
    /// Steps until the task asks something of the host or ends, but not
    /// more than `fuel` steps beyond the first.
    ///
    /// The result is that of the last step taken. Where it is `Continue`,
    /// the fuel has run out and the task can be run again.
    pub fn run(&mut self, script: &mut RunningScript, event: Event, fuel: usize) -> (action: Action)
        ensures
            final(script).main_function == old(script).main_function,
            final(script).functions == old(script).functions,
            exists|draws: Seq<isize>, n: nat|
                n <= fuel && is_run(
                    old(self)@,
                    world_of(old(script)),
                    functions_view(old(script).functions@),
                    event@,
                    draws,
                    n,
                ) && (final(self)@, world_of(final(script)), action@) == #[trigger] after(
                    old(self)@,
                    world_of(old(script)),
                    functions_view(old(script).functions@),
                    event@,
                    draws,
                    n,
                ) && (n == fuel || !(action@ is Continue)),
    {
        let ghost t0 = self@;
        let ghost w0 = world_of(script);
        let ghost fs = functions_view(script.functions@);
        let ghost e0 = event@;
        let mut action = self.step(script, event);
        let ghost first = choose|d: isize|
            step_may_draw(t0, w0, d) && (self@, world_of(script), action@) == stepped(
                t0,
                w0,
                fs,
                e0,
                d,
            );
        let ghost mut draws: Seq<isize> = seq![first];
        let mut used: usize = 0;
        while used < fuel && asks_nothing(&action)
            invariant
                0 <= used <= fuel,
                script.main_function == old(script).main_function,
                script.functions == old(script).functions,
                fs == functions_view(script.functions@),
                is_run(t0, w0, fs, e0, draws, used as nat),
                (self@, world_of(script), action@) == after(t0, w0, fs, e0, draws, used as nat),
            decreases fuel - used,
        {
            let ghost t1 = self@;
            let ghost w1 = world_of(script);
            action = self.step(script, Event::Nothing);
            proof {
                let d = choose|d: isize|
                    step_may_draw(t1, w1, d) && (self@, world_of(script), action@) == stepped(
                        t1,
                        w1,
                        fs,
                        EventModel::Nothing,
                        d,
                    );
                let longer = draws.push(d);
                assert forall|j: nat| j <= used implies after(t0, w0, fs, e0, longer, j) == after(
                    t0,
                    w0,
                    fs,
                    e0,
                    draws,
                    j,
                ) && drawable(t0, w0, fs, e0, longer, j) == drawable(t0, w0, fs, e0, draws, j) by {
                    lemma_after_stable(t0, w0, fs, e0, draws, d, j);
                }
                assert(is_run(t0, w0, fs, e0, longer, (used + 1) as nat)) by {
                    assert forall|j: nat| j < used + 1 implies (#[trigger] after(
                        t0,
                        w0,
                        fs,
                        e0,
                        longer,
                        j,
                    )).2 is Continue by {
                        if j < used {
                            assert(after(t0, w0, fs, e0, draws, j).2 is Continue);
                        }
                    }
                    assert forall|j: nat| j <= used + 1 implies #[trigger] drawable(
                        t0,
                        w0,
                        fs,
                        e0,
                        longer,
                        j,
                    ) by {
                        if j <= used {
                            assert(drawable(t0, w0, fs, e0, draws, j));
                        }
                    }
                }
                draws = longer;
            }
            used += 1;
        }
        action
    }
}

impl RunningScript {
    /// Runs `task` on this script until it asks something of the host or
    /// ends, but not more than `fuel` steps beyond the first. See
    /// `Task::run`.
    pub fn run(&mut self, task: &mut Task, event: Event, fuel: usize) -> (action: Action)
        ensures
            final(self).main_function == old(self).main_function,
            final(self).functions == old(self).functions,
            exists|draws: Seq<isize>, n: nat|
                n <= fuel && is_run(
                    old(task)@,
                    world_of(old(self)),
                    functions_view(old(self).functions@),
                    event@,
                    draws,
                    n,
                ) && (final(task)@, world_of(final(self)), action@) == #[trigger] after(
                    old(task)@,
                    world_of(old(self)),
                    functions_view(old(self).functions@),
                    event@,
                    draws,
                    n,
                ) && (n == fuel || !(action@ is Continue)),
    {
        task.run(self, event, fuel)
    }

    /// A task that runs one call of the function `name` with the given
    /// arguments, below the top level. Fails with `FunctionUnknownError`
    /// where no function has the name, and with `CommandArgsInvalidError`
    /// where an argument is missing.
    pub fn exec_function(&self, name: String, args: Vec<Variable>) -> (r: Result<
        Task,
        ScriptError,
    >)
        ensures
            match function_index(functions_view(self.functions@), name@, 0) {
                None => r matches Err(e) && e == ScriptError::FunctionUnknownError,
                Some(i) => {
                    let f = self.functions@[i as int];
                    match r {
                        Ok(t) => args.len() >= f.parameters.len() && t@ == (TaskModel {
                            frames: seq![entered(f@, "null"@, values(args@), false)],
                            waiting: None,
                        }),
                        Err(e) => args.len() < f.parameters.len() && e
                            == ScriptError::CommandArgsInvalidError,
                    }
                },
            },
    {
        match self.get_function(name) {
            Err(e) => Err(e),
            Ok(f) => {
                let r = Task::call(&f, args);
                proof {
                    let i = function_index(functions_view(self.functions@), name@, 0)->0;
                    assert(crate::function::parameters_view(f.parameters@).len()
                        == f.parameters@.len());
                    assert(crate::function::parameters_view(
                        self.functions@[i as int].parameters@,
                    ).len() == self.functions@[i as int].parameters@.len());
                }
                r
            },
        }
    }

    /// A task that runs the given instructions as the body of a function
    /// without parameters or result: at the top level where `global` is
    /// set.
    pub fn exec_commands(commands: Vec<Command>, global: bool) -> (r: Task)
        ensures
            r@.waiting is None,
            r@.frames.len() == 1,
            r@.frames[0].commands == commands_view(commands@),
            r@.frames[0].pc == 0,
            r@.frames[0].is_global == global,
            r@.frames[0].result_var == "null"@,
            r@.frames[0].running is None,
            r@.frames[0].temps.len() == 0,
            r@.frames[0].locals == Map::<Seq<char>, Value>::empty().insert(
                "result"@,
                Value::Null(VarType::Null),
            ),
    {
        let function = Function::new("main".to_owned(), VarType::Null, Vec::new(), commands);
        let args: Vec<Variable> = Vec::new();
        let frame = function.execute("null".to_owned(), args, global);
        let mut frames: Vec<Frame> = Vec::new();
        frames.push(frame);
        assert(frames_view(frames@) =~= seq![frame@]);
        Task { frames, waiting: None }
    }
}

} // verus!
