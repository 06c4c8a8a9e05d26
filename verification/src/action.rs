//! The engine's conversation with its host.
//!
//! The engine performs no input or output and no floating-point arithmetic.
//! A step that needs either hands the host an `Action`, and the next step
//! takes the `Event` in which the host reports what came of it.

use vstd::prelude::*;
use crate::command::{Command, CommandModel};
use crate::error::ScriptError;
use crate::float::{FloatModel, FloatValue};
use crate::function::{Function, FunctionModel};
use crate::ops::{Request, RequestModel};
use crate::var_type::VarType;
use crate::variable::{entries, values, Value, Variable};

verus! {

/// How long to sleep.
#[derive(Debug, PartialEq)]
pub enum SleepTime {
    /// A number of milliseconds.
    Millis(u64),
    /// A number of milliseconds as a float, which the host rounds.
    Float(FloatValue),
}

/// The mathematical content of a `SleepTime`.
pub enum SleepModel {
    Millis(u64),
    Float(FloatModel),
}

impl View for SleepTime {
    type V = SleepModel;

    open spec fn view(&self) -> SleepModel {
        match self {
            SleepTime::Millis(m) => SleepModel::Millis(*m),
            SleepTime::Float(f) => SleepModel::Float(f@),
        }
    }
}

/// What a step asks of the host.
#[derive(Debug, PartialEq)]
pub enum Action {
    /// Nothing: the task can take its next step.
    Continue,
    /// The task has ended: with success, or with an error and the
    /// instruction that failed.
    Finished(Result<(), (ScriptError, Command)>),
    /// Write all of `bytes` to the host's output stream `stream`, and report
    /// `Done` or `Failed`.
    Write { stream: usize, bytes: Vec<u8> },
    /// Read exactly `size` bytes from the host's input stream `stream`, and
    /// report `Bytes` or `Failed`.
    Read { stream: usize, size: usize },
    /// Read the host's input stream `stream` to its end, and report `Bytes`
    /// or `Failed`.
    ReadAll { stream: usize },
    /// Read the file at `path`, and report `Bytes` or `Failed`.
    ReadFile { path: String },
    /// Sleep, and report `Done`.
    Sleep { time: SleepTime },
    /// Run `function` in a task of its own, and report `Done`.
    Spawn { function: Function },
    /// Do the floating-point arithmetic that `0` asks for, and report
    /// `Float`, `Flag` or `Failed`.
    Float(Request),
}

/// The mathematical content of an `Action`.
pub enum ActionModel {
    Continue,
    Finished(Result<(), (ScriptError, CommandModel)>),
    Write { stream: usize, bytes: Seq<u8> },
    Read { stream: usize, size: usize },
    ReadAll { stream: usize },
    ReadFile { path: Seq<char> },
    Sleep { time: SleepModel },
    Spawn { function: FunctionModel },
    Float(RequestModel),
}

impl View for Action {
    type V = ActionModel;

    open spec fn view(&self) -> ActionModel {
        match self {
            Action::Continue => ActionModel::Continue,
            Action::Finished(r) => ActionModel::Finished(
                match r {
                    Ok(()) => Ok(()),
                    Err((e, c)) => Err((*e, c@)),
                },
            ),
            Action::Write { stream, bytes } => ActionModel::Write {
                stream: *stream,
                bytes: bytes@,
            },
            Action::Read { stream, size } => ActionModel::Read { stream: *stream, size: *size },
            Action::ReadAll { stream } => ActionModel::ReadAll { stream: *stream },
            Action::ReadFile { path } => ActionModel::ReadFile { path: path@ },
            Action::Sleep { time } => ActionModel::Sleep { time: time@ },
            Action::Spawn { function } => ActionModel::Spawn { function: function@ },
            Action::Float(q) => ActionModel::Float(q@),
        }
    }
}

/// What the host reports of the action that it was asked for.
#[derive(Debug, PartialEq)]
pub enum Event {
    /// Nothing was asked for.
    Nothing,
    /// The action was performed.
    Done,
    /// The action failed.
    Failed,
    /// The bytes that were read.
    Bytes(Vec<u8>),
    /// The number that was read or computed.
    Float(FloatValue),
    /// The outcome of a comparison.
    Flag(bool),
}

/// The mathematical content of an `Event`.
pub enum EventModel {
    Nothing,
    Done,
    Failed,
    Bytes(Seq<u8>),
    Float(FloatModel),
    Flag(bool),
}

impl View for Event {
    type V = EventModel;

    open spec fn view(&self) -> EventModel {
        match self {
            Event::Nothing => EventModel::Nothing,
            Event::Done => EventModel::Done,
            Event::Failed => EventModel::Failed,
            Event::Bytes(b) => EventModel::Bytes(b@),
            Event::Float(f) => EventModel::Float(f@),
            Event::Flag(b) => EventModel::Flag(*b),
        }
    }
}

/// What an instruction does with the host's report once it has asked.
#[derive(Debug, PartialEq)]
pub enum Pending {
    /// Nothing: the instruction is complete whatever the report.
    Nothing,
    /// Fail unless the bytes were written.
    Written,
    /// Store the bytes that were read in the variable `name`.
    StoreBytes { name: String },
    /// Keep the file's bytes as a new input stream, and store the stream
    /// in the variable `name`.
    OpenIn { name: String },
    /// Keep the file's bytes as the contents of a new output stream to
    /// `path`, and store the stream in the variable `name`.
    OpenOut { name: String, path: String },
    /// Store the number or the truth value in the variable `name`.
    Assign { name: String },
    /// Build the value of type `var_type` that `text` writes around the
    /// number, and store it in the variable `name`: as a temporary
    /// declaration where `init` is set, else as an assignment.
    Literal { name: String, var_type: VarType, text: String, init: bool },
}

/// The mathematical content of a `Pending`.
pub enum PendingModel {
    Nothing,
    Written,
    StoreBytes { name: Seq<char> },
    OpenIn { name: Seq<char> },
    OpenOut { name: Seq<char>, path: Seq<char> },
    Assign { name: Seq<char> },
    Literal { name: Seq<char>, var_type: VarType, text: Seq<char>, init: bool },
}

impl View for Pending {
    type V = PendingModel;

    open spec fn view(&self) -> PendingModel {
        match self {
            Pending::Nothing => PendingModel::Nothing,
            Pending::Written => PendingModel::Written,
            Pending::StoreBytes { name } => PendingModel::StoreBytes { name: name@ },
            Pending::OpenIn { name } => PendingModel::OpenIn { name: name@ },
            Pending::OpenOut { name, path } => PendingModel::OpenOut { name: name@, path: path@ },
            Pending::Assign { name } => PendingModel::Assign { name: name@ },
            Pending::Literal { name, var_type, text, init } => PendingModel::Literal {
                name: name@,
                var_type: *var_type,
                text: text@,
                init: *init,
            },
        }
    }
}

/// The calls that a control-flow instruction still has to make.
#[derive(Debug, PartialEq)]
pub enum Loop {
    /// One call with the given arguments, whose result goes to
    /// `result_var`.
    Once { function: Function, result_var: String, args: Vec<Variable> },
    /// One call for each integer from `start` to `end`, both included.
    Range { function: Function, start: isize, end: isize },
    /// One call for each item from position `next` on.
    Items { function: Function, items: Vec<Variable>, next: usize },
    /// One call, with key and value, for each entry from position `next`
    /// on.
    Entries { function: Function, entries: Vec<(Variable, Variable)>, next: usize },
    /// Calls for as long as the variable `while`, which takes each call's
    /// result, is true; the first call is made in any case.
    While { function: Function, started: bool },
    /// No call is left.
    Over,
}

/// The mathematical content of a `Loop`.
pub enum LoopModel {
    Once { function: FunctionModel, result_var: Seq<char>, args: Seq<Value> },
    Range { function: FunctionModel, start: isize, end: isize },
    Items { function: FunctionModel, items: Seq<Value>, next: usize },
    Entries { function: FunctionModel, entries: Seq<(Value, Value)>, next: usize },
    While { function: FunctionModel, started: bool },
    Over,
}

impl View for Loop {
    type V = LoopModel;

    open spec fn view(&self) -> LoopModel {
        match self {
            Loop::Once { function, result_var, args } => LoopModel::Once {
                function: function@,
                result_var: result_var@,
                args: values(args@),
            },
            Loop::Range { function, start, end } => LoopModel::Range {
                function: function@,
                start: *start,
                end: *end,
            },
            Loop::Items { function, items, next } => LoopModel::Items {
                function: function@,
                items: values(items@),
                next: *next,
            },
            Loop::Entries { function, entries: l, next } => LoopModel::Entries {
                function: function@,
                entries: entries(l@),
                next: *next,
            },
            Loop::While { function, started } => LoopModel::While {
                function: function@,
                started: *started,
            },
            Loop::Over => LoopModel::Over,
        }
    }
}

/// What executing an instruction leads to.
#[derive(Debug, PartialEq)]
pub enum Outcome {
    /// The instruction is complete.
    Done,
    /// The running function ends here.
    Return,
    /// The instruction goes on with calls.
    Loop(Loop),
    /// The instruction needs the host: it goes on with `pending` once the
    /// host has reported on `action`.
    Host { action: Action, pending: Pending },
}

/// The mathematical content of an `Outcome`.
pub enum OutcomeModel {
    Done,
    Return,
    Loop(LoopModel),
    Host { action: ActionModel, pending: PendingModel },
}

impl View for Outcome {
    type V = OutcomeModel;

    open spec fn view(&self) -> OutcomeModel {
        match self {
            Outcome::Done => OutcomeModel::Done,
            Outcome::Return => OutcomeModel::Return,
            Outcome::Loop(l) => OutcomeModel::Loop(l@),
            Outcome::Host { action, pending } => OutcomeModel::Host { action: action@, pending: pending@ },
        }
    }
}

} // verus!
