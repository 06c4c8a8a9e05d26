//! The meaning of the instructions: what each one does to the variables
//! and streams, and what it leads to.

use vstd::prelude::*;
use vstd::hash_map::StringHashMap;
use vstd::string::StrSliceExecFns;
use rand::Rng;
use crate::action::{
    Action, ActionModel, Event, EventModel, Loop, LoopModel, Outcome, OutcomeModel, Pending,
    PendingModel, SleepModel, SleepTime,
};
use crate::command::{Command, CommandModel};
use crate::command_type::CommandType;
use crate::error::ScriptError;
use crate::float::FloatValue;
use crate::function::{functions_view, Function, FunctionModel};
use crate::ops::{
    apply, apply_to, bool_value, char_list, char_list_type, chars_from_bytes, int_value,
    signature, signature_of, text_bytes, text_value, Applied, AppliedModel, Request,
    RequestModel,
};
use crate::running_script::{
    assigned, dropped, function_index, resolve, table_view, RunningScript, Table,
};
use crate::stream::{FileInStream, FileOutStream, InSource, OutSink};
use crate::text::{join, join_from, texts};
use crate::var_type::{parse_type, VarType};
use crate::variable::{
    bytes_text, float_leaf, items_bytes, lemma_view_list, list_bytes, parse_value,
    text_of_bytes, values, Value, Variable,
};

verus! {

/// The mathematical content of a file output stream.
pub struct FileOutModel {
    pub bytes: Seq<u8>,
    pub bytes_wrote: Seq<u8>,
    pub file_path: Seq<char>,
}

/// The input streams by handle: the unread bytes of a file's contents, or
/// nothing for a stream of the host.
pub open spec fn in_view(s: Seq<InSource>) -> Seq<Option<Seq<u8>>> {
    s.map_values(
        |x: InSource|
            match x {
                InSource::Host => None,
                InSource::File(f) => Some(f.remaining()),
            },
    )
}

/// The output streams by handle: the state of a file's stream, or nothing
/// for a stream of the host.
pub open spec fn out_view(s: Seq<OutSink>) -> Seq<Option<FileOutModel>> {
    s.map_values(
        |x: OutSink|
            match x {
                OutSink::Host => None,
                OutSink::File(f) => Some(
                    FileOutModel {
                        bytes: f.bytes@,
                        bytes_wrote: f.bytes_wrote@,
                        file_path: f.file_path@,
                    },
                ),
            },
    )
}

/// What an instruction works on: the global variables, the local variables
/// of the call that it belongs to, the names of that call's temporary
/// variables, and the streams.
pub struct State {
    pub globals: Table,
    pub locals: Table,
    pub temps: Seq<Seq<char>>,
    pub inputs: Seq<Option<Seq<u8>>>,
    pub outputs: Seq<Option<FileOutModel>>,
}

/// The value of the variable `name`.
pub open spec fn fetch(st: State, name: Seq<char>) -> Result<Value, ScriptError> {
    resolve(st.globals, st.locals, name)
}

/// The state after `value` was written to `name`; on an error, the state
/// as it was.
pub open spec fn store(st: State, name: Seq<char>, value: Value, global: bool, init: bool) -> (
    State,
    Result<(), ScriptError>,
) {
    match assigned(st.globals, st.locals, name, value, global, init) {
        Ok((g, l)) => (State { globals: g, locals: l, ..st }, Ok(())),
        Err(e) => (st, Err(e)),
    }
}

/// Whether the first segment of `name` stands for a value.
pub open spec fn known(st: State, name: Seq<char>) -> bool {
    crate::running_script::lookup(st.globals, st.locals, crate::text::split(name, '.')[0]) is Some
}

/// The state after `value` was settled in `name`: assigned where the first
/// segment of the name stands for a value, and declared where it stands
/// for nothing. On an error, the state as it was.
pub open spec fn settle(st: State, name: Seq<char>, value: Value, global: bool) -> (
    State,
    Result<(), ScriptError>,
) {
    store(st, name, value, global, !known(st, name))
}

/// The state after the variable `name` was removed; on an error, the state
/// as it was.
pub open spec fn forget(st: State, name: Seq<char>) -> (State, Result<(), ScriptError>) {
    match dropped(st.globals, st.locals, name) {
        Ok((g, l)) => (State { globals: g, locals: l, ..st }, Ok(())),
        Err(e) => (st, Err(e)),
    }
}

/// A completed step as the outcome of an instruction.
pub open spec fn finish(p: (State, Result<(), ScriptError>)) -> (
    State,
    Result<OutcomeModel, ScriptError>,
) {
    (
        p.0,
        match p.1 {
            Ok(()) => Ok(OutcomeModel::Done),
            Err(e) => Err(e),
        },
    )
}

/// The values of the first `n` of the variables `names`, or the error of
/// the first that has none.
pub open spec fn operands(st: State, names: Seq<Seq<char>>, n: nat) -> Result<
    Seq<Value>,
    ScriptError,
>
    decreases n,
{
    if n == 0 || n > names.len() {
        Ok(Seq::empty())
    } else {
        match operands(st, names, (n - 1) as nat) {
            Err(e) => Err(e),
            Ok(v) => match fetch(st, names[n - 1]) {
                Ok(x) => Ok(v.push(x)),
                Err(e) => Err(e),
            },
        }
    }
}

/// The first function with the given name.
pub open spec fn function_named(fs: Seq<FunctionModel>, name: Seq<char>) -> Result<
    FunctionModel,
    ScriptError,
> {
    match function_index(fs, name, 0) {
        Some(i) => Ok(fs[i as int]),
        None => Err(ScriptError::FunctionUnknownError),
    }
}

/// The error of a result, if it has one.
pub open spec fn error_of<T>(r: Result<T, ScriptError>) -> Option<ScriptError> {
    match r {
        Ok(_) => None,
        Err(e) => Some(e),
    }
}

/// The error, if any, of the test that an instruction of the given kind
/// makes of its operand at position `pos` as soon as it has read it, before
/// it reads another.
pub open spec fn early_error(kind: CommandType, pos: nat, v: Value) -> Option<ScriptError> {
    match kind {
        CommandType::And => error_of(v.as_bool()),
        CommandType::Or => error_of(v.as_bool()),
        CommandType::HasStr => error_of(v.as_text()),
        CommandType::HasItem => if pos == 0 {
            error_of(v.as_list())
        } else {
            None
        },
        CommandType::HasEntry => if pos == 0 {
            error_of(v.as_map())
        } else {
            None
        },
        CommandType::HasKey => if pos == 0 {
            error_of(v.as_map())
        } else {
            None
        },
        CommandType::HasValue => if pos == 0 {
            error_of(v.as_map())
        } else {
            None
        },
        CommandType::AddInt => error_of(v.as_int()),
        CommandType::AddFloat => error_of(v.as_float()),
        CommandType::AddStr => if pos == 1 {
            error_of(crate::ops::as_addition(v))
        } else {
            error_of(v.as_text())
        },
        CommandType::SubStr => if pos == 0 {
            error_of(v.as_text())
        } else {
            error_of(v.as_int())
        },
        CommandType::SubList => if pos == 0 {
            None
        } else {
            error_of(v.as_int())
        },
        _ => None,
    }
}

/// Whether an instruction of the given kind reads its second operand
/// before its first: the three additions do.
pub open spec fn reads_backwards(kind: CommandType) -> bool {
    kind == CommandType::AddInt || kind == CommandType::AddFloat || kind == CommandType::AddStr
}

/// The operand at position `pos`, read and tested.
pub open spec fn read_operand(st: State, cmd: CommandModel, pos: nat) -> Result<Value, ScriptError> {
    match fetch(st, cmd.args[pos as int]) {
        Err(e) => Err(e),
        Ok(v) => match early_error(cmd.command_type, pos, v) {
            Some(e) => Err(e),
            None => Ok(v),
        },
    }
}

/// The first `n` operands of an instruction, read and tested one after the
/// other from the first on, or the error of the first that fails.
pub open spec fn gathered_forwards(st: State, cmd: CommandModel, n: nat) -> Result<
    Seq<Value>,
    ScriptError,
>
    decreases n,
{
    if n == 0 || n > cmd.args.len() {
        Ok(Seq::empty())
    } else {
        match gathered_forwards(st, cmd, (n - 1) as nat) {
            Err(e) => Err(e),
            Ok(v) => match read_operand(st, cmd, (n - 1) as nat) {
                Ok(x) => Ok(v.push(x)),
                Err(e) => Err(e),
            },
        }
    }
}

/// The `n` operands of an instruction in the order of its arguments, each
/// read and tested in the order in which the instruction reads them: the
/// second before the first for the additions, else from the first on. The
/// first failure is the instruction's.
pub open spec fn gathered(st: State, cmd: CommandModel, n: nat) -> Result<Seq<Value>, ScriptError> {
    if reads_backwards(cmd.command_type) {
        match read_operand(st, cmd, 1) {
            Err(e) => Err(e),
            Ok(b) => match read_operand(st, cmd, 0) {
                Err(e) => Err(e),
                Ok(a) => Ok(seq![a, b]),
            },
        }
    } else {
        gathered_forwards(st, cmd, n)
    }
}

/// An instruction that computes a value from `n` operands and stores it in
/// the variable that its argument `t` names. Where the host has to do the
/// arithmetic, the instruction asks, and stores the answer later.
pub open spec fn computed(cmd: CommandModel, global: bool, st: State, n: nat, t: nat) -> (
    State,
    Result<OutcomeModel, ScriptError>,
) {
    if cmd.args.len() < n || cmd.args.len() <= t {
        (st, Err(ScriptError::CommandArgsInvalidError))
    } else {
        match gathered(st, cmd, n) {
            Err(e) => (st, Err(e)),
            Ok(v) => match apply(cmd.command_type, v) {
                Err(e) => (st, Err(e)),
                Ok(AppliedModel::Value(x)) => finish(store(st, cmd.args[t as int], x, global, false)),
                Ok(AppliedModel::Ask(q)) => (
                    st,
                    Ok(
                        OutcomeModel::Host {
                            action: ActionModel::Float(q),
                            pending: PendingModel::Assign { name: cmd.args[t as int] },
                        },
                    ),
                ),
            },
        }
    }
}

/// `INIT_VAR type name`: declares `name` with the empty value of the type.
pub open spec fn init_var(cmd: CommandModel, global: bool, st: State) -> (
    State,
    Result<OutcomeModel, ScriptError>,
) {
    if cmd.args.len() < 2 {
        (st, Err(ScriptError::CommandArgsInvalidError))
    } else {
        match parse_type(cmd.args[0]) {
            None => (st, Err(ScriptError::TypeUnknownError)),
            Some(t) => finish(store(st, cmd.args[1], Value::empty(t), global, true)),
        }
    }
}

/// The state after the value of type `t` that `text` writes was stored in
/// `name`, the number `float` standing where the literal holds a float. A
/// temporary declaration also notes the name for removal.
pub open spec fn store_literal(
    st: State,
    name: Seq<char>,
    t: VarType,
    text: Seq<char>,
    float: Option<crate::float::FloatModel>,
    global: bool,
    init: bool,
) -> (State, Result<(), ScriptError>) {
    match parse_value(t, text, float) {
        Err(e) => (st, Err(e)),
        Ok(v) => {
            let (st2, r) = store(st, name, v, global, init);
            if r is Ok && init {
                (State { temps: st2.temps.push(name), ..st2 }, r)
            } else {
                (st2, r)
            }
        },
    }
}

/// A literal on its way into the variable `name`: stored at once, or, where
/// it holds a float, after the host has read the number.
pub open spec fn literal(
    st: State,
    name: Seq<char>,
    t: VarType,
    text: Seq<char>,
    global: bool,
    init: bool,
) -> (State, Result<OutcomeModel, ScriptError>) {
    match float_leaf(t, text) {
        Some(leaf) => (
            st,
            Ok(
                OutcomeModel::Host {
                    action: ActionModel::Float(RequestModel::ParseFloat { text: leaf }),
                    pending: PendingModel::Literal { name, var_type: t, text, init },
                },
            ),
        ),
        None => finish(store_literal(st, name, t, text, None, global, init)),
    }
}

/// `SET_VAR name value..`: assigns to `name` the value that the rest of
/// the line writes in the type that `name` has.
pub open spec fn set_var(cmd: CommandModel, global: bool, st: State) -> (
    State,
    Result<OutcomeModel, ScriptError>,
) {
    if cmd.args.len() < 1 {
        (st, Err(ScriptError::CommandArgsInvalidError))
    } else {
        match fetch(st, cmd.args[0]) {
            Err(e) => (st, Err(e)),
            Ok(v) => literal(
                st,
                cmd.args[0],
                v.get_type(),
                join(cmd.args.skip(1), " "@),
                global,
                false,
            ),
        }
    }
}

/// `TEMP_VAR type name value..`: declares `name` with the value that the
/// rest of the line writes, and notes it for removal.
pub open spec fn temp_var(cmd: CommandModel, global: bool, st: State) -> (
    State,
    Result<OutcomeModel, ScriptError>,
) {
    if cmd.args.len() < 2 {
        (st, Err(ScriptError::CommandArgsInvalidError))
    } else {
        match parse_type(cmd.args[0]) {
            None => (st, Err(ScriptError::TypeUnknownError)),
            Some(t) => literal(st, cmd.args[1], t, join(cmd.args.skip(2), " "@), global, true),
        }
    }
}

/// `MOVE_VAR source target`: assigns the value of `source` to `target`,
/// then removes `source`.
pub open spec fn move_var(cmd: CommandModel, global: bool, st: State) -> (
    State,
    Result<OutcomeModel, ScriptError>,
) {
    if cmd.args.len() < 2 {
        (st, Err(ScriptError::CommandArgsInvalidError))
    } else {
        match fetch(st, cmd.args[0]) {
            Err(e) => (st, Err(e)),
            Ok(v) => {
                let (st2, r) = store(st, cmd.args[1], v, global, false);
                match r {
                    Err(e) => (st2, Err(e)),
                    Ok(()) => finish(forget(st2, cmd.args[0])),
                }
            },
        }
    }
}

/// `DROP_VAR name`: removes `name`.
pub open spec fn drop_var(cmd: CommandModel, st: State) -> (
    State,
    Result<OutcomeModel, ScriptError>,
) {
    if cmd.args.len() < 1 {
        (st, Err(ScriptError::CommandArgsInvalidError))
    } else {
        finish(forget(st, cmd.args[0]))
    }
}

/// `HAS_VAR name result`: stores in `result` whether `name` stands for a
/// value.
pub open spec fn has_var(cmd: CommandModel, global: bool, st: State) -> (
    State,
    Result<OutcomeModel, ScriptError>,
) {
    if cmd.args.len() < 2 {
        (st, Err(ScriptError::CommandArgsInvalidError))
    } else {
        finish(store(st, cmd.args[1], bool_value(fetch(st, cmd.args[0]) is Ok), global, false))
    }
}

/// The bytes that writing `v` to a stream sends: the bytes of a list of
/// characters, the bytes of a string, the byte of a character.
pub open spec fn written_bytes(v: Value) -> Result<Seq<u8>, ScriptError> {
    match v {
        Value::List(t, Some(l)) => if t == char_list_type() {
            items_bytes(l, l.len())
        } else {
            Err(ScriptError::TypeMismatchError)
        },
        Value::Text(_, Some(s)) => Ok(text_bytes(s)),
        Value::Char(_, Some(c)) => Ok(seq![c]),
        _ => Err(ScriptError::TypeMismatchError),
    }
}

/// `WRITE name stream`: sends the bytes of `name` to `stream`. A file's
/// stream keeps them for its next flush; for a stream of the host, the
/// host is asked to write.
pub open spec fn write(cmd: CommandModel, st: State) -> (State, Result<OutcomeModel, ScriptError>) {
    if cmd.args.len() < 2 {
        (st, Err(ScriptError::CommandArgsInvalidError))
    } else {
        match fetch(st, cmd.args[0]) {
            Err(e) => (st, Err(e)),
            Ok(v) => match written_bytes(v) {
                Err(e) => (st, Err(e)),
                Ok(bytes) => match fetch(st, cmd.args[1]) {
                    Err(e) => (st, Err(e)),
                    Ok(s) => match s.as_out_stream() {
                        Err(e) => (st, Err(e)),
                        Ok(h) => if h >= st.outputs.len() {
                            (st, Err(ScriptError::StreamWriteError))
                        } else {
                            match st.outputs[h as int] {
                                None => (
                                    st,
                                    Ok(
                                        OutcomeModel::Host {
                                            action: ActionModel::Write { stream: h, bytes },
                                            pending: PendingModel::Written,
                                        },
                                    ),
                                ),
                                Some(f) => (
                                    State {
                                        outputs: st.outputs.update(
                                            h as int,
                                            Some(
                                                FileOutModel {
                                                    bytes_wrote: f.bytes_wrote + bytes,
                                                    ..f
                                                },
                                            ),
                                        ),
                                        ..st
                                    },
                                    Ok(OutcomeModel::Done),
                                ),
                            }
                        },
                    },
                },
            },
        }
    }
}

/// Whether bytes can be stored in the variable: in a list of characters or
/// in a string.
pub open spec fn takes_bytes(v: Value) -> bool {
    match v {
        Value::List(t, _) => t == char_list_type(),
        Value::Text(_, _) => true,
        _ => false,
    }
}

/// The state after `bytes` were stored in the variable `name`: as a list
/// of characters or, if they are valid UTF-8, as a string, whichever the
/// variable holds.
pub open spec fn store_bytes(st: State, name: Seq<char>, bytes: Seq<u8>, global: bool) -> (
    State,
    Result<(), ScriptError>,
) {
    match fetch(st, name) {
        Err(e) => (st, Err(e)),
        Ok(v) => match v {
            Value::List(t, _) => if t == char_list_type() {
                store(st, name, char_list(bytes), global, false)
            } else {
                (st, Err(ScriptError::TypeMismatchError))
            },
            Value::Text(_, _) => match bytes_text(bytes) {
                Ok(s) => store(st, name, text_value(s), global, false),
                Err(e) => (st, Err(e)),
            },
            _ => (st, Err(ScriptError::TypeMismatchError)),
        },
    }
}

/// Reading from the input stream `h` into `name`: `size` bytes, or all
/// that is left where `size` is `None`. A file's stream is read at once;
/// for a stream of the host, the host is asked to read.
pub open spec fn read_stream(
    st: State,
    name: Seq<char>,
    h: usize,
    size: Option<usize>,
    global: bool,
) -> (State, Result<OutcomeModel, ScriptError>) {
    if h >= st.inputs.len() {
        (st, Err(ScriptError::StreamReadError))
    } else {
        match st.inputs[h as int] {
            None => (
                st,
                Ok(
                    OutcomeModel::Host {
                        action: match size {
                            Some(n) => ActionModel::Read { stream: h, size: n },
                            None => ActionModel::ReadAll { stream: h },
                        },
                        pending: PendingModel::StoreBytes { name },
                    },
                ),
            ),
            Some(left) => {
                let n = match size {
                    Some(n) => n as int,
                    None => left.len() as int,
                };
                if n > left.len() {
                    (st, Err(ScriptError::StreamReadError))
                } else {
                    finish(
                        store_bytes(
                            State { inputs: st.inputs.update(h as int, Some(left.skip(n))), ..st },
                            name,
                            left.take(n),
                            global,
                        ),
                    )
                }
            },
        }
    }
}

/// `READ name size stream`: reads exactly `size` bytes from `stream` into
/// `name`.
pub open spec fn read(cmd: CommandModel, global: bool, st: State) -> (
    State,
    Result<OutcomeModel, ScriptError>,
) {
    if cmd.args.len() < 3 {
        (st, Err(ScriptError::CommandArgsInvalidError))
    } else {
        match fetch(st, cmd.args[0]) {
            Err(e) => (st, Err(e)),
            Ok(v) => match fetch(st, cmd.args[1]) {
                Err(e) => (st, Err(e)),
                Ok(n) => match n.as_int() {
                    Err(e) => (st, Err(e)),
                    Ok(size) => match fetch(st, cmd.args[2]) {
                        Err(e) => (st, Err(e)),
                        Ok(s) => match s.as_in_stream() {
                            Err(e) => (st, Err(e)),
                            Ok(h) => if !takes_bytes(v) {
                                (st, Err(ScriptError::TypeMismatchError))
                            } else if size < 0 {
                                (st, Err(ScriptError::StreamReadError))
                            } else {
                                read_stream(st, cmd.args[0], h, Some(size as usize), global)
                            },
                        },
                    },
                },
            },
        }
    }
}

/// `READ_ALL name stream`: reads `stream` to its end into `name`.
pub open spec fn read_all(cmd: CommandModel, global: bool, st: State) -> (
    State,
    Result<OutcomeModel, ScriptError>,
) {
    if cmd.args.len() < 2 {
        (st, Err(ScriptError::CommandArgsInvalidError))
    } else {
        match fetch(st, cmd.args[0]) {
            Err(e) => (st, Err(e)),
            Ok(v) => match fetch(st, cmd.args[1]) {
                Err(e) => (st, Err(e)),
                Ok(s) => match s.as_in_stream() {
                    Err(e) => (st, Err(e)),
                    Ok(h) => if !takes_bytes(v) {
                        (st, Err(ScriptError::TypeMismatchError))
                    } else {
                        read_stream(st, cmd.args[0], h, None, global)
                    },
                },
            },
        }
    }
}

/// `OPEN_FILE_IN path stream` and `OPEN_FILE_OUT path stream`: ask the host
/// for the bytes of the file.
pub open spec fn open_file(cmd: CommandModel, st: State, out: bool) -> (
    State,
    Result<OutcomeModel, ScriptError>,
) {
    if cmd.args.len() < 2 {
        (st, Err(ScriptError::CommandArgsInvalidError))
    } else {
        match fetch(st, cmd.args[0]) {
            Err(e) => (st, Err(e)),
            Ok(p) => match p.as_text() {
                Err(e) => (st, Err(e)),
                Ok(path) => (
                    st,
                    Ok(
                        OutcomeModel::Host {
                            action: ActionModel::ReadFile { path },
                            pending: if out {
                                PendingModel::OpenOut { name: cmd.args[1], path }
                            } else {
                                PendingModel::OpenIn { name: cmd.args[1] }
                            },
                        },
                    ),
                ),
            },
        }
    }
}

/// The number of milliseconds that an integer stands for: itself, counted
/// around from the top of the 64-bit range where it is negative.
pub open spec fn millis(v: isize) -> u64 {
    if v >= 0 {
        v as u64
    } else {
        (v + 0x1_0000_0000_0000_0000) as u64
    }
}

/// `SLEEP time`: asks the host to sleep for the milliseconds that the
/// integer or float `time` holds.
pub open spec fn sleep(cmd: CommandModel, st: State) -> (State, Result<OutcomeModel, ScriptError>) {
    if cmd.args.len() < 1 {
        (st, Err(ScriptError::CommandArgsInvalidError))
    } else {
        match fetch(st, cmd.args[0]) {
            Err(e) => (st, Err(e)),
            Ok(Value::Integer(_, Some(v))) => (
                st,
                Ok(
                    OutcomeModel::Host {
                        action: ActionModel::Sleep { time: SleepModel::Millis(millis(v)) },
                        pending: PendingModel::Nothing,
                    },
                ),
            ),
            Ok(Value::Float(_, Some(f))) => (
                st,
                Ok(
                    OutcomeModel::Host {
                        action: ActionModel::Sleep { time: SleepModel::Float(f) },
                        pending: PendingModel::Nothing,
                    },
                ),
            ),
            Ok(_) => (st, Err(ScriptError::TypeMismatchError)),
        }
    }
}

/// `NEW_THREAD func`: asks the host to run the function in a task of its
/// own.
pub open spec fn new_thread(cmd: CommandModel, fs: Seq<FunctionModel>, st: State) -> (
    State,
    Result<OutcomeModel, ScriptError>,
) {
    if cmd.args.len() < 1 {
        (st, Err(ScriptError::CommandArgsInvalidError))
    } else {
        match function_named(fs, cmd.args[0]) {
            Err(e) => (st, Err(e)),
            Ok(f) => (
                st,
                Ok(
                    OutcomeModel::Host {
                        action: ActionModel::Spawn { function: f },
                        pending: PendingModel::Nothing,
                    },
                ),
            ),
        }
    }
}

/// `USE_FUNC func result args..`: one call of `func` with the values of
/// `args`, whose result goes to `result`.
pub open spec fn use_func(cmd: CommandModel, fs: Seq<FunctionModel>, st: State) -> (
    State,
    Result<OutcomeModel, ScriptError>,
) {
    if cmd.args.len() < 2 {
        (st, Err(ScriptError::CommandArgsInvalidError))
    } else {
        match function_named(fs, cmd.args[0]) {
            Err(e) => (st, Err(e)),
            Ok(f) => match operands(st, cmd.args.skip(2), (cmd.args.len() - 2) as nat) {
                Err(e) => (st, Err(e)),
                Ok(v) => (
                    st,
                    Ok(
                        OutcomeModel::Loop(
                            LoopModel::Once { function: f, result_var: cmd.args[1], args: v },
                        ),
                    ),
                ),
            },
        }
    }
}

/// `FOR func start end`: one call of `func` for each integer from `start`
/// to `end`, both included, in rising order.
pub open spec fn for_range(cmd: CommandModel, fs: Seq<FunctionModel>, st: State) -> (
    State,
    Result<OutcomeModel, ScriptError>,
) {
    if cmd.args.len() < 3 {
        (st, Err(ScriptError::CommandArgsInvalidError))
    } else {
        match fetch(st, cmd.args[1]) {
            Err(e) => (st, Err(e)),
            Ok(a) => match a.as_int() {
                Err(e) => (st, Err(e)),
                Ok(start) => match fetch(st, cmd.args[2]) {
                    Err(e) => (st, Err(e)),
                    Ok(b) => match b.as_int() {
                        Err(e) => (st, Err(e)),
                        Ok(end) => match function_named(fs, cmd.args[0]) {
                            Err(e) => (st, Err(e)),
                            Ok(f) => (
                                st,
                                Ok(
                                    OutcomeModel::Loop(
                                        LoopModel::Range { function: f, start, end },
                                    ),
                                ),
                            ),
                        },
                    },
                },
            },
        }
    }
}

/// The items that a container instruction walks over: the items of a list,
/// or the bytes of a string as characters.
pub open spec fn walked(kind: CommandType, v: Value) -> Result<Seq<Value>, ScriptError> {
    if kind == CommandType::ForString {
        match v.as_text() {
            Ok(s) => Ok(crate::ops::char_values(text_bytes(s))),
            Err(e) => Err(e),
        }
    } else {
        v.as_list()
    }
}

/// `FOR_LIST func list` and `FOR_STRING func string`: one call of `func`
/// for each item, in order.
pub open spec fn for_items(cmd: CommandModel, fs: Seq<FunctionModel>, st: State) -> (
    State,
    Result<OutcomeModel, ScriptError>,
) {
    if cmd.args.len() < 2 {
        (st, Err(ScriptError::CommandArgsInvalidError))
    } else {
        match fetch(st, cmd.args[1]) {
            Err(e) => (st, Err(e)),
            Ok(v) => match walked(cmd.command_type, v) {
                Err(e) => (st, Err(e)),
                Ok(items) => match function_named(fs, cmd.args[0]) {
                    Err(e) => (st, Err(e)),
                    Ok(f) => (
                        st,
                        Ok(OutcomeModel::Loop(LoopModel::Items { function: f, items, next: 0 })),
                    ),
                },
            },
        }
    }
}

/// `FOR_MAP func map`: one call of `func`, with key and value, for each
/// entry of the mapping, in the order of its entries.
pub open spec fn for_map(cmd: CommandModel, fs: Seq<FunctionModel>, st: State) -> (
    State,
    Result<OutcomeModel, ScriptError>,
) {
    if cmd.args.len() < 2 {
        (st, Err(ScriptError::CommandArgsInvalidError))
    } else {
        match fetch(st, cmd.args[1]) {
            Err(e) => (st, Err(e)),
            Ok(v) => match v.as_map() {
                Err(e) => (st, Err(e)),
                Ok(l) => match function_named(fs, cmd.args[0]) {
                    Err(e) => (st, Err(e)),
                    Ok(f) => (
                        st,
                        Ok(
                            OutcomeModel::Loop(
                                LoopModel::Entries { function: f, entries: l, next: 0 },
                            ),
                        ),
                    ),
                },
            },
        }
    }
}

/// `WHILE func`: settles true in the variable `while`, and then calls `func`
/// for as long as `while`, which takes each call's result, is true.
pub open spec fn while_loop(cmd: CommandModel, fs: Seq<FunctionModel>, global: bool, st: State) -> (
    State,
    Result<OutcomeModel, ScriptError>,
) {
    if cmd.args.len() < 1 {
        (st, Err(ScriptError::CommandArgsInvalidError))
    } else {
        match function_named(fs, cmd.args[0]) {
            Err(e) => (st, Err(e)),
            Ok(f) => {
                let (st2, r) = settle(st, "while"@, bool_value(true), global);
                match r {
                    Err(e) => (st2, Err(e)),
                    Ok(()) => (
                        st2,
                        Ok(OutcomeModel::Loop(LoopModel::While { function: f, started: false })),
                    ),
                }
            },
        }
    }
}

/// `IF bool func`: one call of `func` if `bool` is true.
pub open spec fn if_call(cmd: CommandModel, fs: Seq<FunctionModel>, st: State) -> (
    State,
    Result<OutcomeModel, ScriptError>,
) {
    if cmd.args.len() < 2 {
        (st, Err(ScriptError::CommandArgsInvalidError))
    } else {
        match function_named(fs, cmd.args[1]) {
            Err(e) => (st, Err(e)),
            Ok(f) => match fetch(st, cmd.args[0]) {
                Err(e) => (st, Err(e)),
                Ok(v) => match v.as_bool() {
                    Err(e) => (st, Err(e)),
                    Ok(b) => if b {
                        (
                            st,
                            Ok(
                                OutcomeModel::Loop(
                                    LoopModel::Once {
                                        function: f,
                                        result_var: "null"@,
                                        args: Seq::empty(),
                                    },
                                ),
                            ),
                        )
                    } else {
                        (st, Ok(OutcomeModel::Done))
                    },
                },
            },
        }
    }
}

/// The bounds of `RANDOM min max result`, where the instruction has them.
pub open spec fn random_bounds(cmd: CommandModel, st: State) -> Result<(isize, isize), ScriptError> {
    if cmd.args.len() < 3 {
        Err(ScriptError::CommandArgsInvalidError)
    } else {
        match fetch(st, cmd.args[0]) {
            Err(e) => Err(e),
            Ok(a) => match a.as_int() {
                Err(e) => Err(e),
                Ok(low) => match fetch(st, cmd.args[1]) {
                    Err(e) => Err(e),
                    Ok(b) => match b.as_int() {
                        Err(e) => Err(e),
                        Ok(high) => if low <= high {
                            Ok((low, high))
                        } else {
                            Err(ScriptError::CommandArgsInvalidError)
                        },
                    },
                },
            },
        }
    }
}

/// `RANDOM min max result`, once the number `drawn` has been drawn: stores
/// it in `result`.
pub open spec fn random(cmd: CommandModel, global: bool, st: State, drawn: isize) -> (
    State,
    Result<OutcomeModel, ScriptError>,
) {
    match random_bounds(cmd, st) {
        Err(e) => (st, Err(e)),
        Ok(_) => finish(store(st, cmd.args[2], int_value(drawn), global, false)),
    }
}

/// Whether `drawn` is a number that the instruction may have drawn: any
/// number, unless the instruction is a `RANDOM` with bounds, which draws
/// between them.
pub open spec fn may_draw(cmd: CommandModel, st: State, drawn: isize) -> bool {
    cmd.command_type == CommandType::Random ==> match random_bounds(cmd, st) {
        Ok((low, high)) => low <= drawn <= high,
        Err(_) => true,
    }
}

/// What an instruction does: the state that it leaves, and what it leads
/// to or the error that it fails with. `drawn` is the number that a
/// `RANDOM` draws.
///
/// An instruction with too few arguments fails with
/// `CommandArgsInvalidError`. The markers of function declarations, the
/// imports and the network instructions do nothing.
pub open spec fn effect(
    cmd: CommandModel,
    fs: Seq<FunctionModel>,
    global: bool,
    st: State,
    drawn: isize,
) -> (State, Result<OutcomeModel, ScriptError>) {
    match signature(cmd.command_type) {
        Some((n, t)) => computed(cmd, global, st, n, t),
        None => match cmd.command_type {
            CommandType::InitVar => init_var(cmd, global, st),
            CommandType::SetVar => set_var(cmd, global, st),
            CommandType::TempVar => temp_var(cmd, global, st),
            CommandType::MoveVar => move_var(cmd, global, st),
            CommandType::DropVar => drop_var(cmd, st),
            CommandType::HasVar => has_var(cmd, global, st),
            CommandType::Write => write(cmd, st),
            CommandType::Read => read(cmd, global, st),
            CommandType::ReadAll => read_all(cmd, global, st),
            CommandType::OpenFileIn => open_file(cmd, st, false),
            CommandType::OpenFileOut => open_file(cmd, st, true),
            CommandType::Sleep => sleep(cmd, st),
            CommandType::NewThread => new_thread(cmd, fs, st),
            CommandType::UseFunc => use_func(cmd, fs, st),
            CommandType::For => for_range(cmd, fs, st),
            CommandType::ForList => for_items(cmd, fs, st),
            CommandType::ForString => for_items(cmd, fs, st),
            CommandType::ForMap => for_map(cmd, fs, st),
            CommandType::While => while_loop(cmd, fs, global, st),
            CommandType::If => if_call(cmd, fs, st),
            CommandType::Random => random(cmd, global, st, drawn),
            CommandType::Return => (st, Ok(OutcomeModel::Return)),
            _ => (st, Ok(OutcomeModel::Done)),
        },
    }
}

/// What an instruction that asked the host does with the host's report.
pub open spec fn resumed(pending: PendingModel, event: EventModel, global: bool, st: State) -> (
    State,
    Result<(), ScriptError>,
) {
    match pending {
        PendingModel::Nothing => (st, Ok(())),
        PendingModel::Written => match event {
            EventModel::Done => (st, Ok(())),
            _ => (st, Err(ScriptError::StreamWriteError)),
        },
        PendingModel::StoreBytes { name } => match event {
            EventModel::Bytes(b) => store_bytes(st, name, b, global),
            _ => (st, Err(ScriptError::StreamReadError)),
        },
        PendingModel::OpenIn { name } => match event {
            EventModel::Bytes(b) => {
                let (st2, r) = store(
                    st,
                    name,
                    Value::InStream(VarType::InStream, Some(st.inputs.len() as usize)),
                    global,
                    false,
                );
                match r {
                    Ok(()) => (State { inputs: st.inputs.push(Some(b)), ..st2 }, r),
                    Err(_) => (st2, r),
                }
            },
            _ => (st, Err(ScriptError::FileReadError)),
        },
        PendingModel::OpenOut { name, path } => match event {
            EventModel::Bytes(b) => {
                let (st2, r) = store(
                    st,
                    name,
                    Value::OutStream(VarType::OutStream, Some(st.outputs.len() as usize)),
                    global,
                    false,
                );
                match r {
                    Ok(()) => (
                        State {
                            outputs: st.outputs.push(
                                Some(
                                    FileOutModel {
                                        bytes: b,
                                        bytes_wrote: Seq::empty(),
                                        file_path: path,
                                    },
                                ),
                            ),
                            ..st2
                        },
                        r,
                    ),
                    Err(_) => (st2, r),
                }
            },
            _ => (st, Err(ScriptError::FileWriteError)),
        },
        PendingModel::Assign { name } => match event {
            EventModel::Float(f) => store(
                st,
                name,
                Value::Float(VarType::Float, Some(f)),
                global,
                false,
            ),
            EventModel::Flag(b) => store(st, name, bool_value(b), global, false),
            _ => (st, Err(ScriptError::ParseVarError)),
        },
        PendingModel::Literal { name, var_type, text, init } => store_literal(
            st,
            name,
            var_type,
            text,
            match event {
                EventModel::Float(f) => Some(f),
                _ => None,
            },
            global,
            init,
        ),
    }
}

/// The state that an instruction finds in the script, the local table and
/// the list of temporary names.
pub open spec fn state_of(
    script: &RunningScript,
    locals: &StringHashMap<Variable>,
    temps: &Vec<String>,
) -> State {
    State {
        globals: script.globals(),
        locals: table_view(locals@),
        temps: texts(temps@),
        inputs: in_view(script.in_streams@),
        outputs: out_view(script.out_streams@),
    }
}

/// The mathematical content of the result of a run.
pub open spec fn outcome_of(r: Result<Outcome, ScriptError>) -> Result<OutcomeModel, ScriptError> {
    match r {
        Ok(o) => Ok(o@),
        Err(e) => Err(e),
    }
}

/// A success without a value is the one such success.
pub proof fn lemma_unit(r: Result<(), ScriptError>)
    ensures
        r is Ok ==> r == Ok::<(), ScriptError>(()),
{
    match r {
        Ok(u) => {
            assert(u == ());
        },
        Err(_) => {},
    }
}

/// `Rng::gen_range` on the thread's generator, over the range from `low`
/// to `high`, both included: some number of that range.
#[verifier::external_body]
fn draw(low: isize, high: isize) -> (r: isize)
    requires
        low <= high,
    ensures
        low <= r <= high,
{
    rand::thread_rng().gen_range(low..=high)
}

pub(crate) fn fetch_var(script: &RunningScript, locals: &StringHashMap<Variable>, name: &String) -> (r: Result<
    Variable,
    ScriptError,
>)
    ensures
        match r {
            Ok(v) => resolve(script.globals(), table_view(locals@), name@) == Ok::<
                Value,
                ScriptError,
            >(v@),
            Err(e) => resolve(script.globals(), table_view(locals@), name@) == Err::<
                Value,
                ScriptError,
            >(e),
        },
{
    script.get_var(name.clone(), locals)
}

pub(crate) fn store_var(
    script: &mut RunningScript,
    locals: &mut StringHashMap<Variable>,
    temps: &Vec<String>,
    name: &String,
    value: Variable,
    global: bool,
    init: bool,
) -> (r: Result<(), ScriptError>)
    ensures
        final(script).same_but_globals(old(script)),
        (state_of(final(script), final(locals), temps), r) == store(
            state_of(old(script), old(locals), temps),
            name@,
            value@,
            global,
            init,
        ),
{
    let r = script.set_var(name.clone(), value, global, init, locals);
    proof {
        lemma_unit(r);
    }
    r
}

pub(crate) fn settle_var(
    script: &mut RunningScript,
    locals: &mut StringHashMap<Variable>,
    temps: &Vec<String>,
    name: &String,
    value: Variable,
    global: bool,
) -> (r: Result<(), ScriptError>)
    ensures
        final(script).same_but_globals(old(script)),
        (state_of(final(script), final(locals), temps), r) == settle(
            state_of(old(script), old(locals), temps),
            name@,
            value@,
            global,
        ),
{
    proof {
        crate::running_script::lemma_split_nonempty(name@, '.');
    }
    let segs = crate::text::split_text(name.as_str(), '.');
    assert(texts(segs@)[0] == segs@[0]@);
    let is_known = locals.contains_key(segs[0].as_str()) || script.variables.contains_key(
        segs[0].as_str(),
    );
    store_var(script, locals, temps, name, value, global, !is_known)
}

pub(crate) fn forget_var(
    script: &mut RunningScript,
    locals: &mut StringHashMap<Variable>,
    temps: &Vec<String>,
    name: &String,
) -> (r: Result<(), ScriptError>)
    ensures
        final(script).same_but_globals(old(script)),
        (state_of(final(script), final(locals), temps), r) == forget(
            state_of(old(script), old(locals), temps),
            name@,
        ),
{
    let r = script.drop_var(name.clone(), locals);
    proof {
        lemma_unit(r);
    }
    r
}

fn find_function(script: &RunningScript, name: &String) -> (r: Result<Function, ScriptError>)
    ensures
        match r {
            Ok(f) => function_named(functions_view(script.functions@), name@) == Ok::<
                FunctionModel,
                ScriptError,
            >(f@),
            Err(e) => function_named(functions_view(script.functions@), name@) == Err::<
                FunctionModel,
                ScriptError,
            >(e),
        },
{
    script.get_function(name.clone())
}

/// Reads the variables that `count` of the names of `args` name, from
/// position `from` on.
fn read_operands(
    script: &RunningScript,
    locals: &StringHashMap<Variable>,
    temps: &Vec<String>,
    args: &Vec<String>,
    from: usize,
    count: usize,
) -> (r: Result<Vec<Variable>, ScriptError>)
    requires
        from + count <= args.len(),
    ensures
        match r {
            Ok(v) => operands(
                state_of(script, locals, temps),
                texts(args@).skip(from as int),
                count as nat,
            ) == Ok::<Seq<Value>, ScriptError>(values(v@)) && v.len() == count,
            Err(e) => operands(
                state_of(script, locals, temps),
                texts(args@).skip(from as int),
                count as nat,
            ) == Err::<Seq<Value>, ScriptError>(e),
        },
{
    let mut out: Vec<Variable> = Vec::new();
    let mut i: usize = 0;
    assert(values(out@) =~= Seq::<Value>::empty());
    while i < count
        invariant
            0 <= i <= count,
            from + count <= args.len(),
            out.len() == i,
            operands(state_of(script, locals, temps), texts(args@).skip(from as int), i as nat)
                == Ok::<Seq<Value>, ScriptError>(values(out@)),
        decreases count - i,
    {
        let ghost before = values(out@);
        match fetch_var(script, locals, &args[from + i]) {
            Ok(v) => {
                out.push(v);
                assert(values(out@) =~= before.push(v@));
            },
            Err(e) => {
                proof {
                    lemma_operands_err(
                        state_of(script, locals, temps),
                        texts(args@).skip(from as int),
                        (i + 1) as nat,
                        count as nat,
                    );
                }
                return Err(e);
            },
        }
        i += 1;
    }
    Ok(out)
}

/// Once a name has no value, no longer run of names has values.
pub proof fn lemma_operands_err(st: State, names: Seq<Seq<char>>, n: nat, m: nat)
    requires
        n <= m <= names.len(),
        operands(st, names, n) is Err,
    ensures
        operands(st, names, m) == operands(st, names, n),
    decreases m,
{
    if m > n {
        lemma_operands_err(st, names, n, (m - 1) as nat);
    }
}

fn early_check(kind: CommandType, pos: usize, v: &Variable) -> (r: Option<ScriptError>)
    ensures
        r == early_error(kind, pos as nat, v@),
{
    match kind {
        CommandType::And | CommandType::Or => match v.as_bool() {
            Ok(_) => None,
            Err(e) => Some(e),
        },
        CommandType::HasStr => match v.as_str() {
            Ok(_) => None,
            Err(e) => Some(e),
        },
        CommandType::HasItem => if pos == 0 {
            match v {
                Variable::List(_, Some(_)) => None,
                _ => Some(ScriptError::TypeMismatchError),
            }
        } else {
            None
        },
        CommandType::HasEntry | CommandType::HasKey | CommandType::HasValue => if pos == 0 {
            match v {
                Variable::Mapping(_, Some(_)) => None,
                _ => Some(ScriptError::TypeMismatchError),
            }
        } else {
            None
        },
        CommandType::AddInt => match v.as_int() {
            Ok(_) => None,
            Err(e) => Some(e),
        },
        CommandType::AddFloat => match v {
            Variable::Float(_, Some(_)) => None,
            _ => Some(ScriptError::TypeMismatchError),
        },
        CommandType::AddStr => if pos == 1 {
            match crate::ops::addition_of(v) {
                Ok(_) => None,
                Err(e) => Some(e),
            }
        } else {
            match v.as_str() {
                Ok(_) => None,
                Err(e) => Some(e),
            }
        },
        CommandType::SubStr => if pos == 0 {
            match v.as_str() {
                Ok(_) => None,
                Err(e) => Some(e),
            }
        } else {
            match v.as_int() {
                Ok(_) => None,
                Err(e) => Some(e),
            }
        },
        CommandType::SubList => if pos == 0 {
            None
        } else {
            match v.as_int() {
                Ok(_) => None,
                Err(e) => Some(e),
            }
        },
        _ => None,
    }
}

fn read_one(
    cmd: &Command,
    script: &RunningScript,
    locals: &StringHashMap<Variable>,
    temps: &Vec<String>,
    pos: usize,
) -> (r: Result<Variable, ScriptError>)
    requires
        pos < cmd.args.len(),
    ensures
        match r {
            Ok(v) => read_operand(state_of(script, locals, temps), cmd@, pos as nat) == Ok::<
                Value,
                ScriptError,
            >(v@),
            Err(e) => read_operand(state_of(script, locals, temps), cmd@, pos as nat) == Err::<
                Value,
                ScriptError,
            >(e),
        },
{
    match fetch_var(script, locals, &cmd.args[pos]) {
        Err(e) => Err(e),
        Ok(v) => match early_check(cmd.command_type, pos, &v) {
            Some(e) => Err(e),
            None => Ok(v),
        },
    }
}

/// Once an operand fails, no longer run of operands is gathered.
pub proof fn lemma_gathered_err(st: State, cmd: CommandModel, n: nat, m: nat)
    requires
        n <= m <= cmd.args.len(),
        gathered_forwards(st, cmd, n) is Err,
    ensures
        gathered_forwards(st, cmd, m) == gathered_forwards(st, cmd, n),
    decreases m,
{
    if m > n {
        lemma_gathered_err(st, cmd, n, (m - 1) as nat);
    }
}

/// Reads and tests the `n` operands of an instruction in the order in
/// which the instruction reads them.
fn gather(
    cmd: &Command,
    script: &RunningScript,
    locals: &StringHashMap<Variable>,
    temps: &Vec<String>,
    n: usize,
) -> (r: Result<Vec<Variable>, ScriptError>)
    requires
        n <= cmd.args.len(),
        signature(cmd.command_type) matches Some((k, _)) && k == n,
    ensures
        match r {
            Ok(v) => gathered(state_of(script, locals, temps), cmd@, n as nat) == Ok::<
                Seq<Value>,
                ScriptError,
            >(values(v@)) && v.len() == n,
            Err(e) => gathered(state_of(script, locals, temps), cmd@, n as nat) == Err::<
                Seq<Value>,
                ScriptError,
            >(e),
        },
{
    let backwards = match cmd.command_type {
        CommandType::AddInt | CommandType::AddFloat | CommandType::AddStr => true,
        _ => false,
    };
    if backwards {
        let b = match read_one(cmd, script, locals, temps, 1) {
            Ok(v) => v,
            Err(e) => {
                return Err(e);
            },
        };
        let a = match read_one(cmd, script, locals, temps, 0) {
            Ok(v) => v,
            Err(e) => {
                return Err(e);
            },
        };
        let mut out: Vec<Variable> = Vec::new();
        out.push(a);
        out.push(b);
        assert(values(out@) =~= seq![a@, b@]);
        return Ok(out);
    }
    let mut out: Vec<Variable> = Vec::new();
    let mut i: usize = 0;
    assert(values(out@) =~= Seq::<Value>::empty());
    while i < n
        invariant
            0 <= i <= n <= cmd.args.len(),
            out.len() == i,
            !reads_backwards(cmd@.command_type),
            gathered_forwards(state_of(script, locals, temps), cmd@, i as nat) == Ok::<
                Seq<Value>,
                ScriptError,
            >(values(out@)),
        decreases n - i,
    {
        let ghost before = values(out@);
        match read_one(cmd, script, locals, temps, i) {
            Ok(v) => {
                out.push(v);
                assert(values(out@) =~= before.push(v@));
            },
            Err(e) => {
                proof {
                    lemma_gathered_err(
                        state_of(script, locals, temps),
                        cmd@,
                        (i + 1) as nat,
                        n as nat,
                    );
                }
                return Err(e);
            },
        }
        i += 1;
    }
    Ok(out)
}

fn run_computed(
    cmd: &Command,
    script: &mut RunningScript,
    global: bool,
    locals: &mut StringHashMap<Variable>,
    temps: &Vec<String>,
    n: usize,
    t: usize,
) -> (r: Result<Outcome, ScriptError>)
    requires
        signature(cmd.command_type) == Some((n as nat, t as nat)),
    ensures
        final(script).same_but_globals(old(script)),
        (state_of(final(script), final(locals), temps), outcome_of(r)) == computed(
            cmd@,
            global,
            state_of(old(script), old(locals), temps),
            n as nat,
            t as nat,
        ),
{
    if cmd.args.len() < n || cmd.args.len() <= t {
        return Err(ScriptError::CommandArgsInvalidError);
    }
    let vals = match gather(cmd, script, locals, temps, n) {
        Ok(v) => v,
        Err(e) => {
            return Err(e);
        },
    };
    match apply_to(cmd.command_type, &vals) {
        Err(e) => Err(e),
        Ok(Applied::Value(x)) => match store_var(script, locals, temps, &cmd.args[t], x, global, false) {
            Ok(()) => Ok(Outcome::Done),
            Err(e) => Err(e),
        },
        Ok(Applied::Ask(q)) => Ok(
            Outcome::Host {
                action: Action::Float(q),
                pending: Pending::Assign { name: cmd.args[t].clone() },
            },
        ),
    }
}

fn run_init_var(
    cmd: &Command,
    script: &mut RunningScript,
    global: bool,
    locals: &mut StringHashMap<Variable>,
    temps: &Vec<String>,
) -> (r: Result<Outcome, ScriptError>)
    ensures
        final(script).same_but_globals(old(script)),
        (state_of(final(script), final(locals), temps), outcome_of(r)) == init_var(
            cmd@,
            global,
            state_of(old(script), old(locals), temps),
        ),
{
    if cmd.args.len() < 2 {
        return Err(ScriptError::CommandArgsInvalidError);
    }
    let t = match VarType::from_name(cmd.args[0].as_str()) {
        Ok(t) => t,
        Err(e) => {
            return Err(e);
        },
    };
    let value = match Variable::empty_var(t) {
        Ok(v) => v,
        Err(e) => {
            return Err(e);
        },
    };
    match store_var(script, locals, temps, &cmd.args[1], value, global, true) {
        Ok(()) => Ok(Outcome::Done),
        Err(e) => Err(e),
    }
}

fn run_store_literal(
    script: &mut RunningScript,
    global: bool,
    locals: &mut StringHashMap<Variable>,
    temps: &mut Vec<String>,
    name: String,
    t: VarType,
    text: String,
    float: Option<FloatValue>,
    init: bool,
) -> (r: Result<(), ScriptError>)
    ensures
        final(script).same_but_globals(old(script)),
        (state_of(final(script), final(locals), final(temps)), r) == store_literal(
            state_of(old(script), old(locals), old(temps)),
            name@,
            t,
            text@,
            match float {
                Some(f) => Some(f@),
                None => None,
            },
            global,
            init,
        ),
{
    let value = match Variable::parse_var(t, text, float) {
        Ok(v) => v,
        Err(e) => {
            return Err(e);
        },
    };
    match store_var(script, locals, temps, &name, value, global, init) {
        Ok(()) => {
            if init {
                let ghost before = temps@;
                temps.push(name);
                assert(texts(temps@) =~= texts(before).push(name@));
            }
            Ok(())
        },
        Err(e) => Err(e),
    }
}

fn run_literal(
    script: &mut RunningScript,
    global: bool,
    locals: &mut StringHashMap<Variable>,
    temps: &mut Vec<String>,
    name: String,
    t: VarType,
    text: String,
    init: bool,
) -> (r: Result<Outcome, ScriptError>)
    ensures
        final(script).same_but_globals(old(script)),
        (state_of(final(script), final(locals), final(temps)), outcome_of(r)) == literal(
            state_of(old(script), old(locals), old(temps)),
            name@,
            t,
            text@,
            global,
            init,
        ),
{
    match Variable::float_text(&t, text.as_str()) {
        Some(leaf) => Ok(
            Outcome::Host {
                action: Action::Float(Request::ParseFloat { text: leaf }),
                pending: Pending::Literal { name, var_type: t, text, init },
            },
        ),
        None => match run_store_literal(script, global, locals, temps, name, t, text, None, init) {
            Ok(()) => Ok(Outcome::Done),
            Err(e) => Err(e),
        },
    }
}

fn run_set_var(
    cmd: &Command,
    script: &mut RunningScript,
    global: bool,
    locals: &mut StringHashMap<Variable>,
    temps: &mut Vec<String>,
) -> (r: Result<Outcome, ScriptError>)
    ensures
        final(script).same_but_globals(old(script)),
        (state_of(final(script), final(locals), final(temps)), outcome_of(r)) == set_var(
            cmd@,
            global,
            state_of(old(script), old(locals), old(temps)),
        ),
{
    if cmd.args.len() < 1 {
        return Err(ScriptError::CommandArgsInvalidError);
    }
    let current = match fetch_var(script, locals, &cmd.args[0]) {
        Ok(v) => v,
        Err(e) => {
            return Err(e);
        },
    };
    let text = join_from(&cmd.args, 1, " ");
    assert(texts(cmd.args@.skip(1)) =~= texts(cmd.args@).skip(1));
    run_literal(
        script,
        global,
        locals,
        temps,
        cmd.args[0].clone(),
        current.get_type(),
        text,
        false,
    )
}

fn run_temp_var(
    cmd: &Command,
    script: &mut RunningScript,
    global: bool,
    locals: &mut StringHashMap<Variable>,
    temps: &mut Vec<String>,
) -> (r: Result<Outcome, ScriptError>)
    ensures
        final(script).same_but_globals(old(script)),
        (state_of(final(script), final(locals), final(temps)), outcome_of(r)) == temp_var(
            cmd@,
            global,
            state_of(old(script), old(locals), old(temps)),
        ),
{
    if cmd.args.len() < 2 {
        return Err(ScriptError::CommandArgsInvalidError);
    }
    let t = match VarType::from_name(cmd.args[0].as_str()) {
        Ok(t) => t,
        Err(e) => {
            return Err(e);
        },
    };
    let text = join_from(&cmd.args, 2, " ");
    assert(texts(cmd.args@.skip(2)) =~= texts(cmd.args@).skip(2));
    run_literal(script, global, locals, temps, cmd.args[1].clone(), t, text, true)
}

fn run_move_var(
    cmd: &Command,
    script: &mut RunningScript,
    global: bool,
    locals: &mut StringHashMap<Variable>,
    temps: &Vec<String>,
) -> (r: Result<Outcome, ScriptError>)
    ensures
        final(script).same_but_globals(old(script)),
        (state_of(final(script), final(locals), temps), outcome_of(r)) == move_var(
            cmd@,
            global,
            state_of(old(script), old(locals), temps),
        ),
{
    if cmd.args.len() < 2 {
        return Err(ScriptError::CommandArgsInvalidError);
    }
    let value = match fetch_var(script, locals, &cmd.args[0]) {
        Ok(v) => v,
        Err(e) => {
            return Err(e);
        },
    };
    match store_var(script, locals, temps, &cmd.args[1], value, global, false) {
        Err(e) => Err(e),
        Ok(()) => match forget_var(script, locals, temps, &cmd.args[0]) {
            Ok(()) => Ok(Outcome::Done),
            Err(e) => Err(e),
        },
    }
}

fn run_drop_var(
    cmd: &Command,
    script: &mut RunningScript,
    locals: &mut StringHashMap<Variable>,
    temps: &Vec<String>,
) -> (r: Result<Outcome, ScriptError>)
    ensures
        final(script).same_but_globals(old(script)),
        (state_of(final(script), final(locals), temps), outcome_of(r)) == drop_var(
            cmd@,
            state_of(old(script), old(locals), temps),
        ),
{
    if cmd.args.len() < 1 {
        return Err(ScriptError::CommandArgsInvalidError);
    }
    match forget_var(script, locals, temps, &cmd.args[0]) {
        Ok(()) => Ok(Outcome::Done),
        Err(e) => Err(e),
    }
}

fn run_has_var(
    cmd: &Command,
    script: &mut RunningScript,
    global: bool,
    locals: &mut StringHashMap<Variable>,
    temps: &Vec<String>,
) -> (r: Result<Outcome, ScriptError>)
    ensures
        final(script).same_but_globals(old(script)),
        (state_of(final(script), final(locals), temps), outcome_of(r)) == has_var(
            cmd@,
            global,
            state_of(old(script), old(locals), temps),
        ),
{
    if cmd.args.len() < 2 {
        return Err(ScriptError::CommandArgsInvalidError);
    }
    let found = match fetch_var(script, locals, &cmd.args[0]) {
        Ok(_) => true,
        Err(_) => false,
    };
    match store_var(
        script,
        locals,
        temps,
        &cmd.args[1],
        Variable::from_bool(Some(found)),
        global,
        false,
    ) {
        Ok(()) => Ok(Outcome::Done),
        Err(e) => Err(e),
    }
}

/// The bytes that writing `v` to a stream sends.
pub fn bytes_to_write(v: &Variable) -> (r: Result<Vec<u8>, ScriptError>)
    ensures
        match r {
            Ok(b) => written_bytes(v@) == Ok::<Seq<u8>, ScriptError>(b@),
            Err(e) => written_bytes(v@) == Err::<Seq<u8>, ScriptError>(e),
        },
{
    match v {
        Variable::List(t, Some(l)) => {
            proof {
                lemma_view_list(*t, *l);
            }
            let is_chars = match t {
                VarType::List(inner) => match **inner {
                    VarType::Char => true,
                    _ => false,
                },
                _ => false,
            };
            if is_chars {
                list_bytes(l)
            } else {
                Err(ScriptError::TypeMismatchError)
            }
        },
        Variable::String(_, Some(s)) => Ok(s.as_str().as_bytes_vec()),
        Variable::Char(_, Some(c)) => {
            let mut bytes: Vec<u8> = Vec::new();
            bytes.push(*c);
            assert(bytes@ =~= seq![*c]);
            Ok(bytes)
        },
        _ => Err(ScriptError::TypeMismatchError),
    }
}

fn run_write(
    cmd: &Command,
    script: &mut RunningScript,
    locals: &StringHashMap<Variable>,
    temps: &Vec<String>,
) -> (r: Result<Outcome, ScriptError>)
    ensures
        final(script).main_function == old(script).main_function,
        final(script).functions == old(script).functions,
        (state_of(final(script), locals, temps), outcome_of(r)) == write(
            cmd@,
            state_of(old(script), locals, temps),
        ),
{
    if cmd.args.len() < 2 {
        return Err(ScriptError::CommandArgsInvalidError);
    }
    let value = match fetch_var(script, locals, &cmd.args[0]) {
        Ok(v) => v,
        Err(e) => {
            return Err(e);
        },
    };
    let bytes = match bytes_to_write(&value) {
        Ok(b) => b,
        Err(e) => {
            return Err(e);
        },
    };
    let stream = match fetch_var(script, locals, &cmd.args[1]) {
        Ok(v) => v,
        Err(e) => {
            return Err(e);
        },
    };
    let h = match stream.as_out_stream() {
        Ok(h) => h,
        Err(e) => {
            return Err(e);
        },
    };
    if h >= script.out_streams.len() {
        return Err(ScriptError::StreamWriteError);
    }
    let ghost before = script.out_streams@;
    match script.out_streams.remove(h) {
        OutSink::Host => {
            script.out_streams.insert(h, OutSink::Host);
            assert(script.out_streams@ =~= before);
            Ok(Outcome::Host { action: Action::Write { stream: h, bytes }, pending: Pending::Written })
        },
        OutSink::File(f) => {
            let mut f = f;
            let _ = f.write(&bytes);
            script.out_streams.insert(h, OutSink::File(f));
            assert(out_view(script.out_streams@) =~= out_view(before).update(
                h as int,
                Some(
                    FileOutModel {
                        bytes_wrote: out_view(before)[h as int]->0.bytes_wrote + bytes@,
                        ..out_view(before)[h as int]->0
                    },
                ),
            ));
            assert(in_view(script.in_streams@) == in_view(old(script).in_streams@));
            Ok(Outcome::Done)
        },
    }
}

/// Stores `bytes` in the variable `name`.
fn run_store_bytes(
    script: &mut RunningScript,
    global: bool,
    locals: &mut StringHashMap<Variable>,
    temps: &Vec<String>,
    name: &String,
    bytes: Vec<u8>,
) -> (r: Result<(), ScriptError>)
    ensures
        final(script).same_but_globals(old(script)),
        (state_of(final(script), final(locals), temps), r) == store_bytes(
            state_of(old(script), old(locals), temps),
            name@,
            bytes@,
            global,
        ),
{
    let target = match fetch_var(script, locals, name) {
        Ok(v) => v,
        Err(e) => {
            return Err(e);
        },
    };
    match target {
        Variable::List(t, _) => {
            let is_chars = match &t {
                VarType::List(inner) => match **inner {
                    VarType::Char => true,
                    _ => false,
                },
                _ => false,
            };
            if is_chars {
                store_var(script, locals, temps, name, chars_from_bytes(&bytes), global, false)
            } else {
                Err(ScriptError::TypeMismatchError)
            }
        },
        Variable::String(_, _) => match text_of_bytes(bytes) {
            Ok(s) => store_var(
                script,
                locals,
                temps,
                name,
                Variable::from_str(Some(s)),
                global,
                false,
            ),
            Err(e) => Err(e),
        },
        _ => Err(ScriptError::TypeMismatchError),
    }
}

fn can_take_bytes(v: &Variable) -> (r: bool)
    ensures
        r == takes_bytes(v@),
{
    match v {
        Variable::List(t, _) => match t {
            VarType::List(inner) => match **inner {
                VarType::Char => true,
                _ => false,
            },
            _ => false,
        },
        Variable::String(_, _) => true,
        _ => false,
    }
}

fn run_read_stream(
    script: &mut RunningScript,
    global: bool,
    locals: &mut StringHashMap<Variable>,
    temps: &Vec<String>,
    name: &String,
    h: usize,
    size: Option<usize>,
) -> (r: Result<Outcome, ScriptError>)
    ensures
        final(script).main_function == old(script).main_function,
        final(script).functions == old(script).functions,
        (state_of(final(script), final(locals), temps), outcome_of(r)) == read_stream(
            state_of(old(script), old(locals), temps),
            name@,
            h,
            size,
            global,
        ),
{
    if h >= script.in_streams.len() {
        return Err(ScriptError::StreamReadError);
    }
    let ghost before = script.in_streams@;
    match script.in_streams.remove(h) {
        InSource::Host => {
            script.in_streams.insert(h, InSource::Host);
            assert(script.in_streams@ =~= before);
            Ok(
                Outcome::Host {
                    action: match size {
                        Some(n) => Action::Read { stream: h, size: n },
                        None => Action::ReadAll { stream: h },
                    },
                    pending: Pending::StoreBytes { name: name.clone() },
                },
            )
        },
        InSource::File(f) => {
            let n = match size {
                Some(n) => n,
                None => f.len(),
            };
            let (rest, bytes) = f.read_exact(n);
            script.in_streams.insert(h, InSource::File(rest));
            match bytes {
                None => {
                    assert(script.in_streams@ =~= before.update(h as int, InSource::File(rest)));
                    assert(in_view(script.in_streams@) =~= in_view(before));
                    Err(ScriptError::StreamReadError)
                },
                Some(b) => {
                    assert(in_view(script.in_streams@) =~= in_view(before).update(
                        h as int,
                        Some(f.remaining().skip(n as int)),
                    ));
                    match run_store_bytes(script, global, locals, temps, name, b) {
                        Ok(()) => Ok(Outcome::Done),
                        Err(e) => Err(e),
                    }
                },
            }
        },
    }
}

fn run_read(
    cmd: &Command,
    script: &mut RunningScript,
    global: bool,
    locals: &mut StringHashMap<Variable>,
    temps: &Vec<String>,
) -> (r: Result<Outcome, ScriptError>)
    ensures
        final(script).main_function == old(script).main_function,
        final(script).functions == old(script).functions,
        (state_of(final(script), final(locals), temps), outcome_of(r)) == read(
            cmd@,
            global,
            state_of(old(script), old(locals), temps),
        ),
{
    if cmd.args.len() < 3 {
        return Err(ScriptError::CommandArgsInvalidError);
    }
    let target = match fetch_var(script, locals, &cmd.args[0]) {
        Ok(v) => v,
        Err(e) => {
            return Err(e);
        },
    };
    let size = match fetch_var(script, locals, &cmd.args[1]) {
        Ok(v) => match v.as_int() {
            Ok(n) => n,
            Err(e) => {
                return Err(e);
            },
        },
        Err(e) => {
            return Err(e);
        },
    };
    let h = match fetch_var(script, locals, &cmd.args[2]) {
        Ok(v) => match v.as_in_stream() {
            Ok(h) => h,
            Err(e) => {
                return Err(e);
            },
        },
        Err(e) => {
            return Err(e);
        },
    };
    if !can_take_bytes(&target) {
        return Err(ScriptError::TypeMismatchError);
    }
    if size < 0 {
        return Err(ScriptError::StreamReadError);
    }
    run_read_stream(script, global, locals, temps, &cmd.args[0], h, Some(size as usize))
}

fn run_read_all(
    cmd: &Command,
    script: &mut RunningScript,
    global: bool,
    locals: &mut StringHashMap<Variable>,
    temps: &Vec<String>,
) -> (r: Result<Outcome, ScriptError>)
    ensures
        final(script).main_function == old(script).main_function,
        final(script).functions == old(script).functions,
        (state_of(final(script), final(locals), temps), outcome_of(r)) == read_all(
            cmd@,
            global,
            state_of(old(script), old(locals), temps),
        ),
{
    if cmd.args.len() < 2 {
        return Err(ScriptError::CommandArgsInvalidError);
    }
    let target = match fetch_var(script, locals, &cmd.args[0]) {
        Ok(v) => v,
        Err(e) => {
            return Err(e);
        },
    };
    let h = match fetch_var(script, locals, &cmd.args[1]) {
        Ok(v) => match v.as_in_stream() {
            Ok(h) => h,
            Err(e) => {
                return Err(e);
            },
        },
        Err(e) => {
            return Err(e);
        },
    };
    if !can_take_bytes(&target) {
        return Err(ScriptError::TypeMismatchError);
    }
    run_read_stream(script, global, locals, temps, &cmd.args[0], h, None)
}

fn run_open_file(
    cmd: &Command,
    script: &RunningScript,
    locals: &StringHashMap<Variable>,
    temps: &Vec<String>,
    out: bool,
) -> (r: Result<Outcome, ScriptError>)
    ensures
        (state_of(script, locals, temps), outcome_of(r)) == open_file(
            cmd@,
            state_of(script, locals, temps),
            out,
        ),
{
    if cmd.args.len() < 2 {
        return Err(ScriptError::CommandArgsInvalidError);
    }
    let path = match fetch_var(script, locals, &cmd.args[0]) {
        Ok(v) => match v.as_str() {
            Ok(p) => p,
            Err(e) => {
                return Err(e);
            },
        },
        Err(e) => {
            return Err(e);
        },
    };
    let pending = if out {
        Pending::OpenOut { name: cmd.args[1].clone(), path: path.clone() }
    } else {
        Pending::OpenIn { name: cmd.args[1].clone() }
    };
    Ok(Outcome::Host { action: Action::ReadFile { path }, pending })
}

/// The number of milliseconds that an integer stands for.
pub fn millis_of(v: isize) -> (r: u64)
    ensures
        r == millis(v),
{
    if v >= 0 {
        v as u64
    } else {
        let below: isize = -(v + 1);
        u64::MAX - (below as u64)
    }
}

fn run_sleep(
    cmd: &Command,
    script: &RunningScript,
    locals: &StringHashMap<Variable>,
    temps: &Vec<String>,
) -> (r: Result<Outcome, ScriptError>)
    ensures
        (state_of(script, locals, temps), outcome_of(r)) == sleep(
            cmd@,
            state_of(script, locals, temps),
        ),
{
    if cmd.args.len() < 1 {
        return Err(ScriptError::CommandArgsInvalidError);
    }
    let time = match fetch_var(script, locals, &cmd.args[0]) {
        Ok(Variable::Integer(_, Some(v))) => SleepTime::Millis(millis_of(v)),
        Ok(Variable::Float(_, Some(f))) => SleepTime::Float(f),
        Ok(_) => {
            return Err(ScriptError::TypeMismatchError);
        },
        Err(e) => {
            return Err(e);
        },
    };
    Ok(Outcome::Host { action: Action::Sleep { time }, pending: Pending::Nothing })
}

fn run_new_thread(
    cmd: &Command,
    script: &RunningScript,
    locals: &StringHashMap<Variable>,
    temps: &Vec<String>,
) -> (r: Result<Outcome, ScriptError>)
    ensures
        (state_of(script, locals, temps), outcome_of(r)) == new_thread(
            cmd@,
            functions_view(script.functions@),
            state_of(script, locals, temps),
        ),
{
    if cmd.args.len() < 1 {
        return Err(ScriptError::CommandArgsInvalidError);
    }
    match find_function(script, &cmd.args[0]) {
        Ok(function) => Ok(
            Outcome::Host { action: Action::Spawn { function }, pending: Pending::Nothing },
        ),
        Err(e) => Err(e),
    }
}

fn run_use_func(
    cmd: &Command,
    script: &RunningScript,
    locals: &StringHashMap<Variable>,
    temps: &Vec<String>,
) -> (r: Result<Outcome, ScriptError>)
    ensures
        (state_of(script, locals, temps), outcome_of(r)) == use_func(
            cmd@,
            functions_view(script.functions@),
            state_of(script, locals, temps),
        ),
{
    if cmd.args.len() < 2 {
        return Err(ScriptError::CommandArgsInvalidError);
    }
    let function = match find_function(script, &cmd.args[0]) {
        Ok(f) => f,
        Err(e) => {
            return Err(e);
        },
    };
    match read_operands(script, locals, temps, &cmd.args, 2, cmd.args.len() - 2) {
        Ok(args) => Ok(
            Outcome::Loop(Loop::Once { function, result_var: cmd.args[1].clone(), args }),
        ),
        Err(e) => Err(e),
    }
}

fn run_for_range(
    cmd: &Command,
    script: &RunningScript,
    locals: &StringHashMap<Variable>,
    temps: &Vec<String>,
) -> (r: Result<Outcome, ScriptError>)
    ensures
        (state_of(script, locals, temps), outcome_of(r)) == for_range(
            cmd@,
            functions_view(script.functions@),
            state_of(script, locals, temps),
        ),
{
    if cmd.args.len() < 3 {
        return Err(ScriptError::CommandArgsInvalidError);
    }
    let start = match fetch_var(script, locals, &cmd.args[1]) {
        Ok(v) => match v.as_int() {
            Ok(n) => n,
            Err(e) => {
                return Err(e);
            },
        },
        Err(e) => {
            return Err(e);
        },
    };
    let end = match fetch_var(script, locals, &cmd.args[2]) {
        Ok(v) => match v.as_int() {
            Ok(n) => n,
            Err(e) => {
                return Err(e);
            },
        },
        Err(e) => {
            return Err(e);
        },
    };
    match find_function(script, &cmd.args[0]) {
        Ok(function) => Ok(Outcome::Loop(Loop::Range { function, start, end })),
        Err(e) => Err(e),
    }
}

/// The items that a container instruction walks over.
pub fn items_to_walk(kind: CommandType, v: &Variable) -> (r: Result<Vec<Variable>, ScriptError>)
    ensures
        match r {
            Ok(l) => walked(kind, v@) == Ok::<Seq<Value>, ScriptError>(values(l@)),
            Err(e) => walked(kind, v@) == Err::<Seq<Value>, ScriptError>(e),
        },
{
    match kind {
        CommandType::ForString => match v.as_str() {
            Ok(s) => {
                let bytes = s.as_str().as_bytes_vec();
                match chars_from_bytes(&bytes) {
                    Variable::List(t, Some(l)) => {
                        proof {
                            lemma_view_list(t, l);
                        }
                        Ok(l)
                    },
                    _ => Err(ScriptError::TypeMismatchError),
                }
            },
            Err(e) => Err(e),
        },
        _ => v.as_list(),
    }
}

fn run_for_items(
    cmd: &Command,
    script: &RunningScript,
    locals: &StringHashMap<Variable>,
    temps: &Vec<String>,
) -> (r: Result<Outcome, ScriptError>)
    ensures
        (state_of(script, locals, temps), outcome_of(r)) == for_items(
            cmd@,
            functions_view(script.functions@),
            state_of(script, locals, temps),
        ),
{
    if cmd.args.len() < 2 {
        return Err(ScriptError::CommandArgsInvalidError);
    }
    let items = match fetch_var(script, locals, &cmd.args[1]) {
        Ok(v) => match items_to_walk(cmd.command_type, &v) {
            Ok(l) => l,
            Err(e) => {
                return Err(e);
            },
        },
        Err(e) => {
            return Err(e);
        },
    };
    match find_function(script, &cmd.args[0]) {
        Ok(function) => Ok(Outcome::Loop(Loop::Items { function, items, next: 0 })),
        Err(e) => Err(e),
    }
}

fn run_for_map(
    cmd: &Command,
    script: &RunningScript,
    locals: &StringHashMap<Variable>,
    temps: &Vec<String>,
) -> (r: Result<Outcome, ScriptError>)
    ensures
        (state_of(script, locals, temps), outcome_of(r)) == for_map(
            cmd@,
            functions_view(script.functions@),
            state_of(script, locals, temps),
        ),
{
    if cmd.args.len() < 2 {
        return Err(ScriptError::CommandArgsInvalidError);
    }
    let entries = match fetch_var(script, locals, &cmd.args[1]) {
        Ok(v) => match v.as_map() {
            Ok(l) => l,
            Err(e) => {
                return Err(e);
            },
        },
        Err(e) => {
            return Err(e);
        },
    };
    match find_function(script, &cmd.args[0]) {
        Ok(function) => Ok(Outcome::Loop(Loop::Entries { function, entries, next: 0 })),
        Err(e) => Err(e),
    }
}

fn run_while(
    cmd: &Command,
    script: &mut RunningScript,
    global: bool,
    locals: &mut StringHashMap<Variable>,
    temps: &Vec<String>,
) -> (r: Result<Outcome, ScriptError>)
    ensures
        final(script).same_but_globals(old(script)),
        (state_of(final(script), final(locals), temps), outcome_of(r)) == while_loop(
            cmd@,
            functions_view(old(script).functions@),
            global,
            state_of(old(script), old(locals), temps),
        ),
{
    if cmd.args.len() < 1 {
        return Err(ScriptError::CommandArgsInvalidError);
    }
    let function = match find_function(script, &cmd.args[0]) {
        Ok(f) => f,
        Err(e) => {
            return Err(e);
        },
    };
    let slot = "while".to_owned();
    match settle_var(script, locals, temps, &slot, Variable::from_bool(Some(true)), global) {
        Ok(()) => Ok(Outcome::Loop(Loop::While { function, started: false })),
        Err(e) => Err(e),
    }
}

fn run_if(
    cmd: &Command,
    script: &RunningScript,
    locals: &StringHashMap<Variable>,
    temps: &Vec<String>,
) -> (r: Result<Outcome, ScriptError>)
    ensures
        (state_of(script, locals, temps), outcome_of(r)) == if_call(
            cmd@,
            functions_view(script.functions@),
            state_of(script, locals, temps),
        ),
{
    if cmd.args.len() < 2 {
        return Err(ScriptError::CommandArgsInvalidError);
    }
    let function = match find_function(script, &cmd.args[1]) {
        Ok(f) => f,
        Err(e) => {
            return Err(e);
        },
    };
    let condition = match fetch_var(script, locals, &cmd.args[0]) {
        Ok(v) => match v.as_bool() {
            Ok(b) => b,
            Err(e) => {
                return Err(e);
            },
        },
        Err(e) => {
            return Err(e);
        },
    };
    if condition {
        let args: Vec<Variable> = Vec::new();
        assert(values(args@) =~= Seq::<Value>::empty());
        Ok(Outcome::Loop(Loop::Once { function, result_var: "null".to_owned(), args }))
    } else {
        Ok(Outcome::Done)
    }
}

/// The bounds of a `RANDOM` instruction.
fn bounds_of_random(
    cmd: &Command,
    script: &RunningScript,
    locals: &StringHashMap<Variable>,
    temps: &Vec<String>,
) -> (r: Result<(isize, isize), ScriptError>)
    ensures
        r == random_bounds(cmd@, state_of(script, locals, temps)),
{
    if cmd.args.len() < 3 {
        return Err(ScriptError::CommandArgsInvalidError);
    }
    let low = match fetch_var(script, locals, &cmd.args[0]) {
        Ok(v) => match v.as_int() {
            Ok(n) => n,
            Err(e) => {
                return Err(e);
            },
        },
        Err(e) => {
            return Err(e);
        },
    };
    let high = match fetch_var(script, locals, &cmd.args[1]) {
        Ok(v) => match v.as_int() {
            Ok(n) => n,
            Err(e) => {
                return Err(e);
            },
        },
        Err(e) => {
            return Err(e);
        },
    };
    if low <= high {
        Ok((low, high))
    } else {
        Err(ScriptError::CommandArgsInvalidError)
    }
}

/// Stores the number that a `RANDOM` instruction has drawn.
pub fn store_random(
    cmd: &Command,
    script: &mut RunningScript,
    global: bool,
    locals: &mut StringHashMap<Variable>,
    temps: &Vec<String>,
    drawn: isize,
) -> (r: Result<Outcome, ScriptError>)
    requires
        cmd.args.len() >= 3,
    ensures
        final(script).same_but_globals(old(script)),
        (state_of(final(script), final(locals), temps), outcome_of(r)) == finish(
            store(
                state_of(old(script), old(locals), temps),
                cmd@.args[2],
                int_value(drawn),
                global,
                false,
            ),
        ),
{
    match store_var(
        script,
        locals,
        temps,
        &cmd.args[2],
        Variable::from_int(Some(drawn)),
        global,
        false,
    ) {
        Ok(()) => Ok(Outcome::Done),
        Err(e) => Err(e),
    }
}

fn run_random(
    cmd: &Command,
    script: &mut RunningScript,
    global: bool,
    locals: &mut StringHashMap<Variable>,
    temps: &Vec<String>,
) -> (r: (Result<Outcome, ScriptError>, Ghost<isize>))
    requires
        cmd.command_type == CommandType::Random,
    ensures
        final(script).same_but_globals(old(script)),
        may_draw(cmd@, state_of(old(script), old(locals), temps), r.1@),
        (state_of(final(script), final(locals), temps), outcome_of(r.0)) == random(
            cmd@,
            global,
            state_of(old(script), old(locals), temps),
            r.1@,
        ),
{
    match bounds_of_random(cmd, script, locals, temps) {
        Err(e) => (Err(e), Ghost(0)),
        Ok((low, high)) => {
            let drawn = draw(low, high);
            (store_random(cmd, script, global, locals, temps, drawn), Ghost(drawn))
        },
    }
}

/// The result of an instruction without the instruction that failed.
pub open spec fn plain_outcome(r: Result<Outcome, (ScriptError, Command)>) -> Result<
    OutcomeModel,
    ScriptError,
> {
    match r {
        Ok(o) => Ok(o@),
        Err((e, _)) => Err(e),
    }
}

/// The result of a resumed instruction without the instruction that
/// failed.
pub open spec fn plain_result(r: Result<(), (ScriptError, Command)>) -> Result<(), ScriptError> {
    match r {
        Ok(()) => Ok(()),
        Err((e, _)) => Err(e),
    }
}

fn dispatch(
    cmd: &Command,
    script: &mut RunningScript,
    global: bool,
    locals: &mut StringHashMap<Variable>,
    temps: &mut Vec<String>,
) -> (r: (Result<Outcome, ScriptError>, Ghost<isize>))
    ensures
        final(script).main_function == old(script).main_function,
        final(script).functions == old(script).functions,
        may_draw(cmd@, state_of(old(script), old(locals), old(temps)), r.1@),
        (state_of(final(script), final(locals), final(temps)), outcome_of(r.0)) == effect(
            cmd@,
            functions_view(old(script).functions@),
            global,
            state_of(old(script), old(locals), old(temps)),
            r.1@,
        ),
{
    match signature_of(cmd.command_type) {
        Some((n, t)) => (run_computed(cmd, script, global, locals, temps, n, t), Ghost(0)),
        None => match cmd.command_type {
            CommandType::InitVar => (run_init_var(cmd, script, global, locals, temps), Ghost(0)),
            CommandType::SetVar => (run_set_var(cmd, script, global, locals, temps), Ghost(0)),
            CommandType::TempVar => (run_temp_var(cmd, script, global, locals, temps), Ghost(0)),
            CommandType::MoveVar => (run_move_var(cmd, script, global, locals, temps), Ghost(0)),
            CommandType::DropVar => (run_drop_var(cmd, script, locals, temps), Ghost(0)),
            CommandType::HasVar => (run_has_var(cmd, script, global, locals, temps), Ghost(0)),
            CommandType::Write => (run_write(cmd, script, locals, temps), Ghost(0)),
            CommandType::Read => (run_read(cmd, script, global, locals, temps), Ghost(0)),
            CommandType::ReadAll => (run_read_all(cmd, script, global, locals, temps), Ghost(0)),
            CommandType::OpenFileIn => (run_open_file(cmd, script, locals, temps, false), Ghost(0)),
            CommandType::OpenFileOut => (run_open_file(cmd, script, locals, temps, true), Ghost(0)),
            CommandType::Sleep => (run_sleep(cmd, script, locals, temps), Ghost(0)),
            CommandType::NewThread => (run_new_thread(cmd, script, locals, temps), Ghost(0)),
            CommandType::UseFunc => (run_use_func(cmd, script, locals, temps), Ghost(0)),
            CommandType::For => (run_for_range(cmd, script, locals, temps), Ghost(0)),
            CommandType::ForList => (run_for_items(cmd, script, locals, temps), Ghost(0)),
            CommandType::ForString => (run_for_items(cmd, script, locals, temps), Ghost(0)),
            CommandType::ForMap => (run_for_map(cmd, script, locals, temps), Ghost(0)),
            CommandType::While => (run_while(cmd, script, global, locals, temps), Ghost(0)),
            CommandType::If => (run_if(cmd, script, locals, temps), Ghost(0)),
            CommandType::Random => run_random(cmd, script, global, locals, temps),
            CommandType::Return => (Ok(Outcome::Return), Ghost(0)),
            _ => (Ok(Outcome::Done), Ghost(0)),
        },
    }
}

impl Command {
    /// Executes the instruction on the variables and streams that it is
    /// given: the script's, the local table of the call that it belongs
    /// to, and that call's list of temporary names. `global` is set where
    /// the call runs at the top level.
    ///
    /// The result is what the instruction leads to: nothing more, the end
    /// of the function, calls that have to be made, or a request to the
    /// host. An instruction that fails is returned with its error. Of a
    /// `RANDOM` instruction the number that it stores is some number
    /// between its bounds.
    pub fn execute(
        &self,
        script: &mut RunningScript,
        global: bool,
        locals: &mut StringHashMap<Variable>,
        temp_vars: &mut Vec<String>,
    ) -> (r: Result<Outcome, (ScriptError, Command)>)
        ensures
            final(script).main_function == old(script).main_function,
            final(script).functions == old(script).functions,
            r matches Err((_, c)) ==> c@ == self@,
            exists|drawn: isize|
                may_draw(self@, state_of(old(script), old(locals), old(temp_vars)), drawn) && (
                    state_of(final(script), final(locals), final(temp_vars)),
                    plain_outcome(r),
                ) == #[trigger] effect(
                    self@,
                    functions_view(old(script).functions@),
                    global,
                    state_of(old(script), old(locals), old(temp_vars)),
                    drawn,
                ),
    {
        let (r, Ghost(drawn)) = dispatch(self, script, global, locals, temp_vars);
        let out = match r {
            Ok(o) => Ok(o),
            Err(e) => Err((e, self.clone())),
        };
        assert((state_of(script, locals, temp_vars), plain_outcome(out)) == effect(
            self@,
            functions_view(old(script).functions@),
            global,
            state_of(old(script), old(locals), old(temp_vars)),
            drawn,
        ));
        out
    }

    /// Goes on with an instruction that asked the host, now that the host
    /// has reported: does with `event` what `pending` says.
    pub fn resume(
        &self,
        pending: Pending,
        event: Event,
        script: &mut RunningScript,
        global: bool,
        locals: &mut StringHashMap<Variable>,
        temp_vars: &mut Vec<String>,
    ) -> (r: Result<(), (ScriptError, Command)>)
        ensures
            final(script).main_function == old(script).main_function,
            final(script).functions == old(script).functions,
            r matches Err((_, c)) ==> c@ == self@,
            (state_of(final(script), final(locals), final(temp_vars)), plain_result(r)) == resumed(
                pending@,
                event@,
                global,
                state_of(old(script), old(locals), old(temp_vars)),
            ),
    {
        let r = resume_with(pending, event, script, global, locals, temp_vars);
        proof {
            lemma_unit(r);
        }
        match r {
            Ok(()) => Ok(()),
            Err(e) => Err((e, self.clone())),
        }
    }
}

fn resume_with(
    pending: Pending,
    event: Event,
    script: &mut RunningScript,
    global: bool,
    locals: &mut StringHashMap<Variable>,
    temps: &mut Vec<String>,
) -> (r: Result<(), ScriptError>)
    ensures
        final(script).main_function == old(script).main_function,
        final(script).functions == old(script).functions,
        (state_of(final(script), final(locals), final(temps)), r) == resumed(
            pending@,
            event@,
            global,
            state_of(old(script), old(locals), old(temps)),
        ),
{
    match pending {
        Pending::Nothing => Ok(()),
        Pending::Written => match event {
            Event::Done => Ok(()),
            _ => Err(ScriptError::StreamWriteError),
        },
        Pending::StoreBytes { name } => match event {
            Event::Bytes(b) => run_store_bytes(script, global, locals, temps, &name, b),
            _ => Err(ScriptError::StreamReadError),
        },
        Pending::OpenIn { name } => match event {
            Event::Bytes(b) => {
                let h = script.in_streams.len();
                match store_var(
                    script,
                    locals,
                    temps,
                    &name,
                    Variable::from_in_stream(Some(h)),
                    global,
                    false,
                ) {
                    Ok(()) => {
                        let ghost before = script.in_streams@;
                        script.in_streams.push(InSource::File(FileInStream::from_bytes(&b)));
                        assert(in_view(script.in_streams@) =~= in_view(before).push(Some(b@)));
                        Ok(())
                    },
                    Err(e) => Err(e),
                }
            },
            _ => Err(ScriptError::FileReadError),
        },
        Pending::OpenOut { name, path } => match event {
            Event::Bytes(b) => {
                let h = script.out_streams.len();
                match store_var(
                    script,
                    locals,
                    temps,
                    &name,
                    Variable::from_out_stream(Some(h)),
                    global,
                    false,
                ) {
                    Ok(()) => {
                        let ghost before = script.out_streams@;
                        script.out_streams.push(OutSink::File(FileOutStream::new(path, b)));
                        assert(out_view(script.out_streams@) =~= out_view(before).push(
                            Some(
                                FileOutModel {
                                    bytes: b@,
                                    bytes_wrote: Seq::empty(),
                                    file_path: path@,
                                },
                            ),
                        ));
                        Ok(())
                    },
                    Err(e) => Err(e),
                }
            },
            _ => Err(ScriptError::FileWriteError),
        },
        Pending::Assign { name } => match event {
            Event::Float(f) => store_var(
                script,
                locals,
                temps,
                &name,
                Variable::from_float(Some(f)),
                global,
                false,
            ),
            Event::Flag(b) => store_var(
                script,
                locals,
                temps,
                &name,
                Variable::from_bool(Some(b)),
                global,
                false,
            ),
            _ => Err(ScriptError::ParseVarError),
        },
        Pending::Literal { name, var_type, text, init } => {
            let float = match event {
                Event::Float(f) => Some(f),
                _ => None,
            };
            run_store_literal(script, global, locals, temps, name, var_type, text, float, init)
        },
    }
}

} // verus!
