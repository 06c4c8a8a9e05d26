//! What holds of the engine whatever the script: laws that follow from the
//! meaning of the instructions, proved once and for all.

use vstd::prelude::*;
use crate::action::OutcomeModel;
use crate::command::CommandModel;
use crate::command_type::CommandType;
use crate::engine::{effect, fetch, finish, forget, store, State};
use crate::error::ScriptError;
use crate::function::{bound, entered, FrameModel, FunctionModel};
use crate::ops::{
    count_value, has_item, has_value, int_value, list_size, map_size, string_size, sub_list,
    sub_str, text_bytes,
};
use crate::path::key_index;
use crate::running_script::{assigned, lemma_split_nonempty, Table};
use crate::task::{abandoned, completed, renewed, state_in, swept, swept_but, World};
use crate::text::{
    all_digits, digit_char, digit_value, digits_value, index_of, int_text, is_digit,
    lemma_index_of_bound, nat_text, signed_number, split,
};
use crate::var_type::VarType;
use crate::variable::{
    bytes_text, covers, display, has_partner, included, items_eq, parse_value, partner_of,
    value_eq, Value,
};

verus! {

/// Whether a name is plain: a single segment, without a dot.
pub open spec fn is_plain(name: Seq<char>) -> bool {
    split(name, '.').len() == 1
}

/// A plain name is its own single segment.
pub proof fn lemma_plain_segment(name: Seq<char>)
    requires
        is_plain(name),
    ensures
        split(name, '.') == seq![name],
{
    lemma_index_of_bound(name, '.');
    let i = index_of(name, '.');
    if 0 <= i < name.len() {
        lemma_split_nonempty(name.skip(i + 1), '.');
    }
}

/// `ADD_INT` assigns to its first operand the sum of the two integers that
/// its operands hold, wherever the sum fits the machine's integers.
pub proof fn law_add_int_sum(
    cmd: CommandModel,
    fs: Seq<FunctionModel>,
    global: bool,
    st: State,
    a: isize,
    b: isize,
    drawn: isize,
)
    requires
        cmd.command_type == CommandType::AddInt,
        cmd.args.len() >= 2,
        fetch(st, cmd.args[0]) matches Ok(v) && v.as_int() == Ok::<isize, ScriptError>(a),
        fetch(st, cmd.args[1]) matches Ok(v) && v.as_int() == Ok::<isize, ScriptError>(b),
        isize::MIN <= a + b <= isize::MAX,
    ensures
        effect(cmd, fs, global, st, drawn) == finish(
            store(st, cmd.args[0], int_value((a + b) as isize), global, false),
        ),
{
}

/// `ADD_INT` fails with a type mismatch where its first operand holds no
/// integer, and changes nothing.
pub proof fn law_add_int_mismatch(
    cmd: CommandModel,
    fs: Seq<FunctionModel>,
    global: bool,
    st: State,
    drawn: isize,
)
    requires
        cmd.command_type == CommandType::AddInt,
        cmd.args.len() >= 2,
        fetch(st, cmd.args[0]) matches Ok(v) && v.as_int() is Err,
        fetch(st, cmd.args[1]) is Ok,
    ensures
        effect(cmd, fs, global, st, drawn) == (
            st,
            Err::<crate::action::OutcomeModel, ScriptError>(ScriptError::TypeMismatchError),
        ),
{
}

/// An `assign` of a value with another type descriptor than that of the
/// value that a plain name stands for fails with a type mismatch, in
/// whatever scope.
pub proof fn law_assign_other_type(
    globals: Table,
    locals: Table,
    name: Seq<char>,
    value: Value,
    force: bool,
)
    requires
        is_plain(name),
        crate::running_script::resolve(globals, locals, name) matches Ok(current)
            && current.get_type() != value.get_type(),
    ensures
        assigned(globals, locals, name, value, force, false) == Err::<(Table, Table), ScriptError>(
            ScriptError::TypeMismatchError,
        ),
{
    lemma_plain_segment(name);
    reveal_with_fuel(crate::path::resolve_from, 2);
}

/// After `declare`, an `assign` of a value with another type descriptor
/// fails with a type mismatch, in whatever scope either is made.
pub proof fn law_declare_then_assign_other_type(
    globals: Table,
    locals: Table,
    name: Seq<char>,
    first: Value,
    second: Value,
    force: bool,
    again: bool,
)
    requires
        is_plain(name),
        assigned(globals, locals, name, first, force, true) is Ok,
        first.get_type() != second.get_type(),
    ensures
        ({
            let (g, l) = assigned(globals, locals, name, first, force, true)->Ok_0;
            assigned(g, l, name, second, again, false) == Err::<(Table, Table), ScriptError>(
                ScriptError::TypeMismatchError,
            )
        }),
{
    lemma_plain_segment(name);
}

/// A declaration takes a plain name: through a dotted path it fails.
pub proof fn law_declare_dotted(
    globals: Table,
    locals: Table,
    name: Seq<char>,
    value: Value,
    force: bool,
)
    requires
        !is_plain(name),
    ensures
        assigned(globals, locals, name, value, force, true) == Err::<(Table, Table), ScriptError>(
            ScriptError::CommandArgsInvalidError,
        ),
{
}

/// A second `declare` of the same name fails: the variable exists already.
pub proof fn law_declare_twice(
    globals: Table,
    locals: Table,
    name: Seq<char>,
    first: Value,
    second: Value,
    force: bool,
    again: bool,
)
    requires
        is_plain(name),
        assigned(globals, locals, name, first, force, true) is Ok,
    ensures
        ({
            let (g, l) = assigned(globals, locals, name, first, force, true)->Ok_0;
            assigned(g, l, name, second, again, true) == Err::<(Table, Table), ScriptError>(
                ScriptError::VarInitedError,
            )
        }),
{
    lemma_plain_segment(name);
}

/// An `assign` to a name whose first segment was never declared fails: the
/// variable is unknown.
pub proof fn law_assign_undeclared(
    globals: Table,
    locals: Table,
    name: Seq<char>,
    value: Value,
    force: bool,
)
    requires
        !globals.contains_key(split(name, '.')[0]),
        !locals.contains_key(split(name, '.')[0]),
    ensures
        assigned(globals, locals, name, value, force, false) == Err::<(Table, Table), ScriptError>(
            ScriptError::UnknownVarError,
        ),
{
    lemma_split_nonempty(name, '.');
}

/// The size of a list is the number of its items, the size of a mapping
/// the number of its entries, the size of a string the number of its
/// bytes.
pub proof fn law_sizes(t: crate::var_type::VarType, l: Seq<Value>, m: Seq<(Value, Value)>, s: Seq<char>)
    ensures
        list_size(Value::List(t, Some(l))) == count_value(l.len()),
        map_size(Value::Mapping(t, Some(m))) == count_value(m.len()),
        string_size(Value::Text(t, Some(s))) == count_value(text_bytes(s).len()),
{
}

/// A slice of a list holds the items of the list from `start` up to `end`,
/// in their order.
pub proof fn law_sub_list(v: Value, start: Value, end: Value)
    requires
        sub_list(v, start, end) is Ok,
    ensures
        ({
            let l = v->List_1->0;
            let a = start->Integer_1->0 as int;
            let b = end->Integer_1->0 as int;
            let r = sub_list(v, start, end)->Ok_0;
            &&& v is List
            &&& 0 <= a <= b <= l.len()
            &&& r.get_type() == v.get_type()
            &&& r.as_list() == Ok::<Seq<Value>, ScriptError>(l.subrange(a, b))
            &&& forall|i: int| 0 <= i < b - a ==> #[trigger] l.subrange(a, b)[i] == l[a + i]
        }),
{
}

/// A slice of a string holds the text that the bytes of the string from
/// `start` up to `end` encode.
pub proof fn law_sub_str(v: Value, start: Value, end: Value)
    requires
        sub_str(v, start, end) is Ok,
    ensures
        ({
            let s = v->Text_1->0;
            let a = start->Integer_1->0 as int;
            let b = end->Integer_1->0 as int;
            &&& 0 <= a <= b <= text_bytes(s).len()
            &&& bytes_text(text_bytes(s).subrange(a, b)) == Ok::<Seq<char>, ScriptError>(
                sub_str(v, start, end)->Ok_0->Text_1->0,
            )
        }),
{
}

/// A list has an item exactly when one of its positions holds an equal
/// value.
pub proof fn law_has_item(l: Seq<Value>, x: Value, n: nat)
    requires
        n <= l.len(),
    ensures
        has_item(l, x, n) <==> exists|i: int| 0 <= i < n && value_eq(#[trigger] l[i], x),
    decreases n,
{
    if n > 0 {
        law_has_item(l, x, (n - 1) as nat);
        if has_item(l, x, n) {
            if value_eq(l[n - 1], x) {
                assert(0 <= n - 1 < n && value_eq(l[n - 1], x));
            } else {
                let i = choose|i: int| 0 <= i < n - 1 && value_eq(#[trigger] l[i], x);
                assert(0 <= i < n && value_eq(l[i], x));
            }
        }
    }
}

/// A mapping has a value exactly when one of its entries holds an equal
/// value.
pub proof fn law_has_value(l: Seq<(Value, Value)>, x: Value, n: nat)
    requires
        n <= l.len(),
    ensures
        has_value(l, x, n) <==> exists|i: int| 0 <= i < n && value_eq((#[trigger] l[i]).1, x),
    decreases n,
{
    if n > 0 {
        law_has_value(l, x, (n - 1) as nat);
        if has_value(l, x, n) {
            if value_eq(l[n - 1].1, x) {
                assert(0 <= n - 1 < n && value_eq(l[n - 1].1, x));
            } else {
                let i = choose|i: int| 0 <= i < n - 1 && value_eq((#[trigger] l[i]).1, x);
                assert(0 <= i < n && value_eq(l[i].1, x));
            }
        }
    }
}

/// A key is found in a mapping exactly when one of its entries has an
/// equal key, and then at the first such entry.
pub proof fn law_key_index(l: Seq<(Value, Value)>, key: Value, from: nat)
    requires
        from <= l.len(),
    ensures
        match key_index(l, key, from) {
            Some(j) => from <= j < l.len() && value_eq(l[j as int].0, key) && forall|i: int|
                from <= i < j ==> !value_eq((#[trigger] l[i]).0, key),
            None => forall|i: int| from <= i < l.len() ==> !value_eq((#[trigger] l[i]).0, key),
        },
    decreases l.len() - from,
{
    if from < l.len() && !value_eq(l[from as int].0, key) {
        law_key_index(l, key, from + 1);
    }
}

/// Removing a variable adds no name to either table, and leaves the list
/// of temporary names and the streams alone.
pub proof fn lemma_forget_keys(st: State, x: Seq<char>)
    ensures
        forall|m: Seq<char>| #[trigger]
            forget(st, x).0.locals.contains_key(m) ==> st.locals.contains_key(m),
        forall|m: Seq<char>| #[trigger]
            forget(st, x).0.globals.contains_key(m) ==> st.globals.contains_key(m),
        forget(st, x).0.temps == st.temps,
        forget(st, x).0.inputs == st.inputs,
        forget(st, x).0.outputs == st.outputs,
{
    lemma_split_nonempty(x, '.');
}

/// A write adds no name to the table that it does not write to: none to
/// the local table where it is forced to the global one, none to the
/// global table where it is not. It leaves the list of temporary names and
/// the streams alone.
pub proof fn lemma_store_keys(st: State, x: Seq<char>, v: Value, global: bool, init: bool)
    ensures
        global ==> forall|m: Seq<char>| #[trigger]
            store(st, x, v, global, init).0.locals.contains_key(m) ==> st.locals.contains_key(m),
        !global ==> forall|m: Seq<char>| #[trigger]
            store(st, x, v, global, init).0.globals.contains_key(m) ==> st.globals.contains_key(
                m,
            ),
        store(st, x, v, global, init).0.temps == st.temps,
        store(st, x, v, global, init).0.inputs == st.inputs,
        store(st, x, v, global, init).0.outputs == st.outputs,
{
    lemma_split_nonempty(x, '.');
}

/// Whether the name is in both tables.
pub open spec fn shadowed(st: State, m: Seq<char>) -> bool {
    st.locals.contains_key(m) && st.globals.contains_key(m)
}

/// Whether `after` has no name that `before` lacks in the table that a
/// writer with the flag `global` does not write new names to: the local
/// table where the flag is set, the global table where it is not.
pub open spec fn keeps_out(global: bool, before: State, after: State) -> bool {
    if global {
        forall|m: Seq<char>| #[trigger] after.locals.contains_key(m) ==> before.locals.contains_key(m)
    } else {
        forall|m: Seq<char>| #[trigger]
            after.globals.contains_key(m) ==> before.globals.contains_key(m)
    }
}

/// Whether `after` keeps out of the other table and has the same temporary
/// names as `before`.
pub open spec fn quiet(global: bool, before: State, after: State) -> bool {
    keeps_out(global, before, after) && after.temps == before.temps
}

proof fn lemma_store_quiet(st: State, x: Seq<char>, v: Value, global: bool, init: bool)
    ensures
        quiet(global, st, store(st, x, v, global, init).0),
{
    lemma_store_keys(st, x, v, global, init);
}

proof fn lemma_forget_quiet(global: bool, st: State, x: Seq<char>)
    ensures
        quiet(global, st, forget(st, x).0),
{
    lemma_forget_keys(st, x);
}

proof fn lemma_store_bytes_quiet(st: State, name: Seq<char>, bytes: Seq<u8>, global: bool)
    ensures
        quiet(global, st, crate::engine::store_bytes(st, name, bytes, global).0),
{
    lemma_store_quiet(st, name, crate::ops::char_list(bytes), global, false);
    if bytes_text(bytes) is Ok {
        lemma_store_quiet(st, name, crate::ops::text_value(bytes_text(bytes)->Ok_0), global, false);
    }
}

proof fn lemma_read_stream_quiet(
    st: State,
    name: Seq<char>,
    h: usize,
    size: Option<usize>,
    global: bool,
)
    ensures
        quiet(global, st, crate::engine::read_stream(st, name, h, size, global).0),
{
    if h < st.inputs.len() && st.inputs[h as int] is Some {
        let left = st.inputs[h as int]->0;
        let n = match size {
            Some(n) => n as int,
            None => left.len() as int,
        };
        let s2 = State { inputs: st.inputs.update(h as int, Some(left.skip(n))), ..st };
        lemma_store_bytes_quiet(s2, name, left.take(n), global);
    }
}

proof fn lemma_store_literal_shadow(
    st: State,
    name: Seq<char>,
    t: crate::var_type::VarType,
    text: Seq<char>,
    global: bool,
    init: bool,
)
    ensures
        keeps_out(global, st, crate::engine::store_literal(st, name, t, text, None, global, init).0),
        !init ==> quiet(global, st, crate::engine::store_literal(st, name, t, text, None, global, init).0),
        crate::engine::store_literal(st, name, t, text, None, global, init).0.temps == st.temps
            || crate::engine::store_literal(st, name, t, text, None, global, init).0.temps
            == st.temps.push(name),
{
    let r = crate::variable::parse_value(t, text, None);
    if r is Ok {
        lemma_store_quiet(st, name, r->Ok_0, global, init);
    }
}

proof fn lemma_computed_quiet(cmd: CommandModel, global: bool, st: State, n: nat, t: nat)
    ensures
        quiet(global, st, crate::engine::computed(cmd, global, st, n, t).0),
{
    if cmd.args.len() >= n && cmd.args.len() > t {
        let v = crate::engine::gathered(st, cmd, n);
        if v is Ok {
            let a = crate::ops::apply(cmd.command_type, v->Ok_0);
            match a {
                Ok(crate::ops::AppliedModel::Value(x)) => {
                    lemma_store_quiet(st, cmd.args[t as int], x, global, false);
                },
                _ => {},
            }
        }
    }
}

proof fn lemma_move_var_quiet(cmd: CommandModel, global: bool, st: State)
    ensures
        quiet(global, st, crate::engine::move_var(cmd, global, st).0),
{
    if cmd.args.len() >= 2 && fetch(st, cmd.args[0]) is Ok {
        let v = fetch(st, cmd.args[0])->Ok_0;
        lemma_store_quiet(st, cmd.args[1], v, global, false);
        let st2 = store(st, cmd.args[1], v, global, false).0;
        lemma_forget_quiet(global, st2, cmd.args[0]);
    }
}

proof fn lemma_while_quiet(cmd: CommandModel, fs: Seq<FunctionModel>, global: bool, st: State)
    ensures
        quiet(global, st, crate::engine::while_loop(cmd, fs, global, st).0),
{
    lemma_store_quiet(
        st,
        "while"@,
        crate::ops::bool_value(true),
        global,
        !crate::engine::known(st, "while"@),
    );
}

/// No instruction puts a name into both tables that was not in both
/// before, and only a temporary declaration changes the list of temporary
/// names.
pub proof fn lemma_effect_quiet(
    cmd: CommandModel,
    fs: Seq<FunctionModel>,
    global: bool,
    st: State,
    drawn: isize,
)
    ensures
        keeps_out(global, st, effect(cmd, fs, global, st, drawn).0),
        cmd.command_type != CommandType::TempVar ==> quiet(global, st,
            effect(cmd, fs, global, st, drawn).0,
        ),
        effect(cmd, fs, global, st, drawn).0.temps.len() >= st.temps.len(),
        effect(cmd, fs, global, st, drawn).0.temps.take(st.temps.len() as int) == st.temps,
{
    lemma_effect_shadow(cmd, fs, global, st, drawn);
    let after = effect(cmd, fs, global, st, drawn).0;
    assert(after.temps.take(st.temps.len() as int) =~= st.temps);
}

proof fn lemma_effect_shadow(
    cmd: CommandModel,
    fs: Seq<FunctionModel>,
    global: bool,
    st: State,
    drawn: isize,
)
    ensures
        keeps_out(global, st, effect(cmd, fs, global, st, drawn).0),
        cmd.command_type != CommandType::TempVar ==> quiet(global, st,
            effect(cmd, fs, global, st, drawn).0,
        ),
        effect(cmd, fs, global, st, drawn).0.temps == st.temps || (exists|x: Seq<char>|
            effect(cmd, fs, global, st, drawn).0.temps == st.temps.push(x)),
{
    match crate::ops::signature(cmd.command_type) {
        Some((n, t)) => {
            lemma_computed_quiet(cmd, global, st, n, t);
        },
        None => match cmd.command_type {
            CommandType::InitVar => {
                if cmd.args.len() >= 2 && crate::var_type::parse_type(cmd.args[0]) is Some {
                    lemma_store_quiet(
                        st,
                        cmd.args[1],
                        Value::empty(crate::var_type::parse_type(cmd.args[0])->0),
                        global,
                        true,
                    );
                }
            },
            CommandType::SetVar => {
                if cmd.args.len() >= 1 && fetch(st, cmd.args[0]) is Ok {
                    lemma_store_literal_shadow(
                        st,
                        cmd.args[0],
                        fetch(st, cmd.args[0])->Ok_0.get_type(),
                        crate::text::join(cmd.args.skip(1), " "@),
                        global,
                        false,
                    );
                }
            },
            CommandType::TempVar => {
                if cmd.args.len() >= 2 && crate::var_type::parse_type(cmd.args[0]) is Some {
                    lemma_store_literal_shadow(
                        st,
                        cmd.args[1],
                        crate::var_type::parse_type(cmd.args[0])->0,
                        crate::text::join(cmd.args.skip(2), " "@),
                        global,
                        true,
                    );
                }
            },
            CommandType::MoveVar => {
                lemma_move_var_quiet(cmd, global, st);
            },
            CommandType::DropVar => {
                if cmd.args.len() >= 1 {
                    lemma_forget_quiet(global, st, cmd.args[0]);
                }
            },
            CommandType::HasVar => {
                if cmd.args.len() >= 2 {
                    lemma_store_quiet(
                        st,
                        cmd.args[1],
                        crate::ops::bool_value(fetch(st, cmd.args[0]) is Ok),
                        global,
                        false,
                    );
                }
            },
            CommandType::Read => {
                if cmd.args.len() >= 3 {
                    assert forall|h: usize, n: Option<usize>|
                        quiet(global, st,
                            (#[trigger] crate::engine::read_stream(st, cmd.args[0], h, n, global)).0,
                        ) by {
                        lemma_read_stream_quiet(st, cmd.args[0], h, n, global);
                    }
                }
            },
            CommandType::ReadAll => {
                if cmd.args.len() >= 2 {
                    assert forall|h: usize, n: Option<usize>|
                        quiet(global, st,
                            (#[trigger] crate::engine::read_stream(st, cmd.args[0], h, n, global)).0,
                        ) by {
                        lemma_read_stream_quiet(st, cmd.args[0], h, n, global);
                    }
                }
            },
            CommandType::While => {
                lemma_while_quiet(cmd, fs, global, st);
            },
            CommandType::Random => {
                if cmd.args.len() >= 3 {
                    lemma_store_quiet(st, cmd.args[2], int_value(drawn), global, false);
                }
            },
            _ => {},
        },
    }
}

/// Removing the temporary variables adds no name to either table.
pub proof fn lemma_swept_keys(st: State, n: nat)
    requires
        n <= st.temps.len(),
    ensures
        forall|m: Seq<char>| #[trigger]
            swept(st, n).locals.contains_key(m) ==> st.locals.contains_key(m),
        forall|m: Seq<char>| #[trigger]
            swept(st, n).globals.contains_key(m) ==> st.globals.contains_key(m),
        swept(st, n).temps == st.temps,
    decreases n,
{
    if n > 0 {
        lemma_swept_keys(st, (n - 1) as nat);
        lemma_forget_keys(swept(st, (n - 1) as nat), st.temps[n - 1]);
    }
}

/// Once its turn has come, a plain temporary name that was not in both
/// tables is in neither.
pub proof fn lemma_swept_gone(st: State, k: int, n: nat)
    requires
        0 <= k < n <= st.temps.len(),
        is_plain(st.temps[k]),
        !shadowed(st, st.temps[k]),
    ensures
        !swept(st, n).locals.contains_key(st.temps[k]),
        !swept(st, n).globals.contains_key(st.temps[k]),
    decreases n,
{
    let name = st.temps[k];
    let before = swept(st, (n - 1) as nat);
    lemma_swept_keys(st, (n - 1) as nat);
    lemma_forget_keys(before, st.temps[n - 1]);
    if n - 1 == k {
        lemma_plain_segment(name);
    } else {
        lemma_swept_gone(st, k, (n - 1) as nat);
    }
}

/// The removal of the temporary variables leaves a plain temporary name,
/// if it was not in both tables, unknown.
pub proof fn law_sweep_removes(st: State, k: int)
    requires
        0 <= k < st.temps.len(),
        is_plain(st.temps[k]),
        !shadowed(st, st.temps[k]),
    ensures
        fetch(swept(st, st.temps.len()), st.temps[k]) == Err::<Value, ScriptError>(
            ScriptError::UnknownVarError,
        ),
{
    lemma_swept_gone(st, k, st.temps.len());
    lemma_plain_segment(st.temps[k]);
}

/// The decimal notation of a natural number is a run of digits that writes
/// the number.
pub proof fn lemma_nat_text(n: nat)
    ensures
        nat_text(n).len() > 0,
        all_digits(nat_text(n)),
        digits_value(nat_text(n)) == n,
    decreases n,
{
    if n < 10 {
        let s = nat_text(n);
        assert(s.len() == 1);
        assert(s[0] == digit_char(n as int));
        assert(is_digit(s[0]) && digit_value(s[0]) == n);
        assert(s.drop_last().len() == 0);
        assert(digits_value(s) == digits_value(s.drop_last()) * 10 + digit_value(s.last()));
    } else {
        lemma_nat_text(n / 10);
        let head = nat_text(n / 10);
        let c = digit_char((n % 10) as int);
        let s = head.push(c);
        assert(is_digit(c) && digit_value(c) == n % 10);
        assert(s.drop_last() =~= head);
        assert(s.last() == c);
        assert forall|i: int| 0 <= i < s.len() implies is_digit(#[trigger] s[i]) by {
            if i < head.len() {
                assert(s[i] == head[i]);
            }
        }
    }
}

/// A literal that is the rendering of a boolean, an integer or a string,
/// or of an empty optional, writes the value that was rendered.
pub proof fn law_scalar_round_trip(b: bool, i: isize, s: Seq<char>, t: VarType)
    ensures
        parse_value(VarType::Bool, display(Value::Bool(VarType::Bool, Some(b)))->Ok_0, None) == Ok::<
            Value,
            ScriptError,
        >(Value::Bool(VarType::Bool, Some(b))),
        parse_value(
            VarType::Integer,
            display(Value::Integer(VarType::Integer, Some(i)))->Ok_0,
            None,
        ) == Ok::<Value, ScriptError>(Value::Integer(VarType::Integer, Some(i))),
        parse_value(VarType::String, display(Value::Text(VarType::String, Some(s)))->Ok_0, None)
            == Ok::<Value, ScriptError>(Value::Text(VarType::String, Some(s))),
        parse_value(
            VarType::Optional(Box::new(t)),
            display(Value::Optional(VarType::Optional(Box::new(t)), Some(None)))->Ok_0,
            None,
        ) == Ok::<Value, ScriptError>(
            Value::Optional(VarType::Optional(Box::new(t)), Some(None)),
        ),
{
    reveal_strlit("true");
    reveal_strlit("false");
    reveal_strlit("1");
    reveal_strlit("0");
    reveal_strlit("none");
    assert("false"@ != "true"@) by {
        assert("false"@.len() != "true"@.len());
    }
    assert("false"@ != "1"@) by {
        assert("false"@.len() != "1"@.len());
    }
    assert(!crate::variable::in_brackets("none"@));
    let text = int_text(i as int);
    if i < 0 {
        let digits = nat_text((-i) as nat);
        lemma_nat_text((-i) as nat);
        assert(text[0] == '-');
        assert(text.skip(1) =~= digits);
        assert(signed_number(text) == Some(i as int));
    } else {
        lemma_nat_text(i as nat);
        assert(is_digit(text[0]));
        assert(text[0] != '-' && text[0] != '+');
        assert(signed_number(text) == Some(i as int));
    }
}

/// The completion of any instruction but a temporary declaration leaves no
/// temporary variable behind: the list of temporary names is empty, and a
/// plain temporary name that was not in both tables is unknown.
pub proof fn law_completion_removes_temps(f: FrameModel, st: State, kind: CommandType, k: int)
    requires
        kind != CommandType::TempVar,
        0 <= k < st.temps.len(),
        is_plain(st.temps[k]),
        !shadowed(st, st.temps[k]),
    ensures
        completed(f, st, kind).0.temps.len() == 0,
        fetch(state_in(completed(f, st, kind).1, completed(f, st, kind).0), st.temps[k]) == Err::<
            Value,
            ScriptError,
        >(ScriptError::UnknownVarError),
{
    law_sweep_removes(st, k);
    lemma_swept_keys(st, st.temps.len());
    lemma_plain_segment(st.temps[k]);
}

/// The names that the first `n` parameters bind are the only names of the
/// table that binds them.
pub proof fn lemma_bound_names(
    params: Seq<(Seq<char>, VarType)>,
    args: Seq<Value>,
    n: nat,
    name: Seq<char>,
)
    requires
        bound(params, args, n).contains_key(name),
    ensures
        exists|i: int| 0 <= i < n && i < params.len() && (#[trigger] params[i]).0 == name,
    decreases n,
{
    if n > 0 && n <= params.len() && n <= args.len() {
        if params[n - 1].0 == name {
            assert(0 <= n - 1 < n && params[n - 1].0 == name);
        } else {
            lemma_bound_names(params, args, (n - 1) as nat, name);
            let i = choose|i: int|
                0 <= i < n - 1 && i < params.len() && (#[trigger] params[i]).0 == name;
            assert(0 <= i < n && params[i].0 == name);
        }
    }
}

/// A call starts in a scope of its own: its local variables are its
/// parameters and `result`, and nothing else, whatever the caller's local
/// variables are.
pub proof fn law_fresh_scope(
    f: FunctionModel,
    result_var: Seq<char>,
    args: Seq<Value>,
    is_global: bool,
    name: Seq<char>,
)
    requires
        entered(f, result_var, args, is_global).locals.contains_key(name),
    ensures
        name == "result"@ || exists|i: int|
            0 <= i < f.parameters.len() && (#[trigger] f.parameters[i]).0 == name,
        entered(f, result_var, args, is_global).temps.len() == 0,
        entered(f, result_var, args, is_global).pc == 0,
{
    if name != "result"@ {
        lemma_bound_names(f.parameters, args, f.parameters.len(), name);
    }
}

/// Whether two entries are equal: key to key and value to value.
pub open spec fn entry_eq(a: (Value, Value), b: (Value, Value)) -> bool {
    value_eq(a.0, b.0) && value_eq(a.1, b.1)
}

/// An entry has a partner among the first `k` entries exactly when one of
/// them equals it.
pub proof fn lemma_has_partner(e: (Value, Value), m: Seq<(Value, Value)>, k: nat)
    requires
        k <= m.len(),
    ensures
        has_partner(e, m, k) <==> exists|j: int| 0 <= j < k && entry_eq(e, #[trigger] m[j]),
    decreases k,
{
    if k > 0 {
        lemma_has_partner(e, m, (k - 1) as nat);
        if has_partner(e, m, k) {
            if entry_eq(e, m[k - 1]) {
                assert(0 <= k - 1 < k && entry_eq(e, m[k - 1]));
            } else {
                let j = choose|j: int| 0 <= j < k - 1 && entry_eq(e, #[trigger] m[j]);
                assert(0 <= j < k && entry_eq(e, m[j]));
            }
        }
    }
}

/// An entry is the partner of one of the first `k` entries exactly when
/// one of them equals it.
pub proof fn lemma_partner_of(l: Seq<(Value, Value)>, e: (Value, Value), k: nat)
    requires
        k <= l.len(),
    ensures
        partner_of(l, e, k) <==> exists|i: int| 0 <= i < k && entry_eq(#[trigger] l[i], e),
    decreases k,
{
    if k > 0 {
        lemma_partner_of(l, e, (k - 1) as nat);
        if partner_of(l, e, k) {
            if entry_eq(l[k - 1], e) {
                assert(0 <= k - 1 < k && entry_eq(l[k - 1], e));
            } else {
                let i = choose|i: int| 0 <= i < k - 1 && entry_eq(#[trigger] l[i], e);
                assert(0 <= i < k && entry_eq(l[i], e));
            }
        }
    }
}

/// The first `n` entries of `l` are included in `m` exactly when each of
/// them has a partner in `m`.
pub proof fn lemma_included(l: Seq<(Value, Value)>, m: Seq<(Value, Value)>, n: nat)
    requires
        n <= l.len(),
    ensures
        included(l, m, n) <==> forall|i: int|
            0 <= i < n ==> has_partner(#[trigger] l[i], m, m.len()),
    decreases n,
{
    if n > 0 {
        lemma_included(l, m, (n - 1) as nat);
        if included(l, m, n) {
            assert forall|i: int| 0 <= i < n implies has_partner(#[trigger] l[i], m, m.len()) by {
                if i < n - 1 {
                    assert(has_partner(l[i], m, m.len()));
                }
            }
        }
        if forall|i: int| 0 <= i < n ==> has_partner(#[trigger] l[i], m, m.len()) {
            assert(has_partner(l[n - 1], m, m.len()));
        }
    }
}

/// The first `n` entries of `m` are covered by `l` exactly when each of
/// them is the partner of an entry of `l`.
pub proof fn lemma_covers(l: Seq<(Value, Value)>, m: Seq<(Value, Value)>, n: nat)
    requires
        n <= m.len(),
    ensures
        covers(l, m, n) <==> forall|j: int| 0 <= j < n ==> partner_of(l, #[trigger] m[j], l.len()),
    decreases n,
{
    if n > 0 {
        lemma_covers(l, m, (n - 1) as nat);
        if covers(l, m, n) {
            assert forall|j: int| 0 <= j < n implies partner_of(l, #[trigger] m[j], l.len()) by {
                if j < n - 1 {
                    assert(partner_of(l, m[j], l.len()));
                }
            }
        }
        if forall|j: int| 0 <= j < n ==> partner_of(l, #[trigger] m[j], l.len()) {
            assert(partner_of(l, m[n - 1], l.len()));
        }
    }
}

/// Whether `e` equals some entry of `m`.
pub open spec fn equals_one_of(e: (Value, Value), m: Seq<(Value, Value)>) -> bool {
    exists|j: int| 0 <= j < m.len() && entry_eq(e, #[trigger] m[j])
}

/// Whether some entry of `l` equals `e`.
pub open spec fn one_equals(l: Seq<(Value, Value)>, e: (Value, Value)) -> bool {
    exists|i: int| 0 <= i < l.len() && entry_eq(#[trigger] l[i], e)
}

/// Two mappings are equal exactly when each entry of either equals some
/// entry of the other: the order of the entries does not matter.
pub proof fn law_mapping_equality_ignores_order(
    s: VarType,
    t: VarType,
    l: Seq<(Value, Value)>,
    m: Seq<(Value, Value)>,
)
    ensures
        value_eq(Value::Mapping(s, Some(l)), Value::Mapping(t, Some(m))) <==> (forall|i: int|
            0 <= i < l.len() ==> equals_one_of(#[trigger] l[i], m)) && (forall|j: int|
            0 <= j < m.len() ==> one_equals(l, #[trigger] m[j])),
{
    lemma_included(l, m, l.len());
    lemma_covers(l, m, m.len());
    assert forall|i: int| 0 <= i < l.len() implies (has_partner(#[trigger] l[i], m, m.len())
        <==> equals_one_of(l[i], m)) by {
        lemma_has_partner(l[i], m, m.len());
    }
    assert forall|j: int| 0 <= j < m.len() implies (partner_of(l, #[trigger] m[j], l.len())
        <==> one_equals(l, m[j])) by {
        lemma_partner_of(l, m[j], l.len());
    }
}

/// Two lists are equal exactly when they have the same length and equal
/// items at every position.
pub proof fn law_list_equality(s: VarType, t: VarType, l: Seq<Value>, m: Seq<Value>)
    ensures
        value_eq(Value::List(s, Some(l)), Value::List(t, Some(m))) <==> l.len() == m.len()
            && forall|i: int| 0 <= i < l.len() ==> value_eq(#[trigger] l[i], m[i]),
{
    if l.len() == m.len() {
        lemma_items_eq(l, m, l.len());
    }
}

/// The first `n` items are equal one by one exactly when they are equal at
/// every position.
pub proof fn lemma_items_eq(l: Seq<Value>, m: Seq<Value>, n: nat)
    requires
        n <= l.len(),
        n <= m.len(),
    ensures
        items_eq(l, m, n) <==> forall|i: int| 0 <= i < n ==> value_eq(#[trigger] l[i], m[i]),
    decreases n,
{
    if n > 0 {
        lemma_items_eq(l, m, (n - 1) as nat);
        if items_eq(l, m, n) {
            assert forall|i: int| 0 <= i < n implies value_eq(#[trigger] l[i], m[i]) by {
                if i < n - 1 {
                    assert(value_eq(l[i], m[i]));
                }
            }
        }
        if forall|i: int| 0 <= i < n ==> value_eq(#[trigger] l[i], m[i]) {
            assert(value_eq(l[n - 1], m[n - 1]));
        }
    }
}

/// The table that binds parameters of different names holds, for each of
/// the first `n`, the argument in its position.
pub proof fn lemma_bound_values(
    params: Seq<(Seq<char>, VarType)>,
    args: Seq<Value>,
    n: nat,
    i: int,
)
    requires
        crate::script::distinct_names(params),
        0 <= i < n <= params.len(),
        n <= args.len(),
    ensures
        bound(params, args, n).contains_key(params[i].0),
        bound(params, args, n)[params[i].0] == args[i],
    decreases n,
{
    if i < n - 1 {
        lemma_bound_values(params, args, (n - 1) as nat, i);
        assert(params[i].0 != params[n - 1].0);
    }
}

/// A call binds each parameter to the argument in its position: where the
/// parameters have different names, none of them `result`, and there is an
/// argument for each, the local variable of a parameter's name holds that
/// argument when the call starts.
pub proof fn law_parameters_bound(
    f: FunctionModel,
    result_var: Seq<char>,
    args: Seq<Value>,
    is_global: bool,
    i: int,
)
    requires
        crate::script::distinct_names(f.parameters),
        0 <= i < f.parameters.len() <= args.len(),
        f.parameters[i].0 != "result"@,
    ensures
        entered(f, result_var, args, is_global).locals.contains_key(f.parameters[i].0),
        entered(f, result_var, args, is_global).locals[f.parameters[i].0] == args[i],
        entered(f, result_var, args, is_global).locals["result"@] == Value::empty(f.result_type),
{
    lemma_bound_values(f.parameters, args, f.parameters.len(), i);
}

/// A key that a path segment writes equals itself.
pub proof fn lemma_parsed_reflexive(t: VarType, s: Seq<char>)
    requires
        parse_value(t, s, None) is Ok,
    ensures
        value_eq(parse_value(t, s, None)->Ok_0, parse_value(t, s, None)->Ok_0),
    decreases t,
{
    match t {
        VarType::Optional(inner) => {
            if crate::variable::in_brackets(s) {
                lemma_parsed_reflexive(*inner, s.subrange(1, s.len() - 1));
            }
        },
        _ => {},
    }
}

/// What was written to the slot that a segment addresses is what the
/// segment addresses afterwards.
pub proof fn lemma_put_then_child(v: Value, seg: Seq<char>, new: Value)
    requires
        crate::path::put(v, seg, new) is Ok,
    ensures
        crate::path::child(crate::path::put(v, seg, new)->Ok_0, seg) == Ok::<Value, ScriptError>(
            new,
        ),
{
    match v {
        Value::Mapping(VarType::Mapping(k, w), Some(l)) => {
            let key = parse_value(*k, seg, None)->Ok_0;
            lemma_parsed_reflexive(*k, seg);
            law_key_index(l, key, 0);
            match key_index(l, key, 0) {
                Some(j) => {
                    let after = l.update(j as int, (l[j as int].0, new));
                    law_key_index(after, key, 0);
                    assert(after[j as int].0 == l[j as int].0);
                    match key_index(after, key, 0) {
                        Some(i) => {
                            assert(after[i as int].0 == l[i as int].0);
                            if i < j {
                                assert(!value_eq(l[i as int].0, key));
                            }
                            if j < i {
                                assert(!value_eq(after[j as int].0, key));
                            }
                        },
                        None => {
                            assert(!value_eq(after[j as int].0, key));
                        },
                    }
                },
                None => {
                    let after = l.push((key, new));
                    law_key_index(after, key, 0);
                    match key_index(after, key, 0) {
                        Some(i) => {
                            if i < l.len() {
                                assert(after[i as int] == l[i as int]);
                                assert(!value_eq(l[i as int].0, key));
                            }
                        },
                        None => {
                            assert(!value_eq(after[l.len() as int].0, key));
                        },
                    }
                },
            }
        },
        _ => {},
    }
}

/// What was written through a path is what the path addresses afterwards.
pub proof fn lemma_updated_then_resolved(v: Value, segs: Seq<Seq<char>>, from: nat, new: Value)
    requires
        from < segs.len(),
        crate::path::updated(v, segs, from, new) is Ok,
    ensures
        crate::path::resolve_from(crate::path::updated(v, segs, from, new)->Ok_0, segs, from)
            == Ok::<Value, ScriptError>(new),
    decreases segs.len() - from,
{
    let seg = segs[from as int];
    if from + 1 >= segs.len() {
        lemma_put_then_child(v, seg, new);
        reveal_with_fuel(crate::path::resolve_from, 2);
    } else {
        let c = crate::path::child(v, seg)->Ok_0;
        let c2 = crate::path::updated(c, segs, from + 1, new)->Ok_0;
        lemma_updated_then_resolved(c, segs, from + 1, new);
        lemma_put_then_child(v, seg, c2);
    }
}

/// A value that was written to a variable, through whatever path, is the
/// value that the path addresses afterwards, unless the write went to the
/// global table past a local variable of the same first segment.
pub proof fn law_write_then_read(st: State, name: Seq<char>, value: Value, global: bool, init: bool)
    requires
        store(st, name, value, global, init).1 is Ok,
        !global || !st.locals.contains_key(split(name, '.')[0]),
    ensures
        fetch(store(st, name, value, global, init).0, name) == Ok::<Value, ScriptError>(value),
{
    let segs = split(name, '.');
    lemma_split_nonempty(name, '.');
    if segs.len() == 1 {
        reveal_with_fuel(crate::path::resolve_from, 2);
    } else {
        let current = crate::running_script::lookup(st.globals, st.locals, segs[0])->0;
        lemma_updated_then_resolved(current, segs, 1, value);
    }
}

/// A write changes no variable but the one that the first segment of its
/// path names: every path that starts with another name addresses what it
/// addressed before. The temporary names and the streams stay as well.
pub proof fn law_write_elsewhere(
    st: State,
    name: Seq<char>,
    value: Value,
    global: bool,
    init: bool,
    other: Seq<char>,
)
    requires
        split(other, '.')[0] != split(name, '.')[0],
    ensures
        fetch(store(st, name, value, global, init).0, other) == fetch(st, other),
        store(st, name, value, global, init).0.temps == st.temps,
        store(st, name, value, global, init).0.inputs == st.inputs,
        store(st, name, value, global, init).0.outputs == st.outputs,
{
    lemma_split_nonempty(name, '.');
    lemma_split_nonempty(other, '.');
}

/// The name of the variable that takes the value of an instruction that
/// computes one.
pub open spec fn target_of(cmd: CommandModel) -> Seq<char> {
    match crate::ops::signature(cmd.command_type) {
        Some((_, t)) => cmd.args[t as int],
        None => Seq::empty(),
    }
}

/// What an instruction that computes a value does, where its operands are
/// read and the value is computed: it assigns the value to its target.
pub proof fn law_computed_assigns(
    cmd: CommandModel,
    fs: Seq<FunctionModel>,
    global: bool,
    st: State,
    drawn: isize,
    x: Value,
)
    requires
        crate::ops::signature(cmd.command_type) matches Some((n, t)) && cmd.args.len() >= n
            && cmd.args.len() > t && (crate::engine::gathered(st, cmd, n) matches Ok(v)
            && crate::ops::apply(cmd.command_type, v) == Ok::<
            crate::ops::AppliedModel,
            ScriptError,
        >(crate::ops::AppliedModel::Value(x))),
    ensures
        effect(cmd, fs, global, st, drawn) == finish(
            store(st, target_of(cmd), x, global, false),
        ),
{
}

/// What an instruction that computes a value leaves behind, where its
/// target, a path of whatever length, addresses a value of the descriptor
/// of the computed one and the write does not go to the global table past
/// a local variable: the instruction completes, its target addresses the
/// computed value, and every path that starts with another name addresses
/// what it addressed before.
pub proof fn law_computed_result(
    cmd: CommandModel,
    fs: Seq<FunctionModel>,
    global: bool,
    st: State,
    drawn: isize,
    x: Value,
    other: Seq<char>,
)
    requires
        crate::ops::signature(cmd.command_type) matches Some((n, t)) && cmd.args.len() >= n
            && cmd.args.len() > t && (crate::engine::gathered(st, cmd, n) matches Ok(v)
            && crate::ops::apply(cmd.command_type, v) == Ok::<
            crate::ops::AppliedModel,
            ScriptError,
        >(crate::ops::AppliedModel::Value(x))),
        takes(st, target_of(cmd), x.get_type(), global),
        split(other, '.')[0] != split(target_of(cmd), '.')[0],
    ensures
        ({
            let target = target_of(cmd);
            let (after, r) = effect(cmd, fs, global, st, drawn);
            &&& r == Ok::<OutcomeModel, ScriptError>(OutcomeModel::Done)
            &&& fetch(after, target) == Ok::<Value, ScriptError>(x)
            &&& fetch(after, other) == fetch(st, other)
            &&& after.temps == st.temps
            &&& after.inputs == st.inputs
            &&& after.outputs == st.outputs
        }),
{
    let target = target_of(cmd);
    law_computed_assigns(cmd, fs, global, st, drawn, x);
    lemma_takes_stores(st, target, x, global);
    law_write_elsewhere(st, target, x, global, false, other);
    law_write_then_read(st, target, x, global, false);
}

/// The operands that an instruction gathers, where each of them is read
/// and passes its test.
pub proof fn lemma_gathered_values(st: State, cmd: CommandModel, n: nat)
    requires
        n <= 3,
        n <= cmd.args.len(),
        crate::engine::reads_backwards(cmd.command_type) ==> n == 2,
        forall|pos: nat| pos < n ==> (#[trigger] crate::engine::read_operand(st, cmd, pos)) is Ok,
    ensures
        crate::engine::gathered(st, cmd, n) == Ok::<Seq<Value>, ScriptError>(
            Seq::new(n, |i: int| crate::engine::read_operand(st, cmd, i as nat)->Ok_0),
        ),
{
    reveal_with_fuel(crate::engine::gathered_forwards, 4);
    let want = Seq::new(n, |i: int| crate::engine::read_operand(st, cmd, i as nat)->Ok_0);
    if n >= 1 {
        assert(crate::engine::read_operand(st, cmd, 0) is Ok);
    }
    if n >= 2 {
        assert(crate::engine::read_operand(st, cmd, 1) is Ok);
    }
    if n >= 3 {
        assert(crate::engine::read_operand(st, cmd, 2) is Ok);
    }
    if crate::engine::reads_backwards(cmd.command_type) {
        assert(crate::engine::gathered(st, cmd, n)->Ok_0 =~= want);
    } else {
        assert(crate::engine::gathered_forwards(st, cmd, n)->Ok_0 =~= want);
    }
}

/// Whether a computed value of the descriptor `t` can be assigned to the
/// path `target` and read back under it: the path addresses a value of
/// that descriptor, and the write is not forced to the global table past a
/// local variable of the name that the path starts with.
pub open spec fn takes(st: State, target: Seq<char>, t: VarType, global: bool) -> bool {
    &&& fetch(st, target) matches Ok(current) && current.get_type() == t
    &&& !global || !st.locals.contains_key(split(target, '.')[0])
}

/// A value can be written through a path that addresses a value of its
/// descriptor, and the container keeps its own descriptor.
pub proof fn lemma_updated_succeeds(v: Value, segs: Seq<Seq<char>>, from: nat, new: Value)
    requires
        from < segs.len(),
        crate::path::resolve_from(v, segs, from) matches Ok(current) && current.get_type()
            == new.get_type(),
    ensures
        crate::path::updated(v, segs, from, new) is Ok,
        crate::path::updated(v, segs, from, new)->Ok_0.get_type() == v.get_type(),
    decreases segs.len() - from,
{
    let seg = segs[from as int];
    let c = crate::path::child(v, seg)->Ok_0;
    reveal_with_fuel(crate::path::resolve_from, 2);
    match v {
        Value::Mapping(VarType::Mapping(k, w), Some(l)) => {
            law_key_index(l, parse_value(*k, seg, None)->Ok_0, 0);
        },
        _ => {},
    }
    if from + 1 < segs.len() {
        lemma_updated_succeeds(c, segs, from + 1, new);
    }
}

/// A value can be assigned to a path that addresses a value of its
/// descriptor.
pub proof fn lemma_takes_stores(st: State, target: Seq<char>, x: Value, global: bool)
    requires
        fetch(st, target) matches Ok(current) && current.get_type() == x.get_type(),
    ensures
        store(st, target, x, global, false).1 is Ok,
{
    let segs = split(target, '.');
    lemma_split_nonempty(target, '.');
    reveal_with_fuel(crate::path::resolve_from, 2);
    if segs.len() > 1 {
        let current = crate::running_script::lookup(st.globals, st.locals, segs[0])->0;
        lemma_updated_succeeds(current, segs, 1, x);
    }
}

/// `ADD_INT x y` leaves the sum of the two integers in `x`, and every
/// variable of another name as it was, wherever the sum fits the machine's
/// integers.
pub proof fn law_add_int(
    cmd: CommandModel,
    fs: Seq<FunctionModel>,
    global: bool,
    st: State,
    drawn: isize,
    a: isize,
    b: isize,
    other: Seq<char>,
)
    requires
        cmd.command_type == CommandType::AddInt,
        cmd.args.len() >= 2,
        fetch(st, cmd.args[0]) matches Ok(v) && v.as_int() == Ok::<isize, ScriptError>(a),
        fetch(st, cmd.args[1]) matches Ok(v) && v.as_int() == Ok::<isize, ScriptError>(b),
        isize::MIN <= a + b <= isize::MAX,
        takes(st, cmd.args[0], VarType::Integer, global),
        split(other, '.')[0] != split(cmd.args[0], '.')[0],
    ensures
        ({
            let (after, r) = effect(cmd, fs, global, st, drawn);
            &&& r == Ok::<OutcomeModel, ScriptError>(OutcomeModel::Done)
            &&& fetch(after, cmd.args[0]) == Ok::<Value, ScriptError>(int_value((a + b) as isize))
            &&& fetch(after, other) == fetch(st, other)
        }),
{
    assert forall|pos: nat| pos < 2 implies (#[trigger] crate::engine::read_operand(
        st,
        cmd,
        pos,
    )) is Ok by {}
    lemma_gathered_values(st, cmd, 2);
    law_computed_result(cmd, fs, global, st, drawn, int_value((a + b) as isize), other);
}

/// `LIST_SIZE l r`, `MAP_SIZE m r` and `STRING_SIZE s r` leave in `r` the
/// number of items of the list, of entries of the mapping, of bytes of the
/// string, and every variable of another name as it was.
pub proof fn law_size(
    cmd: CommandModel,
    fs: Seq<FunctionModel>,
    global: bool,
    st: State,
    drawn: isize,
    n: nat,
    other: Seq<char>,
)
    requires
        cmd.args.len() >= 2,
        n <= isize::MAX,
        fetch(st, cmd.args[0]) matches Ok(v) && match cmd.command_type {
            CommandType::ListSize => v.as_list() matches Ok(l) && l.len() == n,
            CommandType::MapSize => v.as_map() matches Ok(l) && l.len() == n,
            CommandType::StringSize => v.as_text() matches Ok(s) && text_bytes(s).len() == n,
            _ => false,
        },
        takes(st, cmd.args[1], VarType::Integer, global),
        split(other, '.')[0] != split(cmd.args[1], '.')[0],
    ensures
        ({
            let (after, r) = effect(cmd, fs, global, st, drawn);
            &&& r == Ok::<OutcomeModel, ScriptError>(OutcomeModel::Done)
            &&& fetch(after, cmd.args[1]) == Ok::<Value, ScriptError>(int_value(n as isize))
            &&& fetch(after, other) == fetch(st, other)
        }),
{
    assert forall|pos: nat| pos < 1 implies (#[trigger] crate::engine::read_operand(
        st,
        cmd,
        pos,
    )) is Ok by {}
    lemma_gathered_values(st, cmd, 1);
    law_computed_result(cmd, fs, global, st, drawn, int_value(n as isize), other);
}

/// `SUB_LIST l a b` leaves in `l` the items of the list from `a` up to
/// `b`, in their order and under the descriptor of the list, and every
/// variable of another name as it was.
pub proof fn law_sub_list_stored(
    cmd: CommandModel,
    fs: Seq<FunctionModel>,
    global: bool,
    st: State,
    drawn: isize,
    t: VarType,
    items: Seq<Value>,
    a: isize,
    b: isize,
    other: Seq<char>,
)
    requires
        cmd.command_type == CommandType::SubList,
        cmd.args.len() >= 3,
        fetch(st, cmd.args[0]) == Ok::<Value, ScriptError>(Value::List(t, Some(items))),
        fetch(st, cmd.args[1]) matches Ok(v) && v.as_int() == Ok::<isize, ScriptError>(a),
        fetch(st, cmd.args[2]) matches Ok(v) && v.as_int() == Ok::<isize, ScriptError>(b),
        0 <= a <= b <= items.len(),
        takes(st, cmd.args[0], t, global),
        split(other, '.')[0] != split(cmd.args[0], '.')[0],
    ensures
        ({
            let (after, r) = effect(cmd, fs, global, st, drawn);
            &&& r == Ok::<OutcomeModel, ScriptError>(OutcomeModel::Done)
            &&& fetch(after, cmd.args[0]) == Ok::<Value, ScriptError>(
                Value::List(t, Some(items.subrange(a as int, b as int))),
            )
            &&& items.subrange(a as int, b as int).len() == b - a
            &&& forall|i: int|
                0 <= i < b - a ==> #[trigger] items.subrange(a as int, b as int)[i] == items[a + i]
            &&& fetch(after, other) == fetch(st, other)
        }),
{
    assert forall|pos: nat| pos < 3 implies (#[trigger] crate::engine::read_operand(
        st,
        cmd,
        pos,
    )) is Ok by {}
    lemma_gathered_values(st, cmd, 3);
    law_computed_result(
        cmd,
        fs,
        global,
        st,
        drawn,
        Value::List(t, Some(items.subrange(a as int, b as int))),
        other,
    );
}

/// `HAS_ITEM l x r` leaves in `r` whether some item of the list equals the
/// value of `x`, and every variable of another name as it was.
pub proof fn law_has_item_stored(
    cmd: CommandModel,
    fs: Seq<FunctionModel>,
    global: bool,
    st: State,
    drawn: isize,
    items: Seq<Value>,
    x: Value,
    other: Seq<char>,
)
    requires
        cmd.command_type == CommandType::HasItem,
        cmd.args.len() >= 3,
        fetch(st, cmd.args[0]) matches Ok(v) && v.as_list() == Ok::<Seq<Value>, ScriptError>(items),
        fetch(st, cmd.args[1]) == Ok::<Value, ScriptError>(x),
        takes(st, cmd.args[2], VarType::Bool, global),
        split(other, '.')[0] != split(cmd.args[2], '.')[0],
    ensures
        ({
            let (after, r) = effect(cmd, fs, global, st, drawn);
            &&& r == Ok::<OutcomeModel, ScriptError>(OutcomeModel::Done)
            &&& fetch(after, cmd.args[2]) == Ok::<Value, ScriptError>(
                crate::ops::bool_value(
                    exists|i: int| 0 <= i < items.len() && value_eq(#[trigger] items[i], x),
                ),
            )
            &&& fetch(after, other) == fetch(st, other)
        }),
{
    assert forall|pos: nat| pos < 2 implies (#[trigger] crate::engine::read_operand(
        st,
        cmd,
        pos,
    )) is Ok by {}
    lemma_gathered_values(st, cmd, 2);
    law_has_item(items, x, items.len());
    law_computed_result(
        cmd,
        fs,
        global,
        st,
        drawn,
        crate::ops::bool_value(has_item(items, x, items.len())),
        other,
    );
}

/// `HAS_STR s sub r` leaves in `r` whether the text of `sub` stands
/// somewhere in the text of `s`, which an empty text always does, and
/// every variable of another name as it was.
pub proof fn law_has_str_stored(
    cmd: CommandModel,
    fs: Seq<FunctionModel>,
    global: bool,
    st: State,
    drawn: isize,
    s: Seq<char>,
    sub: Seq<char>,
    other: Seq<char>,
)
    requires
        cmd.command_type == CommandType::HasStr,
        cmd.args.len() >= 3,
        fetch(st, cmd.args[0]) matches Ok(v) && v.as_text() == Ok::<Seq<char>, ScriptError>(s),
        fetch(st, cmd.args[1]) matches Ok(v) && v.as_text() == Ok::<Seq<char>, ScriptError>(sub),
        takes(st, cmd.args[2], VarType::Bool, global),
        split(other, '.')[0] != split(cmd.args[2], '.')[0],
    ensures
        ({
            let (after, r) = effect(cmd, fs, global, st, drawn);
            &&& r == Ok::<OutcomeModel, ScriptError>(OutcomeModel::Done)
            &&& fetch(after, cmd.args[2]) == Ok::<Value, ScriptError>(
                crate::ops::bool_value(
                    exists|i: int|
                        0 <= i <= s.len() - sub.len() && #[trigger] s.subrange(i, i + sub.len())
                            == sub,
                ),
            )
            &&& sub.len() == 0 ==> crate::ops::has_sub(s, sub)
            &&& fetch(after, other) == fetch(st, other)
        }),
{
    assert forall|pos: nat| pos < 2 implies (#[trigger] crate::engine::read_operand(
        st,
        cmd,
        pos,
    )) is Ok by {}
    lemma_gathered_values(st, cmd, 2);
    if sub.len() == 0 {
        assert(s.subrange(0, 0) =~= sub);
        assert(crate::ops::occurs_at(s, sub, 0));
    }
    if crate::ops::has_sub(s, sub) {
        let i = choose|i: int| crate::ops::occurs_at(s, sub, i);
        assert(0 <= i <= s.len() - sub.len() && s.subrange(i, i + sub.len()) == sub);
    }
    if exists|i: int| 0 <= i <= s.len() - sub.len() && #[trigger] s.subrange(i, i + sub.len()) == sub {
        let i = choose|i: int|
            0 <= i <= s.len() - sub.len() && #[trigger] s.subrange(i, i + sub.len()) == sub;
        assert(crate::ops::occurs_at(s, sub, i));
    }
    law_computed_result(
        cmd,
        fs,
        global,
        st,
        drawn,
        crate::ops::bool_value(crate::ops::has_sub(s, sub)),
        other,
    );
}

/// What an instruction that computes a value leaves behind where its
/// target is any path: if the value can be written there, and the write
/// does not go to the global table past a local variable of the path's
/// first segment, the instruction completes, the path addresses the
/// computed value, and every path that starts with another name addresses
/// what it addressed before.
pub proof fn law_computed_written(
    cmd: CommandModel,
    fs: Seq<FunctionModel>,
    global: bool,
    st: State,
    drawn: isize,
    x: Value,
    other: Seq<char>,
)
    requires
        crate::ops::signature(cmd.command_type) matches Some((n, t)) && cmd.args.len() >= n
            && cmd.args.len() > t && (crate::engine::gathered(st, cmd, n) matches Ok(v)
            && crate::ops::apply(cmd.command_type, v) == Ok::<
            crate::ops::AppliedModel,
            ScriptError,
        >(crate::ops::AppliedModel::Value(x))),
        store(st, target_of(cmd), x, global, false).1 is Ok,
        !global || !st.locals.contains_key(split(target_of(cmd), '.')[0]),
        split(other, '.')[0] != split(target_of(cmd), '.')[0],
    ensures
        ({
            let (after, r) = effect(cmd, fs, global, st, drawn);
            &&& r == Ok::<OutcomeModel, ScriptError>(OutcomeModel::Done)
            &&& fetch(after, target_of(cmd)) == Ok::<Value, ScriptError>(x)
            &&& fetch(after, other) == fetch(st, other)
        }),
{
    law_computed_assigns(cmd, fs, global, st, drawn, x);
    law_write_elsewhere(st, target_of(cmd), x, global, false, other);
    law_write_then_read(st, target_of(cmd), x, global, false);
}

/// Whether a value is a list or a mapping.
pub open spec fn is_container(v: Value) -> bool {
    v is List || v is Mapping
}

/// No literal writes a list or a mapping.
pub proof fn lemma_parsed_no_container(t: VarType, s: Seq<char>, float: Option<crate::float::FloatModel>)
    requires
        parse_value(t, s, float) is Ok,
    ensures
        !is_container(parse_value(t, s, float)->Ok_0),
{
}

/// Removing a variable changes nothing under another name: every path that
/// starts with another name addresses what it addressed before.
pub proof fn lemma_forget_elsewhere(st: State, x: Seq<char>, other: Seq<char>)
    requires
        split(other, '.')[0] != split(x, '.')[0],
    ensures
        fetch(forget(st, x).0, other) == fetch(st, other),
{
    lemma_split_nonempty(x, '.');
    lemma_split_nonempty(other, '.');
}

/// Removing a variable of another name leaves a plain name that stands
/// for no container with its value.
pub proof fn lemma_forget_other(st: State, x: Seq<char>, name: Seq<char>, v: Value)
    requires
        is_plain(name),
        fetch(st, name) == Ok::<Value, ScriptError>(v),
        !is_container(v),
        x != name,
    ensures
        fetch(forget(st, x).0, name) == Ok::<Value, ScriptError>(v),
{
    lemma_plain_segment(name);
    lemma_split_nonempty(x, '.');
    reveal_with_fuel(crate::path::resolve_from, 2);
    let segs = split(x, '.');
    if segs[0] != name {
        lemma_forget_elsewhere(st, x, name);
    } else {
        if segs.len() == 1 {
            lemma_single_segment(x);
        }
        reveal_with_fuel(crate::path::removed, 2);
    }
}

/// A text that splits into one segment is that segment.
pub proof fn lemma_single_segment(x: Seq<char>)
    requires
        split(x, '.').len() == 1,
    ensures
        split(x, '.')[0] == x,
{
    lemma_plain_segment(x);
}

/// Removing older temporary variables adds no name to either table and
/// leaves the list of temporary names alone.
pub proof fn lemma_swept_but_keys(st: State, n: nat, keep: Seq<char>)
    requires
        n <= st.temps.len(),
    ensures
        forall|m: Seq<char>| #[trigger]
            swept_but(st, n, keep).locals.contains_key(m) ==> st.locals.contains_key(m),
        forall|m: Seq<char>| #[trigger]
            swept_but(st, n, keep).globals.contains_key(m) ==> st.globals.contains_key(m),
        swept_but(st, n, keep).temps == st.temps,
    decreases n,
{
    if n > 0 {
        lemma_swept_but_keys(st, (n - 1) as nat, keep);
        lemma_forget_keys(swept_but(st, (n - 1) as nat, keep), st.temps[n - 1]);
    }
}

/// Removing older temporary variables leaves the one that is kept with its
/// value.
pub proof fn lemma_swept_but_keeps(st: State, n: nat, keep: Seq<char>, v: Value)
    requires
        n <= st.temps.len(),
        is_plain(keep),
        fetch(st, keep) == Ok::<Value, ScriptError>(v),
        !is_container(v),
    ensures
        fetch(swept_but(st, n, keep), keep) == Ok::<Value, ScriptError>(v),
    decreases n,
{
    if n > 0 {
        lemma_swept_but_keeps(st, (n - 1) as nat, keep, v);
        if st.temps[n - 1] != keep {
            lemma_forget_other(swept_but(st, (n - 1) as nat, keep), st.temps[n - 1], keep, v);
        }
    }
}

/// Once its turn has come, an older plain temporary name that was not in
/// both tables is in neither.
pub proof fn lemma_swept_but_gone(st: State, k: int, n: nat, keep: Seq<char>)
    requires
        0 <= k < n <= st.temps.len(),
        is_plain(st.temps[k]),
        st.temps[k] != keep,
        !shadowed(st, st.temps[k]),
    ensures
        !swept_but(st, n, keep).locals.contains_key(st.temps[k]),
        !swept_but(st, n, keep).globals.contains_key(st.temps[k]),
    decreases n,
{
    let name = st.temps[k];
    let before = swept_but(st, (n - 1) as nat, keep);
    lemma_swept_but_keys(st, (n - 1) as nat, keep);
    lemma_forget_keys(before, st.temps[n - 1]);
    if n - 1 == k {
        lemma_plain_segment(name);
    } else {
        lemma_swept_but_gone(st, k, (n - 1) as nat, keep);
    }
}

/// The completion of a temporary declaration leaves the variable that it
/// declared, with its value, as the only temporary variable, and removes
/// every older one: an older plain name that was not in both tables is
/// unknown afterwards.
pub proof fn law_declaration_renews(st: State, v: Value, k: int)
    requires
        st.temps.len() > 0,
        is_plain(st.temps.last()),
        fetch(st, st.temps.last()) == Ok::<Value, ScriptError>(v),
        !is_container(v),
    ensures
        renewed(st).temps == seq![st.temps.last()],
        fetch(renewed(st), st.temps.last()) == Ok::<Value, ScriptError>(v),
        renewed(st).inputs == st.inputs,
        renewed(st).outputs == st.outputs,
        0 <= k < st.temps.len() - 1 && is_plain(st.temps[k]) && st.temps[k] != st.temps.last()
            && !shadowed(st, st.temps[k]) ==> fetch(renewed(st), st.temps[k]) == Err::<
            Value,
            ScriptError,
        >(ScriptError::UnknownVarError),
{
    let n = (st.temps.len() - 1) as nat;
    let keep = st.temps.last();
    lemma_swept_but_keeps(st, n, keep, v);
    lemma_swept_but_inert(st, n, keep);
    if 0 <= k < st.temps.len() - 1 && is_plain(st.temps[k]) && st.temps[k] != keep && !shadowed(
        st,
        st.temps[k],
    ) {
        lemma_swept_but_gone(st, k, n, keep);
        lemma_plain_segment(st.temps[k]);
    }
}

/// Removing older temporary variables leaves the streams alone.
pub proof fn lemma_swept_but_inert(st: State, n: nat, keep: Seq<char>)
    requires
        n <= st.temps.len(),
    ensures
        swept_but(st, n, keep).inputs == st.inputs,
        swept_but(st, n, keep).outputs == st.outputs,
    decreases n,
{
    if n > 0 {
        lemma_swept_but_inert(st, (n - 1) as nat, keep);
        lemma_forget_keys(swept_but(st, (n - 1) as nat, keep), st.temps[n - 1]);
    }
}

/// Whether the plain name `name` is a temporary variable in the making of a
/// writer with the flag `global`: it stands for the value `v`, which is no
/// container, and it is not in the table that such a writer declares
/// nothing in.
pub open spec fn holds_temp(st: State, name: Seq<char>, v: Value, global: bool) -> bool {
    &&& is_plain(name)
    &&& fetch(st, name) == Ok::<Value, ScriptError>(v)
    &&& !is_container(v)
    &&& if global {
        !st.locals.contains_key(name)
    } else {
        !st.globals.contains_key(name)
    }
}

/// What the declaration of a temporary variable leaves: the name stands
/// for the declared value, in one table only, and after the completion of
/// the declaration it is the only temporary name.
pub proof fn lemma_temp_declared(st: State, name: Seq<char>, v: Value, global: bool)
    requires
        store(st, name, v, global, true).1 is Ok,
        !is_container(v),
    ensures
        ({
            let after = State {
                temps: st.temps.push(name),
                ..store(st, name, v, global, true).0
            };
            &&& fetch(st, name) is Err
            &&& holds_temp(after, name, v, global)
            &&& holds_temp(renewed(after), name, v, global)
            &&& renewed(after).temps == seq![name]
        }),
{
    let after = State { temps: st.temps.push(name), ..store(st, name, v, global, true).0 };
    lemma_split_nonempty(name, '.');
    assert(is_plain(name));
    lemma_plain_segment(name);
    reveal_with_fuel(crate::path::resolve_from, 2);
    law_write_then_read(st, name, v, global, true);
    assert(fetch(after, name) == fetch(store(st, name, v, global, true).0, name));
    law_declaration_renews(after, v, 0);
    lemma_swept_but_keys(after, (after.temps.len() - 1) as nat, name);
}

/// A temporary variable holds the value that its literal writes, from the
/// completion of its declaration on.
///
/// Where a `TEMP_VAR` completes at once, its name is plain and stood for
/// nothing before; afterwards it stands for the value that the literal
/// writes, and once the declaration is complete it is the only temporary
/// name.
pub proof fn law_temp_var_value(cmd: CommandModel, fs: Seq<FunctionModel>, global: bool, st: State, drawn: isize)
    requires
        cmd.command_type == CommandType::TempVar,
        effect(cmd, fs, global, st, drawn).1 == Ok::<OutcomeModel, ScriptError>(OutcomeModel::Done),
    ensures
        ({
            let t = crate::var_type::parse_type(cmd.args[0]);
            let text = crate::text::join(cmd.args.skip(2), " "@);
            let after = effect(cmd, fs, global, st, drawn).0;
            &&& cmd.args.len() >= 2
            &&& t is Some
            &&& fetch(st, cmd.args[1]) is Err
            &&& parse_value(t->0, text, None) is Ok
            &&& after.temps == st.temps.push(cmd.args[1])
            &&& holds_temp(after, cmd.args[1], parse_value(t->0, text, None)->Ok_0, global)
            &&& holds_temp(renewed(after), cmd.args[1], parse_value(t->0, text, None)->Ok_0, global)
            &&& renewed(after).temps == seq![cmd.args[1]]
        }),
{
    let t = crate::var_type::parse_type(cmd.args[0])->0;
    let text = crate::text::join(cmd.args.skip(2), " "@);
    let v = parse_value(t, text, None)->Ok_0;
    lemma_parsed_no_container(t, text, None);
    lemma_temp_declared(st, cmd.args[1], v, global);
}

/// A temporary variable whose literal holds a float holds the value that
/// the literal writes around the number that the host read, from the
/// completion of its declaration on.
///
/// Where a temporary declaration takes up the host's answer and succeeds,
/// its name is plain and stood for nothing before; afterwards it stands
/// for the value of the literal, and once the declaration is complete it
/// is the only temporary name.
pub proof fn law_temp_float_value(
    name: Seq<char>,
    var_type: VarType,
    text: Seq<char>,
    event: crate::action::EventModel,
    global: bool,
    st: State,
)
    requires
        crate::engine::resumed(
            crate::action::PendingModel::Literal { name, var_type, text, init: true },
            event,
            global,
            st,
        ).1 is Ok,
    ensures
        ({
            let float = match event {
                crate::action::EventModel::Float(f) => Some(f),
                _ => None,
            };
            let after = crate::engine::resumed(
                crate::action::PendingModel::Literal { name, var_type, text, init: true },
                event,
                global,
                st,
            ).0;
            &&& fetch(st, name) is Err
            &&& parse_value(var_type, text, float) is Ok
            &&& after.temps == st.temps.push(name)
            &&& holds_temp(after, name, parse_value(var_type, text, float)->Ok_0, global)
            &&& holds_temp(renewed(after), name, parse_value(var_type, text, float)->Ok_0, global)
            &&& renewed(after).temps == seq![name]
        }),
{
    let float = match event {
        crate::action::EventModel::Float(f) => Some(f),
        _ => None,
    };
    let v = parse_value(var_type, text, float)->Ok_0;
    lemma_parsed_no_container(var_type, text, float);
    lemma_temp_declared(st, name, v, global);
}

/// A temporary variable lives through exactly one more instruction.
///
/// Where the only temporary name of a call stands for a value, as the
/// completion of its declaration leaves it, and the call's next instruction
/// completes, whatever its kind, the name is unknown when it has
/// completed; the only temporary name then is the one that the instruction
/// declared, if it declared one. Where the instruction fails, the shared
/// state that the failure leaves behind has no global variable of that
/// name.
pub proof fn law_temp_var_lifetime(
    f: FrameModel,
    name: Seq<char>,
    v: Value,
    next: CommandModel,
    fs: Seq<FunctionModel>,
    global: bool,
    st: State,
    drawn: isize,
)
    requires
        st.temps == seq![name],
        holds_temp(st, name, v, global),
    ensures
        ({
            let (after, r) = effect(next, fs, global, st, drawn);
            let (f2, w2) = completed(f, after, next.command_type);
            &&& r == Ok::<OutcomeModel, ScriptError>(OutcomeModel::Done) ==> fetch(
                state_in(w2, f2),
                name,
            ) == Err::<Value, ScriptError>(ScriptError::UnknownVarError) && f2.temps == if next.command_type
                == CommandType::TempVar {
                seq![next.args[1]]
            } else {
                Seq::<Seq<char>>::empty()
            }
            &&& r is Err ==> !abandoned(after).globals.contains_key(name)
        }),
{
    let (after, r) = effect(next, fs, global, st, drawn);
    lemma_plain_segment(name);
    reveal_with_fuel(crate::path::resolve_from, 2);
    lemma_effect_quiet(next, fs, global, st, drawn);
    assert(!shadowed(after, name));
    assert(after.temps.len() >= 1);
    assert(after.temps.take(1)[0] == after.temps[0]);
    assert(after.temps[0] == name);
    if r is Err {
        lemma_swept_gone(after, 0, after.temps.len());
    } else if r == Ok::<OutcomeModel, ScriptError>(OutcomeModel::Done) {
        if next.command_type == CommandType::TempVar {
            law_temp_var_value(next, fs, global, st, drawn);
            let fresh = next.args[1];
            assert(after.temps == seq![name, fresh]) by {
                assert(st.temps.push(fresh) =~= seq![name, fresh]);
            }
            assert(fresh != name);
            lemma_swept_but_gone(after, 0, 1, fresh);
        } else {
            assert(after.temps == st.temps);
            law_sweep_removes(after, 0);
            lemma_swept_keys(after, after.temps.len());
        }
    }
}

/// The lifetime of a temporary variable, step by step.
///
/// Where a task steps into a `TEMP_VAR` that completes, the step asks
/// nothing of the host, and the innermost call then finds under the name
/// the value that the literal writes. Where the next step executes an
/// instruction, of whatever kind, that completes or fails, the variable is
/// unknown afterwards: to the innermost call where the instruction
/// completed, and in the global table that the failed task leaves behind.
pub proof fn law_temp_var_steps(
    t: crate::task::TaskModel,
    w: World,
    fs: Seq<FunctionModel>,
    event: crate::action::EventModel,
    first: isize,
    second: isize,
)
    requires
        t.frames.len() > 0,
        t.waiting is None,
        t.frames.last().running is None,
        t.frames.last().pc < t.frames.last().commands.len(),
        t.frames.last().commands[t.frames.last().pc as int].command_type == CommandType::TempVar,
        crate::task::stepped(t, w, fs, event, first).2 is Continue,
        ({
            let (t1, w1, _) = crate::task::stepped(t, w, fs, event, first);
            let f1 = t1.frames.last();
            &&& f1.pc < f1.commands.len()
            &&& (effect(f1.commands[f1.pc as int], fs, f1.is_global, state_in(w1, f1), second).1
                matches Ok(o) ==> o is Done)
        }),
    ensures
        ({
            let cmd = t.frames.last().commands[t.frames.last().pc as int];
            let name = cmd.args[1];
            let value = parse_value(
                crate::var_type::parse_type(cmd.args[0])->0,
                crate::text::join(cmd.args.skip(2), " "@),
                None,
            );
            let (t1, w1, _) = crate::task::stepped(t, w, fs, event, first);
            let f1 = t1.frames.last();
            let (t2, w2, a2) = crate::task::stepped(t1, w1, fs, crate::action::EventModel::Nothing, second);
            &&& t1.frames.len() == t.frames.len()
            &&& value is Ok
            &&& fetch(state_in(w1, f1), name) == Ok::<Value, ScriptError>(value->Ok_0)
            &&& a2 is Continue ==> t2.frames.len() == t.frames.len() && fetch(
                state_in(w2, t2.frames.last()),
                name,
            ) == Err::<Value, ScriptError>(ScriptError::UnknownVarError)
            &&& !(a2 is Continue) ==> t2.frames.len() == 0 && !w2.globals.contains_key(name)
        }),
{
    let top = t.frames.last();
    let below = t.frames.drop_last();
    let cmd = top.commands[top.pc as int];
    let name = cmd.args[1];
    let st0 = state_in(w, top);
    let (st1, r1) = effect(cmd, fs, top.is_global, st0, first);
    assert(r1 == Ok::<OutcomeModel, ScriptError>(OutcomeModel::Done));
    law_temp_var_value(cmd, fs, top.is_global, st0, first);
    let v = parse_value(
        crate::var_type::parse_type(cmd.args[0])->0,
        crate::text::join(cmd.args.skip(2), " "@),
        None,
    )->Ok_0;
    let (t1, w1, _) = crate::task::stepped(t, w, fs, event, first);
    let f1 = t1.frames.last();
    assert(t1.frames == below.push(completed(top, st1, cmd.command_type).0));
    assert(f1 == completed(top, st1, cmd.command_type).0);
    assert(t1.frames.drop_last() =~= below);
    let s1 = state_in(w1, f1);
    assert(s1.globals == renewed(st1).globals);
    assert(s1.locals == renewed(st1).locals);
    assert(s1.temps == renewed(st1).temps);
    assert(fetch(s1, name) == fetch(renewed(st1), name));
    assert(holds_temp(s1, name, v, top.is_global));
    let next = f1.commands[f1.pc as int];
    law_temp_var_lifetime(f1, name, v, next, fs, f1.is_global, s1, second);
}

/// Where entries are equal in either order, each entry of one list equals
/// one of the other exactly when it is equalled by one of the other.
pub proof fn lemma_partners_swap(l: Seq<(Value, Value)>, m: Seq<(Value, Value)>)
    requires
        forall|i: int, j: int|
            0 <= i < l.len() && 0 <= j < m.len() ==> #[trigger] entry_eq(l[i], m[j]) == entry_eq(
                m[j],
                l[i],
            ),
    ensures
        forall|i: int| 0 <= i < l.len() ==> equals_one_of(#[trigger] l[i], m) == one_equals(m, l[i]),
        forall|j: int| 0 <= j < m.len() ==> one_equals(l, #[trigger] m[j]) == equals_one_of(m[j], l),
{
    assert forall|i: int| 0 <= i < l.len() implies equals_one_of(#[trigger] l[i], m) == one_equals(
        m,
        l[i],
    ) by {
        if equals_one_of(l[i], m) {
            let j = choose|j: int| 0 <= j < m.len() && entry_eq(l[i], #[trigger] m[j]);
            assert(entry_eq(l[i], m[j]) == entry_eq(m[j], l[i]));
            assert(0 <= j < m.len() && entry_eq(m[j], l[i]));
        }
        if one_equals(m, l[i]) {
            let j = choose|j: int| 0 <= j < m.len() && entry_eq(#[trigger] m[j], l[i]);
            assert(entry_eq(l[i], m[j]) == entry_eq(m[j], l[i]));
            assert(0 <= j < m.len() && entry_eq(l[i], m[j]));
        }
    }
    assert forall|j: int| 0 <= j < m.len() implies one_equals(l, #[trigger] m[j]) == equals_one_of(
        m[j],
        l,
    ) by {
        if one_equals(l, m[j]) {
            let i = choose|i: int| 0 <= i < l.len() && entry_eq(#[trigger] l[i], m[j]);
            assert(entry_eq(l[i], m[j]) == entry_eq(m[j], l[i]));
            assert(0 <= i < l.len() && entry_eq(m[j], l[i]));
        }
        if equals_one_of(m[j], l) {
            let i = choose|i: int| 0 <= i < l.len() && entry_eq(m[j], #[trigger] l[i]);
            assert(entry_eq(l[i], m[j]) == entry_eq(m[j], l[i]));
            assert(0 <= i < l.len() && entry_eq(l[i], m[j]));
        }
    }
}

/// Two lists are equal in either order where their items are.
pub proof fn lemma_list_symmetric(s: VarType, t: VarType, l: Seq<Value>, m: Seq<Value>)
    requires
        forall|i: int|
            0 <= i < l.len() && i < m.len() ==> value_eq(#[trigger] l[i], m[i]) == value_eq(
                m[i],
                l[i],
            ),
    ensures
        value_eq(Value::List(s, Some(l)), Value::List(t, Some(m))) == value_eq(
            Value::List(t, Some(m)),
            Value::List(s, Some(l)),
        ),
{
    law_list_equality(s, t, l, m);
    law_list_equality(t, s, m, l);
    if l.len() == m.len() {
        if value_eq(Value::List(s, Some(l)), Value::List(t, Some(m))) {
            assert forall|i: int| 0 <= i < m.len() implies value_eq(#[trigger] m[i], l[i]) by {
                assert(value_eq(l[i], m[i]));
            }
        }
        if value_eq(Value::List(t, Some(m)), Value::List(s, Some(l))) {
            assert forall|i: int| 0 <= i < l.len() implies value_eq(#[trigger] l[i], m[i]) by {
                assert(value_eq(m[i], l[i]));
            }
        }
    }
}

/// Two mappings are equal in either order where their entries are.
pub proof fn lemma_mapping_symmetric(
    s: VarType,
    t: VarType,
    l: Seq<(Value, Value)>,
    m: Seq<(Value, Value)>,
)
    requires
        forall|i: int, j: int|
            0 <= i < l.len() && 0 <= j < m.len() ==> #[trigger] entry_eq(l[i], m[j]) == entry_eq(
                m[j],
                l[i],
            ),
    ensures
        value_eq(Value::Mapping(s, Some(l)), Value::Mapping(t, Some(m))) == value_eq(
            Value::Mapping(t, Some(m)),
            Value::Mapping(s, Some(l)),
        ),
{
    law_mapping_equality_ignores_order(s, t, l, m);
    law_mapping_equality_ignores_order(t, s, m, l);
    lemma_partners_swap(l, m);
    if value_eq(Value::Mapping(s, Some(l)), Value::Mapping(t, Some(m))) {
        assert forall|j: int| 0 <= j < m.len() implies equals_one_of(#[trigger] m[j], l) by {
            assert(one_equals(l, m[j]));
        }
        assert forall|i: int| 0 <= i < l.len() implies one_equals(m, #[trigger] l[i]) by {
            assert(equals_one_of(l[i], m));
        }
    }
    if value_eq(Value::Mapping(t, Some(m)), Value::Mapping(s, Some(l))) {
        assert forall|i: int| 0 <= i < l.len() implies equals_one_of(#[trigger] l[i], m) by {
            assert(one_equals(m, l[i]));
        }
        assert forall|j: int| 0 <= j < m.len() implies one_equals(l, #[trigger] m[j]) by {
            assert(equals_one_of(m[j], l));
        }
    }
}

/// Equality of values is symmetric: a value equals another exactly when
/// the other equals it.
pub proof fn law_value_eq_symmetric(a: Value, b: Value)
    ensures
        value_eq(a, b) == value_eq(b, a),
    decreases a,
{
    match a {
        Value::List(s, Some(l)) => match b {
            Value::List(t, Some(m)) => {
                assert forall|i: int| 0 <= i < l.len() && i < m.len() implies value_eq(
                    #[trigger] l[i],
                    m[i],
                ) == value_eq(m[i], l[i]) by {
                    law_value_eq_symmetric(l[i], m[i]);
                }
                lemma_list_symmetric(s, t, l, m);
            },
            _ => {},
        },
        Value::Mapping(s, Some(l)) => match b {
            Value::Mapping(t, Some(m)) => {
                assert forall|i: int, j: int|
                    0 <= i < l.len() && 0 <= j < m.len() implies #[trigger] entry_eq(l[i], m[j])
                    == entry_eq(m[j], l[i]) by {
                    law_value_eq_symmetric(l[i].0, m[j].0);
                    law_value_eq_symmetric(l[i].1, m[j].1);
                }
                lemma_mapping_symmetric(s, t, l, m);
            },
            _ => {},
        },
        Value::Optional(_, Some(Some(p))) => match b {
            Value::Optional(_, Some(Some(q))) => {
                law_value_eq_symmetric(*p, *q);
            },
            _ => {},
        },
        _ => {},
    }
}

/// The start of the lifetime of a temporary variable whose literal holds a
/// float, step by step.
///
/// Where a task takes up a temporary declaration that was waiting for the
/// host to read its number, and the step asks nothing more of the host,
/// the innermost call then finds under the name the value that the literal
/// writes around the number, and the name is its only temporary name; so
/// that it lives through exactly one more instruction, as
/// `law_temp_var_lifetime` says.
pub proof fn law_temp_float_steps(
    t: crate::task::TaskModel,
    w: World,
    fs: Seq<FunctionModel>,
    event: crate::action::EventModel,
    drawn: isize,
    name: Seq<char>,
    var_type: VarType,
    text: Seq<char>,
)
    requires
        t.frames.len() > 0,
        t.waiting matches Some(wait) && wait.command.command_type == CommandType::TempVar
            && wait.pending == (crate::action::PendingModel::Literal {
            name,
            var_type,
            text,
            init: true,
        }),
        crate::task::stepped(t, w, fs, event, drawn).2 is Continue,
    ensures
        ({
            let float = match event {
                crate::action::EventModel::Float(f) => Some(f),
                _ => None,
            };
            let (t1, w1, _) = crate::task::stepped(t, w, fs, event, drawn);
            let f1 = t1.frames.last();
            &&& t1.frames.len() == t.frames.len()
            &&& t1.waiting is None
            &&& parse_value(var_type, text, float) is Ok
            &&& f1.temps == seq![name]
            &&& holds_temp(
                state_in(w1, f1),
                name,
                parse_value(var_type, text, float)->Ok_0,
                f1.is_global,
            )
        }),
{
    let top = t.frames.last();
    let below = t.frames.drop_last();
    let wait = t.waiting->0;
    let st0 = state_in(w, top);
    let (st1, r1) = crate::engine::resumed(wait.pending, event, top.is_global, st0);
    assert(r1 is Ok);
    law_temp_float_value(name, var_type, text, event, top.is_global, st0);
    let (t1, w1, _) = crate::task::stepped(t, w, fs, event, drawn);
    let f1 = t1.frames.last();
    assert(t1.frames == below.push(completed(top, st1, wait.command.command_type).0));
    assert(f1 == completed(top, st1, wait.command.command_type).0);
    let s1 = state_in(w1, f1);
    assert(s1.globals == renewed(st1).globals);
    assert(s1.locals == renewed(st1).locals);
    assert(s1.temps == renewed(st1).temps);
    assert(fetch(s1, name) == fetch(renewed(st1), name));
}

} // verus!
