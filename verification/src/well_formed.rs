//! Well-formed values, and the proof that the engine keeps them so.
//!
//! A value is well formed when its payload has the shape that its
//! descriptor asks for: the variant is that of the descriptor's
//! constructor, the items of a list have the list's item type, the keys and
//! values of a mapping have its key and value types and no two keys are
//! equal, and the content of an optional has its content type; and so on
//! inside.

use vstd::prelude::*;
use crate::action::{EventModel, LoopModel, OutcomeModel, PendingModel};
use crate::command::CommandModel;
use crate::command_type::CommandType;
use crate::engine::{
    effect, fetch, forget, operands, resumed, store, store_bytes, store_literal, State,
};
use crate::error::ScriptError;
use crate::function::{bound, entered, FrameModel, FunctionModel};
use crate::ops::{apply, char_list, char_list_type, char_values, signature, AppliedModel};
use crate::function::RunningModel;
use crate::task::{
    abandoned, advance, completed, frame_after, returned, state_in, stepped, swept,
    world_after, AdvanceModel, TaskModel, World,
};
use crate::float::FloatModel;
use crate::laws::law_key_index;
use crate::path::{
    child, folded, key_index, put, removed, resolve_from, take_out, updated, with_entry,
};
use crate::running_script::{
    assigned, dropped, erased, lemma_split_nonempty, lookup, resolve, string_list,
    Table,
};
use crate::text::split;
use crate::var_type::VarType;
use crate::variable::{parse_value, value_eq, Value};

verus! {

/// Whether no two entries have equal keys.
pub open spec fn distinct_keys(l: Seq<(Value, Value)>) -> bool {
    forall|i: int, j: int|
        0 <= i < j < l.len() ==> !value_eq((#[trigger] l[i]).0, (#[trigger] l[j]).0)
}

/// Whether the value is well formed.
pub open spec fn well_formed(v: Value) -> bool
    decreases v, 0nat,
{
    match v {
        Value::Bool(t, _) => t is Bool,
        Value::Text(t, _) => t is String,
        Value::Integer(t, _) => t is Integer,
        Value::Float(t, _) => t is Float,
        Value::Char(t, _) => t is Char,
        Value::InStream(t, _) => t is InStream,
        Value::OutStream(t, _) => t is OutStream,
        Value::Null(t) => t is Null,
        Value::List(t, p) => match t {
            VarType::List(e) => match p {
                Some(l) => items_typed(l, *e, l.len()),
                None => true,
            },
            _ => false,
        },
        Value::Mapping(t, p) => match t {
            VarType::Mapping(k, w) => match p {
                Some(l) => entries_typed(l, *k, *w, l.len()) && distinct_keys(l),
                None => true,
            },
            _ => false,
        },
        Value::Optional(t, p) => match t {
            VarType::Optional(e) => match p {
                Some(Some(b)) => b.get_type() == *e && well_formed(*b),
                _ => true,
            },
            _ => false,
        },
    }
}

/// Whether the first `n` items of `l` are well formed and of the type `e`.
pub open spec fn items_typed(l: Seq<Value>, e: VarType, n: nat) -> bool
    decreases l, n,
{
    if n == 0 || n > l.len() {
        n == 0
    } else {
        items_typed(l, e, (n - 1) as nat) && l[n - 1].get_type() == e && well_formed(l[n - 1])
    }
}

/// Whether the first `n` entries of `l` are well formed, with keys of the
/// type `k` and values of the type `w`.
pub open spec fn entries_typed(l: Seq<(Value, Value)>, k: VarType, w: VarType, n: nat) -> bool
    decreases l, n,
{
    if n == 0 || n > l.len() {
        n == 0
    } else {
        entries_typed(l, k, w, (n - 1) as nat) && l[n - 1].0.get_type() == k && well_formed(
            l[n - 1].0,
        ) && l[n - 1].1.get_type() == w && well_formed(l[n - 1].1)
    }
}

/// Whether the value is well formed and of the type `t`.
pub open spec fn typed(v: Value, t: VarType) -> bool {
    v.get_type() == t && well_formed(v)
}

/// Typed items are typed one by one.
pub proof fn lemma_items_typed(l: Seq<Value>, e: VarType, n: nat)
    requires
        n <= l.len(),
    ensures
        items_typed(l, e, n) <==> forall|i: int| 0 <= i < n ==> typed(#[trigger] l[i], e),
    decreases n,
{
    if n > 0 {
        lemma_items_typed(l, e, (n - 1) as nat);
        if items_typed(l, e, n) {
            assert forall|i: int| 0 <= i < n implies typed(#[trigger] l[i], e) by {
                if i < n - 1 {
                    assert(typed(l[i], e));
                }
            }
        }
        if forall|i: int| 0 <= i < n ==> typed(#[trigger] l[i], e) {
            assert(typed(l[n - 1], e));
        }
    }
}

/// Typed entries are typed one by one.
pub proof fn lemma_entries_typed(l: Seq<(Value, Value)>, k: VarType, w: VarType, n: nat)
    requires
        n <= l.len(),
    ensures
        entries_typed(l, k, w, n) <==> forall|i: int|
            0 <= i < n ==> typed((#[trigger] l[i]).0, k) && typed(l[i].1, w),
    decreases n,
{
    if n > 0 {
        lemma_entries_typed(l, k, w, (n - 1) as nat);
        if entries_typed(l, k, w, n) {
            assert forall|i: int| 0 <= i < n implies typed((#[trigger] l[i]).0, k) && typed(
                l[i].1,
                w,
            ) by {
                if i < n - 1 {
                    assert(typed(l[i].0, k) && typed(l[i].1, w));
                }
            }
        }
        if forall|i: int| 0 <= i < n ==> typed((#[trigger] l[i]).0, k) && typed(l[i].1, w) {
            assert(typed(l[n - 1].0, k) && typed(l[n - 1].1, w));
        }
    }
}

/// A declared value is well formed and of the declared type.
pub proof fn lemma_empty_typed(t: VarType)
    ensures
        typed(Value::empty(t), t),
        typed(Value::not_inited(t), t),
{
    match t {
        VarType::List(e) => {
            let l = Seq::<Value>::empty();
            assert(items_typed(l, *e, l.len()));
            assert(well_formed(Value::List(t, Some(l))));
        },
        VarType::Mapping(k, w) => {
            let l = Seq::<(Value, Value)>::empty();
            assert(entries_typed(l, *k, *w, l.len()));
            assert(distinct_keys(l));
            assert(well_formed(Value::Mapping(t, Some(l))));
        },
        VarType::Optional(e) => {
            assert(well_formed(Value::Optional(t, Some(None))));
        },
        _ => {},
    }
}

/// A literal is well formed and of the type in which it was read.
pub proof fn lemma_parse_typed(t: VarType, s: Seq<char>, float: Option<FloatModel>)
    requires
        parse_value(t, s, float) is Ok,
    ensures
        typed(parse_value(t, s, float)->Ok_0, t),
    decreases t,
{
    match t {
        VarType::Optional(inner) => {
            if crate::variable::in_brackets(s) {
                lemma_parse_typed(*inner, s.subrange(1, s.len() - 1), float);
            }
        },
        _ => {},
    }
}

/// What a path segment addresses inside a well-formed value is well
/// formed.
pub proof fn lemma_child_well_formed(v: Value, seg: Seq<char>)
    requires
        well_formed(v),
        child(v, seg) is Ok,
    ensures
        well_formed(child(v, seg)->Ok_0),
{
    match v {
        Value::List(VarType::List(e), Some(items)) => {
            lemma_items_typed(items, *e, items.len());
        },
        Value::Mapping(VarType::Mapping(k, w), Some(l)) => {
            lemma_entries_typed(l, *k, *w, l.len());
            let key = parse_value(*k, seg, None)->Ok_0;
            law_key_index(l, key, 0);
        },
        _ => {},
    }
}

/// Writing a well-formed value into a well-formed container leaves the
/// container well formed, and of its type.
pub proof fn lemma_put_well_formed(v: Value, seg: Seq<char>, new: Value)
    requires
        well_formed(v),
        well_formed(new),
        put(v, seg, new) is Ok,
    ensures
        typed(put(v, seg, new)->Ok_0, v.get_type()),
{
    match v {
        Value::List(VarType::List(e), Some(items)) => {
            let i = crate::path::list_index(seg)->0;
            let after = items.update(i, new);
            lemma_items_typed(items, *e, items.len());
            assert forall|j: int| 0 <= j < after.len() implies typed(#[trigger] after[j], *e) by {
                if j != i {
                    assert(typed(items[j], *e));
                } else {
                    assert(typed(items[i], *e));
                }
            }
            lemma_items_typed(after, *e, after.len());
        },
        Value::Mapping(VarType::Mapping(k, w), Some(l)) => {
            lemma_entries_typed(l, *k, *w, l.len());
            let key = parse_value(*k, seg, None)->Ok_0;
            lemma_parse_typed(*k, seg, None);
            law_key_index(l, key, 0);
            match key_index(l, key, 0) {
                Some(j) => {
                    let after = l.update(j as int, (l[j as int].0, new));
                    assert forall|i: int| 0 <= i < after.len() implies typed(
                        (#[trigger] after[i]).0,
                        *k,
                    ) && typed(after[i].1, *w) by {
                        assert(typed(l[i].0, *k) && typed(l[i].1, *w));
                        assert(typed(l[j as int].1, *w));
                    }
                    lemma_entries_typed(after, *k, *w, after.len());
                    assert forall|a: int, b: int| 0 <= a < b < after.len() implies !value_eq(
                        (#[trigger] after[a]).0,
                        (#[trigger] after[b]).0,
                    ) by {
                        assert(!value_eq(l[a].0, l[b].0));
                    }
                },
                None => {
                    let after = l.push((key, new));
                    assert forall|i: int| 0 <= i < after.len() implies typed(
                        (#[trigger] after[i]).0,
                        *k,
                    ) && typed(after[i].1, *w) by {
                        if i < l.len() {
                            assert(typed(l[i].0, *k) && typed(l[i].1, *w));
                        }
                    }
                    lemma_entries_typed(after, *k, *w, after.len());
                    assert forall|a: int, b: int| 0 <= a < b < after.len() implies !value_eq(
                        (#[trigger] after[a]).0,
                        (#[trigger] after[b]).0,
                    ) by {
                        if b < l.len() {
                            assert(!value_eq(l[a].0, l[b].0));
                        } else {
                            assert(!value_eq(l[a].0, key));
                        }
                    }
                },
            }
        },
        _ => {},
    }
}

/// Removing a slot from a well-formed container leaves the container well
/// formed, and of its type.
pub proof fn lemma_take_out_well_formed(v: Value, seg: Seq<char>)
    requires
        well_formed(v),
        take_out(v, seg) is Ok,
    ensures
        typed(take_out(v, seg)->Ok_0, v.get_type()),
{
    match v {
        Value::List(VarType::List(e), Some(items)) => {
            let i = crate::path::list_index(seg)->0;
            let after = items.remove(i);
            lemma_items_typed(items, *e, items.len());
            assert forall|j: int| 0 <= j < after.len() implies typed(#[trigger] after[j], *e) by {
                if j < i {
                    assert(typed(items[j], *e));
                } else {
                    assert(typed(items[j + 1], *e));
                }
            }
            lemma_items_typed(after, *e, after.len());
        },
        Value::Mapping(VarType::Mapping(k, w), Some(l)) => {
            lemma_entries_typed(l, *k, *w, l.len());
            let key = parse_value(*k, seg, None)->Ok_0;
            law_key_index(l, key, 0);
            let j = key_index(l, key, 0)->0 as int;
            let after = l.remove(j);
            assert forall|i: int| 0 <= i < after.len() implies typed(
                (#[trigger] after[i]).0,
                *k,
            ) && typed(after[i].1, *w) by {
                if i < j {
                    assert(typed(l[i].0, *k) && typed(l[i].1, *w));
                } else {
                    assert(typed(l[i + 1].0, *k) && typed(l[i + 1].1, *w));
                }
            }
            lemma_entries_typed(after, *k, *w, after.len());
            assert forall|a: int, b: int| 0 <= a < b < after.len() implies !value_eq(
                (#[trigger] after[a]).0,
                (#[trigger] after[b]).0,
            ) by {
                let a2 = if a < j {
                    a
                } else {
                    a + 1
                };
                let b2 = if b < j {
                    b
                } else {
                    b + 1
                };
                assert(!value_eq(l[a2].0, l[b2].0));
            }
        },
        _ => {},
    }
}

/// What a path addresses inside a well-formed value is well formed.
pub proof fn lemma_resolve_from_well_formed(v: Value, segs: Seq<Seq<char>>, from: nat)
    requires
        well_formed(v),
        resolve_from(v, segs, from) is Ok,
    ensures
        well_formed(resolve_from(v, segs, from)->Ok_0),
    decreases segs.len() - from,
{
    if from < segs.len() {
        lemma_child_well_formed(v, segs[from as int]);
        lemma_resolve_from_well_formed(child(v, segs[from as int])->Ok_0, segs, from + 1);
    }
}

/// Writing a well-formed value through a path into a well-formed container
/// leaves the container well formed, and of its type.
pub proof fn lemma_updated_well_formed(v: Value, segs: Seq<Seq<char>>, from: nat, new: Value)
    requires
        from < segs.len(),
        well_formed(v),
        well_formed(new),
        updated(v, segs, from, new) is Ok,
    ensures
        typed(updated(v, segs, from, new)->Ok_0, v.get_type()),
    decreases segs.len() - from,
{
    if from + 1 >= segs.len() {
        lemma_put_well_formed(v, segs[from as int], new);
    } else {
        let c = child(v, segs[from as int])->Ok_0;
        lemma_child_well_formed(v, segs[from as int]);
        lemma_updated_well_formed(c, segs, from + 1, new);
        lemma_put_well_formed(v, segs[from as int], updated(c, segs, from + 1, new)->Ok_0);
    }
}

/// Removing what a path addresses from a well-formed container leaves the
/// container well formed, and of its type.
pub proof fn lemma_removed_well_formed(v: Value, segs: Seq<Seq<char>>, from: nat)
    requires
        from < segs.len(),
        well_formed(v),
        removed(v, segs, from) is Ok,
    ensures
        typed(removed(v, segs, from)->Ok_0, v.get_type()),
    decreases segs.len() - from,
{
    if from + 1 >= segs.len() {
        lemma_take_out_well_formed(v, segs[from as int]);
    } else {
        let c = child(v, segs[from as int])->Ok_0;
        lemma_child_well_formed(v, segs[from as int]);
        lemma_removed_well_formed(c, segs, from + 1);
        lemma_put_well_formed(v, segs[from as int], removed(c, segs, from + 1)->Ok_0);
    }
}

/// Whether every variable of the table is well formed.
pub open spec fn table_well_formed(t: Table) -> bool {
    forall|k: Seq<char>| t.contains_key(k) ==> well_formed(#[trigger] t[k])
}

/// The value that a path addresses in well-formed tables is well formed.
pub proof fn lemma_resolve_well_formed(globals: Table, locals: Table, path: Seq<char>)
    requires
        table_well_formed(globals),
        table_well_formed(locals),
        resolve(globals, locals, path) is Ok,
    ensures
        well_formed(resolve(globals, locals, path)->Ok_0),
{
    let segs = split(path, '.');
    lemma_split_nonempty(path, '.');
    let root = lookup(globals, locals, segs[0])->0;
    lemma_resolve_from_well_formed(root, segs, 1);
}

/// Assigning or declaring a well-formed value leaves well-formed tables
/// well formed.
pub proof fn lemma_assigned_well_formed(
    globals: Table,
    locals: Table,
    path: Seq<char>,
    value: Value,
    force: bool,
    init: bool,
)
    requires
        table_well_formed(globals),
        table_well_formed(locals),
        well_formed(value),
        assigned(globals, locals, path, value, force, init) is Ok,
    ensures
        table_well_formed(assigned(globals, locals, path, value, force, init)->Ok_0.0),
        table_well_formed(assigned(globals, locals, path, value, force, init)->Ok_0.1),
{
    let segs = split(path, '.');
    lemma_split_nonempty(path, '.');
    if !init && segs.len() > 1 {
        let current = lookup(globals, locals, segs[0])->0;
        lemma_updated_well_formed(current, segs, 1, value);
    }
}

/// Removing a variable leaves well-formed tables well formed.
pub proof fn lemma_dropped_well_formed(globals: Table, locals: Table, path: Seq<char>)
    requires
        table_well_formed(globals),
        table_well_formed(locals),
        dropped(globals, locals, path) is Ok,
    ensures
        table_well_formed(dropped(globals, locals, path)->Ok_0.0),
        table_well_formed(dropped(globals, locals, path)->Ok_0.1),
{
    let segs = split(path, '.');
    lemma_split_nonempty(path, '.');
    let root = segs[0];
    if locals.contains_key(root) {
        if segs.len() > 1 && erased(locals, segs) is Ok {
            lemma_removed_well_formed(locals[root], segs, 1);
        }
    } else if globals.contains_key(root) {
        if segs.len() > 1 && erased(globals, segs) is Ok {
            lemma_removed_well_formed(globals[root], segs, 1);
        }
    }
}

/// A list of characters made from bytes is well formed.
pub proof fn lemma_char_list_well_formed(bytes: Seq<u8>)
    ensures
        typed(char_list(bytes), char_list_type()),
{
    let l = char_values(bytes);
    assert forall|i: int| 0 <= i < l.len() implies typed(#[trigger] l[i], VarType::Char) by {}
    lemma_items_typed(l, VarType::Char, l.len());
}

/// Whether every value of the sequence is well formed.
pub open spec fn all_well_formed(v: Seq<Value>) -> bool {
    forall|i: int| 0 <= i < v.len() ==> well_formed(#[trigger] v[i])
}

/// What an instruction computes from well-formed operands is well formed.
pub proof fn lemma_apply_well_formed(kind: CommandType, v: Seq<Value>)
    requires
        signature(kind) matches Some((n, _)) && v.len() == n,
        all_well_formed(v),
    ensures
        apply(kind, v) matches Ok(AppliedModel::Value(x)) ==> well_formed(x),
{
    assert(well_formed(v[0]));
    match kind {
        CommandType::ToChars => {
            if v[0].as_text() is Ok {
                lemma_char_list_well_formed(crate::ops::text_bytes(v[0].as_text()->Ok_0));
            }
        },
        CommandType::GetItem => {
            match v[0] {
                Value::List(VarType::List(e), Some(items)) => {
                    lemma_items_typed(items, *e, items.len());
                },
                _ => {},
            }
        },
        CommandType::GetValue => {
            assert(well_formed(v[1]));
            match v[0] {
                Value::Mapping(VarType::Mapping(k, w), Some(l)) => {
                    lemma_entries_typed(l, *k, *w, l.len());
                    law_key_index(l, v[1], 0);
                },
                _ => {},
            }
        },
        CommandType::SubList => {
            match v[0] {
                Value::List(VarType::List(e), Some(items)) => {
                    lemma_items_typed(items, *e, items.len());
                    let r = crate::ops::sub_list(v[0], v[1], v[2]);
                    if r is Ok {
                        let part = r->Ok_0->List_1->0;
                        assert forall|i: int| 0 <= i < part.len() implies typed(
                            #[trigger] part[i],
                            *e,
                        ) by {
                            let a = v[1]->Integer_1->0 as int;
                            assert(part[i] == items[a + i]);
                            assert(typed(items[a + i], *e));
                        }
                        lemma_items_typed(part, *e, part.len());
                    }
                },
                _ => {},
            }
        },
        _ => {},
    }
}

/// Whether the variables of a state are well formed.
pub open spec fn state_well_formed(st: State) -> bool {
    table_well_formed(st.globals) && table_well_formed(st.locals)
}

/// The value of a variable of a well-formed state is well formed.
pub proof fn lemma_fetch_well_formed(st: State, name: Seq<char>)
    requires
        state_well_formed(st),
        fetch(st, name) is Ok,
    ensures
        well_formed(fetch(st, name)->Ok_0),
{
    lemma_resolve_well_formed(st.globals, st.locals, name);
}

/// Writing a well-formed value leaves a well-formed state well formed.
pub proof fn lemma_store_well_formed(st: State, name: Seq<char>, value: Value, global: bool, init: bool)
    requires
        state_well_formed(st),
        well_formed(value),
    ensures
        state_well_formed(store(st, name, value, global, init).0),
{
    if assigned(st.globals, st.locals, name, value, global, init) is Ok {
        lemma_assigned_well_formed(st.globals, st.locals, name, value, global, init);
    }
}

/// Removing a variable leaves a well-formed state well formed.
pub proof fn lemma_forget_well_formed(st: State, name: Seq<char>)
    requires
        state_well_formed(st),
    ensures
        state_well_formed(forget(st, name).0),
{
    if dropped(st.globals, st.locals, name) is Ok {
        lemma_dropped_well_formed(st.globals, st.locals, name);
    }
}

/// The operands that an instruction reads from a well-formed state are
/// well formed.
pub proof fn lemma_operands_well_formed(st: State, names: Seq<Seq<char>>, n: nat)
    requires
        state_well_formed(st),
        n <= names.len(),
        operands(st, names, n) is Ok,
    ensures
        operands(st, names, n)->Ok_0.len() == n,
        all_well_formed(operands(st, names, n)->Ok_0),
    decreases n,
{
    if n > 0 {
        lemma_operands_well_formed(st, names, (n - 1) as nat);
        lemma_fetch_well_formed(st, names[n - 1]);
        let before = operands(st, names, (n - 1) as nat)->Ok_0;
        let after = operands(st, names, n)->Ok_0;
        assert forall|i: int| 0 <= i < after.len() implies well_formed(#[trigger] after[i]) by {
            if i < n - 1 {
                assert(after[i] == before[i]);
            }
        }
    }
}

proof fn lemma_read_operand_well_formed(st: State, cmd: CommandModel, pos: nat)
    requires
        state_well_formed(st),
        crate::engine::read_operand(st, cmd, pos) is Ok,
    ensures
        well_formed(crate::engine::read_operand(st, cmd, pos)->Ok_0),
{
    lemma_fetch_well_formed(st, cmd.args[pos as int]);
}

proof fn lemma_gathered_forwards_well_formed(st: State, cmd: CommandModel, n: nat)
    requires
        state_well_formed(st),
        n <= cmd.args.len(),
        crate::engine::gathered_forwards(st, cmd, n) is Ok,
    ensures
        crate::engine::gathered_forwards(st, cmd, n)->Ok_0.len() == n,
        all_well_formed(crate::engine::gathered_forwards(st, cmd, n)->Ok_0),
    decreases n,
{
    if n > 0 {
        lemma_gathered_forwards_well_formed(st, cmd, (n - 1) as nat);
        lemma_read_operand_well_formed(st, cmd, (n - 1) as nat);
        let before = crate::engine::gathered_forwards(st, cmd, (n - 1) as nat)->Ok_0;
        let after = crate::engine::gathered_forwards(st, cmd, n)->Ok_0;
        assert forall|i: int| 0 <= i < after.len() implies well_formed(#[trigger] after[i]) by {
            if i < n - 1 {
                assert(after[i] == before[i]);
            }
        }
    }
}

/// The operands that an instruction gathers from a well-formed state are
/// well formed, and as many as its signature asks for.
pub proof fn lemma_gathered_well_formed(st: State, cmd: CommandModel, n: nat)
    requires
        state_well_formed(st),
        n <= cmd.args.len(),
        signature(cmd.command_type) matches Some((k, _)) && k == n,
        crate::engine::gathered(st, cmd, n) is Ok,
    ensures
        crate::engine::gathered(st, cmd, n)->Ok_0.len() == n,
        all_well_formed(crate::engine::gathered(st, cmd, n)->Ok_0),
{
    if crate::engine::reads_backwards(cmd.command_type) {
        lemma_read_operand_well_formed(st, cmd, 0);
        lemma_read_operand_well_formed(st, cmd, 1);
    } else {
        lemma_gathered_forwards_well_formed(st, cmd, n);
    }
}

proof fn lemma_store_bytes_well_formed(st: State, name: Seq<char>, bytes: Seq<u8>, global: bool)
    requires
        state_well_formed(st),
    ensures
        state_well_formed(store_bytes(st, name, bytes, global).0),
{
    lemma_char_list_well_formed(bytes);
    lemma_store_well_formed(st, name, char_list(bytes), global, false);
    if crate::variable::bytes_text(bytes) is Ok {
        lemma_store_well_formed(
            st,
            name,
            crate::ops::text_value(crate::variable::bytes_text(bytes)->Ok_0),
            global,
            false,
        );
    }
}

proof fn lemma_store_literal_well_formed(
    st: State,
    name: Seq<char>,
    t: VarType,
    text: Seq<char>,
    float: Option<FloatModel>,
    global: bool,
    init: bool,
)
    requires
        state_well_formed(st),
    ensures
        state_well_formed(store_literal(st, name, t, text, float, global, init).0),
{
    if parse_value(t, text, float) is Ok {
        lemma_parse_typed(t, text, float);
        lemma_store_well_formed(st, name, parse_value(t, text, float)->Ok_0, global, init);
    }
}

proof fn lemma_read_stream_well_formed(
    st: State,
    name: Seq<char>,
    h: usize,
    size: Option<usize>,
    global: bool,
)
    requires
        state_well_formed(st),
    ensures
        state_well_formed(crate::engine::read_stream(st, name, h, size, global).0),
{
    if h < st.inputs.len() && st.inputs[h as int] is Some {
        let left = st.inputs[h as int]->0;
        let n = match size {
            Some(n) => n as int,
            None => left.len() as int,
        };
        let s2 = State { inputs: st.inputs.update(h as int, Some(left.skip(n))), ..st };
        lemma_store_bytes_well_formed(s2, name, left.take(n), global);
    }
}

/// Whether the values that the calls of a control-flow instruction will
/// pass are well formed.
pub open spec fn loop_well_formed(l: LoopModel) -> bool {
    match l {
        LoopModel::Once { args, .. } => all_well_formed(args),
        LoopModel::Items { items, .. } => all_well_formed(items),
        LoopModel::Entries { entries, .. } => forall|i: int|
            0 <= i < entries.len() ==> well_formed((#[trigger] entries[i]).0) && well_formed(
                entries[i].1,
            ),
        _ => true,
    }
}

/// Whether the values that an outcome carries are well formed.
pub open spec fn outcome_well_formed(r: Result<OutcomeModel, ScriptError>) -> bool {
    match r {
        Ok(OutcomeModel::Loop(l)) => loop_well_formed(l),
        _ => true,
    }
}

proof fn lemma_computed_well_formed(cmd: CommandModel, global: bool, st: State, n: nat, t: nat)
    requires
        state_well_formed(st),
        signature(cmd.command_type) == Some((n, t)),
    ensures
        state_well_formed(crate::engine::computed(cmd, global, st, n, t).0),
{
    if cmd.args.len() >= n && cmd.args.len() > t {
        let v = crate::engine::gathered(st, cmd, n);
        if v is Ok {
            lemma_gathered_well_formed(st, cmd, n);
            lemma_apply_well_formed(cmd.command_type, v->Ok_0);
            match apply(cmd.command_type, v->Ok_0) {
                Ok(AppliedModel::Value(x)) => {
                    lemma_store_well_formed(st, cmd.args[t as int], x, global, false);
                },
                _ => {},
            }
        }
    }
}

proof fn lemma_move_var_well_formed(cmd: CommandModel, global: bool, st: State)
    requires
        state_well_formed(st),
    ensures
        state_well_formed(crate::engine::move_var(cmd, global, st).0),
{
    if cmd.args.len() >= 2 && fetch(st, cmd.args[0]) is Ok {
        let v = fetch(st, cmd.args[0])->Ok_0;
        lemma_fetch_well_formed(st, cmd.args[0]);
        lemma_store_well_formed(st, cmd.args[1], v, global, false);
        lemma_forget_well_formed(store(st, cmd.args[1], v, global, false).0, cmd.args[0]);
    }
}

proof fn lemma_loops_well_formed(cmd: CommandModel, fs: Seq<FunctionModel>, st: State)
    requires
        state_well_formed(st),
    ensures
        outcome_well_formed(crate::engine::use_func(cmd, fs, st).1),
        outcome_well_formed(crate::engine::for_items(cmd, fs, st).1),
        outcome_well_formed(crate::engine::for_map(cmd, fs, st).1),
        outcome_well_formed(crate::engine::if_call(cmd, fs, st).1),
{
    if cmd.args.len() >= 2 {
        let names = cmd.args.skip(2);
        if operands(st, names, names.len()) is Ok {
            lemma_operands_well_formed(st, names, names.len());
        }
        if fetch(st, cmd.args[1]) is Ok {
            lemma_fetch_well_formed(st, cmd.args[1]);
            let v = fetch(st, cmd.args[1])->Ok_0;
            match v {
                Value::List(VarType::List(e), Some(items)) => {
                    lemma_items_typed(items, *e, items.len());
                },
                Value::Mapping(VarType::Mapping(k, w), Some(l)) => {
                    lemma_entries_typed(l, *k, *w, l.len());
                },
                Value::Text(_, Some(s)) => {
                    lemma_char_list_well_formed(crate::ops::text_bytes(s));
                    let l = char_values(crate::ops::text_bytes(s));
                    lemma_items_typed(l, VarType::Char, l.len());
                },
                _ => {},
            }
        }
    }
}

/// Every instruction leaves a well-formed state well formed, and the values
/// that it hands on to calls are well formed.
pub proof fn law_effect_keeps_well_formed(
    cmd: CommandModel,
    fs: Seq<FunctionModel>,
    global: bool,
    st: State,
    drawn: isize,
)
    requires
        state_well_formed(st),
    ensures
        state_well_formed(effect(cmd, fs, global, st, drawn).0),
        outcome_well_formed(effect(cmd, fs, global, st, drawn).1),
{
    match signature(cmd.command_type) {
        Some((n, t)) => {
            lemma_computed_well_formed(cmd, global, st, n, t);
        },
        None => match cmd.command_type {
            CommandType::InitVar => {
                if cmd.args.len() >= 2 && crate::var_type::parse_type(cmd.args[0]) is Some {
                    let t = crate::var_type::parse_type(cmd.args[0])->0;
                    lemma_empty_typed(t);
                    lemma_store_well_formed(st, cmd.args[1], Value::empty(t), global, true);
                }
            },
            CommandType::SetVar => {
                if cmd.args.len() >= 1 && fetch(st, cmd.args[0]) is Ok {
                    lemma_store_literal_well_formed(
                        st,
                        cmd.args[0],
                        fetch(st, cmd.args[0])->Ok_0.get_type(),
                        crate::text::join(cmd.args.skip(1), " "@),
                        None,
                        global,
                        false,
                    );
                }
            },
            CommandType::TempVar => {
                if cmd.args.len() >= 2 && crate::var_type::parse_type(cmd.args[0]) is Some {
                    lemma_store_literal_well_formed(
                        st,
                        cmd.args[1],
                        crate::var_type::parse_type(cmd.args[0])->0,
                        crate::text::join(cmd.args.skip(2), " "@),
                        None,
                        global,
                        true,
                    );
                }
            },
            CommandType::MoveVar => {
                lemma_move_var_well_formed(cmd, global, st);
            },
            CommandType::DropVar => {
                if cmd.args.len() >= 1 {
                    lemma_forget_well_formed(st, cmd.args[0]);
                }
            },
            CommandType::HasVar => {
                if cmd.args.len() >= 2 {
                    lemma_store_well_formed(
                        st,
                        cmd.args[1],
                        crate::ops::bool_value(fetch(st, cmd.args[0]) is Ok),
                        global,
                        false,
                    );
                }
            },
            CommandType::Read => {
                if cmd.args.len() >= 3 {
                    assert forall|h: usize, n: Option<usize>|
                        state_well_formed(
                            (#[trigger] crate::engine::read_stream(st, cmd.args[0], h, n, global)).0,
                        ) by {
                        lemma_read_stream_well_formed(st, cmd.args[0], h, n, global);
                    }
                }
            },
            CommandType::ReadAll => {
                if cmd.args.len() >= 2 {
                    assert forall|h: usize, n: Option<usize>|
                        state_well_formed(
                            (#[trigger] crate::engine::read_stream(st, cmd.args[0], h, n, global)).0,
                        ) by {
                        lemma_read_stream_well_formed(st, cmd.args[0], h, n, global);
                    }
                }
            },
            CommandType::While => {
                lemma_store_well_formed(
                    st,
                    "while"@,
                    crate::ops::bool_value(true),
                    global,
                    !crate::engine::known(st, "while"@),
                );
            },
            CommandType::Random => {
                if cmd.args.len() >= 3 {
                    lemma_store_well_formed(
                        st,
                        cmd.args[2],
                        crate::ops::int_value(drawn),
                        global,
                        false,
                    );
                }
            },
            CommandType::UseFunc => {
                lemma_loops_well_formed(cmd, fs, st);
            },
            CommandType::ForList => {
                lemma_loops_well_formed(cmd, fs, st);
            },
            CommandType::ForString => {
                lemma_loops_well_formed(cmd, fs, st);
            },
            CommandType::ForMap => {
                lemma_loops_well_formed(cmd, fs, st);
            },
            CommandType::If => {
                lemma_loops_well_formed(cmd, fs, st);
            },
            _ => {},
        },
    }
}

/// An instruction that takes up the host's report leaves a well-formed
/// state well formed.
pub proof fn law_resumed_keeps_well_formed(
    pending: PendingModel,
    event: EventModel,
    global: bool,
    st: State,
)
    requires
        state_well_formed(st),
    ensures
        state_well_formed(resumed(pending, event, global, st).0),
{
    match pending {
        PendingModel::StoreBytes { name } => {
            match event {
                EventModel::Bytes(b) => {
                    lemma_store_bytes_well_formed(st, name, b, global);
                },
                _ => {},
            }
        },
        PendingModel::OpenIn { name } => {
            lemma_store_well_formed(
                st,
                name,
                Value::InStream(VarType::InStream, Some(st.inputs.len() as usize)),
                global,
                false,
            );
        },
        PendingModel::OpenOut { name, path } => {
            lemma_store_well_formed(
                st,
                name,
                Value::OutStream(VarType::OutStream, Some(st.outputs.len() as usize)),
                global,
                false,
            );
        },
        PendingModel::Assign { name } => {
            match event {
                EventModel::Float(f) => {
                    lemma_store_well_formed(
                        st,
                        name,
                        Value::Float(VarType::Float, Some(f)),
                        global,
                        false,
                    );
                },
                EventModel::Flag(b) => {
                    lemma_store_well_formed(st, name, crate::ops::bool_value(b), global, false);
                },
                _ => {},
            }
        },
        PendingModel::Literal { name, var_type, text, init } => {
            lemma_store_literal_well_formed(
                st,
                name,
                var_type,
                text,
                match event {
                    EventModel::Float(f) => Some(f),
                    _ => None,
                },
                global,
                init,
            );
        },
        _ => {},
    }
}

/// Whether the local variables of a call, and the values that its
/// control-flow instruction in progress will pass, are well formed.
pub open spec fn frame_well_formed(f: FrameModel) -> bool {
    table_well_formed(f.locals) && match f.running {
        Some(r) => loop_well_formed(r.calls),
        None => true,
    }
}

/// Whether every call of the stack is well formed.
pub open spec fn frames_well_formed(frames: Seq<FrameModel>) -> bool {
    forall|i: int| 0 <= i < frames.len() ==> frame_well_formed(#[trigger] frames[i])
}

/// Whether the global variables and every call of the task are well
/// formed.
pub open spec fn task_well_formed(t: TaskModel, w: World) -> bool {
    table_well_formed(w.globals) && frames_well_formed(t.frames)
}

proof fn lemma_swept_well_formed(st: State, n: nat)
    requires
        state_well_formed(st),
    ensures
        state_well_formed(swept(st, n)),
    decreases n,
{
    if n > 0 && n <= st.temps.len() {
        lemma_swept_well_formed(st, (n - 1) as nat);
        lemma_forget_well_formed(swept(st, (n - 1) as nat), st.temps[n - 1]);
    }
}

proof fn lemma_swept_but_well_formed(st: State, n: nat, keep: Seq<char>)
    requires
        state_well_formed(st),
    ensures
        state_well_formed(crate::task::swept_but(st, n, keep)),
    decreases n,
{
    if n > 0 && n <= st.temps.len() {
        lemma_swept_but_well_formed(st, (n - 1) as nat, keep);
        lemma_forget_well_formed(crate::task::swept_but(st, (n - 1) as nat, keep), st.temps[n - 1]);
    }
}

proof fn lemma_completed_well_formed(f: FrameModel, st: State, kind: CommandType)
    requires
        state_well_formed(st),
    ensures
        frame_well_formed(completed(f, st, kind).0),
        table_well_formed(completed(f, st, kind).1.globals),
        table_well_formed(abandoned(st).globals),
{
    lemma_swept_well_formed(st, st.temps.len());
    if st.temps.len() > 0 {
        lemma_swept_but_well_formed(st, (st.temps.len() - 1) as nat, st.temps.last());
    }
}

proof fn lemma_bound_well_formed(params: Seq<(Seq<char>, VarType)>, args: Seq<Value>, n: nat)
    requires
        all_well_formed(args),
    ensures
        table_well_formed(bound(params, args, n)),
    decreases n,
{
    if n > 0 && n <= params.len() && n <= args.len() {
        lemma_bound_well_formed(params, args, (n - 1) as nat);
        assert(well_formed(args[n - 1]));
    }
}

proof fn lemma_entered_well_formed(
    f: FunctionModel,
    result_var: Seq<char>,
    args: Seq<Value>,
    is_global: bool,
)
    requires
        all_well_formed(args),
    ensures
        frame_well_formed(entered(f, result_var, args, is_global)),
{
    lemma_bound_well_formed(f.parameters, args, f.parameters.len());
    lemma_empty_typed(f.result_type);
}

proof fn lemma_advance_well_formed(l: LoopModel, st: State)
    requires
        loop_well_formed(l),
    ensures
        match advance(l, st) {
            Ok(AdvanceModel::Call { call, rest }) => all_well_formed(call.args)
                && loop_well_formed(rest),
            _ => true,
        },
{
    match l {
        LoopModel::Items { function, items, next } => {
            if next < items.len() {
                assert(well_formed(items[next as int]));
            }
        },
        LoopModel::Entries { function, entries, next } => {
            if next < entries.len() {
                assert(well_formed(entries[next as int].0) && well_formed(entries[next as int].1));
            }
        },
        _ => {},
    }
}

proof fn lemma_push_well_formed(frames: Seq<FrameModel>, f: FrameModel)
    requires
        frames_well_formed(frames),
        frame_well_formed(f),
    ensures
        frames_well_formed(frames.push(f)),
{
    assert forall|i: int| 0 <= i < frames.push(f).len() implies frame_well_formed(
        #[trigger] frames.push(f)[i],
    ) by {
        if i < frames.len() {
            assert(frame_well_formed(frames[i]));
        }
    }
}

proof fn lemma_drop_last_well_formed(frames: Seq<FrameModel>)
    requires
        frames_well_formed(frames),
        frames.len() > 0,
    ensures
        frames_well_formed(frames.drop_last()),
        frame_well_formed(frames.last()),
{
    assert forall|i: int| 0 <= i < frames.drop_last().len() implies frame_well_formed(
        #[trigger] frames.drop_last()[i],
    ) by {
        assert(frame_well_formed(frames[i]));
    }
}

proof fn lemma_returned_well_formed(
    below: Seq<FrameModel>,
    top: FrameModel,
    w: World,
    hand_on: bool,
)
    requires
        frames_well_formed(below),
        frame_well_formed(top),
        table_well_formed(w.globals),
    ensures
        task_well_formed(returned(below, top, w, hand_on).0, returned(below, top, w, hand_on).1),
{
    if below.len() > 0 {
        let caller = below.last();
        lemma_drop_last_well_formed(below);
        let st = state_in(w, caller);
        lemma_completed_well_formed(caller, st, CommandType::Return);
        if hand_on && top.result_var != "null"@ && top.locals.contains_key("result"@) {
            let value = top.locals["result"@];
            assert(well_formed(value));
            let init = !crate::engine::known(st, top.result_var);
            lemma_store_well_formed(st, top.result_var, value, caller.is_global, init);
            let st2 = store(st, top.result_var, value, caller.is_global, init).0;
            lemma_completed_well_formed(caller, st2, CommandType::Return);
            lemma_push_well_formed(below.drop_last(), frame_after(caller, st2));
        }
    }
}

/// Every step of a task leaves the global variables and the calls of the
/// task well formed.
pub proof fn law_step_keeps_well_formed(
    t: TaskModel,
    w: World,
    fs: Seq<FunctionModel>,
    event: EventModel,
    drawn: isize,
)
    requires
        task_well_formed(t, w),
    ensures
        task_well_formed(stepped(t, w, fs, event, drawn).0, stepped(t, w, fs, event, drawn).1),
{
    if t.frames.len() > 0 {
        let top = t.frames.last();
        let below = t.frames.drop_last();
        lemma_drop_last_well_formed(t.frames);
        let st = state_in(w, top);
        match t.waiting {
            Some(wait) => {
                law_resumed_keeps_well_formed(wait.pending, event, top.is_global, st);
                let st2 = resumed(wait.pending, event, top.is_global, st).0;
                lemma_completed_well_formed(top, st2, wait.command.command_type);
                lemma_push_well_formed(below, completed(top, st2, wait.command.command_type).0);
            },
            None => match top.running {
                Some(run) => {
                    lemma_advance_well_formed(run.calls, st);
                    lemma_completed_well_formed(top, st, run.command.command_type);
                    lemma_push_well_formed(below, completed(top, st, run.command.command_type).0);
                    match advance(run.calls, st) {
                        Ok(AdvanceModel::Call { call, rest }) => {
                            let waiting = FrameModel {
                                running: Some(RunningModel { command: run.command, calls: rest }),
                                ..top
                            };
                            lemma_entered_well_formed(
                                call.function,
                                call.result_var,
                                call.args,
                                false,
                            );
                            lemma_push_well_formed(below, waiting);
                            lemma_push_well_formed(
                                below.push(waiting),
                                entered(call.function, call.result_var, call.args, false),
                            );
                        },
                        _ => {},
                    }
                },
                None => {
                    if top.pc >= top.commands.len() {
                        lemma_returned_well_formed(below, top, w, true);
                    } else {
                        let cmd = top.commands[top.pc as int];
                        law_effect_keeps_well_formed(cmd, fs, top.is_global, st, drawn);
                        let (st2, r) = effect(cmd, fs, top.is_global, st, drawn);
                        let top2 = frame_after(top, st2);
                        lemma_completed_well_formed(top, st2, cmd.command_type);
                        lemma_push_well_formed(below, completed(top, st2, cmd.command_type).0);
                        lemma_returned_well_formed(below, top2, world_after(st2), false);
                        lemma_push_well_formed(below, top2);
                        match r {
                            Ok(OutcomeModel::Loop(l)) => {
                                lemma_push_well_formed(
                                    below,
                                    FrameModel {
                                        running: Some(RunningModel { command: cmd, calls: l }),
                                        ..top2
                                    },
                                );
                            },
                            _ => {},
                        }
                    }
                },
            },
        }
    }
}

/// A list of well-formed items of the list's item type is well formed.
pub proof fn law_list_well_formed(e: VarType, items: Seq<Value>)
    requires
        forall|i: int| 0 <= i < items.len() ==> typed(#[trigger] items[i], e),
    ensures
        well_formed(Value::List(VarType::List(Box::new(e)), Some(items))),
{
    lemma_items_typed(items, e, items.len());
}

/// A mapping of well-formed entries of its key and value types, no two
/// with equal keys, is well formed.
pub proof fn law_mapping_well_formed(k: VarType, w: VarType, l: Seq<(Value, Value)>)
    requires
        forall|i: int| 0 <= i < l.len() ==> typed((#[trigger] l[i]).0, k) && typed(l[i].1, w),
        distinct_keys(l),
    ensures
        well_formed(Value::Mapping(VarType::Mapping(Box::new(k), Box::new(w)), Some(l))),
{
    lemma_entries_typed(l, k, w, l.len());
}

/// The list of the arguments of a script is well formed.
pub proof fn law_arguments_well_formed(args: Seq<Seq<char>>)
    ensures
        well_formed(string_list(args)),
{
    let items = Seq::new(args.len(), |i: int| Value::Text(VarType::String, Some(args[i])));
    assert forall|i: int| 0 <= i < items.len() implies typed(#[trigger] items[i], VarType::String) by {}
    law_list_well_formed(VarType::String, items);
}

/// A task that starts a call with well-formed arguments on well-formed
/// global variables is well formed.
pub proof fn law_start_well_formed(
    f: FunctionModel,
    result_var: Seq<char>,
    args: Seq<Value>,
    is_global: bool,
    w: World,
)
    requires
        all_well_formed(args),
        table_well_formed(w.globals),
    ensures
        task_well_formed(
            TaskModel { frames: seq![entered(f, result_var, args, is_global)], waiting: None },
            w,
        ),
{
    lemma_entered_well_formed(f, result_var, args, is_global);
}

/// One more entry leaves distinct keys distinct.
pub proof fn lemma_with_entry_distinct(l: Seq<(Value, Value)>, k: Value, v: Value)
    requires
        distinct_keys(l),
    ensures
        distinct_keys(with_entry(l, k, v)),
{
    law_key_index(l, k, 0);
    let after = with_entry(l, k, v);
    assert forall|a: int, b: int| 0 <= a < b < after.len() implies !value_eq(
        (#[trigger] after[a]).0,
        (#[trigger] after[b]).0,
    ) by {
        if b < l.len() {
            assert(!value_eq(l[a].0, l[b].0));
        } else {
            assert(!value_eq(l[a].0, k));
        }
    }
}

/// No two entries of a folded mapping have equal keys.
pub proof fn law_folded_distinct(l: Seq<(Value, Value)>, n: nat)
    ensures
        distinct_keys(folded(l, n)),
    decreases n,
{
    if n > 0 && n <= l.len() {
        law_folded_distinct(l, (n - 1) as nat);
        lemma_with_entry_distinct(folded(l, (n - 1) as nat), l[n - 1].0, l[n - 1].1);
    }
}

/// Entries without equal keys are a mapping as they stand: folding them
/// changes nothing.
pub proof fn law_folded_same(l: Seq<(Value, Value)>, n: nat)
    requires
        distinct_keys(l),
        n <= l.len(),
    ensures
        folded(l, n) == l.take(n as int),
    decreases n,
{
    if n > 0 {
        law_folded_same(l, (n - 1) as nat);
        let before = l.take(n - 1);
        law_key_index(before, l[n - 1].0, 0);
        assert forall|i: int| 0 <= i < before.len() implies !value_eq(
            (#[trigger] before[i]).0,
            l[n - 1].0,
        ) by {
            assert(before[i] == l[i]);
            assert(!value_eq(l[i].0, l[n - 1].0));
        }
        assert(before.push(l[n - 1]) =~= l.take(n as int));
    } else {
        assert(l.take(0) =~= Seq::<(Value, Value)>::empty());
    }
}

} // verus!
