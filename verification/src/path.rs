//! Addressing inside containers: one step of a dotted path into a list or a
//! mapping, and the reads, writes and removals that a whole path makes.

use vstd::prelude::*;
use crate::error::ScriptError;
use crate::text::{parse_usize, unsigned_number, within};
use crate::var_type::VarType;
use crate::variable::{
    entries, lemma_view_list, lemma_view_mapping, parse_value, type_equals, value_eq, values,
    Value, Variable,
};

verus! {

/// The list index that a path segment writes.
pub open spec fn list_index(seg: Seq<char>) -> Option<int> {
    within(unsigned_number(seg), 0, usize::MAX as int)
}

/// The position of the first entry from `from` on whose key equals `key`.
pub open spec fn key_index(l: Seq<(Value, Value)>, key: Value, from: nat) -> Option<nat>
    decreases l.len() - from,
{
    if from >= l.len() {
        None
    } else if value_eq(l[from as int].0, key) {
        Some(from)
    } else {
        key_index(l, key, from + 1)
    }
}

/// The entries with one more: the value replaces that of the first entry
/// with an equal key, or key and value are added after the other entries.
pub open spec fn with_entry(l: Seq<(Value, Value)>, k: Value, v: Value) -> Seq<(Value, Value)> {
    match key_index(l, k, 0) {
        Some(j) => l.update(j as int, (l[j as int].0, v)),
        None => l.push((k, v)),
    }
}

/// The first `n` entries of `l` folded into a mapping: of entries with
/// equal keys, the first keeps its place and its key and takes the value
/// of the last.
pub open spec fn folded(l: Seq<(Value, Value)>, n: nat) -> Seq<(Value, Value)>
    decreases n,
{
    if n == 0 || n > l.len() {
        Seq::empty()
    } else {
        with_entry(folded(l, (n - 1) as nat), l[n - 1].0, l[n - 1].1)
    }
}

/// What a path segment addresses inside `v`: the item of a list at the index
/// that the segment writes, or the value of a mapping under the key that the
/// segment writes in the mapping's key type.
///
/// A value that is no initialised container is a type mismatch; an index
/// past the end and a key that the mapping lacks are unknown variables.
pub open spec fn child(v: Value, seg: Seq<char>) -> Result<Value, ScriptError> {
    match v {
        Value::List(_, Some(items)) => match list_index(seg) {
            None => Err(ScriptError::ParseVarError),
            Some(i) => if i < items.len() {
                Ok(items[i])
            } else {
                Err(ScriptError::UnknownVarError)
            },
        },
        Value::Mapping(VarType::Mapping(k, _), Some(l)) => match parse_value(*k, seg, None) {
            Err(e) => Err(e),
            Ok(key) => match key_index(l, key, 0) {
                Some(j) => Ok(l[j as int].1),
                None => Err(ScriptError::UnknownVarError),
            },
        },
        _ => Err(ScriptError::TypeMismatchError),
    }
}

/// The container `v` with `new` in the slot that the segment addresses: an
/// existing list item is replaced, a mapping's value is replaced or, under a
/// new key, added after the other entries.
///
/// The new value must have the descriptor of the value that it replaces, or
/// the mapping's value type where it replaces none.
pub open spec fn put(v: Value, seg: Seq<char>, new: Value) -> Result<Value, ScriptError> {
    match v {
        Value::List(t, Some(items)) => match list_index(seg) {
            None => Err(ScriptError::ParseVarError),
            Some(i) => if i < items.len() {
                if items[i].get_type() == new.get_type() {
                    Ok(Value::List(t, Some(items.update(i, new))))
                } else {
                    Err(ScriptError::TypeMismatchError)
                }
            } else {
                Err(ScriptError::UnknownVarError)
            },
        },
        Value::Mapping(VarType::Mapping(k, w), Some(l)) => match parse_value(*k, seg, None) {
            Err(e) => Err(e),
            Ok(key) => match key_index(l, key, 0) {
                Some(j) => if l[j as int].1.get_type() == new.get_type() {
                    Ok(
                        Value::Mapping(
                            VarType::Mapping(k, w),
                            Some(l.update(j as int, (l[j as int].0, new))),
                        ),
                    )
                } else {
                    Err(ScriptError::TypeMismatchError)
                },
                None => if new.get_type() == *w {
                    Ok(Value::Mapping(VarType::Mapping(k, w), Some(l.push((key, new)))))
                } else {
                    Err(ScriptError::TypeMismatchError)
                },
            },
        },
        _ => Err(ScriptError::TypeMismatchError),
    }
}

/// The container `v` without the slot that the segment addresses.
pub open spec fn take_out(v: Value, seg: Seq<char>) -> Result<Value, ScriptError> {
    match v {
        Value::List(t, Some(items)) => match list_index(seg) {
            None => Err(ScriptError::ParseVarError),
            Some(i) => if i < items.len() {
                Ok(Value::List(t, Some(items.remove(i))))
            } else {
                Err(ScriptError::UnknownVarError)
            },
        },
        Value::Mapping(VarType::Mapping(k, w), Some(l)) => match parse_value(*k, seg, None) {
            Err(e) => Err(e),
            Ok(key) => match key_index(l, key, 0) {
                Some(j) => Ok(Value::Mapping(VarType::Mapping(k, w), Some(l.remove(j as int)))),
                None => Err(ScriptError::UnknownVarError),
            },
        },
        _ => Err(ScriptError::TypeMismatchError),
    }
}

/// What the segments of `segs` from `from` on address, starting inside `v`.
pub open spec fn resolve_from(v: Value, segs: Seq<Seq<char>>, from: nat) -> Result<
    Value,
    ScriptError,
>
    decreases segs.len() - from,
{
    if from >= segs.len() {
        Ok(v)
    } else {
        match child(v, segs[from as int]) {
            Ok(c) => resolve_from(c, segs, from + 1),
            Err(e) => Err(e),
        }
    }
}

/// The container `v` after `new` was written to the slot that the segments
/// of `segs` from `from` on address.
pub open spec fn updated(v: Value, segs: Seq<Seq<char>>, from: nat, new: Value) -> Result<
    Value,
    ScriptError,
>
    decreases segs.len() - from,
{
    if from + 1 >= segs.len() {
        if from < segs.len() {
            put(v, segs[from as int], new)
        } else {
            Ok(new)
        }
    } else {
        match child(v, segs[from as int]) {
            Ok(c) => match updated(c, segs, from + 1, new) {
                Ok(c2) => put(v, segs[from as int], c2),
                Err(e) => Err(e),
            },
            Err(e) => Err(e),
        }
    }
}

/// The container `v` after the slot that the segments of `segs` from `from`
/// on address was removed.
pub open spec fn removed(v: Value, segs: Seq<Seq<char>>, from: nat) -> Result<Value, ScriptError>
    decreases segs.len() - from,
{
    if from + 1 >= segs.len() {
        if from < segs.len() {
            take_out(v, segs[from as int])
        } else {
            Ok(v)
        }
    } else {
        match child(v, segs[from as int]) {
            Ok(c) => match removed(c, segs, from + 1) {
                Ok(c2) => put(v, segs[from as int], c2),
                Err(e) => Err(e),
            },
            Err(e) => Err(e),
        }
    }
}

/// The position of the first entry whose key equals `key`.
pub fn find_key(l: &Vec<(Variable, Variable)>, key: &Variable) -> (r: Option<usize>)
    ensures
        match r {
            Some(j) => key_index(entries(l@), key@, 0) == Some(j as nat) && j < l.len(),
            None => key_index(entries(l@), key@, 0) is None,
        },
{
    let mut i: usize = 0;
    while i < l.len()
        invariant
            0 <= i <= l.len(),
            key_index(entries(l@), key@, 0) == key_index(entries(l@), key@, i as nat),
        decreases l.len() - i,
    {
        if l[i].0.equals(key) {
            return Some(i);
        }
        i += 1;
    }
    None
}

/// The key of a mapping that a path segment writes.
fn segment_key(t: &VarType, seg: &str) -> (r: Result<Variable, ScriptError>)
    ensures
        match r {
            Ok(x) => parse_value(*t, seg@, None) == Ok::<Value, ScriptError>(x@),
            Err(e) => parse_value(*t, seg@, None) == Err::<Value, ScriptError>(e),
        },
{
    Variable::parse_var(t.clone(), seg.to_owned(), None)
}

/// Reads what a path segment addresses inside `v`.
pub fn child_of(v: &Variable, seg: &str) -> (r: Result<Variable, ScriptError>)
    ensures
        match r {
            Ok(c) => child(v@, seg@) == Ok::<Value, ScriptError>(c@),
            Err(e) => child(v@, seg@) == Err::<Value, ScriptError>(e),
        },
{
    match v {
        Variable::List(t, Some(items)) => {
            proof {
                lemma_view_list(*t, *items);
            }
            match parse_usize(seg) {
                None => Err(ScriptError::ParseVarError),
                Some(i) => if i < items.len() {
                    Ok(items[i].clone())
                } else {
                    Err(ScriptError::UnknownVarError)
                },
            }
        },
        Variable::Mapping(VarType::Mapping(k, w), Some(l)) => {
            proof {
                lemma_view_mapping(VarType::Mapping(*k, *w), *l);
            }
            match segment_key(&**k, seg) {
                Err(e) => Err(e),
                Ok(key) => match find_key(l, &key) {
                    Some(j) => Ok(l[j].1.clone()),
                    None => Err(ScriptError::UnknownVarError),
                },
            }
        },
        _ => Err(ScriptError::TypeMismatchError),
    }
}

/// Writes `new` to the slot that a path segment addresses inside `v`.
pub fn put_in(v: Variable, seg: &str, new: Variable) -> (r: Result<Variable, ScriptError>)
    ensures
        match r {
            Ok(c) => put(v@, seg@, new@) == Ok::<Value, ScriptError>(c@),
            Err(e) => put(v@, seg@, new@) == Err::<Value, ScriptError>(e),
        },
{
    match v {
        Variable::List(t, Some(items)) => {
            proof {
                lemma_view_list(t, items);
            }
            match parse_usize(seg) {
                None => Err(ScriptError::ParseVarError),
                Some(i) => if i < items.len() {
                    let old_type = items[i].get_type();
                    let new_type = new.get_type();
                    if type_equals(&old_type, &new_type) {
                        let mut items = items;
                        let ghost before = items@;
                        items.set(i, new);
                        proof {
                            lemma_view_list(t, items);
                            assert(values(items@) =~= values(before).update(i as int, new@));
                        }
                        Ok(Variable::List(t, Some(items)))
                    } else {
                        Err(ScriptError::TypeMismatchError)
                    }
                } else {
                    Err(ScriptError::UnknownVarError)
                },
            }
        },
        Variable::Mapping(VarType::Mapping(k, w), Some(l)) => {
            proof {
                lemma_view_mapping(VarType::Mapping(k, w), l);
            }
            match segment_key(&*k, seg) {
                Err(e) => Err(e),
                Ok(key) => match find_key(&l, &key) {
                    Some(j) => {
                        let old_type = l[j].1.get_type();
                        let new_type = new.get_type();
                        if type_equals(&old_type, &new_type) {
                            let mut l = l;
                            let ghost before = l@;
                            let old_key = l[j].0.clone();
                            l.set(j, (old_key, new));
                            proof {
                                lemma_view_mapping(VarType::Mapping(k, w), l);
                                assert(entries(l@) =~= entries(before).update(
                                    j as int,
                                    (entries(before)[j as int].0, new@),
                                ));
                            }
                            Ok(Variable::Mapping(VarType::Mapping(k, w), Some(l)))
                        } else {
                            Err(ScriptError::TypeMismatchError)
                        }
                    },
                    None => {
                        let new_type = new.get_type();
                        if type_equals(&new_type, &*w) {
                            let mut l = l;
                            let ghost before = l@;
                            l.push((key, new));
                            proof {
                                lemma_view_mapping(VarType::Mapping(k, w), l);
                                assert(entries(l@) =~= entries(before).push((key@, new@)));
                            }
                            Ok(Variable::Mapping(VarType::Mapping(k, w), Some(l)))
                        } else {
                            Err(ScriptError::TypeMismatchError)
                        }
                    },
                },
            }
        },
        _ => Err(ScriptError::TypeMismatchError),
    }
}

/// Removes the slot that a path segment addresses inside `v`.
pub fn take_from(v: Variable, seg: &str) -> (r: Result<Variable, ScriptError>)
    ensures
        match r {
            Ok(c) => take_out(v@, seg@) == Ok::<Value, ScriptError>(c@),
            Err(e) => take_out(v@, seg@) == Err::<Value, ScriptError>(e),
        },
{
    match v {
        Variable::List(t, Some(items)) => {
            proof {
                lemma_view_list(t, items);
            }
            match parse_usize(seg) {
                None => Err(ScriptError::ParseVarError),
                Some(i) => if i < items.len() {
                    let mut items = items;
                    let ghost before = items@;
                    let _ = items.remove(i);
                    proof {
                        lemma_view_list(t, items);
                        assert(values(items@) =~= values(before).remove(i as int));
                    }
                    Ok(Variable::List(t, Some(items)))
                } else {
                    Err(ScriptError::UnknownVarError)
                },
            }
        },
        Variable::Mapping(VarType::Mapping(k, w), Some(l)) => {
            proof {
                lemma_view_mapping(VarType::Mapping(k, w), l);
            }
            match segment_key(&*k, seg) {
                Err(e) => Err(e),
                Ok(key) => match find_key(&l, &key) {
                    Some(j) => {
                        let mut l = l;
                        let ghost before = l@;
                        let _ = l.remove(j);
                        proof {
                            lemma_view_mapping(VarType::Mapping(k, w), l);
                            assert(entries(l@) =~= entries(before).remove(j as int));
                        }
                        Ok(Variable::Mapping(VarType::Mapping(k, w), Some(l)))
                    },
                    None => Err(ScriptError::UnknownVarError),
                },
            }
        },
        _ => Err(ScriptError::TypeMismatchError),
    }
}

/// Reads what the segments from `from` on address, starting inside `v`.
pub fn resolve_in(v: Variable, segs: &Vec<String>, from: usize) -> (r: Result<
    Variable,
    ScriptError,
>)
    ensures
        match r {
            Ok(c) => resolve_from(v@, crate::text::texts(segs@), from as nat) == Ok::<
                Value,
                ScriptError,
            >(c@),
            Err(e) => resolve_from(v@, crate::text::texts(segs@), from as nat) == Err::<
                Value,
                ScriptError,
            >(e),
        },
    decreases segs.len() - from,
{
    if from >= segs.len() {
        Ok(v)
    } else {
        match child_of(&v, segs[from].as_str()) {
            Ok(c) => resolve_in(c, segs, from + 1),
            Err(e) => Err(e),
        }
    }
}

/// Writes `new` to the slot that the segments from `from` on address,
/// starting inside `v`.
pub fn update_in(v: Variable, segs: &Vec<String>, from: usize, new: Variable) -> (r: Result<
    Variable,
    ScriptError,
>)
    requires
        from < segs.len(),
    ensures
        match r {
            Ok(c) => updated(v@, crate::text::texts(segs@), from as nat, new@) == Ok::<
                Value,
                ScriptError,
            >(c@),
            Err(e) => updated(v@, crate::text::texts(segs@), from as nat, new@) == Err::<
                Value,
                ScriptError,
            >(e),
        },
    decreases segs.len() - from,
{
    if from + 1 >= segs.len() {
        put_in(v, segs[from].as_str(), new)
    } else {
        match child_of(&v, segs[from].as_str()) {
            Ok(c) => match update_in(c, segs, from + 1, new) {
                Ok(c2) => put_in(v, segs[from].as_str(), c2),
                Err(e) => Err(e),
            },
            Err(e) => Err(e),
        }
    }
}

/// Removes the slot that the segments from `from` on address, starting
/// inside `v`.
pub fn remove_in(v: Variable, segs: &Vec<String>, from: usize) -> (r: Result<
    Variable,
    ScriptError,
>)
    requires
        from < segs.len(),
    ensures
        match r {
            Ok(c) => removed(v@, crate::text::texts(segs@), from as nat) == Ok::<
                Value,
                ScriptError,
            >(c@),
            Err(e) => removed(v@, crate::text::texts(segs@), from as nat) == Err::<
                Value,
                ScriptError,
            >(e),
        },
    decreases segs.len() - from,
{
    if from + 1 >= segs.len() {
        take_from(v, segs[from].as_str())
    } else {
        match child_of(&v, segs[from].as_str()) {
            Ok(c) => match remove_in(c, segs, from + 1) {
                Ok(c2) => put_in(v, segs[from].as_str(), c2),
                Err(e) => Err(e),
            },
            Err(e) => Err(e),
        }
    }
}

} // verus!
