//! Values: a type descriptor paired with a payload that may be absent.

use vstd::prelude::*;
use crate::error::ScriptError;
use crate::float::{bits_equal, FloatModel, FloatValue};
use crate::text::{
    chars_are, chars_of, int_text, isize_to_string, join, parse_isize, parse_u8, signed_number,
    string_from_utf8, string_of, sub_chars, unsigned_number, within,
};
use vstd::string::StringExecFns;
use crate::var_type::VarType;

verus! {

/// A runtime value. Every variant carries its type descriptor; a payload of
/// `None` is a value that was declared and not yet given content.
///
/// A mapping keeps its entries in the order in which its keys were first
/// added. Streams are held by handle, and two stream values are the same
/// when their handles are.
#[derive(Debug)]
pub enum Variable {
    Bool(VarType, Option<bool>),
    String(VarType, Option<String>),
    Integer(VarType, Option<isize>),
    Float(VarType, Option<FloatValue>),
    Char(VarType, Option<u8>),
    List(VarType, Option<Vec<Variable>>),
    Mapping(VarType, Option<Vec<(Variable, Variable)>>),
    Optional(VarType, Option<Option<Box<Variable>>>),
    InStream(VarType, Option<usize>),
    OutStream(VarType, Option<usize>),
    Null(VarType),
}

/// The mathematical content of a `Variable`.
pub enum Value {
    Bool(VarType, Option<bool>),
    Text(VarType, Option<Seq<char>>),
    Integer(VarType, Option<isize>),
    Float(VarType, Option<FloatModel>),
    Char(VarType, Option<u8>),
    List(VarType, Option<Seq<Value>>),
    Mapping(VarType, Option<Seq<(Value, Value)>>),
    Optional(VarType, Option<Option<Box<Value>>>),
    InStream(VarType, Option<usize>),
    OutStream(VarType, Option<usize>),
    Null(VarType),
}

impl View for Variable {
    type V = Value;

    open spec fn view(&self) -> Value
        decreases self,
    {
        match self {
            Variable::Bool(t, v) => Value::Bool(*t, *v),
            Variable::String(t, v) => Value::Text(
                *t,
                match v {
                    Some(s) => Some(s@),
                    None => None,
                },
            ),
            Variable::Integer(t, v) => Value::Integer(*t, *v),
            Variable::Float(t, v) => Value::Float(
                *t,
                match v {
                    Some(f) => Some(f@),
                    None => None,
                },
            ),
            Variable::Char(t, v) => Value::Char(*t, *v),
            Variable::List(t, v) => Value::List(
                *t,
                match v {
                    Some(l) => Some(values_upto(l@, l@.len())),
                    None => None,
                },
            ),
            Variable::Mapping(t, v) => Value::Mapping(
                *t,
                match v {
                    Some(l) => Some(entries_upto(l@, l@.len())),
                    None => None,
                },
            ),
            Variable::Optional(t, v) => Value::Optional(
                *t,
                match v {
                    Some(Some(b)) => Some(Some(Box::new((**b).view()))),
                    Some(None) => Some(None),
                    None => None,
                },
            ),
            Variable::InStream(t, v) => Value::InStream(*t, *v),
            Variable::OutStream(t, v) => Value::OutStream(*t, *v),
            Variable::Null(t) => Value::Null(*t),
        }
    }
}

/// The contents of the first `n` variables of `l`.
pub open spec fn values_upto(l: Seq<Variable>, n: nat) -> Seq<Value>
    decreases l, n,
{
    if n == 0 || n > l.len() {
        Seq::empty()
    } else {
        values_upto(l, (n - 1) as nat).push(l[n - 1].view())
    }
}

/// The contents of the first `n` entries of `l`.
pub open spec fn entries_upto(l: Seq<(Variable, Variable)>, n: nat) -> Seq<(Value, Value)>
    decreases l, n,
{
    if n == 0 || n > l.len() {
        Seq::empty()
    } else {
        entries_upto(l, (n - 1) as nat).push((l[n - 1].0.view(), l[n - 1].1.view()))
    }
}

/// `values_upto` is the pointwise view.
pub proof fn lemma_values_upto(l: Seq<Variable>, n: nat)
    requires
        n <= l.len(),
    ensures
        values_upto(l, n) == values(l.take(n as int)),
    decreases n,
{
    if n > 0 {
        lemma_values_upto(l, (n - 1) as nat);
        assert(values(l.take(n as int)) =~= values(l.take(n - 1)).push(l[n - 1]@));
    } else {
        assert(values(l.take(n as int)) =~= Seq::<Value>::empty());
    }
}

/// `entries_upto` is the pointwise view.
pub proof fn lemma_entries_upto(l: Seq<(Variable, Variable)>, n: nat)
    requires
        n <= l.len(),
    ensures
        entries_upto(l, n) == entries(l.take(n as int)),
    decreases n,
{
    if n > 0 {
        lemma_entries_upto(l, (n - 1) as nat);
        assert(entries(l.take(n as int)) =~= entries(l.take(n - 1)).push((l[n - 1].0@, l[n - 1].1@)));
    } else {
        assert(entries(l.take(n as int)) =~= Seq::<(Value, Value)>::empty());
    }
}

/// The contents of a sequence of variables.
pub open spec fn values(l: Seq<Variable>) -> Seq<Value> {
    Seq::new(l.len(), |i: int| l[i]@)
}

/// The contents of a sequence of entries.
pub open spec fn entries(l: Seq<(Variable, Variable)>) -> Seq<(Value, Value)> {
    Seq::new(l.len(), |i: int| (l[i].0@, l[i].1@))
}

/// The view of a list is the list of its items' views.
pub proof fn lemma_view_list(t: VarType, l: Vec<Variable>)
    ensures
        Variable::List(t, Some(l))@ == Value::List(t, Some(values(l@))),
{
    lemma_values_upto(l@, l@.len());
    assert(l@.take(l@.len() as int) =~= l@);
}

/// The view of a mapping is the sequence of its entries' views.
pub proof fn lemma_view_mapping(t: VarType, l: Vec<(Variable, Variable)>)
    ensures
        Variable::Mapping(t, Some(l))@ == Value::Mapping(t, Some(entries(l@))),
{
    lemma_entries_upto(l@, l@.len());
    assert(l@.take(l@.len() as int) =~= l@);
}

impl Clone for Variable {
    fn clone(&self) -> (r: Self)
        ensures
            r@ == self@,
        decreases self,
    {
        match self {
            Variable::Bool(t, v) => Variable::Bool(t.clone(), *v),
            Variable::String(t, v) => Variable::String(
                t.clone(),
                match v {
                    Some(s) => Some(s.clone()),
                    None => None,
                },
            ),
            Variable::Integer(t, v) => Variable::Integer(t.clone(), *v),
            Variable::Float(t, v) => Variable::Float(
                t.clone(),
                match v {
                    Some(f) => Some(f.clone()),
                    None => None,
                },
            ),
            Variable::Char(t, v) => Variable::Char(t.clone(), *v),
            Variable::List(t, v) => {
                match v {
                    Some(l) => {
                        let mut out: Vec<Variable> = Vec::new();
                        let mut i: usize = 0;
                        while i < l.len()
                            invariant
                                0 <= i <= l.len(),
                                out.len() == i,
                                self matches Variable::List(_, Some(x)) && x == l,
                                forall|j: int| 0 <= j < i ==> out@[j]@ == l@[j]@,
                            decreases l.len() - i,
                        {
                            proof {
                                vstd::std_specs::vec::axiom_vec_index_decreases(*l, i as int);
                            }
                            out.push(l[i].clone());
                            i += 1;
                        }
                        proof {
                            lemma_view_list(*t, *l);
                            lemma_view_list(*t, out);
                            assert(values(out@) =~= values(l@));
                        }
                        Variable::List(t.clone(), Some(out))
                    },
                    None => Variable::List(t.clone(), None),
                }
            },
            Variable::Mapping(t, v) => {
                match v {
                    Some(l) => {
                        let mut out: Vec<(Variable, Variable)> = Vec::new();
                        let mut i: usize = 0;
                        while i < l.len()
                            invariant
                                0 <= i <= l.len(),
                                out.len() == i,
                                self matches Variable::Mapping(_, Some(x)) && x == l,
                                forall|j: int|
                                    0 <= j < i ==> out@[j].0@ == l@[j].0@ && out@[j].1@ == l@[j].1@,
                            decreases l.len() - i,
                        {
                            proof {
                                vstd::std_specs::vec::axiom_vec_index_decreases(*l, i as int);
                            }
                            let k = l[i].0.clone();
                            let w = l[i].1.clone();
                            out.push((k, w));
                            i += 1;
                        }
                        proof {
                            lemma_view_mapping(*t, *l);
                            lemma_view_mapping(*t, out);
                            assert(entries(out@) =~= entries(l@));
                        }
                        Variable::Mapping(t.clone(), Some(out))
                    },
                    None => Variable::Mapping(t.clone(), None),
                }
            },
            Variable::Optional(t, v) => Variable::Optional(
                t.clone(),
                match v {
                    Some(Some(b)) => Some(Some(Box::new((**b).clone()))),
                    Some(None) => Some(None),
                    None => None,
                },
            ),
            Variable::InStream(t, v) => Variable::InStream(t.clone(), *v),
            Variable::OutStream(t, v) => Variable::OutStream(t.clone(), *v),
            Variable::Null(t) => Variable::Null(t.clone()),
        }
    }
}

/// A copy of the items of `l`.
pub fn clone_items(l: &Vec<Variable>) -> (r: Vec<Variable>)
    ensures
        values(r@) == values(l@),
{
    let mut out: Vec<Variable> = Vec::new();
    let mut i: usize = 0;
    while i < l.len()
        invariant
            0 <= i <= l.len(),
            out.len() == i,
            forall|j: int| 0 <= j < i ==> out@[j]@ == l@[j]@,
        decreases l.len() - i,
    {
        out.push(l[i].clone());
        i += 1;
    }
    assert(values(out@) =~= values(l@));
    out
}

/// A copy of the entries of `l`.
pub fn clone_entries(l: &Vec<(Variable, Variable)>) -> (r: Vec<(Variable, Variable)>)
    ensures
        entries(r@) == entries(l@),
{
    let mut out: Vec<(Variable, Variable)> = Vec::new();
    let mut i: usize = 0;
    while i < l.len()
        invariant
            0 <= i <= l.len(),
            out.len() == i,
            forall|j: int| 0 <= j < i ==> out@[j].0@ == l@[j].0@ && out@[j].1@ == l@[j].1@,
        decreases l.len() - i,
    {
        let k = l[i].0.clone();
        let w = l[i].1.clone();
        out.push((k, w));
        i += 1;
    }
    assert(entries(out@) =~= entries(l@));
    out
}

impl Value {
    /// The type descriptor that the value carries.
    pub open spec fn get_type(self) -> VarType {
        match self {
            Value::Bool(t, _) => t,
            Value::Text(t, _) => t,
            Value::Integer(t, _) => t,
            Value::Float(t, _) => t,
            Value::Char(t, _) => t,
            Value::List(t, _) => t,
            Value::Mapping(t, _) => t,
            Value::Optional(t, _) => t,
            Value::InStream(t, _) => t,
            Value::OutStream(t, _) => t,
            Value::Null(t) => t,
        }
    }

    /// Whether the value has a payload. The null value always has.
    pub open spec fn is_initialized(self) -> bool {
        match self {
            Value::Bool(_, v) => v is Some,
            Value::Text(_, v) => v is Some,
            Value::Integer(_, v) => v is Some,
            Value::Float(_, v) => v is Some,
            Value::Char(_, v) => v is Some,
            Value::List(_, v) => v is Some,
            Value::Mapping(_, v) => v is Some,
            Value::Optional(_, v) => v is Some,
            Value::InStream(_, v) => v is Some,
            Value::OutStream(_, v) => v is Some,
            Value::Null(_) => true,
        }
    }

    /// The payload of an initialised boolean; a type mismatch on anything
    /// else.
    pub open spec fn as_bool(self) -> Result<bool, ScriptError> {
        match self {
            Value::Bool(_, Some(b)) => Ok(b),
            _ => Err(ScriptError::TypeMismatchError),
        }
    }

    /// The payload of an initialised string.
    pub open spec fn as_text(self) -> Result<Seq<char>, ScriptError> {
        match self {
            Value::Text(_, Some(s)) => Ok(s),
            _ => Err(ScriptError::TypeMismatchError),
        }
    }

    /// The payload of an initialised integer.
    pub open spec fn as_int(self) -> Result<isize, ScriptError> {
        match self {
            Value::Integer(_, Some(i)) => Ok(i),
            _ => Err(ScriptError::TypeMismatchError),
        }
    }

    /// The payload of an initialised float.
    pub open spec fn as_float(self) -> Result<FloatModel, ScriptError> {
        match self {
            Value::Float(_, Some(f)) => Ok(f),
            _ => Err(ScriptError::TypeMismatchError),
        }
    }

    /// The payload of an initialised character.
    pub open spec fn as_char(self) -> Result<u8, ScriptError> {
        match self {
            Value::Char(_, Some(c)) => Ok(c),
            _ => Err(ScriptError::TypeMismatchError),
        }
    }

    /// The items of an initialised list.
    pub open spec fn as_list(self) -> Result<Seq<Value>, ScriptError> {
        match self {
            Value::List(_, Some(l)) => Ok(l),
            _ => Err(ScriptError::TypeMismatchError),
        }
    }

    /// The entries of an initialised mapping.
    pub open spec fn as_map(self) -> Result<Seq<(Value, Value)>, ScriptError> {
        match self {
            Value::Mapping(_, Some(l)) => Ok(l),
            _ => Err(ScriptError::TypeMismatchError),
        }
    }

    /// The content of an initialised optional.
    pub open spec fn as_option(self) -> Result<Option<Box<Value>>, ScriptError> {
        match self {
            Value::Optional(_, Some(o)) => Ok(o),
            _ => Err(ScriptError::TypeMismatchError),
        }
    }

    /// The handle of an initialised input stream.
    pub open spec fn as_in_stream(self) -> Result<usize, ScriptError> {
        match self {
            Value::InStream(_, Some(h)) => Ok(h),
            _ => Err(ScriptError::TypeMismatchError),
        }
    }

    /// The handle of an initialised output stream.
    pub open spec fn as_out_stream(self) -> Result<usize, ScriptError> {
        match self {
            Value::OutStream(_, Some(h)) => Ok(h),
            _ => Err(ScriptError::TypeMismatchError),
        }
    }

    /// The item type of a list value whose descriptor is a list type.
    pub open spec fn get_list_type(self) -> Result<VarType, ScriptError> {
        match self {
            Value::List(VarType::List(t), _) => Ok(*t),
            _ => Err(ScriptError::TypeMismatchError),
        }
    }

    /// The key and value types of a mapping whose descriptor is a mapping
    /// type.
    pub open spec fn get_map_types(self) -> Result<(VarType, VarType), ScriptError> {
        match self {
            Value::Mapping(VarType::Mapping(k, v), _) => Ok((*k, *v)),
            _ => Err(ScriptError::TypeMismatchError),
        }
    }

    /// The content type of an optional whose descriptor is an optional type.
    pub open spec fn get_option_type(self) -> Result<VarType, ScriptError> {
        match self {
            Value::Optional(VarType::Optional(t), _) => Ok(*t),
            _ => Err(ScriptError::TypeMismatchError),
        }
    }

    /// The value of type `t` without any content: no payload at all.
    pub open spec fn not_inited(t: VarType) -> Value {
        match t {
            VarType::Bool => Value::Bool(t, None),
            VarType::String => Value::Text(t, None),
            VarType::Integer => Value::Integer(t, None),
            VarType::Float => Value::Float(t, None),
            VarType::Char => Value::Char(t, None),
            VarType::List(_) => Value::List(t, None),
            VarType::Mapping(_, _) => Value::Mapping(t, None),
            VarType::Optional(_) => Value::Optional(t, None),
            VarType::InStream => Value::InStream(t, None),
            VarType::OutStream => Value::OutStream(t, None),
            VarType::Null => Value::Null(t),
        }
    }

    /// The value that a declaration of type `t` yields: scalars and streams
    /// without payload, containers present and empty.
    pub open spec fn empty(t: VarType) -> Value {
        match t {
            VarType::List(_) => Value::List(t, Some(Seq::empty())),
            VarType::Mapping(_, _) => Value::Mapping(t, Some(Seq::empty())),
            VarType::Optional(_) => Value::Optional(t, Some(None)),
            _ => Value::not_inited(t),
        }
    }
}

impl Variable {
    /// The type descriptor that the value carries.
    pub fn get_type(&self) -> (r: VarType)
        ensures
            r == self@.get_type(),
    {
        match self {
            Variable::Bool(t, _) => t.clone(),
            Variable::String(t, _) => t.clone(),
            Variable::Integer(t, _) => t.clone(),
            Variable::Float(t, _) => t.clone(),
            Variable::Char(t, _) => t.clone(),
            Variable::List(t, _) => t.clone(),
            Variable::Mapping(t, _) => t.clone(),
            Variable::Optional(t, _) => t.clone(),
            Variable::InStream(t, _) => t.clone(),
            Variable::OutStream(t, _) => t.clone(),
            Variable::Null(t) => t.clone(),
        }
    }

    /// Whether this is the null value.
    pub fn is_null(&self) -> (r: bool)
        ensures
            r == (self@ is Null),
    {
        match self {
            Variable::Null(_) => true,
            _ => false,
        }
    }

    /// Whether the value has a payload.
    pub fn is_initialized(&self) -> (r: bool)
        ensures
            r == self@.is_initialized(),
    {
        match self {
            Variable::Bool(_, b) => b.is_some(),
            Variable::String(_, b) => b.is_some(),
            Variable::Integer(_, b) => b.is_some(),
            Variable::Float(_, b) => b.is_some(),
            Variable::Char(_, b) => b.is_some(),
            Variable::List(_, b) => b.is_some(),
            Variable::Mapping(_, b) => b.is_some(),
            Variable::Optional(_, b) => b.is_some(),
            Variable::InStream(_, b) => b.is_some(),
            Variable::OutStream(_, b) => b.is_some(),
            Variable::Null(_) => true,
        }
    }

    pub fn from_bool(value: Option<bool>) -> (r: Variable)
        ensures
            r@ == Value::Bool(VarType::Bool, value),
    {
        Variable::Bool(VarType::Bool, value)
    }

    pub fn from_str(value: Option<String>) -> (r: Variable)
        ensures
            r@ == Value::Text(
                VarType::String,
                match value {
                    Some(s) => Some(s@),
                    None => None,
                },
            ),
    {
        Variable::String(VarType::String, value)
    }

    pub fn from_int(value: Option<isize>) -> (r: Variable)
        ensures
            r@ == Value::Integer(VarType::Integer, value),
    {
        Variable::Integer(VarType::Integer, value)
    }

    pub fn from_float(value: Option<FloatValue>) -> (r: Variable)
        ensures
            r@ == Value::Float(
                VarType::Float,
                match value {
                    Some(f) => Some(f@),
                    None => None,
                },
            ),
    {
        Variable::Float(VarType::Float, value)
    }

    pub fn from_char(value: Option<u8>) -> (r: Variable)
        ensures
            r@ == Value::Char(VarType::Char, value),
    {
        Variable::Char(VarType::Char, value)
    }

    /// A list of items of type `value_type`.
    pub fn from_list(value: Option<Vec<Variable>>, value_type: VarType) -> (r: Variable)
        ensures
            r@ == Value::List(
                VarType::List(Box::new(value_type)),
                match value {
                    Some(l) => Some(values(l@)),
                    None => None,
                },
            ),
    {
        proof {
            if value is Some {
                lemma_view_list(VarType::List(Box::new(value_type)), value->0);
            }
        }
        Variable::List(VarType::List(Box::new(value_type)), value)
    }

    /// A mapping from keys of type `key_type` to values of type
    /// `value_type`, with the given entries in their order. No key occurs
    /// twice in a mapping: of entries with equal keys, the first keeps its
    /// place and takes the value of the last.
    pub fn from_map(
        value: Option<Vec<(Variable, Variable)>>,
        key_type: VarType,
        value_type: VarType,
    ) -> (r: Variable)
        ensures
            r@ == Value::Mapping(
                VarType::Mapping(Box::new(key_type), Box::new(value_type)),
                match value {
                    Some(l) => Some(crate::path::folded(entries(l@), l@.len())),
                    None => None,
                },
            ),
    {
        let t = VarType::Mapping(Box::new(key_type), Box::new(value_type));
        match value {
            None => Variable::Mapping(t, None),
            Some(l) => {
                let mut out: Vec<(Variable, Variable)> = Vec::new();
                let mut i: usize = 0;
                assert(entries(out@) =~= crate::path::folded(entries(l@), 0));
                while i < l.len()
                    invariant
                        0 <= i <= l.len(),
                        entries(out@) == crate::path::folded(entries(l@), i as nat),
                    decreases l.len() - i,
                {
                    let ghost before = out@;
                    let key = l[i].0.clone();
                    let item = l[i].1.clone();
                    match crate::path::find_key(&out, &key) {
                        Some(j) => {
                            let old_key = out[j].0.clone();
                            out.set(j, (old_key, item));
                            assert(entries(out@) =~= entries(before).update(
                                j as int,
                                (entries(before)[j as int].0, item@),
                            ));
                        },
                        None => {
                            out.push((key, item));
                            assert(entries(out@) =~= entries(before).push((key@, item@)));
                        },
                    }
                    i += 1;
                }
                proof {
                    lemma_view_mapping(t, out);
                }
                Variable::Mapping(t, Some(out))
            },
        }
    }

    /// An optional of content type `var_type`.
    pub fn from_optional(value: Option<Option<Variable>>, var_type: VarType) -> (r: Variable)
        ensures
            r@ == Value::Optional(
                VarType::Optional(Box::new(var_type)),
                match value {
                    Some(Some(v)) => Some(Some(Box::new(v@))),
                    Some(None) => Some(None),
                    None => None,
                },
            ),
    {
        Variable::Optional(
            VarType::Optional(Box::new(var_type)),
            match value {
                Some(Some(v)) => Some(Some(Box::new(v))),
                Some(None) => Some(None),
                None => None,
            },
        )
    }

    pub fn from_null() -> (r: Variable)
        ensures
            r@ == Value::Null(VarType::Null),
    {
        Variable::Null(VarType::Null)
    }

    pub fn from_out_stream(value: Option<usize>) -> (r: Variable)
        ensures
            r@ == Value::OutStream(VarType::OutStream, value),
    {
        Variable::OutStream(VarType::OutStream, value)
    }

    pub fn from_in_stream(value: Option<usize>) -> (r: Variable)
        ensures
            r@ == Value::InStream(VarType::InStream, value),
    {
        Variable::InStream(VarType::InStream, value)
    }

    pub fn as_out_stream(&self) -> (r: Result<usize, ScriptError>)
        ensures
            r == self@.as_out_stream(),
    {
        match self {
            Variable::OutStream(_, Some(b)) => Ok(*b),
            _ => Err(ScriptError::TypeMismatchError),
        }
    }

    pub fn as_in_stream(&self) -> (r: Result<usize, ScriptError>)
        ensures
            r == self@.as_in_stream(),
    {
        match self {
            Variable::InStream(_, Some(b)) => Ok(*b),
            _ => Err(ScriptError::TypeMismatchError),
        }
    }

    pub fn get_option_type(&self) -> (r: Result<VarType, ScriptError>)
        ensures
            r == self@.get_option_type(),
    {
        match self {
            Variable::Optional(VarType::Optional(v), _) => Ok((**v).clone()),
            _ => Err(ScriptError::TypeMismatchError),
        }
    }

    pub fn as_option(&self) -> (r: Result<Option<Box<Variable>>, ScriptError>)
        ensures
            match r {
                Ok(Some(b)) => self@.as_option() == Ok::<Option<Box<Value>>, ScriptError>(
                    Some(Box::new(b@)),
                ),
                Ok(None) => self@.as_option() == Ok::<Option<Box<Value>>, ScriptError>(None),
                Err(e) => self@.as_option() == Err::<Option<Box<Value>>, ScriptError>(e),
            },
    {
        match self {
            Variable::Optional(_, Some(Some(b))) => Ok(Some(Box::new((**b).clone()))),
            Variable::Optional(_, Some(None)) => Ok(None),
            _ => Err(ScriptError::TypeMismatchError),
        }
    }

    pub fn get_map_types(&self) -> (r: Result<(VarType, VarType), ScriptError>)
        ensures
            r == self@.get_map_types(),
    {
        match self {
            Variable::Mapping(VarType::Mapping(k, v), _) => Ok(((**k).clone(), (**v).clone())),
            _ => Err(ScriptError::TypeMismatchError),
        }
    }

    pub fn as_map(&self) -> (r: Result<Vec<(Variable, Variable)>, ScriptError>)
        ensures
            match r {
                Ok(l) => self@.as_map() == Ok::<Seq<(Value, Value)>, ScriptError>(entries(l@)),
                Err(e) => self@.as_map() == Err::<Seq<(Value, Value)>, ScriptError>(e),
            },
    {
        match self {
            Variable::Mapping(t, Some(b)) => {
                proof {
                    lemma_view_mapping(*t, *b);
                }
                Ok(clone_entries(b))
            },
            _ => Err(ScriptError::TypeMismatchError),
        }
    }

    pub fn get_list_type(&self) -> (r: Result<VarType, ScriptError>)
        ensures
            r == self@.get_list_type(),
    {
        match self {
            Variable::List(VarType::List(v), _) => Ok((**v).clone()),
            _ => Err(ScriptError::TypeMismatchError),
        }
    }

    pub fn as_list(&self) -> (r: Result<Vec<Variable>, ScriptError>)
        ensures
            match r {
                Ok(l) => self@.as_list() == Ok::<Seq<Value>, ScriptError>(values(l@)),
                Err(e) => self@.as_list() == Err::<Seq<Value>, ScriptError>(e),
            },
    {
        match self {
            Variable::List(t, Some(b)) => {
                proof {
                    lemma_view_list(*t, *b);
                }
                Ok(clone_items(b))
            },
            _ => Err(ScriptError::TypeMismatchError),
        }
    }

    pub fn as_char(&self) -> (r: Result<u8, ScriptError>)
        ensures
            r == self@.as_char(),
    {
        match self {
            Variable::Char(_, Some(b)) => Ok(*b),
            _ => Err(ScriptError::TypeMismatchError),
        }
    }

    pub fn as_float(&self) -> (r: Result<FloatValue, ScriptError>)
        ensures
            match r {
                Ok(f) => self@.as_float() == Ok::<FloatModel, ScriptError>(f@),
                Err(e) => self@.as_float() == Err::<FloatModel, ScriptError>(e),
            },
    {
        match self {
            Variable::Float(_, Some(b)) => Ok(b.clone()),
            _ => Err(ScriptError::TypeMismatchError),
        }
    }

    pub fn as_int(&self) -> (r: Result<isize, ScriptError>)
        ensures
            r == self@.as_int(),
    {
        match self {
            Variable::Integer(_, Some(b)) => Ok(*b),
            _ => Err(ScriptError::TypeMismatchError),
        }
    }

    pub fn as_str(&self) -> (r: Result<String, ScriptError>)
        ensures
            match r {
                Ok(s) => self@.as_text() == Ok::<Seq<char>, ScriptError>(s@),
                Err(e) => self@.as_text() == Err::<Seq<char>, ScriptError>(e),
            },
    {
        match self {
            Variable::String(_, Some(b)) => Ok(b.clone()),
            _ => Err(ScriptError::TypeMismatchError),
        }
    }

    pub fn as_bool(&self) -> (r: Result<bool, ScriptError>)
        ensures
            r == self@.as_bool(),
    {
        match self {
            Variable::Bool(_, Some(b)) => Ok(*b),
            _ => Err(ScriptError::TypeMismatchError),
        }
    }

    /// A value of the given type with no payload at all, containers
    /// included. Never fails.
    pub fn not_inited_var(var_type: VarType) -> (r: Result<Variable, ScriptError>)
        ensures
            r matches Ok(v) && v@ == Value::not_inited(var_type) && crate::well_formed::typed(
                v@,
                var_type,
            ),
    {
        proof {
            crate::well_formed::lemma_empty_typed(var_type);
        }
        match var_type {
            VarType::Bool => Ok(Variable::Bool(VarType::Bool, None)),
            VarType::String => Ok(Variable::String(VarType::String, None)),
            VarType::Integer => Ok(Variable::Integer(VarType::Integer, None)),
            VarType::Float => Ok(Variable::Float(VarType::Float, None)),
            VarType::Char => Ok(Variable::Char(VarType::Char, None)),
            VarType::Optional(t) => Ok(Variable::Optional(VarType::Optional(t), None)),
            VarType::List(t) => Ok(Variable::List(VarType::List(t), None)),
            VarType::Mapping(k, v) => Ok(Variable::Mapping(VarType::Mapping(k, v), None)),
            VarType::InStream => Ok(Variable::InStream(VarType::InStream, None)),
            VarType::OutStream => Ok(Variable::OutStream(VarType::OutStream, None)),
            VarType::Null => Ok(Variable::Null(VarType::Null)),
        }
    }

    /// The value that declaring a variable of the given type yields: scalars
    /// and streams without payload, containers present and empty. Never
    /// fails.
    pub fn empty_var(var_type: VarType) -> (r: Result<Variable, ScriptError>)
        ensures
            r matches Ok(v) && v@ == Value::empty(var_type) && crate::well_formed::typed(
                v@,
                var_type,
            ),
    {
        proof {
            crate::well_formed::lemma_empty_typed(var_type);
        }
        match var_type {
            VarType::Optional(t) => Ok(Variable::Optional(VarType::Optional(t), Some(None))),
            VarType::List(t) => {
                let items: Vec<Variable> = Vec::new();
                proof {
                    lemma_view_list(VarType::List(t), items);
                    assert(values(items@) =~= Seq::<Value>::empty());
                }
                Ok(Variable::List(VarType::List(t), Some(items)))
            },
            VarType::Mapping(k, v) => {
                let items: Vec<(Variable, Variable)> = Vec::new();
                proof {
                    lemma_view_mapping(VarType::Mapping(k, v), items);
                    assert(entries(items@) =~= Seq::<(Value, Value)>::empty());
                }
                Ok(Variable::Mapping(VarType::Mapping(k, v), Some(items)))
            },
            other => Variable::not_inited_var(other),
        }
    }
}

/// Whether `s` is an opening bracket, then anything, then a closing bracket.
pub open spec fn in_brackets(s: Seq<char>) -> bool {
    s.len() >= 2 && s[0] == '[' && s.last() == ']'
}

/// The value of type `t` that the literal `s` writes.
///
/// A boolean is `true`, `false`, `1` or `0`; a string is the text itself; an
/// integer and a character are decimal numbers that fit; an optional is
/// `none`, or its content's literal in brackets; null takes any text. A
/// float is not read here: `float` is what the host read from the text that
/// `float_leaf` names, and without it a float literal is a parse error.
/// Lists, mappings and streams have no literals.
pub open spec fn parse_value(t: VarType, s: Seq<char>, float: Option<FloatModel>) -> Result<
    Value,
    ScriptError,
>
    decreases t,
{
    match t {
        VarType::Bool => if s == "true"@ || s == "1"@ {
            Ok(Value::Bool(VarType::Bool, Some(true)))
        } else if s == "false"@ || s == "0"@ {
            Ok(Value::Bool(VarType::Bool, Some(false)))
        } else {
            Err(ScriptError::ParseVarError)
        },
        VarType::Null => Ok(Value::Null(VarType::Null)),
        VarType::String => Ok(Value::Text(VarType::String, Some(s))),
        VarType::Integer => match within(
            signed_number(s),
            isize::MIN as int,
            isize::MAX as int,
        ) {
            Some(v) => Ok(Value::Integer(VarType::Integer, Some(v as isize))),
            None => Err(ScriptError::ParseVarError),
        },
        VarType::Float => match float {
            Some(f) => Ok(Value::Float(VarType::Float, Some(f))),
            None => Err(ScriptError::ParseVarError),
        },
        VarType::Char => match within(unsigned_number(s), 0, 255) {
            Some(v) => Ok(Value::Char(VarType::Char, Some(v as u8))),
            None => Err(ScriptError::ParseVarError),
        },
        VarType::Optional(inner) => if in_brackets(s) {
            match parse_value(*inner, s.subrange(1, s.len() - 1), float) {
                Ok(v) => Ok(Value::Optional(t, Some(Some(Box::new(v))))),
                Err(e) => Err(e),
            }
        } else if s == "none"@ {
            Ok(Value::Optional(t, Some(None)))
        } else {
            Err(ScriptError::ParseVarError)
        },
        _ => Err(ScriptError::ParseVarError),
    }
}

/// The part of the literal `s` of type `t` that writes a float, if the
/// literal has one: the text itself for a float, and what stands inside the
/// brackets for an optional around such a type.
pub open spec fn float_leaf(t: VarType, s: Seq<char>) -> Option<Seq<char>>
    decreases t,
{
    match t {
        VarType::Float => Some(s),
        VarType::Optional(inner) => if in_brackets(s) {
            float_leaf(*inner, s.subrange(1, s.len() - 1))
        } else {
            None
        },
        _ => None,
    }
}

fn bracketed_chars(v: &Vec<char>) -> (r: bool)
    ensures
        r == in_brackets(v@),
{
    v.len() >= 2 && v[0] == '[' && v[v.len() - 1] == ']'
}

fn parse_chars(t: &VarType, v: &Vec<char>, float: Option<FloatValue>) -> (r: Result<
    Variable,
    ScriptError,
>)
    ensures
        match r {
            Ok(x) => parse_value(
                *t,
                v@,
                match float {
                    Some(f) => Some(f@),
                    None => None,
                },
            ) == Ok::<Value, ScriptError>(x@),
            Err(e) => parse_value(
                *t,
                v@,
                match float {
                    Some(f) => Some(f@),
                    None => None,
                },
            ) == Err::<Value, ScriptError>(e),
        },
    decreases *t,
{
    match t {
        VarType::Bool => {
            if chars_are(v, "true") || chars_are(v, "1") {
                Ok(Variable::Bool(VarType::Bool, Some(true)))
            } else if chars_are(v, "false") || chars_are(v, "0") {
                Ok(Variable::Bool(VarType::Bool, Some(false)))
            } else {
                Err(ScriptError::ParseVarError)
            }
        },
        VarType::Null => Ok(Variable::Null(VarType::Null)),
        VarType::String => Ok(Variable::String(VarType::String, Some(string_of(v)))),
        VarType::Integer => {
            let text = string_of(v);
            match parse_isize(text.as_str()) {
                Some(i) => Ok(Variable::Integer(VarType::Integer, Some(i))),
                None => Err(ScriptError::ParseVarError),
            }
        },
        VarType::Float => match float {
            Some(f) => Ok(Variable::Float(VarType::Float, Some(f))),
            None => Err(ScriptError::ParseVarError),
        },
        VarType::Char => {
            let text = string_of(v);
            match parse_u8(text.as_str()) {
                Some(c) => Ok(Variable::Char(VarType::Char, Some(c))),
                None => Err(ScriptError::ParseVarError),
            }
        },
        VarType::Optional(inner) => {
            if bracketed_chars(v) {
                let body = sub_chars(v, 1, v.len() - 1);
                match parse_chars(&**inner, &body, float) {
                    Ok(x) => Ok(Variable::Optional(t.clone(), Some(Some(Box::new(x))))),
                    Err(e) => Err(e),
                }
            } else if chars_are(v, "none") {
                Ok(Variable::Optional(t.clone(), Some(None)))
            } else {
                Err(ScriptError::ParseVarError)
            }
        },
        _ => Err(ScriptError::ParseVarError),
    }
}

fn float_leaf_chars(t: &VarType, v: &Vec<char>) -> (r: Option<Vec<char>>)
    ensures
        match r {
            Some(x) => float_leaf(*t, v@) == Some(x@),
            None => float_leaf(*t, v@) is None,
        },
    decreases *t,
{
    match t {
        VarType::Float => Some(sub_chars(v, 0, v.len())),
        VarType::Optional(inner) => {
            if bracketed_chars(v) {
                let body = sub_chars(v, 1, v.len() - 1);
                float_leaf_chars(&**inner, &body)
            } else {
                None
            }
        },
        _ => None,
    }
}

impl Variable {
    /// Reads a literal of the given type.
    ///
    /// The engine has no floating-point arithmetic: where the literal holds
    /// a float (see `float_text`), `float` is the number that the host read
    /// from that text, or `None` if the host could not read one.
    pub fn parse_var(var_type: VarType, text: String, float: Option<FloatValue>) -> (r: Result<
        Variable,
        ScriptError,
    >)
        ensures
            match r {
                Ok(x) => parse_value(
                    var_type,
                    text@,
                    match float {
                        Some(f) => Some(f@),
                        None => None,
                    },
                ) == Ok::<Value, ScriptError>(x@),
                Err(e) => parse_value(
                    var_type,
                    text@,
                    match float {
                        Some(f) => Some(f@),
                        None => None,
                    },
                ) == Err::<Value, ScriptError>(e),
            },
    {
        let chars = chars_of(text.as_str());
        parse_chars(&var_type, &chars, float)
    }

    /// The part of a literal of the given type that the host has to read as
    /// a float before `parse_var` can build the value; `None` when the
    /// literal holds no float.
    pub fn float_text(var_type: &VarType, text: &str) -> (r: Option<String>)
        ensures
            match r {
                Some(x) => float_leaf(*var_type, text@) == Some(x@),
                None => float_leaf(*var_type, text@) is None,
            },
    {
        let chars = chars_of(text);
        match float_leaf_chars(var_type, &chars) {
            Some(x) => Some(string_of(&x)),
            None => None,
        }
    }
}

/// The text that `bytes` encode in UTF-8.
pub open spec fn bytes_text(bytes: Seq<u8>) -> Result<Seq<char>, ScriptError> {
    if vstd::utf8::valid_utf8(bytes) {
        Ok(vstd::utf8::decode_utf8(bytes))
    } else {
        Err(ScriptError::StringUTF8Error)
    }
}

/// The bytes that the first `n` items of `l` hold, if each of them is an
/// initialised character.
pub open spec fn items_bytes(l: Seq<Value>, n: nat) -> Result<Seq<u8>, ScriptError>
    decreases n,
{
    if n == 0 || n > l.len() {
        Ok(Seq::empty())
    } else {
        match items_bytes(l, (n - 1) as nat) {
            Ok(bytes) => match l[n - 1].as_char() {
                Ok(c) => Ok(bytes.push(c)),
                Err(e) => Err(e),
            },
            Err(e) => Err(e),
        }
    }
}

/// The rendering of a value as text.
///
/// Booleans are `true` and `false`, integers are in decimal notation, a
/// character is the text that its one byte encodes, a list of characters is
/// the text that its bytes encode, another list is `[a, b]`, a mapping is
/// `{k: v, ..}` in the order of its entries, an optional is `(v)` or
/// `none`, a stream is a fixed token and null is `null`. A value without
/// payload has no rendering.
pub open spec fn display(v: Value) -> Result<Seq<char>, ScriptError>
    decreases v,
{
    match v {
        Value::Bool(_, Some(b)) => Ok(
            if b {
                "true"@
            } else {
                "false"@
            },
        ),
        Value::Text(_, Some(s)) => Ok(s),
        Value::Integer(_, Some(i)) => Ok(int_text(i as int)),
        Value::Float(_, Some(f)) => Ok(f.text),
        Value::Char(_, Some(c)) => bytes_text(seq![c]),
        Value::List(t, Some(l)) => if t == VarType::List(Box::new(VarType::Char)) {
            match items_bytes(l, l.len()) {
                Ok(bytes) => bytes_text(bytes),
                Err(e) => Err(e),
            }
        } else {
            match display_items(l, l.len()) {
                Ok(parts) => Ok("["@ + join(parts, ", "@) + "]"@),
                Err(e) => Err(e),
            }
        },
        Value::Mapping(_, Some(l)) => match display_entries(l, l.len()) {
            Ok(parts) => Ok("{"@ + join(parts, ", "@) + "}"@),
            Err(e) => Err(e),
        },
        Value::Optional(_, Some(Some(b))) => match display(*b) {
            Ok(s) => Ok("("@ + s + ")"@),
            Err(e) => Err(e),
        },
        Value::Optional(_, Some(None)) => Ok("none"@),
        Value::InStream(_, Some(_)) => Ok("IN_STREAM"@),
        Value::OutStream(_, Some(_)) => Ok("OUT_STREAM"@),
        Value::Null(_) => Ok("null"@),
        _ => Err(ScriptError::VarNotInitedError),
    }
}

/// The renderings of the first `n` items of `l`, or the error of the first
/// item that has none.
pub open spec fn display_items(l: Seq<Value>, n: nat) -> Result<Seq<Seq<char>>, ScriptError>
    decreases l, n,
{
    if n == 0 || n > l.len() {
        Ok(Seq::empty())
    } else {
        match display_items(l, (n - 1) as nat) {
            Ok(parts) => match display(l[n - 1]) {
                Ok(s) => Ok(parts.push(s)),
                Err(e) => Err(e),
            },
            Err(e) => Err(e),
        }
    }
}

/// The renderings `key: value` of the first `n` entries of `l`, or the
/// first error among them.
pub open spec fn display_entries(l: Seq<(Value, Value)>, n: nat) -> Result<
    Seq<Seq<char>>,
    ScriptError,
>
    decreases l, n,
{
    if n == 0 || n > l.len() {
        Ok(Seq::empty())
    } else {
        match display_entries(l, (n - 1) as nat) {
            Ok(parts) => match display(l[n - 1].0) {
                Ok(k) => match display(l[n - 1].1) {
                    Ok(w) => Ok(parts.push(k + ": "@ + w)),
                    Err(e) => Err(e),
                },
                Err(e) => Err(e),
            },
            Err(e) => Err(e),
        }
    }
}

/// Once an item has no rendering, no longer run of items has one.
pub proof fn lemma_display_items_err(l: Seq<Value>, n: nat, m: nat)
    requires
        n <= m <= l.len(),
        display_items(l, n) is Err,
    ensures
        display_items(l, m) == display_items(l, n),
    decreases m,
{
    if m > n {
        lemma_display_items_err(l, n, (m - 1) as nat);
    }
}

/// Once an entry has no rendering, no longer run of entries has one.
pub proof fn lemma_display_entries_err(l: Seq<(Value, Value)>, n: nat, m: nat)
    requires
        n <= m <= l.len(),
        display_entries(l, n) is Err,
    ensures
        display_entries(l, m) == display_entries(l, n),
    decreases m,
{
    if m > n {
        lemma_display_entries_err(l, n, (m - 1) as nat);
    }
}

/// Once an item is no character, no longer run of items gives bytes.
pub proof fn lemma_items_bytes_err(l: Seq<Value>, n: nat, m: nat)
    requires
        n <= m <= l.len(),
        items_bytes(l, n) is Err,
    ensures
        items_bytes(l, m) == items_bytes(l, n),
    decreases m,
{
    if m > n {
        lemma_items_bytes_err(l, n, (m - 1) as nat);
    }
}

/// Joining one more part appends the separator and the part, except after
/// nothing.
pub proof fn lemma_join_push(parts: Seq<Seq<char>>, part: Seq<char>, sep: Seq<char>)
    ensures
        join(parts.push(part), sep) == if parts.len() == 0 {
            part
        } else {
            join(parts, sep) + sep + part
        },
{
    assert(parts.push(part).drop_last() =~= parts);
}

/// The bytes of a list of characters.
pub fn list_bytes(l: &Vec<Variable>) -> (r: Result<Vec<u8>, ScriptError>)
    ensures
        match r {
            Ok(b) => items_bytes(values(l@), l@.len()) == Ok::<Seq<u8>, ScriptError>(b@),
            Err(e) => items_bytes(values(l@), l@.len()) == Err::<Seq<u8>, ScriptError>(e),
        },
{
    let mut bytes: Vec<u8> = Vec::new();
    let mut i: usize = 0;
    while i < l.len()
        invariant
            0 <= i <= l.len(),
            items_bytes(values(l@), i as nat) == Ok::<Seq<u8>, ScriptError>(bytes@),
        decreases l.len() - i,
    {
        match l[i].as_char() {
            Ok(c) => {
                bytes.push(c);
            },
            Err(e) => {
                proof {
                    lemma_items_bytes_err(values(l@), (i + 1) as nat, l@.len());
                }
                return Err(e);
            },
        }
        i += 1;
    }
    Ok(bytes)
}

/// The text that `bytes` encode.
pub fn text_of_bytes(bytes: Vec<u8>) -> (r: Result<String, ScriptError>)
    ensures
        match r {
            Ok(s) => bytes_text(bytes@) == Ok::<Seq<char>, ScriptError>(s@),
            Err(e) => bytes_text(bytes@) == Err::<Seq<char>, ScriptError>(e),
        },
{
    match string_from_utf8(bytes) {
        Some(s) => Ok(s),
        None => Err(ScriptError::StringUTF8Error),
    }
}

impl Variable {
    /// Renders the value as text.
    pub fn to_string(&self) -> (r: Result<String, ScriptError>)
        ensures
            match r {
                Ok(s) => display(self@) == Ok::<Seq<char>, ScriptError>(s@),
                Err(e) => display(self@) == Err::<Seq<char>, ScriptError>(e),
            },
        decreases self,
    {
        match self {
            Variable::Bool(_, Some(v)) => Ok(
                if *v {
                    String::from_str("true")
                } else {
                    String::from_str("false")
                },
            ),
            Variable::String(_, Some(v)) => Ok(v.clone()),
            Variable::Integer(_, Some(v)) => Ok(isize_to_string(*v)),
            Variable::Float(_, Some(v)) => Ok(v.text.clone()),
            Variable::Char(_, Some(v)) => {
                let mut bytes: Vec<u8> = Vec::new();
                bytes.push(*v);
                assert(bytes@ =~= seq![*v]);
                text_of_bytes(bytes)
            },
            Variable::List(t, Some(v)) => {
                proof {
                    lemma_view_list(*t, *v);
                }
                let is_chars = match t {
                    VarType::List(inner) => match **inner {
                        VarType::Char => true,
                        _ => false,
                    },
                    _ => false,
                };
                if is_chars {
                    match list_bytes(v) {
                        Ok(bytes) => text_of_bytes(bytes),
                        Err(e) => Err(e),
                    }
                } else {
                    let mut text = String::from_str("[");
                    let ghost mut parts: Seq<Seq<char>> = Seq::empty();
                    let mut i: usize = 0;
                    while i < v.len()
                        invariant
                            0 <= i <= v.len(),
                            self matches Variable::List(_, Some(x)) && x == v,
                            self@ == Value::List(*t, Some(values(v@))),
                            *t != VarType::List(Box::new(VarType::Char)),
                            display_items(values(v@), i as nat) == Ok::<
                                Seq<Seq<char>>,
                                ScriptError,
                            >(parts),
                            parts.len() == i,
                            text@ == "["@ + join(parts, ", "@),
                        decreases v.len() - i,
                    {
                        proof {
                            vstd::std_specs::vec::axiom_vec_index_decreases(*v, i as int);
                        }
                        match v[i].to_string() {
                            Ok(item) => {
                                proof {
                                    lemma_join_push(parts, item@, ", "@);
                                }
                                if i > 0 {
                                    text.append(", ");
                                }
                                text.append(item.as_str());
                                proof {
                                    parts = parts.push(item@);
                                    assert(text@ =~= "["@ + join(parts, ", "@));
                                }
                            },
                            Err(e) => {
                                proof {
                                    lemma_display_items_err(
                                        values(v@),
                                        (i + 1) as nat,
                                        v@.len(),
                                    );
                                }
                                return Err(e);
                            },
                        }
                        i += 1;
                    }
                    text.append("]");
                    Ok(text)
                }
            },
            Variable::Mapping(t, Some(v)) => {
                proof {
                    lemma_view_mapping(*t, *v);
                }
                let mut text = String::from_str("{");
                let ghost mut parts: Seq<Seq<char>> = Seq::empty();
                let mut i: usize = 0;
                while i < v.len()
                    invariant
                        0 <= i <= v.len(),
                        self matches Variable::Mapping(_, Some(x)) && x == v,
                        self@ == Value::Mapping(*t, Some(entries(v@))),
                        display_entries(entries(v@), i as nat) == Ok::<
                            Seq<Seq<char>>,
                            ScriptError,
                        >(parts),
                        parts.len() == i,
                        text@ == "{"@ + join(parts, ", "@),
                    decreases v.len() - i,
                {
                    proof {
                        vstd::std_specs::vec::axiom_vec_index_decreases(*v, i as int);
                    }
                    let key = match v[i].0.to_string() {
                        Ok(k) => k,
                        Err(e) => {
                            proof {
                                lemma_display_entries_err(entries(v@), (i + 1) as nat, v@.len());
                            }
                            return Err(e);
                        },
                    };
                    let value = match v[i].1.to_string() {
                        Ok(w) => w,
                        Err(e) => {
                            proof {
                                lemma_display_entries_err(entries(v@), (i + 1) as nat, v@.len());
                            }
                            return Err(e);
                        },
                    };
                    proof {
                        lemma_join_push(parts, key@ + ": "@ + value@, ", "@);
                    }
                    if i > 0 {
                        text.append(", ");
                    }
                    text.append(key.as_str());
                    text.append(": ");
                    text.append(value.as_str());
                    proof {
                        parts = parts.push(key@ + ": "@ + value@);
                        assert(text@ =~= "{"@ + join(parts, ", "@));
                    }
                    i += 1;
                }
                text.append("}");
                Ok(text)
            },
            Variable::Optional(_, Some(Some(b))) => match (**b).to_string() {
                Ok(inner) => {
                    let mut text = String::from_str("(");
                    text.append(inner.as_str());
                    text.append(")");
                    Ok(text)
                },
                Err(e) => Err(e),
            },
            Variable::Optional(_, Some(None)) => Ok(String::from_str("none")),
            Variable::InStream(_, Some(_)) => Ok(String::from_str("IN_STREAM")),
            Variable::OutStream(_, Some(_)) => Ok(String::from_str("OUT_STREAM")),
            Variable::Null(_) => Ok(String::from_str("null")),
            _ => Err(ScriptError::VarNotInitedError),
        }
    }
}

/// Whether two values are equal.
///
/// Values of different variants are never equal, and descriptors are not
/// compared, except between two null values. Scalars are equal when their
/// payloads are, floats as numbers; two values without payload are equal.
/// Lists are equal item by item. Mappings are equal when each entry of one
/// has an equal entry in the other, in whatever order. Streams are equal
/// when their handles are.
pub open spec fn value_eq(a: Value, b: Value) -> bool
    decreases a, 0nat, 0nat,
{
    match (a, b) {
        (Value::Bool(_, x), Value::Bool(_, y)) => x == y,
        (Value::Null(s), Value::Null(t)) => s == t,
        (Value::Text(_, x), Value::Text(_, y)) => x == y,
        (Value::Integer(_, x), Value::Integer(_, y)) => x == y,
        (Value::Float(_, x), Value::Float(_, y)) => match (x, y) {
            (Some(f), Some(g)) => bits_equal(f.bits, g.bits),
            (None, None) => true,
            _ => false,
        },
        (Value::Char(_, x), Value::Char(_, y)) => x == y,
        (Value::List(_, x), Value::List(_, y)) => match (x, y) {
            (Some(l), Some(m)) => l.len() == m.len() && items_eq(l, m, l.len()),
            (None, None) => true,
            _ => false,
        },
        (Value::Mapping(_, x), Value::Mapping(_, y)) => match (x, y) {
            (Some(l), Some(m)) => included(l, m, l.len()) && covers(l, m, m.len()),
            (None, None) => true,
            _ => false,
        },
        (Value::Optional(_, x), Value::Optional(_, y)) => match (x, y) {
            (Some(Some(p)), Some(Some(q))) => value_eq(*p, *q),
            (Some(None), Some(None)) => true,
            (None, None) => true,
            _ => false,
        },
        (Value::InStream(_, x), Value::InStream(_, y)) => x == y,
        (Value::OutStream(_, x), Value::OutStream(_, y)) => x == y,
        _ => false,
    }
}

/// Whether the first `n` items of `l` equal those of `m`, one by one.
pub open spec fn items_eq(l: Seq<Value>, m: Seq<Value>, n: nat) -> bool
    decreases l, 1nat, n,
{
    if n == 0 || n > l.len() || n > m.len() {
        n == 0
    } else {
        items_eq(l, m, (n - 1) as nat) && value_eq(l[n - 1], m[n - 1])
    }
}

/// Whether the entry `e` equals one of the first `k` entries of `m`.
pub open spec fn has_partner(e: (Value, Value), m: Seq<(Value, Value)>, k: nat) -> bool
    decreases e, 0nat, k,
{
    if k == 0 || k > m.len() {
        false
    } else {
        has_partner(e, m, (k - 1) as nat) || (value_eq(e.0, m[k - 1].0) && value_eq(
            e.1,
            m[k - 1].1,
        ))
    }
}

/// Whether each of the first `n` entries of `l` equals some entry of `m`.
pub open spec fn included(l: Seq<(Value, Value)>, m: Seq<(Value, Value)>, n: nat) -> bool
    decreases l, 1nat, n,
{
    if n == 0 || n > l.len() {
        n == 0
    } else {
        included(l, m, (n - 1) as nat) && has_partner(l[n - 1], m, m.len())
    }
}

/// Whether one of the first `k` entries of `l` equals the entry `e`.
pub open spec fn partner_of(l: Seq<(Value, Value)>, e: (Value, Value), k: nat) -> bool
    decreases l, 1nat, k,
{
    if k == 0 || k > l.len() {
        false
    } else {
        partner_of(l, e, (k - 1) as nat) || (value_eq(l[k - 1].0, e.0) && value_eq(
            l[k - 1].1,
            e.1,
        ))
    }
}

/// Whether each of the first `n` entries of `m` is equalled by some entry of
/// `l`.
pub open spec fn covers(l: Seq<(Value, Value)>, m: Seq<(Value, Value)>, n: nat) -> bool
    decreases l, 2nat, n,
{
    if n == 0 || n > m.len() {
        n == 0
    } else {
        covers(l, m, (n - 1) as nat) && partner_of(l, m[n - 1], l.len())
    }
}

impl Variable {
    /// Whether two values are equal.
    pub fn equals(&self, other: &Variable) -> (r: bool)
        ensures
            r == value_eq(self@, other@),
        decreases self,
    {
        match (self, other) {
            (Variable::Bool(_, x), Variable::Bool(_, y)) => match (x, y) {
                (Some(a), Some(b)) => *a == *b,
                (None, None) => true,
                _ => false,
            },
            (Variable::Null(s), Variable::Null(t)) => type_equals(s, t),
            (Variable::String(_, x), Variable::String(_, y)) => match (x, y) {
                (Some(a), Some(b)) => a.as_str().eq(b.as_str()),
                (None, None) => true,
                _ => false,
            },
            (Variable::Integer(_, x), Variable::Integer(_, y)) => match (x, y) {
                (Some(a), Some(b)) => *a == *b,
                (None, None) => true,
                _ => false,
            },
            (Variable::Float(_, x), Variable::Float(_, y)) => match (x, y) {
                (Some(a), Some(b)) => a.equals(b),
                (None, None) => true,
                _ => false,
            },
            (Variable::Char(_, x), Variable::Char(_, y)) => match (x, y) {
                (Some(a), Some(b)) => *a == *b,
                (None, None) => true,
                _ => false,
            },
            (Variable::List(s, x), Variable::List(t, y)) => match (x, y) {
                (Some(l), Some(m)) => {
                    proof {
                        lemma_view_list(*s, *l);
                        lemma_view_list(*t, *m);
                    }
                    if l.len() != m.len() {
                        return false;
                    }
                    let mut i: usize = 0;
                    while i < l.len()
                        invariant
                            0 <= i <= l.len(),
                            l.len() == m.len(),
                            self matches Variable::List(_, Some(x)) && x == l,
                            items_eq(values(l@), values(m@), i as nat),
                            self@ == Value::List(*s, Some(values(l@))),
                            other@ == Value::List(*t, Some(values(m@))),
                        decreases l.len() - i,
                    {
                        proof {
                            vstd::std_specs::vec::axiom_vec_index_decreases(*l, i as int);
                        }
                        if !l[i].equals(&m[i]) {
                            proof {
                                lemma_items_eq_false(
                                    values(l@),
                                    values(m@),
                                    (i + 1) as nat,
                                    l@.len(),
                                );
                            }
                            return false;
                        }
                        i += 1;
                    }
                    true
                },
                (None, None) => true,
                _ => false,
            },
            (Variable::Mapping(s, x), Variable::Mapping(t, y)) => match (x, y) {
                (Some(l), Some(m)) => {
                    proof {
                        lemma_view_mapping(*s, *l);
                        lemma_view_mapping(*t, *m);
                    }
                    let mut i: usize = 0;
                    while i < l.len()
                        invariant
                            0 <= i <= l.len(),
                            self matches Variable::Mapping(_, Some(x)) && x == l,
                            included(entries(l@), entries(m@), i as nat),
                            self@ == Value::Mapping(*s, Some(entries(l@))),
                            other@ == Value::Mapping(*t, Some(entries(m@))),
                        decreases l.len() - i,
                    {
                        let mut found = false;
                        let mut j: usize = 0;
                        while j < m.len()
                            invariant
                                0 <= j <= m.len(),
                                0 <= i < l.len(),
                                self matches Variable::Mapping(_, Some(x)) && x == l,
                                found == has_partner(entries(l@)[i as int], entries(m@), j as nat),
                            decreases m.len() - j,
                        {
                            proof {
                                vstd::std_specs::vec::axiom_vec_index_decreases(*l, i as int);
                            }
                            if l[i].0.equals(&m[j].0) && l[i].1.equals(&m[j].1) {
                                found = true;
                            }
                            j += 1;
                        }
                        if !found {
                            proof {
                                lemma_included_false(
                                    entries(l@),
                                    entries(m@),
                                    (i + 1) as nat,
                                    l@.len(),
                                );
                            }
                            return false;
                        }
                        i += 1;
                    }
                    let mut j: usize = 0;
                    while j < m.len()
                        invariant
                            0 <= j <= m.len(),
                            self matches Variable::Mapping(_, Some(x)) && x == l,
                            included(entries(l@), entries(m@), l@.len()),
                            covers(entries(l@), entries(m@), j as nat),
                            self@ == Value::Mapping(*s, Some(entries(l@))),
                            other@ == Value::Mapping(*t, Some(entries(m@))),
                        decreases m.len() - j,
                    {
                        let mut found = false;
                        let mut i: usize = 0;
                        while i < l.len()
                            invariant
                                0 <= i <= l.len(),
                                0 <= j < m.len(),
                                self matches Variable::Mapping(_, Some(x)) && x == l,
                                found == partner_of(entries(l@), entries(m@)[j as int], i as nat),
                            decreases l.len() - i,
                        {
                            proof {
                                vstd::std_specs::vec::axiom_vec_index_decreases(*l, i as int);
                            }
                            if l[i].0.equals(&m[j].0) && l[i].1.equals(&m[j].1) {
                                found = true;
                            }
                            i += 1;
                        }
                        if !found {
                            proof {
                                lemma_covers_false(
                                    entries(l@),
                                    entries(m@),
                                    (j + 1) as nat,
                                    m@.len(),
                                );
                            }
                            return false;
                        }
                        j += 1;
                    }
                    true
                },
                (None, None) => true,
                _ => false,
            },
            (Variable::Optional(_, x), Variable::Optional(_, y)) => match (x, y) {
                (Some(Some(p)), Some(Some(q))) => (**p).equals(&**q),
                (Some(None), Some(None)) => true,
                (None, None) => true,
                _ => false,
            },
            (Variable::InStream(_, x), Variable::InStream(_, y)) => match (x, y) {
                (Some(a), Some(b)) => *a == *b,
                (None, None) => true,
                _ => false,
            },
            (Variable::OutStream(_, x), Variable::OutStream(_, y)) => match (x, y) {
                (Some(a), Some(b)) => *a == *b,
                (None, None) => true,
                _ => false,
            },
            _ => false,
        }
    }
}

/// Once two items differ, no longer run of items is equal.
pub proof fn lemma_items_eq_false(l: Seq<Value>, m: Seq<Value>, n: nat, k: nat)
    requires
        n <= k <= l.len(),
        l.len() == m.len(),
        !items_eq(l, m, n),
    ensures
        !items_eq(l, m, k),
    decreases k,
{
    if k > n {
        lemma_items_eq_false(l, m, n, (k - 1) as nat);
    }
}

/// Once an entry has no partner, no longer run of entries is included.
pub proof fn lemma_included_false(
    l: Seq<(Value, Value)>,
    m: Seq<(Value, Value)>,
    n: nat,
    k: nat,
)
    requires
        n <= k <= l.len(),
        !included(l, m, n),
    ensures
        !included(l, m, k),
    decreases k,
{
    if k > n {
        lemma_included_false(l, m, n, (k - 1) as nat);
    }
}

/// Once an entry is not covered, no longer run of entries is.
pub proof fn lemma_covers_false(l: Seq<(Value, Value)>, m: Seq<(Value, Value)>, n: nat, k: nat)
    requires
        n <= k <= m.len(),
        !covers(l, m, n),
    ensures
        !covers(l, m, k),
    decreases k,
{
    if k > n {
        lemma_covers_false(l, m, n, (k - 1) as nat);
    }
}

/// Whether two type descriptors are the same.
pub fn type_equals(a: &VarType, b: &VarType) -> (r: bool)
    ensures
        r == (*a == *b),
    decreases *a,
{
    match (a, b) {
        (VarType::Bool, VarType::Bool) => true,
        (VarType::String, VarType::String) => true,
        (VarType::Integer, VarType::Integer) => true,
        (VarType::Float, VarType::Float) => true,
        (VarType::Char, VarType::Char) => true,
        (VarType::List(x), VarType::List(y)) => type_equals(&**x, &**y),
        (VarType::Mapping(k, v), VarType::Mapping(l, w)) => type_equals(&**k, &**l)
            && type_equals(&**v, &**w),
        (VarType::Optional(x), VarType::Optional(y)) => type_equals(&**x, &**y),
        (VarType::InStream, VarType::InStream) => true,
        (VarType::OutStream, VarType::OutStream) => true,
        (VarType::Null, VarType::Null) => true,
        _ => false,
    }
}

} // verus!
