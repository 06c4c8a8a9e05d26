//! What the instructions compute: conversions, container access, arithmetic,
//! comparison and the predicates on containers, as functions from values to
//! a value.

use vstd::prelude::*;
use vstd::string::StringExecFns;
use vstd::string::StrSliceExecFns;
use crate::command_type::CommandType;
use crate::error::ScriptError;
use crate::float::{bits_zero, FloatModel, FloatValue};
use crate::path::{find_key, key_index};
use crate::text::{chars_of, parse_isize, signed_number, within};
use crate::var_type::VarType;
use crate::variable::{
    bytes_text, display, entries, items_bytes, lemma_view_list, lemma_view_mapping, list_bytes,
    text_of_bytes, value_eq, values, Value, Variable,
};

verus! {

/// The list of characters that holds the given bytes.
pub open spec fn char_values(bytes: Seq<u8>) -> Seq<Value> {
    Seq::new(bytes.len(), |i: int| Value::Char(VarType::Char, Some(bytes[i])))
}

/// The descriptor of a list of characters.
pub open spec fn char_list_type() -> VarType {
    VarType::List(Box::new(VarType::Char))
}

/// The value that holds the given bytes as a list of characters.
pub open spec fn char_list(bytes: Seq<u8>) -> Value {
    Value::List(char_list_type(), Some(char_values(bytes)))
}

/// A string value.
pub open spec fn text_value(s: Seq<char>) -> Value {
    Value::Text(VarType::String, Some(s))
}

/// A boolean value.
pub open spec fn bool_value(b: bool) -> Value {
    Value::Bool(VarType::Bool, Some(b))
}

/// An integer value.
pub open spec fn int_value(i: isize) -> Value {
    Value::Integer(VarType::Integer, Some(i))
}

/// A character value.
pub open spec fn char_value(c: u8) -> Value {
    Value::Char(VarType::Char, Some(c))
}

/// The bytes of a text in UTF-8.
pub open spec fn text_bytes(s: Seq<char>) -> Seq<u8> {
    vstd::utf8::encode_utf8(s)
}

/// The rendering of `v` as a string value.
pub open spec fn to_text(v: Value) -> Result<Value, ScriptError> {
    match display(v) {
        Ok(s) => Ok(text_value(s)),
        Err(e) => Err(e),
    }
}

/// The bytes of the string `v` as a list of characters.
pub open spec fn to_chars(v: Value) -> Result<Value, ScriptError> {
    match v.as_text() {
        Ok(s) => Ok(char_list(text_bytes(s))),
        Err(e) => Err(e),
    }
}

/// The integer that the string `v` writes.
pub open spec fn to_integer(v: Value) -> Result<Value, ScriptError> {
    match v.as_text() {
        Ok(s) => match within(signed_number(s), isize::MIN as int, isize::MAX as int) {
            Some(i) => Ok(int_value(i as isize)),
            None => Err(ScriptError::ParseVarError),
        },
        Err(e) => Err(e),
    }
}

/// The truth value of `v`: a container that is not empty, an optional that
/// holds a value, a number that is not zero, the strings `true` and `1`,
/// any open stream, and `true` itself. Everything else is false, a value
/// without payload included.
pub open spec fn truth(v: Value) -> bool {
    match v {
        Value::List(_, Some(l)) => l.len() != 0,
        Value::Text(_, Some(s)) => s == "true"@ || s == "1"@,
        Value::Char(_, Some(c)) => c != 0,
        Value::Integer(_, Some(i)) => i != 0,
        Value::Float(_, Some(f)) => !bits_zero(f.bits),
        Value::Bool(_, Some(b)) => b,
        Value::Mapping(_, Some(l)) => l.len() != 0,
        Value::Optional(_, Some(o)) => o is Some,
        Value::OutStream(_, Some(_)) => true,
        Value::InStream(_, Some(_)) => true,
        _ => false,
    }
}

/// The character that `v` stands for: the first byte of a string, a
/// character itself, the lowest eight bits of an integer.
pub open spec fn to_char(v: Value) -> Result<Value, ScriptError> {
    match v {
        Value::Text(_, Some(s)) => if text_bytes(s).len() > 0 {
            Ok(char_value(text_bytes(s)[0]))
        } else {
            Err(ScriptError::ParseVarError)
        },
        Value::Char(_, Some(c)) => Ok(char_value(c)),
        Value::Integer(_, Some(i)) => Ok(char_value((i & 0xff) as u8)),
        _ => Err(ScriptError::TypeMismatchError),
    }
}

/// The byte of the string `s` at the index `i`.
pub open spec fn symbol_at(s: Value, i: Value) -> Result<Value, ScriptError> {
    match i.as_int() {
        Err(e) => Err(e),
        Ok(n) => match s.as_text() {
            Err(e) => Err(e),
            Ok(t) => if 0 <= n < text_bytes(t).len() {
                Ok(char_value(text_bytes(t)[n as int]))
            } else {
                Err(ScriptError::UnknownVarError)
            },
        },
    }
}

/// The item of the list `l` at the index `i`.
pub open spec fn item_at(l: Value, i: Value) -> Result<Value, ScriptError> {
    match i.as_int() {
        Err(e) => Err(e),
        Ok(n) => match l.as_list() {
            Err(e) => Err(e),
            Ok(items) => if 0 <= n < items.len() {
                Ok(items[n as int])
            } else {
                Err(ScriptError::UnknownVarError)
            },
        },
    }
}

/// The value of the mapping `m` under a key equal to `k`.
pub open spec fn value_under(m: Value, k: Value) -> Result<Value, ScriptError> {
    match m.as_map() {
        Err(e) => Err(e),
        Ok(l) => match key_index(l, k, 0) {
            Some(j) => Ok(l[j as int].1),
            None => Err(ScriptError::UnknownVarError),
        },
    }
}

/// A count as an integer value.
pub open spec fn count_value(n: nat) -> Result<Value, ScriptError> {
    if n <= isize::MAX {
        Ok(int_value(n as isize))
    } else {
        Err(ScriptError::ParseVarError)
    }
}

/// The number of items of a list.
pub open spec fn list_size(v: Value) -> Result<Value, ScriptError> {
    match v.as_list() {
        Ok(l) => count_value(l.len()),
        Err(e) => Err(e),
    }
}

/// The number of entries of a mapping.
pub open spec fn map_size(v: Value) -> Result<Value, ScriptError> {
    match v.as_map() {
        Ok(l) => count_value(l.len()),
        Err(e) => Err(e),
    }
}

/// The number of bytes of a string.
pub open spec fn string_size(v: Value) -> Result<Value, ScriptError> {
    match v.as_text() {
        Ok(s) => count_value(text_bytes(s).len()),
        Err(e) => Err(e),
    }
}

/// Whether `sub` stands in `s` at the position `i`.
pub open spec fn occurs_at(s: Seq<char>, sub: Seq<char>, i: int) -> bool {
    0 <= i <= s.len() - sub.len() && s.subrange(i, i + sub.len()) == sub
}

/// Whether `sub` occurs in `s`.
pub open spec fn has_sub(s: Seq<char>, sub: Seq<char>) -> bool {
    exists|i: int| occurs_at(s, sub, i)
}

/// Whether one of the first `n` items of `l` equals `x`.
pub open spec fn has_item(l: Seq<Value>, x: Value, n: nat) -> bool
    decreases n,
{
    if n == 0 || n > l.len() {
        false
    } else {
        has_item(l, x, (n - 1) as nat) || value_eq(l[n - 1], x)
    }
}

/// Whether one of the first `n` entries of `l` has a value equal to `x`.
pub open spec fn has_value(l: Seq<(Value, Value)>, x: Value, n: nat) -> bool
    decreases n,
{
    if n == 0 || n > l.len() {
        false
    } else {
        has_value(l, x, (n - 1) as nat) || value_eq(l[n - 1].1, x)
    }
}

/// Whether one of the first `n` entries of `l` has a key equal to `k` and a
/// value equal to `x`.
pub open spec fn has_entry(l: Seq<(Value, Value)>, k: Value, x: Value, n: nat) -> bool
    decreases n,
{
    if n == 0 || n > l.len() {
        false
    } else {
        has_entry(l, k, x, (n - 1) as nat) || (value_eq(l[n - 1].0, k) && value_eq(l[n - 1].1, x))
    }
}

/// The text that `v` adds to a string: a string itself, the text that a
/// character or a list of characters encodes.
pub open spec fn as_addition(v: Value) -> Result<Seq<char>, ScriptError> {
    match v {
        Value::List(t, Some(l)) => if t == char_list_type() {
            match items_bytes(l, l.len()) {
                Ok(bytes) => bytes_text(bytes),
                Err(e) => Err(e),
            }
        } else {
            Err(ScriptError::TypeMismatchError)
        },
        Value::Text(_, Some(s)) => Ok(s),
        Value::Char(_, Some(c)) => bytes_text(seq![c]),
        _ => Err(ScriptError::TypeMismatchError),
    }
}

/// The string `v` with the text of `other` at its end.
pub open spec fn add_str(v: Value, other: Value) -> Result<Value, ScriptError> {
    match as_addition(other) {
        Err(e) => Err(e),
        Ok(more) => match v.as_text() {
            Err(e) => Err(e),
            Ok(s) => Ok(text_value(s + more)),
        },
    }
}

/// The sum of two integers, wrapped around at the ends of the machine's
/// integer range.
pub open spec fn wrapped_sum(a: isize, b: isize) -> isize {
    if a + b > isize::MAX {
        (a + b - (isize::MAX - isize::MIN + 1)) as isize
    } else if a + b < isize::MIN {
        (a + b + (isize::MAX - isize::MIN + 1)) as isize
    } else {
        (a + b) as isize
    }
}

/// The integer `v` plus the integer `other`.
pub open spec fn add_int(v: Value, other: Value) -> Result<Value, ScriptError> {
    match other.as_int() {
        Err(e) => Err(e),
        Ok(b) => match v.as_int() {
            Err(e) => Err(e),
            Ok(a) => Ok(int_value(wrapped_sum(a, b))),
        },
    }
}

/// The bounds of a slice: `start` and `end` as positions within `len`.
pub open spec fn slice_bounds(start: Value, end: Value, len: nat) -> Result<
    (int, int),
    ScriptError,
> {
    match start.as_int() {
        Err(e) => Err(e),
        Ok(a) => match end.as_int() {
            Err(e) => Err(e),
            Ok(b) => if 0 <= a <= b <= len {
                Ok((a as int, b as int))
            } else {
                Err(ScriptError::UnknownVarError)
            },
        },
    }
}

/// The part of the string `v` from the byte `start` up to the byte `end`.
pub open spec fn sub_str(v: Value, start: Value, end: Value) -> Result<Value, ScriptError> {
    match v.as_text() {
        Err(e) => Err(e),
        Ok(s) => match slice_bounds(start, end, text_bytes(s).len()) {
            Err(e) => Err(e),
            Ok((a, b)) => match bytes_text(text_bytes(s).subrange(a, b)) {
                Ok(t) => Ok(text_value(t)),
                Err(e) => Err(e),
            },
        },
    }
}

/// The part of the list `v` from the index `start` up to the index `end`,
/// under the descriptor of `v`.
pub open spec fn sub_list(v: Value, start: Value, end: Value) -> Result<Value, ScriptError> {
    match v {
        Value::List(t, Some(l)) => match slice_bounds(start, end, l.len()) {
            Err(e) => Err(e),
            Ok((a, b)) => Ok(Value::List(t, Some(l.subrange(a, b)))),
        },
        _ => Err(ScriptError::TypeMismatchError),
    }
}

/// The value that an optional holds; an empty optional has none.
pub open spec fn unpacked(v: Value) -> Result<Value, ScriptError> {
    match v.as_option() {
        Err(e) => Err(e),
        Ok(Some(b)) => Ok(*b),
        Ok(None) => Err(ScriptError::ParseVarError),
    }
}

/// An optional that holds `v`.
pub open spec fn packed(v: Value) -> Value {
    Value::Optional(VarType::Optional(Box::new(v.get_type())), Some(Some(Box::new(v))))
}

/// The empty optional of the type of the optional `v`.
pub open spec fn emptied(v: Value) -> Result<Value, ScriptError> {
    match v.get_option_type() {
        Ok(t) => Ok(Value::Optional(VarType::Optional(Box::new(t)), Some(None))),
        Err(e) => Err(e),
    }
}

/// The number that a value holds, for comparison.
pub enum NumberModel {
    Integer(isize),
    Float(FloatModel),
    Char(u8),
}

/// The number that `v` holds, if it is an initialised integer, float or
/// character.
pub open spec fn number_of(v: Value) -> Option<NumberModel> {
    match v {
        Value::Integer(_, Some(i)) => Some(NumberModel::Integer(i)),
        Value::Float(_, Some(f)) => Some(NumberModel::Float(f)),
        Value::Char(_, Some(c)) => Some(NumberModel::Char(c)),
        _ => None,
    }
}

/// The integer that a number without fraction holds.
pub open spec fn whole(n: NumberModel) -> Option<int> {
    match n {
        NumberModel::Integer(i) => Some(i as int),
        NumberModel::Char(c) => Some(c as int),
        NumberModel::Float(_) => None,
    }
}

/// A number, for comparison.
#[derive(Debug, PartialEq)]
pub enum Number {
    Integer(isize),
    Float(FloatValue),
    Char(u8),
}

impl View for Number {
    type V = NumberModel;

    open spec fn view(&self) -> NumberModel {
        match self {
            Number::Integer(i) => NumberModel::Integer(*i),
            Number::Float(f) => NumberModel::Float(f@),
            Number::Char(c) => NumberModel::Char(*c),
        }
    }
}

/// What an instruction asks of the host's floating-point arithmetic.
#[derive(Debug, PartialEq)]
pub enum Request {
    /// Read the text as a number.
    ParseFloat { text: String },
    /// Add the two numbers.
    AddFloat { left: FloatValue, right: FloatValue },
    /// Tell whether `a` is greater than `b`, or less where `greater`
    /// is not set.
    Compare { a: Number, b: Number, greater: bool },
}

/// The mathematical content of a `Request`.
pub enum RequestModel {
    ParseFloat { text: Seq<char> },
    AddFloat { left: FloatModel, right: FloatModel },
    Compare { a: NumberModel, b: NumberModel, greater: bool },
}

impl View for Request {
    type V = RequestModel;

    open spec fn view(&self) -> RequestModel {
        match self {
            Request::ParseFloat { text } => RequestModel::ParseFloat { text: text@ },
            Request::AddFloat { left, right } => RequestModel::AddFloat {
                left: left@,
                right: right@,
            },
            Request::Compare { a, b, greater } => RequestModel::Compare {
                a: a@,
                b: b@,
                greater: *greater,
            },
        }
    }
}

/// What an operation yields: a value, or a question to the host whose
/// answer is the value.
#[derive(Debug, PartialEq)]
pub enum Applied {
    Value(Variable),
    Ask(Request),
}

/// The mathematical content of an `Applied`.
pub enum AppliedModel {
    Value(Value),
    Ask(RequestModel),
}

impl View for Applied {
    type V = AppliedModel;

    open spec fn view(&self) -> AppliedModel {
        match self {
            Applied::Value(v) => AppliedModel::Value(v@),
            Applied::Ask(r) => AppliedModel::Ask(r@),
        }
    }
}

/// Whether `a` is greater than `b`, or less where `greater` is not set.
///
/// Integers and characters are compared as integers. Where a float takes
/// part, the host compares.
pub open spec fn compared(a: Value, b: Value, greater: bool) -> Result<AppliedModel, ScriptError> {
    match (number_of(a), number_of(b)) {
        (Some(x), Some(y)) => match (whole(x), whole(y)) {
            (Some(i), Some(j)) => Ok(
                AppliedModel::Value(
                    bool_value(
                        if greater {
                            i > j
                        } else {
                            i < j
                        },
                    ),
                ),
            ),
            _ => Ok(AppliedModel::Ask(RequestModel::Compare { a: x, b: y, greater })),
        },
        _ => Err(ScriptError::TypeMismatchError),
    }
}

/// The sum of the floats `v` and `other`, which the host computes.
pub open spec fn add_float(v: Value, other: Value) -> Result<AppliedModel, ScriptError> {
    match other.as_float() {
        Err(e) => Err(e),
        Ok(g) => match v.as_float() {
            Err(e) => Err(e),
            Ok(f) => Ok(AppliedModel::Ask(RequestModel::AddFloat { left: f, right: g })),
        },
    }
}

/// The float that the string `v` writes, which the host reads.
pub open spec fn to_float(v: Value) -> Result<AppliedModel, ScriptError> {
    match v.as_text() {
        Err(e) => Err(e),
        Ok(s) => Ok(AppliedModel::Ask(RequestModel::ParseFloat { text: s })),
    }
}

/// The list of characters that holds `bytes`.
pub fn chars_from_bytes(bytes: &Vec<u8>) -> (r: Variable)
    ensures
        r@ == char_list(bytes@),
{
    let mut items: Vec<Variable> = Vec::new();
    let mut i: usize = 0;
    while i < bytes.len()
        invariant
            0 <= i <= bytes.len(),
            items.len() == i,
            forall|j: int| 0 <= j < i ==> items@[j]@ == char_value(bytes@[j]),
        decreases bytes.len() - i,
    {
        items.push(Variable::from_char(Some(bytes[i])));
        i += 1;
    }
    assert(values(items@) =~= char_values(bytes@));
    Variable::from_list(Some(items), VarType::Char)
}

pub fn op_to_string(v: &Variable) -> (r: Result<Variable, ScriptError>)
    ensures
        match r {
            Ok(x) => to_text(v@) == Ok::<Value, ScriptError>(x@),
            Err(e) => to_text(v@) == Err::<Value, ScriptError>(e),
        },
{
    match v.to_string() {
        Ok(s) => Ok(Variable::from_str(Some(s))),
        Err(e) => Err(e),
    }
}

pub fn op_to_chars(v: &Variable) -> (r: Result<Variable, ScriptError>)
    ensures
        match r {
            Ok(x) => to_chars(v@) == Ok::<Value, ScriptError>(x@),
            Err(e) => to_chars(v@) == Err::<Value, ScriptError>(e),
        },
{
    match v.as_str() {
        Ok(s) => {
            let bytes = s.as_str().as_bytes_vec();
            Ok(chars_from_bytes(&bytes))
        },
        Err(e) => Err(e),
    }
}

pub fn op_to_integer(v: &Variable) -> (r: Result<Variable, ScriptError>)
    ensures
        match r {
            Ok(x) => to_integer(v@) == Ok::<Value, ScriptError>(x@),
            Err(e) => to_integer(v@) == Err::<Value, ScriptError>(e),
        },
{
    match v.as_str() {
        Ok(s) => match parse_isize(s.as_str()) {
            Some(i) => Ok(Variable::from_int(Some(i))),
            None => Err(ScriptError::ParseVarError),
        },
        Err(e) => Err(e),
    }
}

pub fn op_truth(v: &Variable) -> (r: bool)
    ensures
        r == truth(v@),
{
    match v {
        Variable::List(t, Some(l)) => {
            proof {
                lemma_view_list(*t, *l);
            }
            l.len() != 0
        },
        Variable::String(_, Some(s)) => s.as_str().eq("true") || s.as_str().eq("1"),
        Variable::Char(_, Some(c)) => *c != 0,
        Variable::Integer(_, Some(i)) => *i != 0,
        Variable::Float(_, Some(f)) => !f.is_zero(),
        Variable::Bool(_, Some(b)) => *b,
        Variable::Mapping(t, Some(l)) => {
            proof {
                lemma_view_mapping(*t, *l);
            }
            l.len() != 0
        },
        Variable::Optional(_, Some(o)) => o.is_some(),
        Variable::OutStream(_, Some(_)) => true,
        Variable::InStream(_, Some(_)) => true,
        _ => false,
    }
}

pub fn op_to_char(v: &Variable) -> (r: Result<Variable, ScriptError>)
    ensures
        match r {
            Ok(x) => to_char(v@) == Ok::<Value, ScriptError>(x@),
            Err(e) => to_char(v@) == Err::<Value, ScriptError>(e),
        },
{
    match v {
        Variable::String(_, Some(s)) => {
            let bytes = s.as_str().as_bytes_vec();
            if bytes.len() > 0 {
                Ok(Variable::from_char(Some(bytes[0])))
            } else {
                Err(ScriptError::ParseVarError)
            }
        },
        Variable::Char(_, Some(c)) => Ok(Variable::from_char(Some(*c))),
        Variable::Integer(_, Some(i)) => {
            let low: isize = *i & 0xff;
            assert(0 <= low <= 0xff) by (bit_vector)
                requires
                    low == *i & 0xff,
            ;
            Ok(Variable::from_char(Some(low as u8)))
        },
        _ => Err(ScriptError::TypeMismatchError),
    }
}

pub fn op_symbol_at(s: &Variable, i: &Variable) -> (r: Result<Variable, ScriptError>)
    ensures
        match r {
            Ok(x) => symbol_at(s@, i@) == Ok::<Value, ScriptError>(x@),
            Err(e) => symbol_at(s@, i@) == Err::<Value, ScriptError>(e),
        },
{
    let n = match i.as_int() {
        Ok(n) => n,
        Err(e) => {
            return Err(e);
        },
    };
    match s.as_str() {
        Err(e) => Err(e),
        Ok(t) => {
            let bytes = t.as_str().as_bytes_vec();
            if n >= 0 && (n as usize) < bytes.len() {
                Ok(Variable::from_char(Some(bytes[n as usize])))
            } else {
                Err(ScriptError::UnknownVarError)
            }
        },
    }
}

pub fn op_item_at(l: &Variable, i: &Variable) -> (r: Result<Variable, ScriptError>)
    ensures
        match r {
            Ok(x) => item_at(l@, i@) == Ok::<Value, ScriptError>(x@),
            Err(e) => item_at(l@, i@) == Err::<Value, ScriptError>(e),
        },
{
    let n = match i.as_int() {
        Ok(n) => n,
        Err(e) => {
            return Err(e);
        },
    };
    match l {
        Variable::List(t, Some(items)) => {
            proof {
                lemma_view_list(*t, *items);
            }
            if n >= 0 && (n as usize) < items.len() {
                Ok(items[n as usize].clone())
            } else {
                Err(ScriptError::UnknownVarError)
            }
        },
        _ => Err(ScriptError::TypeMismatchError),
    }
}

pub fn op_value_under(m: &Variable, k: &Variable) -> (r: Result<Variable, ScriptError>)
    ensures
        match r {
            Ok(x) => value_under(m@, k@) == Ok::<Value, ScriptError>(x@),
            Err(e) => value_under(m@, k@) == Err::<Value, ScriptError>(e),
        },
{
    match m {
        Variable::Mapping(t, Some(l)) => {
            proof {
                lemma_view_mapping(*t, *l);
            }
            match find_key(l, k) {
                Some(j) => Ok(l[j].1.clone()),
                None => Err(ScriptError::UnknownVarError),
            }
        },
        _ => Err(ScriptError::TypeMismatchError),
    }
}

pub fn count(n: usize) -> (r: Result<Variable, ScriptError>)
    ensures
        match r {
            Ok(x) => count_value(n as nat) == Ok::<Value, ScriptError>(x@),
            Err(e) => count_value(n as nat) == Err::<Value, ScriptError>(e),
        },
{
    if n <= isize::MAX as usize {
        Ok(Variable::from_int(Some(n as isize)))
    } else {
        Err(ScriptError::ParseVarError)
    }
}

pub fn op_list_size(v: &Variable) -> (r: Result<Variable, ScriptError>)
    ensures
        match r {
            Ok(x) => list_size(v@) == Ok::<Value, ScriptError>(x@),
            Err(e) => list_size(v@) == Err::<Value, ScriptError>(e),
        },
{
    match v {
        Variable::List(t, Some(l)) => {
            proof {
                lemma_view_list(*t, *l);
            }
            count(l.len())
        },
        _ => Err(ScriptError::TypeMismatchError),
    }
}

pub fn op_map_size(v: &Variable) -> (r: Result<Variable, ScriptError>)
    ensures
        match r {
            Ok(x) => map_size(v@) == Ok::<Value, ScriptError>(x@),
            Err(e) => map_size(v@) == Err::<Value, ScriptError>(e),
        },
{
    match v {
        Variable::Mapping(t, Some(l)) => {
            proof {
                lemma_view_mapping(*t, *l);
            }
            count(l.len())
        },
        _ => Err(ScriptError::TypeMismatchError),
    }
}

pub fn op_string_size(v: &Variable) -> (r: Result<Variable, ScriptError>)
    ensures
        match r {
            Ok(x) => string_size(v@) == Ok::<Value, ScriptError>(x@),
            Err(e) => string_size(v@) == Err::<Value, ScriptError>(e),
        },
{
    match v {
        Variable::String(_, Some(s)) => {
            let bytes = s.as_str().as_bytes_vec();
            count(bytes.len())
        },
        _ => Err(ScriptError::TypeMismatchError),
    }
}

/// Whether `sub` occurs in `s`.
pub fn contains_text(s: &str, sub: &str) -> (r: bool)
    ensures
        r == has_sub(s@, sub@),
{
    let a = chars_of(s);
    let b = chars_of(sub);
    if b.len() > a.len() {
        return false;
    }
    if b.len() == 0 {
        assert(a@.subrange(0, 0) =~= b@);
        assert(occurs_at(a@, b@, 0));
        return true;
    }
    let last: usize = a.len() - b.len();
    let mut i: usize = 0;
    while i <= last
        invariant
            0 <= i <= last + 1,
            last == a.len() - b.len(),
            b.len() > 0,
            a@ == s@,
            b@ == sub@,
            forall|k: int| 0 <= k < i ==> !occurs_at(a@, b@, k),
        decreases last + 1 - i,
    {
        let mut j: usize = 0;
        let mut same = true;
        assert(a@.subrange(i as int, i + 0) =~= b@.take(0));
        while j < b.len()
            invariant
                0 <= j <= b.len(),
                0 <= i <= last,
                last == a.len() - b.len(),
                same == (a@.subrange(i as int, i + j) == b@.take(j as int)),
            decreases b.len() - j,
        {
            if a[i + j] != b[j] {
                same = false;
            }
            proof {
                let x = a@.subrange(i as int, i + j + 1);
                let y = b@.take(j + 1);
                assert(x.drop_last() =~= a@.subrange(i as int, i + j));
                assert(y.drop_last() =~= b@.take(j as int));
                assert(x.last() == a@[i + j]);
                assert(y.last() == b@[j as int]);
                if x == y {
                    assert(x.drop_last() == y.drop_last());
                } else if a@[i + j] == b@[j as int] && a@.subrange(i as int, i + j) == b@.take(
                    j as int,
                ) {
                    assert(x =~= x.drop_last().push(x.last()));
                    assert(y =~= y.drop_last().push(y.last()));
                }
            }
            j += 1;
        }
        assert(b@.take(b.len() as int) =~= b@);
        if same {
            assert(occurs_at(a@, b@, i as int));
            return true;
        }
        i += 1;
    }
    false
}

pub fn op_has_item(l: &Vec<Variable>, x: &Variable) -> (r: bool)
    ensures
        r == has_item(values(l@), x@, l@.len()),
{
    let mut found = false;
    let mut i: usize = 0;
    while i < l.len()
        invariant
            0 <= i <= l.len(),
            found == has_item(values(l@), x@, i as nat),
        decreases l.len() - i,
    {
        if l[i].equals(x) {
            found = true;
        }
        i += 1;
    }
    found
}

pub fn op_has_value(l: &Vec<(Variable, Variable)>, x: &Variable) -> (r: bool)
    ensures
        r == has_value(entries(l@), x@, l@.len()),
{
    let mut found = false;
    let mut i: usize = 0;
    while i < l.len()
        invariant
            0 <= i <= l.len(),
            found == has_value(entries(l@), x@, i as nat),
        decreases l.len() - i,
    {
        if l[i].1.equals(x) {
            found = true;
        }
        i += 1;
    }
    found
}

pub fn op_has_entry(l: &Vec<(Variable, Variable)>, k: &Variable, x: &Variable) -> (r: bool)
    ensures
        r == has_entry(entries(l@), k@, x@, l@.len()),
{
    let mut found = false;
    let mut i: usize = 0;
    while i < l.len()
        invariant
            0 <= i <= l.len(),
            found == has_entry(entries(l@), k@, x@, i as nat),
        decreases l.len() - i,
    {
        if l[i].0.equals(k) && l[i].1.equals(x) {
            found = true;
        }
        i += 1;
    }
    found
}

pub fn addition_of(v: &Variable) -> (r: Result<String, ScriptError>)
    ensures
        match r {
            Ok(s) => as_addition(v@) == Ok::<Seq<char>, ScriptError>(s@),
            Err(e) => as_addition(v@) == Err::<Seq<char>, ScriptError>(e),
        },
{
    match v {
        Variable::List(t, Some(l)) => {
            proof {
                lemma_view_list(*t, *l);
            }
            let is_chars = match t {
                VarType::List(inner) => match **inner {
                    VarType::Char => true,
                    _ => false,
                },
                _ => false,
            };
            if is_chars {
                match list_bytes(l) {
                    Ok(bytes) => text_of_bytes(bytes),
                    Err(e) => Err(e),
                }
            } else {
                Err(ScriptError::TypeMismatchError)
            }
        },
        Variable::String(_, Some(s)) => Ok(s.clone()),
        Variable::Char(_, Some(c)) => {
            let mut bytes: Vec<u8> = Vec::new();
            bytes.push(*c);
            assert(bytes@ =~= seq![*c]);
            text_of_bytes(bytes)
        },
        _ => Err(ScriptError::TypeMismatchError),
    }
}

pub fn op_add_str(v: &Variable, other: &Variable) -> (r: Result<Variable, ScriptError>)
    ensures
        match r {
            Ok(x) => add_str(v@, other@) == Ok::<Value, ScriptError>(x@),
            Err(e) => add_str(v@, other@) == Err::<Value, ScriptError>(e),
        },
{
    match addition_of(other) {
        Err(e) => Err(e),
        Ok(more) => match v.as_str() {
            Err(e) => Err(e),
            Ok(s) => Ok(Variable::from_str(Some(s.concat(more.as_str())))),
        },
    }
}

pub fn op_add_int(v: &Variable, other: &Variable) -> (r: Result<Variable, ScriptError>)
    ensures
        match r {
            Ok(x) => add_int(v@, other@) == Ok::<Value, ScriptError>(x@),
            Err(e) => add_int(v@, other@) == Err::<Value, ScriptError>(e),
        },
{
    match other.as_int() {
        Err(e) => Err(e),
        Ok(b) => match v.as_int() {
            Err(e) => Err(e),
            Ok(a) => Ok(Variable::from_int(Some(a.wrapping_add(b)))),
        },
    }
}

pub fn bounds(start: &Variable, end: &Variable, len: usize) -> (r: Result<
    (usize, usize),
    ScriptError,
>)
    ensures
        match r {
            Ok((a, b)) => slice_bounds(start@, end@, len as nat) == Ok::<(int, int), ScriptError>(
                (a as int, b as int),
            ) && a <= b <= len,
            Err(e) => slice_bounds(start@, end@, len as nat) == Err::<(int, int), ScriptError>(e),
        },
{
    match start.as_int() {
        Err(e) => Err(e),
        Ok(a) => match end.as_int() {
            Err(e) => Err(e),
            Ok(b) => if 0 <= a && a <= b && (b as usize) <= len {
                Ok((a as usize, b as usize))
            } else {
                Err(ScriptError::UnknownVarError)
            },
        },
    }
}

/// A copy of the bytes of `v` from `from` up to `to`.
pub fn sub_bytes(v: &Vec<u8>, from: usize, to: usize) -> (r: Vec<u8>)
    requires
        from <= to <= v.len(),
    ensures
        r@ == v@.subrange(from as int, to as int),
{
    let mut out: Vec<u8> = Vec::new();
    let mut i: usize = from;
    while i < to
        invariant
            from <= i <= to <= v.len(),
            out@ == v@.subrange(from as int, i as int),
        decreases to - i,
    {
        out.push(v[i]);
        i += 1;
        assert(out@ =~= v@.subrange(from as int, i as int));
    }
    out
}

pub fn op_sub_str(v: &Variable, start: &Variable, end: &Variable) -> (r: Result<
    Variable,
    ScriptError,
>)
    ensures
        match r {
            Ok(x) => sub_str(v@, start@, end@) == Ok::<Value, ScriptError>(x@),
            Err(e) => sub_str(v@, start@, end@) == Err::<Value, ScriptError>(e),
        },
{
    match v.as_str() {
        Err(e) => Err(e),
        Ok(s) => {
            let bytes = s.as_str().as_bytes_vec();
            match bounds(start, end, bytes.len()) {
                Err(e) => Err(e),
                Ok((a, b)) => match text_of_bytes(sub_bytes(&bytes, a, b)) {
                    Ok(t) => Ok(Variable::from_str(Some(t))),
                    Err(e) => Err(e),
                },
            }
        },
    }
}

pub fn op_sub_list(v: &Variable, start: &Variable, end: &Variable) -> (r: Result<
    Variable,
    ScriptError,
>)
    ensures
        match r {
            Ok(x) => sub_list(v@, start@, end@) == Ok::<Value, ScriptError>(x@),
            Err(e) => sub_list(v@, start@, end@) == Err::<Value, ScriptError>(e),
        },
{
    match v {
        Variable::List(t, Some(l)) => {
            proof {
                lemma_view_list(*t, *l);
            }
            match bounds(start, end, l.len()) {
                Err(e) => Err(e),
                Ok((a, b)) => {
                    let mut out: Vec<Variable> = Vec::new();
                    let mut i: usize = a;
                    while i < b
                        invariant
                            a <= i <= b <= l.len(),
                            out.len() == i - a,
                            forall|j: int| 0 <= j < i - a ==> out@[j]@ == l@[a + j]@,
                        decreases b - i,
                    {
                        out.push(l[i].clone());
                        i += 1;
                    }
                    proof {
                        lemma_view_list(*t, out);
                        assert(values(out@) =~= values(l@).subrange(a as int, b as int));
                    }
                    Ok(Variable::List(t.clone(), Some(out)))
                },
            }
        },
        _ => Err(ScriptError::TypeMismatchError),
    }
}

pub fn op_unpack(v: &Variable) -> (r: Result<Variable, ScriptError>)
    ensures
        match r {
            Ok(x) => unpacked(v@) == Ok::<Value, ScriptError>(x@),
            Err(e) => unpacked(v@) == Err::<Value, ScriptError>(e),
        },
{
    match v {
        Variable::Optional(_, Some(Some(b))) => Ok((**b).clone()),
        Variable::Optional(_, Some(None)) => Err(ScriptError::ParseVarError),
        _ => Err(ScriptError::TypeMismatchError),
    }
}

pub fn op_pack(v: &Variable) -> (r: Variable)
    ensures
        r@ == packed(v@),
{
    Variable::from_optional(Some(Some(v.clone())), v.get_type())
}

pub fn op_empty(v: &Variable) -> (r: Result<Variable, ScriptError>)
    ensures
        match r {
            Ok(x) => emptied(v@) == Ok::<Value, ScriptError>(x@),
            Err(e) => emptied(v@) == Err::<Value, ScriptError>(e),
        },
{
    match v.get_option_type() {
        Ok(t) => Ok(Variable::from_optional(Some(None), t)),
        Err(e) => Err(e),
    }
}

pub fn number(v: &Variable) -> (r: Option<Number>)
    ensures
        match r {
            Some(n) => number_of(v@) == Some(n@),
            None => number_of(v@) is None,
        },
{
    match v {
        Variable::Integer(_, Some(i)) => Some(Number::Integer(*i)),
        Variable::Float(_, Some(f)) => Some(Number::Float(f.clone())),
        Variable::Char(_, Some(c)) => Some(Number::Char(*c)),
        _ => None,
    }
}

pub fn op_compare(a: &Variable, b: &Variable, greater: bool) -> (r: Result<Applied, ScriptError>)
    ensures
        match r {
            Ok(x) => compared(a@, b@, greater) == Ok::<AppliedModel, ScriptError>(x@),
            Err(e) => compared(a@, b@, greater) == Err::<AppliedModel, ScriptError>(e),
        },
{
    let x = match number(a) {
        Some(x) => x,
        None => {
            return Err(ScriptError::TypeMismatchError);
        },
    };
    let y = match number(b) {
        Some(y) => y,
        None => {
            return Err(ScriptError::TypeMismatchError);
        },
    };
    let i: Option<i128> = match &x {
        Number::Integer(i) => Some(*i as i128),
        Number::Char(c) => Some(*c as i128),
        Number::Float(_) => None,
    };
    let j: Option<i128> = match &y {
        Number::Integer(i) => Some(*i as i128),
        Number::Char(c) => Some(*c as i128),
        Number::Float(_) => None,
    };
    match (i, j) {
        (Some(i), Some(j)) => Ok(
            Applied::Value(
                Variable::from_bool(
                    Some(
                        if greater {
                            i > j
                        } else {
                            i < j
                        },
                    ),
                ),
            ),
        ),
        _ => Ok(Applied::Ask(Request::Compare { a: x, b: y, greater })),
    }
}

pub fn op_add_float(v: &Variable, other: &Variable) -> (r: Result<Applied, ScriptError>)
    ensures
        match r {
            Ok(x) => add_float(v@, other@) == Ok::<AppliedModel, ScriptError>(x@),
            Err(e) => add_float(v@, other@) == Err::<AppliedModel, ScriptError>(e),
        },
{
    match other.as_float() {
        Err(e) => Err(e),
        Ok(g) => match v.as_float() {
            Err(e) => Err(e),
            Ok(f) => Ok(Applied::Ask(Request::AddFloat { left: f, right: g })),
        },
    }
}

pub fn op_to_float(v: &Variable) -> (r: Result<Applied, ScriptError>)
    ensures
        match r {
            Ok(x) => to_float(v@) == Ok::<AppliedModel, ScriptError>(x@),
            Err(e) => to_float(v@) == Err::<AppliedModel, ScriptError>(e),
        },
{
    match v.as_str() {
        Err(e) => Err(e),
        Ok(s) => Ok(Applied::Ask(Request::ParseFloat { text: s })),
    }
}

/// For an instruction that computes a value from operands: how many of its
/// first arguments name the operands, and which argument names the variable
/// that takes the value. `None` for every other instruction.
pub open spec fn signature(kind: CommandType) -> Option<(nat, nat)> {
    match kind {
        CommandType::CopyVar => Some((1nat, 1nat)),
        CommandType::ToString => Some((1nat, 1nat)),
        CommandType::ToChars => Some((1nat, 1nat)),
        CommandType::ToInteger => Some((1nat, 1nat)),
        CommandType::ToFloat => Some((1nat, 1nat)),
        CommandType::ToChar => Some((1nat, 1nat)),
        CommandType::ToBool => Some((1nat, 1nat)),
        CommandType::GetSymbol => Some((2nat, 2nat)),
        CommandType::GetItem => Some((2nat, 2nat)),
        CommandType::GetValue => Some((2nat, 2nat)),
        CommandType::AddInt => Some((2nat, 0nat)),
        CommandType::AddFloat => Some((2nat, 0nat)),
        CommandType::AddStr => Some((2nat, 0nat)),
        CommandType::SubStr => Some((3nat, 0nat)),
        CommandType::SubList => Some((3nat, 0nat)),
        CommandType::ListSize => Some((1nat, 1nat)),
        CommandType::MapSize => Some((1nat, 1nat)),
        CommandType::StringSize => Some((1nat, 1nat)),
        CommandType::Equals => Some((2nat, 2nat)),
        CommandType::More => Some((2nat, 2nat)),
        CommandType::Less => Some((2nat, 2nat)),
        CommandType::And => Some((2nat, 2nat)),
        CommandType::Or => Some((2nat, 2nat)),
        CommandType::Not => Some((1nat, 1nat)),
        CommandType::HasStr => Some((2nat, 2nat)),
        CommandType::HasItem => Some((2nat, 2nat)),
        CommandType::HasEntry => Some((3nat, 3nat)),
        CommandType::HasKey => Some((2nat, 2nat)),
        CommandType::HasValue => Some((2nat, 2nat)),
        CommandType::HasOptional => Some((1nat, 1nat)),
        CommandType::UnpackOptional => Some((1nat, 1nat)),
        CommandType::PackOptional => Some((1nat, 1nat)),
        CommandType::NoneOptional => Some((1nat, 0nat)),
        _ => None,
    }
}

/// The signature of an instruction that computes a value.
pub fn signature_of(kind: CommandType) -> (r: Option<(usize, usize)>)
    ensures
        match r {
            Some((n, t)) => signature(kind) == Some((n as nat, t as nat)) && 1 <= n <= 3 && t <= n,
            None => signature(kind) is None,
        },
{
    match kind {
        CommandType::CopyVar => Some((1, 1)),
        CommandType::ToString => Some((1, 1)),
        CommandType::ToChars => Some((1, 1)),
        CommandType::ToInteger => Some((1, 1)),
        CommandType::ToFloat => Some((1, 1)),
        CommandType::ToChar => Some((1, 1)),
        CommandType::ToBool => Some((1, 1)),
        CommandType::GetSymbol => Some((2, 2)),
        CommandType::GetItem => Some((2, 2)),
        CommandType::GetValue => Some((2, 2)),
        CommandType::AddInt => Some((2, 0)),
        CommandType::AddFloat => Some((2, 0)),
        CommandType::AddStr => Some((2, 0)),
        CommandType::SubStr => Some((3, 0)),
        CommandType::SubList => Some((3, 0)),
        CommandType::ListSize => Some((1, 1)),
        CommandType::MapSize => Some((1, 1)),
        CommandType::StringSize => Some((1, 1)),
        CommandType::Equals => Some((2, 2)),
        CommandType::More => Some((2, 2)),
        CommandType::Less => Some((2, 2)),
        CommandType::And => Some((2, 2)),
        CommandType::Or => Some((2, 2)),
        CommandType::Not => Some((1, 1)),
        CommandType::HasStr => Some((2, 2)),
        CommandType::HasItem => Some((2, 2)),
        CommandType::HasEntry => Some((3, 3)),
        CommandType::HasKey => Some((2, 2)),
        CommandType::HasValue => Some((2, 2)),
        CommandType::HasOptional => Some((1, 1)),
        CommandType::UnpackOptional => Some((1, 1)),
        CommandType::PackOptional => Some((1, 1)),
        CommandType::NoneOptional => Some((1, 0)),
        _ => None,
    }
}

/// A value as the outcome of an operation.
pub open spec fn plain(r: Result<Value, ScriptError>) -> Result<AppliedModel, ScriptError> {
    match r {
        Ok(v) => Ok(AppliedModel::Value(v)),
        Err(e) => Err(e),
    }
}

/// A truth value as the outcome of an operation.
pub open spec fn flag(r: Result<bool, ScriptError>) -> Result<AppliedModel, ScriptError> {
    match r {
        Ok(b) => Ok(AppliedModel::Value(bool_value(b))),
        Err(e) => Err(e),
    }
}

/// Both truth values, the first operand's error first.
pub open spec fn both_bools(a: Value, b: Value) -> Result<(bool, bool), ScriptError> {
    match a.as_bool() {
        Err(e) => Err(e),
        Ok(x) => match b.as_bool() {
            Err(e) => Err(e),
            Ok(y) => Ok((x, y)),
        },
    }
}

/// What an instruction of the given kind computes from the values of its
/// operands, in the order of its arguments.
pub open spec fn apply(kind: CommandType, v: Seq<Value>) -> Result<AppliedModel, ScriptError> {
    match kind {
        CommandType::CopyVar => Ok(AppliedModel::Value(v[0])),
        CommandType::ToString => plain(to_text(v[0])),
        CommandType::ToChars => plain(to_chars(v[0])),
        CommandType::ToInteger => plain(to_integer(v[0])),
        CommandType::ToFloat => to_float(v[0]),
        CommandType::ToChar => plain(to_char(v[0])),
        CommandType::ToBool => Ok(AppliedModel::Value(bool_value(truth(v[0])))),
        CommandType::GetSymbol => plain(symbol_at(v[0], v[1])),
        CommandType::GetItem => plain(item_at(v[0], v[1])),
        CommandType::GetValue => plain(value_under(v[0], v[1])),
        CommandType::AddInt => plain(add_int(v[0], v[1])),
        CommandType::AddFloat => add_float(v[0], v[1]),
        CommandType::AddStr => plain(add_str(v[0], v[1])),
        CommandType::SubStr => plain(sub_str(v[0], v[1], v[2])),
        CommandType::SubList => plain(sub_list(v[0], v[1], v[2])),
        CommandType::ListSize => plain(list_size(v[0])),
        CommandType::MapSize => plain(map_size(v[0])),
        CommandType::StringSize => plain(string_size(v[0])),
        CommandType::Equals => Ok(AppliedModel::Value(bool_value(value_eq(v[0], v[1])))),
        CommandType::More => compared(v[0], v[1], true),
        CommandType::Less => compared(v[0], v[1], false),
        CommandType::And => flag(
            match both_bools(v[0], v[1]) {
                Ok((x, y)) => Ok(x && y),
                Err(e) => Err(e),
            },
        ),
        CommandType::Or => flag(
            match both_bools(v[0], v[1]) {
                Ok((x, y)) => Ok(x || y),
                Err(e) => Err(e),
            },
        ),
        CommandType::Not => flag(
            match v[0].as_bool() {
                Ok(x) => Ok(!x),
                Err(e) => Err(e),
            },
        ),
        CommandType::HasStr => flag(
            match v[0].as_text() {
                Err(e) => Err(e),
                Ok(s) => match v[1].as_text() {
                    Err(e) => Err(e),
                    Ok(sub) => Ok(has_sub(s, sub)),
                },
            },
        ),
        CommandType::HasItem => flag(
            match v[0].as_list() {
                Err(e) => Err(e),
                Ok(l) => Ok(has_item(l, v[1], l.len())),
            },
        ),
        CommandType::HasEntry => flag(
            match v[0].as_map() {
                Err(e) => Err(e),
                Ok(l) => Ok(has_entry(l, v[1], v[2], l.len())),
            },
        ),
        CommandType::HasKey => flag(
            match v[0].as_map() {
                Err(e) => Err(e),
                Ok(l) => Ok(key_index(l, v[1], 0) is Some),
            },
        ),
        CommandType::HasValue => flag(
            match v[0].as_map() {
                Err(e) => Err(e),
                Ok(l) => Ok(has_value(l, v[1], l.len())),
            },
        ),
        CommandType::HasOptional => flag(
            match v[0].as_option() {
                Err(e) => Err(e),
                Ok(o) => Ok(o is Some),
            },
        ),
        CommandType::UnpackOptional => plain(unpacked(v[0])),
        CommandType::PackOptional => Ok(AppliedModel::Value(packed(v[0]))),
        CommandType::NoneOptional => plain(emptied(v[0])),
        _ => Err(ScriptError::CommandUnknownError),
    }
}

fn value(r: Result<Variable, ScriptError>) -> (a: Result<Applied, ScriptError>)
    ensures
        match (r, a) {
            (Ok(v), Ok(x)) => x@ == AppliedModel::Value(v@),
            (Err(e), Err(f)) => e == f,
            _ => false,
        },
{
    match r {
        Ok(v) => Ok(Applied::Value(v)),
        Err(e) => Err(e),
    }
}

fn truth_value(b: bool) -> (a: Result<Applied, ScriptError>)
    ensures
        a matches Ok(x) && x@ == AppliedModel::Value(bool_value(b)),
{
    Ok(Applied::Value(Variable::from_bool(Some(b))))
}

/// Computes what an instruction of the given kind computes from the values
/// of its operands.
pub fn apply_to(kind: CommandType, v: &Vec<Variable>) -> (r: Result<Applied, ScriptError>)
    requires
        signature(kind) matches Some((n, _)) && v.len() == n,
    ensures
        match r {
            Ok(x) => apply(kind, values(v@)) == Ok::<AppliedModel, ScriptError>(x@),
            Err(e) => apply(kind, values(v@)) == Err::<AppliedModel, ScriptError>(e),
        },
{
    match kind {
        CommandType::CopyVar => value(Ok(v[0].clone())),
        CommandType::ToString => value(op_to_string(&v[0])),
        CommandType::ToChars => value(op_to_chars(&v[0])),
        CommandType::ToInteger => value(op_to_integer(&v[0])),
        CommandType::ToFloat => op_to_float(&v[0]),
        CommandType::ToChar => value(op_to_char(&v[0])),
        CommandType::ToBool => truth_value(op_truth(&v[0])),
        CommandType::GetSymbol => value(op_symbol_at(&v[0], &v[1])),
        CommandType::GetItem => value(op_item_at(&v[0], &v[1])),
        CommandType::GetValue => value(op_value_under(&v[0], &v[1])),
        CommandType::AddInt => value(op_add_int(&v[0], &v[1])),
        CommandType::AddFloat => op_add_float(&v[0], &v[1]),
        CommandType::AddStr => value(op_add_str(&v[0], &v[1])),
        CommandType::SubStr => value(op_sub_str(&v[0], &v[1], &v[2])),
        CommandType::SubList => value(op_sub_list(&v[0], &v[1], &v[2])),
        CommandType::ListSize => value(op_list_size(&v[0])),
        CommandType::MapSize => value(op_map_size(&v[0])),
        CommandType::StringSize => value(op_string_size(&v[0])),
        CommandType::Equals => truth_value(v[0].equals(&v[1])),
        CommandType::More => op_compare(&v[0], &v[1], true),
        CommandType::Less => op_compare(&v[0], &v[1], false),
        CommandType::And => match v[0].as_bool() {
            Err(e) => Err(e),
            Ok(x) => match v[1].as_bool() {
                Err(e) => Err(e),
                Ok(y) => truth_value(x && y),
            },
        },
        CommandType::Or => match v[0].as_bool() {
            Err(e) => Err(e),
            Ok(x) => match v[1].as_bool() {
                Err(e) => Err(e),
                Ok(y) => truth_value(x || y),
            },
        },
        CommandType::Not => match v[0].as_bool() {
            Err(e) => Err(e),
            Ok(x) => truth_value(!x),
        },
        CommandType::HasStr => match v[0].as_str() {
            Err(e) => Err(e),
            Ok(s) => match v[1].as_str() {
                Err(e) => Err(e),
                Ok(sub) => truth_value(contains_text(s.as_str(), sub.as_str())),
            },
        },
        CommandType::HasItem => match &v[0] {
            Variable::List(t, Some(l)) => {
                proof {
                    lemma_view_list(*t, *l);
                }
                truth_value(op_has_item(l, &v[1]))
            },
            _ => Err(ScriptError::TypeMismatchError),
        },
        CommandType::HasEntry => match &v[0] {
            Variable::Mapping(t, Some(l)) => {
                proof {
                    lemma_view_mapping(*t, *l);
                }
                truth_value(op_has_entry(l, &v[1], &v[2]))
            },
            _ => Err(ScriptError::TypeMismatchError),
        },
        CommandType::HasKey => match &v[0] {
            Variable::Mapping(t, Some(l)) => {
                proof {
                    lemma_view_mapping(*t, *l);
                }
                truth_value(find_key(l, &v[1]).is_some())
            },
            _ => Err(ScriptError::TypeMismatchError),
        },
        CommandType::HasValue => match &v[0] {
            Variable::Mapping(t, Some(l)) => {
                proof {
                    lemma_view_mapping(*t, *l);
                }
                truth_value(op_has_value(l, &v[1]))
            },
            _ => Err(ScriptError::TypeMismatchError),
        },
        CommandType::HasOptional => match &v[0] {
            Variable::Optional(_, Some(o)) => truth_value(o.is_some()),
            _ => Err(ScriptError::TypeMismatchError),
        },
        CommandType::UnpackOptional => value(op_unpack(&v[0])),
        CommandType::PackOptional => value(Ok(op_pack(&v[0]))),
        CommandType::NoneOptional => value(op_empty(&v[0])),
        _ => Err(ScriptError::CommandUnknownError),
    }
}

} // verus!
