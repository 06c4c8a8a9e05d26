//! Type descriptors and their textual notation.

use vstd::prelude::*;
use crate::error::ScriptError;
use crate::text::{chars_of, chars_are, sub_chars};

verus! {

/// The structural type of a value: a scalar, or a list, mapping or optional
/// of other types.
#[derive(Debug, PartialEq, Eq, Hash)]
pub enum VarType {
    Bool,
    String,
    Integer,
    Float,
    Char,
    List(Box<VarType>),
    Mapping(Box<VarType>, Box<VarType>),
    Optional(Box<VarType>),
    InStream,
    OutStream,
    Null,
}

impl Clone for VarType {
    fn clone(&self) -> (r: Self)
        ensures
            r == *self,
        decreases *self,
    {
        match self {
            VarType::Bool => VarType::Bool,
            VarType::String => VarType::String,
            VarType::Integer => VarType::Integer,
            VarType::Float => VarType::Float,
            VarType::Char => VarType::Char,
            VarType::List(t) => VarType::List(Box::new((**t).clone())),
            VarType::Mapping(k, v) => VarType::Mapping(
                Box::new((**k).clone()),
                Box::new((**v).clone()),
            ),
            VarType::Optional(t) => VarType::Optional(Box::new((**t).clone())),
            VarType::InStream => VarType::InStream,
            VarType::OutStream => VarType::OutStream,
            VarType::Null => VarType::Null,
        }
    }
}

/// The scalar type that a keyword or one of its short forms names.
pub open spec fn keyword_type(s: Seq<char>) -> Option<VarType> {
    if s == "bool"@ || s == "b"@ {
        Some(VarType::Bool)
    } else if s == "string"@ || s == "str"@ || s == "s"@ {
        Some(VarType::String)
    } else if s == "integer"@ || s == "int"@ || s == "i"@ {
        Some(VarType::Integer)
    } else if s == "float"@ || s == "f"@ {
        Some(VarType::Float)
    } else if s == "char"@ || s == "c"@ {
        Some(VarType::Char)
    } else if s == "in_stream"@ || s == "in"@ {
        Some(VarType::InStream)
    } else if s == "out_stream"@ || s == "out"@ {
        Some(VarType::OutStream)
    } else if s == "null"@ {
        Some(VarType::Null)
    } else {
        None
    }
}

/// The bracket depth after `s`: opening brackets minus closing ones.
pub open spec fn depth(s: Seq<char>) -> int
    decreases s.len(),
{
    if s.len() == 0 {
        0
    } else {
        depth(s.drop_last()) + if s.last() == '[' {
            1int
        } else if s.last() == ']' {
            -1int
        } else {
            0int
        }
    }
}

/// Whether position `i` of `s` holds a comma outside every bracket.
pub open spec fn is_top_comma(s: Seq<char>, i: int) -> bool {
    0 <= i < s.len() && s[i] == ',' && depth(s.take(i)) == 0
}

/// The first comma of `s` outside every bracket, looked for from `from` on.
pub open spec fn top_comma_from(s: Seq<char>, from: int) -> Option<int>
    decreases s.len() - from,
{
    if from < 0 || from >= s.len() {
        None
    } else if is_top_comma(s, from) {
        Some(from)
    } else {
        top_comma_from(s, from + 1)
    }
}

/// Whether `s` is `opener`, then anything, then a closing bracket.
pub open spec fn is_bracketed(s: Seq<char>, opener: Seq<char>) -> bool {
    s.len() > opener.len() && s.take(opener.len() as int) == opener && s.last() == ']'
}

/// What stands between `opener` and the closing bracket of `s`.
pub open spec fn bracket_body(s: Seq<char>, opener: Seq<char>) -> Seq<char> {
    s.subrange(opener.len() as int, s.len() - 1)
}

pub open spec fn map_opener() -> Seq<char> {
    seq!['m', 'a', 'p', '[']
}

pub open spec fn list_opener() -> Seq<char> {
    seq!['l', 'i', 's', 't', '[']
}

pub open spec fn optional_opener() -> Seq<char> {
    seq!['o', 'p', 't', 'i', 'o', 'n', 'a', 'l', '[']
}

/// The type that the notation `s` denotes: `list[T]`, `map[K,V]` split at its
/// first comma outside brackets, `optional[T]`, or a scalar keyword.
pub open spec fn parse_type(s: Seq<char>) -> Option<VarType>
    decreases s.len(),
{
    if is_bracketed(s, map_opener()) {
        let body = bracket_body(s, map_opener());
        match top_comma_from(body, 0) {
            Some(i) => if 0 <= i < body.len() {
                match (parse_type(body.take(i)), parse_type(body.skip(i + 1))) {
                    (Some(k), Some(v)) => Some(VarType::Mapping(Box::new(k), Box::new(v))),
                    _ => None,
                }
            } else {
                None
            },
            None => None,
        }
    } else if is_bracketed(s, list_opener()) {
        match parse_type(bracket_body(s, list_opener())) {
            Some(t) => Some(VarType::List(Box::new(t))),
            None => None,
        }
    } else if is_bracketed(s, optional_opener()) {
        match parse_type(bracket_body(s, optional_opener())) {
            Some(t) => Some(VarType::Optional(Box::new(t))),
            None => None,
        }
    } else {
        keyword_type(s)
    }
}

fn keyword(v: &Vec<char>) -> (r: Option<VarType>)
    ensures
        r == keyword_type(v@),
{
    if chars_are(v, "bool") || chars_are(v, "b") {
        Some(VarType::Bool)
    } else if chars_are(v, "string") || chars_are(v, "str") || chars_are(v, "s") {
        Some(VarType::String)
    } else if chars_are(v, "integer") || chars_are(v, "int") || chars_are(v, "i") {
        Some(VarType::Integer)
    } else if chars_are(v, "float") || chars_are(v, "f") {
        Some(VarType::Float)
    } else if chars_are(v, "char") || chars_are(v, "c") {
        Some(VarType::Char)
    } else if chars_are(v, "in_stream") || chars_are(v, "in") {
        Some(VarType::InStream)
    } else if chars_are(v, "out_stream") || chars_are(v, "out") {
        Some(VarType::OutStream)
    } else if chars_are(v, "null") {
        Some(VarType::Null)
    } else {
        None
    }
}

fn find_top_comma(v: &Vec<char>) -> (r: Option<usize>)
    ensures
        match r {
            Some(i) => top_comma_from(v@, 0) == Some(i as int) && i < v.len(),
            None => top_comma_from(v@, 0) is None,
        },
{
    let mut i: usize = 0;
    let mut d: i128 = 0;
    while i < v.len()
        invariant
            0 <= i <= v.len(),
            d == depth(v@.take(i as int)),
            -(i as int) <= d <= i as int,
            top_comma_from(v@, 0) == top_comma_from(v@, i as int),
        decreases v.len() - i,
    {
        let c = v[i];
        if c == ',' && d == 0 {
            return Some(i);
        }
        proof {
            assert(v@.take(i + 1).drop_last() =~= v@.take(i as int));
        }
        if c == '[' {
            d = d + 1;
        } else if c == ']' {
            d = d - 1;
        }
        i += 1;
    }
    None
}

fn starts_with(v: &Vec<char>, opener: &Vec<char>) -> (r: bool)
    ensures
        r == (v.len() >= opener.len() && v@.take(opener.len() as int) == opener@),
{
    if v.len() < opener.len() {
        return false;
    }
    let mut i: usize = 0;
    while i < opener.len()
        invariant
            0 <= i <= opener.len() <= v.len(),
            v@.take(i as int) == opener@.take(i as int),
        decreases opener.len() - i,
    {
        if v[i] != opener[i] {
            proof {
                assert(v@.take(opener.len() as int)[i as int] != opener@[i as int]);
            }
            return false;
        }
        i += 1;
        assert(v@.take(i as int) =~= v@.take(i - 1).push(v@[i - 1]));
        assert(opener@.take(i as int) =~= opener@.take(i - 1).push(opener@[i - 1]));
    }
    assert(opener@.take(opener.len() as int) =~= opener@);
    true
}

fn bracketed(v: &Vec<char>, opener: &Vec<char>) -> (r: bool)
    ensures
        r == is_bracketed(v@, opener@),
{
    v.len() > opener.len() && starts_with(v, opener) && v[v.len() - 1] == ']'
}

fn parse_chars(v: &Vec<char>) -> (r: Option<VarType>)
    ensures
        r == parse_type(v@),
    decreases v.len(),
{
    let map_open: Vec<char> = vec!['m', 'a', 'p', '['];
    let list_open: Vec<char> = vec!['l', 'i', 's', 't', '['];
    let optional_open: Vec<char> = vec!['o', 'p', 't', 'i', 'o', 'n', 'a', 'l', '['];
    assert(map_open@ =~= map_opener());
    assert(list_open@ =~= list_opener());
    assert(optional_open@ =~= optional_opener());
    if bracketed(v, &map_open) {
        let body = sub_chars(v, 4, v.len() - 1);
        match find_top_comma(&body) {
            Some(i) => {
                let key_text = sub_chars(&body, 0, i);
                let value_text = sub_chars(&body, i + 1, body.len());
                match parse_chars(&key_text) {
                    Some(k) => match parse_chars(&value_text) {
                        Some(t) => Some(VarType::Mapping(Box::new(k), Box::new(t))),
                        None => None,
                    },
                    None => None,
                }
            },
            None => None,
        }
    } else if bracketed(v, &list_open) {
        let body = sub_chars(v, 5, v.len() - 1);
        match parse_chars(&body) {
            Some(t) => Some(VarType::List(Box::new(t))),
            None => None,
        }
    } else if bracketed(v, &optional_open) {
        let body = sub_chars(v, 9, v.len() - 1);
        match parse_chars(&body) {
            Some(t) => Some(VarType::Optional(Box::new(t))),
            None => None,
        }
    } else {
        keyword(v)
    }
}

impl VarType {
    /// Reads a type descriptor from its notation.
    ///
    /// Fails with `TypeUnknownError` exactly when the text denotes no type:
    /// on an unknown keyword, a missing closing bracket, or a `map[..]`
    /// without a comma outside brackets.
    pub fn from_name(name: &str) -> (r: Result<VarType, ScriptError>)
        ensures
            match r {
                Ok(t) => parse_type(name@) == Some(t),
                Err(e) => parse_type(name@) is None && e == ScriptError::TypeUnknownError,
            },
    {
        let chars = chars_of(name);
        match parse_chars(&chars) {
            Some(t) => Ok(t),
            None => Err(ScriptError::TypeUnknownError),
        }
    }
}

/// The notation of a type descriptor, with every keyword in its long form.
pub open spec fn notation(t: VarType) -> Seq<char>
    decreases t,
{
    match t {
        VarType::Bool => "bool"@,
        VarType::String => "string"@,
        VarType::Integer => "integer"@,
        VarType::Float => "float"@,
        VarType::Char => "char"@,
        VarType::InStream => "in_stream"@,
        VarType::OutStream => "out_stream"@,
        VarType::Null => "null"@,
        VarType::List(e) => list_opener() + notation(*e) + seq![']'],
        VarType::Mapping(k, v) => map_opener() + notation(*k) + seq![','] + notation(*v) + seq![
            ']',
        ],
        VarType::Optional(e) => optional_opener() + notation(*e) + seq![']'],
    }
}

/// Whether a text holds no bracket and no comma.
pub open spec fn is_word(s: Seq<char>) -> bool {
    forall|i: int| 0 <= i < s.len() ==> (#[trigger] s[i]) != '[' && s[i] != ']' && s[i] != ','
}

/// The bracket depth after two texts is the sum of their depths.
pub proof fn lemma_depth_concat(a: Seq<char>, b: Seq<char>)
    ensures
        depth(a + b) == depth(a) + depth(b),
    decreases b.len(),
{
    if b.len() == 0 {
        assert(a + b =~= a);
    } else {
        lemma_depth_concat(a, b.drop_last());
        assert((a + b).drop_last() =~= a + b.drop_last());
        assert((a + b).last() == b.last());
    }
}

/// A text without brackets has depth zero.
pub proof fn lemma_depth_word(s: Seq<char>)
    requires
        is_word(s),
    ensures
        depth(s) == 0,
    decreases s.len(),
{
    if s.len() > 0 {
        assert(s[s.len() - 1] != '[' && s[s.len() - 1] != ']');
        lemma_depth_word(s.drop_last());
    }
}

/// Whether a text is balanced: it ends at depth zero, no beginning of it
/// is below depth zero, and every comma in it stands inside brackets.
pub open spec fn is_balanced(s: Seq<char>) -> bool {
    &&& depth(s) == 0
    &&& forall|i: int| 0 <= i <= s.len() ==> depth(#[trigger] s.take(i)) >= 0
    &&& forall|i: int| 0 <= i < s.len() && s[i] == ',' ==> depth(#[trigger] s.take(i)) >= 1
}

/// A text without brackets and commas is balanced.
pub proof fn lemma_word_balanced(s: Seq<char>)
    requires
        is_word(s),
    ensures
        is_balanced(s),
{
    lemma_depth_word(s);
    assert forall|i: int| 0 <= i <= s.len() implies depth(#[trigger] s.take(i)) >= 0 by {
        assert(is_word(s.take(i)));
        lemma_depth_word(s.take(i));
    }
}

/// Whether a text can stand between brackets: it ends at depth zero, and
/// no beginning of it is below depth zero.
pub open spec fn is_body(s: Seq<char>) -> bool {
    &&& depth(s) == 0
    &&& forall|i: int| 0 <= i <= s.len() ==> depth(#[trigger] s.take(i)) >= 0
}

/// A body in brackets behind a word is balanced.
pub proof fn lemma_bracketed_balanced(opener: Seq<char>, inner: Seq<char>)
    requires
        opener.len() > 0,
        opener.last() == '[',
        is_word(opener.drop_last()),
        is_body(inner),
    ensures
        is_balanced(opener + inner + seq![']']),
{
    let n = opener + inner + seq![']'];
    let word = opener.drop_last();
    lemma_depth_word(word);
    assert(depth(opener) == 1) by {
        assert(depth(opener) == depth(word) + 1);
    }
    lemma_depth_concat(opener, inner);
    lemma_depth_concat(opener + inner, seq![']']);
    assert(depth(seq![']']) == -1) by {
        reveal_with_fuel(depth, 2);
        assert(seq![']'].drop_last().len() == 0);
    }
    assert forall|i: int| 0 <= i <= n.len() implies depth(#[trigger] n.take(i)) >= 0 && (i
        < n.len() && n[i] == ',' ==> depth(n.take(i)) >= 1) by {
        if i < opener.len() {
            assert(n.take(i) =~= word.take(i));
            assert(is_word(word.take(i)));
            lemma_depth_word(word.take(i));
            if i < opener.len() - 1 {
                assert(n[i] == word[i]);
            }
        } else if i <= opener.len() + inner.len() {
            let k = i - opener.len();
            assert(n.take(i) =~= opener + inner.take(k));
            lemma_depth_concat(opener, inner.take(k));
            if k < inner.len() {
                assert(n[i] == inner[k]);
            }
        } else {
            assert(n.take(i) =~= n);
        }
    }
}

/// The first comma outside brackets from `from` on is at `k`, where `k`
/// holds one and no position before it does.
pub proof fn lemma_top_comma(s: Seq<char>, from: int, k: int)
    requires
        0 <= from <= k < s.len(),
        is_top_comma(s, k),
        forall|j: int| from <= j < k ==> !is_top_comma(s, j),
    ensures
        top_comma_from(s, from) == Some(k),
    decreases k - from,
{
    if from < k {
        lemma_top_comma(s, from + 1, k);
    }
}

/// Whether a descriptor is a scalar: written by a keyword.
pub open spec fn is_scalar(t: VarType) -> bool {
    !(t is List) && !(t is Mapping) && !(t is Optional)
}

/// The keyword of a scalar type is a word of two characters or more.
pub proof fn lemma_keyword_word(t: VarType)
    requires
        is_scalar(t),
    ensures
        is_word(notation(t)),
        notation(t).len() >= 2,
        notation(t).last() != ']',
{
    match t {
        VarType::Bool => {
            reveal_strlit("bool");
        },
        VarType::String => {
            reveal_strlit("string");
        },
        VarType::Integer => {
            reveal_strlit("integer");
        },
        VarType::Float => {
            reveal_strlit("float");
        },
        VarType::Char => {
            reveal_strlit("char");
        },
        VarType::InStream => {
            reveal_strlit("in_stream");
        },
        VarType::OutStream => {
            reveal_strlit("out_stream");
        },
        _ => {
            reveal_strlit("null");
        },
    }
}

/// The three openers are a word and an opening bracket.
pub proof fn lemma_openers()
    ensures
        is_word(list_opener().drop_last()) && list_opener().last() == '[',
        is_word(map_opener().drop_last()) && map_opener().last() == '[',
        is_word(optional_opener().drop_last()) && optional_opener().last() == '[',
{
}

/// The notation of a descriptor is balanced and of two characters or more.
pub proof fn lemma_notation_balanced(t: VarType)
    ensures
        is_balanced(notation(t)),
        notation(t).len() >= 2,
    decreases t,
{
    match t {
        VarType::List(e) => {
            lemma_notation_balanced(*e);
            lemma_openers();
            lemma_bracketed_balanced(list_opener(), notation(*e));
        },
        VarType::Optional(e) => {
            lemma_notation_balanced(*e);
            lemma_openers();
            lemma_bracketed_balanced(optional_opener(), notation(*e));
        },
        VarType::Mapping(k, v) => {
            lemma_notation_balanced(*k);
            lemma_notation_balanced(*v);
            lemma_pair_balanced(notation(*k), notation(*v));
            let inner = notation(*k) + seq![','] + notation(*v);
            lemma_openers();
            lemma_bracketed_balanced(map_opener(), inner);
            assert(notation(t) =~= map_opener() + inner + seq![']']);
        },
        _ => {
            lemma_keyword_word(t);
            lemma_word_balanced(notation(t));
        },
    }
}

/// Two balanced texts with a comma between them are a body: the comma is
/// the first one outside brackets.
pub proof fn lemma_pair_balanced(a: Seq<char>, b: Seq<char>)
    requires
        is_balanced(a),
        is_balanced(b),
    ensures
        is_body(a + seq![','] + b),
        top_comma_from(a + seq![','] + b, 0) == Some(a.len() as int),
        (a + seq![','] + b).take(a.len() as int) == a,
        (a + seq![','] + b).skip(a.len() as int + 1) == b,
{
    let n = a + seq![','] + b;
    assert(depth(seq![',']) == 0) by {
        reveal_with_fuel(depth, 2);
        assert(seq![','].drop_last().len() == 0);
    }
    lemma_depth_concat(a, seq![',']);
    lemma_depth_concat(a + seq![','], b);
    assert(n.take(a.len() as int) =~= a);
    assert(n.skip(a.len() as int + 1) =~= b);
    assert forall|i: int| 0 <= i <= n.len() implies depth(#[trigger] n.take(i)) >= 0 by {
        if i <= a.len() {
            assert(n.take(i) =~= a.take(i));
        } else {
            let k = i - a.len() - 1;
            assert(n.take(i) =~= a + seq![','] + b.take(k));
            lemma_depth_concat(a + seq![','], b.take(k));
        }
    }
    assert forall|j: int| 0 <= j < a.len() implies !is_top_comma(n, j) by {
        assert(n.take(j) =~= a.take(j));
        assert(n[j] == a[j]);
    }
    assert(n[a.len() as int] == ',');
    lemma_top_comma(n, 0, a.len() as int);
}

/// The keyword of a scalar type names the type.
pub proof fn lemma_keyword_reads_back(t: VarType)
    requires
        is_scalar(t),
    ensures
        keyword_type(notation(t)) == Some(t),
{
    reveal_strlit("bool");
    reveal_strlit("b");
    reveal_strlit("string");
    reveal_strlit("str");
    reveal_strlit("s");
    reveal_strlit("integer");
    reveal_strlit("int");
    reveal_strlit("i");
    reveal_strlit("float");
    reveal_strlit("f");
    reveal_strlit("char");
    reveal_strlit("c");
    reveal_strlit("in_stream");
    reveal_strlit("in");
    reveal_strlit("out_stream");
    reveal_strlit("out");
    reveal_strlit("null");
    match t {
        VarType::Bool => {

        },
        VarType::String => {
            assert("string"@.len() != "bool"@.len());
            assert("string"@ != "bool"@);
            assert("string"@.len() != "b"@.len());
            assert("string"@ != "b"@);
        },
        VarType::Integer => {
            assert("integer"@.len() != "bool"@.len());
            assert("integer"@ != "bool"@);
            assert("integer"@.len() != "b"@.len());
            assert("integer"@ != "b"@);
            assert("integer"@.len() != "string"@.len());
            assert("integer"@ != "string"@);
            assert("integer"@.len() != "str"@.len());
            assert("integer"@ != "str"@);
            assert("integer"@.len() != "s"@.len());
            assert("integer"@ != "s"@);
        },
        VarType::Float => {
            assert("float"@.len() != "bool"@.len());
            assert("float"@ != "bool"@);
            assert("float"@.len() != "b"@.len());
            assert("float"@ != "b"@);
            assert("float"@.len() != "string"@.len());
            assert("float"@ != "string"@);
            assert("float"@.len() != "str"@.len());
            assert("float"@ != "str"@);
            assert("float"@.len() != "s"@.len());
            assert("float"@ != "s"@);
            assert("float"@.len() != "integer"@.len());
            assert("float"@ != "integer"@);
            assert("float"@.len() != "int"@.len());
            assert("float"@ != "int"@);
            assert("float"@.len() != "i"@.len());
            assert("float"@ != "i"@);
        },
        VarType::Char => {
            assert("char"@[0] != "bool"@[0]);
            assert("char"@ != "bool"@);
            assert("char"@.len() != "b"@.len());
            assert("char"@ != "b"@);
            assert("char"@.len() != "string"@.len());
            assert("char"@ != "string"@);
            assert("char"@.len() != "str"@.len());
            assert("char"@ != "str"@);
            assert("char"@.len() != "s"@.len());
            assert("char"@ != "s"@);
            assert("char"@.len() != "integer"@.len());
            assert("char"@ != "integer"@);
            assert("char"@.len() != "int"@.len());
            assert("char"@ != "int"@);
            assert("char"@.len() != "i"@.len());
            assert("char"@ != "i"@);
            assert("char"@.len() != "float"@.len());
            assert("char"@ != "float"@);
            assert("char"@.len() != "f"@.len());
            assert("char"@ != "f"@);
        },
        VarType::InStream => {
            assert("in_stream"@.len() != "bool"@.len());
            assert("in_stream"@ != "bool"@);
            assert("in_stream"@.len() != "b"@.len());
            assert("in_stream"@ != "b"@);
            assert("in_stream"@.len() != "string"@.len());
            assert("in_stream"@ != "string"@);
            assert("in_stream"@.len() != "str"@.len());
            assert("in_stream"@ != "str"@);
            assert("in_stream"@.len() != "s"@.len());
            assert("in_stream"@ != "s"@);
            assert("in_stream"@.len() != "integer"@.len());
            assert("in_stream"@ != "integer"@);
            assert("in_stream"@.len() != "int"@.len());
            assert("in_stream"@ != "int"@);
            assert("in_stream"@.len() != "i"@.len());
            assert("in_stream"@ != "i"@);
            assert("in_stream"@.len() != "float"@.len());
            assert("in_stream"@ != "float"@);
            assert("in_stream"@.len() != "f"@.len());
            assert("in_stream"@ != "f"@);
            assert("in_stream"@.len() != "char"@.len());
            assert("in_stream"@ != "char"@);
            assert("in_stream"@.len() != "c"@.len());
            assert("in_stream"@ != "c"@);
        },
        VarType::OutStream => {
            assert("out_stream"@.len() != "bool"@.len());
            assert("out_stream"@ != "bool"@);
            assert("out_stream"@.len() != "b"@.len());
            assert("out_stream"@ != "b"@);
            assert("out_stream"@.len() != "string"@.len());
            assert("out_stream"@ != "string"@);
            assert("out_stream"@.len() != "str"@.len());
            assert("out_stream"@ != "str"@);
            assert("out_stream"@.len() != "s"@.len());
            assert("out_stream"@ != "s"@);
            assert("out_stream"@.len() != "integer"@.len());
            assert("out_stream"@ != "integer"@);
            assert("out_stream"@.len() != "int"@.len());
            assert("out_stream"@ != "int"@);
            assert("out_stream"@.len() != "i"@.len());
            assert("out_stream"@ != "i"@);
            assert("out_stream"@.len() != "float"@.len());
            assert("out_stream"@ != "float"@);
            assert("out_stream"@.len() != "f"@.len());
            assert("out_stream"@ != "f"@);
            assert("out_stream"@.len() != "char"@.len());
            assert("out_stream"@ != "char"@);
            assert("out_stream"@.len() != "c"@.len());
            assert("out_stream"@ != "c"@);
            assert("out_stream"@.len() != "in_stream"@.len());
            assert("out_stream"@ != "in_stream"@);
            assert("out_stream"@.len() != "in"@.len());
            assert("out_stream"@ != "in"@);
        },
        _ => {
            assert("null"@[0] != "bool"@[0]);
            assert("null"@ != "bool"@);
            assert("null"@.len() != "b"@.len());
            assert("null"@ != "b"@);
            assert("null"@.len() != "string"@.len());
            assert("null"@ != "string"@);
            assert("null"@.len() != "str"@.len());
            assert("null"@ != "str"@);
            assert("null"@.len() != "s"@.len());
            assert("null"@ != "s"@);
            assert("null"@.len() != "integer"@.len());
            assert("null"@ != "integer"@);
            assert("null"@.len() != "int"@.len());
            assert("null"@ != "int"@);
            assert("null"@.len() != "i"@.len());
            assert("null"@ != "i"@);
            assert("null"@.len() != "float"@.len());
            assert("null"@ != "float"@);
            assert("null"@.len() != "f"@.len());
            assert("null"@ != "f"@);
            assert("null"@[0] != "char"@[0]);
            assert("null"@ != "char"@);
            assert("null"@.len() != "c"@.len());
            assert("null"@ != "c"@);
            assert("null"@.len() != "in_stream"@.len());
            assert("null"@ != "in_stream"@);
            assert("null"@.len() != "in"@.len());
            assert("null"@ != "in"@);
            assert("null"@.len() != "out_stream"@.len());
            assert("null"@ != "out_stream"@);
            assert("null"@.len() != "out"@.len());
            assert("null"@ != "out"@);
        },
    }
}

/// The notation of every type descriptor reads back as the descriptor.
pub proof fn law_notation_reads_back(t: VarType)
    ensures
        parse_type(notation(t)) == Some(t),
    decreases t,
{
    let n = notation(t);
    match t {
        VarType::List(e) => {
            law_notation_reads_back(*e);
            lemma_notation_balanced(*e);
            assert(n.take(4)[0] == 'l');
            assert(n.take(5) =~= list_opener());
            assert(bracket_body(n, list_opener()) =~= notation(*e));
        },
        VarType::Optional(e) => {
            law_notation_reads_back(*e);
            lemma_notation_balanced(*e);
            assert(n.take(4)[0] == 'o');
            assert(n.take(5)[0] == 'o');
            assert(n.take(9) =~= optional_opener());
            assert(bracket_body(n, optional_opener()) =~= notation(*e));
        },
        VarType::Mapping(k, v) => {
            law_notation_reads_back(*k);
            law_notation_reads_back(*v);
            lemma_notation_balanced(*k);
            lemma_notation_balanced(*v);
            let inner = notation(*k) + seq![','] + notation(*v);
            lemma_pair_balanced(notation(*k), notation(*v));
            assert(n =~= map_opener() + inner + seq![']']);
            assert(n.take(4) =~= map_opener());
            assert(bracket_body(n, map_opener()) =~= inner);
        },
        _ => {
            lemma_keyword_word(t);
            lemma_keyword_reads_back(t);
        },
    }
}

} // verus!
