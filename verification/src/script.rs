//! Scripts, and the translation of script text into instructions and
//! functions.
//!
//! A script is written one instruction per line: a tag, then operands
//! separated by single spaces. A `#` starts a comment that runs to the end
//! of the line. The instructions from a `FUNC` line to the next `FUNC_END`
//! line form a function and are taken out of the top level.

use vstd::prelude::*;
use crate::command::{commands_view, Command, CommandModel};
use crate::command_type::{command_of, CommandType};
use crate::error::ScriptError;
use crate::function::{functions_view, parameters_view, Function, FunctionModel};
use crate::text::{
    chars_of, index_of, lemma_index_of, split, split_text, string_of, sub_chars, texts,
};
use crate::var_type::{parse_type, VarType};

verus! {

/// A loaded script: the instructions of its top level, and its functions.
#[derive(Debug, PartialEq)]
pub struct Script {
    pub commands: Vec<Command>,
    pub functions: Vec<Function>,
}

/// Whether a character is a space or a tab.
pub open spec fn is_blank_char(c: char) -> bool {
    c == ' ' || c == '\t'
}

/// `s` without the spaces and tabs at its end.
pub open spec fn strip_end(s: Seq<char>) -> Seq<char>
    decreases s.len(),
{
    if s.len() > 0 && is_blank_char(s.last()) {
        strip_end(s.drop_last())
    } else {
        s
    }
}

/// `s` without the spaces and tabs at its start.
pub open spec fn strip_start(s: Seq<char>) -> Seq<char>
    decreases s.len(),
{
    if s.len() > 0 && is_blank_char(s[0]) {
        strip_start(s.skip(1))
    } else {
        s
    }
}

/// A line as the translator reads it: without its comment, which starts at
/// the first `#`, and then without every space and tab at its end and at
/// its start.
pub open spec fn cleaned(line: Seq<char>) -> Seq<char> {
    strip_start(strip_end(line.take(index_of(line, '#'))))
}

/// A cleaned line holds no `#`, and neither starts nor ends with a space or
/// a tab.
pub proof fn law_cleaned_is_trimmed(line: Seq<char>)
    ensures
        forall|i: int| 0 <= i < cleaned(line).len() ==> cleaned(line)[i] != '#',
        cleaned(line).len() > 0 ==> !is_blank_char(cleaned(line)[0]) && !is_blank_char(
            cleaned(line).last(),
        ),
{
    let cut = line.take(index_of(line, '#'));
    crate::text::lemma_index_of_bound(line, '#');
    lemma_first_index(line, '#');
    assert forall|i: int| 0 <= i < cut.len() implies cut[i] != '#' by {}
    lemma_strip_end(cut);
    lemma_strip_start(strip_end(cut));
}

/// No position before the first `c` holds `c`.
pub proof fn lemma_first_index(s: Seq<char>, c: char)
    ensures
        forall|i: int| 0 <= i < index_of(s, c) ==> s[i] != c,
    decreases s.len(),
{
    crate::text::lemma_index_of_bound(s, c);
    if s.len() != 0 && s[0] != c {
        lemma_first_index(s.skip(1), c);
        crate::text::lemma_index_of_bound(s.skip(1), c);
        assert forall|i: int| 0 <= i < index_of(s, c) implies s[i] != c by {
            if i > 0 {
                assert(s.skip(1)[i - 1] == s[i]);
            }
        }
    }
}

/// Stripping the end leaves a beginning of the text that does not end with
/// a space or a tab.
pub proof fn lemma_strip_end(s: Seq<char>)
    ensures
        strip_end(s).len() <= s.len(),
        strip_end(s) == s.take(strip_end(s).len() as int),
        strip_end(s).len() > 0 ==> !is_blank_char(strip_end(s).last()),
    decreases s.len(),
{
    if s.len() > 0 && is_blank_char(s.last()) {
        lemma_strip_end(s.drop_last());
        let r = strip_end(s);
        assert(s.drop_last().take(r.len() as int) =~= s.take(r.len() as int));
    } else {
        assert(s.take(s.len() as int) =~= s);
    }
}

/// Stripping the start leaves an end of the text that does not start with a
/// space or a tab.
pub proof fn lemma_strip_start(s: Seq<char>)
    ensures
        strip_start(s).len() <= s.len(),
        strip_start(s) == s.skip(s.len() - strip_start(s).len()),
        strip_start(s).len() > 0 ==> !is_blank_char(strip_start(s)[0]),
    decreases s.len(),
{
    if s.len() > 0 && is_blank_char(s[0]) {
        lemma_strip_start(s.skip(1));
        let r = strip_start(s);
        assert(s.skip(1).skip(s.len() - 1 - r.len()) =~= s.skip(s.len() - r.len()));
    } else {
        assert(s.skip(0) =~= s);
    }
}

/// One line of a text: the piece at position `i` between line feeds,
/// without the carriage return before its line feed.
pub open spec fn line_at(pieces: Seq<Seq<char>>, i: int) -> Seq<char> {
    let p = pieces[i];
    if i < pieces.len() - 1 && p.len() > 0 && p.last() == '\r' {
        p.drop_last()
    } else {
        p
    }
}

/// The lines of a text. A line ends at a line feed or at the end of the
/// text; a text that ends in a line feed has no empty line after it.
pub open spec fn lines(text: Seq<char>) -> Seq<Seq<char>> {
    let pieces = split(text, '\n');
    let count = if pieces.len() > 0 && pieces.last().len() == 0 {
        pieces.len() - 1
    } else {
        pieces.len() as int
    };
    Seq::new(count as nat, |i: int| line_at(pieces, i))
}

/// The cleaned lines of a text.
pub open spec fn prepared(text: Seq<char>) -> Seq<Seq<char>> {
    lines(text).map_values(|l: Seq<char>| cleaned(l))
}

fn trim_end(v: &Vec<char>, end: usize) -> (r: usize)
    requires
        end <= v.len(),
    ensures
        r <= end,
        v@.take(r as int) == strip_end(v@.take(end as int)),
{
    let mut e: usize = end;
    while e > 0 && (v[e - 1] == ' ' || v[e - 1] == '\t')
        invariant
            0 <= e <= end <= v.len(),
            strip_end(v@.take(e as int)) == strip_end(v@.take(end as int)),
        decreases e,
    {
        assert(v@.take(e as int).drop_last() =~= v@.take(e - 1));
        e -= 1;
    }
    e
}

fn trim_start(v: &Vec<char>, start: usize, end: usize) -> (r: usize)
    requires
        start <= end <= v.len(),
    ensures
        start <= r <= end,
        v@.subrange(r as int, end as int) == strip_start(v@.subrange(start as int, end as int)),
{
    let mut s: usize = start;
    while s < end && (v[s] == ' ' || v[s] == '\t')
        invariant
            start <= s <= end <= v.len(),
            strip_start(v@.subrange(s as int, end as int)) == strip_start(
                v@.subrange(start as int, end as int),
            ),
        decreases end - s,
    {
        assert(v@.subrange(s as int, end as int).skip(1) =~= v@.subrange(s + 1, end as int));
        s += 1;
    }
    s
}

/// Cleans one line.
pub fn clean_line(line: &str) -> (r: String)
    ensures
        r@ == cleaned(line@),
{
    let v = chars_of(line);
    let mut cut: usize = 0;
    while cut < v.len() && v[cut] != '#'
        invariant
            0 <= cut <= v.len(),
            forall|j: int| 0 <= j < cut ==> v@[j] != '#',
        decreases v.len() - cut,
    {
        cut += 1;
    }
    proof {
        lemma_index_of(v@, '#', cut as int);
    }
    let end = trim_end(&v, cut);
    assert(v@.subrange(0, end as int) =~= v@.take(end as int));
    let start = trim_start(&v, 0, end);
    string_of(&sub_chars(&v, start, end))
}

/// Splits a script's text into cleaned lines.
pub fn prepare_script(text: String) -> (r: Vec<String>)
    ensures
        texts(r@) == prepared(text@),
{
    let pieces = split_text(text.as_str(), '\n');
    proof {
        crate::running_script::lemma_split_nonempty(text@, '\n');
        reveal_strlit("");
        assert(texts(pieces@).len() == pieces@.len());
        assert(texts(pieces@)[pieces.len() - 1] == pieces@[pieces.len() - 1]@);
        assert(pieces@[pieces.len() - 1]@.len() == 0 <==> pieces@[pieces.len() - 1]@ =~= ""@);
    }
    let count: usize = if pieces.len() > 0 && pieces[pieces.len() - 1].as_str().eq("") {
        pieces.len() - 1
    } else {
        pieces.len()
    };
    let mut out: Vec<String> = Vec::new();
    let mut i: usize = 0;
    while i < count
        invariant
            0 <= i <= count <= pieces.len(),
            texts(pieces@) == split(text@, '\n'),
            count == lines(text@).len(),
            out.len() == i,
            forall|j: int| 0 <= j < i ==> out@[j]@ == cleaned(lines(text@)[j]),
        decreases count - i,
    {
        let v = chars_of(pieces[i].as_str());
        assert(texts(pieces@)[i as int] == pieces@[i as int]@);
        let end: usize = if i + 1 < pieces.len() && v.len() > 0 && v[v.len() - 1] == '\r' {
            v.len() - 1
        } else {
            v.len()
        };
        let line = string_of(&sub_chars(&v, 0, end));
        assert(line@ =~= line_at(texts(pieces@), i as int));
        out.push(clean_line(line.as_str()));
        i += 1;
    }
    assert(texts(out@) =~= prepared(text@));
    out
}

/// Whether a character is white space.
pub open spec fn is_space(c: char) -> bool {
    c == ' ' || ('\u{9}' <= c && c <= '\u{d}') || c == '\u{85}' || c == '\u{a0}' || c
        == '\u{1680}' || ('\u{2000}' <= c && c <= '\u{200a}') || c == '\u{2028}' || c
        == '\u{2029}' || c == '\u{202f}' || c == '\u{205f}' || c == '\u{3000}'
}

/// Whether a line holds white space only.
pub open spec fn is_blank(s: Seq<char>) -> bool {
    forall|i: int| 0 <= i < s.len() ==> is_space(#[trigger] s[i])
}

/// The instruction that a line that is not blank writes: the kind that its
/// first word names, and the other words as operands.
pub open spec fn command_at(line: Seq<char>, number: usize) -> Result<
    CommandModel,
    (ScriptError, usize),
> {
    let words = split(line, ' ');
    match command_of(words[0]) {
        Some(kind) => Ok(CommandModel { command_type: kind, args: words.skip(1), line: number }),
        None => Err((ScriptError::CommandUnknownError, number)),
    }
}

/// The instructions that the first `n` lines write. Lines are numbered from
/// one; blank lines write nothing. The first line with an unknown tag
/// fails the translation, with its number.
pub open spec fn parsed(lines: Seq<Seq<char>>, n: nat) -> Result<
    Seq<CommandModel>,
    (ScriptError, usize),
>
    decreases n,
{
    if n == 0 || n > lines.len() {
        Ok(Seq::empty())
    } else {
        match parsed(lines, (n - 1) as nat) {
            Err(e) => Err(e),
            Ok(done) => if is_blank(lines[n - 1]) {
                Ok(done)
            } else {
                match command_at(lines[n - 1], n as usize) {
                    Ok(c) => Ok(done.push(c)),
                    Err(e) => Err(e),
                }
            },
        }
    }
}

/// Once a line fails, no longer run of lines translates.
pub proof fn lemma_parsed_err(lines: Seq<Seq<char>>, n: nat, m: nat)
    requires
        n <= m <= lines.len(),
        parsed(lines, n) is Err,
    ensures
        parsed(lines, m) == parsed(lines, n),
    decreases m,
{
    if m > n {
        lemma_parsed_err(lines, n, (m - 1) as nat);
    }
}

fn blank(line: &str) -> (r: bool)
    ensures
        r == is_blank(line@),
{
    let v = chars_of(line);
    let mut i: usize = 0;
    while i < v.len()
        invariant
            0 <= i <= v.len(),
            v@ == line@,
            forall|j: int| 0 <= j < i ==> is_space(#[trigger] v@[j]),
        decreases v.len() - i,
    {
        let c = v[i];
        let space = c == ' ' || ('\u{9}' <= c && c <= '\u{d}') || c == '\u{85}' || c == '\u{a0}'
            || c == '\u{1680}' || ('\u{2000}' <= c && c <= '\u{200a}') || c == '\u{2028}' || c
            == '\u{2029}' || c == '\u{202f}' || c == '\u{205f}' || c == '\u{3000}';
        if !space {
            return false;
        }
        i += 1;
    }
    true
}

/// A copy of the strings of `v` from `from` on.
fn tail(v: &Vec<String>, from: usize) -> (r: Vec<String>)
    requires
        from <= v.len(),
    ensures
        texts(r@) == texts(v@).skip(from as int),
{
    let mut out: Vec<String> = Vec::new();
    let mut i: usize = from;
    while i < v.len()
        invariant
            from <= i <= v.len(),
            out.len() == i - from,
            forall|j: int| 0 <= j < i - from ==> out@[j]@ == v@[from + j]@,
        decreases v.len() - i,
    {
        out.push(v[i].clone());
        i += 1;
    }
    assert(texts(out@) =~= texts(v@).skip(from as int));
    out
}

/// Translates cleaned lines into instructions.
pub fn parse_commands(lines: Vec<String>) -> (r: Result<Vec<Command>, (ScriptError, usize)>)
    ensures
        match r {
            Ok(v) => parsed(texts(lines@), lines@.len()) == Ok::<
                Seq<CommandModel>,
                (ScriptError, usize),
            >(commands_view(v@)),
            Err(e) => parsed(texts(lines@), lines@.len()) == Err::<
                Seq<CommandModel>,
                (ScriptError, usize),
            >(e),
        },
{
    let mut commands: Vec<Command> = Vec::new();
    let mut i: usize = 0;
    assert(commands_view(commands@) =~= Seq::<CommandModel>::empty());
    while i < lines.len()
        invariant
            0 <= i <= lines.len(),
            parsed(texts(lines@), i as nat) == Ok::<Seq<CommandModel>, (ScriptError, usize)>(
                commands_view(commands@),
            ),
        decreases lines.len() - i,
    {
        let number: usize = i + 1;
        assert(texts(lines@)[i as int] == lines@[i as int]@);
        if !blank(lines[i].as_str()) {
            let words = split_text(lines[i].as_str(), ' ');
            proof {
                crate::running_script::lemma_split_nonempty(lines@[i as int]@, ' ');
                assert(texts(words@)[0] == words@[0]@);
            }
            match CommandType::from_name(words[0].as_str()) {
                Ok(kind) => {
                    let args = tail(&words, 1);
                    let ghost before = commands_view(commands@);
                    let c = Command::new(kind, number, args);
                    commands.push(c);
                    assert(commands_view(commands@) =~= before.push(c@));
                },
                Err(e) => {
                    proof {
                        lemma_parsed_err(texts(lines@), (i + 1) as nat, lines@.len());
                    }
                    return Err((e, number));
                },
            }
        }
        i += 1;
    }
    Ok(commands)
}

/// The position of the first parameter from `from` on with the given name.
pub open spec fn parameter_index(p: Seq<(Seq<char>, VarType)>, name: Seq<char>, from: nat) -> Option<
    nat,
>
    decreases p.len() - from,
{
    if from >= p.len() {
        None
    } else if p[from as int].0 == name {
        Some(from)
    } else {
        parameter_index(p, name, from + 1)
    }
}

/// The parameters with one more: a name that is a parameter already keeps
/// its place and takes the new type; a new name comes after the others.
pub open spec fn with_parameter(p: Seq<(Seq<char>, VarType)>, name: Seq<char>, t: VarType) -> Seq<
    (Seq<char>, VarType),
> {
    match parameter_index(p, name, 0) {
        Some(j) => p.update(j as int, (name, t)),
        None => p.push((name, t)),
    }
}

/// The parameters that the words of a function's header from position
/// `2` on declare, as far as `n` pairs of them: a name and a type in turn.
/// A name without a type after it declares nothing, and no name is a
/// parameter twice.
pub open spec fn parameters_of(args: Seq<Seq<char>>, n: nat) -> Result<
    Seq<(Seq<char>, VarType)>,
    ScriptError,
>
    decreases n,
{
    if n == 0 || 2 + 2 * n > args.len() {
        Ok(Seq::empty())
    } else {
        match parameters_of(args, (n - 1) as nat) {
            Err(e) => Err(e),
            Ok(done) => match parse_type(args[2 * (n as int) + 1]) {
                Some(t) => Ok(with_parameter(done, args[2 * (n as int)], t)),
                None => Err(ScriptError::TypeUnknownError),
            },
        }
    }
}

/// Whether no two parameters have the same name.
pub open spec fn distinct_names(p: Seq<(Seq<char>, VarType)>) -> bool {
    forall|i: int, j: int| 0 <= i < j < p.len() ==> (#[trigger] p[i]).0 != (#[trigger] p[j]).0
}

/// A name is found among the parameters exactly where the first parameter
/// of that name stands.
pub proof fn lemma_parameter_index(p: Seq<(Seq<char>, VarType)>, name: Seq<char>, from: nat)
    requires
        from <= p.len(),
    ensures
        match parameter_index(p, name, from) {
            Some(j) => from <= j < p.len() && p[j as int].0 == name,
            None => forall|i: int| from <= i < p.len() ==> (#[trigger] p[i]).0 != name,
        },
    decreases p.len() - from,
{
    if from < p.len() && p[from as int].0 != name {
        lemma_parameter_index(p, name, from + 1);
    }
}

/// The parameters of a header have names that differ from one another.
pub proof fn law_parameters_distinct(args: Seq<Seq<char>>, n: nat)
    requires
        parameters_of(args, n) is Ok,
    ensures
        distinct_names(parameters_of(args, n)->Ok_0),
    decreases n,
{
    if n > 0 && 2 + 2 * n <= args.len() {
        law_parameters_distinct(args, (n - 1) as nat);
        let done = parameters_of(args, (n - 1) as nat)->Ok_0;
        let name = args[2 * (n as int)];
        lemma_parameter_index(done, name, 0);
        let after = parameters_of(args, n)->Ok_0;
        assert forall|i: int, j: int| 0 <= i < j < after.len() implies (#[trigger] after[i]).0 != (
        #[trigger] after[j]).0 by {
            if j < done.len() {
                assert(done[i].0 != done[j].0);
            } else {
                assert(done[i].0 != name);
            }
        }
    }
}

/// The function that a `FUNC` line opens: `FUNC result_type name` and then
/// a name and a type for each parameter. Its body is empty yet.
pub open spec fn header(c: CommandModel) -> Result<FunctionModel, (ScriptError, usize)> {
    if c.args.len() < 2 {
        Err((ScriptError::CommandArgsInvalidError, c.line))
    } else {
        match parse_type(c.args[0]) {
            None => Err((ScriptError::TypeUnknownError, c.line)),
            Some(t) => match parameters_of(c.args, ((c.args.len() - 2) / 2) as nat) {
                Err(e) => Err((e, c.line)),
                Ok(p) => Ok(
                    FunctionModel {
                        name: c.args[1],
                        result_type: t,
                        parameters: p,
                        commands: Seq::empty(),
                    },
                ),
            },
        }
    }
}

/// What the translator has found so far: the functions that are closed,
/// the function that is open, and the instructions of the top level.
pub struct Cut {
    pub functions: Seq<FunctionModel>,
    pub open: Option<FunctionModel>,
    pub kept: Seq<CommandModel>,
}

/// The translator's findings after one more instruction.
///
/// Inside a function, `FUNC_END` closes the function and every other
/// instruction joins its body. Outside, `FUNC` opens a function and every
/// other instruction stays at the top level.
pub open spec fn cut_one(s: Cut, c: CommandModel) -> Result<Cut, (ScriptError, usize)> {
    match s.open {
        Some(f) => if c.command_type == CommandType::FuncEnd {
            Ok(Cut { functions: s.functions.push(f), open: None, ..s })
        } else {
            Ok(Cut { open: Some(FunctionModel { commands: f.commands.push(c), ..f }), ..s })
        },
        None => if c.command_type == CommandType::Func {
            match header(c) {
                Ok(f) => Ok(Cut { open: Some(f), ..s }),
                Err(e) => Err(e),
            }
        } else {
            Ok(Cut { kept: s.kept.push(c), ..s })
        },
    }
}

/// The translator's findings after the first `n` instructions.
pub open spec fn cut_upto(cmds: Seq<CommandModel>, n: nat) -> Result<Cut, (ScriptError, usize)>
    decreases n,
{
    if n == 0 || n > cmds.len() {
        Ok(Cut { functions: Seq::empty(), open: None, kept: Seq::empty() })
    } else {
        match cut_upto(cmds, (n - 1) as nat) {
            Err(e) => Err(e),
            Ok(s) => cut_one(s, cmds[n - 1]),
        }
    }
}

/// Once an instruction fails, no longer run of instructions is cut.
pub proof fn lemma_cut_err(cmds: Seq<CommandModel>, n: nat, m: nat)
    requires
        n <= m <= cmds.len(),
        cut_upto(cmds, n) is Err,
    ensures
        cut_upto(cmds, m) == cut_upto(cmds, n),
    decreases m,
{
    if m > n {
        lemma_cut_err(cmds, n, (m - 1) as nat);
    }
}

/// Once a parameter fails, no longer run of parameters is read.
pub proof fn lemma_parameters_err(args: Seq<Seq<char>>, n: nat, m: nat)
    requires
        n <= m,
        2 + 2 * m <= args.len(),
        parameters_of(args, n) is Err,
    ensures
        parameters_of(args, m) == parameters_of(args, n),
    decreases m,
{
    if m > n {
        lemma_parameters_err(args, n, (m - 1) as nat);
    }
}

fn find_parameter(p: &Vec<(String, VarType)>, name: &str) -> (r: Option<usize>)
    ensures
        match r {
            Some(j) => parameter_index(parameters_view(p@), name@, 0) == Some(j as nat) && j
                < p.len(),
            None => parameter_index(parameters_view(p@), name@, 0) is None,
        },
{
    let mut i: usize = 0;
    while i < p.len()
        invariant
            0 <= i <= p.len(),
            parameter_index(parameters_view(p@), name@, 0) == parameter_index(
                parameters_view(p@),
                name@,
                i as nat,
            ),
        decreases p.len() - i,
    {
        if p[i].0.as_str().eq(name) {
            return Some(i);
        }
        i += 1;
    }
    None
}

fn read_header(c: &Command) -> (r: Result<Function, (ScriptError, usize)>)
    ensures
        match r {
            Ok(f) => header(c@) == Ok::<FunctionModel, (ScriptError, usize)>(f@),
            Err(e) => header(c@) == Err::<FunctionModel, (ScriptError, usize)>(e),
        },
{
    if c.args.len() < 2 {
        return Err((ScriptError::CommandArgsInvalidError, c.line));
    }
    let result_type = match VarType::from_name(c.args[0].as_str()) {
        Ok(t) => t,
        Err(e) => {
            return Err((e, c.line));
        },
    };
    let pairs: usize = (c.args.len() - 2) / 2;
    let mut parameters: Vec<(String, VarType)> = Vec::new();
    let mut k: usize = 0;
    assert(parameters_view(parameters@) =~= Seq::<(Seq<char>, VarType)>::empty());
    while k < pairs
        invariant
            0 <= k <= pairs,
            pairs == (c.args.len() - 2) / 2,
            c.args.len() >= 2,
            parameters_of(c@.args, k as nat) == Ok::<Seq<(Seq<char>, VarType)>, ScriptError>(
                parameters_view(parameters@),
            ),
        decreases pairs - k,
    {
        let ghost before = parameters_view(parameters@);
        match VarType::from_name(c.args[2 * k + 3].as_str()) {
            Ok(t) => {
                let name = c.args[2 * k + 2].clone();
                match find_parameter(&parameters, name.as_str()) {
                    Some(j) => {
                        parameters.set(j, (name, t));
                        assert(parameters_view(parameters@) =~= before.update(
                            j as int,
                            (name@, t),
                        ));
                    },
                    None => {
                        parameters.push((name, t));
                        assert(parameters_view(parameters@) =~= before.push((name@, t)));
                    },
                }
            },
            Err(e) => {
                proof {
                    lemma_parameters_err(c@.args, (k + 1) as nat, pairs as nat);
                }
                return Err((e, c.line));
            },
        }
        k += 1;
    }
    let commands: Vec<Command> = Vec::new();
    assert(commands_view(commands@) =~= Seq::<CommandModel>::empty());
    Ok(Function::new(c.args[1].clone(), result_type, parameters, commands))
}

/// Takes the functions out of a list of instructions.
///
/// On success `commands` holds the instructions of the top level, and the
/// result the functions in the order in which they were closed; a function
/// that is never closed is dropped. On a failure `commands` is as it was.
pub fn cut_funcs(commands: &mut Vec<Command>) -> (r: Result<Vec<Function>, (ScriptError, usize)>)
    ensures
        match r {
            Ok(fs) => cut_upto(commands_view(old(commands)@), old(commands)@.len()) matches Ok(s)
                && s.functions == functions_view(fs@) && s.kept == commands_view(
                final(commands)@,
            ),
            Err(e) => cut_upto(commands_view(old(commands)@), old(commands)@.len()) == Err::<
                Cut,
                (ScriptError, usize),
            >(e) && final(commands)@ == old(commands)@,
        },
{
    let mut functions: Vec<Function> = Vec::new();
    let mut now_func: Option<Function> = None;
    let mut kept: Vec<Command> = Vec::new();
    let mut i: usize = 0;
    assert(functions_view(functions@) =~= Seq::<FunctionModel>::empty());
    assert(commands_view(kept@) =~= Seq::<CommandModel>::empty());
    while i < commands.len()
        invariant
            0 <= i <= commands.len(),
            commands@ == old(commands)@,
            cut_upto(commands_view(commands@), i as nat) == Ok::<Cut, (ScriptError, usize)>(
                Cut {
                    functions: functions_view(functions@),
                    open: match now_func {
                        Some(f) => Some(f@),
                        None => None,
                    },
                    kept: commands_view(kept@),
                },
            ),
        decreases commands.len() - i,
    {
        let command = commands[i].clone();
        assert(commands_view(commands@)[i as int] == commands@[i as int]@);
        match now_func {
            Some(f) => {
                match command.command_type {
                    CommandType::FuncEnd => {
                        let ghost before = functions_view(functions@);
                        functions.push(f);
                        assert(functions_view(functions@) =~= before.push(f@));
                        now_func = None;
                    },
                    _ => {
                        let mut f = f;
                        let ghost before = commands_view(f.commands@);
                        f.commands.push(command);
                        assert(commands_view(f.commands@) =~= before.push(command@));
                        now_func = Some(f);
                    },
                }
            },
            None => {
                match command.command_type {
                    CommandType::Func => {
                        match read_header(&command) {
                            Ok(f) => {
                                now_func = Some(f);
                            },
                            Err(e) => {
                                proof {
                                    lemma_cut_err(
                                        commands_view(commands@),
                                        (i + 1) as nat,
                                        commands@.len(),
                                    );
                                }
                                return Err(e);
                            },
                        }
                    },
                    _ => {
                        let ghost before = commands_view(kept@);
                        kept.push(command);
                        assert(commands_view(kept@) =~= before.push(command@));
                        now_func = None;
                    },
                }
            },
        }
        i += 1;
    }
    *commands = kept;
    Ok(functions)
}

/// The script that a text writes.
pub open spec fn translated(text: Seq<char>) -> Result<
    (Seq<CommandModel>, Seq<FunctionModel>),
    (ScriptError, usize),
> {
    let lines = prepared(text);
    match parsed(lines, lines.len()) {
        Err(e) => Err(e),
        Ok(cmds) => match cut_upto(cmds, cmds.len()) {
            Err(e) => Err(e),
            Ok(s) => Ok((s.kept, s.functions)),
        },
    }
}

impl Script {
    /// Translates the text of a script. A failure names the line that
    /// could not be translated.
    pub fn parse(text: String) -> (r: Result<Script, (ScriptError, usize)>)
        ensures
            match r {
                Ok(s) => translated(text@) == Ok::<
                    (Seq<CommandModel>, Seq<FunctionModel>),
                    (ScriptError, usize),
                >((commands_view(s.commands@), functions_view(s.functions@))),
                Err(e) => translated(text@) == Err::<
                    (Seq<CommandModel>, Seq<FunctionModel>),
                    (ScriptError, usize),
                >(e),
            },
    {
        let lines = prepare_script(text);
        let mut commands = match parse_commands(lines) {
            Ok(c) => c,
            Err(e) => {
                return Err(e);
            },
        };
        match cut_funcs(&mut commands) {
            Ok(functions) => Ok(Script { commands, functions }),
            Err(e) => Err(e),
        }
    }
}

} // verus!
