//! The state of a running script and its variable store.
//!
//! Variables live in two tiers: one global table for the whole run, and one
//! local table for each call in progress. A variable is addressed by a
//! dotted path, whose first segment names an entry of a table and whose
//! further segments lead into lists and mappings.

use vstd::prelude::*;
use vstd::hash_map::StringHashMap;
use crate::error::ScriptError;
use crate::function::{functions_view, Function, FunctionModel};
use crate::path::{remove_in, removed, resolve_from, resolve_in, update_in, updated};
use crate::script::Script;
use crate::engine::{in_view, out_view, FileOutModel};
use crate::stream::{InSource, OutSink};
use crate::variable::values;
use crate::text::{lemma_index_of_bound, split, split_text, texts};
use crate::var_type::VarType;
use crate::variable::{type_equals, Value, Variable};

verus! {

/// A table of variables, by name.
pub type Table = Map<Seq<char>, Value>;

/// The contents of a table of variables.
pub open spec fn table_view(m: Map<Seq<char>, Variable>) -> Table {
    m.map_values(|v: Variable| v@)
}

/// The state that all tasks of a running script share: its functions, its
/// global variables and the streams that the engine keeps itself.
pub struct RunningScript {
    pub main_function: Function,
    pub functions: Vec<Function>,
    pub variables: StringHashMap<Variable>,
    pub in_streams: Vec<InSource>,
    pub out_streams: Vec<OutSink>,
}

/// A local table without variables.
pub fn empty_locals() -> (r: StringHashMap<Variable>)
    ensures
        table_view(r@) == Map::<Seq<char>, Value>::empty(),
{
    let r = StringHashMap::new();
    assert(table_view(r@) =~= Map::<Seq<char>, Value>::empty());
    r
}

/// The value that the name stands for: the local one if there is one, else
/// the global one.
pub open spec fn lookup(globals: Table, locals: Table, name: Seq<char>) -> Option<Value> {
    if locals.contains_key(name) {
        Some(locals[name])
    } else if globals.contains_key(name) {
        Some(globals[name])
    } else {
        None
    }
}

/// The value that a dotted path addresses.
///
/// The first segment is looked up among the locals, then among the globals;
/// every further segment leads into the container reached so far.
pub open spec fn resolve(globals: Table, locals: Table, path: Seq<char>) -> Result<
    Value,
    ScriptError,
> {
    let segs = split(path, '.');
    match lookup(globals, locals, segs[0]) {
        Some(v) => resolve_from(v, segs, 1),
        None => Err(ScriptError::UnknownVarError),
    }
}

/// Whether a write goes to the global table: when the writer runs at the
/// top level, and when the name exists globally and no local hides it.
pub open spec fn routes_global(force: bool, in_globals: bool, in_locals: bool) -> bool {
    force || (in_globals && !in_locals)
}

/// The value that takes the place of `current`, the value that the first
/// segment stands for, when `value` is assigned through `segs`: `value`
/// itself for a plain name, if it has the descriptor of `current`; else
/// `current` with `value` written inside it.
pub open spec fn replaced(current: Value, segs: Seq<Seq<char>>, value: Value) -> Result<
    Value,
    ScriptError,
> {
    if segs.len() == 1 {
        if current.get_type() != value.get_type() {
            Err(ScriptError::TypeMismatchError)
        } else {
            Ok(value)
        }
    } else {
        updated(current, segs, 1, value)
    }
}

/// The two tables, globals first, with `value` under `root` in the global
/// table where `to_global` is set, else in the local one.
pub open spec fn placed(globals: Table, locals: Table, root: Seq<char>, value: Value, to_global: bool) -> (
    Table,
    Table,
) {
    if to_global {
        (globals.insert(root, value), locals)
    } else {
        (globals, locals.insert(root, value))
    }
}

/// The two tables, globals first, after `value` was written to `path`.
///
/// With `init` the write declares. It takes a plain name, which must not
/// stand for anything yet; a dotted path fails with
/// `CommandArgsInvalidError`. Without `init` the write assigns: the first
/// segment must stand for a value, the local one if there is one, else the
/// global one, and the new value must have the descriptor of what it
/// replaces. The write then goes to the global table where `force` is set,
/// or where the first segment is a global name that no local hides; else
/// to the local table.
pub open spec fn assigned(
    globals: Table,
    locals: Table,
    path: Seq<char>,
    value: Value,
    force: bool,
    init: bool,
) -> Result<(Table, Table), ScriptError> {
    let segs = split(path, '.');
    let root = segs[0];
    let to_global = routes_global(force, globals.contains_key(root), locals.contains_key(root));
    if init {
        if segs.len() != 1 {
            Err(ScriptError::CommandArgsInvalidError)
        } else if lookup(globals, locals, root) is Some {
            Err(ScriptError::VarInitedError)
        } else {
            Ok(placed(globals, locals, root, value, to_global))
        }
    } else {
        match lookup(globals, locals, root) {
            None => Err(ScriptError::UnknownVarError),
            Some(current) => match replaced(current, segs, value) {
                Ok(v) => Ok(placed(globals, locals, root, v, to_global)),
                Err(e) => Err(e),
            },
        }
    }
}

/// The table, which holds the first segment, after what `segs` addresses
/// was removed.
pub open spec fn erased(table: Table, segs: Seq<Seq<char>>) -> Result<Table, ScriptError> {
    let root = segs[0];
    if segs.len() == 1 {
        Ok(table.remove(root))
    } else {
        match removed(table[root], segs, 1) {
            Ok(v) => Ok(table.insert(root, v)),
            Err(e) => Err(e),
        }
    }
}

/// The two tables, globals first, after what `path` addresses was removed
/// from the table that holds its first segment, the local one first.
pub open spec fn dropped(globals: Table, locals: Table, path: Seq<char>) -> Result<
    (Table, Table),
    ScriptError,
> {
    let segs = split(path, '.');
    let root = segs[0];
    if locals.contains_key(root) {
        match erased(locals, segs) {
            Ok(l) => Ok((globals, l)),
            Err(e) => Err(e),
        }
    } else if globals.contains_key(root) {
        match erased(globals, segs) {
            Ok(g) => Ok((g, locals)),
            Err(e) => Err(e),
        }
    } else {
        Err(ScriptError::UnknownVarError)
    }
}

/// The position of the first function from `from` on with the given name.
pub open spec fn function_index(fs: Seq<FunctionModel>, name: Seq<char>, from: nat) -> Option<nat>
    decreases fs.len() - from,
{
    if from >= fs.len() {
        None
    } else if fs[from as int].name == name {
        Some(from)
    } else {
        function_index(fs, name, from + 1)
    }
}

/// A text always splits into at least one piece.
pub proof fn lemma_split_nonempty(s: Seq<char>, sep: char)
    ensures
        split(s, sep).len() >= 1,
    decreases s.len(),
{
    lemma_index_of_bound(s, sep);
    let i = crate::text::index_of(s, sep);
    if 0 <= i < s.len() {
        lemma_split_nonempty(s.skip(i + 1), sep);
    }
}

/// Inserting into a table inserts the view into its view.
pub proof fn lemma_table_insert(m: Map<Seq<char>, Variable>, k: Seq<char>, v: Variable)
    ensures
        table_view(m.insert(k, v)) == table_view(m).insert(k, v@),
{
    assert(table_view(m.insert(k, v)) =~= table_view(m).insert(k, v@));
}

/// Removing from a table removes from its view.
pub proof fn lemma_table_remove(m: Map<Seq<char>, Variable>, k: Seq<char>)
    ensures
        table_view(m.remove(k)) == table_view(m).remove(k),
{
    assert(table_view(m.remove(k)) =~= table_view(m).remove(k));
}

/// Reads what `segs` addresses, looking its first segment up in `locals`,
/// then in `globals`.
pub fn read_tables(
    globals: &StringHashMap<Variable>,
    locals: &StringHashMap<Variable>,
    segs: &Vec<String>,
) -> (r: Result<Variable, ScriptError>)
    requires
        segs.len() >= 1,
    ensures
        match r {
            Ok(v) => match lookup(table_view(globals@), table_view(locals@), segs@[0]@) {
                Some(root) => resolve_from(root, texts(segs@), 1) == Ok::<Value, ScriptError>(v@),
                None => false,
            },
            Err(e) => match lookup(table_view(globals@), table_view(locals@), segs@[0]@) {
                Some(root) => resolve_from(root, texts(segs@), 1) == Err::<Value, ScriptError>(e),
                None => e == ScriptError::UnknownVarError,
            },
        },
{
    let root = match locals.get(segs[0].as_str()) {
        Some(v) => v.clone(),
        None => match globals.get(segs[0].as_str()) {
            Some(v) => v.clone(),
            None => {
                return Err(ScriptError::UnknownVarError);
            },
        },
    };
    resolve_in(root, segs, 1)
}

/// Removes what `segs` addresses from `table`, which holds the first
/// segment. On an error the table stays as it was.
pub fn erase_table(table: &mut StringHashMap<Variable>, segs: &Vec<String>) -> (r: Result<
    (),
    ScriptError,
>)
    requires
        segs.len() >= 1,
        old(table)@.contains_key(segs@[0]@),
    ensures
        match r {
            Ok(()) => erased(table_view(old(table)@), texts(segs@)) == Ok::<Table, ScriptError>(
                table_view(final(table)@),
            ),
            Err(e) => erased(table_view(old(table)@), texts(segs@)) == Err::<Table, ScriptError>(e)
                && final(table)@ == old(table)@,
        },
{
    if segs.len() == 1 {
        proof {
            lemma_table_remove(table@, segs@[0]@);
        }
        table.remove(segs[0].as_str());
        Ok(())
    } else {
        let current = match table.get(segs[0].as_str()) {
            None => {
                return Err(ScriptError::UnknownVarError);
            },
            Some(v) => v.clone(),
        };
        match remove_in(current, segs, 1) {
            Ok(v) => {
                proof {
                    lemma_table_insert(table@, segs@[0]@, v);
                }
                table.insert(segs[0].clone(), v);
                Ok(())
            },
            Err(e) => Err(e),
        }
    }
}

impl RunningScript {
    /// The global variables.
    pub open spec fn globals(&self) -> Table {
        table_view(self.variables@)
    }

    /// Whether the two states differ in their global variables at most.
    pub open spec fn same_but_globals(&self, other: &RunningScript) -> bool {
        &&& self.main_function == other.main_function
        &&& self.functions == other.functions
        &&& self.in_streams == other.in_streams
        &&& self.out_streams == other.out_streams
    }

    /// The state of a script that has not run yet: no variables, no
    /// streams, and the top-level instructions as the body of a function
    /// `main` without parameters or result.
    pub fn new(script: Script) -> (r: RunningScript)
        ensures
            r.globals() == Map::<Seq<char>, Value>::empty(),
            r.functions == script.functions,
            r.main_function.commands == script.commands,
            r.main_function.name@ == "main"@,
            r.main_function.result_type == VarType::Null,
            r.main_function.parameters@.len() == 0,
            r.in_streams@.len() == 0,
            r.out_streams@.len() == 0,
    {
        let r = RunningScript {
            functions: script.functions,
            variables: StringHashMap::new(),
            main_function: Function::new(
                "main".to_owned(),
                VarType::Null,
                Vec::new(),
                script.commands,
            ),
            in_streams: Vec::new(),
            out_streams: Vec::new(),
        };
        assert(r.globals() =~= Map::<Seq<char>, Value>::empty());
        r
    }

    /// Reads the variable that `name` addresses.
    ///
    /// Fails with `UnknownVarError` when the first segment names nothing or
    /// a later one addresses nothing, with `TypeMismatchError` when a
    /// segment leads into a value that is no container, and with
    /// `ParseVarError` when a segment does not write an index or a key.
    pub fn get_var(&self, name: String, locals: &StringHashMap<Variable>) -> (r: Result<
        Variable,
        ScriptError,
    >)
        ensures
            match r {
                Ok(v) => resolve(self.globals(), table_view(locals@), name@) == Ok::<
                    Value,
                    ScriptError,
                >(v@),
                Err(e) => resolve(self.globals(), table_view(locals@), name@) == Err::<
                    Value,
                    ScriptError,
                >(e),
            },
    {
        proof {
            lemma_split_nonempty(name@, '.');
        }
        let segs = split_text(name.as_str(), '.');
        assert(texts(segs@)[0] == segs@[0]@);
        read_tables(&self.variables, locals, &segs)
    }

    /// Removes the variable that `name` addresses: from the table that
    /// holds it, the local one first, or from the container that its last
    /// segment leads into. On an error nothing changes.
    pub fn drop_var(&mut self, name: String, locals: &mut StringHashMap<Variable>) -> (r: Result<
        (),
        ScriptError,
    >)
        ensures
            final(self).same_but_globals(old(self)),
            match r {
                Ok(()) => dropped(old(self).globals(), table_view(old(locals)@), name@) == Ok::<
                    (Table, Table),
                    ScriptError,
                >((final(self).globals(), table_view(final(locals)@))),
                Err(e) => dropped(old(self).globals(), table_view(old(locals)@), name@) == Err::<
                    (Table, Table),
                    ScriptError,
                >(e) && final(self).variables@ == old(self).variables@ && final(locals)@ == old(
                    locals,
                )@,
            },
    {
        proof {
            lemma_split_nonempty(name@, '.');
        }
        let segs = split_text(name.as_str(), '.');
        assert(texts(segs@)[0] == segs@[0]@);
        if locals.contains_key(segs[0].as_str()) {
            erase_table(locals, &segs)
        } else if self.variables.contains_key(segs[0].as_str()) {
            erase_table(&mut self.variables, &segs)
        } else {
            Err(ScriptError::UnknownVarError)
        }
    }

    /// Writes `value` to the variable that `name` addresses.
    ///
    /// With `init` the write declares the variable: it fails with
    /// `VarInitedError` if the name already stands for something, and with
    /// `CommandArgsInvalidError` if the name is a dotted path. Without it
    /// the write assigns: it fails with `UnknownVarError` if the first
    /// segment stands for nothing, and with `TypeMismatchError` if the
    /// value that it replaces has another descriptor than `value`; what
    /// the first segment stands for is the local variable if there is
    /// one, else the global one. The write goes to the global table when
    /// `global` is set, and when the first segment exists globally and no
    /// local hides it; else to `locals`. On an error nothing changes.
    pub fn set_var(
        &mut self,
        name: String,
        value: Variable,
        global: bool,
        init: bool,
        locals: &mut StringHashMap<Variable>,
    ) -> (r: Result<(), ScriptError>)
        ensures
            final(self).same_but_globals(old(self)),
            match r {
                Ok(()) => assigned(
                    old(self).globals(),
                    table_view(old(locals)@),
                    name@,
                    value@,
                    global,
                    init,
                ) == Ok::<(Table, Table), ScriptError>(
                    (final(self).globals(), table_view(final(locals)@)),
                ),
                Err(e) => assigned(
                    old(self).globals(),
                    table_view(old(locals)@),
                    name@,
                    value@,
                    global,
                    init,
                ) == Err::<(Table, Table), ScriptError>(e) && final(self).variables@ == old(
                    self,
                ).variables@ && final(locals)@ == old(locals)@,
            },
    {
        proof {
            lemma_split_nonempty(name@, '.');
        }
        let segs = split_text(name.as_str(), '.');
        assert(texts(segs@)[0] == segs@[0]@);
        let in_globals = self.variables.contains_key(segs[0].as_str());
        let in_locals = locals.contains_key(segs[0].as_str());
        let new_root = if init {
            if segs.len() != 1 {
                return Err(ScriptError::CommandArgsInvalidError);
            }
            if in_locals || in_globals {
                return Err(ScriptError::VarInitedError);
            }
            value
        } else {
            let current = match locals.get(segs[0].as_str()) {
                Some(v) => v,
                None => match self.variables.get(segs[0].as_str()) {
                    Some(v) => v,
                    None => {
                        return Err(ScriptError::UnknownVarError);
                    },
                },
            };
            if segs.len() == 1 {
                let old_type = current.get_type();
                let new_type = value.get_type();
                if !type_equals(&old_type, &new_type) {
                    return Err(ScriptError::TypeMismatchError);
                }
                value
            } else {
                match update_in(current.clone(), &segs, 1, value) {
                    Ok(v) => v,
                    Err(e) => {
                        return Err(e);
                    },
                }
            }
        };
        let root = segs[0].clone();
        if global || (in_globals && !in_locals) {
            proof {
                lemma_table_insert(self.variables@, root@, new_root);
            }
            self.variables.insert(root, new_root);
        } else {
            proof {
                lemma_table_insert(locals@, root@, new_root);
            }
            locals.insert(root, new_root);
        }
        Ok(())
    }

    /// The first function with the given name; `FunctionUnknownError` when
    /// there is none.
    pub fn get_function(&self, name: String) -> (r: Result<Function, ScriptError>)
        ensures
            match r {
                Ok(f) => match function_index(functions_view(self.functions@), name@, 0) {
                    Some(i) => i < self.functions@.len() && f@ == self.functions@[i as int]@,
                    None => false,
                },
                Err(e) => function_index(functions_view(self.functions@), name@, 0) is None && e
                    == ScriptError::FunctionUnknownError,
            },
    {
        let mut i: usize = 0;
        while i < self.functions.len()
            invariant
                0 <= i <= self.functions.len(),
                function_index(functions_view(self.functions@), name@, 0) == function_index(
                    functions_view(self.functions@),
                    name@,
                    i as nat,
                ),
            decreases self.functions.len() - i,
        {
            if self.functions[i].name.as_str().eq(name.as_str()) {
                return Ok(self.functions[i].clone());
            }
            i += 1;
        }
        Err(ScriptError::FunctionUnknownError)
    }
}

/// The list of strings that holds the given texts.
pub open spec fn string_list(args: Seq<Seq<char>>) -> Value {
    Value::List(
        VarType::List(Box::new(VarType::String)),
        Some(Seq::new(args.len(), |i: int| Value::Text(VarType::String, Some(args[i])))),
    )
}

/// The file contents that a flush hands to the host: for each of the first
/// `n` output streams that is a file's, in order, the path and the
/// contents with the waiting bytes at their end.
pub open spec fn flushed_files(outputs: Seq<Option<FileOutModel>>, n: nat) -> Seq<
    (Seq<char>, Seq<u8>),
>
    decreases n,
{
    if n == 0 || n > outputs.len() {
        Seq::empty()
    } else {
        match outputs[n - 1] {
            Some(f) => flushed_files(outputs, (n - 1) as nat).push(
                (f.file_path, f.bytes + f.bytes_wrote),
            ),
            None => flushed_files(outputs, (n - 1) as nat),
        }
    }
}

/// An output stream after a flush.
pub open spec fn flushed(o: Option<FileOutModel>) -> Option<FileOutModel> {
    match o {
        Some(f) => Some(
            FileOutModel {
                bytes: f.bytes + f.bytes_wrote,
                bytes_wrote: Seq::empty(),
                file_path: f.file_path,
            },
        ),
        None => None,
    }
}

/// The paths and contents of a list of files.
pub open spec fn files_view(v: Seq<(String, Vec<u8>)>) -> Seq<(Seq<char>, Seq<u8>)> {
    v.map_values(|p: (String, Vec<u8>)| (p.0@, p.1@))
}

impl RunningScript {
    /// Declares the standard variables as globals: `args`, the list of the
    /// given strings; `cout`, a new output stream of the host; and `cin`,
    /// a new input stream of the host. Returns the handles of the two
    /// streams, output first, by which the engine will name them to the
    /// host.
    ///
    /// Fails with `VarInitedError`, and changes nothing, where one of the
    /// three names is a global variable already.
    pub fn set_standard_vars(&mut self, args: Vec<String>) -> (r: Result<
        (usize, usize),
        ScriptError,
    >)
        ensures
            final(self).main_function == old(self).main_function,
            final(self).functions == old(self).functions,
            match r {
                Ok((o, i)) => {
                    &&& !old(self).globals().contains_key("args"@)
                    &&& !old(self).globals().contains_key("cout"@)
                    &&& !old(self).globals().contains_key("cin"@)
                    &&& o == old(self).out_streams@.len()
                    &&& i == old(self).in_streams@.len()
                    &&& final(self).globals() == old(self).globals().insert(
                        "args"@,
                        string_list(crate::text::texts(args@)),
                    ).insert("cout"@, Value::OutStream(VarType::OutStream, Some(o))).insert(
                        "cin"@,
                        Value::InStream(VarType::InStream, Some(i)),
                    )
                    &&& out_view(final(self).out_streams@) == out_view(
                        old(self).out_streams@,
                    ).push(None)
                    &&& in_view(final(self).in_streams@) == in_view(old(self).in_streams@).push(
                        None,
                    )
                },
                Err(e) => {
                    &&& e == ScriptError::VarInitedError
                    &&& (old(self).globals().contains_key("args"@) || old(
                        self,
                    ).globals().contains_key("cout"@) || old(self).globals().contains_key("cin"@))
                    &&& final(self).variables@ == old(self).variables@
                    &&& final(self).in_streams == old(self).in_streams
                    &&& final(self).out_streams == old(self).out_streams
                },
            },
    {
        if self.variables.contains_key("args") || self.variables.contains_key("cout")
            || self.variables.contains_key("cin") {
            return Err(ScriptError::VarInitedError);
        }
        let mut items: Vec<Variable> = Vec::new();
        let mut k: usize = 0;
        while k < args.len()
            invariant
                0 <= k <= args.len(),
                items.len() == k,
                forall|j: int|
                    0 <= j < k ==> items@[j]@ == Value::Text(VarType::String, Some(args@[j]@)),
            decreases args.len() - k,
        {
            items.push(Variable::from_str(Some(args[k].clone())));
            k += 1;
        }
        let list = Variable::from_list(Some(items), VarType::String);
        assert(list@ == string_list(crate::text::texts(args@))) by {
            assert(values(items@) =~= Seq::new(
                args@.len(),
                |i: int| Value::Text(VarType::String, Some(crate::text::texts(args@)[i])),
            ));
        }
        let o = self.out_streams.len();
        let i = self.in_streams.len();
        let cout = Variable::from_out_stream(Some(o));
        let cin = Variable::from_in_stream(Some(i));
        proof {
            lemma_table_insert(self.variables@, "args"@, list);
            lemma_table_insert(self.variables@.insert("args"@, list), "cout"@, cout);
            lemma_table_insert(
                self.variables@.insert("args"@, list).insert("cout"@, cout),
                "cin"@,
                cin,
            );
        }
        self.variables.insert("args".to_owned(), list);
        self.variables.insert("cout".to_owned(), cout);
        self.variables.insert("cin".to_owned(), cin);
        let ghost outs = self.out_streams@;
        let ghost ins = self.in_streams@;
        self.out_streams.push(OutSink::Host);
        self.in_streams.push(InSource::Host);
        assert(out_view(self.out_streams@) =~= out_view(outs).push(None));
        assert(in_view(self.in_streams@) =~= in_view(ins).push(None));
        Ok((o, i))
    }

    /// Flushes every output stream that is a file's, and returns the path
    /// and the contents of each, in the order of the streams, for the host
    /// to store.
    pub fn flush_files(&mut self) -> (r: Vec<(String, Vec<u8>)>)
        ensures
            final(self).main_function == old(self).main_function,
            final(self).functions == old(self).functions,
            final(self).variables == old(self).variables,
            final(self).in_streams == old(self).in_streams,
            files_view(r@) == flushed_files(
                out_view(old(self).out_streams@),
                old(self).out_streams@.len(),
            ),
            out_view(final(self).out_streams@) == out_view(old(self).out_streams@).map_values(
                |o: Option<FileOutModel>| flushed(o),
            ),
    {
        let mut files: Vec<(String, Vec<u8>)> = Vec::new();
        let mut k: usize = 0;
        let ghost start = out_view(self.out_streams@);
        assert(files_view(files@) =~= flushed_files(start, 0));
        while k < self.out_streams.len()
            invariant
                0 <= k <= self.out_streams.len(),
                self.main_function == old(self).main_function,
                self.functions == old(self).functions,
                self.variables == old(self).variables,
                self.in_streams == old(self).in_streams,
                start == out_view(old(self).out_streams@),
                self.out_streams.len() == old(self).out_streams.len(),
                files_view(files@) == flushed_files(start, k as nat),
                forall|j: int| 0 <= j < k ==> out_view(self.out_streams@)[j] == flushed(start[j]),
                forall|j: int|
                    k <= j < self.out_streams.len() ==> out_view(self.out_streams@)[j] == start[j],
            decreases self.out_streams.len() - k,
        {
            let ghost before = self.out_streams@;
            let ghost done = files_view(files@);
            match self.out_streams.remove(k) {
                OutSink::Host => {
                    self.out_streams.insert(k, OutSink::Host);
                    assert(self.out_streams@ =~= before);
                    assert(out_view(before)[k as int] == start[k as int]);
                },
                OutSink::File(f) => {
                    let mut f = f;
                    let contents = f.flush();
                    let path = f.file_path.clone();
                    files.push((path, contents));
                    assert(files_view(files@) =~= done.push((path@, contents@)));
                    self.out_streams.insert(k, OutSink::File(f));
                    assert(self.out_streams@ =~= before.update(k as int, OutSink::File(f)));
                    assert(out_view(before)[k as int] == start[k as int]);
                },
            }
            proof {
                let now = out_view(self.out_streams@);
                let was = out_view(before);
                assert(now.len() == was.len());
                assert forall|j: int| 0 <= j < now.len() && j != k implies now[j] == was[j] by {
                    assert(self.out_streams@[j] == before[j]);
                }
                assert(now[k as int] == flushed(start[k as int]));
                assert forall|j: int| 0 <= j < k + 1 implies now[j] == flushed(start[j]) by {
                    if j < k {
                        assert(was[j] == flushed(start[j]));
                    }
                }
                assert forall|j: int| k + 1 <= j < now.len() implies now[j] == start[j] by {
                    assert(was[j] == start[j]);
                }
            }
            k += 1;
        }
        assert(out_view(self.out_streams@) =~= start.map_values(
            |o: Option<FileOutModel>| flushed(o),
        ));
        files
    }
}

} // verus!
