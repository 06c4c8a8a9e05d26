//! Functions of a script.

use vstd::prelude::*;
use vstd::hash_map::StringHashMap;
use crate::action::{Loop, LoopModel};
use crate::command::{clone_commands, commands_view, Command, CommandModel};
use crate::running_script::{lemma_table_insert, table_view, Table};
use crate::text::texts;
use crate::var_type::VarType;
use crate::variable::{values, Value, Variable};

verus! {

/// A named list of instructions with typed parameters. A call binds the
/// arguments to the parameters in their order, and finds its result in the
/// variable `result`.
#[derive(Debug, PartialEq)]
pub struct Function {
    pub name: String,
    pub result_type: VarType,
    pub parameters: Vec<(String, VarType)>,
    pub commands: Vec<Command>,
}

/// The mathematical content of a `Function`.
pub struct FunctionModel {
    pub name: Seq<char>,
    pub result_type: VarType,
    pub parameters: Seq<(Seq<char>, VarType)>,
    pub commands: Seq<CommandModel>,
}

/// The contents of a parameter list.
pub open spec fn parameters_view(v: Seq<(String, VarType)>) -> Seq<(Seq<char>, VarType)> {
    v.map_values(|p: (String, VarType)| (p.0@, p.1))
}

impl View for Function {
    type V = FunctionModel;

    open spec fn view(&self) -> FunctionModel {
        FunctionModel {
            name: self.name@,
            result_type: self.result_type,
            parameters: parameters_view(self.parameters@),
            commands: commands_view(self.commands@),
        }
    }
}

/// A copy of a parameter list.
pub fn clone_parameters(v: &Vec<(String, VarType)>) -> (r: Vec<(String, VarType)>)
    ensures
        parameters_view(r@) == parameters_view(v@),
{
    let mut out: Vec<(String, VarType)> = Vec::new();
    let mut i: usize = 0;
    while i < v.len()
        invariant
            0 <= i <= v.len(),
            out.len() == i,
            forall|j: int| 0 <= j < i ==> out@[j].0@ == v@[j].0@ && out@[j].1 == v@[j].1,
        decreases v.len() - i,
    {
        let name = v[i].0.clone();
        let t = v[i].1.clone();
        out.push((name, t));
        i += 1;
    }
    assert(parameters_view(out@) =~= parameters_view(v@));
    out
}

impl Clone for Function {
    fn clone(&self) -> (r: Self)
        ensures
            r@ == self@,
    {
        Function {
            name: self.name.clone(),
            result_type: self.result_type.clone(),
            parameters: clone_parameters(&self.parameters),
            commands: clone_commands(&self.commands),
        }
    }
}

impl Function {
    /// A function from its name, result type, parameters and body.
    pub fn new(
        name: String,
        result_type: VarType,
        parameters: Vec<(String, VarType)>,
        commands: Vec<Command>,
    ) -> (r: Function)
        ensures
            r.name == name,
            r.result_type == result_type,
            r.parameters == parameters,
            r.commands == commands,
    {
        Function { name, result_type, parameters, commands }
    }
}

/// The contents of a sequence of functions.
pub open spec fn functions_view(v: Seq<Function>) -> Seq<FunctionModel> {
    v.map_values(|f: Function| f@)
}

/// A control-flow instruction in progress: the instruction, and the calls
/// that it still has to make.
#[derive(Debug, PartialEq)]
pub struct Running {
    pub command: Command,
    pub calls: Loop,
}

/// The mathematical content of a `Running`.
pub struct RunningModel {
    pub command: CommandModel,
    pub calls: LoopModel,
}

impl View for Running {
    type V = RunningModel;

    open spec fn view(&self) -> RunningModel {
        RunningModel { command: self.command@, calls: self.calls@ }
    }
}

/// A call in progress: the instructions of the function, the position of
/// the next one, the local variables, the names of the temporary variables
/// that wait for removal, whether the call runs at the top level, the name
/// of the variable that takes the result, and the control-flow instruction
/// that is in progress, if one is.
pub struct Frame {
    pub commands: Vec<Command>,
    pub pc: usize,
    pub locals: StringHashMap<Variable>,
    pub temp_vars: Vec<String>,
    pub is_global: bool,
    pub result_var: String,
    pub running: Option<Running>,
}

/// The mathematical content of a `Frame`.
pub struct FrameModel {
    pub commands: Seq<CommandModel>,
    pub pc: usize,
    pub locals: Table,
    pub temps: Seq<Seq<char>>,
    pub is_global: bool,
    pub result_var: Seq<char>,
    pub running: Option<RunningModel>,
}

impl View for Frame {
    type V = FrameModel;

    open spec fn view(&self) -> FrameModel {
        FrameModel {
            commands: commands_view(self.commands@),
            pc: self.pc,
            locals: table_view(self.locals@),
            temps: texts(self.temp_vars@),
            is_global: self.is_global,
            result_var: self.result_var@,
            running: match self.running {
                Some(r) => Some(r@),
                None => None,
            },
        }
    }
}

/// The table that binds the first `n` parameters to the arguments in the
/// same positions. A later parameter of the same name wins.
pub open spec fn bound(params: Seq<(Seq<char>, VarType)>, args: Seq<Value>, n: nat) -> Table
    decreases n,
{
    if n == 0 || n > params.len() || n > args.len() {
        Map::empty()
    } else {
        bound(params, args, (n - 1) as nat).insert(params[n - 1].0, args[n - 1])
    }
}

/// The frame in which a call of `f` starts: every parameter bound to the
/// argument in its position, and the variable `result` declared with the
/// empty value of the result type.
pub open spec fn entered(f: FunctionModel, result_var: Seq<char>, args: Seq<Value>, is_global: bool) -> FrameModel {
    FrameModel {
        commands: f.commands,
        pc: 0,
        locals: bound(f.parameters, args, f.parameters.len()).insert(
            "result"@,
            Value::empty(f.result_type),
        ),
        temps: Seq::empty(),
        is_global,
        result_var,
        running: None,
    }
}

impl Function {
    /// Starts a call of the function: builds the frame in which its
    /// instructions run. `result_var` names the variable of the caller
    /// that takes the result, or is `null`. There has to be an argument
    /// for every parameter; further arguments are ignored.
    pub fn execute(&self, result_var: String, args: Vec<Variable>, is_global: bool) -> (r: Frame)
        requires
            args.len() >= self.parameters.len(),
        ensures
            r@ == entered(self@, result_var@, values(args@), is_global),
    {
        let mut locals: StringHashMap<Variable> = StringHashMap::new();
        let mut i: usize = 0;
        assert(table_view(locals@) =~= bound(parameters_view(self.parameters@), values(args@), 0));
        while i < self.parameters.len()
            invariant
                0 <= i <= self.parameters.len() <= args.len(),
                table_view(locals@) == bound(
                    parameters_view(self.parameters@),
                    values(args@),
                    i as nat,
                ),
            decreases self.parameters.len() - i,
        {
            proof {
                lemma_table_insert(locals@, self.parameters@[i as int].0@, args@[i as int]);
            }
            locals.insert(self.parameters[i].0.clone(), args[i].clone());
            i += 1;
        }
        let slot = match Variable::empty_var(self.result_type.clone()) {
            Ok(v) => v,
            Err(_) => Variable::from_null(),
        };
        proof {
            lemma_table_insert(locals@, "result"@, slot);
        }
        locals.insert("result".to_owned(), slot);
        let temp_vars: Vec<String> = Vec::new();
        assert(texts(temp_vars@) =~= Seq::<Seq<char>>::empty());
        Frame {
            commands: clone_commands(&self.commands),
            pc: 0,
            locals,
            temp_vars,
            is_global,
            result_var,
            running: None,
        }
    }
}

} // verus!
