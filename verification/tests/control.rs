use std::collections::HashMap;

use sustlang::running_script::empty_locals;
use sustlang::{
    Action, Command, Event, FloatValue, Number, Request, RunningScript, Script, ScriptError,
    SleepTime, Task, VarType, Variable,
};

struct Host {
    output: Vec<u8>,
    input: Vec<u8>,
    files: HashMap<String, Vec<u8>>,
    slept: Vec<u64>,
    spawned: usize,
    write_fails: bool,
}

impl Host {
    fn new(input: &[u8]) -> Host {
        Host {
            output: Vec::new(),
            input: input.to_vec(),
            files: HashMap::new(),
            slept: Vec::new(),
            spawned: 0,
            write_fails: false,
        }
    }
}

fn float_value(x: f64) -> FloatValue {
    FloatValue::new(x.to_bits(), x.to_string())
}

fn to_float(n: &Number) -> f64 {
    match n {
        Number::Integer(i) => *i as f64,
        Number::Float(f) => f64::from_bits(f.bits),
        Number::Char(c) => *c as f64,
    }
}

fn perform(host: &mut Host, running: &mut RunningScript, action: Action) -> Event {
    match action {
        Action::Continue => Event::Nothing,
        Action::Finished(_) => Event::Nothing,
        Action::Write { bytes, .. } => {
            if host.write_fails {
                Event::Failed
            } else {
                host.output.extend(bytes);
                Event::Done
            }
        }
        Action::Read { size, .. } => {
            if size <= host.input.len() {
                let rest = host.input.split_off(size);
                let bytes = std::mem::replace(&mut host.input, rest);
                Event::Bytes(bytes)
            } else {
                Event::Failed
            }
        }
        Action::ReadAll { .. } => Event::Bytes(std::mem::take(&mut host.input)),
        Action::ReadFile { path } => match host.files.get(&path) {
            Some(bytes) => Event::Bytes(bytes.clone()),
            None => Event::Failed,
        },
        Action::Sleep { time } => {
            match time {
                SleepTime::Millis(m) => host.slept.push(m),
                SleepTime::Float(f) => host.slept.push(f64::from_bits(f.bits) as u64),
            }
            Event::Done
        }
        Action::Spawn { function } => {
            host.spawned += 1;
            let mut task = Task::call(&function, Vec::new()).unwrap();
            let _ = drive(host, running, &mut task);
            Event::Done
        }
        Action::Float(request) => match request {
            Request::ParseFloat { text } => match text.parse::<f64>() {
                Ok(x) => Event::Float(float_value(x)),
                Err(_) => Event::Failed,
            },
            Request::AddFloat { left, right } => {
                Event::Float(float_value(f64::from_bits(left.bits) + f64::from_bits(right.bits)))
            }
            Request::Compare { a, b, greater } => {
                let (l, r) = (to_float(&a), to_float(&b));
                Event::Flag(if greater { l > r } else { l < r })
            }
        },
    }
}

fn drive(
    host: &mut Host,
    running: &mut RunningScript,
    task: &mut Task,
) -> Result<(), (ScriptError, Command)> {
    let mut event = Event::Nothing;
    loop {
        match task.step(running, event) {
            Action::Finished(r) => return r,
            action => event = perform(host, running, action),
        }
    }
}

fn run_on(text: &str, mut host: Host) -> (RunningScript, Result<(), (ScriptError, Command)>, Host) {
    let script = Script::parse(text.to_string()).unwrap();
    let mut running = RunningScript::new(script);
    running
        .set_standard_vars(vec!["one".to_string(), "two".to_string(), "three".to_string()])
        .unwrap();
    let mut task = Task::new(&running);
    let r = drive(&mut host, &mut running, &mut task);
    (running, r, host)
}

fn run(text: &str) -> (RunningScript, Result<(), (ScriptError, Command)>, Host) {
    run_on(text, Host::new(b""))
}

fn global(running: &RunningScript, name: &str) -> Result<Variable, ScriptError> {
    running.get_var(name.to_string(), &empty_locals())
}

fn shown(running: &RunningScript, name: &str) -> String {
    global(running, name).unwrap().to_string().unwrap()
}

fn failure(text: &str) -> (ScriptError, usize) {
    match run(text).1 {
        Ok(()) => panic!("the script ran to its end"),
        Err((e, c)) => (e, c.line),
    }
}

use sustlang::{CommandType, Frame, Function, Loop, Outcome, Pending, Pohuy};

const COUNTER: &str = "INIT_VAR int count\nSET_VAR count 0\nINIT_VAR int one\nSET_VAR one 1\nINIT_VAR string seen\nSET_VAR seen\nINIT_VAR string sep\nSET_VAR sep ,\n";

fn run_with(prelude: &str, rest: &str) -> (RunningScript, Result<(), (ScriptError, Command)>, Host) {
    run(&format!("{}{}", prelude, rest))
}

#[test]
fn for_calls_with_each_integer_in_rising_order() {
    let text = "FUNC null f i int\nINIT_VAR string s\nTO_STRING i s\nADD_STR seen s\nADD_STR seen sep\nADD_INT count one\nFUNC_END\n\
                INIT_VAR int from\nSET_VAR from -1\nINIT_VAR int to\nSET_VAR to 2\nFOR f from to\n";
    let (running, r, _) = run_with(COUNTER, text);
    assert_eq!(r, Ok(()));
    assert_eq!(global(&running, "seen").unwrap().as_str(), Ok("-1,0,1,2,".to_string()));
    assert_eq!(global(&running, "count").unwrap().as_int(), Ok(4));
}

#[test]
fn for_over_an_empty_or_single_range() {
    let text = "FUNC null f i int\nADD_INT count one\nFUNC_END\n\
                INIT_VAR int a\nSET_VAR a 3\nINIT_VAR int b\nSET_VAR b 2\nFOR f a b\nINIT_VAR int twice\nCOPY_VAR count twice\nFOR f a a\n";
    let (running, r, _) = run_with(COUNTER, text);
    assert_eq!(r, Ok(()));
    assert_eq!(global(&running, "twice").unwrap().as_int(), Ok(0));
    assert_eq!(global(&running, "count").unwrap().as_int(), Ok(1));
}

#[test]
fn for_up_to_the_greatest_integer() {
    let text = format!(
        "FUNC null f i int\nADD_INT count one\nFUNC_END\nINIT_VAR int a\nSET_VAR a {}\nINIT_VAR int b\nSET_VAR b {}\nFOR f a b\n",
        isize::MAX - 1,
        isize::MAX
    );
    let (running, r, _) = run_with(COUNTER, &text);
    assert_eq!(r, Ok(()));
    assert_eq!(global(&running, "count").unwrap().as_int(), Ok(2));
}

#[test]
fn for_string_calls_with_each_byte() {
    let text = "FUNC null f c char\nINIT_VAR string s\nTO_STRING c s\nADD_STR seen s\nADD_STR seen sep\nFUNC_END\nFOR_STRING f args.2\n";
    let (running, r, _) = run_with(COUNTER, text);
    assert_eq!(r, Ok(()));
    assert_eq!(global(&running, "seen").unwrap().as_str(), Ok("t,h,r,e,e,".to_string()));
}

#[test]
fn for_map_calls_with_key_and_value_in_the_order_of_the_entries() {
    let text = "FUNC null f k string v int\nADD_STR seen k\nINIT_VAR string s\nTO_STRING v s\nADD_STR seen s\nADD_STR seen sep\nFUNC_END\n\
                INIT_VAR map[string,int] m\nINIT_VAR int n\nSET_VAR n 1\nCOPY_VAR n m.z\nSET_VAR n 2\nCOPY_VAR n m.a\nSET_VAR n 3\nCOPY_VAR n m.m\nSET_VAR n 4\nCOPY_VAR n m.z\nFOR_MAP f m\n";
    let (running, r, _) = run_with(COUNTER, text);
    assert_eq!(r, Ok(()));
    assert_eq!(global(&running, "seen").unwrap().as_str(), Ok("z4,a2,m3,".to_string()));
}

#[test]
fn loops_over_empty_containers_call_nothing() {
    let text = "FUNC null f x int\nADD_INT count one\nFUNC_END\nFUNC null g k int v int\nADD_INT count one\nFUNC_END\n\
                INIT_VAR list[int] l\nFOR_LIST f l\nINIT_VAR map[int,int] m\nFOR_MAP g m\nINIT_VAR string s\nSET_VAR s\nFOR_STRING f s\n";
    let (running, r, _) = run_with(COUNTER, text);
    assert_eq!(r, Ok(()));
    assert_eq!(global(&running, "count").unwrap().as_int(), Ok(0));
}

#[test]
fn while_calls_until_the_result_is_false() {
    let text = "FUNC bool f\nADD_INT count one\nLESS count limit result\nFUNC_END\nINIT_VAR int limit\nSET_VAR limit 3\nWHILE f\n";
    let (running, r, _) = run_with(COUNTER, text);
    assert_eq!(r, Ok(()));
    assert_eq!(global(&running, "count").unwrap().as_int(), Ok(3));
    assert_eq!(global(&running, "while").unwrap().as_bool(), Ok(false));
}

#[test]
fn while_calls_once_even_when_the_result_is_false_at_once() {
    let text = "FUNC bool f\nADD_INT count one\nSET_VAR result false\nFUNC_END\nWHILE f\nWHILE f\n";
    let (running, r, _) = run_with(COUNTER, text);
    assert_eq!(r, Ok(()));
    assert_eq!(global(&running, "count").unwrap().as_int(), Ok(2));
}

#[test]
fn while_failures() {
    assert_eq!(failure("WHILE nothing\n"), (ScriptError::FunctionUnknownError, 1));
    assert_eq!(failure("WHILE\n"), (ScriptError::CommandArgsInvalidError, 1));
    assert_eq!(
        failure("FUNC int f\nSET_VAR result 1\nFUNC_END\nWHILE f\n"),
        (ScriptError::TypeMismatchError, 4)
    );
    assert_eq!(failure("FUNC bool f\nFUNC_END\nWHILE f\n"), (ScriptError::TypeMismatchError, 3));
    assert_eq!(
        failure("FUNC bool f\nFUNC_END\nINIT_VAR int while\nWHILE f\n"),
        (ScriptError::TypeMismatchError, 4)
    );
}

#[test]
fn use_func_binds_arguments_and_hands_the_result_on() {
    let text = "FUNC int add a int b int\nADD_INT a b\nCOPY_VAR a result\nFUNC_END\n\
                INIT_VAR int x\nSET_VAR x 40\nINIT_VAR int y\nSET_VAR y 2\nINIT_VAR int sum\nUSE_FUNC add sum x y\nUSE_FUNC add null x y\n";
    let (running, r, _) = run(text);
    assert_eq!(r, Ok(()));
    assert_eq!(global(&running, "sum").unwrap().as_int(), Ok(42));
    assert_eq!(global(&running, "x").unwrap().as_int(), Ok(40));
    assert_eq!(global(&running, "a"), Err(ScriptError::UnknownVarError));
    assert_eq!(global(&running, "result"), Err(ScriptError::UnknownVarError));
}

#[test]
fn a_function_sees_globals_and_its_own_locals() {
    let text = "FUNC int inner n int\nADD_INT n n\nINIT_VAR bool sees\nHAS_VAR mine sees\nCOPY_VAR sees leaked\nCOPY_VAR n result\nFUNC_END\n\
                FUNC int outer n int\nINIT_VAR int mine\nSET_VAR mine 1\nINIT_VAR int got\nUSE_FUNC inner got n\nADD_INT got mine\nADD_INT got n\nCOPY_VAR got result\nFUNC_END\n\
                INIT_VAR bool leaked\nINIT_VAR int five\nSET_VAR five 5\nINIT_VAR int out\nUSE_FUNC outer out five\n";
    let (running, r, _) = run(text);
    assert_eq!(r, Ok(()));
    assert_eq!(global(&running, "out").unwrap().as_int(), Ok(16));
    assert_eq!(global(&running, "leaked").unwrap().as_bool(), Ok(false));
    assert_eq!(global(&running, "mine"), Err(ScriptError::UnknownVarError));
    assert_eq!(global(&running, "got"), Err(ScriptError::UnknownVarError));
}

#[test]
fn a_function_can_call_itself() {
    let text = "FUNC int down n int\nINIT_VAR bool more\nMORE n zero more\nIF more step\nCOPY_VAR total result\nFUNC_END\n\
                FUNC null step\nADD_INT total level\nADD_INT level minus\nINIT_VAR int ignored\nUSE_FUNC down ignored level\nFUNC_END\n\
                INIT_VAR int zero\nSET_VAR zero 0\nINIT_VAR int minus\nSET_VAR minus -1\nINIT_VAR int total\nSET_VAR total 0\n\
                INIT_VAR int level\nSET_VAR level 4\nINIT_VAR int out\nUSE_FUNC down out level\n";
    let (running, r, _) = run(text);
    assert_eq!(r, Ok(()));
    assert_eq!(global(&running, "total").unwrap().as_int(), Ok(10));
    assert_eq!(global(&running, "out").unwrap().as_int(), Ok(10));
    assert_eq!(global(&running, "level").unwrap().as_int(), Ok(0));
}

#[test]
fn return_leaves_the_function_and_hands_no_result_on() {
    let text = "FUNC int f\nSET_VAR result 7\nADD_INT count one\nRETURN\nADD_INT count one\nFUNC_END\n\
                INIT_VAR int out\nSET_VAR out 1\nUSE_FUNC f out\n";
    let (running, r, _) = run_with(COUNTER, text);
    assert_eq!(r, Ok(()));
    assert_eq!(global(&running, "count").unwrap().as_int(), Ok(1));
    assert_eq!(global(&running, "out").unwrap().as_int(), Ok(1));
}

#[test]
fn use_func_failures() {
    let pre = "FUNC int f a int\nCOPY_VAR a result\nFUNC_END\nFUNC null broken\nADD_INT nowhere nowhere\nFUNC_END\nFUNC int lost\nDROP_VAR result\nFUNC_END\n\
               INIT_VAR int x\nSET_VAR x 1\nINIT_VAR string s\nINIT_VAR int out\n";
    let at = |line: &str| failure(&format!("{}{}\n", pre, line));
    assert_eq!(at("USE_FUNC g out x"), (ScriptError::FunctionUnknownError, 14));
    assert_eq!(at("USE_FUNC f out"), (ScriptError::CommandArgsInvalidError, 14));
    assert_eq!(at("USE_FUNC f"), (ScriptError::CommandArgsInvalidError, 14));
    assert_eq!(at("USE_FUNC f out y"), (ScriptError::UnknownVarError, 14));
    assert_eq!(at("USE_FUNC f s x"), (ScriptError::TypeMismatchError, 14));
    assert_eq!(at("USE_FUNC f args.9 x"), (ScriptError::UnknownVarError, 14));
    assert_eq!(at("USE_FUNC f nowhere.0 x"), (ScriptError::CommandArgsInvalidError, 14));
    assert_eq!(at("USE_FUNC broken null"), (ScriptError::UnknownVarError, 5));
    assert_eq!(at("USE_FUNC lost out"), (ScriptError::UnknownVarError, 14));
    assert_eq!(at("IF x f"), (ScriptError::TypeMismatchError, 14));
    assert_eq!(at("IF x g"), (ScriptError::FunctionUnknownError, 14));
    assert_eq!(at("IF x"), (ScriptError::CommandArgsInvalidError, 14));
    assert_eq!(at("FOR f x"), (ScriptError::CommandArgsInvalidError, 14));
    assert_eq!(at("FOR f x s"), (ScriptError::TypeMismatchError, 14));
    assert_eq!(at("FOR g x x"), (ScriptError::FunctionUnknownError, 14));
    assert_eq!(at("FOR broken x x"), (ScriptError::UnknownVarError, 5));
    assert_eq!(at("FOR_LIST f x"), (ScriptError::TypeMismatchError, 14));
    assert_eq!(at("FOR_LIST g args"), (ScriptError::FunctionUnknownError, 14));
    assert_eq!(at("FOR_LIST f"), (ScriptError::CommandArgsInvalidError, 14));
    assert_eq!(at("FOR_MAP f args"), (ScriptError::TypeMismatchError, 14));
    assert_eq!(at("FOR_STRING f args"), (ScriptError::TypeMismatchError, 14));
    assert_eq!(at("NEW_THREAD g"), (ScriptError::FunctionUnknownError, 14));
    assert_eq!(at("NEW_THREAD"), (ScriptError::CommandArgsInvalidError, 14));
}

#[test]
fn a_failure_in_a_loop_ends_the_run_at_once() {
    let text = "FUNC null f s string\nADD_INT count one\nINIT_VAR int n\nTO_INTEGER s n\nFUNC_END\nFOR_LIST f args\nADD_INT count one\n";
    let (running, r, _) = run_with(COUNTER, text);
    assert_eq!(r.map_err(|(e, c)| (e, c.command_type, c.line)), Err((ScriptError::ParseVarError, CommandType::ToInteger, 12)));
    assert_eq!(global(&running, "count").unwrap().as_int(), Ok(1));
}

#[test]
fn a_temp_var_is_an_argument_of_the_call_that_follows() {
    let text = "FUNC null f s string\nADD_STR seen s\nFUNC_END\nTEMP_VAR string t hi\nUSE_FUNC f null t\nINIT_VAR bool left\nHAS_VAR t left\n";
    let (running, r, _) = run_with(COUNTER, text);
    assert_eq!(r, Ok(()));
    assert_eq!(global(&running, "seen").unwrap().as_str(), Ok("hi".to_string()));
    assert_eq!(global(&running, "left").unwrap().as_bool(), Ok(false));
}

#[test]
fn a_temp_var_of_a_function_is_local_to_it() {
    let text = "FUNC null f\nTEMP_VAR int t 5\nADD_INT count t\nADD_INT count one\nFUNC_END\nUSE_FUNC f null\nINIT_VAR bool left\nHAS_VAR t left\n";
    let (running, r, _) = run_with(COUNTER, text);
    assert_eq!(r, Ok(()));
    assert_eq!(global(&running, "count").unwrap().as_int(), Ok(6));
    assert_eq!(global(&running, "left").unwrap().as_bool(), Ok(false));
}

#[test]
fn new_thread_asks_the_host_for_a_task() {
    let text = "FUNC null f\nADD_INT count one\nFUNC_END\nNEW_THREAD f\nNEW_THREAD f\n";
    let (running, r, host) = run_with(COUNTER, text);
    assert_eq!(r, Ok(()));
    assert_eq!(host.spawned, 2);
    assert_eq!(global(&running, "count").unwrap().as_int(), Ok(2));
}

#[test]
fn a_failure_in_another_task_leaves_the_first_alone() {
    let text = "FUNC null f\nADD_INT nowhere one\nFUNC_END\nNEW_THREAD f\nADD_INT count one\n";
    let (running, r, host) = run_with(COUNTER, text);
    assert_eq!(r, Ok(()));
    assert_eq!(host.spawned, 1);
    assert_eq!(global(&running, "count").unwrap().as_int(), Ok(1));
}

#[test]
fn execute_returns_what_an_instruction_leads_to() {
    let script = Script::parse("FUNC null f\nFUNC_END\n".to_string()).unwrap();
    let mut running = RunningScript::new(script);
    let mut locals = empty_locals();
    let mut temps = Vec::new();
    let args = |v: &[&str]| v.iter().map(|s| s.to_string()).collect::<Vec<String>>();
    let init = Command::new(CommandType::InitVar, 1, args(&["int", "x"]));
    assert_eq!(init.execute(&mut running, false, &mut locals, &mut temps), Ok(Outcome::Done));
    assert_eq!(locals.get("x"), Some(&Variable::from_int(None)));
    let again = init.execute(&mut running, false, &mut locals, &mut temps);
    assert_eq!(again, Err((ScriptError::VarInitedError, init.clone())));
    let ret = Command::new(CommandType::Return, 2, Vec::new());
    assert_eq!(ret.execute(&mut running, false, &mut locals, &mut temps), Ok(Outcome::Return));
    let temp = Command::new(CommandType::TempVar, 3, args(&["string", "t", "a", "b"]));
    assert_eq!(temp.execute(&mut running, true, &mut locals, &mut temps), Ok(Outcome::Done));
    assert_eq!(temps, args(&["t"]));
    assert!(locals.get("t").is_none());
    assert_eq!(global(&running, "t").unwrap().as_str(), Ok("a b".to_string()));
    let call = Command::new(CommandType::UseFunc, 4, args(&["f", "x", "t"]));
    let f = running.get_function("f".to_string()).unwrap();
    assert_eq!(
        call.execute(&mut running, false, &mut locals, &mut temps),
        Ok(Outcome::Loop(Loop::Once {
            function: f,
            result_var: "x".to_string(),
            args: vec![Variable::from_str(Some("a b".to_string()))],
        }))
    );
    let float = Command::new(CommandType::TempVar, 5, args(&["float", "h", "0.5"]));
    assert_eq!(
        float.execute(&mut running, false, &mut locals, &mut temps),
        Ok(Outcome::Host {
            action: Action::Float(Request::ParseFloat { text: "0.5".to_string() }),
            pending: Pending::Literal {
                name: "h".to_string(),
                var_type: VarType::Float,
                text: "0.5".to_string(),
                init: true,
            },
        })
    );
    let pending = Pending::Literal {
        name: "h".to_string(),
        var_type: VarType::Float,
        text: "0.5".to_string(),
        init: true,
    };
    let r = float.resume(
        pending,
        Event::Float(float_value(0.5)),
        &mut running,
        false,
        &mut locals,
        &mut temps,
    );
    assert_eq!(r, Ok(()));
    assert_eq!(temps, args(&["t", "h"]));
    assert_eq!(locals.get("h"), Some(&Variable::from_float(Some(float_value(0.5)))));
}

#[test]
fn a_call_starts_in_a_frame_of_its_own() {
    let f = Function::new(
        "f".to_string(),
        VarType::List(Box::new(VarType::Integer)),
        vec![
            ("a".to_string(), VarType::Integer),
            ("b".to_string(), VarType::String),
            ("a".to_string(), VarType::Integer),
        ],
        vec![Command::new(CommandType::Return, 1, Vec::new())],
    );
    let frame: Frame = f.execute(
        "out".to_string(),
        vec![
            Variable::from_int(Some(1)),
            Variable::from_str(Some("s".to_string())),
            Variable::from_int(Some(3)),
            Variable::from_int(Some(4)),
        ],
        false,
    );
    assert_eq!(frame.pc, 0);
    assert_eq!(frame.commands, f.commands);
    assert_eq!(frame.result_var, "out");
    assert!(!frame.is_global);
    assert!(frame.temp_vars.is_empty());
    assert!(frame.running.is_none());
    assert_eq!(frame.locals.len(), 3);
    assert_eq!(frame.locals.get("a"), Some(&Variable::from_int(Some(3))));
    assert_eq!(frame.locals.get("b"), Some(&Variable::from_str(Some("s".to_string()))));
    assert_eq!(
        frame.locals.get("result").map(|v| v.to_string()),
        Some(Ok("[]".to_string()))
    );
}

#[test]
fn tasks_for_functions_and_for_instructions() {
    let script = Script::parse(format!("{}FUNC null f n int\nADD_INT count n\nFUNC_END\n", COUNTER)).unwrap();
    let mut running = RunningScript::new(script);
    let mut host = Host::new(b"");
    let mut main = Task::new(&running);
    assert!(!main.is_finished());
    assert_eq!(drive(&mut host, &mut running, &mut main), Ok(()));
    assert!(main.is_finished());
    assert_eq!(main.step(&mut running, Event::Nothing), Action::Finished(Ok(())));
    let mut call = running.exec_function("f".to_string(), vec![Variable::from_int(Some(5))]).unwrap();
    assert_eq!(drive(&mut host, &mut running, &mut call), Ok(()));
    assert_eq!(global(&running, "count").unwrap().as_int(), Ok(5));
    assert_eq!(
        running.exec_function("g".to_string(), Vec::new()).err(),
        Some(ScriptError::FunctionUnknownError)
    );
    assert_eq!(
        running.exec_function("f".to_string(), Vec::new()).err(),
        Some(ScriptError::CommandArgsInvalidError)
    );
    let more = Script::parse("INIT_VAR int here\nADD_INT count one\n".to_string()).unwrap();
    let mut local = RunningScript::exec_commands(more.commands.clone(), false);
    assert_eq!(drive(&mut host, &mut running, &mut local), Ok(()));
    assert_eq!(global(&running, "count").unwrap().as_int(), Ok(6));
    assert_eq!(global(&running, "here"), Err(ScriptError::UnknownVarError));
    let mut top = RunningScript::exec_commands(more.commands, true);
    assert_eq!(drive(&mut host, &mut running, &mut top), Ok(()));
    assert_eq!(global(&running, "count").unwrap().as_int(), Ok(7));
    assert!(global(&running, "here").is_ok());
}

#[test]
fn run_stops_when_the_fuel_is_used_or_the_host_is_asked() {
    let text = format!("{}FUNC bool forever\nSET_VAR result true\nFUNC_END\nWRITE args.0 cout\nWHILE forever\n", COUNTER);
    let mut running = RunningScript::new(Script::parse(text).unwrap());
    running.set_standard_vars(vec!["x".to_string()]).unwrap();
    let mut task = Task::new(&running);
    let asked = running.run(&mut task, Event::Nothing, 1000);
    assert_eq!(asked, Action::Write { stream: 0, bytes: b"x".to_vec() });
    assert_eq!(global(&running, "sep").unwrap().as_str(), Ok(",".to_string()));
    for fuel in [0usize, 1, 10, 1000] {
        let event = if fuel == 0 { Event::Done } else { Event::Nothing };
        assert_eq!(running.run(&mut task, event, fuel), Action::Continue);
        assert!(!task.is_finished());
    }
    assert_eq!(global(&running, "while").unwrap().as_bool(), Ok(true));
    let mut short = RunningScript::exec_commands(Vec::new(), false);
    assert_eq!(short.run(&mut running, Event::Nothing, 0), Action::Finished(Ok(())));
}

#[test]
fn pohuy_drops_a_result() {
    let ok: Result<u8, ScriptError> = Ok(1);
    ok.pohuy();
    let err: Result<u8, ScriptError> = Err(ScriptError::ParseVarError);
    err.pohuy();
    assert_eq!(ok, Ok(1));
    assert_eq!(err, Err(ScriptError::ParseVarError));
}

#[test]
fn a_temp_var_does_not_outlive_a_failing_instruction() {
    let (running, r, _) = run("TEMP_VAR int t 5\nADD_INT t nothing\n");
    assert_eq!(r.map_err(|(e, c)| (e, c.line)), Err((ScriptError::UnknownVarError, 2)));
    assert_eq!(global(&running, "t"), Err(ScriptError::UnknownVarError));
    let (running, r, _) = run("TEMP_VAR int t 5\nTEMP_VAR int u x\n");
    assert_eq!(r.map_err(|(e, c)| (e, c.line)), Err((ScriptError::ParseVarError, 2)));
    assert_eq!(global(&running, "t"), Err(ScriptError::UnknownVarError));
}

#[test]
fn a_result_declares_its_target_where_the_name_is_new() {
    let text = "FUNC int f a int\nCOPY_VAR a result\nFUNC_END\n\
                FUNC string g\nINIT_VAR int n\nSET_VAR n 7\nUSE_FUNC f inner n\nTO_STRING inner result\nFUNC_END\n\
                INIT_VAR int x\nSET_VAR x 4\nUSE_FUNC f fresh x\nUSE_FUNC g shown\n";
    let (running, r, _) = run(text);
    assert_eq!(r, Ok(()));
    assert_eq!(global(&running, "fresh"), Ok(Variable::from_int(Some(4))));
    assert_eq!(global(&running, "shown"), Ok(Variable::from_str(Some("7".to_string()))));
    assert_eq!(global(&running, "inner"), Err(ScriptError::UnknownVarError));
}

#[test]
fn a_result_goes_into_a_list_item_or_under_a_key() {
    let text = "FUNC string f\nSET_VAR result zwei\nFUNC_END\nFUNC int one\nSET_VAR result 1\nFUNC_END\n\
                INIT_VAR map[string,int] m\nUSE_FUNC f args.1\nUSE_FUNC one m.k\nUSE_FUNC one m.k\n";
    let (running, r, _) = run(text);
    assert_eq!(r, Ok(()));
    assert_eq!(shown(&running, "args"), "[one, zwei, three]");
    assert_eq!(shown(&running, "m"), "{k: 1}");
}

#[test]
fn the_top_level_has_a_result_of_its_own() {
    let (running, r, _) = run("SET_VAR result anything\nINIT_VAR bool seen\nHAS_VAR result seen\n");
    assert_eq!(r, Ok(()));
    assert!(global(&running, "result").unwrap().is_null());
    assert_eq!(global(&running, "seen").unwrap().as_bool(), Ok(true));
    assert_eq!(
        failure("INIT_VAR int n\nSET_VAR n 1\nCOPY_VAR n result\n"),
        (ScriptError::TypeMismatchError, 3)
    );
}
