use std::collections::HashMap;

use sustlang::running_script::empty_locals;
use sustlang::{
    Action, Command, Event, FloatValue, Number, Request, RunningScript, Script, ScriptError,
    SleepTime, Task, VarType, Variable,
};

struct Host {
    output: Vec<u8>,
    input: Vec<u8>,
    files: HashMap<String, Vec<u8>>,
    slept: Vec<u64>,
    spawned: usize,
    write_fails: bool,
}

impl Host {
    fn new(input: &[u8]) -> Host {
        Host {
            output: Vec::new(),
            input: input.to_vec(),
            files: HashMap::new(),
            slept: Vec::new(),
            spawned: 0,
            write_fails: false,
        }
    }
}

fn float_value(x: f64) -> FloatValue {
    FloatValue::new(x.to_bits(), x.to_string())
}

fn to_float(n: &Number) -> f64 {
    match n {
        Number::Integer(i) => *i as f64,
        Number::Float(f) => f64::from_bits(f.bits),
        Number::Char(c) => *c as f64,
    }
}

fn perform(host: &mut Host, running: &mut RunningScript, action: Action) -> Event {
    match action {
        Action::Continue => Event::Nothing,
        Action::Finished(_) => Event::Nothing,
        Action::Write { bytes, .. } => {
            if host.write_fails {
                Event::Failed
            } else {
                host.output.extend(bytes);
                Event::Done
            }
        }
        Action::Read { size, .. } => {
            if size <= host.input.len() {
                let rest = host.input.split_off(size);
                let bytes = std::mem::replace(&mut host.input, rest);
                Event::Bytes(bytes)
            } else {
                Event::Failed
            }
        }
        Action::ReadAll { .. } => Event::Bytes(std::mem::take(&mut host.input)),
        Action::ReadFile { path } => match host.files.get(&path) {
            Some(bytes) => Event::Bytes(bytes.clone()),
            None => Event::Failed,
        },
        Action::Sleep { time } => {
            match time {
                SleepTime::Millis(m) => host.slept.push(m),
                SleepTime::Float(f) => host.slept.push(f64::from_bits(f.bits) as u64),
            }
            Event::Done
        }
        Action::Spawn { function } => {
            host.spawned += 1;
            let mut task = Task::call(&function, Vec::new()).unwrap();
            let _ = drive(host, running, &mut task);
            Event::Done
        }
        Action::Float(request) => match request {
            Request::ParseFloat { text } => match text.parse::<f64>() {
                Ok(x) => Event::Float(float_value(x)),
                Err(_) => Event::Failed,
            },
            Request::AddFloat { left, right } => {
                Event::Float(float_value(f64::from_bits(left.bits) + f64::from_bits(right.bits)))
            }
            Request::Compare { a, b, greater } => {
                let (l, r) = (to_float(&a), to_float(&b));
                Event::Flag(if greater { l > r } else { l < r })
            }
        },
    }
}

fn drive(
    host: &mut Host,
    running: &mut RunningScript,
    task: &mut Task,
) -> Result<(), (ScriptError, Command)> {
    let mut event = Event::Nothing;
    loop {
        match task.step(running, event) {
            Action::Finished(r) => return r,
            action => event = perform(host, running, action),
        }
    }
}

fn run_on(text: &str, mut host: Host) -> (RunningScript, Result<(), (ScriptError, Command)>, Host) {
    let script = Script::parse(text.to_string()).unwrap();
    let mut running = RunningScript::new(script);
    running
        .set_standard_vars(vec!["one".to_string(), "two".to_string(), "three".to_string()])
        .unwrap();
    let mut task = Task::new(&running);
    let r = drive(&mut host, &mut running, &mut task);
    (running, r, host)
}

fn run(text: &str) -> (RunningScript, Result<(), (ScriptError, Command)>, Host) {
    run_on(text, Host::new(b""))
}

fn global(running: &RunningScript, name: &str) -> Result<Variable, ScriptError> {
    running.get_var(name.to_string(), &empty_locals())
}

fn shown(running: &RunningScript, name: &str) -> String {
    global(running, name).unwrap().to_string().unwrap()
}

fn failure(text: &str) -> (ScriptError, usize) {
    match run(text).1 {
        Ok(()) => panic!("the script ran to its end"),
        Err((e, c)) => (e, c.line),
    }
}

fn list_of_strings() -> VarType {
    VarType::List(Box::new(VarType::String))
}

#[test]
fn init_var_declares_an_empty_value() {
    let (running, r, _) = run("INIT_VAR int x\nINIT_VAR list[string] l\nINIT_VAR optional[int] o\nINIT_VAR map[int,int] m\n");
    assert_eq!(r, Ok(()));
    assert_eq!(global(&running, "x"), Ok(Variable::from_int(None)));
    assert_eq!(shown(&running, "l"), "[]");
    assert_eq!(global(&running, "l").unwrap().get_type(), list_of_strings());
    assert_eq!(shown(&running, "o"), "none");
    assert_eq!(shown(&running, "m"), "{}");
}

#[test]
fn init_var_failures() {
    assert_eq!(failure("INIT_VAR int x\nINIT_VAR int x\n"), (ScriptError::VarInitedError, 2));
    assert_eq!(failure("INIT_VAR string args\n"), (ScriptError::VarInitedError, 1));
    assert_eq!(failure("INIT_VAR number x\n"), (ScriptError::TypeUnknownError, 1));
    assert_eq!(failure("INIT_VAR int\n"), (ScriptError::CommandArgsInvalidError, 1));
    assert_eq!(failure("INIT_VAR int x\nINIT_VAR\n"), (ScriptError::CommandArgsInvalidError, 2));
    assert_eq!(failure("INIT_VAR string args.0\n"), (ScriptError::CommandArgsInvalidError, 1));
    assert_eq!(failure("INIT_VAR int m.k\n"), (ScriptError::CommandArgsInvalidError, 1));
    assert_eq!(failure("TEMP_VAR string args.0 x\n"), (ScriptError::CommandArgsInvalidError, 1));
}

#[test]
fn return_ends_the_script() {
    let (running, r, _) = run("INIT_VAR int x\nRETURN\nINIT_VAR int y\n");
    assert_eq!(r, Ok(()));
    assert!(global(&running, "x").is_ok());
    assert_eq!(global(&running, "y"), Err(ScriptError::UnknownVarError));
}

#[test]
fn set_var_reads_a_literal_in_the_type_of_the_variable() {
    let text = "INIT_VAR int i\nSET_VAR i -7\nINIT_VAR string s\nSET_VAR s hello wide  world\n\
                INIT_VAR bool b\nSET_VAR b 1\nINIT_VAR char c\nSET_VAR c 65\n\
                INIT_VAR optional[int] o\nSET_VAR o [3]\nINIT_VAR optional[string] n\nSET_VAR n none\n\
                INIT_VAR string e\nSET_VAR e\n";
    let (running, r, _) = run(text);
    assert_eq!(r, Ok(()));
    assert_eq!(global(&running, "i").unwrap().as_int(), Ok(-7));
    assert_eq!(global(&running, "s").unwrap().as_str(), Ok("hello wide  world".to_string()));
    assert_eq!(global(&running, "b").unwrap().as_bool(), Ok(true));
    assert_eq!(global(&running, "c").unwrap().as_char(), Ok(65));
    assert_eq!(shown(&running, "o"), "(3)");
    assert_eq!(shown(&running, "n"), "none");
    assert_eq!(global(&running, "e").unwrap().as_str(), Ok(String::new()));
}

#[test]
fn set_var_failures() {
    assert_eq!(failure("SET_VAR x 5\n"), (ScriptError::UnknownVarError, 1));
    assert_eq!(failure("INIT_VAR int x\nSET_VAR x five\n"), (ScriptError::ParseVarError, 2));
    assert_eq!(failure("INIT_VAR int x\nSET_VAR x\n"), (ScriptError::ParseVarError, 2));
    assert_eq!(failure("INIT_VAR list[int] l\nSET_VAR l [1]\n"), (ScriptError::ParseVarError, 2));
    assert_eq!(failure("SET_VAR\n"), (ScriptError::CommandArgsInvalidError, 1));
    assert_eq!(failure("SET_VAR cout x\n"), (ScriptError::ParseVarError, 1));
}

#[test]
fn set_var_into_a_list_item() {
    let (running, r, _) = run("SET_VAR args.1 zwei\n");
    assert_eq!(r, Ok(()));
    assert_eq!(shown(&running, "args"), "[one, zwei, three]");
    assert_eq!(failure("SET_VAR args.3 vier\n"), (ScriptError::UnknownVarError, 1));
}

#[test]
fn floats_are_read_and_added_by_the_host() {
    let text = "INIT_VAR float x\nSET_VAR x 1.5\nINIT_VAR float y\nSET_VAR y 2.25\nADD_FLOAT x y\n\
                INIT_VAR optional[float] o\nSET_VAR o [0.5]\nINIT_VAR string s\nTO_STRING x s\n\
                INIT_VAR float z\nINIT_VAR string t\nSET_VAR t -3e2\nTO_FLOAT t z\n";
    let (running, r, _) = run(text);
    assert_eq!(r, Ok(()));
    assert_eq!(global(&running, "x").unwrap().as_float().unwrap().bits, 3.75f64.to_bits());
    assert_eq!(shown(&running, "x"), "3.75");
    assert_eq!(shown(&running, "o"), "(0.5)");
    assert_eq!(global(&running, "s").unwrap().as_str(), Ok("3.75".to_string()));
    assert_eq!(global(&running, "z").unwrap().as_float().unwrap().bits, (-300f64).to_bits());
}

#[test]
fn float_failures() {
    assert_eq!(failure("INIT_VAR float x\nSET_VAR x one\n"), (ScriptError::ParseVarError, 2));
    assert_eq!(
        failure("INIT_VAR float z\nINIT_VAR string t\nSET_VAR t abc\nTO_FLOAT t z\n"),
        (ScriptError::ParseVarError, 4)
    );
    assert_eq!(
        failure("INIT_VAR float x\nSET_VAR x 1\nINIT_VAR int i\nSET_VAR i 1\nADD_FLOAT x i\n"),
        (ScriptError::TypeMismatchError, 5)
    );
    assert_eq!(
        failure("INIT_VAR float x\nINIT_VAR float y\nSET_VAR y 1\nADD_FLOAT x y\n"),
        (ScriptError::TypeMismatchError, 4)
    );
    assert_eq!(
        failure("INIT_VAR int z\nINIT_VAR string t\nSET_VAR t 1.5\nTO_FLOAT t z\n"),
        (ScriptError::TypeMismatchError, 4)
    );
}

#[test]
fn temp_var_failures() {
    assert_eq!(failure("TEMP_VAR int args 5\n"), (ScriptError::VarInitedError, 1));
    assert_eq!(failure("TEMP_VAR int x five\n"), (ScriptError::ParseVarError, 1));
    assert_eq!(failure("TEMP_VAR what x 5\n"), (ScriptError::TypeUnknownError, 1));
    assert_eq!(failure("TEMP_VAR int\n"), (ScriptError::CommandArgsInvalidError, 1));
}

#[test]
fn a_temp_var_does_not_outlive_a_second_temp_var() {
    let text = "INIT_VAR int sum\nSET_VAR sum 0\nTEMP_VAR int a 1\nTEMP_VAR int b 2\nADD_INT sum a\nHAS_VAR a sum\n";
    assert_eq!(failure(text), (ScriptError::UnknownVarError, 5));
    let text = "INIT_VAR int sum\nSET_VAR sum 0\nINIT_VAR bool seen\nTEMP_VAR int a 1\nTEMP_VAR int b 2\nADD_INT sum b\nHAS_VAR a seen\n";
    let (running, r, _) = run(text);
    assert_eq!(r, Ok(()));
    assert_eq!(global(&running, "sum").unwrap().as_int(), Ok(2));
    assert_eq!(global(&running, "seen").unwrap().as_bool(), Ok(false));
    assert_eq!(global(&running, "b"), Err(ScriptError::UnknownVarError));
    let text = "INIT_VAR bool seen\nTEMP_VAR int a 1\nTEMP_VAR int b 2\nTEMP_VAR int c 3\nHAS_VAR b seen\n";
    let (running, r, _) = run(text);
    assert_eq!(r, Ok(()));
    assert_eq!(global(&running, "seen").unwrap().as_bool(), Ok(false));
    let text = "INIT_VAR bool seen\nTEMP_VAR int a 1\nTEMP_VAR float b 2.5\nHAS_VAR a seen\n";
    let (running, r, _) = run(text);
    assert_eq!(r, Ok(()));
    assert_eq!(global(&running, "seen").unwrap().as_bool(), Ok(false));
    let text = "INIT_VAR string s\nTEMP_VAR int a 1\nTEMP_VAR float b 2.5\nTO_STRING b s\n";
    let (running, r, _) = run(text);
    assert_eq!(r, Ok(()));
    assert_eq!(global(&running, "s").unwrap().as_str(), Ok("2.5".to_string()));
}

#[test]
fn a_temp_var_is_still_there_while_the_next_temp_var_is_declared() {
    assert_eq!(failure("TEMP_VAR int a 1\nTEMP_VAR int a 2\n"), (ScriptError::VarInitedError, 2));
    let text = "INIT_VAR bool seen\nTEMP_VAR int a 1\nTEMP_VAR int b 2\nTEMP_VAR int a 3\nHAS_VAR a seen\n";
    let (running, r, _) = run(text);
    assert_eq!(r, Ok(()));
    assert_eq!(global(&running, "seen").unwrap().as_bool(), Ok(true));
    assert_eq!(global(&running, "a"), Err(ScriptError::UnknownVarError));
}

#[test]
fn temp_float_is_read_by_the_host_and_removed_after_one_instruction() {
    let text = "INIT_VAR string s\nTEMP_VAR float t 2.5\nTO_STRING t s\nINIT_VAR bool seen\nHAS_VAR t seen\n";
    let (running, r, _) = run(text);
    assert_eq!(r, Ok(()));
    assert_eq!(global(&running, "s").unwrap().as_str(), Ok("2.5".to_string()));
    assert_eq!(global(&running, "seen").unwrap().as_bool(), Ok(false));
}

#[test]
fn move_copy_drop_and_has() {
    let text = "INIT_VAR int a\nSET_VAR a 1\nINIT_VAR int b\nINIT_VAR int c\n\
                COPY_VAR a b\nMOVE_VAR a c\nINIT_VAR bool has_a\nINIT_VAR bool has_b\n\
                HAS_VAR a has_a\nHAS_VAR b has_b\nDROP_VAR b\nINIT_VAR bool still\nHAS_VAR b still\n";
    let (running, r, _) = run(text);
    assert_eq!(r, Ok(()));
    assert_eq!(global(&running, "a"), Err(ScriptError::UnknownVarError));
    assert_eq!(global(&running, "b"), Err(ScriptError::UnknownVarError));
    assert_eq!(global(&running, "c").unwrap().as_int(), Ok(1));
    assert_eq!(global(&running, "has_a").unwrap().as_bool(), Ok(false));
    assert_eq!(global(&running, "has_b").unwrap().as_bool(), Ok(true));
    assert_eq!(global(&running, "still").unwrap().as_bool(), Ok(false));
}

#[test]
fn move_copy_drop_failures() {
    assert_eq!(failure("INIT_VAR int b\nCOPY_VAR a b\n"), (ScriptError::UnknownVarError, 2));
    assert_eq!(failure("INIT_VAR int a\nCOPY_VAR a b\n"), (ScriptError::UnknownVarError, 2));
    assert_eq!(
        failure("INIT_VAR int a\nINIT_VAR string b\nCOPY_VAR a b\n"),
        (ScriptError::TypeMismatchError, 3)
    );
    assert_eq!(
        failure("INIT_VAR int a\nINIT_VAR string b\nMOVE_VAR a b\n"),
        (ScriptError::TypeMismatchError, 3)
    );
    assert_eq!(failure("DROP_VAR a\n"), (ScriptError::UnknownVarError, 1));
    assert_eq!(failure("DROP_VAR\n"), (ScriptError::CommandArgsInvalidError, 1));
    assert_eq!(failure("COPY_VAR args\n"), (ScriptError::CommandArgsInvalidError, 1));
    assert_eq!(failure("HAS_VAR args\n"), (ScriptError::CommandArgsInvalidError, 1));
    assert_eq!(failure("HAS_VAR args missing\n"), (ScriptError::UnknownVarError, 1));
}

#[test]
fn conversions_to_string_chars_and_integer() {
    let text = "INIT_VAR string s\nTO_STRING args s\nINIT_VAR list[char] c\nTO_CHARS args.0 c\n\
                INIT_VAR string back\nTO_STRING c back\nINIT_VAR int i\nINIT_VAR string n\nSET_VAR n -120\nTO_INTEGER n i\n";
    let (running, r, _) = run(text);
    assert_eq!(r, Ok(()));
    assert_eq!(global(&running, "s").unwrap().as_str(), Ok("[one, two, three]".to_string()));
    let c = global(&running, "c").unwrap();
    assert_eq!(c.get_type(), VarType::List(Box::new(VarType::Char)));
    let bytes: Vec<u8> = c.as_list().unwrap().iter().map(|v| v.as_char().unwrap()).collect();
    assert_eq!(bytes, b"one".to_vec());
    assert_eq!(global(&running, "back").unwrap().as_str(), Ok("one".to_string()));
    assert_eq!(global(&running, "i").unwrap().as_int(), Ok(-120));
}

#[test]
fn conversion_failures() {
    assert_eq!(
        failure("INIT_VAR int i\nINIT_VAR string s\nTO_STRING i s\n"),
        (ScriptError::VarNotInitedError, 3)
    );
    assert_eq!(
        failure("INIT_VAR list[char] c\nTO_CHARS args c\n"),
        (ScriptError::TypeMismatchError, 2)
    );
    assert_eq!(
        failure("INIT_VAR int i\nTO_INTEGER args.0 i\n"),
        (ScriptError::ParseVarError, 2)
    );
    assert_eq!(
        failure("INIT_VAR int i\nTO_INTEGER args i\n"),
        (ScriptError::TypeMismatchError, 2)
    );
    assert_eq!(
        failure("INIT_VAR int i\nTO_STRING args i\n"),
        (ScriptError::TypeMismatchError, 2)
    );
    assert_eq!(failure("TO_STRING args\n"), (ScriptError::CommandArgsInvalidError, 1));
}

#[test]
fn conversion_to_char() {
    let text = "INIT_VAR char a\nTO_CHAR args.0 a\nINIT_VAR int n\nSET_VAR n 321\nINIT_VAR char b\nTO_CHAR n b\n\
                SET_VAR n -1\nINIT_VAR char c\nTO_CHAR n c\nINIT_VAR char d\nTO_CHAR a d\n";
    let (running, r, _) = run(text);
    assert_eq!(r, Ok(()));
    assert_eq!(global(&running, "a").unwrap().as_char(), Ok(b'o'));
    assert_eq!(global(&running, "b").unwrap().as_char(), Ok(65));
    assert_eq!(global(&running, "c").unwrap().as_char(), Ok(255));
    assert_eq!(global(&running, "d").unwrap().as_char(), Ok(b'o'));
    assert_eq!(
        failure("INIT_VAR char a\nINIT_VAR string s\nSET_VAR s\nTO_CHAR s a\n"),
        (ScriptError::ParseVarError, 4)
    );
    assert_eq!(
        failure("INIT_VAR char a\nTO_CHAR args a\n"),
        (ScriptError::TypeMismatchError, 2)
    );
}

fn truth_of(setup: &str, name: &str) -> bool {
    let text = format!("{}INIT_VAR bool r\nTO_BOOL {} r\n", setup, name);
    let (running, r, _) = run(&text);
    assert_eq!(r, Ok(()));
    global(&running, "r").unwrap().as_bool().unwrap()
}

#[test]
fn conversion_to_bool() {
    assert!(truth_of("", "args"));
    assert!(!truth_of("INIT_VAR list[int] l\n", "l"));
    assert!(truth_of("INIT_VAR string s\nSET_VAR s true\n", "s"));
    assert!(truth_of("INIT_VAR string s\nSET_VAR s 1\n", "s"));
    assert!(!truth_of("INIT_VAR string s\nSET_VAR s yes\n", "s"));
    assert!(!truth_of("INIT_VAR string s\n", "s"));
    assert!(truth_of("INIT_VAR char c\nSET_VAR c 1\n", "c"));
    assert!(!truth_of("INIT_VAR char c\nSET_VAR c 0\n", "c"));
    assert!(truth_of("INIT_VAR int i\nSET_VAR i -1\n", "i"));
    assert!(!truth_of("INIT_VAR int i\nSET_VAR i 0\n", "i"));
    assert!(!truth_of("INIT_VAR int i\n", "i"));
    assert!(truth_of("INIT_VAR float f\nSET_VAR f 0.1\n", "f"));
    assert!(!truth_of("INIT_VAR float f\nSET_VAR f 0\n", "f"));
    assert!(!truth_of("INIT_VAR float f\nSET_VAR f -0.0\n", "f"));
    assert!(truth_of("INIT_VAR float f\nSET_VAR f NaN\n", "f"));
    assert!(truth_of("INIT_VAR bool b\nSET_VAR b true\n", "b"));
    assert!(!truth_of("INIT_VAR bool b\nSET_VAR b false\n", "b"));
    assert!(!truth_of("INIT_VAR map[int,int] m\n", "m"));
    assert!(truth_of("INIT_VAR map[int,int] m\nINIT_VAR int i\nSET_VAR i 1\nCOPY_VAR i m.5\n", "m"));
    assert!(truth_of("INIT_VAR optional[int] o\nSET_VAR o [0]\n", "o"));
    assert!(!truth_of("INIT_VAR optional[int] o\n", "o"));
    assert!(!truth_of("INIT_VAR null n\n", "n"));
    assert!(truth_of("", "cout"));
    assert!(truth_of("", "cin"));
    assert!(!truth_of("INIT_VAR in_stream s\n", "s"));
}

#[test]
fn symbols_items_and_values() {
    let text = "INIT_VAR int i\nSET_VAR i 1\nINIT_VAR char c\nGET_SYMBOL args.2 i c\n\
                INIT_VAR string s\nGET_ITEM args i s\n\
                INIT_VAR map[string,int] m\nCOPY_VAR i m.two\nSET_VAR i 7\nCOPY_VAR i m.one\n\
                INIT_VAR int v\nGET_VALUE m s v\n";
    let (running, r, _) = run(text);
    assert_eq!(r, Ok(()));
    assert_eq!(global(&running, "c").unwrap().as_char(), Ok(b'h'));
    assert_eq!(global(&running, "s").unwrap().as_str(), Ok("two".to_string()));
    assert_eq!(shown(&running, "m"), "{two: 1, one: 7}");
    assert_eq!(global(&running, "v").unwrap().as_int(), Ok(1));
}

#[test]
fn symbol_item_and_value_failures() {
    let pre = "INIT_VAR int i\nSET_VAR i 3\nINIT_VAR int neg\nSET_VAR neg -1\nINIT_VAR char c\nINIT_VAR string s\nINIT_VAR map[string,int] m\nINIT_VAR int v\n";
    let at = |line: &str| failure(&format!("{}{}\n", pre, line)).0;
    assert_eq!(at("GET_SYMBOL args.0 i c"), ScriptError::UnknownVarError);
    assert_eq!(at("GET_SYMBOL args.0 neg c"), ScriptError::UnknownVarError);
    assert_eq!(at("GET_SYMBOL args i c"), ScriptError::TypeMismatchError);
    assert_eq!(at("GET_SYMBOL args.0 s c"), ScriptError::TypeMismatchError);
    assert_eq!(at("GET_ITEM args i s"), ScriptError::UnknownVarError);
    assert_eq!(at("GET_ITEM args neg s"), ScriptError::UnknownVarError);
    assert_eq!(at("GET_ITEM m i s"), ScriptError::TypeMismatchError);
    assert_eq!(at("GET_VALUE m args.0 v"), ScriptError::UnknownVarError);
    assert_eq!(at("GET_VALUE args args.0 v"), ScriptError::TypeMismatchError);
    assert_eq!(at("GET_ITEM args i"), ScriptError::CommandArgsInvalidError);
}

#[test]
fn integers_add_and_wrap_around() {
    let text = format!(
        "INIT_VAR int a\nSET_VAR a 40\nINIT_VAR int b\nSET_VAR b 2\nADD_INT a b\n\
         INIT_VAR int big\nSET_VAR big {}\nINIT_VAR int one\nSET_VAR one 1\nADD_INT big one\n\
         INIT_VAR int small\nSET_VAR small {}\nINIT_VAR int m\nSET_VAR m -1\nADD_INT small m\n",
        isize::MAX,
        isize::MIN
    );
    let (running, r, _) = run(&text);
    assert_eq!(r, Ok(()));
    assert_eq!(global(&running, "a").unwrap().as_int(), Ok(42));
    assert_eq!(global(&running, "b").unwrap().as_int(), Ok(2));
    assert_eq!(global(&running, "big").unwrap().as_int(), Ok(isize::MIN));
    assert_eq!(global(&running, "small").unwrap().as_int(), Ok(isize::MAX));
}

#[test]
fn add_int_failures() {
    assert_eq!(
        failure("INIT_VAR string a\nSET_VAR a 1\nINIT_VAR int b\nSET_VAR b 2\nADD_INT a b\n"),
        (ScriptError::TypeMismatchError, 5)
    );
    assert_eq!(
        failure("INIT_VAR int a\nSET_VAR a 1\nADD_INT a args\n"),
        (ScriptError::TypeMismatchError, 3)
    );
    assert_eq!(
        failure("INIT_VAR int a\nINIT_VAR int b\nSET_VAR b 2\nADD_INT a b\n"),
        (ScriptError::TypeMismatchError, 4)
    );
    assert_eq!(failure("INIT_VAR int a\nSET_VAR a 1\nADD_INT a b\n"), (ScriptError::UnknownVarError, 3));
    assert_eq!(failure("ADD_INT a\n"), (ScriptError::CommandArgsInvalidError, 1));
}

#[test]
fn strings_take_strings_characters_and_character_lists() {
    let text = "INIT_VAR string s\nSET_VAR s a\nADD_STR s args.0\nINIT_VAR char c\nSET_VAR c 33\nADD_STR s c\n\
                INIT_VAR list[char] l\nTO_CHARS args.1 l\nADD_STR s l\nADD_STR s s\n";
    let (running, r, _) = run(text);
    assert_eq!(r, Ok(()));
    assert_eq!(global(&running, "s").unwrap().as_str(), Ok("aone!twoaone!two".to_string()));
}

#[test]
fn add_str_failures() {
    assert_eq!(
        failure("INIT_VAR string s\nSET_VAR s a\nINIT_VAR int i\nSET_VAR i 1\nADD_STR s i\n"),
        (ScriptError::TypeMismatchError, 5)
    );
    assert_eq!(
        failure("INIT_VAR string s\nSET_VAR s a\nADD_STR s args\n"),
        (ScriptError::TypeMismatchError, 3)
    );
    assert_eq!(
        failure("INIT_VAR string s\nSET_VAR s a\nINIT_VAR char c\nSET_VAR c 200\nADD_STR s c\n"),
        (ScriptError::StringUTF8Error, 5)
    );
    assert_eq!(
        failure("INIT_VAR string s\nINIT_VAR string t\nSET_VAR t a\nADD_STR s t\n"),
        (ScriptError::TypeMismatchError, 4)
    );
    let text = "INIT_VAR string s\nSET_VAR s é\nINIT_VAR list[char] l\nTO_CHARS s l\nINIT_VAR int a\nSET_VAR a 0\nINIT_VAR int b\nSET_VAR b 1\nSUB_LIST l a b\nADD_STR s l\n";
    assert_eq!(failure(text), (ScriptError::StringUTF8Error, 10));
}

#[test]
fn slices_of_strings_and_lists() {
    let text = "INIT_VAR string s\nSET_VAR s hello\nINIT_VAR int a\nSET_VAR a 1\nINIT_VAR int b\nSET_VAR b 3\n\
                SUB_STR s a b\nSUB_LIST args a b\nINIT_VAR string e\nSET_VAR e hello\nSUB_STR e a a\n\
                INIT_VAR string u\nSET_VAR u aéz\nINIT_VAR int z\nSET_VAR z 0\nSUB_STR u z b\n";
    let (running, r, _) = run(text);
    assert_eq!(r, Ok(()));
    assert_eq!(global(&running, "s").unwrap().as_str(), Ok("el".to_string()));
    assert_eq!(shown(&running, "args"), "[two, three]");
    assert_eq!(global(&running, "args").unwrap().get_type(), list_of_strings());
    assert_eq!(global(&running, "e").unwrap().as_str(), Ok(String::new()));
    assert_eq!(global(&running, "u").unwrap().as_str(), Ok("aé".to_string()));
}

#[test]
fn slice_failures() {
    let pre = "INIT_VAR string s\nSET_VAR s aéz\nINIT_VAR int a\nSET_VAR a 1\nINIT_VAR int b\nSET_VAR b 2\nINIT_VAR int far\nSET_VAR far 9\nINIT_VAR int neg\nSET_VAR neg -1\n";
    let at = |line: &str| failure(&format!("{}{}\n", pre, line)).0;
    assert_eq!(at("SUB_STR s a b"), ScriptError::StringUTF8Error);
    assert_eq!(at("SUB_STR s a far"), ScriptError::UnknownVarError);
    assert_eq!(at("SUB_STR s b a"), ScriptError::UnknownVarError);
    assert_eq!(at("SUB_STR s neg a"), ScriptError::UnknownVarError);
    assert_eq!(at("SUB_STR args a b"), ScriptError::TypeMismatchError);
    assert_eq!(at("SUB_STR s s b"), ScriptError::TypeMismatchError);
    assert_eq!(at("SUB_LIST args a far"), ScriptError::UnknownVarError);
    assert_eq!(at("SUB_LIST args b a"), ScriptError::UnknownVarError);
    assert_eq!(at("SUB_LIST s a b"), ScriptError::TypeMismatchError);
    assert_eq!(at("SUB_LIST args a"), ScriptError::CommandArgsInvalidError);
}

#[test]
fn sizes_count_items_entries_and_bytes() {
    let text = "INIT_VAR int l\nLIST_SIZE args l\nINIT_VAR map[string,int] m\nCOPY_VAR l m.a\nCOPY_VAR l m.b\nCOPY_VAR l m.a\n\
                INIT_VAR int n\nMAP_SIZE m n\nINIT_VAR string s\nSET_VAR s héllo\nINIT_VAR int b\nSTRING_SIZE s b\n\
                INIT_VAR list[int] e\nINIT_VAR int z\nLIST_SIZE e z\n";
    let (running, r, _) = run(text);
    assert_eq!(r, Ok(()));
    assert_eq!(global(&running, "l").unwrap().as_int(), Ok(3));
    assert_eq!(global(&running, "n").unwrap().as_int(), Ok(2));
    assert_eq!(global(&running, "b").unwrap().as_int(), Ok(6));
    assert_eq!(global(&running, "z").unwrap().as_int(), Ok(0));
    assert_eq!(failure("INIT_VAR int n\nLIST_SIZE cout n\n"), (ScriptError::TypeMismatchError, 2));
    assert_eq!(failure("INIT_VAR int n\nMAP_SIZE args n\n"), (ScriptError::TypeMismatchError, 2));
    assert_eq!(failure("INIT_VAR int n\nSTRING_SIZE args n\n"), (ScriptError::TypeMismatchError, 2));
}

fn flag_of(setup: &str, line: &str) -> bool {
    let text = format!("{}INIT_VAR bool r\n{} r\n", setup, line);
    let (running, r, _) = run(&text);
    assert_eq!(r, Ok(()), "{}", line);
    global(&running, "r").unwrap().as_bool().unwrap()
}

const NUMBERS: &str = "INIT_VAR int two\nSET_VAR two 2\nINIT_VAR int three\nSET_VAR three 3\nINIT_VAR int minus\nSET_VAR minus -200\n\
INIT_VAR char c\nSET_VAR c 100\nINIT_VAR char d\nSET_VAR d 3\nINIT_VAR float f\nSET_VAR f 2.5\nINIT_VAR float g\nSET_VAR g 3\n\
INIT_VAR string s\nSET_VAR s 2\nINIT_VAR bool yes\nSET_VAR yes true\nINIT_VAR bool no\nSET_VAR no false\n";

#[test]
fn equality_of_variables() {
    assert!(flag_of(NUMBERS, "EQUALS two two"));
    assert!(!flag_of(NUMBERS, "EQUALS two three"));
    assert!(!flag_of(NUMBERS, "EQUALS three d"));
    assert!(!flag_of(NUMBERS, "EQUALS three g"));
    assert!(!flag_of(NUMBERS, "EQUALS two s"));
    assert!(flag_of(NUMBERS, "EQUALS args args"));
    assert!(flag_of(NUMBERS, "EQUALS args.0 args.0"));
    assert!(!flag_of(NUMBERS, "EQUALS args.0 args.1"));
    assert!(flag_of(NUMBERS, "EQUALS cout cout"));
    assert!(!flag_of(NUMBERS, "EQUALS cout cin"));
    assert!(flag_of(NUMBERS, "EQUALS g g"));
}

#[test]
fn greater_and_less_between_integers_and_characters() {
    assert!(flag_of(NUMBERS, "MORE three two"));
    assert!(!flag_of(NUMBERS, "MORE two three"));
    assert!(!flag_of(NUMBERS, "MORE two two"));
    assert!(flag_of(NUMBERS, "LESS two three"));
    assert!(!flag_of(NUMBERS, "LESS three two"));
    assert!(!flag_of(NUMBERS, "LESS two two"));
    assert!(flag_of(NUMBERS, "LESS minus d"));
    assert!(flag_of(NUMBERS, "MORE c three"));
    assert!(flag_of(NUMBERS, "MORE c d"));
    assert!(!flag_of(NUMBERS, "LESS c d"));
    assert!(!flag_of(NUMBERS, "MORE d three"));
    assert!(!flag_of(NUMBERS, "LESS d three"));
}

#[test]
fn greater_and_less_with_floats_are_decided_by_the_host() {
    assert!(flag_of(NUMBERS, "MORE f two"));
    assert!(flag_of(NUMBERS, "LESS f three"));
    assert!(!flag_of(NUMBERS, "MORE g three"));
    assert!(!flag_of(NUMBERS, "LESS g three"));
    assert!(flag_of(NUMBERS, "LESS two f"));
    assert!(flag_of(NUMBERS, "LESS f g"));
    assert!(flag_of(NUMBERS, "MORE c f"));
    assert!(flag_of(NUMBERS, "LESS d c"));
    assert!(flag_of(NUMBERS, "LESS minus f"));
}

#[test]
fn comparison_failures() {
    let at = |line: &str| failure(&format!("{}INIT_VAR bool r\nINIT_VAR int i\n{}\n", NUMBERS, line)).0;
    assert_eq!(at("MORE two s r"), ScriptError::TypeMismatchError);
    assert_eq!(at("LESS s two r"), ScriptError::TypeMismatchError);
    assert_eq!(at("MORE f s r"), ScriptError::TypeMismatchError);
    assert_eq!(at("LESS yes no r"), ScriptError::TypeMismatchError);
    assert_eq!(at("MORE i two r"), ScriptError::TypeMismatchError);
    assert_eq!(at("MORE two three i"), ScriptError::TypeMismatchError);
    assert_eq!(at("LESS f g i"), ScriptError::TypeMismatchError);
    assert_eq!(at("EQUALS two three i"), ScriptError::TypeMismatchError);
    assert_eq!(at("EQUALS two nothing r"), ScriptError::UnknownVarError);
    assert_eq!(at("MORE two three"), ScriptError::CommandArgsInvalidError);
}

#[test]
fn logic() {
    assert!(flag_of(NUMBERS, "AND yes yes"));
    assert!(!flag_of(NUMBERS, "AND yes no"));
    assert!(!flag_of(NUMBERS, "AND no yes"));
    assert!(!flag_of(NUMBERS, "AND no no"));
    assert!(flag_of(NUMBERS, "OR yes no"));
    assert!(flag_of(NUMBERS, "OR no yes"));
    assert!(!flag_of(NUMBERS, "OR no no"));
    assert!(flag_of(NUMBERS, "NOT no"));
    assert!(!flag_of(NUMBERS, "NOT yes"));
    let at = |line: &str| failure(&format!("{}INIT_VAR bool r\nINIT_VAR bool u\n{}\n", NUMBERS, line)).0;
    assert_eq!(at("AND yes two r"), ScriptError::TypeMismatchError);
    assert_eq!(at("OR two yes r"), ScriptError::TypeMismatchError);
    assert_eq!(at("NOT two r"), ScriptError::TypeMismatchError);
    assert_eq!(at("NOT u r"), ScriptError::TypeMismatchError);
    assert_eq!(at("AND yes u r"), ScriptError::TypeMismatchError);
}

const CONTAINERS: &str = "INIT_VAR string hay\nSET_VAR hay one two three\nINIT_VAR string in\nSET_VAR in two\nINIT_VAR string out\nSET_VAR out four\n\
INIT_VAR string none\nSET_VAR none\nINIT_VAR int i\nSET_VAR i 1\nINIT_VAR int j\nSET_VAR j 2\n\
INIT_VAR map[string,int] m\nCOPY_VAR i m.one\nCOPY_VAR j m.two\n";

#[test]
fn membership() {
    assert!(flag_of(CONTAINERS, "HAS_STR hay in"));
    assert!(!flag_of(CONTAINERS, "HAS_STR hay out"));
    assert!(flag_of(CONTAINERS, "HAS_STR hay none"));
    assert!(flag_of(CONTAINERS, "HAS_STR hay hay"));
    assert!(!flag_of(CONTAINERS, "HAS_STR in hay"));
    assert!(flag_of(CONTAINERS, "HAS_STR none none"));
    assert!(flag_of(CONTAINERS, "HAS_ITEM args in"));
    assert!(!flag_of(CONTAINERS, "HAS_ITEM args out"));
    assert!(!flag_of(CONTAINERS, "HAS_ITEM args i"));
    assert!(flag_of(CONTAINERS, "HAS_KEY m in"));
    assert!(!flag_of(CONTAINERS, "HAS_KEY m out"));
    assert!(!flag_of(CONTAINERS, "HAS_KEY m i"));
    assert!(flag_of(CONTAINERS, "HAS_VALUE m j"));
    assert!(!flag_of(CONTAINERS, "HAS_VALUE m in"));
    assert!(flag_of(CONTAINERS, "HAS_ENTRY m in j"));
    assert!(!flag_of(CONTAINERS, "HAS_ENTRY m in i"));
    assert!(!flag_of(CONTAINERS, "HAS_ENTRY m out j"));
}

#[test]
fn membership_failures() {
    let at = |line: &str| failure(&format!("{}INIT_VAR bool r\n{}\n", CONTAINERS, line)).0;
    assert_eq!(at("HAS_STR hay i r"), ScriptError::TypeMismatchError);
    assert_eq!(at("HAS_STR args in r"), ScriptError::TypeMismatchError);
    assert_eq!(at("HAS_ITEM hay in r"), ScriptError::TypeMismatchError);
    assert_eq!(at("HAS_KEY args in r"), ScriptError::TypeMismatchError);
    assert_eq!(at("HAS_VALUE args in r"), ScriptError::TypeMismatchError);
    assert_eq!(at("HAS_ENTRY args in j r"), ScriptError::TypeMismatchError);
    assert_eq!(at("HAS_ENTRY m in j"), ScriptError::CommandArgsInvalidError);
    assert_eq!(at("HAS_ITEM args in i"), ScriptError::TypeMismatchError);
}

#[test]
fn optionals() {
    let text = "INIT_VAR optional[int] o\nINIT_VAR bool empty\nHAS_OPTIONAL o empty\nINIT_VAR int i\nSET_VAR i 4\n\
                PACK_OPTIONAL i o\nINIT_VAR bool full\nHAS_OPTIONAL o full\nINIT_VAR int out\nUNPACK_OPTIONAL o out\n\
                INIT_VAR optional[int] p\nSET_VAR p [9]\nNONE_OPTIONAL p\n";
    let (running, r, _) = run(text);
    assert_eq!(r, Ok(()));
    assert_eq!(global(&running, "empty").unwrap().as_bool(), Ok(false));
    assert_eq!(global(&running, "full").unwrap().as_bool(), Ok(true));
    assert_eq!(shown(&running, "o"), "(4)");
    assert_eq!(global(&running, "out").unwrap().as_int(), Ok(4));
    assert_eq!(shown(&running, "p"), "none");
}

#[test]
fn optional_failures() {
    assert_eq!(
        failure("INIT_VAR optional[int] o\nINIT_VAR int i\nUNPACK_OPTIONAL o i\n"),
        (ScriptError::ParseVarError, 3)
    );
    assert_eq!(
        failure("INIT_VAR int i\nSET_VAR i 1\nINIT_VAR int j\nUNPACK_OPTIONAL i j\n"),
        (ScriptError::TypeMismatchError, 4)
    );
    assert_eq!(
        failure("INIT_VAR bool b\nHAS_OPTIONAL args b\n"),
        (ScriptError::TypeMismatchError, 2)
    );
    assert_eq!(failure("NONE_OPTIONAL args\n"), (ScriptError::TypeMismatchError, 1));
    assert_eq!(
        failure("INIT_VAR optional[string] o\nINIT_VAR int i\nSET_VAR i 1\nPACK_OPTIONAL i o\n"),
        (ScriptError::TypeMismatchError, 4)
    );
    assert_eq!(
        failure("INIT_VAR optional[int] o\nSET_VAR o [1]\nINIT_VAR string s\nUNPACK_OPTIONAL o s\n"),
        (ScriptError::TypeMismatchError, 4)
    );
}

#[test]
fn random_numbers_lie_between_the_bounds() {
    let text = "INIT_VAR int lo\nSET_VAR lo -3\nINIT_VAR int hi\nSET_VAR hi 3\nINIT_VAR int r\nRANDOM lo hi r\n\
                INIT_VAR int same\nRANDOM hi hi same\n";
    let mut seen = std::collections::HashSet::new();
    for _ in 0..200 {
        let (running, r, _) = run(text);
        assert_eq!(r, Ok(()));
        let n = global(&running, "r").unwrap().as_int().unwrap();
        assert!((-3..=3).contains(&n), "{}", n);
        seen.insert(n);
        assert_eq!(global(&running, "same").unwrap().as_int(), Ok(3));
    }
    assert!(seen.len() > 1);
}

#[test]
fn random_failures() {
    let pre = "INIT_VAR int lo\nSET_VAR lo 1\nINIT_VAR int hi\nSET_VAR hi 3\nINIT_VAR int r\nINIT_VAR string s\n";
    let at = |line: &str| failure(&format!("{}{}\n", pre, line)).0;
    assert_eq!(at("RANDOM hi lo r"), ScriptError::CommandArgsInvalidError);
    assert_eq!(at("RANDOM lo hi"), ScriptError::CommandArgsInvalidError);
    assert_eq!(at("RANDOM lo hi s"), ScriptError::TypeMismatchError);
    assert_eq!(at("RANDOM lo s r"), ScriptError::TypeMismatchError);
    assert_eq!(at("RANDOM lo hi nowhere"), ScriptError::UnknownVarError);
    assert_eq!(at("RANDOM nowhere hi r"), ScriptError::UnknownVarError);
}

#[test]
fn sleep_asks_the_host() {
    let text = format!(
        "INIT_VAR int t\nSET_VAR t 15\nSLEEP t\nSET_VAR t -1\nSLEEP t\nINIT_VAR float f\nSET_VAR f 2.9\nSLEEP f\n"
    );
    let (_, r, host) = run(&text);
    assert_eq!(r, Ok(()));
    assert_eq!(host.slept, vec![15, u64::MAX, 2]);
    assert_eq!(failure("SLEEP args\n"), (ScriptError::TypeMismatchError, 1));
    assert_eq!(failure("INIT_VAR int t\nSLEEP t\n"), (ScriptError::TypeMismatchError, 2));
    assert_eq!(failure("SLEEP\n"), (ScriptError::CommandArgsInvalidError, 1));
    assert_eq!(failure("SLEEP t\n"), (ScriptError::UnknownVarError, 1));
}

#[test]
fn instructions_without_effect() {
    let text = "IMPORT x\nIMPORT_TEXT y\nOPEN_TCP_CONNECTION a b c d\nOPEN_TCP_LISTENER a b c\nFUNC_END\nINIT_VAR int x\n";
    let (running, r, _) = run(text);
    assert_eq!(r, Ok(()));
    assert!(global(&running, "x").is_ok());
}

#[test]
fn operands_are_read_and_tested_in_the_order_of_each_instruction() {
    let pre = "INIT_VAR int i\nSET_VAR i 1\nINIT_VAR string s\nSET_VAR s a\nINIT_VAR float f\nSET_VAR f 1\nINIT_VAR bool b\nSET_VAR b true\nINIT_VAR bool r\n";
    let at = |line: &str| failure(&format!("{}{}\n", pre, line)).0;
    assert_eq!(at("ADD_INT nothing s"), ScriptError::TypeMismatchError);
    assert_eq!(at("ADD_INT s nothing"), ScriptError::UnknownVarError);
    assert_eq!(at("ADD_FLOAT nothing i"), ScriptError::TypeMismatchError);
    assert_eq!(at("ADD_FLOAT i nothing"), ScriptError::UnknownVarError);
    assert_eq!(at("ADD_STR nothing i"), ScriptError::TypeMismatchError);
    assert_eq!(at("ADD_STR i nothing"), ScriptError::UnknownVarError);
    assert_eq!(at("AND i nothing r"), ScriptError::TypeMismatchError);
    assert_eq!(at("AND nothing i r"), ScriptError::UnknownVarError);
    assert_eq!(at("OR b nothing r"), ScriptError::UnknownVarError);
    assert_eq!(at("HAS_STR i nothing r"), ScriptError::TypeMismatchError);
    assert_eq!(at("HAS_ITEM i nothing r"), ScriptError::TypeMismatchError);
    assert_eq!(at("HAS_KEY args nothing r"), ScriptError::TypeMismatchError);
    assert_eq!(at("HAS_VALUE args nothing r"), ScriptError::TypeMismatchError);
    assert_eq!(at("HAS_ENTRY args nothing nothing r"), ScriptError::TypeMismatchError);
    assert_eq!(at("SUB_STR args nothing nothing"), ScriptError::TypeMismatchError);
    assert_eq!(at("SUB_STR s s nothing"), ScriptError::TypeMismatchError);
    assert_eq!(at("SUB_LIST s nothing i"), ScriptError::UnknownVarError);
    assert_eq!(at("SUB_LIST s s nothing"), ScriptError::TypeMismatchError);
    assert_eq!(at("EQUALS nothing i r"), ScriptError::UnknownVarError);
    assert_eq!(at("MORE s nothing r"), ScriptError::UnknownVarError);
    assert_eq!(at("GET_ITEM i nothing s"), ScriptError::UnknownVarError);
}
