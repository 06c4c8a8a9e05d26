use sustlang::running_script::empty_locals;
use sustlang::{
    Action, Command, Event, FloatValue, Number, Request, RunningScript, Script, ScriptError,
    SleepTime, Task, Variable,
};

struct Host {
    output: Vec<u8>,
    input: Vec<u8>,
    spawned: usize,
}

fn float_value(x: f64) -> FloatValue {
    FloatValue::new(x.to_bits(), x.to_string())
}

fn to_float(n: &Number) -> f64 {
    match n {
        Number::Integer(i) => *i as f64,
        Number::Float(f) => f64::from_bits(f.bits),
        Number::Char(c) => *c as f64,
    }
}

fn perform(host: &mut Host, running: &mut RunningScript, action: Action) -> Event {
    match action {
        Action::Continue => Event::Nothing,
        Action::Finished(_) => Event::Nothing,
        Action::Write { bytes, .. } => {
            host.output.extend(bytes);
            Event::Done
        }
        Action::Read { size, .. } => {
            if size <= host.input.len() {
                let rest = host.input.split_off(size);
                let bytes = std::mem::replace(&mut host.input, rest);
                Event::Bytes(bytes)
            } else {
                Event::Failed
            }
        }
        Action::ReadAll { .. } => Event::Bytes(std::mem::take(&mut host.input)),
        Action::ReadFile { .. } => Event::Failed,
        Action::Sleep { time } => match time {
            SleepTime::Millis(_) => Event::Done,
            SleepTime::Float(_) => Event::Done,
        },
        Action::Spawn { function } => {
            host.spawned += 1;
            let mut task = Task::call(&function, Vec::new()).unwrap();
            let _ = drive(host, running, &mut task);
            Event::Done
        }
        Action::Float(request) => match request {
            Request::ParseFloat { text } => match text.parse::<f64>() {
                Ok(x) => Event::Float(float_value(x)),
                Err(_) => Event::Failed,
            },
            Request::AddFloat { left, right } => {
                Event::Float(float_value(f64::from_bits(left.bits) + f64::from_bits(right.bits)))
            }
            Request::Compare { a, b, greater } => {
                let (l, r) = (to_float(&a), to_float(&b));
                Event::Flag(if greater { l > r } else { l < r })
            }
        },
    }
}

fn drive(
    host: &mut Host,
    running: &mut RunningScript,
    task: &mut Task,
) -> Result<(), (ScriptError, Command)> {
    let mut event = Event::Nothing;
    loop {
        match task.step(running, event) {
            Action::Finished(r) => return r,
            action => event = perform(host, running, action),
        }
    }
}

fn run(text: &str, input: &str) -> (RunningScript, Result<(), (ScriptError, Command)>, Host) {
    let script = Script::parse(text.to_string()).unwrap();
    let mut running = RunningScript::new(script);
    running.set_standard_vars(vec!["prog".to_string()]).unwrap();
    let mut task = Task::new(&running);
    let mut host = Host { output: Vec::new(), input: input.as_bytes().to_vec(), spawned: 0 };
    let r = drive(&mut host, &mut running, &mut task);
    (running, r, host)
}

fn global(running: &RunningScript, name: &str) -> Result<Variable, ScriptError> {
    running.get_var(name.to_string(), &empty_locals())
}

#[test]
fn add_int_doubles_a_variable() {
    let (running, r, _) = run("INIT_VAR int x\nSET_VAR x 5\nADD_INT x x\n", "");
    assert_eq!(r, Ok(()));
    assert_eq!(global(&running, "x").unwrap().as_int(), Ok(10));
}

#[test]
fn temp_var_lives_through_one_instruction() {
    let (_, r, host) = run("TEMP_VAR string t hello\nWRITE t cout\nWRITE t cout\n", "");
    assert_eq!(host.output, b"hello".to_vec());
    match r {
        Err((e, c)) => {
            assert_eq!(e, ScriptError::UnknownVarError);
            assert_eq!(c.line, 3);
        }
        Ok(()) => panic!("the second write found the temporary variable"),
    }
}

#[test]
fn if_calls_its_function_once_when_true() {
    let text = "FUNC bool myFunc\nADD_INT count one\nSET_VAR result true\nFUNC_END\n\
                INIT_VAR int count\nSET_VAR count 0\nINIT_VAR int one\nSET_VAR one 1\n\
                INIT_VAR bool cond\nSET_VAR cond true\nIF cond myFunc\n";
    let (running, r, _) = run(text, "");
    assert_eq!(r, Ok(()));
    assert_eq!(global(&running, "count").unwrap().as_int(), Ok(1));
}

#[test]
fn if_does_not_call_its_function_when_false() {
    let text = "FUNC bool myFunc\nADD_INT count one\nSET_VAR result true\nFUNC_END\n\
                INIT_VAR int count\nSET_VAR count 0\nINIT_VAR int one\nSET_VAR one 1\n\
                INIT_VAR bool cond\nSET_VAR cond false\nIF cond myFunc\n";
    let (running, r, _) = run(text, "");
    assert_eq!(r, Ok(()));
    assert_eq!(global(&running, "count").unwrap().as_int(), Ok(0));
}

#[test]
fn for_list_calls_once_per_item_in_order() {
    let text = "FUNC null f item string\nADD_STR seen item\nHAS_VAR leak here\nINIT_VAR bool leak\nFUNC_END\n\
                INIT_VAR string seen\nSET_VAR seen \nINIT_VAR bool here\nFOR_LIST f args\n";
    let script = Script::parse(text.to_string()).unwrap();
    let mut running = RunningScript::new(script);
    running
        .set_standard_vars(vec!["a".to_string(), "b".to_string(), "c".to_string()])
        .unwrap();
    let mut task = Task::new(&running);
    let mut host = Host { output: Vec::new(), input: Vec::new(), spawned: 0 };
    let r = drive(&mut host, &mut running, &mut task);
    assert_eq!(r, Ok(()));
    assert_eq!(global(&running, "seen").unwrap().as_str(), Ok("abc".to_string()));
    assert_eq!(global(&running, "here").unwrap().as_bool(), Ok(false));
    assert_eq!(global(&running, "leak"), Err(ScriptError::UnknownVarError));
}
