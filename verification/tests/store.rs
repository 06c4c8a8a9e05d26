use sustlang::running_script::empty_locals;
use sustlang::{RunningScript, Script, ScriptError, VarType, Variable};

fn fresh() -> RunningScript {
    RunningScript::new(Script { commands: Vec::new(), functions: Vec::new() })
}

fn whole(i: isize) -> Variable {
    Variable::from_int(Some(i))
}

fn text(s: &str) -> Variable {
    Variable::from_str(Some(s.to_string()))
}

fn ints(v: &[isize]) -> Variable {
    Variable::from_list(Some(v.iter().map(|i| whole(*i)).collect()), VarType::Integer)
}

#[test]
fn declare_then_read() {
    let mut s = fresh();
    let mut locals = empty_locals();
    assert_eq!(s.set_var("x".to_string(), whole(5), true, true, &mut locals), Ok(()));
    assert_eq!(s.get_var("x".to_string(), &locals), Ok(whole(5)));
    assert_eq!(s.set_var("y".to_string(), whole(6), false, true, &mut locals), Ok(()));
    assert_eq!(s.get_var("y".to_string(), &locals), Ok(whole(6)));
    assert_eq!(s.get_var("y".to_string(), &empty_locals()), Err(ScriptError::UnknownVarError));
    assert_eq!(s.get_var("x".to_string(), &empty_locals()), Ok(whole(5)));
}

#[test]
fn declare_twice_fails() {
    let mut s = fresh();
    let mut locals = empty_locals();
    assert_eq!(s.set_var("x".to_string(), whole(5), true, true, &mut locals), Ok(()));
    assert_eq!(
        s.set_var("x".to_string(), whole(6), true, true, &mut locals),
        Err(ScriptError::VarInitedError)
    );
    assert_eq!(
        s.set_var("x".to_string(), text("a"), false, true, &mut locals),
        Err(ScriptError::VarInitedError)
    );
    assert_eq!(s.get_var("x".to_string(), &locals), Ok(whole(5)));
    assert_eq!(s.set_var("l".to_string(), whole(1), false, true, &mut locals), Ok(()));
    assert_eq!(
        s.set_var("l".to_string(), whole(2), true, true, &mut locals),
        Err(ScriptError::VarInitedError)
    );
}

#[test]
fn assign_with_another_type_fails() {
    let mut s = fresh();
    let mut locals = empty_locals();
    assert_eq!(s.set_var("x".to_string(), whole(5), true, true, &mut locals), Ok(()));
    assert_eq!(
        s.set_var("x".to_string(), text("a"), true, false, &mut locals),
        Err(ScriptError::TypeMismatchError)
    );
    assert_eq!(s.get_var("x".to_string(), &locals), Ok(whole(5)));
    assert_eq!(s.set_var("x".to_string(), whole(7), true, false, &mut locals), Ok(()));
    assert_eq!(s.get_var("x".to_string(), &locals), Ok(whole(7)));
    assert_eq!(s.set_var("y".to_string(), ints(&[1]), false, true, &mut locals), Ok(()));
    assert_eq!(
        s.set_var(
            "y".to_string(),
            Variable::from_list(Some(Vec::new()), VarType::String),
            false,
            false,
            &mut locals
        ),
        Err(ScriptError::TypeMismatchError)
    );
}

#[test]
fn assign_to_an_undeclared_name_fails() {
    let mut s = fresh();
    let mut locals = empty_locals();
    assert_eq!(
        s.set_var("x".to_string(), whole(5), true, false, &mut locals),
        Err(ScriptError::UnknownVarError)
    );
    assert_eq!(
        s.set_var("x".to_string(), whole(5), false, false, &mut locals),
        Err(ScriptError::UnknownVarError)
    );
    assert_eq!(
        s.set_var("x.0".to_string(), whole(5), false, false, &mut locals),
        Err(ScriptError::UnknownVarError)
    );
    assert_eq!(s.get_var("x".to_string(), &locals), Err(ScriptError::UnknownVarError));
}

#[test]
fn an_existing_global_takes_the_write_of_a_function() {
    let mut s = fresh();
    let mut top = empty_locals();
    assert_eq!(s.set_var("g".to_string(), whole(1), true, true, &mut top), Ok(()));
    let mut locals = empty_locals();
    assert_eq!(s.set_var("g".to_string(), whole(2), false, false, &mut locals), Ok(()));
    assert!(locals.get("g").is_none());
    assert_eq!(s.get_var("g".to_string(), &empty_locals()), Ok(whole(2)));
}

#[test]
fn a_local_hides_a_global_of_the_same_name() {
    let mut s = fresh();
    let mut top = empty_locals();
    assert_eq!(s.set_var("v".to_string(), whole(1), true, true, &mut top), Ok(()));
    let mut locals = empty_locals();
    locals.insert("v".to_string(), whole(10));
    assert_eq!(s.get_var("v".to_string(), &locals), Ok(whole(10)));
    assert_eq!(s.set_var("v".to_string(), whole(11), false, false, &mut locals), Ok(()));
    assert_eq!(s.get_var("v".to_string(), &locals), Ok(whole(11)));
    assert_eq!(s.get_var("v".to_string(), &empty_locals()), Ok(whole(1)));
    assert_eq!(s.drop_var("v".to_string(), &mut locals), Ok(()));
    assert_eq!(s.get_var("v".to_string(), &locals), Ok(whole(1)));
    assert_eq!(s.drop_var("v".to_string(), &mut locals), Ok(()));
    assert_eq!(s.get_var("v".to_string(), &locals), Err(ScriptError::UnknownVarError));
    assert_eq!(s.drop_var("v".to_string(), &mut locals), Err(ScriptError::UnknownVarError));
}

#[test]
fn paths_lead_into_lists() {
    let mut s = fresh();
    let mut locals = empty_locals();
    let nested =
        Variable::from_list(Some(vec![ints(&[1, 2]), ints(&[3])]), VarType::List(Box::new(VarType::Integer)));
    assert_eq!(s.set_var("l".to_string(), nested, true, true, &mut locals), Ok(()));
    assert_eq!(s.get_var("l.0.1".to_string(), &locals), Ok(whole(2)));
    assert_eq!(s.get_var("l.1.0".to_string(), &locals), Ok(whole(3)));
    assert_eq!(s.get_var("l.1".to_string(), &locals), Ok(ints(&[3])));
    assert_eq!(s.get_var("l.2".to_string(), &locals), Err(ScriptError::UnknownVarError));
    assert_eq!(s.get_var("l.x".to_string(), &locals), Err(ScriptError::ParseVarError));
    assert_eq!(s.get_var("l.-1".to_string(), &locals), Err(ScriptError::ParseVarError));
    assert_eq!(s.get_var("l.".to_string(), &locals), Err(ScriptError::ParseVarError));
    assert_eq!(s.get_var("l.0.1.0".to_string(), &locals), Err(ScriptError::TypeMismatchError));
    assert_eq!(s.get_var("m.0".to_string(), &locals), Err(ScriptError::UnknownVarError));

    assert_eq!(s.set_var("l.0.1".to_string(), whole(20), true, false, &mut locals), Ok(()));
    assert_eq!(s.get_var("l.0".to_string(), &locals), Ok(ints(&[1, 20])));
    assert_eq!(
        s.set_var("l.0.2".to_string(), whole(30), true, false, &mut locals),
        Err(ScriptError::UnknownVarError)
    );
    assert_eq!(
        s.set_var("l.0.0".to_string(), text("a"), true, false, &mut locals),
        Err(ScriptError::TypeMismatchError)
    );
    assert_eq!(s.get_var("l.0".to_string(), &locals), Ok(ints(&[1, 20])));

    assert_eq!(s.drop_var("l.0.0".to_string(), &mut locals), Ok(()));
    assert_eq!(s.get_var("l.0".to_string(), &locals), Ok(ints(&[20])));
    assert_eq!(s.drop_var("l.0.5".to_string(), &mut locals), Err(ScriptError::UnknownVarError));
    assert_eq!(s.drop_var("l.0".to_string(), &mut locals), Ok(()));
    assert_eq!(s.get_var("l.0".to_string(), &locals), Ok(ints(&[3])));
}

#[test]
fn paths_lead_into_mappings() {
    let mut s = fresh();
    let mut locals = empty_locals();
    let m = Variable::from_map(
        Some(vec![(text("a"), whole(1)), (text("b"), whole(2))]),
        VarType::String,
        VarType::Integer,
    );
    assert_eq!(s.set_var("m".to_string(), m, false, true, &mut locals), Ok(()));
    assert_eq!(s.get_var("m.a".to_string(), &locals), Ok(whole(1)));
    assert_eq!(s.get_var("m.b".to_string(), &locals), Ok(whole(2)));
    assert_eq!(s.get_var("m.c".to_string(), &locals), Err(ScriptError::UnknownVarError));
    assert_eq!(s.get_var("m.a.x".to_string(), &locals), Err(ScriptError::TypeMismatchError));

    assert_eq!(s.set_var("m.a".to_string(), whole(10), false, false, &mut locals), Ok(()));
    assert_eq!(s.set_var("m.c".to_string(), whole(3), false, false, &mut locals), Ok(()));
    assert_eq!(
        s.set_var("m.d".to_string(), text("no"), false, false, &mut locals),
        Err(ScriptError::TypeMismatchError)
    );
    let now = s.get_var("m".to_string(), &locals).unwrap();
    assert_eq!(now.to_string(), Ok("{a: 10, b: 2, c: 3}".to_string()));

    assert_eq!(s.drop_var("m.b".to_string(), &mut locals), Ok(()));
    assert_eq!(s.drop_var("m.b".to_string(), &mut locals), Err(ScriptError::UnknownVarError));
    let now = s.get_var("m".to_string(), &locals).unwrap();
    assert_eq!(now.to_string(), Ok("{a: 10, c: 3}".to_string()));
}

#[test]
fn mapping_keys_are_read_in_the_key_type() {
    let mut s = fresh();
    let mut locals = empty_locals();
    let by_number = Variable::from_map(
        Some(vec![(whole(7), text("seven"))]),
        VarType::Integer,
        VarType::String,
    );
    assert_eq!(s.set_var("n".to_string(), by_number, false, true, &mut locals), Ok(()));
    assert_eq!(s.get_var("n.7".to_string(), &locals), Ok(text("seven")));
    assert_eq!(s.get_var("n.+7".to_string(), &locals), Ok(text("seven")));
    assert_eq!(s.get_var("n.8".to_string(), &locals), Err(ScriptError::UnknownVarError));
    assert_eq!(s.get_var("n.x".to_string(), &locals), Err(ScriptError::ParseVarError));
    let by_flag = Variable::from_map(
        Some(vec![(Variable::from_bool(Some(true)), whole(1))]),
        VarType::Bool,
        VarType::Integer,
    );
    assert_eq!(s.set_var("f".to_string(), by_flag, false, true, &mut locals), Ok(()));
    assert_eq!(s.get_var("f.true".to_string(), &locals), Ok(whole(1)));
    assert_eq!(s.get_var("f.1".to_string(), &locals), Ok(whole(1)));
    assert_eq!(s.get_var("f.false".to_string(), &locals), Err(ScriptError::UnknownVarError));
}

#[test]
fn scalars_are_no_containers() {
    let mut s = fresh();
    let mut locals = empty_locals();
    assert_eq!(s.set_var("x".to_string(), whole(5), false, true, &mut locals), Ok(()));
    assert_eq!(s.get_var("x.0".to_string(), &locals), Err(ScriptError::TypeMismatchError));
    assert_eq!(
        s.set_var("x.0".to_string(), whole(1), false, false, &mut locals),
        Err(ScriptError::TypeMismatchError)
    );
    assert_eq!(s.drop_var("x.0".to_string(), &mut locals), Err(ScriptError::TypeMismatchError));
    let empty = Variable::from_list(None, VarType::Integer);
    assert_eq!(s.set_var("e".to_string(), empty, false, true, &mut locals), Ok(()));
    assert_eq!(s.get_var("e.0".to_string(), &locals), Err(ScriptError::TypeMismatchError));
}

#[test]
fn standard_variables() {
    let mut s = fresh();
    let (cout, cin) = s.set_standard_vars(vec!["a".to_string(), "b c".to_string()]).unwrap();
    assert_eq!((cout, cin), (0, 0));
    let locals = empty_locals();
    assert_eq!(s.get_var("cout".to_string(), &locals), Ok(Variable::from_out_stream(Some(0))));
    assert_eq!(s.get_var("cin".to_string(), &locals), Ok(Variable::from_in_stream(Some(0))));
    assert_eq!(s.get_var("args.0".to_string(), &locals), Ok(text("a")));
    assert_eq!(s.get_var("args.1".to_string(), &locals), Ok(text("b c")));
    assert_eq!(
        s.get_var("args".to_string(), &locals).unwrap().get_type(),
        VarType::List(Box::new(VarType::String))
    );
    assert_eq!(s.set_standard_vars(Vec::new()), Err(ScriptError::VarInitedError));
    assert_eq!(s.get_var("args.1".to_string(), &locals), Ok(text("b c")));
}

#[test]
fn functions_are_found_by_name() {
    let text = "FUNC int first a int\nRETURN\nFUNC_END\nFUNC bool second\nFUNC_END\nFUNC null first\nFUNC_END\n";
    let s = RunningScript::new(Script::parse(text.to_string()).unwrap());
    let f = s.get_function("first".to_string()).unwrap();
    assert_eq!(f.result_type, VarType::Integer);
    assert_eq!(f.parameters, vec![("a".to_string(), VarType::Integer)]);
    assert_eq!(s.get_function("second".to_string()).unwrap().result_type, VarType::Bool);
    assert_eq!(
        s.get_function("third".to_string()).err(),
        Some(ScriptError::FunctionUnknownError)
    );
}

#[test]
fn an_assignment_is_tested_against_what_the_name_stands_for() {
    let mut s = fresh();
    let mut locals = empty_locals();
    assert_eq!(s.set_var("x".to_string(), whole(1), false, true, &mut locals), Ok(()));
    assert_eq!(
        s.set_var("x".to_string(), text("a"), true, false, &mut locals),
        Err(ScriptError::TypeMismatchError)
    );
    assert_eq!(s.get_var("x".to_string(), &locals), Ok(whole(1)));
    assert_eq!(s.get_var("x".to_string(), &empty_locals()), Err(ScriptError::UnknownVarError));
    assert_eq!(s.set_var("x".to_string(), whole(2), true, false, &mut locals), Ok(()));
    assert_eq!(s.get_var("x".to_string(), &empty_locals()), Ok(whole(2)));
    assert_eq!(s.get_var("x".to_string(), &locals), Ok(whole(1)));

    let mut top = empty_locals();
    assert_eq!(s.set_var("v".to_string(), text("g"), true, true, &mut top), Ok(()));
    let mut both = empty_locals();
    both.insert("v".to_string(), whole(10));
    assert_eq!(
        s.set_var("v".to_string(), text("h"), true, false, &mut both),
        Err(ScriptError::TypeMismatchError)
    );
    assert_eq!(
        s.set_var("v".to_string(), text("h"), false, false, &mut both),
        Err(ScriptError::TypeMismatchError)
    );
    assert_eq!(s.get_var("v".to_string(), &empty_locals()), Ok(text("g")));
    assert_eq!(s.set_var("v".to_string(), whole(11), false, false, &mut both), Ok(()));
    assert_eq!(s.get_var("v".to_string(), &both), Ok(whole(11)));
    assert_eq!(s.get_var("v".to_string(), &empty_locals()), Ok(text("g")));
}

#[test]
fn a_forced_write_through_a_path_reads_the_local_container() {
    let mut s = fresh();
    let mut locals = empty_locals();
    assert_eq!(s.set_var("l".to_string(), ints(&[1, 2]), false, true, &mut locals), Ok(()));
    assert_eq!(s.set_var("l.0".to_string(), whole(9), true, false, &mut locals), Ok(()));
    assert_eq!(s.get_var("l".to_string(), &empty_locals()), Ok(ints(&[9, 2])));
    assert_eq!(s.get_var("l".to_string(), &locals), Ok(ints(&[1, 2])));
    assert_eq!(
        s.set_var("l.0".to_string(), text("a"), true, false, &mut locals),
        Err(ScriptError::TypeMismatchError)
    );
}

#[test]
fn declaring_through_a_dotted_path_fails() {
    let mut s = fresh();
    let mut locals = empty_locals();
    assert_eq!(s.set_var("l".to_string(), ints(&[1, 2]), false, true, &mut locals), Ok(()));
    for name in ["l.0", "l.5", "m.k", "a.b.c", "."] {
        for global in [true, false] {
            assert_eq!(
                s.set_var(name.to_string(), whole(9), global, true, &mut locals),
                Err(ScriptError::CommandArgsInvalidError),
                "{}",
                name
            );
        }
    }
    assert_eq!(s.get_var("l".to_string(), &locals), Ok(ints(&[1, 2])));
}
