use sustlang::script::{clean_line, cut_funcs, parse_commands, prepare_script};
use sustlang::{Command, CommandType, Function, Script, ScriptError, VarType};

fn strings(v: &[&str]) -> Vec<String> {
    v.iter().map(|s| s.to_string()).collect()
}

#[test]
fn lines_lose_comments_and_outer_blanks() {
    assert_eq!(clean_line("  SET_VAR x 5  # five"), "SET_VAR x 5");
    assert_eq!(clean_line("\t\tRETURN\t"), "RETURN");
    assert_eq!(clean_line("# only a comment"), "");
    assert_eq!(clean_line(""), "");
    assert_eq!(clean_line("SET_VAR s a#b"), "SET_VAR s a");
    assert_eq!(clean_line("X \t \t"), "X");
    assert_eq!(clean_line("X \t"), "X");
    assert_eq!(clean_line("X\t  "), "X");
    assert_eq!(clean_line(" \t X"), "X");
    assert_eq!(clean_line("\t X"), "X");
    assert_eq!(clean_line(" \t \t# c"), "");
    assert_eq!(clean_line("a \t b"), "a \t b");
    assert_eq!(clean_line("a  b"), "a  b");
}

#[test]
fn text_is_split_into_lines() {
    assert_eq!(prepare_script("A\nB\n".to_string()), strings(&["A", "B"]));
    assert_eq!(prepare_script("A\nB".to_string()), strings(&["A", "B"]));
    assert_eq!(prepare_script("A\r\nB\r\n".to_string()), strings(&["A", "B"]));
    assert_eq!(prepare_script("A\n\nB\n\n".to_string()), strings(&["A", "", "B", ""]));
    assert_eq!(prepare_script("".to_string()), Vec::<String>::new());
    assert_eq!(prepare_script("\n".to_string()), strings(&[""]));
    assert_eq!(prepare_script("  A 1 # c\n\tB\t\n".to_string()), strings(&["A 1", "B"]));
    let text = "one\r\ntwo\rthree\n\r\nlast\r";
    let expected: Vec<String> = text.lines().map(|l| clean_line(l)).collect();
    assert_eq!(prepare_script(text.to_string()), expected);
    let text = "\t INIT_VAR int x \t# x\n \t \n\t\tSET_VAR x 1#\n";
    assert_eq!(prepare_script(text.to_string()), strings(&["INIT_VAR int x", "", "SET_VAR x 1"]));
    assert_eq!(prepare_script(text.to_string()).len(), text.lines().count());
}

#[test]
fn lines_become_instructions_with_their_numbers() {
    let commands = parse_commands(strings(&["INIT_VAR int x", "", "SET_VAR x 5", "  ", "RETURN"]))
        .unwrap();
    assert_eq!(
        commands,
        vec![
            Command::new(CommandType::InitVar, 1, strings(&["int", "x"])),
            Command::new(CommandType::SetVar, 3, strings(&["x", "5"])),
            Command::new(CommandType::Return, 5, Vec::new()),
        ]
    );
    assert_eq!(parse_commands(Vec::new()), Ok(Vec::new()));
    let spaced = parse_commands(strings(&["SET_VAR s a  b"])).unwrap();
    assert_eq!(spaced[0].args, strings(&["s", "a", "", "b"]));
}

#[test]
fn an_unknown_tag_fails_with_its_line() {
    assert_eq!(
        parse_commands(strings(&["RETURN", "", "JUMP x", "ALSO_BAD"])),
        Err((ScriptError::CommandUnknownError, 3))
    );
    assert_eq!(
        parse_commands(strings(&["return"])),
        Err((ScriptError::CommandUnknownError, 1))
    );
}

#[test]
fn functions_are_cut_out_of_the_top_level() {
    let text = "INIT_VAR int x\nFUNC int twice n int\nADD_INT n n\nCOPY_VAR n result\nFUNC_END\nSET_VAR x 1\nFUNC null noop\nFUNC_END\nRETURN\n";
    let mut commands = parse_commands(prepare_script(text.to_string())).unwrap();
    let functions = cut_funcs(&mut commands).unwrap();
    assert_eq!(
        commands,
        vec![
            Command::new(CommandType::InitVar, 1, strings(&["int", "x"])),
            Command::new(CommandType::SetVar, 6, strings(&["x", "1"])),
            Command::new(CommandType::Return, 9, Vec::new()),
        ]
    );
    assert_eq!(
        functions,
        vec![
            Function::new(
                "twice".to_string(),
                VarType::Integer,
                vec![("n".to_string(), VarType::Integer)],
                vec![
                    Command::new(CommandType::AddInt, 3, strings(&["n", "n"])),
                    Command::new(CommandType::CopyVar, 4, strings(&["n", "result"])),
                ],
            ),
            Function::new("noop".to_string(), VarType::Null, Vec::new(), Vec::new()),
        ]
    );
}

#[test]
fn parameters_come_in_pairs_and_in_order() {
    let mut commands = vec![
        Command::new(
            CommandType::Func,
            1,
            strings(&["bool", "f", "a", "int", "b", "list[string]", "c", "map[int,bool]", "odd"]),
        ),
        Command::new(CommandType::FuncEnd, 2, Vec::new()),
    ];
    let functions = cut_funcs(&mut commands).unwrap();
    assert!(commands.is_empty());
    assert_eq!(functions.len(), 1);
    assert_eq!(functions[0].name, "f");
    assert_eq!(functions[0].result_type, VarType::Bool);
    assert_eq!(
        functions[0].parameters,
        vec![
            ("a".to_string(), VarType::Integer),
            ("b".to_string(), VarType::List(Box::new(VarType::String))),
            (
                "c".to_string(),
                VarType::Mapping(Box::new(VarType::Integer), Box::new(VarType::Bool))
            ),
        ]
    );
}

#[test]
fn a_function_that_is_never_closed_is_dropped() {
    let mut commands = vec![
        Command::new(CommandType::Return, 1, Vec::new()),
        Command::new(CommandType::Func, 2, strings(&["null", "f"])),
        Command::new(CommandType::Return, 3, Vec::new()),
    ];
    let functions = cut_funcs(&mut commands).unwrap();
    assert!(functions.is_empty());
    assert_eq!(commands, vec![Command::new(CommandType::Return, 1, Vec::new())]);
}

#[test]
fn a_header_inside_a_function_joins_its_body() {
    let mut commands = vec![
        Command::new(CommandType::Func, 1, strings(&["null", "f"])),
        Command::new(CommandType::Func, 2, strings(&["null", "g"])),
        Command::new(CommandType::FuncEnd, 3, Vec::new()),
        Command::new(CommandType::FuncEnd, 4, Vec::new()),
    ];
    let functions = cut_funcs(&mut commands).unwrap();
    assert_eq!(functions.len(), 1);
    assert_eq!(functions[0].commands.len(), 1);
    assert_eq!(functions[0].commands[0].command_type, CommandType::Func);
    assert_eq!(commands, vec![Command::new(CommandType::FuncEnd, 4, Vec::new())]);
}

#[test]
fn a_bad_header_fails_with_its_line() {
    let mut commands = vec![
        Command::new(CommandType::Return, 1, Vec::new()),
        Command::new(CommandType::Func, 2, strings(&["what", "f"])),
    ];
    let before = commands.clone();
    assert_eq!(cut_funcs(&mut commands), Err((ScriptError::TypeUnknownError, 2)));
    assert_eq!(commands, before);
    let mut commands =
        vec![Command::new(CommandType::Func, 7, strings(&["int", "f", "a", "int", "b", "nope"]))];
    assert_eq!(cut_funcs(&mut commands), Err((ScriptError::TypeUnknownError, 7)));
    let mut commands = vec![Command::new(CommandType::Func, 9, strings(&["int"]))];
    assert_eq!(cut_funcs(&mut commands), Err((ScriptError::CommandArgsInvalidError, 9)));
}

#[test]
fn a_script_is_translated_whole() {
    let text = "# demo\nINIT_VAR string s   # a string\n\nFUNC null hello\n  WRITE s cout\nFUNC_END\nSET_VAR s hi there\nUSE_FUNC hello null\n";
    let script = Script::parse(text.to_string()).unwrap();
    assert_eq!(
        script,
        Script {
            commands: vec![
                Command::new(CommandType::InitVar, 2, strings(&["string", "s"])),
                Command::new(CommandType::SetVar, 7, strings(&["s", "hi", "there"])),
                Command::new(CommandType::UseFunc, 8, strings(&["hello", "null"])),
            ],
            functions: vec![Function::new(
                "hello".to_string(),
                VarType::Null,
                Vec::new(),
                vec![Command::new(CommandType::Write, 5, strings(&["s", "cout"]))],
            )],
        }
    );
    assert_eq!(
        Script::parse("RETURN\nNOPE\n".to_string()),
        Err((ScriptError::CommandUnknownError, 2))
    );
    assert_eq!(
        Script::parse("FUNC nope f\nFUNC_END\n".to_string()),
        Err((ScriptError::TypeUnknownError, 1))
    );
    assert_eq!(
        Script::parse(String::new()),
        Ok(Script { commands: Vec::new(), functions: Vec::new() })
    );
}

#[test]
fn a_parameter_name_is_declared_once() {
    let mut commands = vec![
        Command::new(
            CommandType::Func,
            1,
            strings(&["null", "f", "a", "int", "b", "bool", "a", "string", "c", "char", "b", "int"]),
        ),
        Command::new(CommandType::FuncEnd, 2, Vec::new()),
    ];
    let functions = cut_funcs(&mut commands).unwrap();
    assert_eq!(
        functions[0].parameters,
        vec![
            ("a".to_string(), VarType::String),
            ("b".to_string(), VarType::Integer),
            ("c".to_string(), VarType::Char),
        ]
    );
}
