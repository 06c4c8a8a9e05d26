use sustlang::{CommandType, ScriptError, VarType};

fn list(t: VarType) -> VarType {
    VarType::List(Box::new(t))
}

fn mapping(k: VarType, v: VarType) -> VarType {
    VarType::Mapping(Box::new(k), Box::new(v))
}

fn optional(t: VarType) -> VarType {
    VarType::Optional(Box::new(t))
}

#[test]
fn scalar_keywords_and_their_short_forms() {
    let table = [
        ("bool", VarType::Bool),
        ("b", VarType::Bool),
        ("string", VarType::String),
        ("str", VarType::String),
        ("s", VarType::String),
        ("integer", VarType::Integer),
        ("int", VarType::Integer),
        ("i", VarType::Integer),
        ("float", VarType::Float),
        ("f", VarType::Float),
        ("char", VarType::Char),
        ("c", VarType::Char),
        ("in_stream", VarType::InStream),
        ("in", VarType::InStream),
        ("out_stream", VarType::OutStream),
        ("out", VarType::OutStream),
        ("null", VarType::Null),
    ];
    for (name, expected) in table {
        assert_eq!(VarType::from_name(name), Ok(expected), "{}", name);
    }
}

#[test]
fn list_and_optional_types_nest() {
    assert_eq!(VarType::from_name("list[int]"), Ok(list(VarType::Integer)));
    assert_eq!(VarType::from_name("list[list[c]]"), Ok(list(list(VarType::Char))));
    assert_eq!(VarType::from_name("optional[string]"), Ok(optional(VarType::String)));
    assert_eq!(
        VarType::from_name("optional[list[optional[b]]]"),
        Ok(optional(list(optional(VarType::Bool))))
    );
}

#[test]
fn map_type_splits_at_its_first_comma_outside_brackets() {
    assert_eq!(
        VarType::from_name("map[string,int]"),
        Ok(mapping(VarType::String, VarType::Integer))
    );
    assert_eq!(
        VarType::from_name("map[map[int,string],list[bool]]"),
        Ok(mapping(mapping(VarType::Integer, VarType::String), list(VarType::Bool)))
    );
    assert_eq!(
        VarType::from_name("map[int,map[char,float]]"),
        Ok(mapping(VarType::Integer, mapping(VarType::Char, VarType::Float)))
    );
}

#[test]
fn unknown_type_text_is_rejected() {
    let bad = [
        "",
        "foo",
        "Int",
        "int ",
        "list",
        "list[",
        "list[]",
        "list[int",
        "list[int]]",
        "list[[int]",
        "map[int]",
        "map[,]",
        "map[int,]",
        "map[,int]",
        "map[int;string]",
        "map[list[int,string]]",
        "optional[]",
        "optional[int]x",
        "list[int],",
    ];
    for text in bad {
        assert_eq!(VarType::from_name(text), Err(ScriptError::TypeUnknownError), "{:?}", text);
    }
}

#[test]
fn type_descriptor_clone_is_equal() {
    let t = mapping(list(VarType::Integer), optional(VarType::String));
    assert_eq!(t.clone(), t);
}

#[test]
fn command_tags_name_their_kinds() {
    let table = [
        ("INIT_VAR", CommandType::InitVar),
        ("SET_VAR", CommandType::SetVar),
        ("TEMP_VAR", CommandType::TempVar),
        ("MOVE_VAR", CommandType::MoveVar),
        ("COPY_VAR", CommandType::CopyVar),
        ("DROP_VAR", CommandType::DropVar),
        ("HAS_VAR", CommandType::HasVar),
        ("TO_STRING", CommandType::ToString),
        ("TO_CHARS", CommandType::ToChars),
        ("TO_INTEGER", CommandType::ToInteger),
        ("TO_FLOAT", CommandType::ToFloat),
        ("TO_CHAR", CommandType::ToChar),
        ("TO_BOOL", CommandType::ToBool),
        ("GET_SYMBOL", CommandType::GetSymbol),
        ("GET_ITEM", CommandType::GetItem),
        ("GET_VALUE", CommandType::GetValue),
        ("ADD_INT", CommandType::AddInt),
        ("ADD_FLOAT", CommandType::AddFloat),
        ("ADD_STR", CommandType::AddStr),
        ("SUB_STR", CommandType::SubStr),
        ("SUB_LIST", CommandType::SubList),
        ("LIST_SIZE", CommandType::ListSize),
        ("MAP_SIZE", CommandType::MapSize),
        ("STRING_SIZE", CommandType::StringSize),
        ("WRITE", CommandType::Write),
        ("READ", CommandType::Read),
        ("READ_ALL", CommandType::ReadAll),
        ("FOR", CommandType::For),
        ("FOR_MAP", CommandType::ForMap),
        ("FOR_LIST", CommandType::ForList),
        ("FOR_STRING", CommandType::ForString),
        ("WHILE", CommandType::While),
        ("OPEN_FILE_IN", CommandType::OpenFileIn),
        ("OPEN_FILE_OUT", CommandType::OpenFileOut),
        ("OPEN_TCP_CONNECTION", CommandType::OpenTcpConnection),
        ("OPEN_TCP_LISTENER", CommandType::OpenTcpListener),
        ("SLEEP", CommandType::Sleep),
        ("NEW_THREAD", CommandType::NewThread),
        ("USE_FUNC", CommandType::UseFunc),
        ("FUNC", CommandType::Func),
        ("FUNC_END", CommandType::FuncEnd),
        ("RETURN", CommandType::Return),
        ("EQUALS", CommandType::Equals),
        ("MORE", CommandType::More),
        ("LESS", CommandType::Less),
        ("AND", CommandType::And),
        ("OR", CommandType::Or),
        ("NOT", CommandType::Not),
        ("IF", CommandType::If),
        ("HAS_STR", CommandType::HasStr),
        ("HAS_ITEM", CommandType::HasItem),
        ("HAS_ENTRY", CommandType::HasEntry),
        ("HAS_KEY", CommandType::HasKey),
        ("HAS_VALUE", CommandType::HasValue),
        ("HAS_OPTIONAL", CommandType::HasOptional),
        ("UNPACK_OPTIONAL", CommandType::UnpackOptional),
        ("PACK_OPTIONAL", CommandType::PackOptional),
        ("NONE_OPTIONAL", CommandType::NoneOptional),
        ("IMPORT_TEXT", CommandType::ImportText),
        ("IMPORT", CommandType::Import),
        ("RANDOM", CommandType::Random),
    ];
    for (tag, kind) in table {
        assert_eq!(CommandType::from_name(tag), Ok(kind), "{}", tag);
    }
}

#[test]
fn unknown_command_tag_is_rejected() {
    for tag in ["", "init_var", "INIT VAR", "INITVAR", "FUNC_", " IF", "IF "] {
        assert_eq!(
            CommandType::from_name(tag),
            Err(ScriptError::CommandUnknownError),
            "{:?}",
            tag
        );
    }
}

#[test]
fn every_error_has_the_same_text() {
    assert_eq!(ScriptError::ParseVarError.to_string(), "some error ez");
    assert_eq!(ScriptError::StreamWriteError.to_string(), "some error ez");
}
