//! The instruction vocabulary.

use vstd::prelude::*;
use crate::error::ScriptError;

verus! {

/// The kind of an instruction. Each kind has a tag, written in capitals at
/// the start of a script line.
#[derive(PartialEq, Eq, Structural, Clone, Copy, Debug, Hash)]
pub enum CommandType {
    /// `INIT_VAR`. Declares the variable `name_var` with the type `type_var`. Operands: `type_var`, `name_var`.
    InitVar,
    /// `SET_VAR`. Assigns to `name_var` the value that the rest of the line writes. Operands: `name_var`, `value_var`.
    SetVar,
    /// `TEMP_VAR`. Declares `name_var` with a value; the variable lives through the next instruction only. Operands: `type_var`, `name_var`, `value_var`.
    TempVar,
    /// `MOVE_VAR`. Moves the value of `source_var` into `target_var`. Operands: `source_var`, `target_var`.
    MoveVar,
    /// `COPY_VAR`. Copies the value of `source_var` into `target_var`. Operands: `source_var`, `target_var`.
    CopyVar,
    /// `DROP_VAR`. Removes the variable `name_var`. Operands: `name_var`.
    DropVar,
    /// `HAS_VAR`. Stores in `result_var` whether `name_var` exists. Operands: `name_var`, `result_var`.
    HasVar,
    /// `TO_STRING`. Stores in `result_var` the rendering of `source_var` as a string. Operands: `source_var`, `result_var`.
    ToString,
    /// `TO_CHARS`. Stores in `result_var` the bytes of the string `source_var` as a list of characters. Operands: `source_var`, `result_var`.
    ToChars,
    /// `TO_INTEGER`. Stores in `result_var` the integer that the string `source_var` writes. Operands: `source_var`, `result_var`.
    ToInteger,
    /// `TO_FLOAT`. Stores in `result_var` the float that the string `source_var` writes. Operands: `source_var`, `result_var`.
    ToFloat,
    /// `TO_CHAR`. Stores in `result_var` the character that `source_var` stands for. Operands: `source_var`, `result_var`.
    ToChar,
    /// `TO_BOOL`. Stores in `result_var` the truth value of `source_var`. Operands: `source_var`, `result_var`.
    ToBool,
    /// `GET_SYMBOL`. Stores in `result_var` the byte of the string `str_var` at `index_var`. Operands: `str_var`, `index_var`, `result_var`.
    GetSymbol,
    /// `GET_ITEM`. Stores in `result_var` the item of the list `list_var` at `index_var`. Operands: `list_var`, `index_var`, `result_var`.
    GetItem,
    /// `GET_VALUE`. Stores in `result_var` the value of the mapping `map_var` under `key_var`. Operands: `map_var`, `key_var`, `result_var`.
    GetValue,
    /// `ADD_INT`. Adds the integer `other_var` to the integer `var`. Operands: `var`, `other_var`.
    AddInt,
    /// `ADD_FLOAT`. Adds the float `other_var` to the float `var`. Operands: `var`, `other_var`.
    AddFloat,
    /// `ADD_STR`. Appends `other_var` to the string `var`. Operands: `var`, `other_var`.
    AddStr,
    /// `SUB_STR`. Replaces the string `str_var` by its part from `start_index` up to `end_index`. Operands: `str_var`, `start_index`, `end_index`.
    SubStr,
    /// `SUB_LIST`. Replaces the list `list_var` by its part from `start_index` up to `end_index`. Operands: `list_var`, `start_index`, `end_index`.
    SubList,
    /// `LIST_SIZE`. Stores in `result_var` the number of items of `list_var`. Operands: `list_var`, `result_var`.
    ListSize,
    /// `MAP_SIZE`. Stores in `result_var` the number of entries of `map_var`. Operands: `map_var`, `result_var`.
    MapSize,
    /// `STRING_SIZE`. Stores in `result_var` the number of bytes of `string_var`. Operands: `string_var`, `result_var`.
    StringSize,
    /// `WRITE`. Writes `name_var` to the stream `stream_var`. Operands: `name_var`, `stream_var`.
    Write,
    /// `READ`. Reads exactly `size_var` bytes from `stream_var` into `name_var`. Operands: `name_var`, `size_var`, `stream_var`.
    Read,
    /// `READ_ALL`. Reads `stream_var` to its end into `name_var`. Operands: `name_var`, `stream_var`.
    ReadAll,
    /// `FOR`. Calls `func` with each integer from `start_index` to `end_index`, both included. Operands: `func`, `start_index`, `end_index`.
    For,
    /// `FOR_MAP`. Calls `func` with the key and the value of each entry of `map_var`. Operands: `func`, `map_var`.
    ForMap,
    /// `FOR_LIST`. Calls `func` with each item of `list_var`. Operands: `func`, `list_var`.
    ForList,
    /// `FOR_STRING`. Calls `func` with each byte of `string_var`. Operands: `func`, `string_var`.
    ForString,
    /// `WHILE`. Calls `func` again and again, as long as it returns `true`. Operands: `func`.
    While,
    /// `OPEN_FILE_IN`. Opens the file at `path_var` for reading and stores the stream in `stream_var`. Operands: `path_var`, `stream_var`.
    OpenFileIn,
    /// `OPEN_FILE_OUT`. Opens the file at `path_var` for writing and stores the stream in `stream_var`. Operands: `path_var`, `stream_var`.
    OpenFileOut,
    /// `OPEN_TCP_CONNECTION`. Connects to `addr_var:port_var`. Operands: `addr_var`, `port_var`, `in_stream`, `out_stream`.
    OpenTcpConnection,
    /// `OPEN_TCP_LISTENER`. Waits for connections on `addr_var:port_var`. Operands: `addr_var`, `port_var`, `accept_func`.
    OpenTcpListener,
    /// `SLEEP`. Waits for the number of milliseconds in `time_var`. Operands: `time_var`.
    Sleep,
    /// `NEW_THREAD`. Calls `func` in a task of its own. Operands: `func`.
    NewThread,
    /// `USE_FUNC`. Calls `func_name` with the given arguments and stores its result in `result_var`. Operands: `func_name`, `result_var`, then the arguments.
    UseFunc,
    /// `FUNC`. Opens the declaration of a function; the instructions up to `FUNC_END` are its body. Operands: `result_type`, `func_name`, then a name and a type for each parameter.
    Func,
    /// `FUNC_END`. Closes the declaration of a function.
    FuncEnd,
    /// `RETURN`. Leaves the running function; at the top level, ends the script.
    Return,
    /// `EQUALS`. Stores in `result_var` whether `var` equals `other_var`. Operands: `var`, `other_var`, `result_var`.
    Equals,
    /// `MORE`. Stores in `result_var` whether `var` is greater than `other_var`. Operands: `var`, `other_var`, `result_var`.
    More,
    /// `LESS`. Stores in `result_var` whether `var` is less than `other_var`. Operands: `var`, `other_var`, `result_var`.
    Less,
    /// `AND`. Stores in `result_var` whether `var` and `other_var` are both true. Operands: `var`, `other_var`, `result_var`.
    And,
    /// `OR`. Stores in `result_var` whether `var` or `other_var` is true. Operands: `var`, `other_var`, `result_var`.
    Or,
    /// `NOT`. Stores in `result_var` the negation of `var`. Operands: `var`, `result_var`.
    Not,
    /// `IF`. Calls `func` if `bool_var` is true. Operands: `bool_var`, `func`.
    If,
    /// `HAS_STR`. Stores in `result_var` whether the string `string_var` contains `substring`. Operands: `string_var`, `substring`, `result_var`.
    HasStr,
    /// `HAS_ITEM`. Stores in `result_var` whether the list `list_var` holds `item_var`. Operands: `list_var`, `item_var`, `result_var`.
    HasItem,
    /// `HAS_ENTRY`. Stores in `result_var` whether `map_var` maps `key_var` to `value_var`. Operands: `map_var`, `key_var`, `value_var`, `result_var`.
    HasEntry,
    /// `HAS_KEY`. Stores in `result_var` whether `map_var` has the key `key_var`. Operands: `map_var`, `key_var`, `result_var`.
    HasKey,
    /// `HAS_VALUE`. Stores in `result_var` whether `map_var` has the value `value_var`. Operands: `map_var`, `value_var`, `result_var`.
    HasValue,
    /// `HAS_OPTIONAL`. Stores in `result_var` whether `optional_var` holds a value. Operands: `optional_var`, `result_var`.
    HasOptional,
    /// `UNPACK_OPTIONAL`. Stores in `result_var` the value that `optional_var` holds. Operands: `optional_var`, `result_var`.
    UnpackOptional,
    /// `PACK_OPTIONAL`. Stores in `result_var` an optional that holds `var`. Operands: `var`, `result_var`.
    PackOptional,
    /// `NONE_OPTIONAL`. Empties the optional `var`. Operands: `var`.
    NoneOptional,
    /// `IMPORT_TEXT`. Brings in the script that the string `script_text_var` holds. Operands: `script_text_var`.
    ImportText,
    /// `IMPORT`. Brings in the script at the path `script_path`. Operands: `script_path`.
    Import,
    /// `RANDOM`. Stores in `result_var` a random integer from `min_var` to `max_var`, both included. Operands: `min_var`, `max_var`, `result_var`.
    Random,
}

/// The kind that a tag names.
pub open spec fn command_of(s: Seq<char>) -> Option<CommandType> {
    if s == "INIT_VAR"@ {
        Some(CommandType::InitVar)
    } else if s == "SET_VAR"@ {
        Some(CommandType::SetVar)
    } else if s == "TEMP_VAR"@ {
        Some(CommandType::TempVar)
    } else if s == "MOVE_VAR"@ {
        Some(CommandType::MoveVar)
    } else if s == "COPY_VAR"@ {
        Some(CommandType::CopyVar)
    } else if s == "DROP_VAR"@ {
        Some(CommandType::DropVar)
    } else if s == "HAS_VAR"@ {
        Some(CommandType::HasVar)
    } else if s == "TO_STRING"@ {
        Some(CommandType::ToString)
    } else if s == "TO_CHARS"@ {
        Some(CommandType::ToChars)
    } else if s == "TO_INTEGER"@ {
        Some(CommandType::ToInteger)
    } else if s == "TO_FLOAT"@ {
        Some(CommandType::ToFloat)
    } else if s == "TO_CHAR"@ {
        Some(CommandType::ToChar)
    } else if s == "TO_BOOL"@ {
        Some(CommandType::ToBool)
    } else if s == "GET_SYMBOL"@ {
        Some(CommandType::GetSymbol)
    } else if s == "GET_ITEM"@ {
        Some(CommandType::GetItem)
    } else if s == "GET_VALUE"@ {
        Some(CommandType::GetValue)
    } else if s == "ADD_INT"@ {
        Some(CommandType::AddInt)
    } else if s == "ADD_FLOAT"@ {
        Some(CommandType::AddFloat)
    } else if s == "ADD_STR"@ {
        Some(CommandType::AddStr)
    } else if s == "SUB_STR"@ {
        Some(CommandType::SubStr)
    } else if s == "SUB_LIST"@ {
        Some(CommandType::SubList)
    } else if s == "LIST_SIZE"@ {
        Some(CommandType::ListSize)
    } else if s == "MAP_SIZE"@ {
        Some(CommandType::MapSize)
    } else if s == "STRING_SIZE"@ {
        Some(CommandType::StringSize)
    } else if s == "WRITE"@ {
        Some(CommandType::Write)
    } else if s == "READ"@ {
        Some(CommandType::Read)
    } else if s == "READ_ALL"@ {
        Some(CommandType::ReadAll)
    } else if s == "FOR"@ {
        Some(CommandType::For)
    } else if s == "FOR_MAP"@ {
        Some(CommandType::ForMap)
    } else if s == "FOR_LIST"@ {
        Some(CommandType::ForList)
    } else if s == "FOR_STRING"@ {
        Some(CommandType::ForString)
    } else if s == "WHILE"@ {
        Some(CommandType::While)
    } else if s == "OPEN_FILE_IN"@ {
        Some(CommandType::OpenFileIn)
    } else if s == "OPEN_FILE_OUT"@ {
        Some(CommandType::OpenFileOut)
    } else if s == "OPEN_TCP_CONNECTION"@ {
        Some(CommandType::OpenTcpConnection)
    } else if s == "OPEN_TCP_LISTENER"@ {
        Some(CommandType::OpenTcpListener)
    } else if s == "SLEEP"@ {
        Some(CommandType::Sleep)
    } else if s == "NEW_THREAD"@ {
        Some(CommandType::NewThread)
    } else if s == "USE_FUNC"@ {
        Some(CommandType::UseFunc)
    } else if s == "FUNC"@ {
        Some(CommandType::Func)
    } else if s == "FUNC_END"@ {
        Some(CommandType::FuncEnd)
    } else if s == "RETURN"@ {
        Some(CommandType::Return)
    } else if s == "EQUALS"@ {
        Some(CommandType::Equals)
    } else if s == "MORE"@ {
        Some(CommandType::More)
    } else if s == "LESS"@ {
        Some(CommandType::Less)
    } else if s == "AND"@ {
        Some(CommandType::And)
    } else if s == "OR"@ {
        Some(CommandType::Or)
    } else if s == "NOT"@ {
        Some(CommandType::Not)
    } else if s == "IF"@ {
        Some(CommandType::If)
    } else if s == "HAS_STR"@ {
        Some(CommandType::HasStr)
    } else if s == "HAS_ITEM"@ {
        Some(CommandType::HasItem)
    } else if s == "HAS_ENTRY"@ {
        Some(CommandType::HasEntry)
    } else if s == "HAS_KEY"@ {
        Some(CommandType::HasKey)
    } else if s == "HAS_VALUE"@ {
        Some(CommandType::HasValue)
    } else if s == "HAS_OPTIONAL"@ {
        Some(CommandType::HasOptional)
    } else if s == "UNPACK_OPTIONAL"@ {
        Some(CommandType::UnpackOptional)
    } else if s == "PACK_OPTIONAL"@ {
        Some(CommandType::PackOptional)
    } else if s == "NONE_OPTIONAL"@ {
        Some(CommandType::NoneOptional)
    } else if s == "IMPORT_TEXT"@ {
        Some(CommandType::ImportText)
    } else if s == "IMPORT"@ {
        Some(CommandType::Import)
    } else if s == "RANDOM"@ {
        Some(CommandType::Random)
    } else {
        None
    }
}

impl CommandType {
    /// The kind that the tag `name` names; `CommandUnknownError` when it
    /// names none.
    pub fn from_name(name: &str) -> (r: Result<CommandType, ScriptError>)
        ensures
            r == match command_of(name@) {
                Some(t) => Ok::<CommandType, ScriptError>(t),
                None => Err::<CommandType, ScriptError>(ScriptError::CommandUnknownError),
            },
    {
        if name.eq("INIT_VAR") {
            Ok(CommandType::InitVar)
        } else if name.eq("SET_VAR") {
            Ok(CommandType::SetVar)
        } else if name.eq("TEMP_VAR") {
            Ok(CommandType::TempVar)
        } else if name.eq("MOVE_VAR") {
            Ok(CommandType::MoveVar)
        } else if name.eq("COPY_VAR") {
            Ok(CommandType::CopyVar)
        } else if name.eq("DROP_VAR") {
            Ok(CommandType::DropVar)
        } else if name.eq("HAS_VAR") {
            Ok(CommandType::HasVar)
        } else if name.eq("TO_STRING") {
            Ok(CommandType::ToString)
        } else if name.eq("TO_CHARS") {
            Ok(CommandType::ToChars)
        } else if name.eq("TO_INTEGER") {
            Ok(CommandType::ToInteger)
        } else if name.eq("TO_FLOAT") {
            Ok(CommandType::ToFloat)
        } else if name.eq("TO_CHAR") {
            Ok(CommandType::ToChar)
        } else if name.eq("TO_BOOL") {
            Ok(CommandType::ToBool)
        } else if name.eq("GET_SYMBOL") {
            Ok(CommandType::GetSymbol)
        } else if name.eq("GET_ITEM") {
            Ok(CommandType::GetItem)
        } else if name.eq("GET_VALUE") {
            Ok(CommandType::GetValue)
        } else if name.eq("ADD_INT") {
            Ok(CommandType::AddInt)
        } else if name.eq("ADD_FLOAT") {
            Ok(CommandType::AddFloat)
        } else if name.eq("ADD_STR") {
            Ok(CommandType::AddStr)
        } else if name.eq("SUB_STR") {
            Ok(CommandType::SubStr)
        } else if name.eq("SUB_LIST") {
            Ok(CommandType::SubList)
        } else if name.eq("LIST_SIZE") {
            Ok(CommandType::ListSize)
        } else if name.eq("MAP_SIZE") {
            Ok(CommandType::MapSize)
        } else if name.eq("STRING_SIZE") {
            Ok(CommandType::StringSize)
        } else if name.eq("WRITE") {
            Ok(CommandType::Write)
        } else if name.eq("READ") {
            Ok(CommandType::Read)
        } else if name.eq("READ_ALL") {
            Ok(CommandType::ReadAll)
        } else if name.eq("FOR") {
            Ok(CommandType::For)
        } else if name.eq("FOR_MAP") {
            Ok(CommandType::ForMap)
        } else if name.eq("FOR_LIST") {
            Ok(CommandType::ForList)
        } else if name.eq("FOR_STRING") {
            Ok(CommandType::ForString)
        } else if name.eq("WHILE") {
            Ok(CommandType::While)
        } else if name.eq("OPEN_FILE_IN") {
            Ok(CommandType::OpenFileIn)
        } else if name.eq("OPEN_FILE_OUT") {
            Ok(CommandType::OpenFileOut)
        } else if name.eq("OPEN_TCP_CONNECTION") {
            Ok(CommandType::OpenTcpConnection)
        } else if name.eq("OPEN_TCP_LISTENER") {
            Ok(CommandType::OpenTcpListener)
        } else if name.eq("SLEEP") {
            Ok(CommandType::Sleep)
        } else if name.eq("NEW_THREAD") {
            Ok(CommandType::NewThread)
        } else if name.eq("USE_FUNC") {
            Ok(CommandType::UseFunc)
        } else if name.eq("FUNC") {
            Ok(CommandType::Func)
        } else if name.eq("FUNC_END") {
            Ok(CommandType::FuncEnd)
        } else if name.eq("RETURN") {
            Ok(CommandType::Return)
        } else if name.eq("EQUALS") {
            Ok(CommandType::Equals)
        } else if name.eq("MORE") {
            Ok(CommandType::More)
        } else if name.eq("LESS") {
            Ok(CommandType::Less)
        } else if name.eq("AND") {
            Ok(CommandType::And)
        } else if name.eq("OR") {
            Ok(CommandType::Or)
        } else if name.eq("NOT") {
            Ok(CommandType::Not)
        } else if name.eq("IF") {
            Ok(CommandType::If)
        } else if name.eq("HAS_STR") {
            Ok(CommandType::HasStr)
        } else if name.eq("HAS_ITEM") {
            Ok(CommandType::HasItem)
        } else if name.eq("HAS_ENTRY") {
            Ok(CommandType::HasEntry)
        } else if name.eq("HAS_KEY") {
            Ok(CommandType::HasKey)
        } else if name.eq("HAS_VALUE") {
            Ok(CommandType::HasValue)
        } else if name.eq("HAS_OPTIONAL") {
            Ok(CommandType::HasOptional)
        } else if name.eq("UNPACK_OPTIONAL") {
            Ok(CommandType::UnpackOptional)
        } else if name.eq("PACK_OPTIONAL") {
            Ok(CommandType::PackOptional)
        } else if name.eq("NONE_OPTIONAL") {
            Ok(CommandType::NoneOptional)
        } else if name.eq("IMPORT_TEXT") {
            Ok(CommandType::ImportText)
        } else if name.eq("IMPORT") {
            Ok(CommandType::Import)
        } else if name.eq("RANDOM") {
            Ok(CommandType::Random)
        } else {
            Err(ScriptError::CommandUnknownError)
        }
    }
}

} // verus!
