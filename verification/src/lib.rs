//! A runtime for a small line-oriented scripting language: typed values, a
//! two-tier variable store addressed by dotted paths, an instruction
//! dispatcher and a stepwise function runner.
//!
//! The engine never performs input or output itself. Whenever an instruction
//! needs the outside world, a step hands an [`Action`] to the host and resumes
//! with the [`Event`] that the host reports back.

pub mod action;
pub mod command;
pub mod command_type;
pub mod engine;
pub mod equality;
pub mod error;
pub mod float;
pub mod function;
pub mod laws;
pub mod ops;
pub mod other;
pub mod path;
pub mod running_script;
pub mod script;
pub mod stream;
pub mod task;
pub mod text;
pub mod var_type;
pub mod variable;
pub mod well_formed;

pub use action::{Action, Event, Loop, Outcome, Pending, SleepTime};
pub use command::Command;
pub use command_type::CommandType;
pub use error::ScriptError;
pub use float::FloatValue;
pub use function::{Frame, Function};
pub use ops::{Number, Request};
pub use other::Pohuy;
pub use running_script::RunningScript;
pub use script::Script;
pub use task::Task;
pub use stream::{FileInStream, FileOutStream};
pub use var_type::VarType;
pub use variable::{Value, Variable};
