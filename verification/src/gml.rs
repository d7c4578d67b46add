//! Data model of the scripting language's compiled form.
//!
//! The executor itself is an external collaborator; this module holds the
//! expression-tree and instruction entities it exchanges with the engine,
//! the error type its failures propagate as, and the event code the draw
//! pass dispatches with.

use vstd::prelude::*;
use crate::math::Real;

verus! {

/// Event code for the scripted DRAW event, agreed with the executor.
pub const EV_DRAW: u32 = 8;

/// A value the scripting language computes with: a scalar or a string.
pub enum Value {
    Real(Real),
    Str(String),
}

/// Identifier of an instance-scoped variable known to the executor.
pub struct InstanceVariable(pub u32);

/// Identifier of a game-scoped variable known to the executor.
pub struct GameVariable(pub u32);

/// One statement of a compiled script.
pub enum Instruction {
    SetField { accessor: FieldAccessor, value: Node },
    SetVariable { accessor: VariableAccessor, value: Node },
    SetGameVariable { accessor: GameVariableAccessor, value: Node },
    RuntimeError { error: String },
}

/// Node representing one value in an expression. Functions and operators
/// are named by their index in the executor's dispatch table; a parent
/// node uniquely owns its children.
pub enum Node {
    Literal { value: Value },
    Function { args: Vec<Node>, function: usize },
    Script { args: Vec<Node>, script_id: usize },
    Field { accessor: FieldAccessor },
    Variable { accessor: VariableAccessor },
    GameVariable { accessor: GameVariableAccessor },
    Binary { left: Box<Node>, right: Box<Node>, operator: usize },
    Unary { child: Box<Node>, operator: usize },
    RuntimeError { error: String },
}

/// Represents an owned field which can either be read or set.
pub struct FieldAccessor {
    pub index: usize,
    pub array: ArrayAccessor,
    pub owner: VarOwner,
}

/// Represents an instance variable which can either be read or set.
pub struct VariableAccessor {
    pub var: InstanceVariable,
    pub array: ArrayAccessor,
    pub owner: VarOwner,
}

/// Represents a game variable which can either be read or set.
pub struct GameVariableAccessor {
    pub var: GameVariable,
    pub array: ArrayAccessor,
    pub owner: VarOwner,
}

/// Represents an array accessor, which can be either 1D or 2D.
/// Variables with 0D arrays, and ones with no array accessor,
/// implicitly refer to the first slot; anything beyond two dimensions
/// is a runtime error.
pub enum ArrayAccessor {
    Direct,
    Single(Box<Node>),
    Double(Box<Node>, Box<Node>),
}

/// Represents the owner of a field or variable. An owner known at
/// compile time is stored directly; otherwise it is an expression
/// evaluated at runtime.
pub enum VarOwner {
    Own,
    Other,
    Global,
    Local,
    Expression(Box<Node>),
}

/// An error propagated out of the executor; it aborts the current
/// frame's draw pass.
pub struct Error {
    pub reason: String,
}

} // verus!
