//! Path scoping, tag implication closure and cascading store mutations of a
//! file tagging system, with every rule stated as a contract and proved.

pub mod cli;
pub mod delete;
pub mod entities;
pub mod errors;
pub mod implied;
pub mod lexical;
pub mod order;
pub mod path;
pub mod rename;
pub mod storage;
pub mod tags;
