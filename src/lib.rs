//! Reading scripture text: range expressions for chapters and verses, the
//! filters and parameterised queries they compile to, and the planning of
//! each command from its raw arguments.

pub mod token;
pub mod range;
pub mod query;
pub mod command;
