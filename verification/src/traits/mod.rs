//! Public traits.

pub mod evaluate;
pub mod function;

pub use evaluate::Evaluate;
pub use function::Function;
