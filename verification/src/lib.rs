use vstd::prelude::*;

pub mod text;
pub mod assoc;
pub mod value;
pub mod ast;
pub mod heap;
pub mod errors;
pub mod ops;
pub mod state;
pub mod interp;
pub mod methods;
pub mod eval;
pub mod laws;
pub mod imports;

verus! {

} // verus!
