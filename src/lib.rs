//! Entry classification policies and the component-props destructuring pass
//! of the optimizer core.

pub mod ast;
pub mod collector;
pub mod entry_strategy;
pub mod props_destructuring;

use vstd::prelude::*;

verus! {

} // verus!

