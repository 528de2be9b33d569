//! Bot modules shipped with the framework.

pub mod default;
pub mod quote;
pub mod test;

use vstd::prelude::*;
use crate::framework::modl_sys::Module;

verus! {

/// All the bot modules that this library provides and runs by default: the default module and
/// the test module, in that order.
pub fn all() -> (r: Vec<Module>)
    ensures
        r@.len() == 2,
        r@[0].name_view() == "default"@,
        r@[1].name_view() == "test"@,
{
    let mut v: Vec<Module> = Vec::new();
    v.push(default::mk());
    v.push(test::mk());
    v
}

} // verus!
