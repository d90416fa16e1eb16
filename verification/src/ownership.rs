//! Types for the ownership walkthrough.

use vstd::prelude::*;

verus! {

/// A composer with a name and a year of birth.
pub struct Person {
    pub name: String,
    pub birth: i32,
}

} // verus!
