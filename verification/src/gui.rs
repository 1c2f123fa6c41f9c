//! The greeting the desktop window asks for.
use vstd::prelude::*;
use vstd::string::*;

use crate::text::{contains, contains_seq};

verus! {

/// Greets `name`, which must not contain a space: `Hello, <name>!`.
pub fn hello(name: &str) -> (r: Result<String, String>)
    ensures
        contains_seq(name@, " "@) ==> (r matches Err(message) && message@
            == "Name should not contains white-space"@),
        !contains_seq(name@, " "@) ==> (r matches Ok(greeting) && greeting@ == "Hello, "@ + name@
            + "!"@),
{
    if contains(name, " ") {
        Err("Name should not contains white-space".to_owned())
    } else {
        let mut greeting = "Hello, ".to_owned();
        greeting.append(name);
        greeting.append("!");
        Ok(greeting)
    }
}

} // verus!
