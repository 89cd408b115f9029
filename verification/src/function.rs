//! The built-in functions.

use crate::strings::same;
use vstd::prelude::*;

verus! {

/// The number of arguments that the built-in function of the given name
/// takes; `None` where there is no such function.
pub open spec fn arity_of(name: Seq<char>) -> Option<usize> {
    if name == "arch"@ || name == "os"@ || name == "os_family"@ || name
        == "invocation_directory"@ {
        Some(0usize)
    } else if name == "env_var"@ {
        Some(1usize)
    } else if name == "env_var_or_default"@ {
        Some(2usize)
    } else {
        None
    }
}

/// Looks a built-in function up by its name.
pub fn arity(name: &str) -> (r: Option<usize>)
    ensures
        r == arity_of(name@),
{
    if same(name, "arch") || same(name, "os") || same(name, "os_family") || same(
        name,
        "invocation_directory",
    ) {
        Some(0)
    } else if same(name, "env_var") {
        Some(1)
    } else if same(name, "env_var_or_default") {
        Some(2)
    } else {
        None
    }
}

} // verus!
