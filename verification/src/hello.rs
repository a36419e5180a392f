//! The greeting node used to check that the extension is loaded.
use vstd::prelude::*;
use vstd::string::*;

verus! {

/// A node that greets whoever calls it.
pub struct HelloNode {
    pub greeting: String,
}

impl HelloNode {
    /// A node with the default greeting, "Hello from Rust!".
    pub fn new() -> (h: HelloNode)
        ensures
            h.greeting@ == "Hello from Rust!"@,
    {
        HelloNode { greeting: String::from_str("Hello from Rust!") }
    }

    /// The full greeting for `name`: the node's greeting, then " Nice to meet you, ",
    /// the name and a full stop.
    pub fn greet(&self, name: &str) -> (r: String)
        ensures
            r@ == self.greeting@ + " Nice to meet you, "@ + name@ + "."@,
    {
        let mut r = self.greeting.clone();
        r.append(" Nice to meet you, ");
        r.append(name);
        r.append(".");
        r
    }
}

} // verus!
