//! The record a symbol table maps a name to. The table itself belongs to
//! the downstream interpreter, which consumes operator records at runtime.

use vstd::prelude::*;

verus! {

/// One named entity of the interpreter's symbol table.
#[derive(Debug, PartialEq, Eq)]
pub struct SymbolRecord {
    name: String,
}

impl SymbolRecord {
    /// The record's name.
    pub closed spec fn spec_name(&self) -> Seq<char> {
        self.name@
    }

    pub fn new(name: String) -> (r: SymbolRecord)
        ensures
            r.spec_name() == name@,
    {
        SymbolRecord { name }
    }

    pub fn name(&self) -> (r: &String)
        ensures
            r@ == self.spec_name(),
    {
        &self.name
    }
}

} // verus!
