use vstd::prelude::*;

verus! {

/// Prints expressions in a parenthesised prefix form, for debugging the
/// parser.
pub struct AstPrinter {}

impl AstPrinter {
    pub fn new() -> (r: AstPrinter) {
        AstPrinter {  }
    }
}

} // verus!
