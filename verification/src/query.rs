//! The already-validated selection set the engine consumes: fields with
//! positions, arguments resolved to values, and nested selections.

use vstd::prelude::*;
use crate::Pos;
use crate::value::Value;

verus! {

/// One requested field: its name, its arguments (with variables already
/// substituted by the caller), its position in the query text, and the
/// nested selection for composite return types.
pub struct SelectionField {
    pub name: String,
    pub arguments: Vec<(String, Value)>,
    pub pos: Pos,
    pub selection_set: SelectionSet,
}

/// The ordered fields requested against one value.
pub struct SelectionSet {
    pub items: Vec<SelectionField>,
}

/// The first argument with the given name.
pub open spec fn spec_argument(args: Seq<(String, Value)>, name: Seq<char>) -> Option<Value>
    decreases args,
{
    if args.len() == 0 {
        None
    } else if args[0].0@ == name {
        Some(args[0].1)
    } else {
        spec_argument(args.skip(1), name)
    }
}

impl SelectionField {
    /// Look an argument up by name.
    pub fn argument<'a>(&'a self, name: &String) -> (r: Option<&'a Value>)
        ensures
            match r {
                Some(v) => spec_argument(self.arguments@, name@) == Some(*v),
                None => spec_argument(self.arguments@, name@) is None,
            },
    {
        let n = self.arguments.len();
        let mut i: usize = 0;
        proof {
            assert(self.arguments@.skip(0) =~= self.arguments@);
        }
        while i < n
            invariant
                n == self.arguments@.len(),
                i <= n,
                spec_argument(self.arguments@, name@)
                    == spec_argument(self.arguments@.skip(i as int), name@),
            decreases n - i,
        {
            proof {
                assert(self.arguments@.skip(i as int)[0] == self.arguments@[i as int]);
                assert(self.arguments@.skip(i as int).skip(1)
                    =~= self.arguments@.skip(i as int + 1));
            }
            if self.arguments[i].0 == *name {
                return Some(&self.arguments[i].1);
            }
            i = i + 1;
        }
        proof {
            assert(self.arguments@.skip(n as int).len() == 0);
        }
        None
    }
}

} // verus!
