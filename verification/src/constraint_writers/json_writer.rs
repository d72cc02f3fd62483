//! The constraints bound for the JSON debug file, in the order in which they
//! are written. Framing them as JSON and writing the file is left to the
//! caller.
use crate::strings::strings_view;
use vstd::prelude::*;

verus! {

/// The constraints written so far for the JSON file `file`.
pub struct ConstraintJSON {
    pub file: String,
    pub constraints: Vec<String>,
}

impl ConstraintJSON {
    /// No constraint yet, for `file`.
    pub fn new(file: &str) -> (res: ConstraintJSON)
        ensures
            res.file@ == file@,
            res.constraints@ == Seq::<String>::empty(),
    {
        ConstraintJSON { file: String::from_str(file), constraints: Vec::new() }
    }

    /// Records one more constraint.
    pub fn write_constraint(&mut self, constraint: &str)
        ensures
            final(self).file == old(self).file,
            strings_view(final(self).constraints@) == strings_view(old(self).constraints@).push(
                constraint@,
            ),
    {
        self.constraints.push(String::from_str(constraint));
        assert(strings_view(self.constraints@) =~= strings_view(old(self).constraints@).push(
            constraint@,
        ));
    }
}

} // verus!
