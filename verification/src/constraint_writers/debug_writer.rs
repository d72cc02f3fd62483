//! The paths of the debug files into which constraints are ported.
use crate::constraint_writers::json_writer::ConstraintJSON;
use crate::constraint_writers::maple_writer::ConstraintMaple;
use vstd::prelude::*;

verus! {

/// The paths of the JSON and of the Maple debug files.
#[derive(Clone)]
pub struct DebugWriter {
    pub json_constraints: String,
    pub maple_constraints: String,
}

impl DebugWriter {
    /// A writer for the JSON file `c` and the Maple file `c1`; never fails.
    pub fn new(c: String, c1: String) -> (res: Result<DebugWriter, ()>)
        ensures
            res matches Ok(w) && w.json_constraints == c && w.maple_constraints == c1,
    {
        Result::Ok(DebugWriter { json_constraints: c, maple_constraints: c1 })
    }

    /// An empty list of constraints bound for the JSON file.
    pub fn build_constraints_file(&self) -> (res: ConstraintJSON)
        ensures
            res.file@ == self.json_constraints@,
            res.constraints@ == Seq::<String>::empty(),
    {
        ConstraintJSON::new(self.json_constraints.as_str())
    }

    /// An empty Maple listing bound for the Maple file.
    pub fn build_maple_constraints_file(&self) -> (res: ConstraintMaple)
        ensures
            res.file@ == self.maple_constraints@,
            res.contents@ == Seq::<char>::empty(),
    {
        ConstraintMaple::new(self.maple_constraints.as_str())
    }
}

} // verus!
