//! The Maple listing of constraints: one `Poly:` line per constraint, then
//! an `End:` line. The listing is built here; writing it to its file is
//! left to the caller.
use vstd::prelude::*;

verus! {

/// The lines of a Maple listing for the given constraint texts, without
/// the closing line.
pub open spec fn maple_lines(lines: Seq<Seq<char>>) -> Seq<char>
    decreases lines.len(),
{
    if lines.len() == 0 {
        Seq::empty()
    } else {
        maple_lines(lines.drop_last()) + "Poly: "@ + lines.last() + "\n"@
    }
}

/// A Maple listing under construction: the file it is meant for and the
/// text written so far.
pub struct ConstraintMaple {
    pub file: String,
    pub contents: String,
}

impl ConstraintMaple {
    /// An empty listing meant for `file`.
    pub fn new(file: &str) -> (res: ConstraintMaple)
        ensures
            res.file@ == file@,
            res.contents@ == Seq::<char>::empty(),
    {
        ConstraintMaple { file: String::from_str(file), contents: String::new() }
    }

    /// Appends the line `Poly: <constraint>`.
    pub fn write_constraint(&mut self, constraint: &str)
        ensures
            final(self).file == old(self).file,
            final(self).contents@ == old(self).contents@ + "Poly: "@ + constraint@ + "\n"@,
    {
        self.contents.append("Poly: ");
        self.contents.append(constraint);
        self.contents.append("\n");
    }

    /// Closes the listing with the line `End:`.
    pub fn end(self) -> (res: ConstraintMaple)
        ensures
            res.file == self.file,
            res.contents@ == self.contents@ + "End:\n"@,
    {
        let mut res = self;
        res.contents.append("End:\n");
        res
    }
}

} // verus!
