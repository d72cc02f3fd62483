//! Porting the constraints of a constraint list to the Maple debug file.
use crate::algebra::{
    combination_string, constraint_string, ordered_entries, renamed_constraint_string,
    term_string, terms_entries, terms_string, Constraint, LinearCombination, SignalMap,
};
use crate::constraint_writers::debug_writer::DebugWriter;
use crate::constraint_writers::maple_writer::{maple_lines, ConstraintMaple};
use crate::decimal::usize_to_decimal;
use vstd::prelude::*;

verus! {

/// The constraints of a constraint list, in the order of their ids.
pub struct ConstraintStorage {
    pub constraints: Vec<Constraint>,
}

impl ConstraintStorage {
    /// Well-formed: every constraint is.
    pub open spec fn wf(&self) -> bool {
        forall|i: int| 0 <= i < self.constraints.len() ==> #[trigger] self.constraints@[i].wf()
    }
}

/// The texts of the constraints `cs`, each renamed under `map`.
pub open spec fn ported_strings(cs: Seq<Constraint>, map: Map<usize, usize>) -> Seq<Seq<char>> {
    cs.map_values(|c: Constraint| renamed_constraint_string(c, map))
}

/// The text of a constraint: `(A) * (B) + C`, with the parts left out as
/// `constraint_string` says.
pub fn transform_constraint_to_string(constraint: &Constraint) -> (res: String)
    requires
        constraint.wf(),
    ensures
        res@ == constraint_string(constraint.a@, constraint.b@, constraint.c@),
{
    let mut result;
    if !constraint.a.is_empty() || !constraint.b.is_empty() {
        result = String::from_str("(");
        let a = hashmap_as_string(&constraint.a);
        result.append(a.as_str());
        result.append(") * (");
        let b = hashmap_as_string(&constraint.b);
        result.append(b.as_str());
        result.append(")");
        if !constraint.c.is_empty() {
            result.append(" + ");
            let c = hashmap_as_string(&constraint.c);
            result.append(c.as_str());
        }
    } else {
        result = hashmap_as_string(&constraint.c);
    }
    result
}

fn hashmap_as_string(values: &LinearCombination) -> (res: String)
    requires
        values.wf(),
    ensures
        res@ == combination_string(values@),
{
    let order = values.sorted_terms();
    let ghost s = ordered_entries(values@);
    let mut result = String::new();
    let mut is_first = true;
    let n = order.len();
    for i in 0..n
        invariant
            n == order.len(),
            terms_entries(order@) == s,
            is_first == (i == 0),
            result@ == terms_string(s.take(i as int)),
    {
        let key = order[i].0;
        let value = order[i].1.to_decimal();
        let ghost prev = result@;
        if !is_first {
            result.append(" + ");
        } else {
            is_first = false;
        }
        if key == 0 {
            result.append(" ");
            result.append(value.as_str());
        } else {
            result.append(" ");
            result.append(value.as_str());
            result.append(" * s_");
            let k = usize_to_decimal(key);
            result.append(k.as_str());
        }
        proof {
            let t = s.take(i + 1);
            assert(t.drop_last() =~= s.take(i as int));
            assert(t.last() == s[i as int]);
            assert(s[i as int] == (key, order@[i as int].1@));
            if i == 0 {
                assert(t.len() == 1);
            }
            assert(result@ == terms_string(t)) by {
                if i == 0 {
                    assert(prev == Seq::<char>::empty());
                    assert(result@ =~= term_string(key, order@[i as int].1@));
                } else {
                    assert(result@ =~= prev + " + "@ + term_string(key, order@[i as int].1@));
                }
            }
        }
    }
    assert(s.take(n as int) =~= s);
    result
}

/// Ports the constraints of `storage`, each renamed under `map`, to the
/// Maple listing bound for the Maple file of `debug`: one `Poly:` line per
/// constraint in the order of their ids, then `End:`.
pub fn port_constraints(storage: &ConstraintStorage, map: &SignalMap, debug: &DebugWriter) -> (res:
    ConstraintMaple)
    requires
        storage.wf(),
    ensures
        res.file@ == debug.maple_constraints@,
        res.contents@ == maple_lines(ported_strings(storage.constraints@, map@)) + "End:\n"@,
{
    let mut writer = debug.build_maple_constraints_file();
    let n = storage.constraints.len();
    let ghost cs = storage.constraints@;
    for c_id in 0..n
        invariant
            n == storage.constraints.len(),
            cs == storage.constraints@,
            storage.wf(),
            writer.file@ == debug.maple_constraints@,
            writer.contents@ == maple_lines(ported_strings(cs.take(c_id as int), map@)),
    {
        let constraint = &storage.constraints[c_id];
        assert(cs[c_id as int].wf());
        let constraint = Constraint::apply_correspondence(constraint, map);
        let string_value = transform_constraint_to_string(&constraint);
        writer.write_constraint(string_value.as_str());
        proof {
            let p = ported_strings(cs.take(c_id + 1), map@);
            assert(p.drop_last() =~= ported_strings(cs.take(c_id as int), map@));
            assert(p.last() == renamed_constraint_string(cs[c_id as int], map@));
        }
    }
    assert(cs.take(n as int) =~= cs);
    writer.end()
}

} // verus!
