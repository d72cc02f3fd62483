use circom_core::algebra::{Coefficient, Constraint, LinearCombination, SignalMap};
use circom_core::constraint_list::{port_constraints, transform_constraint_to_string, ConstraintStorage};
use circom_core::constraint_writers::debug_writer::DebugWriter;
use circom_core::constraint_writers::json_writer::ConstraintJSON;
use circom_core::constraint_writers::maple_writer::ConstraintMaple;
use circom_core::dag::Tree;
use circom_core::decimal::usize_to_decimal;

fn coef(v: i64) -> Coefficient {
    let negative = v < 0;
    let m = v.unsigned_abs();
    let mut magnitude = Vec::new();
    if m != 0 {
        magnitude.push((m & 0xffff_ffff) as u32);
        if m >> 32 != 0 {
            magnitude.push((m >> 32) as u32);
        }
    }
    Coefficient { negative, magnitude }
}

fn lc(terms: &[(usize, i64)]) -> LinearCombination {
    let mut res = LinearCombination::new();
    for (k, v) in terms {
        res.insert(*k, coef(*v));
    }
    res
}

fn constraint(a: &[(usize, i64)], b: &[(usize, i64)], c: &[(usize, i64)]) -> Constraint {
    Constraint::new(lc(a), lc(b), lc(c))
}

fn debug() -> DebugWriter {
    DebugWriter::new("out.json".to_string(), "out.maple".to_string()).unwrap()
}

#[test]
fn decimal_of_usize() {
    assert_eq!(usize_to_decimal(0), "0");
    assert_eq!(usize_to_decimal(7), "7");
    assert_eq!(usize_to_decimal(10), "10");
    assert_eq!(usize_to_decimal(1234567890), "1234567890");
    assert_eq!(usize_to_decimal(usize::MAX), usize::MAX.to_string());
}

#[test]
fn decimal_of_coefficients() {
    assert_eq!(coef(0).to_decimal(), "0");
    assert_eq!(coef(42).to_decimal(), "42");
    assert_eq!(coef(-42).to_decimal(), "-42");
    let big = Coefficient { negative: false, magnitude: vec![0, 1] };
    assert_eq!(big.to_decimal(), "4294967296");
    let neg_big = Coefficient { negative: true, magnitude: vec![5, 0, 1] };
    assert_eq!(neg_big.to_decimal(), "-18446744073709551621");
    let negative_zero = Coefficient { negative: true, magnitude: vec![0, 0] };
    assert_eq!(negative_zero.to_decimal(), "0");
    assert_eq!(big.duplicate().to_decimal(), "4294967296");
}

#[test]
fn combination_lists_terms_in_index_order() {
    let forward = constraint(&[], &[], &[(0, 5), (2, 3), (7, -1)]);
    let backward = constraint(&[], &[], &[(7, -1), (2, 3), (0, 5)]);
    assert_eq!(transform_constraint_to_string(&forward), " 5 +  3 * s_2 +  -1 * s_7");
    assert_eq!(transform_constraint_to_string(&backward), " 5 +  3 * s_2 +  -1 * s_7");
}

#[test]
fn insert_replaces_a_coefficient() {
    let mut c = lc(&[(3, 1), (1, 2)]);
    c.insert(3, coef(9));
    assert_eq!(c.len(), 2);
    assert!(!c.is_empty());
    let con = Constraint::new(LinearCombination::new(), LinearCombination::new(), c);
    assert_eq!(transform_constraint_to_string(&con), " 2 * s_1 +  9 * s_3");
}

#[test]
fn constraint_text_forms() {
    let ab = constraint(&[(1, 2)], &[(0, 3)], &[]);
    assert_eq!(transform_constraint_to_string(&ab), "( 2 * s_1) * ( 3)");
    let abc = constraint(&[(1, 1)], &[(2, 1)], &[(3, -1)]);
    assert_eq!(transform_constraint_to_string(&abc), "( 1 * s_1) * ( 1 * s_2) +  -1 * s_3");
    let only_a = constraint(&[(1, 4)], &[], &[(0, 1)]);
    assert_eq!(transform_constraint_to_string(&only_a), "( 4 * s_1) * () +  1");
    let empty = constraint(&[], &[], &[]);
    assert_eq!(transform_constraint_to_string(&empty), "");
    assert_eq!(circom_core::dag::transform_constraint_to_string(&abc), "( 1 * s_1) * ( 1 * s_2) +  -1 * s_3");
}

#[test]
fn correspondence_renames_signals() {
    let c = constraint(&[(1, 2)], &[(2, 3)], &[(0, 1), (3, 4)]);
    let mut map = SignalMap::new();
    map.insert(1, 10);
    map.insert(2, 5);
    map.insert(0, 0);
    let renamed = Constraint::apply_correspondence(&c, &map);
    assert_eq!(transform_constraint_to_string(&renamed), "( 2 * s_10) * ( 3 * s_5) +  1 +  4 * s_3");
}

#[test]
fn correspondence_identity_keeps_constraint() {
    let c = constraint(&[(1, 2), (4, 6)], &[(2, 3)], &[(0, 1)]);
    let mut map = SignalMap::new();
    for i in 0..5 {
        map.insert(i, i);
    }
    let renamed = Constraint::apply_correspondence(&c, &map);
    assert_eq!(transform_constraint_to_string(&renamed), transform_constraint_to_string(&c));
}

#[test]
fn correspondence_keeps_every_term_under_an_injective_map() {
    let c = constraint(&[], &[], &[(1, 2), (2, 3), (3, 4)]);
    let mut map = SignalMap::new();
    map.insert(1, 3);
    map.insert(2, 1);
    map.insert(3, 2);
    let renamed = Constraint::apply_correspondence(&c, &map);
    assert_eq!(renamed.c.len(), 3);
    assert_eq!(transform_constraint_to_string(&renamed), " 3 * s_1 +  4 * s_2 +  2 * s_3");
}

#[test]
fn maple_writer_frames_lines() {
    let mut w = ConstraintMaple::new("f.maple");
    w.write_constraint("x");
    w.write_constraint("y + z");
    let done = w.end();
    assert_eq!(done.file, "f.maple");
    assert_eq!(done.contents, "Poly: x\nPoly: y + z\nEnd:\n");
}

#[test]
fn json_writer_records_constraints() {
    let mut w = ConstraintJSON::new("f.json");
    w.write_constraint("a");
    w.write_constraint("b");
    assert_eq!(w.file, "f.json");
    assert_eq!(w.constraints, vec!["a".to_string(), "b".to_string()]);
}

#[test]
fn debug_writer_paths() {
    let d = debug();
    assert_eq!(d.json_constraints, "out.json");
    assert_eq!(d.maple_constraints, "out.maple");
    assert_eq!(d.build_constraints_file().file, "out.json");
    assert!(d.build_constraints_file().constraints.is_empty());
    assert_eq!(d.build_maple_constraints_file().file, "out.maple");
    assert_eq!(d.build_maple_constraints_file().contents, "");
}

#[test]
fn constraint_list_port_to_maple() {
    let storage = ConstraintStorage {
        constraints: vec![
            constraint(&[(1, 1)], &[(2, 1)], &[(3, -1)]),
            constraint(&[], &[], &[(0, 7), (2, 1)]),
        ],
    };
    let mut map = SignalMap::new();
    map.insert(0, 0);
    map.insert(1, 4);
    map.insert(2, 5);
    map.insert(3, 6);
    let out = port_constraints(&storage, &map, &debug());
    assert_eq!(out.file, "out.maple");
    assert_eq!(
        out.contents,
        "Poly: ( 1 * s_4) * ( 1 * s_5) +  -1 * s_6\nPoly:  7 +  1 * s_5\nEnd:\n"
    );
}

#[test]
fn constraint_list_port_of_no_constraint() {
    let storage = ConstraintStorage { constraints: vec![] };
    let out = port_constraints(&storage, &SignalMap::new(), &debug());
    assert_eq!(out.contents, "End:\n");
}

#[test]
fn dag_port_in_preorder() {
    let leaf1 = Tree { constraints: vec![constraint(&[], &[], &[(1, 1)])], subtrees: vec![] };
    let leaf2 = Tree { constraints: vec![constraint(&[], &[], &[(2, 2)])], subtrees: vec![] };
    let mid = Tree { constraints: vec![constraint(&[], &[], &[(3, 3)])], subtrees: vec![leaf2] };
    let root = Tree {
        constraints: vec![constraint(&[], &[], &[(0, 9)]), constraint(&[], &[], &[(4, 4)])],
        subtrees: vec![leaf1, mid],
    };
    let out = circom_core::dag::port_constraints(&root, &debug());
    assert_eq!(out.file, "out.json");
    assert_eq!(
        out.constraints,
        vec![
            " 9".to_string(),
            " 4 * s_4".to_string(),
            " 1 * s_1".to_string(),
            " 3 * s_3".to_string(),
            " 2 * s_2".to_string(),
        ]
    );
}
