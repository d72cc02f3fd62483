use circom_core::ast::{Access, Expression, FileLocation, LogArgument, Meta, Statement};
use circom_core::program_archive::{FunctionData, ProgramArchive, TemplateData};
use circom_core::report::{Report, ReportCode};
use circom_core::type_analysis::symbol_analysis::{analyze_symbols, check_naming_correctness};

fn meta(start: usize, end: usize) -> Meta {
    Meta { start, end, file_id: Some(3) }
}

fn var(name: &str, at: usize) -> Expression {
    Expression::Variable { meta: meta(at, at + 1), name: name.to_string(), access: vec![] }
}

fn num(at: usize) -> Expression {
    Expression::Number(meta(at, at + 1))
}

fn decl(name: &str, at: usize) -> Statement {
    Statement::Declaration { meta: meta(at, at + 1), name: name.to_string(), dimensions: vec![] }
}

fn assign(name: &str, at: usize, rhe: Expression) -> Statement {
    Statement::Substitution { meta: meta(at, at + 1), var: name.to_string(), access: vec![], rhe }
}

fn block(stmts: Vec<Statement>) -> Statement {
    Statement::Block { meta: meta(0, 0), stmts }
}

fn function(name: &str, params: &[&str], body: Vec<Statement>) -> FunctionData {
    FunctionData {
        name: name.to_string(),
        file_id: 3,
        param_location: FileLocation { start: 1, end: 2 },
        name_of_params: params.iter().map(|p| p.to_string()).collect(),
        body,
    }
}

fn template(name: &str, params: &[&str], inputs: &[&str], body: Vec<Statement>) -> TemplateData {
    TemplateData {
        name: name.to_string(),
        file_id: 3,
        param_location: FileLocation { start: 1, end: 2 },
        name_of_params: params.iter().map(|p| p.to_string()).collect(),
        body,
        inputs: inputs.iter().map(|p| p.to_string()).collect(),
    }
}

fn check(params: &[&str], body: Vec<Statement>, fs: &Vec<FunctionData>, ts: &Vec<TemplateData>) -> Vec<Report> {
    let params: Vec<String> = params.iter().map(|p| p.to_string()).collect();
    match analyze_symbols(3, FileLocation { start: 1, end: 2 }, &params, &body, fs, ts) {
        Ok(()) => vec![],
        Err(r) => {
            assert!(!r.is_empty());
            r
        }
    }
}

fn summary(r: &Report) -> (String, ReportCode, usize, usize, usize, String) {
    (r.message.clone(), r.code, r.location.start, r.location.end, r.file_id, r.label.clone())
}

fn expect(reports: &[Report], expected: &[(&str, ReportCode, usize, usize, &str)]) {
    assert_eq!(reports.len(), expected.len());
    for (r, e) in reports.iter().zip(expected.iter()) {
        assert_eq!(summary(r), (e.0.to_string(), e.1, e.2, e.3, 3, e.4.to_string()));
    }
}

#[test]
fn declared_symbols_pass() {
    let body = vec![decl("x", 5), assign("x", 6, var("p", 7))];
    let r = check(&["p"], body, &vec![], &vec![]);
    assert!(r.is_empty());
}

#[test]
fn undeclared_symbol_is_reported() {
    let body = vec![assign("x", 6, num(7))];
    let r = check(&[], body, &vec![], &vec![]);
    expect(&r, &[("Undeclared symbol", ReportCode::NonExistentSymbol, 6, 7, "Using unknown symbol")]);
}

#[test]
fn parameters_declared_twice() {
    let r = check(&["a", "b", "a"], vec![], &vec![], &vec![]);
    expect(
        &r,
        &[("Symbol declared twice", ReportCode::SameSymbolDeclaredTwice, 1, 2, "Declaring same symbol twice")],
    );
}

#[test]
fn declaration_twice_in_one_block() {
    let r = check(&["p"], vec![decl("x", 5), decl("x", 8)], &vec![], &vec![]);
    expect(
        &r,
        &[("Symbol declared twice", ReportCode::SameSymbolDeclaredTwice, 8, 9, "Declaring same symbol twice")],
    );
    let shadowing = check(&["x"], vec![block(vec![decl("x", 5)])], &vec![], &vec![]);
    assert!(shadowing.is_empty());
}

#[test]
fn block_declarations_leave_scope() {
    let body = vec![block(vec![decl("y", 5), assign("y", 6, num(7))]), assign("y", 10, num(11))];
    let r = check(&[], body, &vec![], &vec![]);
    expect(&r, &[("Undeclared symbol", ReportCode::NonExistentSymbol, 10, 11, "Using unknown symbol")]);
    let again = check(&[], vec![block(vec![decl("y", 5)]), decl("y", 20)], &vec![], &vec![]);
    assert!(again.is_empty());
}

#[test]
fn underscore_in_expression() {
    let body = vec![decl("x", 1), assign("x", 2, var("_", 4))];
    let r = check(&[], body, &vec![], &vec![]);
    expect(&r, &[("Underscore", ReportCode::InvalidUnderscore, 4, 5, "This underscore cannot be used here.")]);
}

#[test]
fn underscore_inside_an_index() {
    let indexed = Expression::Variable {
        meta: meta(4, 9),
        name: "a".to_string(),
        access: vec![Access::ArrayAccess(var("_", 6)), Access::ComponentAccess("out".to_string())],
    };
    let body = vec![decl("a", 1), decl("x", 2), assign("x", 3, indexed)];
    let r = check(&[], body, &vec![], &vec![]);
    expect(
        &r,
        &[
            ("Calling symbol", ReportCode::NonExistentSymbol, 6, 7, "Calling unknown symbol"),
            ("Underscore", ReportCode::InvalidUnderscore, 6, 7, "This underscore cannot be used here."),
        ],
    );
}

#[test]
fn underscore_component_access() {
    let e = Expression::Variable {
        meta: meta(4, 9),
        name: "c".to_string(),
        access: vec![Access::ComponentAccess("_".to_string())],
    };
    let r = check(&["c"], vec![Statement::Assert { meta: meta(3, 10), arg: e }], &vec![], &vec![]);
    expect(&r, &[("Underscore", ReportCode::InvalidUnderscore, 4, 9, "This underscore cannot be used here.")]);
}

#[test]
fn underscore_allowed_in_tuple_targets() {
    let lhe = Expression::Tuple { meta: meta(1, 5), values: vec![var("_", 2), var("x", 3), num(4)] };
    let body = vec![decl("x", 0), Statement::MultSubstitution { meta: meta(1, 9), lhe, rhe: var("y", 7) }];
    let r = check(&[], body, &vec![], &vec![]);
    expect(&r, &[("Undeclared symbol", ReportCode::NonExistentSymbol, 7, 8, "Using unknown symbol")]);
}

#[test]
fn calls_to_unknown_and_wrongly_called_functions() {
    let fs = vec![function("f", &["a", "b"], vec![])];
    let ts = vec![template("T", &["n"], &["in"], vec![])];
    let unknown = Expression::Call { meta: meta(10, 12), id: "g".to_string(), args: vec![var("q", 11)] };
    let wrong = Expression::Call { meta: meta(20, 22), id: "f".to_string(), args: vec![num(21)] };
    let good = Expression::Call { meta: meta(30, 32), id: "T".to_string(), args: vec![var("q", 31)] };
    let body = vec![
        Statement::Return { meta: meta(9, 13), value: unknown },
        Statement::Return { meta: meta(19, 23), value: wrong },
        Statement::Return { meta: meta(29, 33), value: good },
    ];
    let r = check(&[], body, &fs, &ts);
    expect(
        &r,
        &[
            ("Calling symbol", ReportCode::NonExistentSymbol, 10, 12, "Calling unknown symbol"),
            (
                "Calling function with wrong number of arguments",
                ReportCode::FunctionWrongNumberOfArguments,
                20,
                22,
                "Got 1 params, 2 where expected",
            ),
            ("Undeclared symbol", ReportCode::NonExistentSymbol, 31, 32, "Using unknown symbol"),
        ],
    );
}

#[test]
fn anonymous_components() {
    let ts = vec![template("T", &["n"], &["a", "b"], vec![])];
    let wrong_params = Expression::AnonymousComp {
        meta: meta(10, 15),
        id: "T".to_string(),
        params: vec![],
        signals: vec![num(11), num(12)],
        names: None,
    };
    let wrong_signals = Expression::AnonymousComp {
        meta: meta(20, 25),
        id: "T".to_string(),
        params: vec![num(21)],
        signals: vec![num(22)],
        names: None,
    };
    let wrong_names = Expression::AnonymousComp {
        meta: meta(30, 35),
        id: "T".to_string(),
        params: vec![num(31)],
        signals: vec![num(32), num(33)],
        names: Some(vec!["a".to_string()]),
    };
    let unknown = Expression::AnonymousComp {
        meta: meta(40, 45),
        id: "U".to_string(),
        params: vec![],
        signals: vec![],
        names: None,
    };
    let good = Expression::AnonymousComp {
        meta: meta(50, 55),
        id: "T".to_string(),
        params: vec![num(51)],
        signals: vec![num(52), num(53)],
        names: Some(vec!["a".to_string(), "b".to_string()]),
    };
    let body: Vec<Statement> = vec![wrong_params, wrong_signals, wrong_names, unknown, good]
        .into_iter()
        .map(|e| Statement::UnderscoreSubstitution { meta: meta(0, 0), rhe: e })
        .collect();
    let r = check(&[], body, &vec![], &ts);
    expect(
        &r,
        &[
            (
                "Calling template with wrong number of arguments",
                ReportCode::FunctionWrongNumberOfArguments,
                10,
                15,
                "Got 0 params, 1 where expected",
            ),
            (
                "Calling template with wrong number of signals",
                ReportCode::FunctionWrongNumberOfArguments,
                20,
                25,
                "Got 1 params, 2 where expected",
            ),
            (
                "Calling template with wrong number of signals",
                ReportCode::FunctionWrongNumberOfArguments,
                30,
                35,
                "Got 2 params, 2 where expected",
            ),
            ("Calling symbol", ReportCode::NonExistentSymbol, 40, 45, "Calling unknown symbol"),
        ],
    );
}

#[test]
fn statements_of_every_kind_are_visited() {
    let body = vec![
        Statement::InitializationBlock { meta: meta(0, 0), initializations: vec![decl("i", 1)] },
        Statement::While {
            meta: meta(2, 3),
            cond: var("i", 2),
            stmt: Box::new(block(vec![assign("k", 4, num(5))])),
        },
        Statement::IfThenElse {
            meta: meta(6, 7),
            cond: var("j", 6),
            if_case: Box::new(Statement::ConstraintEquality { meta: meta(7, 8), lhe: var("i", 7), rhe: var("m", 8) }),
            else_case: Some(Box::new(Statement::LogCall {
                meta: meta(9, 10),
                args: vec![LogArgument::LogStr("s".to_string()), LogArgument::LogExp(var("n", 9))],
            })),
        },
        Statement::Declaration { meta: meta(11, 12), name: "arr".to_string(), dimensions: vec![var("d", 13)] },
    ];
    let r = check(&[], body, &vec![], &vec![]);
    let at: Vec<usize> = r.iter().map(|x| x.location.start).collect();
    assert_eq!(at, vec![4, 6, 8, 9, 13]);
    assert!(r.iter().all(|x| x.message == "Undeclared symbol"));
}

fn program(main: Expression, public: &[&str], ts: Vec<TemplateData>, fs: Vec<FunctionData>) -> ProgramArchive {
    ProgramArchive {
        templates: ts,
        functions: fs,
        main_expression: main,
        public_inputs: public.iter().map(|p| p.to_string()).collect(),
    }
}

#[test]
fn naming_of_a_correct_program() {
    let t = template("Main", &["n"], &["a"], vec![decl("a", 3), assign("a", 4, var("n", 5))]);
    let f = function("f", &["x"], vec![Statement::Return { meta: meta(6, 7), value: var("x", 6) }]);
    let main = Expression::Call { meta: meta(90, 95), id: "Main".to_string(), args: vec![num(91)] };
    let p = program(main, &["a"], vec![t], vec![f]);
    assert!(check_naming_correctness(&p).is_ok());
}

#[test]
fn naming_reports_every_part_in_order() {
    let t = template("Main", &["n", "n"], &["a"], vec![assign("z", 4, num(5))]);
    let f = function("f", &["x"], vec![Statement::Return { meta: meta(6, 7), value: var("y", 6) }]);
    let main = Expression::Call { meta: meta(90, 95), id: "Main".to_string(), args: vec![num(91), num(92)] };
    let p = program(main, &["a", "b"], vec![t], vec![f]);
    let r = check_naming_correctness(&p).unwrap_err();
    let got: Vec<(String, usize, String)> = r.iter().map(|x| (x.message.clone(), x.location.start, x.label.clone())).collect();
    assert_eq!(
        got,
        vec![
            ("Invalid public list".to_string(), 90, "b is not an input signal".to_string()),
            ("Symbol declared twice".to_string(), 1, "Declaring same symbol twice".to_string()),
            ("Undeclared symbol".to_string(), 4, "Using unknown symbol".to_string()),
            ("Undeclared symbol".to_string(), 6, "Using unknown symbol".to_string()),
        ]
    );
    assert_eq!(r[0].code, ReportCode::SameSymbolDeclaredTwice);
}

#[test]
fn main_calling_an_unknown_template() {
    let main = Expression::Call { meta: meta(90, 95), id: "Nope".to_string(), args: vec![] };
    let p = program(main, &["a"], vec![], vec![]);
    let r = check_naming_correctness(&p).unwrap_err();
    assert_eq!(r.len(), 1);
    assert_eq!(r[0].message, "Calling symbol");
}
