//! Symbol analysis: every symbol used is declared in an enclosing block,
//! none is declared twice in one block, calls name known functions and
//! templates with the right number of arguments, and underscores stand
//! only where they may.
use crate::ast::{expression_meta, Access, Expression, FileLocation, LogArgument, Meta, Statement};
use crate::program_archive::{
    find_function, find_template, function_named, has_function, has_template, template_named,
    FunctionData, FunctionInfo, ProgramArchive, TemplateData, TemplateInfo,
};
use crate::report::{
    declared_twice, function_wrong_arguments, invalid_public, invalid_underscore, reports_view,
    template_wrong_arguments, template_wrong_signals, undeclared_symbol, unknown_call, Report,
    ReportView,
};
use crate::strings::{contains_string, is_underscore, strings_view};
use vstd::prelude::*;

verus! {

/// The symbols declared in one block.
pub type Block = Vec<String>;

/// The blocks that enclose a point of a body, innermost last.
pub type Environment = Vec<Block>;

/// The names of the symbols of each block.
pub open spec fn env_view(env: Seq<Block>) -> Seq<Seq<Seq<char>>> {
    env.map_values(|b: Block| strings_view(b@))
}

/// Some enclosing block declares `symbol`.
pub open spec fn env_contains(env: Seq<Seq<Seq<char>>>, symbol: Seq<char>) -> bool {
    exists|i: int| 0 <= i < env.len() && #[trigger] env[i].contains(symbol)
}

/// Some component access of the path is `._`.
pub open spec fn has_underscore_component(accs: Seq<Access>) -> bool {
    exists|k: int|
        0 <= k < accs.len() && (#[trigger] accs[k] matches Access::ComponentAccess(id) && id@
            == "_"@)
}

/// The reports of the search for underscores in an expression that stands
/// in an index: each variable named `_`, or with a `._` access, is reported
/// as a call of an unknown symbol, after the reports for its indices.
pub open spec fn underscore_reports(e: Expression, file_id: usize) -> Seq<ReportView>
    decreases e, 1int,
{
    match e {
        Expression::InfixOp { lhe, rhe, .. } => underscore_reports(*lhe, file_id)
            + underscore_reports(*rhe, file_id),
        Expression::UniformArray { value, dimension, .. } => underscore_reports(*value, file_id)
            + underscore_reports(*dimension, file_id),
        Expression::PrefixOp { rhe, .. } => underscore_reports(*rhe, file_id),
        Expression::ParallelOp { rhe, .. } => underscore_reports(*rhe, file_id),
        Expression::InlineSwitchOp { cond, if_true, if_false, .. } => underscore_reports(
            *cond,
            file_id,
        ) + underscore_reports(*if_true, file_id) + underscore_reports(*if_false, file_id),
        Expression::Variable { meta, name, access } => access_underscore_reports(
            access@,
            file_id,
        ) + if name@ == "_"@ || has_underscore_component(access@) {
            seq![unknown_call(meta.start, meta.end, file_id)]
        } else {
            Seq::empty()
        },
        Expression::Number(..) => Seq::empty(),
        Expression::AnonymousComp { params, signals, .. } => underscores_reports(
            params@,
            file_id,
        ) + underscores_reports(signals@, file_id),
        Expression::ArrayInLine { values, .. } => underscores_reports(values@, file_id),
        Expression::Tuple { values, .. } => underscores_reports(values@, file_id),
        Expression::Call { args, .. } => underscores_reports(args@, file_id),
        Expression::BusCall { args, .. } => underscores_reports(args@, file_id),
    }
}

/// `underscore_reports` of each expression in turn.
pub open spec fn underscores_reports(es: Seq<Expression>, file_id: usize) -> Seq<ReportView>
    decreases es, 0int,
{
    if es.len() == 0 {
        Seq::empty()
    } else {
        underscores_reports(es.drop_last(), file_id) + underscore_reports(es.last(), file_id)
    }
}

/// `underscore_reports` of the index of each array access in turn.
pub open spec fn access_underscore_reports(accs: Seq<Access>, file_id: usize) -> Seq<ReportView>
    decreases accs, 0int,
{
    if accs.len() == 0 {
        Seq::empty()
    } else {
        access_underscore_reports(accs.drop_last(), file_id) + match accs.last() {
            Access::ArrayAccess(i) => underscore_reports(i, file_id),
            Access::ComponentAccess(_) => Seq::empty(),
        }
    }
}

fn location_of(meta: &Meta) -> (res: FileLocation)
    ensures
        res.start == meta.start,
        res.end == meta.end,
{
    FileLocation { start: meta.start, end: meta.end }
}

fn look_for_underscores(expression: &Expression, file_id: usize, reports: &mut Vec<Report>)
    ensures
        reports_view(final(reports)@) == reports_view(old(reports)@) + underscore_reports(
            *expression,
            file_id,
        ),
    decreases expression, 1int,
{
    let ghost start = reports_view(reports@);
    match expression {
        Expression::InfixOp { lhe, rhe, .. } | Expression::UniformArray {
            value: lhe,
            dimension: rhe,
            ..
        } => {
            look_for_underscores(lhe, file_id, reports);
            look_for_underscores(rhe, file_id, reports);
            assert(reports_view(reports@) =~= start + underscore_reports(*expression, file_id));
        },
        Expression::PrefixOp { rhe, .. } | Expression::ParallelOp { rhe, .. } => {
            look_for_underscores(rhe, file_id, reports);
            assert(reports_view(reports@) =~= start + underscore_reports(*expression, file_id));
        },
        Expression::InlineSwitchOp { cond, if_true, if_false, .. } => {
            look_for_underscores(cond, file_id, reports);
            look_for_underscores(if_true, file_id, reports);
            look_for_underscores(if_false, file_id, reports);
            assert(reports_view(reports@) =~= start + underscore_reports(*expression, file_id));
        },
        Expression::Variable { meta, name, access } => {
            let mut found = is_underscore(name);
            let n = access.len();
            for k in 0..n
                invariant
                    n == access.len(),
                    *expression is Variable,
                    (*expression)->access == *access,
                    reports_view(reports@) == start + access_underscore_reports(
                        access@.take(k as int),
                        file_id,
                    ),
                    found == (name@ == "_"@ || has_underscore_component(access@.take(k as int))),
            {
                match &access[k] {
                    Access::ComponentAccess(id) => {
                        if is_underscore(id) {
                            found = true;
                        }
                    },
                    Access::ArrayAccess(i) => {
                        look_for_underscores(i, file_id, reports);
                    },
                }
                proof {
                    lemma_underscore_component_step(access@, k as int);
                    let t = access@.take(k + 1);
                    assert(t.drop_last() =~= access@.take(k as int));
                    assert(t.last() == access@[k as int]);
                }
            }
            assert(access@.take(n as int) =~= access@);
            if found {
                push_report(reports, Report::unknown_call(location_of(meta), file_id));
            }
            assert(reports_view(reports@) =~= start + underscore_reports(*expression, file_id));
        },
        Expression::Number(..) => {},
        Expression::AnonymousComp { params, signals, .. } => {
            look_for_underscores_all(params, file_id, reports);
            look_for_underscores_all(signals, file_id, reports);
            assert(reports_view(reports@) =~= start + underscore_reports(*expression, file_id));
        },
        Expression::ArrayInLine { values, .. } | Expression::Tuple { values, .. }
        | Expression::Call { args: values, .. } | Expression::BusCall { args: values, .. } => {
            look_for_underscores_all(values, file_id, reports);
            assert(reports_view(reports@) =~= start + underscore_reports(*expression, file_id));
        },
    }
    assert(reports_view(reports@) =~= start + underscore_reports(*expression, file_id));
}

fn look_for_underscores_all(values: &Vec<Expression>, file_id: usize, reports: &mut Vec<Report>)
    ensures
        reports_view(final(reports)@) == reports_view(old(reports)@) + underscores_reports(
            values@,
            file_id,
        ),
    decreases values@, 0int,
{
    let ghost start = reports_view(reports@);
    let n = values.len();
    for i in 0..n
        invariant
            n == values.len(),
            reports_view(reports@) == start + underscores_reports(values@.take(i as int), file_id),
    {
        look_for_underscores(&values[i], file_id, reports);
        proof {
            let t = values@.take(i + 1);
            assert(t.drop_last() =~= values@.take(i as int));
            assert(t.last() == values@[i as int]);
        }
    }
    assert(values@.take(n as int) =~= values@);
}

/// The reports of the analysis of an expression within the blocks `env`:
/// unknown or wrongly called functions and templates, undeclared symbols
/// and misplaced underscores, in the order in which the expression is read.
pub open spec fn expression_reports(
    e: Expression,
    file_id: usize,
    fs: Seq<FunctionData>,
    ts: Seq<TemplateData>,
    env: Seq<Seq<Seq<char>>>,
) -> Seq<ReportView>
    decreases e, 2int,
{
    match e {
        Expression::InfixOp { lhe, rhe, .. } => expression_reports(*lhe, file_id, fs, ts, env)
            + expression_reports(*rhe, file_id, fs, ts, env),
        Expression::PrefixOp { rhe, .. } => expression_reports(*rhe, file_id, fs, ts, env),
        Expression::ParallelOp { rhe, .. } => expression_reports(*rhe, file_id, fs, ts, env),
        Expression::InlineSwitchOp { cond, if_true, if_false, .. } => expression_reports(
            *cond,
            file_id,
            fs,
            ts,
            env,
        ) + expression_reports(*if_true, file_id, fs, ts, env) + expression_reports(
            *if_false,
            file_id,
            fs,
            ts,
            env,
        ),
        Expression::Variable { meta, name, access } => access_underscore_reports(
            access@,
            file_id,
        ) + (if name@ == "_"@ || has_underscore_component(access@) {
            seq![invalid_underscore(meta.start, meta.end, file_id)]
        } else {
            Seq::empty()
        }) + variable_reports(meta, name@, access@, file_id, fs, ts, env),
        Expression::Call { meta, id, args } => {
            if !has_function(fs, id@) && !has_template(ts, id@) {
                seq![unknown_call(meta.start, meta.end, file_id)]
            } else {
                let expected = if has_function(fs, id@) {
                    function_named(fs, id@).name_of_params.len()
                } else {
                    template_named(ts, id@).name_of_params.len()
                };
                if args.len() != expected {
                    seq![
                        function_wrong_arguments(
                            meta.start,
                            meta.end,
                            file_id,
                            args.len() as nat,
                            expected as nat,
                        ),
                    ]
                } else {
                    expressions_reports(args@, file_id, fs, ts, env)
                }
            }
        },
        Expression::ArrayInLine { values, .. } => expressions_reports(values@, file_id, fs, ts, env),
        Expression::UniformArray { value, dimension, .. } => expression_reports(
            *value,
            file_id,
            fs,
            ts,
            env,
        ) + expression_reports(*dimension, file_id, fs, ts, env),
        Expression::BusCall { args, .. } => expressions_reports(args@, file_id, fs, ts, env),
        Expression::Tuple { values, .. } => expressions_reports(values@, file_id, fs, ts, env),
        Expression::Number(..) => Seq::empty(),
        Expression::AnonymousComp { meta, id, params, signals, names } => {
            if !has_template(ts, id@) {
                seq![unknown_call(meta.start, meta.end, file_id)]
            } else {
                let expected_params = template_named(ts, id@).name_of_params.len();
                let expected_signals = template_named(ts, id@).inputs.len();
                if params.len() != expected_params {
                    seq![
                        template_wrong_arguments(
                            meta.start,
                            meta.end,
                            file_id,
                            params.len() as nat,
                            expected_params as nat,
                        ),
                    ]
                } else {
                    let num_names = match names {
                        Some(m) => m.len(),
                        None => signals.len(),
                    };
                    expressions_reports(params@, file_id, fs, ts, env) + expressions_reports(
                        signals@,
                        file_id,
                        fs,
                        ts,
                        env,
                    ) + if signals.len() != expected_signals || num_names != signals.len() {
                        seq![
                            template_wrong_signals(
                                meta.start,
                                meta.end,
                                file_id,
                                signals.len() as nat,
                                expected_signals as nat,
                            ),
                        ]
                    } else {
                        Seq::empty()
                    }
                }
            }
        },
    }
}

/// `expression_reports` of each expression in turn.
pub open spec fn expressions_reports(
    es: Seq<Expression>,
    file_id: usize,
    fs: Seq<FunctionData>,
    ts: Seq<TemplateData>,
    env: Seq<Seq<Seq<char>>>,
) -> Seq<ReportView>
    decreases es, 0int,
{
    if es.len() == 0 {
        Seq::empty()
    } else {
        expressions_reports(es.drop_last(), file_id, fs, ts, env) + expression_reports(
            es.last(),
            file_id,
            fs,
            ts,
            env,
        )
    }
}

/// The reports for a use of the symbol `name` with the access path `accs`:
/// none for `_`; otherwise an undeclared symbol where no enclosing block
/// declares it, then the reports of its indices.
pub open spec fn variable_reports(
    meta: Meta,
    name: Seq<char>,
    accs: Seq<Access>,
    file_id: usize,
    fs: Seq<FunctionData>,
    ts: Seq<TemplateData>,
    env: Seq<Seq<Seq<char>>>,
) -> Seq<ReportView>
    decreases accs, 1int,
{
    if name == "_"@ {
        Seq::empty()
    } else {
        (if !env_contains(env, name) {
            seq![undeclared_symbol(meta.start, meta.end, file_id)]
        } else {
            Seq::empty()
        }) + index_reports(accs, file_id, fs, ts, env)
    }
}

/// `expression_reports` of the index of each array access in turn.
pub open spec fn index_reports(
    accs: Seq<Access>,
    file_id: usize,
    fs: Seq<FunctionData>,
    ts: Seq<TemplateData>,
    env: Seq<Seq<Seq<char>>>,
) -> Seq<ReportView>
    decreases accs, 0int,
{
    if accs.len() == 0 {
        Seq::empty()
    } else {
        index_reports(accs.drop_last(), file_id, fs, ts, env) + match accs.last() {
            Access::ArrayAccess(i) => expression_reports(i, file_id, fs, ts, env),
            Access::ComponentAccess(_) => Seq::empty(),
        }
    }
}

/// Whether some enclosing block declares `symbol`.
pub fn symbol_in_environment(environment: &Environment, symbol: &String) -> (res: bool)
    ensures
        res == env_contains(env_view(environment@), symbol@),
        res == exists|i: int|
            0 <= i < environment@.len() && #[trigger] strings_view(environment@[i]@).contains(
                symbol@,
            ),
{
    let n = environment.len();
    for i in 0..n
        invariant
            n == environment.len(),
            forall|j: int| 0 <= j < i ==> !(#[trigger] env_view(environment@)[j]).contains(symbol@),
            forall|j: int|
                0 <= j < i ==> !(#[trigger] strings_view(environment@[j]@)).contains(symbol@),
    {
        if contains_string(&environment[i], symbol) {
            assert(env_view(environment@)[i as int] == strings_view(environment@[i as int]@));
            return true;
        }
        assert(env_view(environment@)[i as int] == strings_view(environment@[i as int]@));
    }
    false
}

fn push_report(reports: &mut Vec<Report>, report: Report)
    ensures
        reports_view(final(reports)@) == reports_view(old(reports)@).push(report@),
{
    reports.push(report);
    assert(reports_view(reports@) =~= reports_view(old(reports)@).push(report@));
}

fn analyze_expression(
    expression: &Expression,
    file_id: usize,
    function_info: &FunctionInfo,
    template_info: &TemplateInfo,
    reports: &mut Vec<Report>,
    environment: &Environment,
)
    ensures
        reports_view(final(reports)@) == reports_view(old(reports)@) + expression_reports(
            *expression,
            file_id,
            function_info@,
            template_info@,
            env_view(environment@),
        ),
    decreases expression, 2int,
{
    let ghost start = reports_view(reports@);
    let ghost fs = function_info@;
    let ghost ts = template_info@;
    let ghost env = env_view(environment@);
    match expression {
        Expression::InfixOp { lhe, rhe, .. } => {
            analyze_expression(lhe, file_id, function_info, template_info, reports, environment);
            analyze_expression(rhe, file_id, function_info, template_info, reports, environment);
        },
        Expression::PrefixOp { rhe, .. } => {
            analyze_expression(rhe, file_id, function_info, template_info, reports, environment)
        },
        Expression::ParallelOp { rhe, .. } => {
            analyze_expression(rhe, file_id, function_info, template_info, reports, environment)
        },
        Expression::InlineSwitchOp { cond, if_true, if_false, .. } => {
            analyze_expression(cond, file_id, function_info, template_info, reports, environment);
            analyze_expression(
                if_true,
                file_id,
                function_info,
                template_info,
                reports,
                environment,
            );
            analyze_expression(
                if_false,
                file_id,
                function_info,
                template_info,
                reports,
                environment,
            );
        },
        Expression::Variable { meta, name, access } => {
            // First, look for underscores.
            let mut found = is_underscore(name);
            let n = access.len();
            for k in 0..n
                invariant
                    n == access.len(),
                    reports_view(reports@) == start + access_underscore_reports(
                        access@.take(k as int),
                        file_id,
                    ),
                    found == (name@ == "_"@ || has_underscore_component(access@.take(k as int))),
            {
                match &access[k] {
                    Access::ComponentAccess(id) => {
                        if is_underscore(id) {
                            found = true;
                        }
                    },
                    Access::ArrayAccess(i) => {
                        look_for_underscores(i, file_id, reports);
                    },
                }
                proof {
                    lemma_underscore_component_step(access@, k as int);
                    let t = access@.take(k + 1);
                    assert(t.drop_last() =~= access@.take(k as int));
                    assert(t.last() == access@[k as int]);
                }
            }
            assert(access@.take(n as int) =~= access@);
            if found {
                push_report(reports, Report::invalid_underscore(location_of(meta), file_id));
            }
            treat_variable(
                meta,
                name,
                access,
                file_id,
                function_info,
                template_info,
                reports,
                environment,
            );
        },
        Expression::Call { meta, id, args } => {
            let f = find_function(function_info, id);
            let t = find_template(template_info, id);
            if f.is_none() && t.is_none() {
                push_report(reports, Report::unknown_call(location_of(meta), file_id));
            } else {
                let expected_num_of_params = match f {
                    Some(i) => function_info[i].name_of_params.len(),
                    None => template_info[t.unwrap()].name_of_params.len(),
                };
                if args.len() != expected_num_of_params {
                    push_report(
                        reports,
                        Report::function_wrong_arguments(
                            location_of(meta),
                            file_id,
                            args.len(),
                            expected_num_of_params,
                        ),
                    );
                } else {
                    analyze_expressions(
                        args,
                        file_id,
                        function_info,
                        template_info,
                        reports,
                        environment,
                    );
                }
            }
        },
        Expression::ArrayInLine { values, .. } => {
            analyze_expressions(values, file_id, function_info, template_info, reports, environment);
        },
        Expression::UniformArray { value, dimension, .. } => {
            analyze_expression(value, file_id, function_info, template_info, reports, environment);
            analyze_expression(
                dimension,
                file_id,
                function_info,
                template_info,
                reports,
                environment,
            );
        },
        Expression::BusCall { args, .. } | Expression::Tuple { values: args, .. } => {
            analyze_expressions(args, file_id, function_info, template_info, reports, environment);
        },
        Expression::Number(..) => {},
        Expression::AnonymousComp { meta, id, params, signals, names } => {
            let t = find_template(template_info, id);
            match t {
                None => {
                    push_report(reports, Report::unknown_call(location_of(meta), file_id));
                },
                Some(ti) => {
                    let expected_num_of_params = template_info[ti].name_of_params.len();
                    let expected_num_of_signals = template_info[ti].inputs.len();
                    if params.len() != expected_num_of_params {
                        push_report(
                            reports,
                            Report::template_wrong_arguments(
                                location_of(meta),
                                file_id,
                                params.len(),
                                expected_num_of_params,
                            ),
                        );
                    } else {
                        analyze_expressions(
                            params,
                            file_id,
                            function_info,
                            template_info,
                            reports,
                            environment,
                        );
                        analyze_expressions(
                            signals,
                            file_id,
                            function_info,
                            template_info,
                            reports,
                            environment,
                        );
                        let num_m = match names {
                            Some(m) => m.len(),
                            None => signals.len(),
                        };
                        if signals.len() != expected_num_of_signals || num_m != signals.len() {
                            push_report(
                                reports,
                                Report::template_wrong_signals(
                                    location_of(meta),
                                    file_id,
                                    signals.len(),
                                    expected_num_of_signals,
                                ),
                            );
                        }
                    }
                },
            }
        },
    }
    assert(reports_view(reports@) =~= start + expression_reports(*expression, file_id, fs, ts, env));
}

fn analyze_expressions(
    values: &Vec<Expression>,
    file_id: usize,
    function_info: &FunctionInfo,
    template_info: &TemplateInfo,
    reports: &mut Vec<Report>,
    environment: &Environment,
)
    ensures
        reports_view(final(reports)@) == reports_view(old(reports)@) + expressions_reports(
            values@,
            file_id,
            function_info@,
            template_info@,
            env_view(environment@),
        ),
    decreases values@, 0int,
{
    let ghost start = reports_view(reports@);
    let ghost env = env_view(environment@);
    let n = values.len();
    for i in 0..n
        invariant
            n == values.len(),
            reports_view(reports@) == start + expressions_reports(
                values@.take(i as int),
                file_id,
                function_info@,
                template_info@,
                env,
            ),
            env == env_view(environment@),
    {
        analyze_expression(&values[i], file_id, function_info, template_info, reports, environment);
        proof {
            let t = values@.take(i + 1);
            assert(t.drop_last() =~= values@.take(i as int));
            assert(t.last() == values@[i as int]);
        }
    }
    assert(values@.take(n as int) =~= values@);
}

fn treat_variable(
    meta: &Meta,
    name: &String,
    access: &Vec<Access>,
    file_id: usize,
    function_info: &FunctionInfo,
    template_info: &TemplateInfo,
    reports: &mut Vec<Report>,
    environment: &Environment,
)
    ensures
        reports_view(final(reports)@) == reports_view(old(reports)@) + variable_reports(
            *meta,
            name@,
            access@,
            file_id,
            function_info@,
            template_info@,
            env_view(environment@),
        ),
    decreases access@, 1int,
{
    let ghost start = reports_view(reports@);
    let ghost env = env_view(environment@);
    if is_underscore(name) {
        return;
    }
    if !symbol_in_environment(environment, name) {
        push_report(reports, Report::undeclared_symbol(location_of(meta), file_id));
    }
    let ghost mid = reports_view(reports@);
    let n = access.len();
    for k in 0..n
        invariant
            n == access.len(),
            reports_view(reports@) == mid + index_reports(
                access@.take(k as int),
                file_id,
                function_info@,
                template_info@,
                env,
            ),
            env == env_view(environment@),
    {
        match &access[k] {
            Access::ArrayAccess(index) => {
                analyze_expression(index, file_id, function_info, template_info, reports, environment);
            },
            Access::ComponentAccess(_) => {},
        }
        proof {
            let t = access@.take(k + 1);
            assert(t.drop_last() =~= access@.take(k as int));
            assert(t.last() == access@[k as int]);
        }
    }
    assert(access@.take(n as int) =~= access@);
    assert(reports_view(reports@) =~= start + variable_reports(
        *meta,
        name@,
        access@,
        file_id,
        function_info@,
        template_info@,
        env,
    ));
}

/// One more step of the access path: the `._` test extends as expected.
proof fn lemma_underscore_component_step(accs: Seq<Access>, k: int)
    requires
        0 <= k < accs.len(),
    ensures
        has_underscore_component(accs.take(k + 1)) == (has_underscore_component(accs.take(k))
            || (accs[k] matches Access::ComponentAccess(id) && id@ == "_"@)),
{
    let t = accs.take(k + 1);
    let u = accs.take(k);
    if has_underscore_component(t) {
        let j = choose|j: int|
            0 <= j < t.len() && (#[trigger] t[j] matches Access::ComponentAccess(id) && id@
                == "_"@);
        if j < k {
            assert(u[j] == t[j]);
        }
    }
    if has_underscore_component(u) {
        let j = choose|j: int|
            0 <= j < u.len() && (#[trigger] u[j] matches Access::ComponentAccess(id) && id@
                == "_"@);
        assert(t[j] == u[j]);
    }
    if accs[k] matches Access::ComponentAccess(id) && id@ == "_"@ {
        assert(t[k] == accs[k]);
    }
}

/// Declares `symbol` in the innermost block, unless that block already
/// declares it: whether it was declared, and the blocks after.
pub open spec fn add_symbol(env: Seq<Seq<Seq<char>>>, symbol: Seq<char>) -> (bool, Seq<Seq<Seq<char>>>) {
    if env.last().contains(symbol) {
        (false, env)
    } else {
        (true, env.update(env.len() - 1, env.last().push(symbol)))
    }
}

/// Declares `symbol` in the innermost block; false, and nothing changed,
/// where that block already declares it.
pub fn add_symbol_to_block(environment: &mut Environment, symbol: &String) -> (res: bool)
    requires
        old(environment)@.len() > 0,
    ensures
        (res, env_view(final(environment)@)) == add_symbol(env_view(old(environment)@), symbol@),
        final(environment)@.len() == old(environment)@.len(),
{
    let ghost env = env_view(environment@);
    let mut last_block = environment.pop().unwrap();
    assert(env_view(environment@) =~= env.drop_last());
    assert(strings_view(last_block@) == env.last());
    if contains_string(&last_block, symbol) {
        environment.push(last_block);
        assert(env_view(environment@) =~= env);
        return false;
    }
    last_block.push(symbol.clone());
    assert(strings_view(last_block@) =~= env.last().push(symbol@));
    environment.push(last_block);
    assert(env_view(environment@) =~= env.update(env.len() - 1, env.last().push(symbol@)));
    true
}

/// The reports for the targets of a tuple assignment: each variable not
/// named `_` is analyzed as an expression; other targets are passed over.
pub open spec fn tuple_target_reports(
    values: Seq<Expression>,
    file_id: usize,
    fs: Seq<FunctionData>,
    ts: Seq<TemplateData>,
    env: Seq<Seq<Seq<char>>>,
) -> Seq<ReportView>
    decreases values.len(),
{
    if values.len() == 0 {
        Seq::empty()
    } else {
        tuple_target_reports(values.drop_last(), file_id, fs, ts, env) + match values.last() {
            Expression::Variable { name, .. } => if name@ != "_"@ {
                expression_reports(values.last(), file_id, fs, ts, env)
            } else {
                Seq::empty()
            },
            _ => Seq::empty(),
        }
    }
}

/// The reports for the expressions among the arguments of a `log`.
pub open spec fn log_reports(
    args: Seq<LogArgument>,
    file_id: usize,
    fs: Seq<FunctionData>,
    ts: Seq<TemplateData>,
    env: Seq<Seq<Seq<char>>>,
) -> Seq<ReportView>
    decreases args.len(),
{
    if args.len() == 0 {
        Seq::empty()
    } else {
        log_reports(args.drop_last(), file_id, fs, ts, env) + match args.last() {
            LogArgument::LogExp(arg) => expression_reports(arg, file_id, fs, ts, env),
            LogArgument::LogStr(_) => Seq::empty(),
        }
    }
}

/// The analysis of a statement within the blocks `env`: the reports, in the
/// order in which the statement is read, and the blocks after it.
/// Declarations go into the innermost block; a block statement opens a
/// block of its own and closes it at its end.
pub open spec fn statement_analysis(
    s: Statement,
    file_id: usize,
    fs: Seq<FunctionData>,
    ts: Seq<TemplateData>,
    env: Seq<Seq<Seq<char>>>,
) -> (Seq<ReportView>, Seq<Seq<Seq<char>>>)
    decreases s, 1int,
{
    match s {
        Statement::MultSubstitution { lhe, rhe, .. } => (
            (match lhe {
                Expression::Tuple { values, .. } => tuple_target_reports(
                    values@,
                    file_id,
                    fs,
                    ts,
                    env,
                ),
                _ => expression_reports(lhe, file_id, fs, ts, env),
            }) + expression_reports(rhe, file_id, fs, ts, env),
            env,
        ),
        Statement::Return { value, .. } => (expression_reports(value, file_id, fs, ts, env), env),
        Statement::UnderscoreSubstitution { rhe, .. } => (
            expression_reports(rhe, file_id, fs, ts, env),
            env,
        ),
        Statement::Substitution { meta, var, access, rhe } => (
            expression_reports(rhe, file_id, fs, ts, env) + variable_reports(
                meta,
                var@,
                access@,
                file_id,
                fs,
                ts,
                env,
            ),
            env,
        ),
        Statement::ConstraintEquality { lhe, rhe, .. } => (
            expression_reports(lhe, file_id, fs, ts, env) + expression_reports(
                rhe,
                file_id,
                fs,
                ts,
                env,
            ),
            env,
        ),
        Statement::InitializationBlock { initializations, .. } => statements_analysis(
            initializations@,
            file_id,
            fs,
            ts,
            env,
        ),
        Statement::Declaration { meta, name, dimensions } => {
            let r = expressions_reports(dimensions@, file_id, fs, ts, env);
            let (added, env2) = add_symbol(env, name@);
            if added {
                (r, env2)
            } else {
                (r.push(declared_twice(meta.start, meta.end, file_id)), env2)
            }
        },
        Statement::LogCall { args, .. } => (log_reports(args@, file_id, fs, ts, env), env),
        Statement::Assert { arg, .. } => (expression_reports(arg, file_id, fs, ts, env), env),
        Statement::Block { stmts, .. } => {
            let (r, env2) = statements_analysis(stmts@, file_id, fs, ts, env.push(Seq::empty()));
            (r, env2.drop_last())
        },
        Statement::While { cond, stmt, .. } => {
            let (r, env2) = statement_analysis(*stmt, file_id, fs, ts, env);
            (expression_reports(cond, file_id, fs, ts, env) + r, env2)
        },
        Statement::IfThenElse { cond, if_case, else_case, .. } => {
            let r0 = expression_reports(cond, file_id, fs, ts, env);
            let (r1, env1) = statement_analysis(*if_case, file_id, fs, ts, env);
            match else_case {
                Some(else_stmt) => {
                    let (r2, env2) = statement_analysis(*else_stmt, file_id, fs, ts, env1);
                    (r0 + r1 + r2, env2)
                },
                None => (r0 + r1, env1),
            }
        },
    }
}

/// The analysis of statements one after another, the blocks after each
/// going to the next.
pub open spec fn statements_analysis(
    ss: Seq<Statement>,
    file_id: usize,
    fs: Seq<FunctionData>,
    ts: Seq<TemplateData>,
    env: Seq<Seq<Seq<char>>>,
) -> (Seq<ReportView>, Seq<Seq<Seq<char>>>)
    decreases ss, 0int,
{
    if ss.len() == 0 {
        (Seq::empty(), env)
    } else {
        let (r1, env1) = statements_analysis(ss.drop_last(), file_id, fs, ts, env);
        let (r2, env2) = statement_analysis(ss.last(), file_id, fs, ts, env1);
        (r1 + r2, env2)
    }
}

#[verifier::spinoff_prover]
#[verifier::rlimit(30)]
fn analyze_statement(
    stmt: &Statement,
    file_id: usize,
    function_info: &FunctionInfo,
    template_info: &TemplateInfo,
    reports: &mut Vec<Report>,
    environment: &mut Environment,
)
    requires
        old(environment)@.len() > 0,
    ensures
        reports_view(final(reports)@) == reports_view(old(reports)@) + statement_analysis(
            *stmt,
            file_id,
            function_info@,
            template_info@,
            env_view(old(environment)@),
        ).0,
        env_view(final(environment)@) == statement_analysis(
            *stmt,
            file_id,
            function_info@,
            template_info@,
            env_view(old(environment)@),
        ).1,
        final(environment)@.len() == old(environment)@.len(),
    decreases stmt, 1int,
{
    let ghost start = reports_view(reports@);
    let ghost env = env_view(environment@);
    let ghost fs = function_info@;
    let ghost ts = template_info@;
    let ghost res = statement_analysis(*stmt, file_id, fs, ts, env);
    match stmt {
        Statement::MultSubstitution { lhe, rhe, .. } => {
            if let Expression::Tuple { values, .. } = lhe {
                // Underscores are allowed on the left side.
                analyze_tuple_targets(values, file_id, function_info, template_info, reports, environment);
            } else {
                analyze_expression(lhe, file_id, function_info, template_info, reports, environment);
            }
            analyze_expression(rhe, file_id, function_info, template_info, reports, environment);
            assert(reports_view(reports@) =~= start + res.0);
        },
        Statement::Return { value, .. } => {
            analyze_expression(value, file_id, function_info, template_info, reports, environment);
            assert(reports_view(reports@) =~= start + res.0);
        },
        Statement::UnderscoreSubstitution { rhe, .. } => {
            analyze_expression(rhe, file_id, function_info, template_info, reports, environment);
            assert(reports_view(reports@) =~= start + res.0);
        },
        Statement::Substitution { meta, var, access, rhe } => {
            analyze_expression(rhe, file_id, function_info, template_info, reports, environment);
            treat_variable(
                meta,
                var,
                access,
                file_id,
                function_info,
                template_info,
                reports,
                environment,
            );
            assert(reports_view(reports@) =~= start + res.0);
        },
        Statement::ConstraintEquality { lhe, rhe, .. } => {
            analyze_expression(lhe, file_id, function_info, template_info, reports, environment);
            analyze_expression(rhe, file_id, function_info, template_info, reports, environment);
            assert(reports_view(reports@) =~= start + res.0);
        },
        Statement::InitializationBlock { initializations, .. } => {
            analyze_statements(
                initializations,
                file_id,
                function_info,
                template_info,
                reports,
                environment,
            );
            assert(reports_view(reports@) =~= start + res.0);
        },
        Statement::Declaration { meta, name, dimensions } => {
            analyze_expressions(
                dimensions,
                file_id,
                function_info,
                template_info,
                reports,
                environment,
            );
            if !add_symbol_to_block(environment, name) {
                push_report(reports, Report::declared_twice(location_of(meta), file_id));
            }
            assert(reports_view(reports@) =~= start + res.0);
        },
        Statement::LogCall { args, .. } => {
            analyze_log_args(args, file_id, function_info, template_info, reports, environment);
            assert(reports_view(reports@) =~= start + res.0);
        },
        Statement::Assert { arg, .. } => {
            analyze_expression(arg, file_id, function_info, template_info, reports, environment);
            assert(reports_view(reports@) =~= start + res.0);
        },
        Statement::Block { stmts, .. } => {
            let block: Block = Vec::new();
            assert(strings_view(block@) =~= Seq::<Seq<char>>::empty());
            environment.push(block);
            assert(env_view(environment@) =~= env.push(Seq::empty()));
            analyze_statements(stmts, file_id, function_info, template_info, reports, environment);
            let ghost inner = env_view(environment@);
            environment.pop();
            assert(env_view(environment@) =~= inner.drop_last());
            assert(reports_view(reports@) =~= start + res.0);
        },
        Statement::While { stmt: body, cond, .. } => {
            analyze_expression(cond, file_id, function_info, template_info, reports, environment);
            analyze_statement(body, file_id, function_info, template_info, reports, environment);
            assert(reports_view(reports@) =~= start + res.0);
        },
        Statement::IfThenElse { cond, if_case, else_case, .. } => {
            analyze_expression(cond, file_id, function_info, template_info, reports, environment);
            analyze_statement(if_case, file_id, function_info, template_info, reports, environment);
            if let Option::Some(else_stmt) = else_case {
                analyze_statement(
                    else_stmt,
                    file_id,
                    function_info,
                    template_info,
                    reports,
                    environment,
                );
            }
            assert(reports_view(reports@) =~= start + res.0);
        },
    }
}

fn analyze_statements(
    stmts: &Vec<Statement>,
    file_id: usize,
    function_info: &FunctionInfo,
    template_info: &TemplateInfo,
    reports: &mut Vec<Report>,
    environment: &mut Environment,
)
    requires
        old(environment)@.len() > 0,
    ensures
        reports_view(final(reports)@) == reports_view(old(reports)@) + statements_analysis(
            stmts@,
            file_id,
            function_info@,
            template_info@,
            env_view(old(environment)@),
        ).0,
        env_view(final(environment)@) == statements_analysis(
            stmts@,
            file_id,
            function_info@,
            template_info@,
            env_view(old(environment)@),
        ).1,
        final(environment)@.len() == old(environment)@.len(),
    decreases stmts@, 0int,
{
    let ghost start = reports_view(reports@);
    let ghost env = env_view(environment@);
    let ghost len = environment@.len();
    let n = stmts.len();
    for i in 0..n
        invariant
            n == stmts.len(),
            len > 0,
            environment@.len() == len,
            reports_view(reports@) == start + statements_analysis(
                stmts@.take(i as int),
                file_id,
                function_info@,
                template_info@,
                env,
            ).0,
            env_view(environment@) == statements_analysis(
                stmts@.take(i as int),
                file_id,
                function_info@,
                template_info@,
                env,
            ).1,
    {
        analyze_statement(&stmts[i], file_id, function_info, template_info, reports, environment);
        proof {
            let t = stmts@.take(i + 1);
            assert(t.drop_last() =~= stmts@.take(i as int));
            assert(t.last() == stmts@[i as int]);
        }
    }
    assert(stmts@.take(n as int) =~= stmts@);
}

fn analyze_tuple_targets(
    values: &Vec<Expression>,
    file_id: usize,
    function_info: &FunctionInfo,
    template_info: &TemplateInfo,
    reports: &mut Vec<Report>,
    environment: &Environment,
)
    ensures
        reports_view(final(reports)@) == reports_view(old(reports)@) + tuple_target_reports(
            values@,
            file_id,
            function_info@,
            template_info@,
            env_view(environment@),
        ),
{
    let ghost start = reports_view(reports@);
    let ghost env = env_view(environment@);
    let n = values.len();
    for i in 0..n
        invariant
            n == values.len(),
            env == env_view(environment@),
            reports_view(reports@) == start + tuple_target_reports(
                values@.take(i as int),
                file_id,
                function_info@,
                template_info@,
                env,
            ),
    {
        let val = &values[i];
        if let Expression::Variable { name, .. } = val {
            if !is_underscore(name) {
                analyze_expression(val, file_id, function_info, template_info, reports, environment);
            }
        }
        proof {
            let t = values@.take(i + 1);
            assert(t.drop_last() =~= values@.take(i as int));
            assert(t.last() == values@[i as int]);
        }
    }
    assert(values@.take(n as int) =~= values@);
}

fn analyze_log_args(
    args: &Vec<LogArgument>,
    file_id: usize,
    function_info: &FunctionInfo,
    template_info: &TemplateInfo,
    reports: &mut Vec<Report>,
    environment: &Environment,
)
    ensures
        reports_view(final(reports)@) == reports_view(old(reports)@) + log_reports(
            args@,
            file_id,
            function_info@,
            template_info@,
            env_view(environment@),
        ),
{
    let ghost start = reports_view(reports@);
    let ghost env = env_view(environment@);
    let n = args.len();
    for i in 0..n
        invariant
            n == args.len(),
            env == env_view(environment@),
            reports_view(reports@) == start + log_reports(
                args@.take(i as int),
                file_id,
                function_info@,
                template_info@,
                env,
            ),
    {
        if let LogArgument::LogExp(arg) = &args[i] {
            analyze_expression(arg, file_id, function_info, template_info, reports, environment);
        }
        proof {
            let t = args@.take(i + 1);
            assert(t.drop_last() =~= args@.take(i as int));
            assert(t.last() == args@[i as int]);
        }
    }
    assert(args@.take(n as int) =~= args@);
}

/// Declares the parameters one after another in a first block: whether
/// some name came twice, and the blocks after.
pub open spec fn params_declaration(params: Seq<Seq<char>>) -> (bool, Seq<Seq<Seq<char>>>)
    decreases params.len(),
{
    if params.len() == 0 {
        (false, seq![Seq::empty()])
    } else {
        let (collision, env) = params_declaration(params.drop_last());
        let (added, env2) = add_symbol(env, params.last());
        (collision || !added, env2)
    }
}

/// The reports of the analysis of a function or template body: one report
/// at the parameters if a name comes twice among them, then those of the
/// statements, analyzed within a block that holds the parameters.
pub open spec fn symbols_reports(
    file_id: usize,
    param_location: FileLocation,
    params: Seq<Seq<char>>,
    body: Seq<Statement>,
    fs: Seq<FunctionData>,
    ts: Seq<TemplateData>,
) -> Seq<ReportView> {
    let (collision, env) = params_declaration(params);
    (if collision {
        seq![declared_twice(param_location.start, param_location.end, file_id)]
    } else {
        Seq::empty()
    }) + statements_analysis(body, file_id, fs, ts, env).0
}

/// A result that is `Ok` exactly when there is no report, and otherwise
/// holds the reports.
pub open spec fn result_of(res: Result<(), Vec<Report>>, reports: Seq<ReportView>) -> bool {
    &&& res is Ok <==> reports.len() == 0
    &&& res matches Err(r) ==> reports_view(r@) == reports
}

/// Checks the symbols of one function or template body.
pub fn analyze_symbols(
    file_id: usize,
    param_location: FileLocation,
    params_names: &[String],
    body: &[Statement],
    function_info: &FunctionInfo,
    template_info: &TemplateInfo,
) -> (res: Result<(), Vec<Report>>)
    ensures
        result_of(
            res,
            symbols_reports(
                file_id,
                param_location,
                strings_view(params_names@),
                body@,
                function_info@,
                template_info@,
            ),
        ),
{
    let ghost params = strings_view(params_names@);
    let mut param_name_collision = false;
    let mut reports: Vec<Report> = Vec::new();
    let mut environment: Environment = Vec::new();
    let first: Block = Vec::new();
    assert(strings_view(first@) =~= Seq::<Seq<char>>::empty());
    environment.push(first);
    assert(env_view(environment@) =~= seq![Seq::<Seq<char>>::empty()]);
    let n = params_names.len();
    for i in 0..n
        invariant
            n == params_names@.len(),
            params == strings_view(params_names@),
            environment@.len() == 1,
            (param_name_collision, env_view(environment@)) == params_declaration(
                params.take(i as int),
            ),
    {
        let success = add_symbol_to_block(&mut environment, &params_names[i]);
        param_name_collision = param_name_collision || !success;
        proof {
            let t = params.take(i + 1);
            assert(t.drop_last() =~= params.take(i as int));
            assert(t.last() == params_names@[i as int]@);
        }
    }
    assert(params.take(n as int) =~= params);
    if param_name_collision {
        push_report(&mut reports, Report::declared_twice(param_location, file_id));
    }
    let ghost env = env_view(environment@);
    let ghost start = reports_view(reports@);
    let m = body.len();
    for j in 0..m
        invariant
            m == body@.len(),
            environment@.len() == 1,
            reports_view(reports@) == start + statements_analysis(
                body@.take(j as int),
                file_id,
                function_info@,
                template_info@,
                env,
            ).0,
            env_view(environment@) == statements_analysis(
                body@.take(j as int),
                file_id,
                function_info@,
                template_info@,
                env,
            ).1,
    {
        analyze_statement(&body[j], file_id, function_info, template_info, &mut reports, &mut environment);
        proof {
            let t = body@.take(j + 1);
            assert(t.drop_last() =~= body@.take(j as int));
            assert(t.last() == body@[j as int]);
        }
    }
    assert(body@.take(m as int) =~= body@);
    assert(reports_view(reports@) =~= symbols_reports(
        file_id,
        param_location,
        params,
        body@,
        function_info@,
        template_info@,
    ));
    if reports.len() == 0 {
        Result::Ok(())
    } else {
        Result::Err(reports)
    }
}

/// The reports for the public signals of the main component that are not
/// among the inputs of its template, in order.
pub open spec fn public_reports(
    signals: Seq<Seq<char>>,
    inputs: Seq<Seq<char>>,
    meta: Meta,
    file_id: usize,
) -> Seq<ReportView>
    decreases signals.len(),
{
    if signals.len() == 0 {
        Seq::empty()
    } else {
        public_reports(signals.drop_last(), inputs, meta, file_id) + if !inputs.contains(
            signals.last(),
        ) {
            seq![invalid_public(meta.start, meta.end, file_id, signals.last())]
        } else {
            Seq::empty()
        }
    }
}

/// The reports of the analysis of the main component: where it is built by
/// a call of a known template, each public signal that is not an input of
/// it; then those of the analysis of the call, outside any block.
pub open spec fn main_reports(p: ProgramArchive) -> Seq<ReportView> {
    let call = p.main_expression;
    let meta = expression_meta(call);
    let file_id = meta.file_id.unwrap();
    (match call {
        Expression::Call { id, .. } => if has_template(p.templates@, id@) {
            public_reports(
                strings_view(p.public_inputs@),
                strings_view(template_named(p.templates@, id@).inputs@),
                meta,
                file_id,
            )
        } else {
            Seq::empty()
        },
        _ => Seq::empty(),
    }) + expression_reports(call, file_id, p.functions@, p.templates@, Seq::empty())
}

fn analyze_main(program: &ProgramArchive) -> (res: Result<(), Vec<Report>>)
    requires
        expression_meta(program.main_expression).file_id is Some,
    ensures
        result_of(res, main_reports(*program)),
{
    let call = &program.main_expression;
    let signals = &program.public_inputs;
    let template_info = &program.templates;
    let function_info = &program.functions;
    let meta = call.get_meta();
    let file_id = meta.file_id.unwrap();
    let ghost inputs_view = strings_view(signals@);
    let mut reports: Vec<Report> = Vec::new();
    if let Expression::Call { id, .. } = call {
        if let Some(t) = find_template(template_info, id) {
            let inputs = &template_info[t].inputs;
            let n = signals.len();
            for i in 0..n
                invariant
                    n == signals.len(),
                    inputs_view == strings_view(signals@),
                    reports_view(reports@) == public_reports(
                        inputs_view.take(i as int),
                        strings_view(inputs@),
                        *meta,
                        file_id,
                    ),
            {
                let signal = &signals[i];
                if !contains_string(inputs, signal) {
                    push_report(&mut reports, Report::invalid_public(location_of(meta), file_id, signal));
                }
                proof {
                    let t = inputs_view.take(i + 1);
                    assert(t.drop_last() =~= inputs_view.take(i as int));
                    assert(t.last() == signals@[i as int]@);
                }
            }
            assert(inputs_view.take(n as int) =~= inputs_view);
        }
    }
    let environment: Environment = Vec::new();
    assert(env_view(environment@) =~= Seq::<Seq<Seq<char>>>::empty());
    analyze_expression(call, file_id, function_info, template_info, &mut reports, &environment);
    assert(reports_view(reports@) =~= main_reports(*program));
    if reports.len() == 0 {
        Ok(())
    } else {
        Err(reports)
    }
}

/// The reports of the analysis of each template body in turn.
pub open spec fn templates_reports(
    bodies: Seq<TemplateData>,
    fs: Seq<FunctionData>,
    ts: Seq<TemplateData>,
) -> Seq<ReportView>
    decreases bodies.len(),
{
    if bodies.len() == 0 {
        Seq::empty()
    } else {
        let t = bodies.last();
        templates_reports(bodies.drop_last(), fs, ts) + symbols_reports(
            t.file_id,
            t.param_location,
            strings_view(t.name_of_params@),
            t.body@,
            fs,
            ts,
        )
    }
}

/// The reports of the analysis of each function body in turn.
pub open spec fn functions_reports(
    bodies: Seq<FunctionData>,
    fs: Seq<FunctionData>,
    ts: Seq<TemplateData>,
) -> Seq<ReportView>
    decreases bodies.len(),
{
    if bodies.len() == 0 {
        Seq::empty()
    } else {
        let f = bodies.last();
        functions_reports(bodies.drop_last(), fs, ts) + symbols_reports(
            f.file_id,
            f.param_location,
            strings_view(f.name_of_params@),
            f.body@,
            fs,
            ts,
        )
    }
}

/// All the reports of the symbol analysis of a program: those of its main
/// component, then those of each template, then those of each function.
pub open spec fn naming_reports(p: ProgramArchive) -> Seq<ReportView> {
    main_reports(p) + templates_reports(p.templates@, p.functions@, p.templates@)
        + functions_reports(p.functions@, p.functions@, p.templates@)
}

fn append_result(reports: &mut Vec<Report>, res: Result<(), Vec<Report>>, Ghost(expected): Ghost<Seq<ReportView>>)
    requires
        result_of(res, expected),
    ensures
        reports_view(final(reports)@) == reports_view(old(reports)@) + expected,
{
    match res {
        Ok(()) => {
            assert(reports_view(reports@) =~= reports_view(reports@) + expected);
        },
        Err(mut r) => {
            let ghost before = reports@;
            let ghost added = r@;
            reports.append(&mut r);
            assert(reports_view(reports@) =~= reports_view(before) + reports_view(added));
        },
    }
}

/// Checks the symbols of a whole program: its main component and the body
/// of every template and function.
pub fn check_naming_correctness(program_archive: &ProgramArchive) -> (res: Result<(), Vec<Report>>)
    requires
        expression_meta(program_archive.main_expression).file_id is Some,
    ensures
        result_of(res, naming_reports(*program_archive)),
{
    let template_info = &program_archive.templates;
    let function_info = &program_archive.functions;
    let mut reports: Vec<Report> = Vec::new();
    let main = analyze_main(program_archive);
    append_result(&mut reports, main, Ghost(main_reports(*program_archive)));
    let ghost after_main = reports_view(reports@);
    let nt = template_info.len();
    for i in 0..nt
        invariant
            nt == template_info.len(),
            reports_view(reports@) == after_main + templates_reports(
                template_info@.take(i as int),
                function_info@,
                template_info@,
            ),
    {
        let data = &template_info[i];
        let res = analyze_symbols(
            data.file_id,
            data.param_location,
            data.name_of_params.as_slice(),
            data.body.as_slice(),
            function_info,
            template_info,
        );
        append_result(
            &mut reports,
            res,
            Ghost(
                symbols_reports(
                    data.file_id,
                    data.param_location,
                    strings_view(data.name_of_params@),
                    data.body@,
                    function_info@,
                    template_info@,
                ),
            ),
        );
        proof {
            let t = template_info@.take(i + 1);
            assert(t.drop_last() =~= template_info@.take(i as int));
            assert(t.last() == template_info@[i as int]);
        }
    }
    assert(template_info@.take(nt as int) =~= template_info@);
    let ghost after_templates = reports_view(reports@);
    let nf = function_info.len();
    for i in 0..nf
        invariant
            nf == function_info.len(),
            reports_view(reports@) == after_templates + functions_reports(
                function_info@.take(i as int),
                function_info@,
                template_info@,
            ),
    {
        let data = &function_info[i];
        let res = analyze_symbols(
            data.file_id,
            data.param_location,
            data.name_of_params.as_slice(),
            data.body.as_slice(),
            function_info,
            template_info,
        );
        append_result(
            &mut reports,
            res,
            Ghost(
                symbols_reports(
                    data.file_id,
                    data.param_location,
                    strings_view(data.name_of_params@),
                    data.body@,
                    function_info@,
                    template_info@,
                ),
            ),
        );
        proof {
            let t = function_info@.take(i + 1);
            assert(t.drop_last() =~= function_info@.take(i as int));
            assert(t.last() == function_info@[i as int]);
        }
    }
    assert(function_info@.take(nf as int) =~= function_info@);
    assert(reports_view(reports@) =~= naming_reports(*program_archive));
    if reports.len() == 0 {
        Result::Ok(())
    } else {
        Result::Err(reports)
    }
}

/// `after` is `before` with symbols added to the innermost block only:
/// the same number of blocks, the same enclosing blocks, and the innermost
/// block of `before` at the front of that of `after`.
pub open spec fn only_innermost_grows(before: Seq<Seq<Seq<char>>>, after: Seq<Seq<Seq<char>>>) -> bool {
    &&& after.len() == before.len()
    &&& forall|i: int| 0 <= i < before.len() - 1 ==> #[trigger] after[i] == before[i]
    &&& before.last().len() <= after.last().len()
    &&& after.last().subrange(0, before.last().len() as int) == before.last()
}

proof fn lemma_grows_transitive(
    a: Seq<Seq<Seq<char>>>,
    b: Seq<Seq<Seq<char>>>,
    c: Seq<Seq<Seq<char>>>,
)
    requires
        a.len() > 0,
        only_innermost_grows(a, b),
        only_innermost_grows(b, c),
    ensures
        only_innermost_grows(a, c),
{
    assert(c.last().subrange(0, a.last().len() as int) =~= b.last().subrange(
        0,
        a.last().len() as int,
    ));
}

proof fn lemma_grows_reflexive(a: Seq<Seq<Seq<char>>>)
    ensures
        only_innermost_grows(a, a),
{
    assert(a.last().subrange(0, a.last().len() as int) =~= a.last());
}

/// The analysis of a statement, within at least one block, changes only the
/// innermost block, and only by adding symbols to it.
#[verifier::spinoff_prover]
pub proof fn lemma_statement_only_innermost_grows(
    s: Statement,
    file_id: usize,
    fs: Seq<FunctionData>,
    ts: Seq<TemplateData>,
    env: Seq<Seq<Seq<char>>>,
)
    requires
        env.len() > 0,
    ensures
        only_innermost_grows(env, statement_analysis(s, file_id, fs, ts, env).1),
    decreases s, 1int,
{
    lemma_grows_reflexive(env);
    match s {
        Statement::InitializationBlock { initializations, .. } => {
            lemma_statements_only_innermost_grow(initializations@, file_id, fs, ts, env);
        },
        Statement::Declaration { name, .. } => {
            let env2 = add_symbol(env, name@).1;
            if !env.last().contains(name@) {
                assert(env2.last().subrange(0, env.last().len() as int) =~= env.last());
            }
        },
        Statement::Block { stmts, .. } => {
            let inner = env.push(Seq::empty());
            lemma_statements_only_innermost_grow(stmts@, file_id, fs, ts, inner);
            let env2 = statements_analysis(stmts@, file_id, fs, ts, inner).1;
            assert(env2.drop_last() =~= env);
        },
        Statement::While { stmt, .. } => {
            lemma_statement_only_innermost_grows(*stmt, file_id, fs, ts, env);
        },
        Statement::IfThenElse { if_case, else_case, .. } => {
            lemma_statement_only_innermost_grows(*if_case, file_id, fs, ts, env);
            let env1 = statement_analysis(*if_case, file_id, fs, ts, env).1;
            match else_case {
                Some(else_stmt) => {
                    lemma_statement_only_innermost_grows(*else_stmt, file_id, fs, ts, env1);
                    lemma_grows_transitive(
                        env,
                        env1,
                        statement_analysis(*else_stmt, file_id, fs, ts, env1).1,
                    );
                },
                None => {},
            }
        },
        _ => {},
    }
}

/// The analysis of statements one after another, within at least one
/// block, changes only the innermost block, and only by adding symbols.
pub proof fn lemma_statements_only_innermost_grow(
    ss: Seq<Statement>,
    file_id: usize,
    fs: Seq<FunctionData>,
    ts: Seq<TemplateData>,
    env: Seq<Seq<Seq<char>>>,
)
    requires
        env.len() > 0,
    ensures
        only_innermost_grows(env, statements_analysis(ss, file_id, fs, ts, env).1),
    decreases ss, 0int,
{
    lemma_grows_reflexive(env);
    if ss.len() > 0 {
        lemma_statements_only_innermost_grow(ss.drop_last(), file_id, fs, ts, env);
        let env1 = statements_analysis(ss.drop_last(), file_id, fs, ts, env).1;
        lemma_statement_only_innermost_grows(ss.last(), file_id, fs, ts, env1);
        lemma_grows_transitive(env, env1, statement_analysis(ss.last(), file_id, fs, ts, env1).1);
    }
}

/// The symbols declared in a block statement go out of scope at its end:
/// the blocks after it are those before it.
pub proof fn lemma_block_restores_scope(
    meta: Meta,
    stmts: Vec<Statement>,
    file_id: usize,
    fs: Seq<FunctionData>,
    ts: Seq<TemplateData>,
    env: Seq<Seq<Seq<char>>>,
)
    ensures
        statement_analysis(Statement::Block { meta, stmts }, file_id, fs, ts, env).1 == env,
{
    let inner = env.push(Seq::empty());
    lemma_statements_only_innermost_grow(stmts@, file_id, fs, ts, inner);
    let env2 = statements_analysis(stmts@, file_id, fs, ts, inner).1;
    assert(env2.drop_last() =~= env);
}

/// Once declared, a symbol is in scope: after `add_symbol` some enclosing
/// block declares it, whether it was added or already there; and it is
/// added exactly when the innermost block did not declare it.
pub proof fn lemma_declared_symbol_in_scope(env: Seq<Seq<Seq<char>>>, symbol: Seq<char>)
    requires
        env.len() > 0,
    ensures
        env_contains(add_symbol(env, symbol).1, symbol),
        add_symbol(env, symbol).0 == !env.last().contains(symbol),
{
    let env2 = add_symbol(env, symbol).1;
    let k = env.len() - 1;
    if env.last().contains(symbol) {
        assert(env2[k].contains(symbol));
    } else {
        assert(env2[k] == env.last().push(symbol));
        assert(env2[k][env.last().len() as int] == symbol);
        assert(env2[k].contains(symbol));
    }
}

/// `v` is a use of a symbol, with no access path, that no block of `env`
/// declares.
pub open spec fn undeclared_plain_variable(v: Expression, env: Seq<Seq<Seq<char>>>) -> bool {
    &&& v matches Expression::Variable { name, access, .. }
    &&& v->Variable_access@.len() == 0
    &&& v->Variable_name@ != "_"@
    &&& forall|i: int| 0 <= i < env.len() ==> !(#[trigger] env[i]).contains(v->Variable_name@)
}

/// A use of a symbol is judged against every enclosing block, not only the
/// innermost: it brings no report where some block declares the symbol, and
/// exactly one undeclared-symbol report, at the use, where none does.
pub proof fn lemma_use_checked_against_every_block(
    meta: Meta,
    name: Seq<char>,
    file_id: usize,
    fs: Seq<FunctionData>,
    ts: Seq<TemplateData>,
    env: Seq<Seq<Seq<char>>>,
)
    requires
        name != "_"@,
    ensures
        variable_reports(meta, name, Seq::empty(), file_id, fs, ts, env) == if exists|i: int|
            0 <= i < env.len() && #[trigger] env[i].contains(name) {
            Seq::<ReportView>::empty()
        } else {
            seq![undeclared_symbol(meta.start, meta.end, file_id)]
        },
{
    let accs = Seq::<Access>::empty();
    assert(index_reports(accs, file_id, fs, ts, env) == Seq::<ReportView>::empty());
    assert(Seq::<ReportView>::empty() + Seq::<ReportView>::empty() =~= Seq::<ReportView>::empty());
    assert(seq![undeclared_symbol(meta.start, meta.end, file_id)] + Seq::<ReportView>::empty()
        =~= seq![undeclared_symbol(meta.start, meta.end, file_id)]);
}

/// A plain use of a symbol that no block declares is reported as exactly
/// one undeclared symbol, at the use.
pub proof fn lemma_undeclared_variable_reported(
    v: Expression,
    file_id: usize,
    fs: Seq<FunctionData>,
    ts: Seq<TemplateData>,
    env: Seq<Seq<Seq<char>>>,
)
    requires
        undeclared_plain_variable(v, env),
    ensures
        expression_reports(v, file_id, fs, ts, env) == seq![
            undeclared_symbol(expression_meta(v).start, expression_meta(v).end, file_id),
        ],
{
    let meta = expression_meta(v);
    let name = v->Variable_name@;
    let access = v->Variable_access@;
    assert(access =~= Seq::<Access>::empty());
    lemma_use_checked_against_every_block(meta, name, file_id, fs, ts, env);
    assert(!has_underscore_component(access));
    assert(access_underscore_reports(access, file_id) == Seq::<ReportView>::empty());
    assert(!(exists|i: int| 0 <= i < env.len() && #[trigger] env[i].contains(name)));
    assert(expression_reports(v, file_id, fs, ts, env) =~= seq![
        undeclared_symbol(meta.start, meta.end, file_id),
    ]);
}

/// The reports of a binary operation are those of its left operand
/// followed by those of its right operand.
pub proof fn lemma_infix_reports_both_operands(
    meta: Meta,
    lhe: Box<Expression>,
    rhe: Box<Expression>,
    file_id: usize,
    fs: Seq<FunctionData>,
    ts: Seq<TemplateData>,
    env: Seq<Seq<Seq<char>>>,
)
    ensures
        expression_reports(Expression::InfixOp { meta, lhe, rhe }, file_id, fs, ts, env)
            == expression_reports(*lhe, file_id, fs, ts, env) + expression_reports(
            *rhe,
            file_id,
            fs,
            ts,
            env,
        ),
{
}

/// An undeclared symbol on either side of a binary operation is reported.
pub proof fn lemma_undeclared_operand_reported(
    meta: Meta,
    lhe: Box<Expression>,
    rhe: Box<Expression>,
    v: Expression,
    file_id: usize,
    fs: Seq<FunctionData>,
    ts: Seq<TemplateData>,
    env: Seq<Seq<Seq<char>>>,
)
    requires
        *lhe == v || *rhe == v,
        undeclared_plain_variable(v, env),
    ensures
        expression_reports(Expression::InfixOp { meta, lhe, rhe }, file_id, fs, ts, env).contains(
            undeclared_symbol(expression_meta(v).start, expression_meta(v).end, file_id),
        ),
{
    let r = undeclared_symbol(expression_meta(v).start, expression_meta(v).end, file_id);
    lemma_undeclared_variable_reported(v, file_id, fs, ts, env);
    let left = expression_reports(*lhe, file_id, fs, ts, env);
    let right = expression_reports(*rhe, file_id, fs, ts, env);
    let all = expression_reports(Expression::InfixOp { meta, lhe, rhe }, file_id, fs, ts, env);
    assert(all == left + right);
    if *lhe == v {
        assert(all[0] == r);
    } else {
        assert(all[left.len() as int] == r);
    }
}

/// The reports of a while loop are those of its condition followed by those
/// of its body, and the blocks after it are those after its body.
pub proof fn lemma_while_reports(
    meta: Meta,
    cond: Expression,
    stmt: Box<Statement>,
    file_id: usize,
    fs: Seq<FunctionData>,
    ts: Seq<TemplateData>,
    env: Seq<Seq<Seq<char>>>,
)
    ensures
        statement_analysis(Statement::While { meta, cond, stmt }, file_id, fs, ts, env).0
            == expression_reports(cond, file_id, fs, ts, env) + statement_analysis(
            *stmt,
            file_id,
            fs,
            ts,
            env,
        ).0,
        statement_analysis(Statement::While { meta, cond, stmt }, file_id, fs, ts, env).1
            == statement_analysis(*stmt, file_id, fs, ts, env).1,
{
}

/// An undeclared symbol in the condition of a while loop is reported.
pub proof fn lemma_while_condition_checked(
    meta: Meta,
    cond: Expression,
    stmt: Box<Statement>,
    file_id: usize,
    fs: Seq<FunctionData>,
    ts: Seq<TemplateData>,
    env: Seq<Seq<Seq<char>>>,
)
    requires
        undeclared_plain_variable(cond, env),
    ensures
        statement_analysis(Statement::While { meta, cond, stmt }, file_id, fs, ts, env).0.contains(
            undeclared_symbol(expression_meta(cond).start, expression_meta(cond).end, file_id),
        ),
{
    lemma_undeclared_variable_reported(cond, file_id, fs, ts, env);
    lemma_while_reports(meta, cond, stmt, file_id, fs, ts, env);
    let all = statement_analysis(Statement::While { meta, cond, stmt }, file_id, fs, ts, env).0;
    assert(all[0] == undeclared_symbol(expression_meta(cond).start, expression_meta(cond).end, file_id));
}

/// The call that builds the main component is always analyzed: where it
/// calls a known template or function with a number of arguments other
/// than its parameters, the reports of the program hold the arity report
/// at the call, whatever the public signals are.
pub proof fn lemma_main_call_arity_reported(p: ProgramArchive, meta: Meta, id: String, args: Vec<Expression>)
    requires
        p.main_expression == (Expression::Call { meta, id, args }),
        meta.file_id is Some,
        has_template(p.templates@, id@) || has_function(p.functions@, id@),
        args.len() != (if has_function(p.functions@, id@) {
            function_named(p.functions@, id@).name_of_params.len()
        } else {
            template_named(p.templates@, id@).name_of_params.len()
        }),
    ensures
        naming_reports(p).contains(
            function_wrong_arguments(
                meta.start,
                meta.end,
                meta.file_id.unwrap(),
                args.len() as nat,
                (if has_function(p.functions@, id@) {
                    function_named(p.functions@, id@).name_of_params.len()
                } else {
                    template_named(p.templates@, id@).name_of_params.len()
                }) as nat,
            ),
        ),
        naming_reports(p).len() > 0,
{
    let call = p.main_expression;
    let file_id = meta.file_id.unwrap();
    let expected = if has_function(p.functions@, id@) {
        function_named(p.functions@, id@).name_of_params.len()
    } else {
        template_named(p.templates@, id@).name_of_params.len()
    };
    let r = function_wrong_arguments(meta.start, meta.end, file_id, args.len() as nat, expected as nat);
    let call_reports = expression_reports(call, file_id, p.functions@, p.templates@, Seq::empty());
    assert(call_reports == seq![r]);
    let main = main_reports(p);
    assert(main[main.len() - 1] == r);
    let all = naming_reports(p);
    assert(all[main.len() - 1] == main[main.len() - 1]);
}

} // verus!
