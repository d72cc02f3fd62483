//! The syntax tree of a circuit, as far as the symbol analysis reads it.
use vstd::prelude::*;

verus! {

/// A span of a source file.
#[derive(Clone, Copy)]
pub struct FileLocation {
    pub start: usize,
    pub end: usize,
}

/// Where a node of the tree stands: its span and, once known, its file.
#[derive(Clone, Copy)]
pub struct Meta {
    pub start: usize,
    pub end: usize,
    pub file_id: Option<usize>,
}

/// One step of an access path: `.name` or `[index]`.
pub enum Access {
    ComponentAccess(String),
    ArrayAccess(Expression),
}

/// An argument of `log(..)`: a string or an expression.
pub enum LogArgument {
    LogStr(String),
    LogExp(Expression),
}

/// An expression. Operators and the values of numbers play no part in the
/// symbol analysis and are left out.
pub enum Expression {
    InfixOp { meta: Meta, lhe: Box<Expression>, rhe: Box<Expression> },
    PrefixOp { meta: Meta, rhe: Box<Expression> },
    InlineSwitchOp {
        meta: Meta,
        cond: Box<Expression>,
        if_true: Box<Expression>,
        if_false: Box<Expression>,
    },
    ParallelOp { meta: Meta, rhe: Box<Expression> },
    Variable { meta: Meta, name: String, access: Vec<Access> },
    Number(Meta),
    Call { meta: Meta, id: String, args: Vec<Expression> },
    BusCall { meta: Meta, id: String, args: Vec<Expression> },
    AnonymousComp {
        meta: Meta,
        id: String,
        params: Vec<Expression>,
        signals: Vec<Expression>,
        names: Option<Vec<String>>,
    },
    ArrayInLine { meta: Meta, values: Vec<Expression> },
    Tuple { meta: Meta, values: Vec<Expression> },
    UniformArray { meta: Meta, value: Box<Expression>, dimension: Box<Expression> },
}

/// A statement. Types of declarations and assignment operators play no
/// part in the symbol analysis and are left out.
pub enum Statement {
    IfThenElse {
        meta: Meta,
        cond: Expression,
        if_case: Box<Statement>,
        else_case: Option<Box<Statement>>,
    },
    While { meta: Meta, cond: Expression, stmt: Box<Statement> },
    Return { meta: Meta, value: Expression },
    InitializationBlock { meta: Meta, initializations: Vec<Statement> },
    Declaration { meta: Meta, name: String, dimensions: Vec<Expression> },
    Substitution { meta: Meta, var: String, access: Vec<Access>, rhe: Expression },
    MultSubstitution { meta: Meta, lhe: Expression, rhe: Expression },
    UnderscoreSubstitution { meta: Meta, rhe: Expression },
    ConstraintEquality { meta: Meta, lhe: Expression, rhe: Expression },
    LogCall { meta: Meta, args: Vec<LogArgument> },
    Block { meta: Meta, stmts: Vec<Statement> },
    Assert { meta: Meta, arg: Expression },
}

/// The position of an expression.
pub open spec fn expression_meta(e: Expression) -> Meta {
    match e {
        Expression::InfixOp { meta, .. } => meta,
        Expression::PrefixOp { meta, .. } => meta,
        Expression::InlineSwitchOp { meta, .. } => meta,
        Expression::ParallelOp { meta, .. } => meta,
        Expression::Variable { meta, .. } => meta,
        Expression::Number(meta) => meta,
        Expression::Call { meta, .. } => meta,
        Expression::BusCall { meta, .. } => meta,
        Expression::AnonymousComp { meta, .. } => meta,
        Expression::ArrayInLine { meta, .. } => meta,
        Expression::Tuple { meta, .. } => meta,
        Expression::UniformArray { meta, .. } => meta,
    }
}

impl Expression {
    /// The position of the expression.
    pub fn get_meta(&self) -> (res: &Meta)
        ensures
            *res == expression_meta(*self),
    {
        match self {
            Expression::InfixOp { meta, .. } => meta,
            Expression::PrefixOp { meta, .. } => meta,
            Expression::InlineSwitchOp { meta, .. } => meta,
            Expression::ParallelOp { meta, .. } => meta,
            Expression::Variable { meta, .. } => meta,
            Expression::Number(meta) => meta,
            Expression::Call { meta, .. } => meta,
            Expression::BusCall { meta, .. } => meta,
            Expression::AnonymousComp { meta, .. } => meta,
            Expression::ArrayInLine { meta, .. } => meta,
            Expression::Tuple { meta, .. } => meta,
            Expression::UniformArray { meta, .. } => meta,
        }
    }
}

} // verus!
