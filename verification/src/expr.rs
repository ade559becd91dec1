use vstd::prelude::*;
use vstd::string::StringExecFns;
use crate::rox_type::RoxType;
use crate::rox_type::ValueModel;
use crate::rox_type::disp_callable;
use crate::rox_type::disp_consistent;
use crate::token::Token;
use crate::token::TokenModel;

verus! {

/// The operator of a unary expression. Only these two exist: a node with any
/// other operator cannot be built, which keeps the evaluator total by
/// construction.
#[derive(Clone, Copy, PartialEq, Eq, Structural, Debug)]
pub enum UnOp {
    Bang,
    Minus,
}

/// The operator of a binary expression; the closed set the grammar allows.
#[derive(Clone, Copy, PartialEq, Eq, Structural, Debug)]
pub enum BinOp {
    Minus,
    Plus,
    Slash,
    Star,
    Greater,
    GreaterEqual,
    Less,
    LessEqual,
    EqualEqual,
    BangEqual,
}

/// Spec-level mirror of an expression tree.
pub enum ExprModel {
    Literal(ValueModel),
    Grouping(Box<ExprModel>),
    Unary(UnOp, Box<ExprModel>),
    Binary(Box<ExprModel>, BinOp, Box<ExprModel>),
    Variable(Seq<char>),
}

/// An expression: an immutable tree, each node owning its subtrees.
#[derive(Debug)]
pub enum Expr {
    Literal(RoxType),
    Grouping(Box<Expr>),
    Unary(UnOp, Box<Expr>),
    Binary(Box<Expr>, BinOp, Box<Expr>),
    Variable(String),
}

pub open spec fn expr_view(e: &Expr) -> ExprModel
    decreases e,
{
    match e {
        Expr::Literal(v) => ExprModel::Literal(v@),
        Expr::Grouping(inner) => ExprModel::Grouping(Box::new(expr_view(&**inner))),
        Expr::Unary(op, inner) => ExprModel::Unary(*op, Box::new(expr_view(&**inner))),
        Expr::Binary(l, op, r) => ExprModel::Binary(
            Box::new(expr_view(&**l)),
            *op,
            Box::new(expr_view(&**r)),
        ),
        Expr::Variable(name) => ExprModel::Variable(name@),
    }
}

impl View for Expr {
    type V = ExprModel;

    open spec fn view(&self) -> ExprModel {
        expr_view(self)
    }
}

/// Spec-level mirror of a statement.
pub enum StmtModel {
    Expression(ExprModel),
    Print(ExprModel),
    Var(Seq<char>, Option<ExprModel>),
}

/// A statement; a program is a sequence of these.
#[derive(Debug)]
pub enum Stmt {
    Expression(Box<Expr>),
    Print(Box<Expr>),
    Var(Token, Option<Box<Expr>>),
}

impl View for Stmt {
    type V = StmtModel;

    open spec fn view(&self) -> StmtModel {
        match self {
            Stmt::Expression(e) => StmtModel::Expression(expr_view(&**e)),
            Stmt::Print(e) => StmtModel::Print(expr_view(&**e)),
            Stmt::Var(name, init) => StmtModel::Var(
                name@.lexeme,
                match init {
                    Some(e) => Some(expr_view(&**e)),
                    None => None,
                },
            ),
        }
    }
}

/// The view of a statement sequence, statement by statement.
pub open spec fn stmts_view(s: Seq<Stmt>) -> Seq<StmtModel> {
    s.map_values(|st: Stmt| st@)
}

// ----- printing an expression back as source text -----

pub open spec fn unop_text(op: UnOp) -> Seq<char> {
    match op {
        UnOp::Bang => "!"@,
        UnOp::Minus => "-"@,
    }
}

pub open spec fn binop_text(op: BinOp) -> Seq<char> {
    match op {
        BinOp::Minus => "-"@,
        BinOp::Plus => "+"@,
        BinOp::Slash => "/"@,
        BinOp::Star => "*"@,
        BinOp::Greater => ">"@,
        BinOp::GreaterEqual => ">="@,
        BinOp::Less => "<"@,
        BinOp::LessEqual => "<="@,
        BinOp::EqualEqual => "=="@,
        BinOp::BangEqual => "!="@,
    }
}

/// The source form of a literal: strings quoted, keywords in lower case,
/// a number as the caller-supplied formatter `d` writes it.
pub open spec fn print_literal_model(v: ValueModel, d: spec_fn(u64) -> Seq<char>) -> Seq<char> {
    match v {
        ValueModel::Str(s) => "\""@ + s + "\""@,
        ValueModel::Num(b) => d(b),
        ValueModel::Bool(b) => if b {
            "true"@
        } else {
            "false"@
        },
        ValueModel::Nil => "nil"@,
    }
}

/// The source form of an expression: every composite node is parenthesised,
/// so the printed text parses back to a tree that evaluates the same way.
pub open spec fn print_expr_model(e: ExprModel, d: spec_fn(u64) -> Seq<char>) -> Seq<char>
    decreases e,
{
    match e {
        ExprModel::Literal(v) => print_literal_model(v, d),
        ExprModel::Grouping(inner) => "("@ + print_expr_model(*inner, d) + ")"@,
        ExprModel::Unary(op, inner) => "("@ + unop_text(op) + print_expr_model(*inner, d) + ")"@,
        ExprModel::Binary(l, op, r) => "("@ + print_expr_model(*l, d) + " "@ + binop_text(op)
            + " "@ + print_expr_model(*r, d) + ")"@,
        ExprModel::Variable(name) => name,
    }
}

fn unop_str(op: UnOp) -> (r: &'static str)
    ensures
        r@ == unop_text(op),
{
    match op {
        UnOp::Bang => "!",
        UnOp::Minus => "-",
    }
}

pub fn binop_str(op: BinOp) -> (r: &'static str)
    ensures
        r@ == binop_text(op),
{
    match op {
        BinOp::Minus => "-",
        BinOp::Plus => "+",
        BinOp::Slash => "/",
        BinOp::Star => "*",
        BinOp::Greater => ">",
        BinOp::GreaterEqual => ">=",
        BinOp::Less => "<",
        BinOp::LessEqual => "<=",
        BinOp::EqualEqual => "==",
        BinOp::BangEqual => "!=",
    }
}

impl Expr {
    /// Pretty-print the expression as source text, exactly as
    /// `print_expr_model` says; the caller supplies the number formatter.
    pub fn to_string<D: Fn(u64) -> String + Copy>(&self, disp: D) -> (r: String)
        requires
            disp_callable(disp),
        ensures
            forall|d: spec_fn(u64) -> Seq<char>|
                #[trigger] disp_consistent(disp, d) ==> r@ == print_expr_model(self@, d),
        decreases self,
    {
        match self {
            Expr::Literal(v) => {
                match v {
                    RoxType::Str(s) => {
                        let mut out = String::from_str("\"");
                        out.append(s.as_str());
                        out.append("\"");
                        out
                    },
                    RoxType::Number(b) => disp(*b),
                    RoxType::Boolean(b) => {
                        if *b {
                            String::from_str("true")
                        } else {
                            String::from_str("false")
                        }
                    },
                    RoxType::Nil => String::from_str("nil"),
                }
            },
            Expr::Grouping(inner) => {
                let mut out = String::from_str("(");
                let body = inner.to_string(disp);
                out.append(body.as_str());
                out.append(")");
                out
            },
            Expr::Unary(op, inner) => {
                let mut out = String::from_str("(");
                out.append(unop_str(*op));
                let body = inner.to_string(disp);
                out.append(body.as_str());
                out.append(")");
                out
            },
            Expr::Binary(l, op, r) => {
                let mut out = String::from_str("(");
                let left = l.to_string(disp);
                out.append(left.as_str());
                out.append(" ");
                out.append(binop_str(*op));
                out.append(" ");
                let right = r.to_string(disp);
                out.append(right.as_str());
                out.append(")");
                out
            },
            Expr::Variable(name) => name.clone(),
        }
    }
}

} // verus!
