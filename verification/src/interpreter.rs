use vstd::prelude::*;
use vstd::string::StringExecFns;
use crate::expr::BinOp;
use crate::expr::Expr;
use crate::expr::ExprModel;
use crate::expr::Stmt;
use crate::expr::StmtModel;
use crate::expr::UnOp;
use crate::expr::binop_text;
use crate::expr::stmts_view;
use crate::rox_type::RoxType;
use crate::rox_type::ValueModel;

verus! {

// ----- the caller-supplied numeric operations -----

/// The numeric operations the library itself cannot compute: IEEE-754
/// binary64 arithmetic and ordering, on bit patterns. `Neg` ignores its
/// second operand; the four orderings answer zero for false and non-zero
/// for true.
#[derive(Clone, Copy, PartialEq, Eq, Structural, Debug)]
pub enum NumOp {
    Add,
    Sub,
    Mul,
    Div,
    Neg,
    Lt,
    Le,
    Gt,
    Ge,
}

/// The caller-supplied arithmetic answers nothing but what the mathematical
/// function `f` says: every value it can return agrees with `f`.
pub open spec fn ops_consistent<F: Fn(NumOp, u64, u64) -> u64>(
    ops: F,
    f: spec_fn(NumOp, u64, u64) -> u64,
) -> bool {
    forall|op: NumOp, a: u64, b: u64, r: u64|
        call_ensures(ops, (op, a, b), r) ==> r == f(op, a, b)
}

/// The caller-supplied arithmetic may be asked about any operands.
pub open spec fn ops_callable<F: Fn(NumOp, u64, u64) -> u64>(ops: F) -> bool {
    forall|op: NumOp, a: u64, b: u64| call_requires(ops, (op, a, b))
}

// ----- truthiness and value equality -----

/// Only nil and false are falsy; every other value is truthy, the number
/// zero and the empty string included.
pub open spec fn truthy_model(v: ValueModel) -> bool {
    match v {
        ValueModel::Bool(b) => b,
        ValueModel::Nil => false,
        _ => true,
    }
}

pub fn truthy(val: &RoxType) -> (r: bool)
    ensures
        r == truthy_model(val@),
{
    match val {
        RoxType::Boolean(b) => *b,
        RoxType::Nil => false,
        _ => true,
    }
}

/// Equality of two values: value-based within one kind — for numbers, bit
/// for bit on the stored patterns — and false across kinds; nil equals
/// only nil.
pub open spec fn value_eq_model(a: ValueModel, b: ValueModel) -> bool {
    match (a, b) {
        (ValueModel::Str(x), ValueModel::Str(y)) => x == y,
        (ValueModel::Num(x), ValueModel::Num(y)) => x == y,
        (ValueModel::Bool(x), ValueModel::Bool(y)) => x == y,
        (ValueModel::Nil, ValueModel::Nil) => true,
        _ => false,
    }
}

pub fn value_equals(lval: &RoxType, rval: &RoxType) -> (r: bool)
    ensures
        r == value_eq_model(lval@, rval@),
{
    match (lval, rval) {
        (RoxType::Str(x), RoxType::Str(y)) => *x == *y,
        (RoxType::Number(x), RoxType::Number(y)) => *x == *y,
        (RoxType::Boolean(x), RoxType::Boolean(y)) => *x == *y,
        (RoxType::Nil, RoxType::Nil) => true,
        _ => false,
    }
}

// ----- runtime errors -----

/// A runtime error: fatal to the run in hand, surfaced as data.
#[derive(Debug)]
pub struct InterpreterError {
    pub error_string: String,
}

pub open spec fn invalid_operands_msg(op: BinOp) -> Seq<char> {
    "Invalid operand types for "@ + binop_text(op)
}

// ----- the functional model of evaluation -----

/// What one binary application yields: arithmetic and ordering ask the
/// caller's binary64 function `f` and demand two numbers; `+` also
/// concatenates two strings; equality never fails and compares values.
pub open spec fn eval_binary_model(
    op: BinOp,
    lv: ValueModel,
    rv: ValueModel,
    f: spec_fn(NumOp, u64, u64) -> u64,
) -> Result<ValueModel, Seq<char>> {
    match op {
        BinOp::Plus => match (lv, rv) {
            (ValueModel::Num(a), ValueModel::Num(b)) => Ok(ValueModel::Num(f(NumOp::Add, a, b))),
            (ValueModel::Str(a), ValueModel::Str(b)) => Ok(ValueModel::Str(a + b)),
            _ => Err(invalid_operands_msg(op)),
        },
        BinOp::Minus => match (lv, rv) {
            (ValueModel::Num(a), ValueModel::Num(b)) => Ok(ValueModel::Num(f(NumOp::Sub, a, b))),
            _ => Err(invalid_operands_msg(op)),
        },
        BinOp::Slash => match (lv, rv) {
            (ValueModel::Num(a), ValueModel::Num(b)) => Ok(ValueModel::Num(f(NumOp::Div, a, b))),
            _ => Err(invalid_operands_msg(op)),
        },
        BinOp::Star => match (lv, rv) {
            (ValueModel::Num(a), ValueModel::Num(b)) => Ok(ValueModel::Num(f(NumOp::Mul, a, b))),
            _ => Err(invalid_operands_msg(op)),
        },
        BinOp::Greater => match (lv, rv) {
            (ValueModel::Num(a), ValueModel::Num(b)) => Ok(
                ValueModel::Bool(f(NumOp::Gt, a, b) != 0),
            ),
            _ => Err(invalid_operands_msg(op)),
        },
        BinOp::GreaterEqual => match (lv, rv) {
            (ValueModel::Num(a), ValueModel::Num(b)) => Ok(
                ValueModel::Bool(f(NumOp::Ge, a, b) != 0),
            ),
            _ => Err(invalid_operands_msg(op)),
        },
        BinOp::Less => match (lv, rv) {
            (ValueModel::Num(a), ValueModel::Num(b)) => Ok(
                ValueModel::Bool(f(NumOp::Lt, a, b) != 0),
            ),
            _ => Err(invalid_operands_msg(op)),
        },
        BinOp::LessEqual => match (lv, rv) {
            (ValueModel::Num(a), ValueModel::Num(b)) => Ok(
                ValueModel::Bool(f(NumOp::Le, a, b) != 0),
            ),
            _ => Err(invalid_operands_msg(op)),
        },
        BinOp::EqualEqual => Ok(ValueModel::Bool(value_eq_model(lv, rv))),
        BinOp::BangEqual => Ok(ValueModel::Bool(!value_eq_model(lv, rv))),
    }
}

/// What evaluating an expression yields under environment `env`, with the
/// caller's binary64 arithmetic `f`: the value, or the runtime error's
/// message. Operands are evaluated left before right, even when the
/// operator will reject them.
pub open spec fn eval_model(
    e: ExprModel,
    env: Map<Seq<char>, ValueModel>,
    f: spec_fn(NumOp, u64, u64) -> u64,
) -> Result<ValueModel, Seq<char>>
    decreases e,
{
    match e {
        ExprModel::Literal(v) => Ok(v),
        ExprModel::Grouping(inner) => eval_model(*inner, env, f),
        ExprModel::Variable(name) => if env.contains_key(name) {
            Ok(env[name])
        } else {
            Err("Undefined variable"@)
        },
        ExprModel::Unary(op, inner) => match eval_model(*inner, env, f) {
            Err(m) => Err(m),
            Ok(v) => match op {
                UnOp::Bang => Ok(ValueModel::Bool(!truthy_model(v))),
                UnOp::Minus => match v {
                    ValueModel::Num(b) => Ok(ValueModel::Num(f(NumOp::Neg, b, 0))),
                    _ => Err("Operand must be a number"@),
                },
            },
        },
        ExprModel::Binary(l, op, r) => match eval_model(*l, env, f) {
            Err(m) => Err(m),
            Ok(lv) => match eval_model(*r, env, f) {
                Err(m) => Err(m),
                Ok(rv) => eval_binary_model(op, lv, rv, f),
            },
        },
    }
}

// ----- the environment -----

/// The one flat mapping from variable name to value that the whole run
/// mutates and reads: a later declaration of the same name overwrites.
pub open spec fn env_model(entries: Seq<(String, RoxType)>) -> Map<Seq<char>, ValueModel>
    decreases entries.len(),
{
    if entries.len() == 0 {
        Map::empty()
    } else {
        env_model(entries.drop_last()).insert(entries.last().0@, entries.last().1@)
    }
}

/// The value the latest declaration of `name` bound, searched from the end.
pub open spec fn env_find(entries: Seq<(String, RoxType)>, name: Seq<char>) -> Option<ValueModel>
    decreases entries.len(),
{
    if entries.len() == 0 {
        None
    } else if entries.last().0@ == name {
        Some(entries.last().1@)
    } else {
        env_find(entries.drop_last(), name)
    }
}

proof fn lemma_env_find_is_model(entries: Seq<(String, RoxType)>, name: Seq<char>)
    ensures
        env_find(entries, name) == (if env_model(entries).contains_key(name) {
            Some(env_model(entries)[name])
        } else {
            None::<ValueModel>
        }),
    decreases entries.len(),
{
    if entries.len() > 0 {
        lemma_env_find_is_model(entries.drop_last(), name);
    }
}

/// The variable store: an append-only list of bindings, read from the end,
/// so a later declaration of a name shadows — that is, overwrites — an
/// earlier one.
pub struct Environment {
    pub values: Vec<(String, RoxType)>,
}

impl View for Environment {
    type V = Map<Seq<char>, ValueModel>;

    open spec fn view(&self) -> Map<Seq<char>, ValueModel> {
        env_model(self.values@)
    }
}

impl Environment {
    pub fn new() -> (e: Environment)
        ensures
            e@ == Map::<Seq<char>, ValueModel>::empty(),
    {
        Environment { values: Vec::new() }
    }

    /// Look the name up; an unbound name is the undefined-variable error.
    pub fn get(&self, name: &String) -> (r: Result<RoxType, InterpreterError>)
        ensures
            match r {
                Ok(v) => self@.contains_key(name@) && v@ == self@[name@],
                Err(e) => !self@.contains_key(name@) && e.error_string@ == "Undefined variable"@,
            },
    {
        proof {
            lemma_env_find_is_model(self.values@, name@);
        }
        let ghost entries = self.values@;
        let mut i: usize = self.values.len();
        proof {
            assert(entries.take(entries.len() as int) =~= entries);
        }
        while i > 0
            invariant
                i <= entries.len(),
                self.values@ == entries,
                env_find(entries, name@) == env_find(entries.take(i as int), name@),
            decreases i,
        {
            i = i - 1;
            let hit = self.values[i].0 == *name;
            if hit {
                proof {
                    lemma_env_find_is_model(self.values@, name@);
                    assert(entries.take(i as int + 1).last() == entries[i as int]);
                    assert(env_find(entries.take(i as int + 1), name@) == Some(
                        entries[i as int].1@,
                    ));
                }
                return Ok(self.values[i].1.clone());
            }
            proof {
                assert(entries.take(i as int + 1).last() == entries[i as int]);
                assert(entries.take(i as int + 1).drop_last() =~= entries.take(i as int));
            }
        }
        proof {
            lemma_env_find_is_model(self.values@, name@);
            assert(entries.take(0) =~= Seq::<(String, RoxType)>::empty());
            assert(env_find(entries.take(0), name@) is None);
        }
        Err(InterpreterError { error_string: String::from_str("Undefined variable") })
    }

    /// Bind the name, overwriting any earlier binding of it.
    pub fn define(&mut self, name: String, value: RoxType)
        ensures
            final(self)@ == old(self)@.insert(name@, value@),
    {
        let ghost before = self.values@;
        self.values.push((name, value));
        proof {
            assert(self.values@.drop_last() =~= before);
        }
    }
}

// ----- the functional model of running statements -----

/// The observable state a run threads along: the environment and the values
/// printed so far, in order.
pub struct RunState {
    pub env: Map<Seq<char>, ValueModel>,
    pub out: Seq<ValueModel>,
}

/// What one statement does to the run's state, or the message of the
/// runtime error that stops it — in which case the state is untouched.
pub open spec fn exec_model(
    s: StmtModel,
    st: RunState,
    f: spec_fn(NumOp, u64, u64) -> u64,
) -> Result<RunState, Seq<char>> {
    match s {
        StmtModel::Expression(e) => match eval_model(e, st.env, f) {
            Ok(_) => Ok(st),
            Err(m) => Err(m),
        },
        StmtModel::Print(e) => match eval_model(e, st.env, f) {
            Ok(v) => Ok(RunState { env: st.env, out: st.out.push(v) }),
            Err(m) => Err(m),
        },
        StmtModel::Var(name, init) => match init {
            Some(e) => match eval_model(e, st.env, f) {
                Ok(v) => Ok(RunState { env: st.env.insert(name, v), out: st.out }),
                Err(m) => Err(m),
            },
            None => Ok(RunState { env: st.env.insert(name, ValueModel::Nil), out: st.out }),
        },
    }
}

/// What a statement sequence does: statements run left to right; the first
/// runtime error aborts the rest, but effects already performed — bindings
/// made, lines printed — persist.
pub open spec fn run_model(
    stmts: Seq<StmtModel>,
    st: RunState,
    f: spec_fn(NumOp, u64, u64) -> u64,
) -> (RunState, Option<Seq<char>>)
    decreases stmts.len(),
{
    if stmts.len() == 0 {
        (st, None)
    } else {
        match exec_model(stmts[0], st, f) {
            Ok(st2) => run_model(stmts.skip(1), st2, f),
            Err(m) => (st, Some(m)),
        }
    }
}

/// The view of the printed values, in print order.
pub open spec fn out_view(s: Seq<RoxType>) -> Seq<ValueModel> {
    s.map_values(|v: RoxType| v@)
}

proof fn lemma_out_view_push(s: Seq<RoxType>, v: RoxType)
    ensures
        out_view(s.push(v)) == out_view(s).push(v@),
{
    assert(out_view(s.push(v)) =~= out_view(s).push(v@));
}

// ----- the tree-walking interpreter -----

/// The tree-walking interpreter: one flat mutable environment, the values
/// printed so far (the caller renders and emits them), and whether a run
/// has ever hit a runtime error.
pub struct Interpreter {
    pub had_runtime_error: bool,
    pub environment: Environment,
    pub output: Vec<RoxType>,
}

impl Interpreter {
    /// The run state this interpreter is in, abstractly.
    pub open spec fn state(&self) -> RunState {
        RunState { env: self.environment@, out: out_view(self.output@) }
    }

    pub fn new() -> (r: Interpreter)
        ensures
            !r.had_runtime_error,
            r.state() == (RunState {
                env: Map::<Seq<char>, ValueModel>::empty(),
                out: Seq::<ValueModel>::empty(),
            }),
    {
        let r = Interpreter {
            had_runtime_error: false,
            environment: Environment::new(),
            output: Vec::new(),
        };
        proof {
            assert(out_view(r.output@) =~= Seq::<ValueModel>::empty());
        }
        r
    }

    /// Evaluate an expression against the current environment: exactly what
    /// `eval_model` says, for every binary64 arithmetic `f` the
    /// caller-supplied `ops` may implement.
    pub fn eval<F: Fn(NumOp, u64, u64) -> u64 + Copy>(&self, expr: &Expr, ops: F) -> (r: Result<
        RoxType,
        InterpreterError,
    >)
        requires
            ops_callable(ops),
        ensures
            forall|f: spec_fn(NumOp, u64, u64) -> u64|
                #[trigger] ops_consistent(ops, f) ==> match r {
                    Ok(v) => eval_model(expr@, self.environment@, f) == Ok::<
                        ValueModel,
                        Seq<char>,
                    >(v@),
                    Err(e) => eval_model(expr@, self.environment@, f) == Err::<
                        ValueModel,
                        Seq<char>,
                    >(e.error_string@),
                },
        decreases expr,
    {
        match expr {
            Expr::Literal(v) => Ok(v.clone()),
            Expr::Grouping(inner) => self.eval(inner, ops),
            Expr::Variable(name) => self.environment.get(name),
            Expr::Unary(op, inner) => {
                let v = match self.eval(inner, ops) {
                    Ok(v) => v,
                    Err(e) => {
                        return Err(e);
                    },
                };
                match op {
                    UnOp::Bang => Ok(RoxType::Boolean(!truthy(&v))),
                    UnOp::Minus => match v {
                        RoxType::Number(b) => Ok(RoxType::Number(ops(NumOp::Neg, b, 0))),
                        _ => Err(
                            InterpreterError {
                                error_string: String::from_str("Operand must be a number"),
                            },
                        ),
                    },
                }
            },
            Expr::Binary(l, op, r) => {
                let lv = match self.eval(l, ops) {
                    Ok(v) => v,
                    Err(e) => {
                        return Err(e);
                    },
                };
                let rv = match self.eval(r, ops) {
                    Ok(v) => v,
                    Err(e) => {
                        return Err(e);
                    },
                };
                eval_binary(*op, lv, rv, ops)
            },
        }
    }

    /// Run one statement: evaluate and discard, evaluate and record for
    /// printing, or evaluate and bind — exactly what `exec_model` says.
    pub fn execute<F: Fn(NumOp, u64, u64) -> u64 + Copy>(&mut self, stmt: &Stmt, ops: F) -> (r:
        Result<(), InterpreterError>)
        requires
            ops_callable(ops),
        ensures
            final(self).had_runtime_error == old(self).had_runtime_error,
            forall|f: spec_fn(NumOp, u64, u64) -> u64|
                #[trigger] ops_consistent(ops, f) ==> match r {
                    Ok(_) => exec_model(stmt@, old(self).state(), f) == Ok::<RunState, Seq<char>>(
                        final(self).state(),
                    ),
                    Err(e) => exec_model(stmt@, old(self).state(), f) == Err::<
                        RunState,
                        Seq<char>,
                    >(e.error_string@) && final(self).state() == old(self).state(),
                },
    {
        match stmt {
            Stmt::Expression(e) => {
                match self.eval(e, ops) {
                    Ok(_) => Ok(()),
                    Err(e) => Err(e),
                }
            },
            Stmt::Print(e) => {
                match self.eval(e, ops) {
                    Ok(v) => {
                        let ghost before = self.output@;
                        self.output.push(v);
                        proof {
                            lemma_out_view_push(before, v);
                        }
                        Ok(())
                    },
                    Err(e) => Err(e),
                }
            },
            Stmt::Var(tok, init) => {
                let v = match init {
                    Some(e) => {
                        match self.eval(e, ops) {
                            Ok(v) => v,
                            Err(e) => {
                                return Err(e);
                            },
                        }
                    },
                    None => RoxType::Nil,
                };
                self.environment.define(tok.lexeme.clone(), v);
                Ok(())
            },
        }
    }

    /// Run the statements left to right; the first runtime error aborts the
    /// rest — bindings and printed values already produced persist, and the
    /// interpreter remembers that the run failed.
    pub fn interpret<F: Fn(NumOp, u64, u64) -> u64 + Copy>(
        &mut self,
        statements: Vec<Stmt>,
        ops: F,
    ) -> (r: Result<(), InterpreterError>)
        requires
            ops_callable(ops),
        ensures
            forall|f: spec_fn(NumOp, u64, u64) -> u64|
                #[trigger] ops_consistent(ops, f) ==> {
                    let (st, err) = run_model(stmts_view(statements@), old(self).state(), f);
                    final(self).state() == st && match r {
                        Ok(_) => err is None && final(self).had_runtime_error == old(
                            self,
                        ).had_runtime_error,
                        Err(e) => err == Some(e.error_string@) && final(self).had_runtime_error,
                    }
                },
    {
        let mut k: usize = 0;
        proof {
            assert(stmts_view(statements@).skip(0) =~= stmts_view(statements@));
        }
        while k < statements.len()
            invariant
                ops_callable(ops),
                k <= statements@.len(),
                self.had_runtime_error == old(self).had_runtime_error,
                forall|f: spec_fn(NumOp, u64, u64) -> u64|
                    #[trigger] ops_consistent(ops, f) ==> run_model(
                        stmts_view(statements@),
                        old(self).state(),
                        f,
                    ) == run_model(stmts_view(statements@).skip(k as int), self.state(), f),
            decreases statements@.len() - k,
        {
            let ghost mid = self.state();
            let res = self.execute(&statements[k], ops);
            match res {
                Ok(_) => {},
                Err(e) => {
                    self.had_runtime_error = true;
                    proof {
                        assert forall|f: spec_fn(NumOp, u64, u64) -> u64|
                            #[trigger] ops_consistent(ops, f) implies run_model(
                            stmts_view(statements@),
                            old(self).state(),
                            f,
                        ) == (self.state(), Some::<Seq<char>>(e.error_string@)) by {
                            let rest = stmts_view(statements@).skip(k as int);
                            assert(rest[0] == statements@[k as int]@);
                            assert(rest.len() > 0);
                        }
                    }
                    return Err(e);
                },
            }
            k = k + 1;
            proof {
                assert forall|f: spec_fn(NumOp, u64, u64) -> u64|
                    #[trigger] ops_consistent(ops, f) implies run_model(
                    stmts_view(statements@),
                    old(self).state(),
                    f,
                ) == run_model(stmts_view(statements@).skip(k as int), self.state(), f) by {
                    let rest = stmts_view(statements@).skip(k as int - 1);
                    assert(rest[0] == statements@[k as int - 1]@);
                    assert(rest.len() > 0);
                    assert(rest.skip(1) =~= stmts_view(statements@).skip(k as int));
                }
            }
        }
        proof {
            assert(stmts_view(statements@).skip(statements@.len() as int).len() == 0);
        }
        Ok(())
    }
}

/// Apply one binary operator to two already-evaluated operands: exactly what
/// `eval_binary_model` says, for every binary64 arithmetic `f` the
/// caller-supplied `ops` may implement.
pub fn eval_binary<F: Fn(NumOp, u64, u64) -> u64 + Copy>(
    op: BinOp,
    lval: RoxType,
    rval: RoxType,
    ops: F,
) -> (r: Result<RoxType, InterpreterError>)
    requires
        ops_callable(ops),
    ensures
        forall|f: spec_fn(NumOp, u64, u64) -> u64|
            #[trigger] ops_consistent(ops, f) ==> match r {
                Ok(v) => eval_binary_model(op, lval@, rval@, f) == Ok::<ValueModel, Seq<char>>(v@),
                Err(e) => eval_binary_model(op, lval@, rval@, f) == Err::<ValueModel, Seq<char>>(
                    e.error_string@,
                ),
            },
{
    match op {
        BinOp::Plus => match (lval, rval) {
            (RoxType::Number(a), RoxType::Number(b)) => Ok(
                RoxType::Number(ops(NumOp::Add, a, b)),
            ),
            (RoxType::Str(a), RoxType::Str(b)) => {
                let mut s = a;
                s.append(b.as_str());
                Ok(RoxType::Str(s))
            },
            _ => Err(invalid_operands(op)),
        },
        BinOp::Minus => match (lval, rval) {
            (RoxType::Number(a), RoxType::Number(b)) => Ok(
                RoxType::Number(ops(NumOp::Sub, a, b)),
            ),
            _ => Err(invalid_operands(op)),
        },
        BinOp::Slash => match (lval, rval) {
            (RoxType::Number(a), RoxType::Number(b)) => Ok(
                RoxType::Number(ops(NumOp::Div, a, b)),
            ),
            _ => Err(invalid_operands(op)),
        },
        BinOp::Star => match (lval, rval) {
            (RoxType::Number(a), RoxType::Number(b)) => Ok(
                RoxType::Number(ops(NumOp::Mul, a, b)),
            ),
            _ => Err(invalid_operands(op)),
        },
        BinOp::Greater => match (lval, rval) {
            (RoxType::Number(a), RoxType::Number(b)) => Ok(
                RoxType::Boolean(ops(NumOp::Gt, a, b) != 0),
            ),
            _ => Err(invalid_operands(op)),
        },
        BinOp::GreaterEqual => match (lval, rval) {
            (RoxType::Number(a), RoxType::Number(b)) => Ok(
                RoxType::Boolean(ops(NumOp::Ge, a, b) != 0),
            ),
            _ => Err(invalid_operands(op)),
        },
        BinOp::Less => match (lval, rval) {
            (RoxType::Number(a), RoxType::Number(b)) => Ok(
                RoxType::Boolean(ops(NumOp::Lt, a, b) != 0),
            ),
            _ => Err(invalid_operands(op)),
        },
        BinOp::LessEqual => match (lval, rval) {
            (RoxType::Number(a), RoxType::Number(b)) => Ok(
                RoxType::Boolean(ops(NumOp::Le, a, b) != 0),
            ),
            _ => Err(invalid_operands(op)),
        },
        BinOp::EqualEqual => Ok(RoxType::Boolean(value_equals(&lval, &rval))),
        BinOp::BangEqual => Ok(RoxType::Boolean(!value_equals(&lval, &rval))),
    }
}

// ----- laws of evaluation -----

/// Value equality is reflexive: every value, of any kind, equals itself.
pub proof fn lemma_value_eq_reflexive(v: ValueModel)
    ensures
        value_eq_model(v, v),
{
}

/// Value equality is symmetric.
pub proof fn lemma_value_eq_symmetric(a: ValueModel, b: ValueModel)
    ensures
        value_eq_model(a, b) == value_eq_model(b, a),
{
}

/// Whether two values are of the same kind.
pub open spec fn same_kind(a: ValueModel, b: ValueModel) -> bool {
    match (a, b) {
        (ValueModel::Str(_), ValueModel::Str(_)) => true,
        (ValueModel::Num(_), ValueModel::Num(_)) => true,
        (ValueModel::Bool(_), ValueModel::Bool(_)) => true,
        (ValueModel::Nil, ValueModel::Nil) => true,
        _ => false,
    }
}

/// Values of different kinds are never equal; in particular nil equals
/// nothing but nil.
pub proof fn lemma_value_eq_cross_kind(a: ValueModel, b: ValueModel)
    ensures
        !same_kind(a, b) ==> !value_eq_model(a, b),
{
}

/// `+` on two numbers asks the caller's arithmetic for their sum — the
/// addition operation, not any other — whatever the environment.
pub proof fn lemma_plus_adds_numbers(
    a: u64,
    b: u64,
    env: Map<Seq<char>, ValueModel>,
    f: spec_fn(NumOp, u64, u64) -> u64,
)
    ensures
        eval_model(
            ExprModel::Binary(
                Box::new(ExprModel::Literal(ValueModel::Num(a))),
                BinOp::Plus,
                Box::new(ExprModel::Literal(ValueModel::Num(b))),
            ),
            env,
            f,
        ) == Ok::<ValueModel, Seq<char>>(ValueModel::Num(f(NumOp::Add, a, b))),
{
    assert(eval_model(ExprModel::Literal(ValueModel::Num(a)), env, f) == Ok::<
        ValueModel,
        Seq<char>,
    >(ValueModel::Num(a)));
    assert(eval_model(ExprModel::Literal(ValueModel::Num(b)), env, f) == Ok::<
        ValueModel,
        Seq<char>,
    >(ValueModel::Num(b)));
}

/// `+` on two strings concatenates them, left then right, whatever the
/// environment and whatever the caller's arithmetic.
pub proof fn lemma_plus_concatenates(
    a: Seq<char>,
    b: Seq<char>,
    env: Map<Seq<char>, ValueModel>,
    f: spec_fn(NumOp, u64, u64) -> u64,
)
    ensures
        eval_model(
            ExprModel::Binary(
                Box::new(ExprModel::Literal(ValueModel::Str(a))),
                BinOp::Plus,
                Box::new(ExprModel::Literal(ValueModel::Str(b))),
            ),
            env,
            f,
        ) == Ok::<ValueModel, Seq<char>>(ValueModel::Str(a + b)),
{
    assert(eval_model(ExprModel::Literal(ValueModel::Str(a)), env, f) == Ok::<
        ValueModel,
        Seq<char>,
    >(ValueModel::Str(a)));
    assert(eval_model(ExprModel::Literal(ValueModel::Str(b)), env, f) == Ok::<
        ValueModel,
        Seq<char>,
    >(ValueModel::Str(b)));
}

/// `!` negates truthiness: nil and false come out true, every other
/// value — the number zero and the empty string included — comes out false.
pub proof fn lemma_bang_negates_truthiness(
    v: ValueModel,
    env: Map<Seq<char>, ValueModel>,
    f: spec_fn(NumOp, u64, u64) -> u64,
)
    ensures
        eval_model(
            ExprModel::Unary(UnOp::Bang, Box::new(ExprModel::Literal(v))),
            env,
            f,
        ) == Ok::<ValueModel, Seq<char>>(ValueModel::Bool(!truthy_model(v))),
{
    assert(eval_model(ExprModel::Literal(v), env, f) == Ok::<ValueModel, Seq<char>>(v));
}

/// A grouping is transparent to evaluation: parenthesising an expression
/// never changes what it evaluates to. Printing an expression parenthesises
/// every composite node, so the printed form parses back to a tree that
/// differs only by groupings and evaluates the same way.
pub proof fn lemma_grouping_transparent(
    e: ExprModel,
    env: Map<Seq<char>, ValueModel>,
    f: spec_fn(NumOp, u64, u64) -> u64,
)
    ensures
        eval_model(ExprModel::Grouping(Box::new(e)), env, f) == eval_model(e, env, f),
{
}

/// The regrouped tree — the shape the printed form parses back to —
/// evaluates exactly as the original, in every environment and under any
/// arithmetic.
pub proof fn lemma_regroup_preserves_eval(
    e: ExprModel,
    env: Map<Seq<char>, ValueModel>,
    f: spec_fn(NumOp, u64, u64) -> u64,
)
    ensures
        eval_model(crate::parser::regroup(e), env, f) == eval_model(e, env, f),
    decreases e,
{
    match e {
        ExprModel::Literal(_) => {
            assert(crate::parser::regroup(e) == e);
        },
        ExprModel::Variable(_) => {
            assert(crate::parser::regroup(e) == e);
        },
        ExprModel::Grouping(inner) => {
            lemma_regroup_preserves_eval(*inner, env, f);
            assert(crate::parser::regroup(e) == ExprModel::Grouping(
                Box::new(crate::parser::regroup(*inner)),
            ));
            assert(eval_model(crate::parser::regroup(e), env, f) == eval_model(
                crate::parser::regroup(*inner),
                env,
                f,
            ));
            assert(eval_model(e, env, f) == eval_model(*inner, env, f));
        },
        ExprModel::Unary(op, inner) => {
            lemma_regroup_preserves_eval(*inner, env, f);
            let u = ExprModel::Unary(op, Box::new(crate::parser::regroup(*inner)));
            assert(crate::parser::regroup(e) == ExprModel::Grouping(Box::new(u)));
            assert(eval_model(crate::parser::regroup(e), env, f) == eval_model(u, env, f));
        },
        ExprModel::Binary(l, op, r) => {
            lemma_regroup_preserves_eval(*l, env, f);
            lemma_regroup_preserves_eval(*r, env, f);
            let b = ExprModel::Binary(
                Box::new(crate::parser::regroup(*l)),
                op,
                Box::new(crate::parser::regroup(*r)),
            );
            assert(crate::parser::regroup(e) == ExprModel::Grouping(Box::new(b)));
            assert(eval_model(crate::parser::regroup(e), env, f) == eval_model(b, env, f));
        },
    }
}

/// The round trip, at the token level: the token form of a printed
/// expression, closed with a semicolon — `printed_stmt_tokens` — parses
/// back with no diagnostics to a single expression statement that evaluates
/// to the same value as the original expression, whatever the environment
/// and the arithmetic. Lexing the printed text into exactly those tokens is
/// not stated here: it fails for a string literal that itself carries a
/// quote, or a number the formatter `d` does not write as a plain numeric
/// literal.
pub proof fn lemma_print_parse_round_trip(
    e: ExprModel,
    d: spec_fn(u64) -> Seq<char>,
    line: int,
    env: Map<Seq<char>, ValueModel>,
    f: spec_fn(NumOp, u64, u64) -> u64,
)
    ensures
        crate::parser::p_program(crate::parser::printed_stmt_tokens(e, d, line), 0) == (
            seq![StmtModel::Expression(crate::parser::regroup(e))],
            Seq::<crate::parser::ParseErrModel>::empty(),
        ),
        eval_model(crate::parser::regroup(e), env, f) == eval_model(e, env, f),
{
    crate::parser::lemma_parse_printed_program(e, d, line);
    lemma_regroup_preserves_eval(e, env, f);
}

/// Reading a variable that no declaration has bound in the run is the
/// undefined-variable error, for every name.
pub proof fn lemma_unbound_variable(name: Seq<char>, f: spec_fn(NumOp, u64, u64) -> u64)
    ensures
        eval_model(ExprModel::Variable(name), Map::empty(), f) == Err::<ValueModel, Seq<char>>(
            "Undefined variable"@,
        ),
{
    assert(!Map::<Seq<char>, ValueModel>::empty().contains_key(name));
}

/// The runtime error for operands a binary operator cannot take, naming
/// the operator.
fn invalid_operands(op: BinOp) -> (e: InterpreterError)
    ensures
        e.error_string@ == invalid_operands_msg(op),
{
    let mut s = String::from_str("Invalid operand types for ");
    s.append(crate::expr::binop_str(op));
    InterpreterError { error_string: s }
}

// ----- the whole pipeline -----

/// What one run of a source text came to: scan diagnostics mean nothing was
/// parsed or evaluated; parse diagnostics mean nothing was evaluated; and
/// otherwise the statements ran until done or until the first runtime error.
pub enum RunOutcome {
    ScanTrouble(Vec<crate::scanner::ScanError>),
    ParseTrouble(Vec<crate::parser::ParseErr>),
    Executed(Result<(), InterpreterError>),
}

/// Scan, parse and execute one source text against the interpreter. Source
/// with any scan or parse diagnostic is reported and never evaluated; the
/// interpreter is then untouched. Otherwise the program runs exactly as
/// `run_model` says over the scanned and parsed program.
pub fn run<P: Fn(String) -> u64 + Copy, F: Fn(NumOp, u64, u64) -> u64 + Copy>(
    source: Vec<char>,
    interpreter: &mut Interpreter,
    p: P,
    ops: F,
) -> (r: RunOutcome)
    requires
        crate::scanner::parse_callable(p),
        ops_callable(ops),
        source@.len() < usize::MAX,
    ensures
        forall|g: spec_fn(Seq<char>) -> u64, f: spec_fn(NumOp, u64, u64) -> u64|
            #[trigger] crate::scanner::parse_consistent(p, g) && #[trigger] ops_consistent(ops, f)
                ==> {
                let scanned = crate::scanner::scan_spec(source@, 0, 1, g);
                let parsed = crate::parser::p_program(scanned.tokens, 0);
                match r {
                    RunOutcome::ScanTrouble(es) => {
                        &&& scanned.errors.len() > 0
                        &&& crate::scanner::errors_view(es@) == scanned.errors
                        &&& final(interpreter).state() == old(interpreter).state()
                        &&& final(interpreter).had_runtime_error
                            == old(interpreter).had_runtime_error
                    },
                    RunOutcome::ParseTrouble(es) => {
                        &&& scanned.errors.len() == 0
                        &&& parsed.1.len() > 0
                        &&& crate::parser::perrs_view(es@) == parsed.1
                        &&& final(interpreter).state() == old(interpreter).state()
                        &&& final(interpreter).had_runtime_error
                            == old(interpreter).had_runtime_error
                    },
                    RunOutcome::Executed(res) => {
                        let (st, err) = run_model(parsed.0, old(interpreter).state(), f);
                        &&& scanned.errors.len() == 0
                        &&& parsed.1.len() == 0
                        &&& final(interpreter).state() == st
                        &&& match res {
                            Ok(_) => err is None && final(interpreter).had_runtime_error
                                == old(interpreter).had_runtime_error,
                            Err(e) => err == Some(e.error_string@)
                                && final(interpreter).had_runtime_error,
                        }
                    },
                }
            },
{
    let mut scanner = crate::scanner::Scanner::new(source);
    let tokens = scanner.scan_tokens(p);
    if scanner.errors.len() > 0 {
        return RunOutcome::ScanTrouble(scanner.errors);
    }
    let mut parser = crate::parser::Parser::new(tokens);
    let (statements, errors) = parser.parse();
    if errors.len() > 0 {
        return RunOutcome::ParseTrouble(errors);
    }
    RunOutcome::Executed(interpreter.interpret(statements, ops))
}

} // verus!
