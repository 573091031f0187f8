//! The tree-walking evaluator and its variable environment: a single flat
//! name-to-value binding set, mutated only by `Let` execution and read by
//! identifier evaluation.
//!
//! Numeric evaluation is performed in a single 64-bit signed integer
//! domain: a float literal is truncated to its integer part when it enters
//! a computation, and the arithmetic operators wrap on overflow in
//! two's-complement fashion.  Division truncates toward zero; a zero
//! divisor is an evaluation error, never a trap.

use vstd::prelude::*;
use vstd::string::StringExecFns;
use crate::parser::{Expression, ExpressionModel, Statement, StatementModel};
use crate::text::str_eq;
use crate::token::{TokenModel, TokenType};

verus! {

// ---------------------------------------------------------------------------
// Evaluation errors
// ---------------------------------------------------------------------------
/// The closed set of evaluation failures.
#[derive(Debug, PartialEq)]
pub enum EvalError {
    UndefinedVariable(String),
    UnsupportedOperator(TokenType),
    DivisionByZero,
}

/// The mathematical image of an evaluation failure.
pub enum EvalErrorModel {
    UndefinedVariable(Seq<char>),
    UnsupportedOperator(TokenModel),
    DivisionByZero,
}

impl View for EvalError {
    type V = EvalErrorModel;

    open spec fn view(&self) -> EvalErrorModel {
        match self {
            EvalError::UndefinedVariable(n) => EvalErrorModel::UndefinedVariable(n@),
            EvalError::UnsupportedOperator(t) => EvalErrorModel::UnsupportedOperator(t@),
            EvalError::DivisionByZero => EvalErrorModel::DivisionByZero,
        }
    }
}

impl EvalError {
    /// The one-line message naming the failing statement's cause.
    pub fn message(&self) -> (r: String)
        ensures
            match self@ {
                EvalErrorModel::UndefinedVariable(n) => r@ == "Variable '"@ + n + "' not found"@,
                EvalErrorModel::UnsupportedOperator(_) => r@ == "Unsupported operator"@,
                EvalErrorModel::DivisionByZero => r@ == "Division by zero"@,
            },
    {
        match self {
            EvalError::UndefinedVariable(n) => {
                let mut r = String::new();
                r.append("Variable '");
                r.append(n.as_str());
                r.append("' not found");
                assert(r@ =~= "Variable '"@ + n@ + "' not found"@);
                r
            },
            EvalError::UnsupportedOperator(_) => {
                let mut r = String::new();
                r.append("Unsupported operator");
                assert(r@ =~= "Unsupported operator"@);
                r
            },
            EvalError::DivisionByZero => {
                let mut r = String::new();
                r.append("Division by zero");
                assert(r@ =~= "Division by zero"@);
                r
            },
        }
    }
}

// ---------------------------------------------------------------------------
// The semantics, as spec functions
// ---------------------------------------------------------------------------
/// 64-bit division truncating toward zero; the one overflowing quotient
/// wraps to the minimum value.  The divisor is never zero here.
pub open spec fn spec_wrap_div(a: i64, b: i64) -> i64 {
    match a.checked_div(b) {
        Some(q) => q,
        None => i64::MIN,
    }
}

/// Applies a binary operator token to two evaluated operands.
pub open spec fn spec_apply_binop(op: TokenModel, a: i64, b: i64) -> Result<i64, EvalErrorModel> {
    match op {
        TokenModel::Plus => Ok(a.wrapping_add(b)),
        TokenModel::Minus => Ok(a.wrapping_sub(b)),
        TokenModel::Star => Ok(a.wrapping_mul(b)),
        TokenModel::Slash => if b == 0 {
            Err(EvalErrorModel::DivisionByZero)
        } else {
            Ok(spec_wrap_div(a, b))
        },
        _ => Err(EvalErrorModel::UnsupportedOperator(op)),
    }
}

/// The value of an expression under a binding set.  Literals reduce to
/// themselves (a float to its integer part); an identifier reads its
/// binding; negation and the four operators work on the 64-bit integer
/// domain, left operand before right.
pub open spec fn spec_eval(m: Map<Seq<char>, i64>, e: ExpressionModel) -> Result<
    i64,
    EvalErrorModel,
>
    decreases e,
{
    match e {
        ExpressionModel::Int(v) => Ok(v),
        ExpressionModel::Float(ip, fr) => Ok(ip),
        ExpressionModel::Identifier(n) => if m.contains_key(n) {
            Ok(m[n])
        } else {
            Err(EvalErrorModel::UndefinedVariable(n))
        },
        ExpressionModel::Negation(inner) => match spec_eval(m, *inner) {
            Ok(v) => Ok((0i64).wrapping_sub(v)),
            Err(er) => Err(er),
        },
        ExpressionModel::Binary(l, op, r) => match spec_eval(m, *l) {
            Ok(a) => match spec_eval(m, *r) {
                Ok(b) => spec_apply_binop(op, a, b),
                Err(er) => Err(er),
            },
            Err(er) => Err(er),
        },
    }
}

/// What executing one statement does: the new binding set and either the
/// statement's effect or its error.  A failing statement leaves the
/// binding set untouched.
pub open spec fn spec_execute(m: Map<Seq<char>, i64>, stmt: StatementModel) -> (
    Map<Seq<char>, i64>,
    Result<StmtEffect, EvalErrorModel>,
) {
    match stmt {
        StatementModel::Let(name, e) => match spec_eval(m, e) {
            Ok(v) => (m.insert(name, v), Ok(StmtEffect::Silent)),
            Err(er) => (m, Err(er)),
        },
        StatementModel::Print(e) => match spec_eval(m, e) {
            Ok(v) => (m, Ok(StmtEffect::Printed(v))),
            Err(er) => (m, Err(er)),
        },
        StatementModel::Return(e) => match spec_eval(m, e) {
            Ok(v) => (m, Ok(StmtEffect::Returned(v))),
            Err(er) => (m, Err(er)),
        },
        StatementModel::Expression(e) => match spec_eval(m, e) {
            Ok(v) => (m, Ok(StmtEffect::Silent)),
            Err(er) => (m, Err(er)),
        },
    }
}

/// The observable effect of one executed statement: nothing, a value to
/// print, or a value returned (which ends the statement sequence).
#[derive(Debug, PartialEq, Eq, Structural, Clone, Copy)]
pub enum StmtEffect {
    Silent,
    Printed(i64),
    Returned(i64),
}

// ---------------------------------------------------------------------------
// The association list holding the bindings
// ---------------------------------------------------------------------------
/// The binding set an association list stands for; a later entry for the
/// same name wins.
pub open spec fn assoc_map(s: Seq<(String, i64)>) -> Map<Seq<char>, i64>
    decreases s.len(),
{
    if s.len() == 0 {
        Map::empty()
    } else {
        assoc_map(s.drop_last()).insert(s.last().0@, s.last().1)
    }
}

proof fn lemma_assoc_absent(s: Seq<(String, i64)>, k: Seq<char>)
    requires
        forall|i: int| 0 <= i < s.len() ==> (#[trigger] s[i]).0@ != k,
    ensures
        !assoc_map(s).contains_key(k),
    decreases s.len(),
{
    if s.len() > 0 {
        lemma_assoc_absent(s.drop_last(), k);
    }
}

proof fn lemma_assoc_found(s: Seq<(String, i64)>, i: int)
    requires
        0 <= i < s.len(),
        forall|a: int, b: int| 0 <= a < b < s.len() ==> (#[trigger] s[a]).0@ != (#[trigger] s[b]).0@,
    ensures
        assoc_map(s).contains_key(s[i].0@),
        assoc_map(s)[s[i].0@] == s[i].1,
    decreases s.len(),
{
    if i == s.len() - 1 {
    } else {
        lemma_assoc_found(s.drop_last(), i);
        assert(s.drop_last()[i] == s[i]);
        assert(s.last().0@ != s[i].0@);
    }
}

proof fn lemma_assoc_update(s: Seq<(String, i64)>, i: int, t: (String, i64))
    requires
        0 <= i < s.len(),
        t.0@ == s[i].0@,
        forall|a: int, b: int| 0 <= a < b < s.len() ==> (#[trigger] s[a]).0@ != (#[trigger] s[b]).0@,
    ensures
        assoc_map(s.update(i, t)) == assoc_map(s).insert(t.0@, t.1),
    decreases s.len(),
{
    let u = s.update(i, t);
    if i == s.len() - 1 {
        assert(u.drop_last() =~= s.drop_last());
        assert(u.last() == t);
        assert(assoc_map(u) == assoc_map(s.drop_last()).insert(t.0@, t.1));
        assert(assoc_map(s) == assoc_map(s.drop_last()).insert(s.last().0@, s.last().1));
        assert(assoc_map(s).insert(t.0@, t.1) =~= assoc_map(s.drop_last()).insert(t.0@, t.1));
    } else {
        assert(u.drop_last() =~= s.drop_last().update(i, t));
        assert(u.last() == s.last());
        assert(s.drop_last()[i] == s[i]);
        lemma_assoc_update(s.drop_last(), i, t);
        assert(s.last().0@ != t.0@);
        assert(assoc_map(u) == assoc_map(s.drop_last()).insert(t.0@, t.1).insert(
            s.last().0@,
            s.last().1,
        ));
        assert(assoc_map(s.drop_last()).insert(t.0@, t.1).insert(s.last().0@, s.last().1)
            =~= assoc_map(s.drop_last()).insert(s.last().0@, s.last().1).insert(t.0@, t.1));
    }
}

// ---------------------------------------------------------------------------
// The environment
// ---------------------------------------------------------------------------
/// The run-time name-to-value binding set: one flat namespace, keys
/// unique, last writer wins.
pub struct Environment {
    variables: Vec<(String, i64)>,
}

impl View for Environment {
    type V = Map<Seq<char>, i64>;

    closed spec fn view(&self) -> Map<Seq<char>, i64> {
        assoc_map(self.variables@)
    }
}

impl Environment {
    /// Keys are unique: each name is bound at most once.
    pub closed spec fn wf(self) -> bool {
        forall|a: int, b: int|
            0 <= a < b < self.variables@.len() ==> (#[trigger] self.variables@[a]).0@ != (
            #[trigger] self.variables@[b]).0@
    }

    /// Creates an empty environment.
    pub fn new() -> (r: Environment)
        ensures
            r@ == Map::<Seq<char>, i64>::empty(),
            r.wf(),
    {
        let r = Environment { variables: Vec::new() };
        proof {
            assert(r.variables@.len() == 0);
        }
        r
    }

    /// Reads a binding; `None` exactly when the name is unbound.
    pub fn get(&self, name: &str) -> (r: Option<i64>)
        requires
            self.wf(),
        ensures
            r == if self@.contains_key(name@) {
                Some(self@[name@])
            } else {
                None::<i64>
            },
    {
        let n = self.variables.len();
        let mut i: usize = 0;
        while i < n
            invariant
                self.wf(),
                n == self.variables.len(),
                i <= n,
                forall|k: int| 0 <= k < i ==> (#[trigger] self.variables@[k]).0@ != name@,
            decreases n - i,
        {
            if str_eq(self.variables[i].0.as_str(), name) {
                proof {
                    lemma_assoc_found(self.variables@, i as int);
                }
                return Some(self.variables[i].1);
            }
            i += 1;
        }
        proof {
            lemma_assoc_absent(self.variables@, name@);
        }
        None
    }

    /// Binds a value to a name, overwriting any prior binding.
    pub fn set(&mut self, name: String, value: i64)
        requires
            old(self).wf(),
        ensures
            final(self).wf(),
            final(self)@ == old(self)@.insert(name@, value),
    {
        let n = self.variables.len();
        let mut i: usize = 0;
        while i < n
            invariant
                *self == *old(self),
                self.wf(),
                n == self.variables.len(),
                i <= n,
                forall|k: int| 0 <= k < i ==> (#[trigger] self.variables@[k]).0@ != name@,
            decreases n - i,
        {
            if str_eq(self.variables[i].0.as_str(), name.as_str()) {
                proof {
                    lemma_assoc_update(self.variables@, i as int, (name, value));
                }
                self.variables[i] = (name, value);
                return ;
            }
            i += 1;
        }
        let ghost before = self.variables@;
        self.variables.push((name, value));
        proof {
            assert(self.variables@.drop_last() =~= before);
        }
    }

    /// Evaluates an expression against the current bindings; pure with
    /// respect to the environment except for reads.
    pub fn eval_expression(&self, expr: &Expression) -> (r: Result<i64, EvalError>)
        requires
            self.wf(),
        ensures
            match spec_eval(self@, expr@) {
                Ok(v) => r matches Ok(w) && w == v,
                Err(m) => r matches Err(er) && er@ == m,
            },
        decreases expr,
    {
        match expr {
            Expression::Int(v) => Ok(*v),
            Expression::Float(ip, _fr) => Ok(*ip),
            Expression::Identifier(n) => {
                match self.get(n.as_str()) {
                    Some(v) => Ok(v),
                    None => Err(EvalError::UndefinedVariable(n.clone())),
                }
            },
            Expression::Negation(inner) => {
                let v = self.eval_expression(inner)?;
                Ok((0i64).wrapping_sub(v))
            },
            Expression::Binary(l, op, r) => {
                let a = self.eval_expression(l)?;
                let b = self.eval_expression(r)?;
                match op {
                    TokenType::Plus => Ok(a.wrapping_add(b)),
                    TokenType::Minus => Ok(a.wrapping_sub(b)),
                    TokenType::Star => Ok(a.wrapping_mul(b)),
                    TokenType::Slash => {
                        if b == 0 {
                            Err(EvalError::DivisionByZero)
                        } else {
                            match a.checked_div(b) {
                                Some(q) => Ok(q),
                                None => Ok(i64::MIN),
                            }
                        }
                    },
                    other => Err(EvalError::UnsupportedOperator(other.clone())),
                }
            },
        }
    }

    /// Executes one statement: `Let` evaluates and rebinds, `Print` hands
    /// the value to print back to the caller, `Return` hands back the value
    /// ending the sequence, and a bare expression is evaluated for its
    /// errors alone.  A failing statement leaves the bindings untouched.
    pub fn execute(&mut self, stmt: &Statement) -> (r: Result<StmtEffect, EvalError>)
        requires
            old(self).wf(),
        ensures
            final(self).wf(),
            ({
                let (m2, res) = spec_execute(old(self)@, stmt@);
                &&& final(self)@ == m2
                &&& match res {
                    Ok(eff) => r matches Ok(e) && e == eff,
                    Err(m) => r matches Err(er) && er@ == m,
                }
            }),
    {
        match stmt {
            Statement::Let(name, expr) => {
                let v = self.eval_expression(expr)?;
                self.set(name.clone(), v);
                Ok(StmtEffect::Silent)
            },
            Statement::Print(expr) => {
                let v = self.eval_expression(expr)?;
                Ok(StmtEffect::Printed(v))
            },
            Statement::Return(expr) => {
                let v = self.eval_expression(expr)?;
                Ok(StmtEffect::Returned(v))
            },
            Statement::Expression(expr) => {
                let _v = self.eval_expression(expr)?;
                Ok(StmtEffect::Silent)
            },
        }
    }

    /// Runs a parsed program: statements execute in order; a failing
    /// statement is recorded and the run continues with the next one (the
    /// recoverable-per-statement policy); a `Return` ends the run with its
    /// value.  Printed values are collected in order.
    pub fn run_program(&mut self, stmts: &Vec<Statement>) -> (r: RunOutcome)
        requires
            old(self).wf(),
        ensures
            final(self).wf(),
            ({
                let out = spec_run(old(self)@, stmts@.map_values(|s: Statement| s@));
                &&& final(self)@ == out.0
                &&& r.outputs@ == out.1
                &&& r.errors@.map_values(|e: EvalError| e@) == out.2
                &&& r.returned == out.3
            }),
    {
        let ghost models = stmts@.map_values(|s: Statement| s@);
        let n = stmts.len();
        let mut outputs: Vec<i64> = Vec::new();
        let mut errors: Vec<EvalError> = Vec::new();
        let mut i: usize = 0;
        proof {
            assert(models.skip(0) =~= models);
            assert(errors@.map_values(|e: EvalError| e@) =~= Seq::<EvalErrorModel>::empty());
            assert(outputs@ + spec_run(self@, models).1 =~= spec_run(self@, models).1);
            assert(errors@.map_values(|e: EvalError| e@) + spec_run(self@, models).2 =~= spec_run(
                self@,
                models,
            ).2);
        }
        loop
            invariant_except_break
                ({
                    let out = spec_run(old(self)@, models);
                    let rest = spec_run(self@, models.skip(i as int));
                    &&& out.0 == rest.0
                    &&& out.1 == outputs@ + rest.1
                    &&& out.2 == errors@.map_values(|e: EvalError| e@) + rest.2
                    &&& out.3 == rest.3
                }),
            invariant
                self.wf(),
                models == stmts@.map_values(|s: Statement| s@),
                n == stmts@.len(),
                0 <= i <= n,
            ensures
                self.wf(),
                ({
                    let out = spec_run(old(self)@, models);
                    &&& self@ == out.0
                    &&& out.1 == outputs@
                    &&& out.2 == errors@.map_values(|e: EvalError| e@)
                    &&& out.3 is None
                }),
            decreases n - i,
        {
            if i >= n {
                proof {
                    let rest = spec_run(self@, models.skip(i as int));
                    assert(models.skip(i as int) =~= Seq::<StatementModel>::empty());
                    assert(outputs@ + rest.1 =~= outputs@);
                    assert(errors@.map_values(|e: EvalError| e@) + rest.2 =~= errors@.map_values(
                        |e: EvalError| e@,
                    ));
                }
                break;
            }
            proof {
                assert(models.skip(i as int)[0] == models[i as int]);
                assert(models.skip(i as int).drop_first() =~= models.skip(i + 1));
                assert(models[i as int] == stmts@[i as int]@);
            }
            let res = self.execute(&stmts[i]);
            match res {
                Ok(StmtEffect::Returned(v)) => {
                    proof {
                        let rest = spec_run(self@, models.skip(i + 1));
                        assert(outputs@ + Seq::<i64>::empty() =~= outputs@);
                        assert(errors@.map_values(|e: EvalError| e@) + Seq::<
                            EvalErrorModel,
                        >::empty() =~= errors@.map_values(|e: EvalError| e@));
                    }
                    return RunOutcome { outputs, errors, returned: Some(v) };
                },
                Ok(StmtEffect::Printed(v)) => {
                    proof {
                        let rest = spec_run(self@, models.skip(i + 1));
                        assert(outputs@.push(v) + rest.1 =~= outputs@ + (seq![v] + rest.1));
                    }
                    outputs.push(v);
                },
                Ok(StmtEffect::Silent) => {},
                Err(er) => {
                    let ghost gm = er@;
                    proof {
                        let rest = spec_run(self@, models.skip(i + 1));
                        assert(errors@.map_values(|e: EvalError| e@).push(gm) + rest.2
                            =~= errors@.map_values(|e: EvalError| e@) + (seq![gm] + rest.2));
                    }
                    let ghost olderrs = errors@;
                    errors.push(er);
                    proof {
                        assert(errors@ =~= olderrs.push(errors@.last()));
                        assert(errors@.map_values(|e: EvalError| e@) =~= olderrs.map_values(
                            |e: EvalError| e@,
                        ).push(gm));
                    }
                },
            }
            i = i + 1;
        }
        RunOutcome { outputs, errors, returned: None }
    }
}

/// What one program run produced: the printed values in order, the
/// evaluation errors in order, and the returned value where a `Return`
/// statement ended the run.
#[derive(Debug)]
pub struct RunOutcome {
    pub outputs: Vec<i64>,
    pub errors: Vec<EvalError>,
    pub returned: Option<i64>,
}

/// Runs a statement sequence from a binding set: the resulting binding
/// set, the printed values, the recorded errors, and the returned value
/// where a `Return` ended the run early.
pub open spec fn spec_run(m: Map<Seq<char>, i64>, stmts: Seq<StatementModel>) -> (
    Map<Seq<char>, i64>,
    Seq<i64>,
    Seq<EvalErrorModel>,
    Option<i64>,
)
    decreases stmts.len(),
{
    if stmts.len() == 0 {
        (m, Seq::empty(), Seq::empty(), None)
    } else {
        let (m1, res) = spec_execute(m, stmts[0]);
        match res {
            Ok(StmtEffect::Returned(v)) => (m1, Seq::empty(), Seq::empty(), Some(v)),
            Ok(StmtEffect::Printed(v)) => {
                let rest = spec_run(m1, stmts.drop_first());
                (rest.0, seq![v] + rest.1, rest.2, rest.3)
            },
            Ok(StmtEffect::Silent) => spec_run(m1, stmts.drop_first()),
            Err(er) => {
                let rest = spec_run(m1, stmts.drop_first());
                (rest.0, rest.1, seq![er] + rest.2, rest.3)
            },
        }
    }
}

} // verus!
