//! The tree-walking evaluator. `spec_eval` / `spec_exec` give the language
//! its mathematical semantics: expression evaluation threads the variable
//! environment through (increments and decrements write back to it), and
//! statement execution additionally threads the printed output and a fuel
//! bound on the iterations every `while` loop may take. The executable
//! interpreter implements that semantics exactly, fuel included: a run that
//! would exceed the bound reports so instead of diverging, and the caller
//! may retry with a larger bound.
//!
//! Failures are observable, not swallowed: reading an undeclared identifier
//! is a runtime error that aborts the run, the same way a failing assignment
//! is, and the first error ends the whole statement sequence.

use vstd::prelude::*;

use crate::ast::ExprView;
use crate::ast::Expression;
use crate::ast::Operator;
use crate::ast::Statement;
use crate::ast::StmtView;
use crate::ast::Type;
use crate::ast::elif_views;
use crate::ast::expr_view;
use crate::ast::lemma_elif_views_index;
use crate::ast::lemma_stmts_view_index;
use crate::ast::stmts_view;
use crate::environment::Environment;
use crate::value::ErrorView;
use crate::value::RuntimeError;
use crate::value::Value;
use crate::value::ValueView;
use crate::value::apply_arithmetic;
use crate::value::apply_comparison;
use crate::value::arith_value;
use crate::value::compare_value;
use crate::value::fits_i64;
use crate::value::render_view;
use crate::value::truthy;
use crate::value::type_matches;

verus! {

/// The variable bindings: name to current value and declared type.
pub type EnvMap = Map<Seq<char>, (ValueView, Option<Type>)>;

/// The observable state of a run: the bindings and the lines printed so far.
#[verifier::ext_equal]
pub struct RunState {
    pub env: EnvMap,
    pub out: Seq<Seq<char>>,
}

/// What a binary operator yields on two evaluated operands. Arithmetic
/// degrades to `Nil` rather than failing; logical operators combine
/// truthiness; ordering on non-numbers is an error; an operator with no
/// binary rule (`!`, the `=` marker) yields `Nil`.
pub open spec fn binary_value(op: Operator, a: ValueView, b: ValueView) -> Result<
    ValueView,
    ErrorView,
> {
    match op {
        Operator::Plus => Ok(arith_value(op, a, b)),
        Operator::Minus => Ok(arith_value(op, a, b)),
        Operator::Star => Ok(arith_value(op, a, b)),
        Operator::Slash => Ok(arith_value(op, a, b)),
        Operator::Percent => Ok(arith_value(op, a, b)),
        Operator::Pow => Ok(arith_value(op, a, b)),
        Operator::And => Ok(ValueView::BooleanLiteral(truthy(a) && truthy(b))),
        Operator::Or => Ok(ValueView::BooleanLiteral(truthy(a) || truthy(b))),
        Operator::EqualEqual => compare_value(op, a, b),
        Operator::NotEqual => compare_value(op, a, b),
        Operator::LessThan => compare_value(op, a, b),
        Operator::LessThanEqual => compare_value(op, a, b),
        Operator::GreaterThan => compare_value(op, a, b),
        Operator::GreaterThanEqual => compare_value(op, a, b),
        Operator::Not => Ok(ValueView::Nil),
        Operator::Assign => Ok(ValueView::Nil),
    }
}

/// The write-back step of `++` / `--`: when the evaluated target was an
/// identifier holding a number and the changed number is representable, it
/// is assigned back (subject to the binding's declared type) and yielded;
/// any other target yields `Nil` without a write.
pub open spec fn incdec_write(env: EnvMap, target: ExprView, v: ValueView, delta: int) -> (
    EnvMap,
    Result<ValueView, ErrorView>,
) {
    match (target, v) {
        (ExprView::Identifier(n), ValueView::NumberLiteral(x)) => {
            if !fits_i64(x + delta) {
                (env, Ok(ValueView::Nil))
            } else if !env.dom().contains(n) {
                (env, Err(ErrorView::UndeclaredVariable(n)))
            } else {
                let nv = ValueView::NumberLiteral(x + delta);
                match env[n].1 {
                    None => (env.insert(n, (nv, None)), Ok(nv)),
                    Some(ty) => if type_matches(nv, ty) {
                        (env.insert(n, (nv, Some(ty))), Ok(nv))
                    } else {
                        (env, Err(ErrorView::TypeMismatch(n)))
                    },
                }
            }
        },
        _ => (env, Ok(ValueView::Nil)),
    }
}

/// What trying the elif arms in order produced: a taken arm's result (or an
/// error while testing one), or no arm taken.
pub enum ElifOutcome {
    Taken(EnvMap, Result<ValueView, ErrorView>),
    NotTaken(EnvMap),
}

/// Expression evaluation: yields the environment after any write-backs and
/// either the value or the first runtime error. Both operands of a binary
/// operator are evaluated eagerly, left first; there is no short-circuit.
pub open spec fn spec_eval(env: EnvMap, e: ExprView) -> (EnvMap, Result<ValueView, ErrorView>)
    decreases e,
{
    match e {
        ExprView::StringLiteral(s) => (env, Ok(ValueView::StringLiteral(s))),
        ExprView::NumberLiteral(n) => (env, Ok(ValueView::NumberLiteral(n))),
        ExprView::BooleanLiteral(b) => (env, Ok(ValueView::BooleanLiteral(b))),
        ExprView::Identifier(n) => if env.dom().contains(n) {
            (env, Ok(env[n].0))
        } else {
            (env, Err(ErrorView::UndeclaredVariable(n)))
        },
        ExprView::Binary { left, operator, right } => {
            let (env1, r1) = spec_eval(env, *left);
            match r1 {
                Err(er) => (env1, Err(er)),
                Ok(lv) => {
                    let (env2, r2) = spec_eval(env1, *right);
                    match r2 {
                        Err(er) => (env2, Err(er)),
                        Ok(rv) => (env2, binary_value(operator, lv, rv)),
                    }
                },
            }
        },
        ExprView::Unary { operator, right } => {
            let (env1, r1) = spec_eval(env, *right);
            match r1 {
                Err(er) => (env1, Err(er)),
                Ok(rv) => match operator {
                    Operator::Not => (env1, Ok(ValueView::BooleanLiteral(!truthy(rv)))),
                    _ => (env1, Ok(ValueView::Nil)),
                },
            }
        },
        ExprView::Increment(t) => {
            let (env1, r1) = spec_eval(env, *t);
            match r1 {
                Err(er) => (env1, Err(er)),
                Ok(v) => incdec_write(env1, *t, v, 1),
            }
        },
        ExprView::Decrement(t) => {
            let (env1, r1) = spec_eval(env, *t);
            match r1 {
                Err(er) => (env1, Err(er)),
                Ok(v) => incdec_write(env1, *t, v, -1),
            }
        },
        ExprView::InlineIf { condition, then_branch, elif_branches, else_branch } => {
            let (env1, r1) = spec_eval(env, *condition);
            match r1 {
                Err(er) => (env1, Err(er)),
                Ok(cv) => if truthy(cv) {
                    spec_eval(env1, *then_branch)
                } else {
                    match spec_eval_elifs(env1, elif_branches) {
                        ElifOutcome::Taken(env2, r) => (env2, r),
                        ElifOutcome::NotTaken(env2) => spec_eval(env2, *else_branch),
                    }
                },
            }
        },
        ExprView::Nil => (env, Ok(ValueView::Nil)),
    }
}

/// Try each elif arm in order: evaluate its condition, and on the first
/// truthy one evaluate and yield its branch.
pub open spec fn spec_eval_elifs(env: EnvMap, elifs: Seq<(ExprView, ExprView)>) -> ElifOutcome
    decreases elifs,
    via spec_eval_elifs_decreases
{
    if elifs.len() == 0 {
        ElifOutcome::NotTaken(env)
    } else {
        let (env1, r1) = spec_eval(env, elifs[0].0);
        match r1 {
            Err(er) => ElifOutcome::Taken(env1, Err(er)),
            Ok(cv) => if truthy(cv) {
                let (env2, r2) = spec_eval(env1, elifs[0].1);
                ElifOutcome::Taken(env2, r2)
            } else {
                spec_eval_elifs(env1, elifs.drop_first())
            },
        }
    }
}

#[via_fn]
proof fn spec_eval_elifs_decreases(env: EnvMap, elifs: Seq<(ExprView, ExprView)>) {
    if elifs.len() > 0 {
        assert(decreases_to!(elifs => elifs[0]));
        assert(decreases_to!(elifs[0] => elifs[0].0));
        assert(decreases_to!(elifs[0] => elifs[0].1));
        assert(elifs.drop_first() == elifs.subrange(1, elifs.len() as int));
        assert(decreases_to!(elifs => elifs.subrange(1, elifs.len() as int)));
    }
}

/// How a statement execution ended: normally, aborted by the first runtime
/// error, or stopped because some `while` loop exceeded the fuel bound.
pub enum ExecOutcome {
    Completed(RunState),
    Aborted(RunState, ErrorView),
    OutOfFuel,
}

/// Statement execution. `fuel` bounds the number of iterations of each
/// `while` loop: the body runs with the current fuel and the loop re-tests
/// with one unit less, so a loop can iterate at most `fuel` times (the
/// language itself puts no bound on loops; the bound is the price of running
/// them in finite steps, and a caller may retry with more).
pub open spec fn spec_exec(st: RunState, s: StmtView, fuel: nat) -> ExecOutcome
    decreases fuel, s,
{
    match s {
        StmtView::VariableDeclaration { name, value, value_type } => {
            let (env1, r1) = spec_eval(st.env, value);
            match r1 {
                Err(er) => ExecOutcome::Aborted(RunState { env: env1, out: st.out }, er),
                Ok(v) => ExecOutcome::Completed(
                    RunState { env: env1.insert(name, (v, value_type)), out: st.out },
                ),
            }
        },
        StmtView::VariableAssignment { name, value } => {
            let (env1, r1) = spec_eval(st.env, value);
            let st1 = RunState { env: env1, out: st.out };
            match r1 {
                Err(er) => ExecOutcome::Aborted(st1, er),
                Ok(v) => if !env1.dom().contains(name) {
                    ExecOutcome::Aborted(st1, ErrorView::UndeclaredVariable(name))
                } else {
                    match env1[name].1 {
                        None => ExecOutcome::Completed(
                            RunState { env: env1.insert(name, (v, None)), out: st.out },
                        ),
                        Some(ty) => if type_matches(v, ty) {
                            ExecOutcome::Completed(
                                RunState { env: env1.insert(name, (v, Some(ty))), out: st.out },
                            )
                        } else {
                            ExecOutcome::Aborted(st1, ErrorView::TypeMismatch(name))
                        },
                    }
                },
            }
        },
        StmtView::Print(e) => {
            let (env1, r1) = spec_eval(st.env, e);
            match r1 {
                Err(er) => ExecOutcome::Aborted(RunState { env: env1, out: st.out }, er),
                Ok(v) => ExecOutcome::Completed(
                    RunState { env: env1, out: st.out.push(render_view(v)) },
                ),
            }
        },
        StmtView::If { condition, then_branch, else_branch } => {
            let (env1, r1) = spec_eval(st.env, condition);
            let st1 = RunState { env: env1, out: st.out };
            match r1 {
                Err(er) => ExecOutcome::Aborted(st1, er),
                Ok(cv) => if truthy(cv) {
                    spec_exec(st1, *then_branch, fuel)
                } else {
                    match else_branch {
                        Some(b) => spec_exec(st1, *b, fuel),
                        None => ExecOutcome::Completed(st1),
                    }
                },
            }
        },
        StmtView::While { condition, body } => {
            if fuel == 0 {
                ExecOutcome::OutOfFuel
            } else {
                let (env1, r1) = spec_eval(st.env, condition);
                let st1 = RunState { env: env1, out: st.out };
                match r1 {
                    Err(er) => ExecOutcome::Aborted(st1, er),
                    Ok(cv) => if !truthy(cv) {
                        ExecOutcome::Completed(st1)
                    } else {
                        match spec_exec(st1, *body, fuel) {
                            ExecOutcome::Completed(st2) => spec_exec(st2, s, (fuel - 1) as nat),
                            other => other,
                        }
                    },
                }
            }
        },
        StmtView::Block(ss) => spec_exec_seq(st, ss, fuel),
    }
}

/// Execute statements in order, stopping at the first error or fuel
/// exhaustion; they share one environment (a block opens no scope).
pub open spec fn spec_exec_seq(st: RunState, ss: Seq<StmtView>, fuel: nat) -> ExecOutcome
    decreases fuel, ss,
    via spec_exec_seq_decreases
{
    if ss.len() == 0 {
        ExecOutcome::Completed(st)
    } else {
        match spec_exec(st, ss[0], fuel) {
            ExecOutcome::Completed(st1) => spec_exec_seq(st1, ss.drop_first(), fuel),
            other => other,
        }
    }
}

#[via_fn]
proof fn spec_exec_seq_decreases(st: RunState, ss: Seq<StmtView>, fuel: nat) {
    if ss.len() > 0 {
        assert(decreases_to!(ss => ss[0]));
        assert(ss.drop_first() == ss.subrange(1, ss.len() as int));
        assert(decreases_to!(ss => ss.subrange(1, ss.len() as int)));
    }
}

/// A typed declaration locks the binding's variant: declaring `name` with
/// type `Int` and then assigning it a string aborts the run with
/// `TypeMismatch`, whatever the prior state, the number and the string.
pub proof fn lemma_typed_assignment_rejected(
    st: RunState,
    name: Seq<char>,
    n: int,
    s: Seq<char>,
    fuel: nat,
)
    ensures
        spec_exec_seq(
            st,
            seq![
                StmtView::VariableDeclaration {
                    name: name,
                    value: ExprView::NumberLiteral(n),
                    value_type: Some(Type::Int),
                },
                StmtView::VariableAssignment { name: name, value: ExprView::StringLiteral(s) },
            ],
            fuel,
        ) == ExecOutcome::Aborted(
            RunState { env: st.env.insert(name, (ValueView::NumberLiteral(n), Some(Type::Int))), out: st.out },
            ErrorView::TypeMismatch(name),
        ),
{
    let decl = StmtView::VariableDeclaration {
        name: name,
        value: ExprView::NumberLiteral(n),
        value_type: Some(Type::Int),
    };
    let asgn = StmtView::VariableAssignment { name: name, value: ExprView::StringLiteral(s) };
    let ss = seq![decl, asgn];
    let env1 = st.env.insert(name, (ValueView::NumberLiteral(n), Some(Type::Int)));
    let st1 = RunState { env: env1, out: st.out };
    assert(spec_exec(st, ss[0], fuel) == ExecOutcome::Completed(st1));
    assert(ss.drop_first() =~= seq![asgn]);
    assert(spec_exec_seq(st, ss, fuel) == spec_exec_seq(st1, seq![asgn], fuel));
    assert(seq![asgn][0] == asgn);
    assert(spec_exec(st1, asgn, fuel) == ExecOutcome::Aborted(st1, ErrorView::TypeMismatch(name)));
    assert(spec_exec_seq(st1, seq![asgn], fuel) == ExecOutcome::Aborted(
        st1,
        ErrorView::TypeMismatch(name),
    ));
}

/// A declaration without a type annotation leaves the binding dynamic: a
/// later assignment of any variant succeeds and rebinds the name, whatever
/// the prior state, the number and the string.
pub proof fn lemma_dynamic_assignment_accepted(
    st: RunState,
    name: Seq<char>,
    n: int,
    s: Seq<char>,
    fuel: nat,
)
    ensures
        spec_exec_seq(
            st,
            seq![
                StmtView::VariableDeclaration {
                    name: name,
                    value: ExprView::NumberLiteral(n),
                    value_type: None,
                },
                StmtView::VariableAssignment { name: name, value: ExprView::StringLiteral(s) },
            ],
            fuel,
        ) == ExecOutcome::Completed(
            RunState { env: st.env.insert(name, (ValueView::StringLiteral(s), None)), out: st.out },
        ),
{
    let decl = StmtView::VariableDeclaration {
        name: name,
        value: ExprView::NumberLiteral(n),
        value_type: None,
    };
    let asgn = StmtView::VariableAssignment { name: name, value: ExprView::StringLiteral(s) };
    let ss = seq![decl, asgn];
    let env1 = st.env.insert(name, (ValueView::NumberLiteral(n), None));
    let st1 = RunState { env: env1, out: st.out };
    assert(spec_exec(st, ss[0], fuel) == ExecOutcome::Completed(st1));
    assert(ss.drop_first() =~= seq![asgn]);
    assert(spec_exec_seq(st, ss, fuel) == spec_exec_seq(st1, seq![asgn], fuel));
    let env2 = env1.insert(name, (ValueView::StringLiteral(s), None));
    let st2 = RunState { env: env2, out: st.out };
    assert(seq![asgn][0] == asgn);
    assert(spec_exec(st1, asgn, fuel) == ExecOutcome::Completed(st2));
    assert(seq![asgn].drop_first() =~= Seq::<StmtView>::empty());
    assert(spec_exec_seq(st2, Seq::<StmtView>::empty(), fuel) == ExecOutcome::Completed(st2));
    assert(spec_exec_seq(st1, seq![asgn], fuel) == ExecOutcome::Completed(st2));
    assert(env2 =~= st.env.insert(name, (ValueView::StringLiteral(s), None)));
    assert(st2 =~= RunState {
        env: st.env.insert(name, (ValueView::StringLiteral(s), None)),
        out: st.out,
    });
}

/// How a run ended, as reported to the caller.
#[derive(Debug)]
pub enum ExecStatus {
    /// Every statement ran to completion.
    Completed,
    /// The first runtime error, which aborted the remainder of the run.
    Aborted(RuntimeError),
    /// Some `while` loop exceeded the fuel bound; retry with more fuel.
    OutOfFuel,
}

/// The reported status and final state match the outcome the semantics give.
pub open spec fn outcome_matches(oc: ExecOutcome, st: RunState, r: ExecStatus) -> bool {
    match oc {
        ExecOutcome::Completed(st1) => r is Completed && st == st1,
        ExecOutcome::Aborted(st1, e) => match r {
            ExecStatus::Aborted(er) => er@ == e && st == st1,
            _ => false,
        },
        ExecOutcome::OutOfFuel => r is OutOfFuel,
    }
}

/// Walks a statement sequence, executing each statement against the single
/// environment and collecting printed lines; stops at the first runtime
/// error.
pub struct Interpreter {
    environment: Environment,
    output: Vec<String>,
}

impl Interpreter {
    /// The environment's name table is well formed.
    pub closed spec fn wf(&self) -> bool {
        self.environment.wf()
    }

    /// The observable state: bindings and printed lines.
    pub closed spec fn state(&self) -> RunState {
        RunState { env: self.environment@, out: self.output.deep_view() }
    }

    /// A fresh interpreter: empty environment, nothing printed.
    pub fn new() -> (r: Interpreter)
        ensures
            r.wf(),
            r.state() == (RunState { env: Map::<Seq<char>, (ValueView, Option<Type>)>::empty(), out: Seq::<Seq<char>>::empty() }),
    {
        let r = Interpreter { environment: Environment::new(), output: Vec::new() };
        proof {
            assert(r.output.deep_view() =~= Seq::<Seq<char>>::empty());
        }
        r
    }

    /// The lines printed so far, in order.
    pub fn output(&self) -> (r: &Vec<String>)
        ensures
            r.deep_view() == self.state().out,
    {
        &self.output
    }

    /// Evaluate an expression against the current environment, per
    /// `spec_eval`; printed output never changes.
    #[verifier::loop_isolation(false)]
    fn evaluate(&mut self, expr: &Expression) -> (r: Result<Value, RuntimeError>)
        requires
            old(self).wf(),
        ensures
            final(self).wf(),
            final(self).state().out == old(self).state().out,
            ({
                let (env2, res) = spec_eval(old(self).state().env, expr@);
                final(self).state().env == env2 && match r {
                    Ok(v) => res == Ok::<ValueView, ErrorView>(v@),
                    Err(e) => res == Err::<ValueView, ErrorView>(e@),
                }
            }),
        decreases expr,
    {
        match expr {
            Expression::StringLiteral(s) => Ok(Value::StringLiteral(s.clone())),
            Expression::NumberLiteral(n) => Ok(Value::NumberLiteral(*n)),
            Expression::BooleanLiteral(b) => Ok(Value::BooleanLiteral(*b)),
            Expression::Identifier(n) => self.environment.get(n.as_str()),
            Expression::Binary { left, operator, right } => {
                let lv = match self.evaluate(&**left) {
                    Ok(v) => v,
                    Err(e) => {
                        return Err(e);
                    },
                };
                let rv = match self.evaluate(&**right) {
                    Ok(v) => v,
                    Err(e) => {
                        return Err(e);
                    },
                };
                match operator {
                    Operator::Plus | Operator::Minus | Operator::Star | Operator::Slash
                        | Operator::Percent | Operator::Pow => Ok(
                        apply_arithmetic(*operator, &lv, &rv),
                    ),
                    Operator::And => Ok(
                        Value::BooleanLiteral(lv.is_truthy() && rv.is_truthy()),
                    ),
                    Operator::Or => Ok(Value::BooleanLiteral(lv.is_truthy() || rv.is_truthy())),
                    Operator::EqualEqual | Operator::NotEqual | Operator::LessThan
                        | Operator::LessThanEqual | Operator::GreaterThan
                        | Operator::GreaterThanEqual => apply_comparison(
                        *operator,
                        &lv,
                        &rv,
                    ),
                    Operator::Not | Operator::Assign => Ok(Value::Nil),
                }
            },
            Expression::Unary { operator, right } => {
                let rv = match self.evaluate(&**right) {
                    Ok(v) => v,
                    Err(e) => {
                        return Err(e);
                    },
                };
                match operator {
                    Operator::Not => Ok(Value::BooleanLiteral(!rv.is_truthy())),
                    _ => Ok(Value::Nil),
                }
            },
            Expression::Increment(t) => {
                let v = match self.evaluate(&**t) {
                    Ok(v) => v,
                    Err(e) => {
                        return Err(e);
                    },
                };
                match (&**t, &v) {
                    (Expression::Identifier(name), Value::NumberLiteral(x)) => {
                        match x.checked_add(1) {
                            Some(nx) => {
                                match self.environment.assign(
                                    name.clone(),
                                    Value::NumberLiteral(nx),
                                ) {
                                    Ok(()) => Ok(Value::NumberLiteral(nx)),
                                    Err(e) => Err(e),
                                }
                            },
                            None => Ok(Value::Nil),
                        }
                    },
                    _ => Ok(Value::Nil),
                }
            },
            Expression::Decrement(t) => {
                let v = match self.evaluate(&**t) {
                    Ok(v) => v,
                    Err(e) => {
                        return Err(e);
                    },
                };
                match (&**t, &v) {
                    (Expression::Identifier(name), Value::NumberLiteral(x)) => {
                        match x.checked_sub(1) {
                            Some(nx) => {
                                match self.environment.assign(
                                    name.clone(),
                                    Value::NumberLiteral(nx),
                                ) {
                                    Ok(()) => Ok(Value::NumberLiteral(nx)),
                                    Err(e) => Err(e),
                                }
                            },
                            None => Ok(Value::Nil),
                        }
                    },
                    _ => Ok(Value::Nil),
                }
            },
            Expression::InlineIf { condition, then_branch, elif_branches, else_branch } => {
                let cv = match self.evaluate(&**condition) {
                    Ok(v) => v,
                    Err(e) => {
                        return Err(e);
                    },
                };
                if cv.is_truthy() {
                    self.evaluate(&**then_branch)
                } else {
                    let ghost ev = elif_views(elif_branches@);
                    let ghost env_base = self.environment@;
                    proof {
                        lemma_elif_views_index(elif_branches@);
                    }
                    proof {
                        assert(ev.skip(0) =~= ev);
                    }
                    let n: usize = elif_branches.len();
                    let mut i: usize = 0;
                    while i < n
                        invariant
                            self.wf(),
                            i <= n,
                            n == elif_branches@.len(),
                            ev == elif_views(elif_branches@),
                            ev.len() == n,
                            forall|j: int|
                                0 <= j < n ==> ev[j] == (
                                    expr_view(*elif_branches@[j].0),
                                    expr_view(*elif_branches@[j].1),
                                ),
                            self.state().out == old(self).state().out,
                            spec_eval_elifs(env_base, ev) == spec_eval_elifs(
                                self.environment@,
                                ev.skip(i as int),
                            ),
                        decreases n - i,
                    {
                        proof {
                            assert(decreases_to!(*expr => (*expr)->elif_branches));
                            assert(decreases_to!(*elif_branches => elif_branches@));
                            assert(decreases_to!(elif_branches@ => elif_branches@[i as int]));
                            assert(decreases_to!(
                                elif_branches@[i as int] => *elif_branches@[i as int].0));
                            assert(decreases_to!(
                                elif_branches@[i as int] => *elif_branches@[i as int].1));
                            assert(ev.skip(i as int)[0] == ev[i as int]);
                        }
                        let ghost env_i = self.environment@;
                        let cond_v;
                        match self.evaluate(&*elif_branches[i].0) {
                            Ok(v) => {
                                cond_v = v;
                            },
                            Err(e) => {
                                proof {
                                    assert(spec_eval_elifs(env_i, ev.skip(i as int))
                                        == ElifOutcome::Taken(
                                        self.environment@,
                                        Err(e@),
                                    ));
                                }
                                return Err(e);
                            },
                        }
                        if cond_v.is_truthy() {
                            let ghost env_c = self.environment@;
                            let res = self.evaluate(&*elif_branches[i].1);
                            proof {
                                assert(spec_eval_elifs(env_i, ev.skip(i as int))
                                    == ElifOutcome::Taken(
                                    self.environment@,
                                    spec_eval(env_c, ev[i as int].1).1,
                                ));
                            }
                            return res;
                        }
                        proof {
                            assert(ev.skip(i as int).drop_first() =~= ev.skip(i as int + 1));
                        }
                        i = i + 1;
                    }
                    proof {
                        assert(ev.skip(n as int) =~= Seq::<(ExprView, ExprView)>::empty());
                        assert(spec_eval_elifs(env_base, ev) == ElifOutcome::NotTaken(
                            self.environment@,
                        ));
                    }
                    self.evaluate(&**else_branch)
                }
            },
            Expression::Nil => Ok(Value::Nil),
        }
    }

    /// Execute one statement against the current state, per `spec_exec` at
    /// the given fuel.
    #[verifier::loop_isolation(false)]
    fn execute(&mut self, stmt: &Statement, fuel: u64) -> (r: ExecStatus)
        requires
            old(self).wf(),
        ensures
            final(self).wf(),
            outcome_matches(
                spec_exec(old(self).state(), stmt@, fuel as nat),
                final(self).state(),
                r,
            ),
        decreases stmt,
    {
        match stmt {
            Statement::VariableDeclaration { name, value, value_type } => {
                let v = match self.evaluate(value) {
                    Ok(v) => v,
                    Err(e) => {
                        return ExecStatus::Aborted(e);
                    },
                };
                self.environment.define(name.clone(), v, *value_type);
                ExecStatus::Completed
            },
            Statement::VariableAssignment { name, value } => {
                let v = match self.evaluate(value) {
                    Ok(v) => v,
                    Err(e) => {
                        return ExecStatus::Aborted(e);
                    },
                };
                match self.environment.assign(name.clone(), v) {
                    Ok(()) => ExecStatus::Completed,
                    Err(e) => ExecStatus::Aborted(e),
                }
            },
            Statement::Print(e) => {
                let v = match self.evaluate(e) {
                    Ok(v) => v,
                    Err(er) => {
                        return ExecStatus::Aborted(er);
                    },
                };
                let ghost out0 = self.output.deep_view();
                let line = v.render();
                self.output.push(line);
                proof {
                    assert(self.output.deep_view() =~= out0.push(render_view(v@)));
                }
                ExecStatus::Completed
            },
            Statement::If { condition, then_branch, else_branch } => {
                let cv = match self.evaluate(condition) {
                    Ok(v) => v,
                    Err(e) => {
                        return ExecStatus::Aborted(e);
                    },
                };
                if cv.is_truthy() {
                    self.execute(&**then_branch, fuel)
                } else {
                    match else_branch {
                        Some(b) => self.execute(&**b, fuel),
                        None => ExecStatus::Completed,
                    }
                }
            },
            Statement::While { condition, body } => {
                let ghost w = stmt@;
                let mut f: u64 = fuel;
                loop
                    invariant
                        self.wf(),
                        spec_exec(old(self).state(), w, fuel as nat) == spec_exec(
                            self.state(),
                            w,
                            f as nat,
                        ),
                    decreases f,
                {
                    if f == 0 {
                        return ExecStatus::OutOfFuel;
                    }
                    let cv = match self.evaluate(condition) {
                        Ok(v) => v,
                        Err(e) => {
                            return ExecStatus::Aborted(e);
                        },
                    };
                    if !cv.is_truthy() {
                        return ExecStatus::Completed;
                    }
                    match self.execute(&**body, f) {
                        ExecStatus::Completed => {},
                        other => {
                            return other;
                        },
                    }
                    f = f - 1;
                }
            },
            Statement::Block(ss) => {
                let ghost sv = stmts_view(ss@);
                proof {
                    lemma_stmts_view_index(ss@);
                    assert(sv.skip(0) =~= sv);
                }
                let n: usize = ss.len();
                let mut i: usize = 0;
                while i < n
                    invariant
                        self.wf(),
                        i <= n,
                        spec_exec_seq(old(self).state(), sv, fuel as nat) == spec_exec_seq(
                            self.state(),
                            sv.skip(i as int),
                            fuel as nat,
                        ),
                    decreases n - i,
                {
                    proof {
                        assert(decreases_to!(*stmt => (*stmt)->Block_0));
                        assert(decreases_to!((*stmt)->Block_0 => ss@));
                        assert(decreases_to!(ss@ => ss@[i as int]));
                        assert(sv.skip(i as int)[0] == sv[i as int]);
                    }
                    match self.execute(&ss[i], fuel) {
                        ExecStatus::Completed => {},
                        other => {
                            return other;
                        },
                    }
                    proof {
                        assert(sv.skip(i as int).drop_first() =~= sv.skip(i as int + 1));
                    }
                    i = i + 1;
                }
                proof {
                    assert(sv.skip(n as int) =~= Seq::<StmtView>::empty());
                }
                ExecStatus::Completed
            },
        }
    }

    /// Run a statement sequence in order against this interpreter's state,
    /// stopping at the first runtime error; per `spec_exec_seq` at the given
    /// fuel. Printed lines accumulate in `output`.
    #[verifier::loop_isolation(false)]
    pub fn interpret(&mut self, statements: &Vec<Statement>, fuel: u64) -> (r: ExecStatus)
        requires
            old(self).wf(),
        ensures
            final(self).wf(),
            outcome_matches(
                spec_exec_seq(old(self).state(), stmts_view(statements@), fuel as nat),
                final(self).state(),
                r,
            ),
    {
        let ghost sv = stmts_view(statements@);
        proof {
            lemma_stmts_view_index(statements@);
            assert(sv.skip(0) =~= sv);
        }
        let n: usize = statements.len();
        let mut i: usize = 0;
        while i < n
            invariant
                self.wf(),
                i <= n,
                spec_exec_seq(old(self).state(), sv, fuel as nat) == spec_exec_seq(
                    self.state(),
                    sv.skip(i as int),
                    fuel as nat,
                ),
            decreases n - i,
        {
            proof {
                assert(sv.skip(i as int)[0] == sv[i as int]);
            }
            match self.execute(&statements[i], fuel) {
                ExecStatus::Completed => {},
                other => {
                    return other;
                },
            }
            proof {
                assert(sv.skip(i as int).drop_first() =~= sv.skip(i as int + 1));
            }
            i = i + 1;
        }
        proof {
            assert(sv.skip(n as int) =~= Seq::<StmtView>::empty());
        }
        ExecStatus::Completed
    }
}

} // verus!
