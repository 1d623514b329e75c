//! The abstract syntax tree and its mathematical model.

use vstd::prelude::*;

verus! {

/// An expression. Each node owns its operands.
#[derive(Debug, PartialEq, Eq)]
pub enum Expression {
    NumberLiteral(i32),
    VariableReference(String),
    Add(Box<Expression>, Box<Expression>),
    Sub(Box<Expression>, Box<Expression>),
    Mult(Box<Expression>, Box<Expression>),
    Div(Box<Expression>, Box<Expression>),
    /// A base and its exponent.
    Pow(Box<Expression>, Box<Expression>),
    /// A condition, the value where it holds and the value where it does not.
    IfElse(Box<Condition>, Box<Expression>, Box<Expression>),
}

/// A comparison of two expressions.
#[derive(Debug, PartialEq, Eq)]
pub enum Condition {
    Lt(Expression, Expression),
    Le(Expression, Expression),
    Eq(Expression, Expression),
    Ge(Expression, Expression),
    Gt(Expression, Expression),
}

/// A statement: an assignment to a name, or the program's result.
#[derive(Debug, PartialEq, Eq)]
pub enum Statement {
    Return(Expression),
    Definition(String, Expression),
}

/// A parameter of the program, as its signature declares it.
#[derive(Debug, PartialEq, Eq)]
pub struct Parameter {
    pub id: String,
}

/// A program: its name, its parameters and its statements, in source order.
#[derive(Debug, PartialEq, Eq)]
pub struct Prog {
    pub id: String,
    pub arguments: Vec<Parameter>,
    pub statements: Vec<Statement>,
}

/// An expression as a mathematical value.
pub enum ExpressionSpec {
    NumberLiteral(int),
    VariableReference(Seq<char>),
    Add(Box<ExpressionSpec>, Box<ExpressionSpec>),
    Sub(Box<ExpressionSpec>, Box<ExpressionSpec>),
    Mult(Box<ExpressionSpec>, Box<ExpressionSpec>),
    Div(Box<ExpressionSpec>, Box<ExpressionSpec>),
    Pow(Box<ExpressionSpec>, Box<ExpressionSpec>),
    IfElse(Box<ConditionSpec>, Box<ExpressionSpec>, Box<ExpressionSpec>),
}

/// A condition as a mathematical value.
pub enum ConditionSpec {
    Lt(ExpressionSpec, ExpressionSpec),
    Le(ExpressionSpec, ExpressionSpec),
    Eq(ExpressionSpec, ExpressionSpec),
    Ge(ExpressionSpec, ExpressionSpec),
    Gt(ExpressionSpec, ExpressionSpec),
}

/// A statement as a mathematical value.
pub enum StatementSpec {
    Return(ExpressionSpec),
    Definition(Seq<char>, ExpressionSpec),
}

/// A program as a mathematical value.
pub struct ProgSpec {
    pub id: Seq<char>,
    pub arguments: Seq<Seq<char>>,
    pub statements: Seq<StatementSpec>,
}

impl Expression {
    /// The mathematical value of the tree.
    pub open spec fn model(&self) -> ExpressionSpec
        decreases self,
    {
        match self {
            Expression::NumberLiteral(n) => ExpressionSpec::NumberLiteral(*n as int),
            Expression::VariableReference(x) => ExpressionSpec::VariableReference(x@),
            Expression::Add(l, r) => ExpressionSpec::Add(Box::new(l.model()), Box::new(r.model())),
            Expression::Sub(l, r) => ExpressionSpec::Sub(Box::new(l.model()), Box::new(r.model())),
            Expression::Mult(l, r) => ExpressionSpec::Mult(
                Box::new(l.model()),
                Box::new(r.model()),
            ),
            Expression::Div(l, r) => ExpressionSpec::Div(Box::new(l.model()), Box::new(r.model())),
            Expression::Pow(l, r) => ExpressionSpec::Pow(Box::new(l.model()), Box::new(r.model())),
            Expression::IfElse(c, a, b) => ExpressionSpec::IfElse(
                Box::new(c.model()),
                Box::new(a.model()),
                Box::new(b.model()),
            ),
        }
    }

    /// A copy of the tree.
    pub fn duplicate(&self) -> (r: Expression)
        ensures
            r@ == self@,
        decreases self,
    {
        match self {
            Expression::NumberLiteral(n) => Expression::NumberLiteral(*n),
            Expression::VariableReference(x) => Expression::VariableReference(x.clone()),
            Expression::Add(l, r) => Expression::Add(
                Box::new(l.duplicate()),
                Box::new(r.duplicate()),
            ),
            Expression::Sub(l, r) => Expression::Sub(
                Box::new(l.duplicate()),
                Box::new(r.duplicate()),
            ),
            Expression::Mult(l, r) => Expression::Mult(
                Box::new(l.duplicate()),
                Box::new(r.duplicate()),
            ),
            Expression::Div(l, r) => Expression::Div(
                Box::new(l.duplicate()),
                Box::new(r.duplicate()),
            ),
            Expression::Pow(l, r) => Expression::Pow(
                Box::new(l.duplicate()),
                Box::new(r.duplicate()),
            ),
            Expression::IfElse(c, a, b) => Expression::IfElse(
                Box::new(c.duplicate()),
                Box::new(a.duplicate()),
                Box::new(b.duplicate()),
            ),
        }
    }
}

impl Condition {
    /// The mathematical value of the condition.
    pub open spec fn model(&self) -> ConditionSpec
        decreases self,
    {
        match self {
            Condition::Lt(l, r) => ConditionSpec::Lt(l.model(), r.model()),
            Condition::Le(l, r) => ConditionSpec::Le(l.model(), r.model()),
            Condition::Eq(l, r) => ConditionSpec::Eq(l.model(), r.model()),
            Condition::Ge(l, r) => ConditionSpec::Ge(l.model(), r.model()),
            Condition::Gt(l, r) => ConditionSpec::Gt(l.model(), r.model()),
        }
    }

    /// A copy of the condition.
    pub fn duplicate(&self) -> (r: Condition)
        ensures
            r@ == self@,
        decreases self,
    {
        match self {
            Condition::Lt(l, r) => Condition::Lt(l.duplicate(), r.duplicate()),
            Condition::Le(l, r) => Condition::Le(l.duplicate(), r.duplicate()),
            Condition::Eq(l, r) => Condition::Eq(l.duplicate(), r.duplicate()),
            Condition::Ge(l, r) => Condition::Ge(l.duplicate(), r.duplicate()),
            Condition::Gt(l, r) => Condition::Gt(l.duplicate(), r.duplicate()),
        }
    }
}

impl View for Expression {
    type V = ExpressionSpec;

    open spec fn view(&self) -> ExpressionSpec {
        self.model()
    }
}

impl View for Condition {
    type V = ConditionSpec;

    open spec fn view(&self) -> ConditionSpec {
        self.model()
    }
}

impl Clone for Expression {
    fn clone(&self) -> (r: Expression)
        ensures
            r@ == self@,
    {
        self.duplicate()
    }
}

impl Clone for Condition {
    fn clone(&self) -> (r: Condition)
        ensures
            r@ == self@,
    {
        self.duplicate()
    }
}

impl View for Statement {
    type V = StatementSpec;

    open spec fn view(&self) -> StatementSpec {
        match self {
            Statement::Return(e) => StatementSpec::Return(e@),
            Statement::Definition(name, e) => StatementSpec::Definition(name@, e@),
        }
    }
}

impl View for Parameter {
    type V = Seq<char>;

    open spec fn view(&self) -> Seq<char> {
        self.id@
    }
}

/// The names of the parameters `v`.
pub open spec fn names(v: Seq<Parameter>) -> Seq<Seq<char>> {
    v.map_values(|p: Parameter| p@)
}

/// The statements `v` as mathematical values.
pub open spec fn models(v: Seq<Statement>) -> Seq<StatementSpec> {
    v.map_values(|s: Statement| s@)
}

impl View for Prog {
    type V = ProgSpec;

    open spec fn view(&self) -> ProgSpec {
        ProgSpec {
            id: self.id@,
            arguments: names(self.arguments@),
            statements: models(self.statements@),
        }
    }
}

/// Whether `statements` can be the statements of a program: there is at
/// least one, the last one is a `return`, and each one before it is an
/// assignment.
pub open spec fn well_formed(statements: Seq<StatementSpec>) -> bool {
    &&& statements.len() > 0
    &&& statements.last() is Return
    &&& forall|i: int| 0 <= i < statements.len() - 1 ==> #[trigger] statements[i] is Definition
}

impl Prog {
    /// The invariant of a program.
    pub open spec fn wf(&self) -> bool {
        well_formed(self@.statements)
    }
}

impl Clone for Statement {
    fn clone(&self) -> (r: Statement)
        ensures
            r@ == self@,
    {
        match self {
            Statement::Return(e) => Statement::Return(e.clone()),
            Statement::Definition(name, e) => Statement::Definition(name.clone(), e.clone()),
        }
    }
}

impl Clone for Parameter {
    fn clone(&self) -> (r: Parameter)
        ensures
            r@ == self@,
    {
        Parameter { id: self.id.clone() }
    }
}

impl Clone for Prog {
    fn clone(&self) -> (r: Prog)
        ensures
            r@ == self@,
    {
        let mut arguments: Vec<Parameter> = Vec::new();
        let mut i: usize = 0;
        while i < self.arguments.len()
            invariant
                i <= self.arguments.len(),
                names(arguments@) == names(self.arguments@).take(i as int),
            decreases self.arguments.len() - i,
        {
            let copy = self.arguments[i].clone();
            let ghost before = names(arguments@);
            arguments.push(copy);
            assert(names(arguments@) =~= before.push(copy@));
            assert(names(self.arguments@).take(i + 1) =~= names(self.arguments@).take(
                i as int,
            ).push(self.arguments[i as int]@));
            i = i + 1;
        }
        let mut statements: Vec<Statement> = Vec::new();
        let mut j: usize = 0;
        while j < self.statements.len()
            invariant
                j <= self.statements.len(),
                models(statements@) == models(self.statements@).take(j as int),
            decreases self.statements.len() - j,
        {
            let copy = self.statements[j].clone();
            let ghost before = models(statements@);
            statements.push(copy);
            assert(models(statements@) =~= before.push(copy@));
            assert(models(self.statements@).take(j + 1) =~= models(self.statements@).take(
                j as int,
            ).push(self.statements[j as int]@));
            j = j + 1;
        }
        assert(names(arguments@) =~= names(self.arguments@));
        assert(models(statements@) =~= models(self.statements@));
        Prog { id: self.id.clone(), arguments, statements }
    }
}

} // verus!
