pub mod context;
pub mod grammar;
pub mod lexer;
pub mod number;
pub mod parser;
pub mod text;
pub mod token;

pub use crate::ast::context::Context;
pub use crate::ast::parser::Parser;

use crate::ast::number::{parse_i64, parse_i64_spec};
use crate::ast::text::lowercase;
use crate::ast::token::Token;
use vstd::prelude::*;
use vstd::std_specs::cmp::PartialEqSpecImpl;

verus! {

/// What an expression evaluates to, as a mathematical value.
pub enum Val {
    Int(int),
    Bool(bool),
    Str(Seq<char>),
}

/// What an expression evaluates to.
#[derive(Debug)]
pub enum Value {
    INT(i64),
    BOOL(bool),
    STR(String),
}

impl View for Value {
    type V = Val;

    open spec fn view(&self) -> Val {
        match self {
            Value::INT(i) => Val::Int(*i as int),
            Value::BOOL(b) => Val::Bool(*b),
            Value::STR(s) => Val::Str(s@),
        }
    }
}

impl PartialEq for Value {
    /// Two values are equal when they are of the same kind and hold the same thing.
    fn eq(&self, other: &Self) -> (r: bool) {
        match self {
            Value::INT(a) => match other {
                Value::INT(b) => *a == *b,
                _ => false,
            },
            Value::BOOL(a) => match other {
                Value::BOOL(b) => *a == *b,
                _ => false,
            },
            Value::STR(a) => match other {
                Value::STR(b) => *a == *b,
                _ => false,
            },
        }
    }
}

impl PartialEqSpecImpl for Value {
    open spec fn obeys_eq_spec() -> bool {
        true
    }

    open spec fn eq_spec(&self, other: &Self) -> bool {
        self@ == other@
    }
}

impl Clone for Value {
    fn clone(&self) -> (r: Self)
        ensures
            r@ == self@,
    {
        match self {
            Value::INT(a) => Value::INT(*a),
            Value::BOOL(a) => Value::BOOL(*a),
            Value::STR(a) => Value::STR(a.clone()),
        }
    }
}

/// Why parsing or evaluating failed.
#[allow(non_camel_case_types)]
#[derive(Debug)]
pub enum AstError {
    OTHER(String),
    FORMAT_NOT_MATCH(String),
    LEXER_FAILED(String),
    NOT_MATCH(String),
    NO_TOKEN_MATCH(String),
    NOT_SUPP_OPER(String),
    EVAL_NUM_FAILED(String),
    NOT_ENOUGH_ARGS(String),
    ARG_NOT_CORRECT(String),
}

/// Why parsing or evaluating failed, as a mathematical value: the kind of the failure and
/// the text of its message.
pub enum Fault {
    Other(Seq<char>),
    FormatNotMatch(Seq<char>),
    LexerFailed(Seq<char>),
    NotMatch(Seq<char>),
    NoTokenMatch(Seq<char>),
    NotSuppOper(Seq<char>),
    EvalNumFailed(Seq<char>),
    NotEnoughArgs(Seq<char>),
    ArgNotCorrect(Seq<char>),
}

impl View for AstError {
    type V = Fault;

    open spec fn view(&self) -> Fault {
        match self {
            AstError::OTHER(m) => Fault::Other(m@),
            AstError::FORMAT_NOT_MATCH(m) => Fault::FormatNotMatch(m@),
            AstError::LEXER_FAILED(m) => Fault::LexerFailed(m@),
            AstError::NOT_MATCH(m) => Fault::NotMatch(m@),
            AstError::NO_TOKEN_MATCH(m) => Fault::NoTokenMatch(m@),
            AstError::NOT_SUPP_OPER(m) => Fault::NotSuppOper(m@),
            AstError::EVAL_NUM_FAILED(m) => Fault::EvalNumFailed(m@),
            AstError::NOT_ENOUGH_ARGS(m) => Fault::NotEnoughArgs(m@),
            AstError::ARG_NOT_CORRECT(m) => Fault::ArgNotCorrect(m@),
        }
    }
}

/// What a string among the operands of a conjunction or a disjunction is refused with.
pub const STRING_OPERAND: &'static str = "Not correct value format in and operator";

/// What a remainder or an equality of fewer than two operands is refused with.
pub const TOO_FEW_OPERANDS: &'static str = "Mod does not have enough args!";

/// What a remainder of something that is no integer is refused with.
pub const NOT_AN_INTEGER: &'static str = "Arg's format is not correct for mod ";

/// What a remainder by zero is refused with.
pub const ZERO_DIVISOR: &'static str = "Mod by zero";

/// What a membership of fewer than two operands is refused with.
pub const TOO_FEW_CANDIDATES: &'static str = "In operator should have at least two arguments";

/// What a number whose text cannot be read is refused with.
pub const NOT_NUMERIC: &'static str = "eval number failed!maybe it's not a number";

/// An expression as a mathematical tree. An operator holds its operands in order; a leaf
/// holds the text of the token it was made from.
pub enum Ast {
    And(Seq<Ast>),
    Or(Seq<Ast>),
    Mod(Seq<Ast>),
    In(Seq<Ast>),
    Equals(Seq<Ast>),
    Num(Seq<char>),
    Str(Seq<char>),
    Var(Seq<char>),
    Bool(Seq<char>),
}

/// The remainder of `a` divided by `b` when the quotient is rounded towards zero: it has
/// the sign of `a`.
pub open spec fn truncated_rem(a: int, b: int) -> int {
    if a >= 0 {
        a % b
    } else {
        -((-a) % b)
    }
}

/// The remainder of two evaluated operands. Both must be integers, and the second not
/// zero.
pub open spec fn mod_values(x: Val, y: Val) -> Result<Val, Fault> {
    match (x, y) {
        (Val::Int(a), Val::Int(b)) => if b == 0 {
            Err(Fault::ArgNotCorrect(ZERO_DIVISOR@))
        } else {
            Ok(Val::Int(truncated_rem(a, b)))
        },
        _ => Err(Fault::ArgNotCorrect(NOT_AN_INTEGER@)),
    }
}

/// The texts that a boolean leaf takes for true, once in lowercase.
pub open spec fn is_true_text(lowered: Seq<char>) -> bool {
    lowered == "true"@ || lowered == "1"@
}

/// What a tree evaluates to when the variables stand for the values in `env`.
pub open spec fn eval_spec(a: Ast, env: Map<Seq<char>, Val>) -> Result<Val, Fault>
    decreases a, 0nat,
{
    match a {
        Ast::Num(text) => match parse_i64_spec(text) {
            Some(i) => Ok(Val::Int(i as int)),
            None => Err(Fault::EvalNumFailed(NOT_NUMERIC@)),
        },
        Ast::Str(text) => Ok(Val::Str(text)),
        Ast::Var(name) => if env.contains_key(name) {
            Ok(env[name])
        } else {
            Ok(Val::Bool(false))
        },
        Ast::Bool(text) => Ok(Val::Bool(is_true_text(lowercase(text)))),
        Ast::And(args) => and_from(args, env, 0),
        Ast::Or(args) => or_from(args, env, 0),
        Ast::Mod(args) => if args.len() < 2 {
            Err(Fault::NotEnoughArgs(TOO_FEW_OPERANDS@))
        } else {
            match operand(args, env, 0) {
                Err(e) => Err(e),
                Ok(x) => match operand(args, env, 1) {
                    Err(e) => Err(e),
                    Ok(y) => mod_values(x, y),
                },
            }
        },
        Ast::Equals(args) => if args.len() < 2 {
            Err(Fault::NotEnoughArgs(TOO_FEW_OPERANDS@))
        } else {
            match operand(args, env, 0) {
                Err(e) => Err(e),
                Ok(x) => match operand(args, env, 1) {
                    Err(e) => Err(e),
                    Ok(y) => Ok(Val::Bool(x == y)),
                },
            }
        },
        Ast::In(args) => if args.len() < 2 {
            Err(Fault::NotEnoughArgs(TOO_FEW_CANDIDATES@))
        } else {
            match operand(args, env, 0) {
                Err(e) => Err(e),
                Ok(probe) => in_from(args, env, probe, 1),
            }
        },
    }
}

/// What the operand at `i` evaluates to.
pub open spec fn operand(args: Seq<Ast>, env: Map<Seq<char>, Val>, i: int) -> Result<Val, Fault>
    decreases args, 0nat,
{
    if 0 <= i < args.len() {
        eval_spec(args[i], env)
    } else {
        Err(Fault::NotEnoughArgs(TOO_FEW_OPERANDS@))
    }
}

/// The conjunction of the operands from `i` on, taken from left to right. An operand that
/// is zero or false decides for false, and the operands after it are not looked at. A
/// string is no operand of a conjunction. With no operand left the conjunction is true.
pub open spec fn and_from(args: Seq<Ast>, env: Map<Seq<char>, Val>, i: int) -> Result<Val, Fault>
    decreases args, args.len() - i,
{
    if 0 <= i < args.len() {
        match eval_spec(args[i], env) {
            Err(e) => Err(e),
            Ok(Val::Str(_)) => Err(Fault::FormatNotMatch(STRING_OPERAND@)),
            Ok(Val::Int(n)) => if n == 0 {
                Ok(Val::Bool(false))
            } else {
                and_from(args, env, i + 1)
            },
            Ok(Val::Bool(b)) => if !b {
                Ok(Val::Bool(false))
            } else {
                and_from(args, env, i + 1)
            },
        }
    } else {
        Ok(Val::Bool(true))
    }
}

/// The disjunction of the operands from `i` on, taken from left to right. An operand that
/// is the integer one, or the boolean false, decides for true, and the operands after it
/// are not looked at. A string is no operand of a disjunction. With no operand left the
/// disjunction is false.
pub open spec fn or_from(args: Seq<Ast>, env: Map<Seq<char>, Val>, i: int) -> Result<Val, Fault>
    decreases args, args.len() - i,
{
    if 0 <= i < args.len() {
        match eval_spec(args[i], env) {
            Err(e) => Err(e),
            Ok(Val::Str(_)) => Err(Fault::FormatNotMatch(STRING_OPERAND@)),
            Ok(Val::Int(n)) => if n == 1 {
                Ok(Val::Bool(true))
            } else {
                or_from(args, env, i + 1)
            },
            Ok(Val::Bool(b)) => if !b {
                Ok(Val::Bool(true))
            } else {
                or_from(args, env, i + 1)
            },
        }
    } else {
        Ok(Val::Bool(false))
    }
}

/// Whether `probe` equals one of the operands from `i` on, the last operand left out:
/// the operands are compared from left to right up to the first that is equal, and the
/// last one is never looked at.
pub open spec fn in_from(args: Seq<Ast>, env: Map<Seq<char>, Val>, probe: Val, i: int) -> Result<
    Val,
    Fault,
>
    decreases args, args.len() - i,
{
    if 0 <= i < args.len() - 1 {
        match eval_spec(args[i], env) {
            Err(e) => Err(e),
            Ok(v) => if v == probe {
                Ok(Val::Bool(true))
            } else {
                in_from(args, env, probe, i + 1)
            },
        }
    } else {
        Ok(Val::Bool(false))
    }
}

/// What an evaluation returned, as a mathematical value.
pub open spec fn outcome(r: Result<Value, AstError>) -> Result<Val, Fault> {
    match r {
        Ok(v) => Ok(v@),
        Err(e) => Err(e@),
    }
}

/// Something that can be evaluated: a node of an expression tree.
pub trait Expr {
    /// The tree that the node is the root of.
    spec fn ast(&self) -> Ast;

    /// Evaluates the node with the variables bound as in `ctx`.
    fn eval(&self, ctx: &Context) -> (r: Result<Value, AstError>)
        ensures
            outcome(r) == eval_spec(self.ast(), ctx@),
    ;
}

/// The conjunction of its operands.
#[derive(Debug)]
pub struct And {
    token: Token,
    args: Vec<Node>,
}

/// The remainder of its first operand divided by its second.
#[derive(Debug)]
pub struct Mod {
    token: Token,
    args: Vec<Node>,
}

/// The disjunction of its operands.
#[derive(Debug)]
pub struct Or {
    token: Token,
    args: Vec<Node>,
}

/// Whether its first operand is among the others.
#[derive(Debug)]
pub struct In {
    token: Token,
    args: Vec<Node>,
}

/// Whether its first two operands are equal.
#[derive(Debug)]
pub struct Equals {
    token: Token,
    args: Vec<Node>,
}

/// An integer, spelled in decimal.
#[derive(Debug)]
pub struct Num {
    token: Token,
}

/// A string.
#[derive(Debug)]
pub struct Str {
    token: Token,
}

/// A variable, to be looked up by its name.
#[derive(Debug)]
pub struct Var {
    token: Token,
}

/// A truth value, spelled out.
#[derive(Debug)]
pub struct Bool {
    token: Token,
}

/// A node of any of the nine kinds.
#[derive(Debug)]
pub enum Node {
    And(And),
    Or(Or),
    Mod(Mod),
    In(In),
    Equals(Equals),
    Num(Num),
    Str(Str),
    Var(Var),
    Bool(Bool),
}

/// The trees of a list of nodes.
pub open spec fn asts(nodes: Seq<Node>) -> Seq<Ast>
    decreases nodes, 0nat,
{
    Seq::new(
        nodes.len(),
        |i: int|
            if 0 <= i < nodes.len() {
                nodes[i].ast()
            } else {
                Ast::And(Seq::empty())
            },
    )
}

impl And {
    /// The conjunction of `args`, in their order.
    pub fn create(op_tag: Token, args: Vec<Node>) -> (r: Result<And, AstError>)
        ensures
            r matches Ok(n) && n.ast() == Ast::And(asts(args@)),
    {
        Ok(And { token: op_tag, args: args })
    }
}

impl Expr for And {
    closed spec fn ast(&self) -> Ast
        decreases self, 0nat,
    {
        Ast::And(asts(self.args@))
    }

    fn eval(&self, ctx: &Context) -> (r: Result<Value, AstError>)
        decreases self, 0nat,
    {
        let ghost args = asts(self.args@);
        let mut i: usize = 0;
        while i < self.args.len()
            invariant
                i <= self.args.len(),
                args == asts(self.args@),
                and_from(args, ctx@, 0) == and_from(args, ctx@, i as int),
            decreases self.args.len() - i,
        {
            match self.args[i].eval(ctx)? {
                Value::INT(n) => {
                    if n == 0 {
                        return Ok(Value::BOOL(false));
                    }
                },
                Value::BOOL(b) => {
                    if !b {
                        return Ok(Value::BOOL(false));
                    }
                },
                Value::STR(_) => {
                    return Err(AstError::FORMAT_NOT_MATCH(String::from_str(STRING_OPERAND)));
                },
            }
            i = i + 1;
        }
        Ok(Value::BOOL(true))
    }
}

impl Or {
    /// The disjunction of `args`, in their order.
    pub fn create(op_tag: Token, args: Vec<Node>) -> (r: Result<Or, AstError>)
        ensures
            r matches Ok(n) && n.ast() == Ast::Or(asts(args@)),
    {
        Ok(Or { token: op_tag, args: args })
    }
}

impl Expr for Or {
    closed spec fn ast(&self) -> Ast
        decreases self, 0nat,
    {
        Ast::Or(asts(self.args@))
    }

    fn eval(&self, ctx: &Context) -> (r: Result<Value, AstError>)
        decreases self, 0nat,
    {
        let ghost args = asts(self.args@);
        let mut i: usize = 0;
        while i < self.args.len()
            invariant
                i <= self.args.len(),
                args == asts(self.args@),
                or_from(args, ctx@, 0) == or_from(args, ctx@, i as int),
            decreases self.args.len() - i,
        {
            match self.args[i].eval(ctx)? {
                Value::INT(n) => {
                    if n == 1 {
                        return Ok(Value::BOOL(true));
                    }
                },
                Value::BOOL(b) => {
                    if !b {
                        return Ok(Value::BOOL(true));
                    }
                },
                Value::STR(_) => {
                    return Err(AstError::FORMAT_NOT_MATCH(String::from_str(STRING_OPERAND)));
                },
            }
            i = i + 1;
        }
        Ok(Value::BOOL(false))
    }
}

/// The remainder of two values, as `mod_values` defines it.
pub fn remainder(x: &Value, y: &Value) -> (r: Result<Value, AstError>)
    ensures
        outcome(r) == mod_values(x@, y@),
{
    match (x, y) {
        (Value::INT(a), Value::INT(b)) => {
            if *b == 0 {
                Err(AstError::ARG_NOT_CORRECT(String::from_str(ZERO_DIVISOR)))
            } else if *b == -1 {
                Ok(Value::INT(0))
            } else {
                Ok(Value::INT(*a % *b))
            }
        },
        _ => Err(AstError::ARG_NOT_CORRECT(String::from_str(NOT_AN_INTEGER))),
    }
}

impl Mod {
    /// The remainder of the first of `args` divided by the second.
    pub fn create(op_tag: Token, args: Vec<Node>) -> (r: Result<Mod, AstError>)
        ensures
            r matches Ok(n) && n.ast() == Ast::Mod(asts(args@)),
    {
        Ok(Mod { token: op_tag, args: args })
    }
}

impl Expr for Mod {
    closed spec fn ast(&self) -> Ast
        decreases self, 0nat,
    {
        Ast::Mod(asts(self.args@))
    }

    fn eval(&self, ctx: &Context) -> (r: Result<Value, AstError>)
        decreases self, 0nat,
    {
        if self.args.len() < 2 {
            return Err(AstError::NOT_ENOUGH_ARGS(String::from_str(TOO_FEW_OPERANDS)));
        }
        let arg0 = self.args[0].eval(ctx)?;
        let arg1 = self.args[1].eval(ctx)?;
        remainder(&arg0, &arg1)
    }
}

impl In {
    /// Whether the first of `args` is among the others.
    pub fn create(op_tag: Token, args: Vec<Node>) -> (r: Result<In, AstError>)
        ensures
            r matches Ok(n) && n.ast() == Ast::In(asts(args@)),
    {
        Ok(In { token: op_tag, args: args })
    }
}

impl Expr for In {
    closed spec fn ast(&self) -> Ast
        decreases self, 0nat,
    {
        Ast::In(asts(self.args@))
    }

    fn eval(&self, ctx: &Context) -> (r: Result<Value, AstError>)
        decreases self, 0nat,
    {
        if self.args.len() <= 1 {
            return Err(AstError::NOT_ENOUGH_ARGS(String::from_str(TOO_FEW_CANDIDATES)));
        }
        let arg0 = self.args[0].eval(ctx)?;
        let ghost args = asts(self.args@);
        let mut i: usize = 1;
        while i < self.args.len() - 1
            invariant
                1 <= i <= self.args.len() - 1,
                args == asts(self.args@),
                operand(args, ctx@, 0) == Ok::<Val, Fault>(arg0@),
                in_from(args, ctx@, arg0@, 1) == in_from(args, ctx@, arg0@, i as int),
            decreases self.args.len() - i,
        {
            let arg = self.args[i].eval(ctx)?;
            if arg0 == arg {
                return Ok(Value::BOOL(true));
            }
            i = i + 1;
        }
        Ok(Value::BOOL(false))
    }
}

impl Equals {
    /// Whether the first two of `args` are equal.
    pub fn create(op_tag: Token, args: Vec<Node>) -> (r: Result<Equals, AstError>)
        ensures
            r matches Ok(n) && n.ast() == Ast::Equals(asts(args@)),
    {
        Ok(Equals { token: op_tag, args: args })
    }
}

impl Expr for Equals {
    closed spec fn ast(&self) -> Ast
        decreases self, 0nat,
    {
        Ast::Equals(asts(self.args@))
    }

    fn eval(&self, ctx: &Context) -> (r: Result<Value, AstError>)
        decreases self, 0nat,
    {
        if self.args.len() < 2 {
            return Err(AstError::NOT_ENOUGH_ARGS(String::from_str(TOO_FEW_OPERANDS)));
        }
        let arg0 = self.args[0].eval(ctx)?;
        let arg1 = self.args[1].eval(ctx)?;
        Ok(Value::BOOL(arg0 == arg1))
    }
}

impl Num {
    /// The number that the text of `op_tag` spells.
    pub fn create(op_tag: Token) -> (r: Result<Num, AstError>)
        ensures
            r matches Ok(n) && n.ast() == Ast::Num(op_tag@.lexeme),
    {
        Ok(Num { token: op_tag })
    }
}

impl Expr for Num {
    closed spec fn ast(&self) -> Ast {
        Ast::Num(self.token@.lexeme)
    }

    fn eval(&self, _ctx: &Context) -> (r: Result<Value, AstError>) {
        match parse_i64(self.token.lexeme().as_str()) {
            Some(i) => Ok(Value::INT(i)),
            None => Err(AstError::EVAL_NUM_FAILED(String::from_str(NOT_NUMERIC))),
        }
    }
}

impl Str {
    /// The string that is the text of `op_tag`.
    pub fn create(op_tag: Token) -> (r: Result<Str, AstError>)
        ensures
            r matches Ok(n) && n.ast() == Ast::Str(op_tag@.lexeme),
    {
        Ok(Str { token: op_tag })
    }
}

impl Expr for Str {
    closed spec fn ast(&self) -> Ast {
        Ast::Str(self.token@.lexeme)
    }

    fn eval(&self, _ctx: &Context) -> (r: Result<Value, AstError>) {
        Ok(Value::STR(self.token.lexeme()))
    }
}

impl Var {
    /// The variable that the text of `op_tag` names.
    pub fn create(op_tag: Token) -> (r: Result<Var, AstError>)
        ensures
            r matches Ok(n) && n.ast() == Ast::Var(op_tag@.lexeme),
    {
        Ok(Var { token: op_tag })
    }
}

impl Expr for Var {
    closed spec fn ast(&self) -> Ast {
        Ast::Var(self.token@.lexeme)
    }

    fn eval(&self, ctx: &Context) -> (r: Result<Value, AstError>) {
        let key = self.token.lexeme();
        match ctx.get(&key) {
            None => Ok(Value::BOOL(false)),
            Some(v) => Ok(v.clone()),
        }
    }
}

/// Whether a text, already in lowercase, is one that a boolean leaf takes for true.
pub fn truth_of(lowered: &str) -> (b: bool)
    ensures
        b == is_true_text(lowered@),
{
    let text = String::from_str(lowered);
    text == String::from_str("true") || text == String::from_str("1")
}

impl Bool {
    /// The truth value that the text of `op_tag` spells.
    pub fn create(op_tag: Token) -> (r: Result<Bool, AstError>)
        ensures
            r matches Ok(n) && n.ast() == Ast::Bool(op_tag@.lexeme),
    {
        Ok(Bool { token: op_tag })
    }
}

impl Expr for Bool {
    closed spec fn ast(&self) -> Ast {
        Ast::Bool(self.token@.lexeme)
    }

    fn eval(&self, _ctx: &Context) -> (r: Result<Value, AstError>) {
        let lowered = self.token.lexeme().as_str().to_lowercase();
        Ok(Value::BOOL(truth_of(lowered.as_str())))
    }
}

impl Expr for Node {
    open spec fn ast(&self) -> Ast
        decreases self, 1nat,
    {
        match self {
            Node::And(n) => n.ast(),
            Node::Or(n) => n.ast(),
            Node::Mod(n) => n.ast(),
            Node::In(n) => n.ast(),
            Node::Equals(n) => n.ast(),
            Node::Num(n) => n.ast(),
            Node::Str(n) => n.ast(),
            Node::Var(n) => n.ast(),
            Node::Bool(n) => n.ast(),
        }
    }

    fn eval(&self, ctx: &Context) -> (r: Result<Value, AstError>)
        decreases self, 1nat,
    {
        match self {
            Node::And(n) => n.eval(ctx),
            Node::Or(n) => n.eval(ctx),
            Node::Mod(n) => n.eval(ctx),
            Node::In(n) => n.eval(ctx),
            Node::Equals(n) => n.eval(ctx),
            Node::Num(n) => n.eval(ctx),
            Node::Str(n) => n.eval(ctx),
            Node::Var(n) => n.eval(ctx),
            Node::Bool(n) => n.eval(ctx),
        }
    }
}

/// What a parser function returned that yields a node: the node's tree, or the error.
pub open spec fn parsed(r: Result<Node, AstError>) -> Result<Ast, Fault> {
    match r {
        Ok(n) => Ok(n.ast()),
        Err(e) => Err(e@),
    }
}

/// No variable of the tree is bound in `env`.
pub open spec fn binds_none_of(env: Map<Seq<char>, Val>, a: Ast) -> bool
    decreases a,
{
    match a {
        Ast::Var(name) => !env.contains_key(name),
        Ast::And(args) => forall|i: int| 0 <= i < args.len() ==> binds_none_of(env, #[trigger] args[i]),
        Ast::Or(args) => forall|i: int| 0 <= i < args.len() ==> binds_none_of(env, #[trigger] args[i]),
        Ast::Mod(args) => forall|i: int| 0 <= i < args.len() ==> binds_none_of(env, #[trigger] args[i]),
        Ast::In(args) => forall|i: int| 0 <= i < args.len() ==> binds_none_of(env, #[trigger] args[i]),
        Ast::Equals(args) => forall|i: int|
            0 <= i < args.len() ==> binds_none_of(env, #[trigger] args[i]),
        Ast::Num(_) => true,
        Ast::Str(_) => true,
        Ast::Bool(_) => true,
    }
}

/// A variable that the context does not bind reads as `Bool(false)`. In the empty context
/// that is every variable, whatever text the tree was parsed from.
pub proof fn lemma_undefined_variable_reads_false(name: Seq<char>, env: Map<Seq<char>, Val>)
    requires
        !env.contains_key(name),
    ensures
        eval_spec(Ast::Var(name), env) == Ok::<Val, Fault>(Val::Bool(false)),
        eval_spec(Ast::Var(name), Map::empty()) == Ok::<Val, Fault>(Val::Bool(false)),
{
}

/// A tree evaluates against a context that binds none of its variables as it does against
/// the empty context: each of its variables reads as `Bool(false)`.
pub proof fn lemma_unbound_variables_read_false(a: Ast, env: Map<Seq<char>, Val>)
    requires
        binds_none_of(env, a),
    ensures
        eval_spec(a, env) == eval_spec(a, Map::empty()),
    decreases a, 0nat,
{
    match a {
        Ast::And(args) => {
            lemma_unbound_in_operands(args, env, 0);
        },
        Ast::Or(args) => {
            lemma_unbound_in_operands(args, env, 0);
        },
        Ast::Mod(args) => {
            if args.len() >= 2 {
                lemma_unbound_variables_read_false(args[0], env);
                lemma_unbound_variables_read_false(args[1], env);
            }
        },
        Ast::Equals(args) => {
            if args.len() >= 2 {
                lemma_unbound_variables_read_false(args[0], env);
                lemma_unbound_variables_read_false(args[1], env);
            }
        },
        Ast::In(args) => {
            if args.len() >= 2 {
                lemma_unbound_variables_read_false(args[0], env);
                if let Ok(probe) = eval_spec(args[0], env) {
                    lemma_unbound_in_candidates(args, env, probe, 1);
                }
            }
        },
        _ => {},
    }
}

/// The same for a conjunction and a disjunction, from the operand at `i` on.
proof fn lemma_unbound_in_operands(args: Seq<Ast>, env: Map<Seq<char>, Val>, i: int)
    requires
        0 <= i,
        forall|j: int| 0 <= j < args.len() ==> binds_none_of(env, #[trigger] args[j]),
    ensures
        and_from(args, env, i) == and_from(args, Map::empty(), i),
        or_from(args, env, i) == or_from(args, Map::empty(), i),
    decreases args, args.len() - i,
{
    if i < args.len() {
        lemma_unbound_variables_read_false(args[i], env);
        lemma_unbound_in_operands(args, env, i + 1);
    }
}

/// The same for the operands that a probe is compared with, from the operand at `i` on.
proof fn lemma_unbound_in_candidates(args: Seq<Ast>, env: Map<Seq<char>, Val>, probe: Val, i: int)
    requires
        0 <= i,
        forall|j: int| 0 <= j < args.len() ==> binds_none_of(env, #[trigger] args[j]),
    ensures
        in_from(args, env, probe, i) == in_from(args, Map::empty(), probe, i),
    decreases args, args.len() - i,
{
    if i < args.len() - 1 {
        lemma_unbound_variables_read_false(args[i], env);
        lemma_unbound_in_candidates(args, env, probe, i + 1);
    }
}

/// Evaluating a node twice against the same context gives the same value, or the same
/// error with the same message: what an evaluation returns depends on the tree and the
/// context alone, and it changes neither.
pub proof fn lemma_eval_twice_agrees<E: Expr>(
    node: E,
    ctx: Context,
    first: Result<Value, AstError>,
    second: Result<Value, AstError>,
)
    requires
        outcome(first) == eval_spec(node.ast(), ctx@),
        outcome(second) == eval_spec(node.ast(), ctx@),
    ensures
        outcome(first) == outcome(second),
{
}

} // verus!
