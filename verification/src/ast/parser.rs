use crate::ast::lexer::{lemma_scan_advances, lemma_scanned_token, scan_from, Lexer, Scanned};
use crate::ast::number::parse_i64_spec;
use crate::ast::token::{ErrCode, Num as TokenNum, OpType, Str as TokenStr, Tok, Token, TokenTag, Var as TokenVar};
use crate::ast::{
    and_from, asts, binds_none_of, eval_spec, in_from, lemma_unbound_variables_read_false, or_from,
    parsed, And, Ast, AstError, Equals, Expr, Fault, In, Mod, Node, Num, Or, Str, Val, Var,
};
use vstd::prelude::*;

verus! {

/// How many operands of one operator the parser reads before it gives up on finding the
/// closing parenthesis.
pub const MAX_ARGS: usize = 10000;

/// What a text too long for a lexer is refused with.
pub const NO_LEXER: &'static str = "Lexer init failed!";

/// What a text without a token is refused with.
pub const NOTHING_TO_PARSE: &'static str = "Has already analyzed this rule content to expr";

/// What an expression is refused with where there is no lookahead.
pub const NO_LOOKAHEAD: &'static str = "Current token is none!";

/// What a list that does not start with an operator is refused with.
pub const UNSUPPORTED_OPERATOR: &'static str = "Not supported operator!";

/// What a number token whose text is no number is refused with.
pub const NO_NUMBER_TOKEN: &'static str = "Create num token failed!";

/// What a string token that cannot be made is refused with.
pub const NO_STRING_TOKEN: &'static str = "Create str token failed!";

/// What a variable token that cannot be made is refused with.
pub const NO_VARIABLE_TOKEN: &'static str = "Create var token failed!";

/// What an operator token that cannot be made is refused with.
pub const NO_OPERATOR_TOKEN: &'static str = "Create operator token failed!";

/// What a token that starts no expression is refused with.
pub const NO_EXPRESSION: &'static str = "Not find available token tag to process";

/// What a list is refused with when the text ends before its right parenthesis.
pub const LIST_NOT_CLOSED: &'static str =
    "no right branch packet for and operator but has already went to the end";

/// What a list is refused with when it is not closed within the most turns.
pub const TOO_MANY_OPERANDS: &'static str = "Serious problem!!!!!!!!Should not be here";

/// What a list of something that is no operator is refused with.
pub const NOT_AN_OPERATOR: &'static str = "not supported opt";

/// What text that is no token is refused with.
pub const NO_TOKEN_READ: &'static str = "Lexer move token failed!";

/// What a lookahead with another tag than the expected one is refused with.
pub const NOT_MATCHED: &'static str = "Expected is not match with current";

/// What a match is refused with where there is no lookahead.
pub const NOTHING_TO_MATCH: &'static str = "There is not token is current parser status";

/// What one step of the parser comes to: what it yields, how far it moves the lexer's
/// cursor, and the lookahead token that it leaves.
pub struct Step<T> {
    pub result: Result<T, Fault>,
    pub used: nat,
    pub look: Option<Tok>,
}

/// How far the cursor is from having run past the end of the text.
pub open spec fn remaining(s: Seq<char>, pos: int) -> nat {
    if pos <= s.len() {
        (s.len() + 1 - pos) as nat
    } else {
        0
    }
}

/// Pulls the next token from the lexer into the lookahead. At the end of the text the
/// lookahead stays as it is and the step yields `false`. Text that is no token is an error.
pub open spec fn move_spec(s: Seq<char>, pos: int, look: Option<Tok>) -> Step<bool> {
    let sc = scan_from(s, pos);
    let used = (sc.next - pos) as nat;
    match sc.outcome {
        Scanned::Token(t) => Step { result: Ok(true), used: used, look: Some(t) },
        Scanned::End(_) => Step { result: Ok(false), used: used, look: look },
        Scanned::Illegal(_) => Step {
            result: Err(Fault::LexerFailed(NO_TOKEN_READ@)),
            used: used,
            look: look,
        },
    }
}

/// Requires the lookahead to be a token with the tag `tag`, and moves past it.
pub open spec fn match_spec(s: Seq<char>, pos: int, look: Option<Tok>, tag: TokenTag) -> Step<()> {
    match look {
        None => Step { result: Err(Fault::NoTokenMatch(NOTHING_TO_MATCH@)), used: 0, look: look },
        Some(t) => if t.tag == tag {
            let m = move_spec(s, pos, look);
            Step {
                result: match m.result {
                    Err(e) => Err(e),
                    Ok(_) => Ok(()),
                },
                used: m.used,
                look: m.look,
            }
        } else {
            Step { result: Err(Fault::NotMatch(NOT_MATCHED@)), used: 0, look: look }
        },
    }
}

/// The node of the operator `tag` over `args`.
pub open spec fn node_of(tag: TokenTag, args: Seq<Ast>) -> Result<Ast, Fault> {
    match tag {
        TokenTag::AND => Ok(Ast::And(args)),
        TokenTag::OR => Ok(Ast::Or(args)),
        TokenTag::MOD => Ok(Ast::Mod(args)),
        TokenTag::IN => Ok(Ast::In(args)),
        TokenTag::EQUALS => Ok(Ast::Equals(args)),
        _ => Err(Fault::NotSuppOper(NOT_AN_OPERATOR@)),
    }
}

/// The expression that starts with the lookahead token. A number, a string or a variable
/// is an expression by itself, and stays the lookahead: nothing is pulled. A left
/// parenthesis must be followed by an operator, whose operands follow up to the right
/// parenthesis; the lookahead is then the token after that parenthesis, if there is one.
pub open spec fn expr_spec(s: Seq<char>, pos: int, look: Option<Tok>) -> Step<Ast>
    decreases remaining(s, pos), 0nat,
    via expr_spec_decreases
{
    match look {
        None => Step { result: Err(Fault::Other(NO_LOOKAHEAD@)), used: 0, look: look },
        Some(t) => match t.tag {
            TokenTag::LEFT_PAREN => {
                let m = move_spec(s, pos, look);
                match m.result {
                    Err(e) => Step { result: Err(e), used: m.used, look: m.look },
                    Ok(false) => Step {
                        result: Err(Fault::NotSuppOper(UNSUPPORTED_OPERATOR@)),
                        used: m.used,
                        look: m.look,
                    },
                    Ok(true) => {
                        let op = m.look->0.tag;
                        if op.is_operator() {
                            let a = args_spec(
                                s,
                                pos + m.used,
                                m.look,
                                op,
                                MAX_ARGS as nat,
                                Seq::empty(),
                                true,
                            );
                            Step { result: a.result, used: m.used + a.used, look: a.look }
                        } else {
                            Step {
                                result: Err(Fault::NotSuppOper(UNSUPPORTED_OPERATOR@)),
                                used: m.used,
                                look: m.look,
                            }
                        }
                    },
                }
            },
            TokenTag::NUM => Step {
                result: if parse_i64_spec(t.lexeme) is Some {
                    Ok(Ast::Num(t.lexeme))
                } else {
                    Err(Fault::Other(NO_NUMBER_TOKEN@))
                },
                used: 0,
                look: look,
            },
            TokenTag::STR => Step { result: Ok(Ast::Str(t.lexeme)), used: 0, look: look },
            TokenTag::VAR => Step { result: Ok(Ast::Var(t.lexeme)), used: 0, look: look },
            _ => Step { result: Err(Fault::Other(NO_EXPRESSION@)), used: 0, look: look },
        },
    }
}

/// The operands of the operator `tag`, after the `acc` that were read already, and the
/// node that they make.
///
/// A turn starts by pulling a token, if `pull` says so; otherwise the lookahead is the
/// token to go by, unless the text has ended. A right parenthesis ends the list: the token
/// after it is pulled, and the node is made. Any other token must start an operand. An
/// operand of a single token leaves that token in the lookahead, so the next turn pulls;
/// one that is a list has pulled the token after its parenthesis already, so the next turn
/// does not. At most `k` turns are taken. A text that ends before the right parenthesis,
/// and a list that is not closed within `k` turns, do not match the format.
pub open spec fn args_spec(
    s: Seq<char>,
    pos: int,
    look: Option<Tok>,
    tag: TokenTag,
    k: nat,
    acc: Seq<Ast>,
    pull: bool,
) -> Step<Ast>
    decreases remaining(s, pos), (if pull { 1nat } else { 2nat }),
    via args_spec_decreases
{
    if k == 0 {
        Step { result: Err(Fault::FormatNotMatch(TOO_MANY_OPERANDS@)), used: 0, look: look }
    } else {
        let m = if pull {
            move_spec(s, pos, look)
        } else {
            Step { result: Ok(pos <= s.len()), used: 0, look: look }
        };
        match m.result {
            Err(e) => Step { result: Err(e), used: m.used, look: m.look },
            Ok(false) => Step {
                result: Err(Fault::FormatNotMatch(LIST_NOT_CLOSED@)),
                used: m.used,
                look: m.look,
            },
            Ok(true) => if m.look matches Some(t) && t.tag == TokenTag::RIGHT_PAREN {
                let n = move_spec(s, pos + m.used, m.look);
                Step {
                    result: match n.result {
                        Err(e) => Err(e),
                        Ok(_) => node_of(tag, acc),
                    },
                    used: m.used + n.used,
                    look: n.look,
                }
            } else {
                let c = expr_spec(s, pos + m.used, m.look);
                match c.result {
                    Err(e) => Step { result: Err(e), used: m.used + c.used, look: c.look },
                    Ok(a) => {
                        let r = args_spec(
                            s,
                            pos + m.used + c.used,
                            c.look,
                            tag,
                            (k - 1) as nat,
                            acc.push(a),
                            c.used == 0,
                        );
                        Step { result: r.result, used: m.used + c.used + r.used, look: r.look }
                    },
                }
            },
        }
    }
}

#[via_fn]
proof fn expr_spec_decreases(s: Seq<char>, pos: int, look: Option<Tok>) {
    lemma_scan_advances(s, pos);
}

#[via_fn]
proof fn args_spec_decreases(
    s: Seq<char>,
    pos: int,
    look: Option<Tok>,
    tag: TokenTag,
    k: nat,
    acc: Seq<Ast>,
    pull: bool,
) {
    lemma_scan_advances(s, pos);
}

/// A whole parse: the first token is pulled and an expression is read. A list is closed by
/// its own right parenthesis, and what follows it is not looked at, beyond the one token
/// that was pulled after the parenthesis. An expression of a single token is no rule: the
/// lookahead is required to be a right parenthesis, which it is not.
pub open spec fn parse_spec(s: Seq<char>, pos: int, look: Option<Tok>) -> Step<Ast> {
    let m = move_spec(s, pos, look);
    match m.result {
        Err(e) => Step { result: Err(e), used: m.used, look: m.look },
        Ok(false) => Step {
            result: Err(Fault::Other(NOTHING_TO_PARSE@)),
            used: m.used,
            look: m.look,
        },
        Ok(true) => {
            let e = expr_spec(s, pos + m.used, m.look);
            match e.result {
                Err(x) => Step { result: Err(x), used: m.used + e.used, look: e.look },
                Ok(a) => if e.used > 0 {
                    Step { result: Ok(a), used: m.used + e.used, look: e.look }
                } else {
                    let t = match_spec(s, pos + m.used, e.look, TokenTag::RIGHT_PAREN);
                    Step {
                        result: match t.result {
                            Err(x) => Err(x),
                            Ok(_) => Ok(a),
                        },
                        used: m.used + t.used,
                        look: t.look,
                    }
                },
            }
        },
    }
}

/// The tree that a text is parsed to.
pub open spec fn parse_text(s: Seq<char>) -> Result<Ast, Fault> {
    parse_spec(s, 0, None).result
}

/// What a parser function returned that yields no node, as a mathematical value.
pub open spec fn faulted<T>(r: Result<T, AstError>) -> Result<T, Fault> {
    match r {
        Ok(v) => Ok(v),
        Err(e) => Err(e@),
    }
}

/// Reads an expression from a text, with one token of lookahead.
#[derive(Debug)]
pub struct Parser {
    lexer: Lexer,
    look_token: Option<Token>,
}

impl Parser {
    /// The text that is being parsed.
    pub closed spec fn text(&self) -> Seq<char> {
        self.lexer.text()
    }

    /// The lexer's cursor.
    pub closed spec fn pos(&self) -> nat {
        self.lexer.pos()
    }

    /// The lookahead token.
    pub closed spec fn look(&self) -> Option<Tok> {
        match self.look_token {
            Some(t) => Some(t@),
            None => None,
        }
    }

    /// The lexer's cursor can move once more, wherever in the text it stands.
    pub open spec fn has_room(&self) -> bool {
        self.text().len() < usize::MAX && self.pos() < usize::MAX
    }

    /// The parser `self` is what `before` becomes by the step `st`.
    pub open spec fn follows<T>(&self, before: &Parser, st: Step<T>) -> bool {
        &&& self.text() == before.text()
        &&& self.pos() == before.pos() + st.used
        &&& self.look() == st.look
    }

    /// A parser at the start of `content`, with no lookahead yet. A text too long for a
    /// lexer is refused.
    pub fn create(content: String) -> (r: Result<Parser, AstError>)
        ensures
            content@.len() < usize::MAX ==> (r matches Ok(p) && p.text() == content@ && p.pos() == 0
                && p.look() is None),
            content@.len() >= usize::MAX ==> (r matches Err(e) && e@ == Fault::LexerFailed(
                NO_LEXER@,
            )),
    {
        match Lexer::create(content) {
            Err(_) => Err(AstError::LEXER_FAILED(String::from_str(NO_LEXER))),
            Ok(lexer) => Ok(Parser { lexer: lexer, look_token: None }),
        }
    }

    /// Parses the text from the cursor on, as `parse_spec` defines it.
    pub fn parse(&mut self) -> (r: Result<Node, AstError>)
        requires
            old(self).has_room(),
        ensures
            final(self).follows(
                old(self),
                parse_spec(old(self).text(), old(self).pos() as int, old(self).look()),
            ),
            parsed(r) == parse_spec(old(self).text(), old(self).pos() as int, old(self).look()).result,
    {
        proof {
            lemma_scan_advances(self.text(), self.pos() as int);
        }
        if !self.move_token()? {
            return Err(AstError::OTHER(String::from_str(NOTHING_TO_PARSE)));
        }
        let before = self.lexer.position();
        let expr = self.expr()?;
        if self.lexer.position() == before {
            self.match_term(TokenTag::RIGHT_PAREN)?;
        }
        Ok(expr)
    }

    /// The tag of the lookahead token, if there is one.
    fn look_tag(&self) -> (r: Option<TokenTag>)
        ensures
            r == match self.look() {
                Some(t) => Some(t.tag),
                None => None,
            },
    {
        match &self.look_token {
            Some(t) => Some(*t.token_tag()),
            None => None,
        }
    }

    /// The text of the lookahead token.
    fn look_lexeme(&self) -> (r: String)
        requires
            self.look() is Some,
        ensures
            r@ == self.look()->0.lexeme,
    {
        match &self.look_token {
            Some(t) => t.lexeme(),
            None => String::new(),
        }
    }

    /// Reads the expression that starts with the lookahead token, as `expr_spec` defines
    /// it.
    pub fn expr(&mut self) -> (r: Result<Node, AstError>)
        requires
            old(self).has_room(),
        ensures
            final(self).follows(
                old(self),
                expr_spec(old(self).text(), old(self).pos() as int, old(self).look()),
            ),
            parsed(r) == expr_spec(old(self).text(), old(self).pos() as int, old(self).look()).result,
        decreases remaining(old(self).text(), old(self).pos() as int), 0nat,
    {
        let tag = match self.look_tag() {
            None => {
                return Err(AstError::OTHER(String::from_str(NO_LOOKAHEAD)));
            },
            Some(tag) => tag,
        };
        match tag {
            TokenTag::LEFT_PAREN => {
                proof {
                    lemma_scan_advances(self.text(), self.pos() as int);
                }
                self.move_token()?;
                match self.look_tag() {
                    Some(TokenTag::AND) => self.args_add(TokenTag::AND, String::from_str("AND")),
                    Some(TokenTag::OR) => self.args_add(TokenTag::OR, String::from_str("OR")),
                    Some(TokenTag::MOD) => self.args_add(TokenTag::MOD, String::from_str("MOD")),
                    Some(TokenTag::EQUALS) => self.args_add(
                        TokenTag::EQUALS,
                        String::from_str("EQUALS"),
                    ),
                    Some(TokenTag::IN) => self.args_add(TokenTag::IN, String::from_str("IN")),
                    _ => Err(AstError::NOT_SUPP_OPER(String::from_str(UNSUPPORTED_OPERATOR))),
                }
            },
            TokenTag::NUM => {
                match TokenNum::create_with_token_and_val(TokenTag::NUM, self.look_lexeme()) {
                    Err(_) => Err(AstError::OTHER(String::from_str(NO_NUMBER_TOKEN))),
                    Ok(token) => Ok(Node::Num(Num::create(token)?)),
                }
            },
            TokenTag::STR => {
                match TokenStr::create_with_token_and_val(TokenTag::STR, self.look_lexeme()) {
                    Err(_) => Err(AstError::OTHER(String::from_str(NO_STRING_TOKEN))),
                    Ok(token) => Ok(Node::Str(Str::create(token)?)),
                }
            },
            TokenTag::VAR => {
                match TokenVar::create_with_token_and_val(TokenTag::VAR, self.look_lexeme()) {
                    Err(_) => Err(AstError::OTHER(String::from_str(NO_VARIABLE_TOKEN))),
                    Ok(token) => Ok(Node::Var(Var::create(token)?)),
                }
            },
            _ => Err(AstError::OTHER(String::from_str(NO_EXPRESSION))),
        }
    }

    /// The node of the operator `tag` over `args`, if `tag` is an operator.
    fn build(tag: TokenTag, s: String, args: Vec<Node>) -> (r: Result<Node, AstError>)
        ensures
            parsed(r) == node_of(tag, asts(args@)),
    {
        let token = match OpType::create_with_token(tag, s) {
            Err(_) => {
                return Err(AstError::OTHER(String::from_str(NO_OPERATOR_TOKEN)));
            },
            Ok(t) => t,
        };
        match tag {
            TokenTag::AND => Ok(Node::And(And::create(token, args)?)),
            TokenTag::OR => Ok(Node::Or(Or::create(token, args)?)),
            TokenTag::MOD => Ok(Node::Mod(Mod::create(token, args)?)),
            TokenTag::IN => Ok(Node::In(In::create(token, args)?)),
            TokenTag::EQUALS => Ok(Node::Equals(Equals::create(token, args)?)),
            _ => Err(AstError::NOT_SUPP_OPER(String::from_str(NOT_AN_OPERATOR))),
        }
    }

    /// Reads the operands that follow the operator `tag`, up to the right parenthesis, pulls
    /// the token after it, and makes the operator's node, as `args_spec` defines it.
    pub fn args_add(&mut self, tag: TokenTag, s: String) -> (r: Result<Node, AstError>)
        requires
            old(self).has_room(),
        ensures
            final(self).follows(
                old(self),
                args_spec(
                    old(self).text(),
                    old(self).pos() as int,
                    old(self).look(),
                    tag,
                    MAX_ARGS as nat,
                    Seq::empty(),
                    true,
                ),
            ),
            parsed(r) == args_spec(
                old(self).text(),
                old(self).pos() as int,
                old(self).look(),
                tag,
                MAX_ARGS as nat,
                Seq::empty(),
                true,
            ).result,
        decreases remaining(old(self).text(), old(self).pos() as int), 1nat,
    {
        let ghost text = self.text();
        let ghost whole = args_spec(
            text,
            self.pos() as int,
            self.look(),
            tag,
            MAX_ARGS as nat,
            Seq::empty(),
            true,
        );
        let mut args: Vec<Node> = Vec::new();
        let mut n: usize = 0;
        let mut pull = true;
        assert(asts(args@) =~= Seq::<Ast>::empty());
        while n < MAX_ARGS
            invariant
                n <= MAX_ARGS,
                text == old(self).text(),
                self.text() == text,
                text.len() < usize::MAX,
                self.pos() >= old(self).pos(),
                pull ==> self.pos() < usize::MAX,
                !pull ==> self.pos() > old(self).pos() && self.pos() <= text.len() + 1,
                whole == args_spec(
                    text,
                    old(self).pos() as int,
                    old(self).look(),
                    tag,
                    MAX_ARGS as nat,
                    Seq::empty(),
                    true,
                ),
                ({
                    let rest = args_spec(
                        text,
                        self.pos() as int,
                        self.look(),
                        tag,
                        (MAX_ARGS - n) as nat,
                        asts(args@),
                        pull,
                    );
                    &&& whole.result == rest.result
                    &&& whole.look == rest.look
                    &&& whole.used == self.pos() - old(self).pos() + rest.used
                }),
            decreases MAX_ARGS - n,
        {
            proof {
                lemma_scan_advances(text, self.pos() as int);
            }
            if pull {
                if !self.move_token()? {
                    return Err(AstError::FORMAT_NOT_MATCH(String::from_str(LIST_NOT_CLOSED)));
                }
            } else if self.lexer.exhausted() {
                return Err(AstError::FORMAT_NOT_MATCH(String::from_str(LIST_NOT_CLOSED)));
            }
            proof {
                lemma_scan_advances(text, self.pos() as int);
            }
            match self.look_tag() {
                Some(TokenTag::RIGHT_PAREN) => {
                    self.move_token()?;
                    return Self::build(tag, s, args);
                },
                _ => {},
            }
            let before = self.lexer.position();
            let ghost look_before = self.look();
            proof {
                lemma_expr_stays_near(text, before as int, look_before);
            }
            let child = self.expr()?;
            proof {
                assert(asts(args@.push(child)) =~= asts(args@).push(child.ast()));
            }
            pull = self.lexer.position() == before;
            args.push(child);
            n = n + 1;
        }
        Err(AstError::FORMAT_NOT_MATCH(String::from_str(TOO_MANY_OPERANDS)))
    }

    /// Pulls the next token into the lookahead, as `move_spec` defines it.
    pub fn move_token(&mut self) -> (r: Result<bool, AstError>)
        requires
            old(self).has_room(),
        ensures
            final(self).follows(
                old(self),
                move_spec(old(self).text(), old(self).pos() as int, old(self).look()),
            ),
            faulted(r) == move_spec(old(self).text(), old(self).pos() as int, old(self).look()).result,
    {
        proof {
            lemma_scan_advances(self.text(), self.pos() as int);
        }
        match self.lexer.scan() {
            Ok(t) => {
                self.look_token = Some(t);
                Ok(true)
            },
            Err(ErrCode::READ_TO_END(_)) => Ok(false),
            Err(ErrCode::OTHER(_)) => Err(AstError::LEXER_FAILED(String::from_str(NO_TOKEN_READ))),
        }
    }

    /// Requires the lookahead to be a token with the tag `tag`, and moves past it, as
    /// `match_spec` defines it.
    pub fn match_term(&mut self, tag: TokenTag) -> (r: Result<(), AstError>)
        requires
            old(self).has_room(),
        ensures
            final(self).follows(
                old(self),
                match_spec(old(self).text(), old(self).pos() as int, old(self).look(), tag),
            ),
            faulted(r) == match_spec(old(self).text(), old(self).pos() as int, old(self).look(), tag).result,
    {
        match self.look_tag() {
            None => Err(AstError::NO_TOKEN_MATCH(String::from_str(NOTHING_TO_MATCH))),
            Some(t) => {
                if t == tag {
                    match self.move_token() {
                        Err(e) => Err(e),
                        Ok(_) => Ok(()),
                    }
                } else {
                    Err(AstError::NOT_MATCH(String::from_str(NOT_MATCHED)))
                }
            },
        }
    }
}

/// Reading an expression leaves the cursor no further than one past the end of the text.
pub proof fn lemma_expr_stays_near(s: Seq<char>, pos: int, look: Option<Tok>)
    requires
        0 <= pos <= s.len(),
    ensures
        pos + expr_spec(s, pos, look).used <= s.len() + 1,
    decreases remaining(s, pos), 0nat,
{
    lemma_scan_advances(s, pos);
    if look matches Some(t) && t.tag == TokenTag::LEFT_PAREN {
        let m = move_spec(s, pos, look);
        if m.result == Ok::<bool, Fault>(true) && m.look->0.tag.is_operator() {
            lemma_args_stay_near(
                s,
                pos + m.used,
                m.look,
                m.look->0.tag,
                MAX_ARGS as nat,
                Seq::empty(),
                true,
            );
        }
    }
}

/// The same for the operands of a list.
pub proof fn lemma_args_stay_near(
    s: Seq<char>,
    pos: int,
    look: Option<Tok>,
    tag: TokenTag,
    k: nat,
    acc: Seq<Ast>,
    pull: bool,
)
    requires
        0 <= pos <= s.len() + 1,
        pull ==> pos <= s.len(),
    ensures
        pos + args_spec(s, pos, look, tag, k, acc, pull).used <= s.len() + 1,
    decreases remaining(s, pos), (if pull { 1nat } else { 2nat }),
{
    lemma_scan_advances(s, pos);
    if k > 0 {
        let m = if pull {
            move_spec(s, pos, look)
        } else {
            Step { result: Ok(pos <= s.len()), used: 0, look: look }
        };
        if m.result == Ok::<bool, Fault>(true) {
            lemma_scan_advances(s, pos + m.used);
            if !(m.look matches Some(t) && t.tag == TokenTag::RIGHT_PAREN) {
                lemma_expr_stays_near(s, pos + m.used, m.look);
                let c = expr_spec(s, pos + m.used, m.look);
                if let Ok(a) = c.result {
                    lemma_args_stay_near(
                        s,
                        pos + m.used + c.used,
                        c.look,
                        tag,
                        (k - 1) as nat,
                        acc.push(a),
                        c.used == 0,
                    );
                }
            }
        }
    }
}

/// The trees that a text can stand for: operators over variables and over numbers that
/// read as signed 64-bit integers. No text stands for a tree with a string or a boolean
/// leaf.
pub open spec fn textual(a: Ast) -> bool
    decreases a,
{
    match a {
        Ast::And(args) => forall|i: int| 0 <= i < args.len() ==> textual(#[trigger] args[i]),
        Ast::Or(args) => forall|i: int| 0 <= i < args.len() ==> textual(#[trigger] args[i]),
        Ast::Mod(args) => forall|i: int| 0 <= i < args.len() ==> textual(#[trigger] args[i]),
        Ast::In(args) => forall|i: int| 0 <= i < args.len() ==> textual(#[trigger] args[i]),
        Ast::Equals(args) => forall|i: int| 0 <= i < args.len() ==> textual(#[trigger] args[i]),
        Ast::Num(text) => parse_i64_spec(text) is Some,
        Ast::Var(_) => true,
        Ast::Str(_) => false,
        Ast::Bool(_) => false,
    }
}

/// A lookahead that the lexer can have yielded: no string token.
pub open spec fn scannable(look: Option<Tok>) -> bool {
    look matches Some(t) ==> t.tag != TokenTag::STR
}

/// An expression read from a lookahead that the lexer yielded is a textual tree, and the
/// lookahead that is left is one that the lexer yielded.
pub proof fn lemma_expr_is_textual(s: Seq<char>, pos: int, look: Option<Tok>)
    requires
        0 <= pos,
        scannable(look),
    ensures
        scannable(expr_spec(s, pos, look).look),
        expr_spec(s, pos, look).result matches Ok(a) ==> textual(a),
    decreases remaining(s, pos), 0nat,
{
    lemma_scan_advances(s, pos);
    lemma_scanned_token(s, pos);
    if look matches Some(t) && t.tag == TokenTag::LEFT_PAREN {
        let m = move_spec(s, pos, look);
        if m.result == Ok::<bool, Fault>(true) && m.look->0.tag.is_operator() {
            lemma_args_are_textual(
                s,
                pos + m.used,
                m.look,
                m.look->0.tag,
                MAX_ARGS as nat,
                Seq::empty(),
                true,
            );
        }
    }
}

/// The same for the operands of an operator and the node that they make.
pub proof fn lemma_args_are_textual(
    s: Seq<char>,
    pos: int,
    look: Option<Tok>,
    tag: TokenTag,
    k: nat,
    acc: Seq<Ast>,
    pull: bool,
)
    requires
        0 <= pos,
        scannable(look),
        forall|i: int| 0 <= i < acc.len() ==> textual(#[trigger] acc[i]),
    ensures
        scannable(args_spec(s, pos, look, tag, k, acc, pull).look),
        args_spec(s, pos, look, tag, k, acc, pull).result matches Ok(a) ==> textual(a),
    decreases remaining(s, pos), (if pull { 1nat } else { 2nat }),
{
    lemma_scan_advances(s, pos);
    lemma_scanned_token(s, pos);
    if k > 0 {
        let m = if pull {
            move_spec(s, pos, look)
        } else {
            Step { result: Ok(pos <= s.len()), used: 0, look: look }
        };
        if m.result == Ok::<bool, Fault>(true) {
            if m.look matches Some(t) && t.tag == TokenTag::RIGHT_PAREN {
                lemma_scanned_token(s, pos + m.used);
            } else {
                lemma_expr_is_textual(s, pos + m.used, m.look);
                let c = expr_spec(s, pos + m.used, m.look);
                if let Ok(a) = c.result {
                    lemma_args_are_textual(
                        s,
                        pos + m.used + c.used,
                        c.look,
                        tag,
                        (k - 1) as nat,
                        acc.push(a),
                        c.used == 0,
                    );
                }
            }
        }
    }
}

/// Whatever a text is parsed to is a textual tree.
pub proof fn lemma_parse_is_textual(s: Seq<char>)
    ensures
        parse_text(s) matches Ok(a) ==> textual(a),
{
    lemma_scan_advances(s, 0);
    lemma_scanned_token(s, 0);
    let m = move_spec(s, 0, None);
    if m.result == Ok::<bool, Fault>(true) {
        lemma_expr_is_textual(s, m.used as int, m.look);
    }
}

/// A textual tree never fails to evaluate for a number that cannot be read: whatever the
/// context, the spelling of each of its numbers is sound.
pub proof fn lemma_textual_numbers_evaluate(a: Ast, env: Map<Seq<char>, Val>)
    requires
        textual(a),
    ensures
        !(eval_spec(a, env) matches Err(Fault::EvalNumFailed(_))),
    decreases a, 0nat,
{
    match a {
        Ast::And(args) => {
            lemma_textual_operands_evaluate(args, env, 0);
        },
        Ast::Or(args) => {
            lemma_textual_operands_evaluate(args, env, 0);
        },
        Ast::Mod(args) => {
            if args.len() >= 2 {
                lemma_textual_numbers_evaluate(args[0], env);
                lemma_textual_numbers_evaluate(args[1], env);
            }
        },
        Ast::Equals(args) => {
            if args.len() >= 2 {
                lemma_textual_numbers_evaluate(args[0], env);
                lemma_textual_numbers_evaluate(args[1], env);
            }
        },
        Ast::In(args) => {
            if args.len() >= 2 {
                lemma_textual_numbers_evaluate(args[0], env);
                if let Ok(probe) = eval_spec(args[0], env) {
                    lemma_textual_candidates_evaluate(args, env, probe, 1);
                }
            }
        },
        _ => {},
    }
}

/// The same for a conjunction and a disjunction, from the operand at `i` on.
proof fn lemma_textual_operands_evaluate(args: Seq<Ast>, env: Map<Seq<char>, Val>, i: int)
    requires
        0 <= i,
        forall|j: int| 0 <= j < args.len() ==> textual(#[trigger] args[j]),
    ensures
        !(and_from(args, env, i) matches Err(Fault::EvalNumFailed(_))),
        !(or_from(args, env, i) matches Err(Fault::EvalNumFailed(_))),
    decreases args, args.len() - i,
{
    if i < args.len() {
        lemma_textual_numbers_evaluate(args[i], env);
        lemma_textual_operands_evaluate(args, env, i + 1);
    }
}

/// The same for the operands that a probe is compared with, from the operand at `i` on.
proof fn lemma_textual_candidates_evaluate(
    args: Seq<Ast>,
    env: Map<Seq<char>, Val>,
    probe: Val,
    i: int,
)
    requires
        0 <= i,
        forall|j: int| 0 <= j < args.len() ==> textual(#[trigger] args[j]),
    ensures
        !(in_from(args, env, probe, i) matches Err(Fault::EvalNumFailed(_))),
    decreases args, args.len() - i,
{
    if i < args.len() - 1 {
        lemma_textual_numbers_evaluate(args[i], env);
        lemma_textual_candidates_evaluate(args, env, probe, i + 1);
    }
}

/// Parsing a text and evaluating the tree against the empty context reads every variable
/// of the text as `Bool(false)`: the value is the one that the tree has in any context that
/// binds none of its variables.
pub proof fn lemma_parsed_variables_read_false(s: Seq<char>, env: Map<Seq<char>, Val>)
    requires
        parse_text(s) matches Ok(a) && binds_none_of(env, a),
    ensures
        parse_text(s) matches Ok(a) && eval_spec(a, Map::empty()) == eval_spec(a, env),
{
    lemma_unbound_variables_read_false(parse_text(s)->Ok_0, env);
}

} // verus!
