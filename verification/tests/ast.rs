use rule_expr::ast::{AstError, Context, Expr, Node, Parser, Value};

fn parse(content: &str) -> Result<Node, AstError> {
    Parser::create(content.to_string()).unwrap().parse()
}

fn eval_in(content: &str, ctx: &Context) -> Result<Value, AstError> {
    parse(content).unwrap().eval(ctx)
}

fn eval(content: &str) -> Result<Value, AstError> {
    eval_in(content, &Context::new())
}

fn with(name: &str, value: Value) -> Context {
    let mut kv = Context::new();
    kv.insert(name.to_string(), value);
    kv
}

#[test]
fn test_simple_in() {
    let mut kv: Context = Context::new();
    kv.insert("id".to_string(), Value::INT(1));
    let parser = Parser::create("(IN ${id} 2 3)".to_string());
    if let Ok(mut p) = parser {
        match p.parse() {
            Ok(o) => {
                println!("execute result is: {:?}", o.eval(&kv));
            }
            Err(e) => {
                println!("execute error: {:?}", e);
            }
        }
    }
}

#[test]
fn in_leaves_the_last_operand_out() {
    assert_eq!(eval_in("(IN ${id} 2 3)", &with("id", Value::INT(1))).unwrap(), Value::BOOL(false));
    assert_eq!(eval_in("(IN ${id} 2 3)", &with("id", Value::INT(3))).unwrap(), Value::BOOL(false));
    assert_eq!(eval_in("(IN ${id} 2 3)", &with("id", Value::INT(2))).unwrap(), Value::BOOL(true));
    assert_eq!(eval("(IN 4 1 4 5)").unwrap(), Value::BOOL(true));
    assert_eq!(eval("(IN 5 1 4 5)").unwrap(), Value::BOOL(false));
    assert_eq!(eval("(IN 5 5)").unwrap(), Value::BOOL(false));
}

#[test]
fn and_of_nothing_is_true_or_of_nothing_is_false() {
    assert_eq!(eval("(AND)").unwrap(), Value::BOOL(true));
    assert_eq!(eval("(OR)").unwrap(), Value::BOOL(false));
}

#[test]
fn mod_gives_the_remainder() {
    assert_eq!(eval("(MOD 10 3)").unwrap(), Value::INT(1));
    assert_eq!(eval("(MOD 9 3)").unwrap(), Value::INT(0));
    assert_eq!(eval_in("(MOD ${a} 3)", &with("a", Value::INT(-10))).unwrap(), Value::INT(-1));
    assert_eq!(eval_in("(MOD 10 ${a})", &with("a", Value::INT(-3))).unwrap(), Value::INT(1));
    assert_eq!(eval_in("(MOD ${a} 1)", &with("a", Value::INT(i64::MIN))).unwrap(), Value::INT(0));
    let mut kv = with("a", Value::INT(i64::MIN));
    kv.insert("b".to_string(), Value::INT(-1));
    assert_eq!(eval_in("(MOD ${a} ${b})", &kv).unwrap(), Value::INT(0));
}

#[test]
fn mod_by_zero_is_an_error() {
    assert!(matches!(eval("(MOD 10 0)"), Err(AstError::ARG_NOT_CORRECT(_))));
}

#[test]
fn mod_needs_two_integers() {
    assert!(matches!(eval("(MOD 1)"), Err(AstError::NOT_ENOUGH_ARGS(_))));
    assert!(matches!(eval("(MOD)"), Err(AstError::NOT_ENOUGH_ARGS(_))));
    assert!(matches!(eval("(MOD 1 ${x})"), Err(AstError::ARG_NOT_CORRECT(_))));
    assert!(matches!(
        eval_in("(MOD ${s} 2)", &with("s", Value::STR("7".to_string()))),
        Err(AstError::ARG_NOT_CORRECT(_))
    ));
    assert_eq!(eval("(MOD 7 4 0)").unwrap(), Value::INT(3));
}

#[test]
fn equals_is_strict_about_types() {
    assert_eq!(eval("(EQUALS 5 5)").unwrap(), Value::BOOL(true));
    assert_eq!(eval("(EQUALS 5 6)").unwrap(), Value::BOOL(false));
    assert_eq!(
        eval_in("(EQUALS 5 ${s})", &with("s", Value::STR("5".to_string()))).unwrap(),
        Value::BOOL(false)
    );
    assert_eq!(
        eval_in("(EQUALS ${s} ${s})", &with("s", Value::STR("5".to_string()))).unwrap(),
        Value::BOOL(true)
    );
    assert_eq!(eval_in("(EQUALS 1 ${b})", &with("b", Value::BOOL(true))).unwrap(), Value::BOOL(false));
    assert!(matches!(eval("(EQUALS 5)"), Err(AstError::NOT_ENOUGH_ARGS(_))));
}

#[test]
fn equals_of_a_quoted_five() {
    // A double quote is no token of the grammar: `"5"` is three tokens, and the first
    // of them cannot start an operand.
    assert!(matches!(parse("(EQUALS 5 \"5\")"), Err(AstError::OTHER(_))));
}

#[test]
fn unknown_operator_is_not_supported() {
    assert!(matches!(parse("(XOR 1 2)"), Err(AstError::NOT_SUPP_OPER(_))));
    assert!(matches!(parse("(1 2)"), Err(AstError::NOT_SUPP_OPER(_))));
    assert!(matches!(parse("("), Err(AstError::NOT_SUPP_OPER(_))));
    assert!(matches!(parse("(("), Err(AstError::NOT_SUPP_OPER(_))));
}

#[test]
fn unbalanced_list_does_not_match_the_format() {
    assert!(matches!(parse("(AND 1 2"), Err(AstError::FORMAT_NOT_MATCH(_))));
    assert!(matches!(parse("(AND 1 2 "), Err(AstError::FORMAT_NOT_MATCH(_))));
    assert!(matches!(parse("(AND"), Err(AstError::FORMAT_NOT_MATCH(_))));
    assert!(matches!(parse("(AND (OR 1)"), Err(AstError::FORMAT_NOT_MATCH(_))));
}

#[test]
fn undefined_variable_reads_as_false() {
    assert_eq!(eval("(EQUALS ${missing} ${other})").unwrap(), Value::BOOL(true));
    assert_eq!(eval("(AND ${missing})").unwrap(), Value::BOOL(false));
    assert_eq!(eval("(AND 1 ${missing} (MOD 1 0))").unwrap(), Value::BOOL(false));
    assert_eq!(eval("(OR ${missing})").unwrap(), Value::BOOL(true));
    assert_eq!(eval_in("(AND ${b})", &with("a", Value::INT(1))).unwrap(), Value::BOOL(false));
}

#[test]
fn evaluating_twice_gives_the_same() {
    let kv = with("id", Value::INT(2));
    for content in ["(IN ${id} 2 3)", "(MOD 10 0)", "(AND 1 (OR 0 ${id}) (EQUALS ${id} 2))", "(MOD ${id} 1 )"] {
        let tree = parse(content).unwrap();
        let first = tree.eval(&kv);
        let second = tree.eval(&kv);
        match (first, second) {
            (Ok(a), Ok(b)) => assert_eq!(a, b),
            (Err(a), Err(b)) => assert_eq!(format!("{:?}", a), format!("{:?}", b)),
            other => panic!("{:?}", other),
        }
    }
}

#[test]
fn and_stops_at_the_first_false_operand() {
    assert_eq!(eval("(AND 1 2 3)").unwrap(), Value::BOOL(true));
    assert_eq!(eval("(AND 1 0 3)").unwrap(), Value::BOOL(false));
    assert_eq!(eval("(AND 0 (MOD 1 0))").unwrap(), Value::BOOL(false));
    assert!(matches!(eval("(AND 1 (MOD 1 0))"), Err(AstError::ARG_NOT_CORRECT(_))));
    assert_eq!(eval("(AND (AND) (EQUALS 1 1))").unwrap(), Value::BOOL(true));
    assert_eq!(eval("(AND (AND) (EQUALS 1 2) 1)").unwrap(), Value::BOOL(false));
    assert!(matches!(
        eval_in("(AND 1 ${s})", &with("s", Value::STR("x".to_string()))),
        Err(AstError::FORMAT_NOT_MATCH(_))
    ));
    assert_eq!(
        eval_in("(AND 0 ${s})", &with("s", Value::STR("x".to_string()))).unwrap(),
        Value::BOOL(false)
    );
}

#[test]
fn or_takes_one_and_false_for_true() {
    assert_eq!(eval("(OR 1)").unwrap(), Value::BOOL(true));
    assert_eq!(eval("(OR 2)").unwrap(), Value::BOOL(false));
    assert_eq!(eval("(OR 0 2 3)").unwrap(), Value::BOOL(false));
    assert_eq!(eval("(OR 0 1 (MOD 1 0))").unwrap(), Value::BOOL(true));
    assert_eq!(eval("(OR (EQUALS 1 2))").unwrap(), Value::BOOL(true));
    assert_eq!(eval("(OR (EQUALS 1 1))").unwrap(), Value::BOOL(false));
    assert!(matches!(
        eval_in("(OR 0 ${s})", &with("s", Value::STR("x".to_string()))),
        Err(AstError::FORMAT_NOT_MATCH(_))
    ));
}

#[test]
fn nested_operands_keep_their_order() {
    assert_eq!(eval("(AND (OR 1) 2)").unwrap(), Value::BOOL(true));
    assert_eq!(eval("(AND (OR 1) 0)").unwrap(), Value::BOOL(false));
    assert_eq!(eval("(AND (OR 1) (OR 1))").unwrap(), Value::BOOL(true));
    assert_eq!(eval("(MOD (MOD 17 10) (MOD 7 4))").unwrap(), Value::INT(1));
    assert_eq!(eval("(IN (MOD 12 10) 1 2 3)").unwrap(), Value::BOOL(true));
    assert_eq!(
        eval_in(
            "(AND (EQUALS ${role} ${admin}) (IN ${tenant} 1 2 3))",
            &{
                let mut kv = with("role", Value::STR("admin".to_string()));
                kv.insert("admin".to_string(), Value::STR("admin".to_string()));
                kv.insert("tenant".to_string(), Value::INT(2));
                kv
            }
        )
        .unwrap(),
        Value::BOOL(true)
    );
}

#[test]
fn top_level_must_be_a_closed_list() {
    assert!(matches!(parse(""), Err(AstError::OTHER(_))));
    assert!(matches!(parse("   "), Err(AstError::OTHER(_))));
    assert!(matches!(parse("5"), Err(AstError::OTHER(_))));
    assert!(matches!(parse("5 "), Err(AstError::NOT_MATCH(_))));
    assert!(matches!(parse("${a}"), Err(AstError::NOT_MATCH(_))));
    assert!(matches!(parse(")"), Err(AstError::OTHER(_))));
    assert!(matches!(parse("x"), Err(AstError::OTHER(_))));
    assert!(matches!(parse("AND"), Err(AstError::OTHER(_))));
}

#[test]
fn what_follows_the_expression_is_not_looked_at() {
    assert_eq!(parse("(AND 1 2) x y").unwrap().eval(&Context::new()).unwrap(), Value::BOOL(true));
    assert_eq!(parse("(AND 1 2))").unwrap().eval(&Context::new()).unwrap(), Value::BOOL(true));
    assert!(matches!(parse("(AND 1 2) ${!}"), Err(AstError::LEXER_FAILED(_))));
}

#[test]
fn lexical_error_fails_the_parse() {
    assert!(matches!(parse("${a b}"), Err(AstError::LEXER_FAILED(_))));
    assert!(matches!(parse("(AND ${a+})"), Err(AstError::LEXER_FAILED(_))));
    assert!(matches!(parse("(AND 99999999999999999999 )"), Err(AstError::LEXER_FAILED(_))));
    assert!(matches!(parse("( ${a+})"), Err(AstError::LEXER_FAILED(_))));
}

#[test]
fn operand_must_start_with_a_value_or_a_list() {
    assert!(matches!(parse("(AND x)"), Err(AstError::OTHER(_))));
    assert!(matches!(parse("(AND AND)"), Err(AstError::OTHER(_))));
}

#[test]
fn list_is_closed_within_ten_thousand_turns() {
    let mut content = String::from("(AND");
    for _ in 0..9999 {
        content.push_str(" 1");
    }
    let closed = format!("{})", content);
    assert_eq!(eval(&closed).unwrap(), Value::BOOL(true));
    let longer = format!("{} 1)", content);
    assert!(matches!(parse(&longer), Err(AstError::FORMAT_NOT_MATCH(_))));
}

#[test]
fn match_term_checks_the_lookahead() {
    let mut p = Parser::create(") ( 1".to_string()).unwrap();
    assert!(matches!(
        p.match_term(rule_expr::ast::token::TokenTag::RIGHT_PAREN),
        Err(AstError::NO_TOKEN_MATCH(_))
    ));
    assert_eq!(p.move_token().unwrap(), true);
    assert!(matches!(
        p.match_term(rule_expr::ast::token::TokenTag::LEFT_PAREN),
        Err(AstError::NOT_MATCH(_))
    ));
    assert!(p.match_term(rule_expr::ast::token::TokenTag::RIGHT_PAREN).is_ok());
    assert!(p.match_term(rule_expr::ast::token::TokenTag::LEFT_PAREN).is_ok());
    assert_eq!(p.move_token().unwrap(), false);
    assert!(p.match_term(rule_expr::ast::token::TokenTag::LEFT_PAREN).is_ok());
}

#[test]
fn expr_needs_a_lookahead() {
    let mut p = Parser::create("1 ".to_string()).unwrap();
    assert!(matches!(p.expr(), Err(AstError::OTHER(_))));
    assert_eq!(p.move_token().unwrap(), true);
    assert_eq!(p.expr().unwrap().eval(&Context::new()).unwrap(), Value::INT(1));
}

#[test]
fn args_add_of_something_that_is_no_operator() {
    let mut p = Parser::create(" 1 2)".to_string()).unwrap();
    assert!(matches!(
        p.args_add(rule_expr::ast::token::TokenTag::NUM, "NUM".to_string()),
        Err(AstError::NOT_SUPP_OPER(_))
    ));
    let mut p = Parser::create(" 7 4)".to_string()).unwrap();
    let node = p.args_add(rule_expr::ast::token::TokenTag::MOD, "MOD".to_string()).unwrap();
    assert_eq!(node.eval(&Context::new()).unwrap(), Value::INT(3));
}

#[test]
fn lists_in_the_grammar_parse_to_what_they_say() {
    let kv = {
        let mut kv = with("a", Value::INT(7));
        kv.insert("b9".to_string(), Value::INT(3));
        kv
    };
    assert_eq!(eval_in("(MOD ${a} ${b9})", &kv).unwrap(), Value::INT(1));
    assert_eq!(eval_in("(EQUALS (MOD ${a} ${b9}) 1)", &kv).unwrap(), Value::BOOL(true));
    assert_eq!(eval_in("(IN (MOD ${a} ${b9}) (MOD 4 3) 0)", &kv).unwrap(), Value::BOOL(true));
    assert_eq!(eval_in("(AND (OR (AND) 1) (EQUALS ${} ${}))", &kv).unwrap(), Value::BOOL(true));
    assert_eq!(eval_in("(OR (OR (OR (OR 1))))", &kv).unwrap(), Value::BOOL(false));
    assert_eq!(eval_in("(OR (OR (OR (OR 1))) (AND))", &kv).unwrap(), Value::BOOL(false));
    assert_eq!(eval_in("(OR (OR (OR (OR 1))) (OR))", &kv).unwrap(), Value::BOOL(true));
}

#[test]
fn lookahead_after_a_list_is_the_token_after_its_parenthesis() {
    let mut p = Parser::create("(AND 1) 2 ".to_string()).unwrap();
    assert_eq!(p.move_token().unwrap(), true);
    let node = p.expr().unwrap();
    assert_eq!(node.eval(&Context::new()).unwrap(), Value::BOOL(true));
    // The lookahead is the number: it is an expression by itself.
    assert_eq!(p.expr().unwrap().eval(&Context::new()).unwrap(), Value::INT(2));
    let mut p = Parser::create(" 1) 2 ".to_string()).unwrap();
    let node = p.args_add(rule_expr::ast::token::TokenTag::AND, "AND".to_string()).unwrap();
    assert_eq!(node.eval(&Context::new()).unwrap(), Value::BOOL(true));
    assert_eq!(p.expr().unwrap().eval(&Context::new()).unwrap(), Value::INT(2));
    // Where the text ends, the parenthesis stays.
    let mut p = Parser::create(" 1)".to_string()).unwrap();
    assert!(p.args_add(rule_expr::ast::token::TokenTag::AND, "AND".to_string()).is_ok());
    assert!(p.match_term(rule_expr::ast::token::TokenTag::RIGHT_PAREN).is_ok());
}

#[test]
fn no_operand_is_skipped_after_a_list() {
    assert_eq!(eval("(AND (OR 1) 0)").unwrap(), Value::BOOL(false));
    assert_eq!(eval("(AND (OR 1) (OR 1) 0)").unwrap(), Value::BOOL(false));
    assert_eq!(eval("(AND (OR 1) 1 (OR 1) 0 (MOD 1 0))").unwrap(), Value::BOOL(false));
    assert_eq!(eval("(IN (MOD 7 4) (MOD 8 4) 3 (MOD 1 0))").unwrap(), Value::BOOL(true));
    assert_eq!(eval("(EQUALS (AND) (AND))").unwrap(), Value::BOOL(true));
    assert!(matches!(parse("(AND (OR 1) x)"), Err(AstError::OTHER(_))));
    assert!(matches!(parse("(AND (OR 1) (XOR))"), Err(AstError::NOT_SUPP_OPER(_))));
    assert!(matches!(parse("(AND (OR 1) ${!})"), Err(AstError::LEXER_FAILED(_))));
    assert!(matches!(parse("(AND (OR 1) 1"), Err(AstError::FORMAT_NOT_MATCH(_))));
    assert!(matches!(parse("(AND (OR 1)  "), Err(AstError::FORMAT_NOT_MATCH(_))));
}

fn message(r: Result<Value, AstError>) -> String {
    match r.unwrap_err() {
        AstError::OTHER(m) => format!("OTHER: {}", m),
        AstError::FORMAT_NOT_MATCH(m) => format!("FORMAT_NOT_MATCH: {}", m),
        AstError::LEXER_FAILED(m) => format!("LEXER_FAILED: {}", m),
        AstError::NOT_MATCH(m) => format!("NOT_MATCH: {}", m),
        AstError::NO_TOKEN_MATCH(m) => format!("NO_TOKEN_MATCH: {}", m),
        AstError::NOT_SUPP_OPER(m) => format!("NOT_SUPP_OPER: {}", m),
        AstError::EVAL_NUM_FAILED(m) => format!("EVAL_NUM_FAILED: {}", m),
        AstError::NOT_ENOUGH_ARGS(m) => format!("NOT_ENOUGH_ARGS: {}", m),
        AstError::ARG_NOT_CORRECT(m) => format!("ARG_NOT_CORRECT: {}", m),
    }
}

fn run(content: &str, ctx: &Context) -> Result<Value, AstError> {
    parse(content)?.eval(ctx)
}

#[test]
fn every_error_carries_its_message() {
    let none = Context::new();
    let s = with("s", Value::STR("x".to_string()));
    assert_eq!(message(run("", &none)), "OTHER: Has already analyzed this rule content to expr");
    assert_eq!(message(run("(AND x)", &none)), "OTHER: Not find available token tag to process");
    assert_eq!(message(run("(XOR 1 2)", &none)), "NOT_SUPP_OPER: Not supported operator!");
    assert_eq!(
        message(run("(AND 1 2", &none)),
        "FORMAT_NOT_MATCH: no right branch packet for and operator but has already went to the end"
    );
    assert_eq!(message(run("(AND ${a.})", &none)), "LEXER_FAILED: Lexer move token failed!");
    assert_eq!(message(run("5 ", &none)), "NOT_MATCH: Expected is not match with current");
    assert_eq!(
        message(run("(AND ${s})", &s)),
        "FORMAT_NOT_MATCH: Not correct value format in and operator"
    );
    assert_eq!(
        message(run("(OR ${s})", &s)),
        "FORMAT_NOT_MATCH: Not correct value format in and operator"
    );
    assert_eq!(message(run("(MOD 1)", &none)), "NOT_ENOUGH_ARGS: Mod does not have enough args!");
    assert_eq!(message(run("(EQUALS 1)", &none)), "NOT_ENOUGH_ARGS: Mod does not have enough args!");
    assert_eq!(
        message(run("(IN 1)", &none)),
        "NOT_ENOUGH_ARGS: In operator should have at least two arguments"
    );
    assert_eq!(
        message(run("(MOD 1 ${s})", &s)),
        "ARG_NOT_CORRECT: Arg's format is not correct for mod "
    );
    assert_eq!(message(run("(MOD 1 0)", &none)), "ARG_NOT_CORRECT: Mod by zero");
    let mut p = Parser::create("1 ".to_string()).unwrap();
    match p.match_term(rule_expr::ast::token::TokenTag::RIGHT_PAREN) {
        Err(AstError::NO_TOKEN_MATCH(m)) => {
            assert_eq!(m, "There is not token is current parser status")
        }
        other => panic!("{:?}", other),
    }
    match p.expr() {
        Err(AstError::OTHER(m)) => assert_eq!(m, "Current token is none!"),
        other => panic!("{:?}", other),
    }
    let mut p = Parser::create(" 1)".to_string()).unwrap();
    match p.args_add(rule_expr::ast::token::TokenTag::NUM, "NUM".to_string()) {
        Err(AstError::NOT_SUPP_OPER(m)) => assert_eq!(m, "not supported opt"),
        other => panic!("{:?}", other),
    }
    let mut content = String::from("(AND");
    for _ in 0..10000 {
        content.push_str(" 1");
    }
    content.push(')');
    assert_eq!(
        message(run(&content, &none)),
        "FORMAT_NOT_MATCH: Serious problem!!!!!!!!Should not be here"
    );
}
