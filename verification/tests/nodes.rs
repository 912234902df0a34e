use rule_expr::ast::context::Context;
use rule_expr::ast::token::{OpType, Other, Str as StrToken, Token, TokenTag, Var as VarToken};
use rule_expr::ast::{
    remainder, truth_of, And, AstError, Bool, Equals, Expr, In, Mod, Node, Num, Or, Str, Value, Var,
};

fn text_token(text: &str) -> Token {
    StrToken::create_with_token_and_val(TokenTag::STR, text.to_string()).unwrap()
}

fn op_token(tag: TokenTag, text: &str) -> Token {
    OpType::create_with_token(tag, text.to_string()).unwrap()
}

fn num(text: &str) -> Node {
    Node::Num(Num::create(text_token(text)).unwrap())
}

fn string(text: &str) -> Node {
    Node::Str(Str::create(text_token(text)).unwrap())
}

fn var(name: &str) -> Node {
    Node::Var(Var::create(VarToken::create_with_token_and_val(TokenTag::VAR, name.to_string()).unwrap()).unwrap())
}

fn boolean(text: &str) -> Node {
    Node::Bool(Bool::create(text_token(text)).unwrap())
}

#[test]
fn num_leaf_reads_its_text() {
    let ctx = Context::new();
    assert_eq!(num("42").eval(&ctx).unwrap(), Value::INT(42));
    assert_eq!(num("-42").eval(&ctx).unwrap(), Value::INT(-42));
    assert_eq!(num("+7").eval(&ctx).unwrap(), Value::INT(7));
    assert_eq!(num("-9223372036854775808").eval(&ctx).unwrap(), Value::INT(i64::MIN));
    match num("abc").eval(&ctx) {
        Err(AstError::EVAL_NUM_FAILED(m)) => {
            assert_eq!(m, "eval number failed!maybe it's not a number")
        }
        other => panic!("{:?}", other),
    }
    assert!(matches!(num("").eval(&ctx), Err(AstError::EVAL_NUM_FAILED(_))));
    assert!(matches!(num("1 ").eval(&ctx), Err(AstError::EVAL_NUM_FAILED(_))));
    assert!(matches!(num("9223372036854775808").eval(&ctx), Err(AstError::EVAL_NUM_FAILED(_))));
}

#[test]
fn str_leaf_gives_its_text() {
    assert_eq!(string("admin").eval(&Context::new()).unwrap(), Value::STR("admin".to_string()));
    assert_eq!(string("").eval(&Context::new()).unwrap(), Value::STR(String::new()));
}

#[test]
fn var_leaf_looks_its_name_up() {
    let mut ctx = Context::new();
    assert_eq!(var("role").eval(&ctx).unwrap(), Value::BOOL(false));
    ctx.insert("role".to_string(), Value::STR("admin".to_string()));
    assert_eq!(var("role").eval(&ctx).unwrap(), Value::STR("admin".to_string()));
    assert_eq!(var("rol").eval(&ctx).unwrap(), Value::BOOL(false));
    ctx.insert("role".to_string(), Value::INT(3));
    assert_eq!(var("role").eval(&ctx).unwrap(), Value::INT(3));
}

#[test]
fn bool_leaf_folds_the_case() {
    let ctx = Context::new();
    for text in ["true", "TRUE", "True", "tRuE", "1"] {
        assert_eq!(boolean(text).eval(&ctx).unwrap(), Value::BOOL(true), "{:?}", text);
    }
    for text in ["false", "0", "yes", "", " true", "11", "truee"] {
        assert_eq!(boolean(text).eval(&ctx).unwrap(), Value::BOOL(false), "{:?}", text);
    }
}

#[test]
fn truth_of_takes_lowercase_only() {
    assert!(truth_of("true"));
    assert!(truth_of("1"));
    assert!(!truth_of("TRUE"));
    assert!(!truth_of(""));
}

#[test]
fn string_operand_types() {
    let ctx = Context::new();
    let and = And::create(op_token(TokenTag::AND, "AND"), vec![num("1"), string("x")]).unwrap();
    assert!(matches!(and.eval(&ctx), Err(AstError::FORMAT_NOT_MATCH(_))));
    let or = Or::create(op_token(TokenTag::OR, "OR"), vec![num("0"), string("x")]).unwrap();
    assert!(matches!(or.eval(&ctx), Err(AstError::FORMAT_NOT_MATCH(_))));
    let or = Or::create(op_token(TokenTag::OR, "OR"), vec![num("1"), string("x")]).unwrap();
    assert_eq!(or.eval(&ctx).unwrap(), Value::BOOL(true));
    let eq = Equals::create(op_token(TokenTag::EQUALS, "EQUALS"), vec![num("5"), string("5")]).unwrap();
    assert_eq!(eq.eval(&ctx).unwrap(), Value::BOOL(false));
    let eq = Equals::create(op_token(TokenTag::EQUALS, "EQUALS"), vec![string("5"), string("5")]).unwrap();
    assert_eq!(eq.eval(&ctx).unwrap(), Value::BOOL(true));
    let modulo = Mod::create(op_token(TokenTag::MOD, "MOD"), vec![num("5"), string("5")]).unwrap();
    assert!(matches!(modulo.eval(&ctx), Err(AstError::ARG_NOT_CORRECT(_))));
    let within = In::create(
        op_token(TokenTag::IN, "IN"),
        vec![string("b"), string("a"), string("b"), string("c")],
    )
    .unwrap();
    assert_eq!(within.eval(&ctx).unwrap(), Value::BOOL(true));
}

#[test]
fn errors_of_operands_come_first_to_last() {
    let ctx = Context::new();
    let modulo = Mod::create(op_token(TokenTag::MOD, "MOD"), vec![num("x"), string("5")]).unwrap();
    assert!(matches!(modulo.eval(&ctx), Err(AstError::EVAL_NUM_FAILED(_))));
    let inner = Mod::create(op_token(TokenTag::MOD, "MOD"), vec![num("1")]).unwrap();
    let eq = Equals::create(
        op_token(TokenTag::EQUALS, "EQUALS"),
        vec![Node::Mod(inner), num("x")],
    )
    .unwrap();
    assert!(matches!(eq.eval(&ctx), Err(AstError::NOT_ENOUGH_ARGS(_))));
    let within = In::create(op_token(TokenTag::IN, "IN"), vec![num("1"), num("x"), num("1")]).unwrap();
    assert!(matches!(within.eval(&ctx), Err(AstError::EVAL_NUM_FAILED(_))));
    let within = In::create(op_token(TokenTag::IN, "IN"), vec![num("1"), num("1"), num("x")]).unwrap();
    assert_eq!(within.eval(&ctx).unwrap(), Value::BOOL(true));
    let within = In::create(op_token(TokenTag::IN, "IN"), vec![num("1"), num("2"), num("x")]).unwrap();
    assert_eq!(within.eval(&ctx).unwrap(), Value::BOOL(false));
    let within = In::create(op_token(TokenTag::IN, "IN"), vec![num("1")]).unwrap();
    assert!(matches!(within.eval(&ctx), Err(AstError::NOT_ENOUGH_ARGS(_))));
}

#[test]
fn a_leaf_takes_any_token() {
    let token = Other::create_with_token_and_val(TokenTag::OTHER, '7').unwrap();
    assert_eq!(Num::create(token).unwrap().eval(&Context::new()).unwrap(), Value::INT(7));
}

#[test]
fn remainder_has_the_sign_of_the_dividend() {
    assert_eq!(remainder(&Value::INT(10), &Value::INT(3)).unwrap(), Value::INT(1));
    assert_eq!(remainder(&Value::INT(-10), &Value::INT(3)).unwrap(), Value::INT(-1));
    assert_eq!(remainder(&Value::INT(10), &Value::INT(-3)).unwrap(), Value::INT(1));
    assert_eq!(remainder(&Value::INT(-10), &Value::INT(-3)).unwrap(), Value::INT(-1));
    assert_eq!(remainder(&Value::INT(i64::MIN), &Value::INT(-1)).unwrap(), Value::INT(0));
    assert_eq!(remainder(&Value::INT(i64::MIN), &Value::INT(i64::MAX)).unwrap(), Value::INT(-1));
    assert!(matches!(remainder(&Value::INT(1), &Value::INT(0)), Err(AstError::ARG_NOT_CORRECT(_))));
    assert!(matches!(
        remainder(&Value::BOOL(true), &Value::INT(1)),
        Err(AstError::ARG_NOT_CORRECT(_))
    ));
}

#[test]
fn values_are_equal_by_kind_and_content() {
    assert_eq!(Value::INT(1), Value::INT(1));
    assert_ne!(Value::INT(1), Value::INT(2));
    assert_ne!(Value::INT(1), Value::STR("1".to_string()));
    assert_ne!(Value::INT(1), Value::BOOL(true));
    assert_ne!(Value::BOOL(false), Value::STR("false".to_string()));
    assert_eq!(Value::STR("a".to_string()), Value::STR("a".to_string()));
    assert_ne!(Value::STR("a".to_string()), Value::STR("b".to_string()));
    let v = Value::STR("copy".to_string());
    assert_eq!(v.clone(), v);
    assert_eq!(Value::INT(-3).clone(), Value::INT(-3));
}

#[test]
fn context_keeps_the_last_binding_of_a_name() {
    let mut ctx = Context::new();
    assert!(ctx.get(&"a".to_string()).is_none());
    ctx.insert("a".to_string(), Value::INT(1));
    ctx.insert("b".to_string(), Value::INT(2));
    ctx.insert("a".to_string(), Value::INT(3));
    assert_eq!(ctx.get(&"a".to_string()), Some(&Value::INT(3)));
    assert_eq!(ctx.get(&"b".to_string()), Some(&Value::INT(2)));
    assert!(ctx.get(&"c".to_string()).is_none());
    assert!(ctx.get(&"".to_string()).is_none());
}
