use crate::ast::lexer::{
    in_class, keyword_from, lemma_run_end_is, lemma_scan_advances, scan_from, CharClass, ScanStep,
    Scanned,
};
use crate::ast::number::{decimal_text, is_digit, lemma_decimal_text_digits, parse_i64_spec};
use crate::ast::parser::{args_spec, expr_spec, move_spec, node_of, parse_text, Step, MAX_ARGS};
use crate::ast::token::{Tok, TokenTag};
use crate::ast::{Ast, Fault};
use vstd::prelude::*;

verus! {

/// The text `piece` stands in `s` at `pos`.
pub open spec fn at(s: Seq<char>, pos: int, piece: Seq<char>) -> bool {
    &&& 0 <= pos
    &&& pos + piece.len() <= s.len()
    &&& forall|k: int| 0 <= k < piece.len() ==> s[pos + k] == #[trigger] piece[k]
}

/// A text that stands at `pos` is made of a part at `pos` and a part right after it.
pub proof fn lemma_at_parts(s: Seq<char>, pos: int, x: Seq<char>, y: Seq<char>)
    requires
        at(s, pos, x + y),
    ensures
        at(s, pos, x),
        at(s, pos + x.len(), y),
{
    assert forall|k: int| 0 <= k < x.len() implies s[pos + k] == #[trigger] x[k] by {
        assert((x + y)[k] == x[k]);
    }
    assert forall|k: int| 0 <= k < y.len() implies s[pos + x.len() + k] == #[trigger] y[k] by {
        assert((x + y)[x.len() + k] == y[k]);
    }
}

/// A keyword that stands in the text from its letter `j` on is matched in full.
pub proof fn lemma_keyword_matches(s: Seq<char>, p: int, tag: TokenTag, word: Seq<char>, j: int)
    requires
        at(s, p, word),
        0 <= j <= word.len(),
    ensures
        keyword_from(s, p, tag, word, j) == (ScanStep {
            outcome: Scanned::Token(Tok { tag: tag, lexeme: word }),
            next: p + word.len(),
        }),
    decreases word.len() - j,
{
    if j < word.len() {
        assert(s[p + j] == word[j]);
        lemma_keyword_matches(s, p, tag, word, j + 1);
    }
}

/// The keyword of each operator.
pub open spec fn keyword(tag: TokenTag) -> Seq<char> {
    match tag {
        TokenTag::AND => "AND"@,
        TokenTag::OR => "OR"@,
        TokenTag::MOD => "MOD"@,
        TokenTag::IN => "IN"@,
        TokenTag::EQUALS => "EQUALS"@,
        _ => Seq::empty(),
    }
}

/// An operator's keyword in the text is scanned as the operator's token.
pub proof fn lemma_scan_keyword(s: Seq<char>, p: int, tag: TokenTag)
    requires
        tag.is_operator(),
        at(s, p, keyword(tag)),
    ensures
        scan_from(s, p) == (ScanStep {
            outcome: Scanned::Token(Tok { tag: tag, lexeme: keyword(tag) }),
            next: p + keyword(tag).len(),
        }),
{
    reveal_strlit("IN");
    reveal_strlit("MOD");
    reveal_strlit("AND");
    reveal_strlit("OR");
    reveal_strlit("EQUALS");
    let word = keyword(tag);
    assert(s[p + 0] == word[0]);
    lemma_run_end_is(s, p, p, CharClass::Blank);
    lemma_keyword_matches(s, p, tag, word, 1);
}

/// The decimal spelling of a number that fits, followed by something that is no digit, is
/// scanned as the number.
pub proof fn lemma_scan_number(s: Seq<char>, p: int, v: nat)
    requires
        v <= i64::MAX,
        at(s, p, decimal_text(v)),
        p + decimal_text(v).len() < s.len(),
        !is_digit(s[p + decimal_text(v).len()]),
    ensures
        scan_from(s, p) == (ScanStep {
            outcome: Scanned::Token(Tok { tag: TokenTag::NUM, lexeme: decimal_text(v) }),
            next: p + decimal_text(v).len(),
        }),
{
    let text = decimal_text(v);
    let e = p + text.len();
    lemma_decimal_text_digits(v);
    assert(s[p + 0] == text[0]);
    assert forall|i: int| p <= i < e implies in_class(CharClass::Digit, #[trigger] s[i]) by {
        assert(s[p + (i - p)] == text[i - p]);
    }
    lemma_run_end_is(s, p, p, CharClass::Blank);
    lemma_run_end_is(s, p, e, CharClass::Digit);
    assert(s.subrange(p, e) =~= text);
}

/// The text of a variable reference: the name between `${` and `}`.
pub open spec fn reference(name: Seq<char>) -> Seq<char> {
    seq!['$', '{'] + name + seq!['}']
}

/// A reference to a variable is scanned as the variable, if its name is of letters and
/// numeric characters, and the right brace is none of them.
pub proof fn lemma_scan_variable(s: Seq<char>, p: int, name: Seq<char>)
    requires
        !in_class(CharClass::Alnum, '}'),
        forall|i: int| 0 <= i < name.len() ==> in_class(CharClass::Alnum, #[trigger] name[i]),
        at(s, p, reference(name)),
    ensures
        scan_from(s, p) == (ScanStep {
            outcome: Scanned::Token(Tok { tag: TokenTag::VAR, lexeme: name }),
            next: p + name.len() + 3,
        }),
{
    let text = reference(name);
    let e = p + 2 + name.len();
    assert(s[p + 0] == text[0]);
    assert(s[p + 1] == text[1]);
    assert(s[p + (2 + name.len())] == text[2 + name.len() as int]);
    assert forall|i: int| p + 2 <= i < e implies in_class(CharClass::Alnum, #[trigger] s[i]) by {
        assert(s[p + (i - p)] == text[i - p]);
        assert(text[i - p] == name[i - p - 2]);
    }
    lemma_run_end_is(s, p, p, CharClass::Blank);
    lemma_run_end_is(s, p + 2, e, CharClass::Alnum);
    assert forall|k: int| 0 <= k < name.len() implies s.subrange(p + 2, e)[k] == name[k] by {
        assert(s[p + (2 + k)] == text[2 + k]);
    }
    assert(s.subrange(p + 2, e) =~= name);
}

/// Two texts that stand one right after the other stand there as one text.
pub proof fn lemma_at_joined(s: Seq<char>, pos: int, x: Seq<char>, y: Seq<char>)
    requires
        at(s, pos, x),
        at(s, pos + x.len(), y),
    ensures
        at(s, pos, x + y),
{
    assert forall|k: int| 0 <= k < (x + y).len() implies s[pos + k] == #[trigger] (x + y)[k] by {
        if k < x.len() {
            assert(s[pos + k] == x[k]);
        } else {
            assert(s[pos + x.len() + (k - x.len())] == y[k - x.len()]);
        }
    }
}

/// The text of a tree in the grammar of rule expressions: a number by its spelling, a
/// variable as a reference to its name, and an operator as a list in parentheses, of its
/// keyword and then each operand after one space.
pub open spec fn render(a: Ast) -> Seq<char>
    decreases a, 0nat,
{
    match a {
        Ast::And(args) => render_list(TokenTag::AND, args),
        Ast::Or(args) => render_list(TokenTag::OR, args),
        Ast::Mod(args) => render_list(TokenTag::MOD, args),
        Ast::In(args) => render_list(TokenTag::IN, args),
        Ast::Equals(args) => render_list(TokenTag::EQUALS, args),
        Ast::Num(text) => text,
        Ast::Var(name) => reference(name),
        Ast::Str(text) => text,
        Ast::Bool(text) => text,
    }
}

/// The text of the list of the operator `tag` and the operands `args`.
pub open spec fn render_list(tag: TokenTag, args: Seq<Ast>) -> Seq<char>
    decreases args, args.len() + 1,
{
    seq!['('] + keyword(tag) + render_from(args, 0) + seq![')']
}

/// The text of the operands from `i` on, each after one space.
pub open spec fn render_from(args: Seq<Ast>, i: int) -> Seq<char>
    decreases args, args.len() - i,
{
    if 0 <= i < args.len() {
        seq![' '] + render(args[i]) + render_from(args, i + 1)
    } else {
        Seq::empty()
    }
}

/// The trees whose text reads back: every number is the shortest spelling of a number
/// from zero to the largest signed 64-bit integer, every variable's name is of letters and
/// numeric characters, of which the right brace is none, no operator has more operands
/// than a list may hold, and there is neither a string nor a boolean.
pub open spec fn writable(a: Ast) -> bool
    decreases a,
{
    match a {
        Ast::And(args) => args.len() < MAX_ARGS && forall|i: int|
            0 <= i < args.len() ==> writable(#[trigger] args[i]),
        Ast::Or(args) => args.len() < MAX_ARGS && forall|i: int|
            0 <= i < args.len() ==> writable(#[trigger] args[i]),
        Ast::Mod(args) => args.len() < MAX_ARGS && forall|i: int|
            0 <= i < args.len() ==> writable(#[trigger] args[i]),
        Ast::In(args) => args.len() < MAX_ARGS && forall|i: int|
            0 <= i < args.len() ==> writable(#[trigger] args[i]),
        Ast::Equals(args) => args.len() < MAX_ARGS && forall|i: int|
            0 <= i < args.len() ==> writable(#[trigger] args[i]),
        Ast::Num(text) => parse_i64_spec(text) matches Some(v) && v >= 0 && text == decimal_text(
            v as nat,
        ),
        Ast::Var(name) => !in_class(CharClass::Alnum, '}') && forall|i: int|
            0 <= i < name.len() ==> in_class(CharClass::Alnum, #[trigger] name[i]),
        Ast::Str(_) => false,
        Ast::Bool(_) => false,
    }
}

/// An operator with operands.
pub open spec fn is_list(a: Ast) -> bool {
    a is And || a is Or || a is Mod || a is In || a is Equals
}

/// The token of a parenthesis.
pub open spec fn paren(tag: TokenTag, c: char) -> Tok {
    Tok { tag: tag, lexeme: seq![c] }
}

/// The lookahead after a list that ends right before `e`: the token that stands there, or
/// the list's right parenthesis where the text has none.
pub open spec fn after_list(s: Seq<char>, e: int) -> Option<Tok> {
    match scan_from(s, e).outcome {
        Scanned::Token(t) => Some(t),
        _ => Some(paren(TokenTag::RIGHT_PAREN, ')')),
    }
}

/// A space or a right parenthesis stands at `e`: what follows an operand in a list.
pub open spec fn closes_operand(s: Seq<char>, e: int) -> bool {
    0 <= e < s.len() && (s[e] == ' ' || s[e] == ')')
}

/// The text of a writable tree starts with a left parenthesis, a digit or a dollar sign.
pub proof fn lemma_render_starts(a: Ast)
    requires
        writable(a),
    ensures
        render(a).len() > 0,
        render(a)[0] == '(' || render(a)[0] == '$' || is_digit(render(a)[0]),
        is_list(a) ==> render(a)[0] == '(',
{
    match a {
        Ast::Num(text) => {
            lemma_decimal_text_digits(parse_i64_spec(text)->0 as nat);
        },
        _ => {},
    }
}

/// The first token of the text of a writable tree that stands at `q`, followed by a space
/// or a right parenthesis. Of a list it is the left parenthesis. A number or a variable is
/// that one token, and the expression that starts with it is the tree, with nothing pulled.
pub proof fn lemma_first_token(s: Seq<char>, q: int, a: Ast)
    requires
        writable(a),
        at(s, q, render(a)),
        closes_operand(s, q + render(a).len()),
    ensures
        scan_from(s, q).outcome matches Scanned::Token(t) && t.tag != TokenTag::RIGHT_PAREN && ({
            let next = scan_from(s, q).next;
            &&& if is_list(a) {
                t == paren(TokenTag::LEFT_PAREN, '(') && next == q + 1
            } else {
                next == q + render(a).len() && expr_spec(s, next, Some(t)) == (Step {
                    result: Ok::<Ast, Fault>(a),
                    used: 0,
                    look: Some(t),
                })
            }
        }),
{
    lemma_render_starts(a);
    assert(s[q + 0] == render(a)[0]);
    match a {
        Ast::Num(text) => {
            let v = parse_i64_spec(text)->0 as nat;
            lemma_scan_number(s, q, v);
        },
        Ast::Var(name) => {
            lemma_scan_variable(s, q, name);
        },
        _ => {
            lemma_run_end_is(s, q, q, CharClass::Blank);
            assert(seq![s[q]] =~= seq!['(']);
        },
    }
}

/// The operands from `i` on and the right parenthesis stand at `q`: a token starts there.
pub proof fn lemma_operands_start(s: Seq<char>, q: int, args: Seq<Ast>, i: int)
    requires
        0 <= i <= args.len(),
        forall|j: int| 0 <= j < args.len() ==> writable(#[trigger] args[j]),
        at(s, q, render_from(args, i) + seq![')']),
    ensures
        closes_operand(s, q),
        scan_from(s, q).outcome is Token,
        i < args.len() ==> scan_from(s, q) == scan_from(s, q + 1) && at(s, q + 1, render(args[i]))
            && closes_operand(s, q + 1 + render(args[i]).len()) && at(
            s,
            q + 1 + render(args[i]).len(),
            render_from(args, i + 1) + seq![')'],
        ),
        i == args.len() ==> scan_from(s, q) == (ScanStep {
            outcome: Scanned::Token(paren(TokenTag::RIGHT_PAREN, ')')),
            next: q + 1,
        }),
{
    let close = seq![')'];
    lemma_at_parts(s, q, render_from(args, i), close);
    if i == args.len() {
        assert(s[q + 0] == close[0]);
        lemma_run_end_is(s, q, q, CharClass::Blank);
        assert(seq![s[q]] =~= seq![')']);
    } else {
        let space = seq![' '];
        let text = render(args[i]);
        let rest = render_from(args, i + 1);
        lemma_at_parts(s, q, space + text, rest);
        lemma_at_parts(s, q, space, text);
        lemma_at_joined(s, q + 1 + text.len(), rest, close);
        lemma_render_starts(args[i]);
        assert(s[q + 0] == space[0]);
        assert(s[q + 1 + 0] == text[0]);
        assert(s[q + 1 + text.len() + 0] == (rest + close)[0]);
        if i + 1 < args.len() {
            assert(rest[0] == ' ');
        }
        lemma_run_end_is(s, q, q + 1, CharClass::Blank);
        lemma_run_end_is(s, q + 1, q + 1, CharClass::Blank);
        lemma_first_token(s, q + 1, args[i]);
    }
}

/// A writable list whose text stands at `q` is read back, if what follows the text is not
/// illegal: the token at `q` is the left parenthesis, and the expression that starts with
/// it is the operator's node. The cursor is left where scanning from the end of the
/// list's text leaves it, and the lookahead is what is scanned there.
pub proof fn lemma_list_reads_back(s: Seq<char>, q: int, tag: TokenTag, args: Seq<Ast>)
    requires
        tag.is_operator(),
        args.len() < MAX_ARGS,
        forall|i: int| 0 <= i < args.len() ==> writable(#[trigger] args[i]),
        at(s, q, render_list(tag, args)),
        !(scan_from(s, q + render_list(tag, args).len()).outcome is Illegal),
    ensures
        scan_from(s, q) == (ScanStep {
            outcome: Scanned::Token(paren(TokenTag::LEFT_PAREN, '(')),
            next: q + 1,
        }),
        ({
            let e = q + render_list(tag, args).len();
            let c = expr_spec(s, q + 1, Some(paren(TokenTag::LEFT_PAREN, '(')));
            &&& c.result == node_of(tag, args)
            &&& c.used > 0
            &&& q + 1 + c.used == scan_from(s, e).next
            &&& c.look == after_list(s, e)
        }),
    decreases args, args.len() + 1,
{
    let open = seq!['('];
    let word = keyword(tag);
    let rest = render_from(args, 0);
    let close = seq![')'];
    lemma_at_parts(s, q, open + word + rest, close);
    lemma_at_parts(s, q, open + word, rest);
    lemma_at_parts(s, q, open, word);
    lemma_at_joined(s, q + 1 + word.len(), rest, close);
    assert(s[q + 0] == open[0]);
    lemma_run_end_is(s, q, q, CharClass::Blank);
    assert(seq![s[q]] =~= seq!['(']);
    lemma_scan_keyword(s, q + 1, tag);
    lemma_args_read_back(
        s,
        q + 1 + word.len(),
        q + 1 + word.len(),
        Some(Tok { tag: tag, lexeme: word }),
        tag,
        MAX_ARGS as nat,
        Seq::empty(),
        args,
        0,
        true,
    );
    assert(Seq::<Ast>::empty() + args.subrange(0, args.len() as int) =~= args);
    lemma_scan_advances(s, q + render_list(tag, args).len());
}

/// The same for the operands of a list from `i` on, which stand at `q` with the right
/// parenthesis after them: they are read in their order, after the operands `acc` that
/// were read before. Either the turn pulls, with the cursor at `q`, or the token at `q`
/// is the lookahead already.
pub proof fn lemma_args_read_back(
    s: Seq<char>,
    q: int,
    pos: int,
    look: Option<Tok>,
    tag: TokenTag,
    k: nat,
    acc: Seq<Ast>,
    args: Seq<Ast>,
    i: int,
    pull: bool,
)
    requires
        tag.is_operator(),
        0 <= i <= args.len(),
        k > args.len() - i,
        forall|j: int| 0 <= j < args.len() ==> writable(#[trigger] args[j]),
        at(s, q, render_from(args, i) + seq![')']),
        !(scan_from(s, q + render_from(args, i).len() + 1).outcome is Illegal),
        pull ==> pos == q,
        !pull ==> pos == scan_from(s, q).next && scan_from(s, q).outcome == Scanned::Token(look->0)
            && look is Some,
    ensures
        ({
            let e = q + render_from(args, i).len() + 1;
            let r = args_spec(s, pos, look, tag, k, acc, pull);
            &&& r.result == node_of(tag, acc + args.subrange(i, args.len() as int))
            &&& pos + r.used == scan_from(s, e).next
            &&& r.look == after_list(s, e)
        }),
    decreases args, args.len() - i,
{
    lemma_operands_start(s, q, args, i);
    lemma_scan_advances(s, q);
    let first = scan_from(s, q);
    let m = if pull {
        move_spec(s, pos, look)
    } else {
        Step { result: Ok(pos <= s.len()), used: 0, look: look }
    };
    assert(m.result == Ok::<bool, Fault>(true));
    assert(m.look == Some(first.outcome->Token_0));
    assert(pos + m.used == first.next);
    if i == args.len() {
        lemma_scan_advances(s, q + 1);
        assert(acc + args.subrange(i, args.len() as int) =~= acc);
    } else {
        let a = args[i];
        let e1 = q + 1 + render(a).len();
        lemma_first_token(s, q + 1, a);
        lemma_operands_start(s, e1, args, i + 1);
        let c = expr_spec(s, first.next, m.look);
        if is_list(a) {
            match a {
                Ast::And(inner) => {
                    lemma_list_reads_back(s, q + 1, TokenTag::AND, inner);
                },
                Ast::Or(inner) => {
                    lemma_list_reads_back(s, q + 1, TokenTag::OR, inner);
                },
                Ast::Mod(inner) => {
                    lemma_list_reads_back(s, q + 1, TokenTag::MOD, inner);
                },
                Ast::In(inner) => {
                    lemma_list_reads_back(s, q + 1, TokenTag::IN, inner);
                },
                Ast::Equals(inner) => {
                    lemma_list_reads_back(s, q + 1, TokenTag::EQUALS, inner);
                },
                _ => {},
            }
        }
        assert(c.result == Ok::<Ast, Fault>(a));
        lemma_args_read_back(
            s,
            e1,
            first.next + c.used,
            c.look,
            tag,
            (k - 1) as nat,
            acc.push(a),
            args,
            i + 1,
            c.used == 0,
        );
        assert(acc.push(a) + args.subrange(i + 1, args.len() as int) =~= acc + args.subrange(
            i,
            args.len() as int,
        ));
    }
}

/// The text of a writable list is parsed to the list: the parser accepts every
/// expression of the grammar and reads it as what it says.
pub proof fn lemma_parse_reads_back(a: Ast)
    requires
        writable(a),
        is_list(a),
    ensures
        parse_text(render(a)) == Ok::<Ast, Fault>(a),
{
    let s = render(a);
    assert(scan_from(s, s.len() as int).outcome is End);
    match a {
        Ast::And(args) => {
            lemma_list_reads_back(s, 0, TokenTag::AND, args);
        },
        Ast::Or(args) => {
            lemma_list_reads_back(s, 0, TokenTag::OR, args);
        },
        Ast::Mod(args) => {
            lemma_list_reads_back(s, 0, TokenTag::MOD, args);
        },
        Ast::In(args) => {
            lemma_list_reads_back(s, 0, TokenTag::IN, args);
        },
        Ast::Equals(args) => {
            lemma_list_reads_back(s, 0, TokenTag::EQUALS, args);
        },
        _ => {},
    }
}

} // verus!
