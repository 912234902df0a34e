use crate::ast::number::{
    all_digits, decimal_string, decimal_text, digit_of, digits_value, is_digit, is_digit_char,
    lemma_decimal_round_trip, lemma_digits_value_monotone, parse_i64_spec, push_decimal,
};
use crate::ast::text::{char_string, numeric, to_chars};
use crate::ast::token::{ErrCode, Mishap, Num, OpType, Other, Tok, Token, TokenTag, Var};
use vstd::prelude::*;

verus! {

/// The kinds of character that the lexer reads in runs.
pub enum CharClass {
    /// A space or a tab.
    Blank,
    /// A decimal digit.
    Digit,
    /// A numeric character or an unaccented Latin letter.
    Alnum,
}

/// Whether `c` is a character of the kind `k`.
pub open spec fn in_class(k: CharClass, c: char) -> bool {
    match k {
        CharClass::Blank => c == ' ' || c == '\t',
        CharClass::Digit => is_digit(c),
        CharClass::Alnum => numeric(c) || ('a' <= c && c <= 'z') || ('A' <= c && c <= 'Z'),
    }
}

/// Where the run of `k` characters that starts at `pos` ends: the first index from `pos`
/// on that holds another kind of character, or the end of the text.
pub open spec fn run_end(s: Seq<char>, pos: int, k: CharClass) -> int
    decreases s.len() - pos,
{
    if 0 <= pos < s.len() && in_class(k, s[pos]) {
        run_end(s, pos + 1, k)
    } else {
        pos
    }
}

/// What the end of the text is reported with.
pub const END_OF_TEXT: &'static str = "Has read to the end";

/// What a place that the cursor cannot go back to is refused with.
pub const NO_WAY_BACK: &'static str = "Back failed!";

/// What a number too large for a signed 64-bit integer is refused with.
pub const NUMBER_TOO_LARGE: &'static str = "Number does not fit in 64 bits";

/// What a text too long for the cursor to move past its end is refused with.
pub const TEXT_TOO_LONG: &'static str = "Rule content is too long";

/// What a character that cannot stand in a variable's name is refused with; the index of
/// the character follows.
pub const ILLEGAL_NAME: &'static str =
    "Illegal arg format for id, id should only contains a-zA-Z0-9, char index:";

/// What one call of the lexer yields.
pub enum Scanned {
    /// A token.
    Token(Tok),
    /// The text ended before a token was complete; with the message.
    End(Seq<char>),
    /// The text cannot be a token; with the message.
    Illegal(Seq<char>),
}

/// The text ended while the cursor stood at `at`: the cursor moves on by one all the same.
pub open spec fn ended(at: int) -> ScanStep {
    ScanStep { outcome: Scanned::End(END_OF_TEXT@), next: at + 1 }
}

/// What one call of the lexer yields, and where it leaves the cursor.
pub struct ScanStep {
    pub outcome: Scanned,
    pub next: int,
}

/// A token that is the single character at `p`.
pub open spec fn single_at(s: Seq<char>, p: int, tag: TokenTag) -> ScanStep {
    ScanStep { outcome: Scanned::Token(Tok { tag: tag, lexeme: seq![s[p]] }), next: p + 1 }
}

/// Matches the keyword `word`, whose first `j` letters stand at `p`, letter by letter.
/// The whole word gives the keyword's token. A letter that differs gives up on the keyword:
/// the token is the single character at `p`, and the cursor goes back to stand right after
/// it. A text that ends before either is decided gives no token.
pub open spec fn keyword_from(s: Seq<char>, p: int, tag: TokenTag, word: Seq<char>, j: int) -> ScanStep
    decreases word.len() - j,
{
    if j >= word.len() {
        ScanStep { outcome: Scanned::Token(Tok { tag: tag, lexeme: word }), next: p + word.len() }
    } else if p + j >= s.len() {
        ended(p + j)
    } else if s[p + j] != word[j] {
        single_at(s, p, TokenTag::OTHER)
    } else {
        keyword_from(s, p, tag, word, j + 1)
    }
}

/// A number starts at `p`: the token is the whole run of digits, spelled without leading
/// zeros. The run must be followed by another character, and its value must fit a signed
/// 64-bit integer.
pub open spec fn number_at(s: Seq<char>, p: int) -> ScanStep {
    let e = run_end(s, p, CharClass::Digit);
    let v = digits_value(s.subrange(p, e));
    if e >= s.len() {
        ended(e)
    } else if v > i64::MAX {
        ScanStep { outcome: Scanned::Illegal(NUMBER_TOO_LARGE@), next: e }
    } else {
        ScanStep {
            outcome: Scanned::Token(Tok { tag: TokenTag::NUM, lexeme: decimal_text(v as nat) }),
            next: e,
        }
    }
}

/// A `$` stands at `p`. Followed by `{`, a run of letters and numeric characters and `}`,
/// it is a variable named by the run. Any other character in place of the `}` is illegal,
/// and the message names its index. A `$` that no `{` follows is a token by itself.
pub open spec fn variable_at(s: Seq<char>, p: int) -> ScanStep {
    if p + 1 >= s.len() {
        ended(p + 1)
    } else if s[p + 1] != '{' {
        single_at(s, p, TokenTag::OTHER)
    } else {
        let e = run_end(s, p + 2, CharClass::Alnum);
        if e >= s.len() {
            ended(e)
        } else if s[e] == '}' {
            ScanStep {
                outcome: Scanned::Token(Tok { tag: TokenTag::VAR, lexeme: s.subrange(p + 2, e) }),
                next: e + 1,
            }
        } else {
            ScanStep {
                outcome: Scanned::Illegal(ILLEGAL_NAME@ + decimal_text(e as nat)),
                next: e + 1,
            }
        }
    }
}

/// The token that starts at `p`, which holds no blank.
pub open spec fn token_at(s: Seq<char>, p: int) -> ScanStep {
    let c = s[p];
    if c == 'I' {
        keyword_from(s, p, TokenTag::IN, "IN"@, 1)
    } else if c == 'M' {
        keyword_from(s, p, TokenTag::MOD, "MOD"@, 1)
    } else if c == 'A' {
        keyword_from(s, p, TokenTag::AND, "AND"@, 1)
    } else if c == 'O' {
        keyword_from(s, p, TokenTag::OR, "OR"@, 1)
    } else if c == 'E' {
        keyword_from(s, p, TokenTag::EQUALS, "EQUALS"@, 1)
    } else if is_digit(c) {
        number_at(s, p)
    } else if c == '$' {
        variable_at(s, p)
    } else if c == '(' {
        single_at(s, p, TokenTag::LEFT_PAREN)
    } else if c == ')' {
        single_at(s, p, TokenTag::RIGHT_PAREN)
    } else {
        single_at(s, p, TokenTag::OTHER)
    }
}

/// One step of the lexer on the text `s` with the cursor at `pos`: blanks are skipped, and
/// the next token is read if the text has one. Where the text ends first, the cursor is
/// left one past the place where a character was missing.
pub open spec fn scan_from(s: Seq<char>, pos: int) -> ScanStep {
    let p = run_end(s, pos, CharClass::Blank);
    if 0 <= p < s.len() {
        token_at(s, p)
    } else {
        ended(p)
    }
}

/// What a call of the lexer returned, as a mathematical value.
pub open spec fn scanned(r: Result<Token, ErrCode>) -> Scanned {
    match r {
        Ok(t) => Scanned::Token(t@),
        Err(ErrCode::READ_TO_END(m)) => Scanned::End(m@),
        Err(ErrCode::OTHER(m)) => Scanned::Illegal(m@),
    }
}

/// A reading function reported the end of the text.
pub open spec fn at_end<T>(r: Result<T, ErrCode>) -> bool {
    r matches Err(e) && e@ == Mishap::ReadToEnd(END_OF_TEXT@)
}

/// A run ends at or after its start and within the text, every character before its end
/// is of the run's kind, and the character at its end is not.
pub proof fn lemma_run_end(s: Seq<char>, pos: int, k: CharClass)
    requires
        0 <= pos <= s.len(),
    ensures
        pos <= run_end(s, pos, k) <= s.len(),
        forall|i: int| pos <= i < run_end(s, pos, k) ==> in_class(k, #[trigger] s[i]),
        run_end(s, pos, k) < s.len() ==> !in_class(k, s[run_end(s, pos, k)]),
    decreases s.len() - pos,
{
    if pos < s.len() && in_class(k, s[pos]) {
        lemma_run_end(s, pos + 1, k);
    }
}

/// A run that starts at `pos` ends at `e` if every character from `pos` up to `e` is of
/// its kind and the character at `e`, if there is one, is not.
pub proof fn lemma_run_end_is(s: Seq<char>, pos: int, e: int, k: CharClass)
    requires
        0 <= pos <= e <= s.len(),
        forall|i: int| pos <= i < e ==> in_class(k, #[trigger] s[i]),
        e < s.len() ==> !in_class(k, s[e]),
    ensures
        run_end(s, pos, k) == e,
    decreases e - pos,
{
    if pos < e {
        lemma_run_end_is(s, pos + 1, e, k);
    }
}

/// Matching a keyword leaves the cursor after the first letter at least: within the text
/// where a token comes of it, and one past the end where the text ends first.
pub proof fn lemma_keyword_advances(s: Seq<char>, p: int, tag: TokenTag, word: Seq<char>, j: int)
    requires
        0 <= p,
        1 <= j <= word.len(),
        p + j <= s.len(),
    ensures
        p < keyword_from(s, p, tag, word, j).next <= s.len() + 1,
        keyword_from(s, p, tag, word, j).outcome is Token ==> keyword_from(s, p, tag, word, j).next
            <= s.len(),
        keyword_from(s, p, tag, word, j).outcome is End ==> keyword_from(s, p, tag, word, j).next
            > s.len(),
        !(keyword_from(s, p, tag, word, j).outcome is Illegal),
    decreases word.len() - j,
{
    if j < word.len() && p + j < s.len() && s[p + j] == word[j] {
        lemma_keyword_advances(s, p, tag, word, j + 1);
    }
}

/// The lexer always moves the cursor forward. A token leaves it within the text; the end
/// of the text leaves it past the end, by one if it stood within the text.
pub proof fn lemma_scan_advances(s: Seq<char>, pos: int)
    ensures
        pos < scan_from(s, pos).next,
        pos <= s.len() ==> scan_from(s, pos).next <= s.len() + 1,
        scan_from(s, pos).outcome is Token ==> 0 <= pos < scan_from(s, pos).next <= s.len(),
        scan_from(s, pos).outcome is End && 0 <= pos ==> scan_from(s, pos).next > s.len(),
{
    reveal_strlit("IN");
    reveal_strlit("MOD");
    reveal_strlit("AND");
    reveal_strlit("OR");
    reveal_strlit("EQUALS");
    if 0 <= pos <= s.len() {
        lemma_run_end(s, pos, CharClass::Blank);
    }
    let p = run_end(s, pos, CharClass::Blank);
    if 0 <= p < s.len() {
        let c = s[p];
        if c == 'I' {
            lemma_keyword_advances(s, p, TokenTag::IN, "IN"@, 1);
        } else if c == 'M' {
            lemma_keyword_advances(s, p, TokenTag::MOD, "MOD"@, 1);
        } else if c == 'A' {
            lemma_keyword_advances(s, p, TokenTag::AND, "AND"@, 1);
        } else if c == 'O' {
            lemma_keyword_advances(s, p, TokenTag::OR, "OR"@, 1);
        } else if c == 'E' {
            lemma_keyword_advances(s, p, TokenTag::EQUALS, "EQUALS"@, 1);
        } else if is_digit(c) {
            lemma_run_end(s, p, CharClass::Digit);
        } else if c == '$' {
            if p + 2 <= s.len() {
                lemma_run_end(s, p + 2, CharClass::Alnum);
            }
        }
    }
}

/// A keyword match yields the keyword's token or one of a single character.
pub proof fn lemma_keyword_tag(s: Seq<char>, p: int, tag: TokenTag, word: Seq<char>, j: int)
    ensures
        keyword_from(s, p, tag, word, j).outcome matches Scanned::Token(t) ==> t.tag == tag || t.tag
            == TokenTag::OTHER,
    decreases word.len() - j,
{
    if j < word.len() && p + j < s.len() && s[p + j] == word[j] {
        lemma_keyword_tag(s, p, tag, word, j + 1);
    }
}

/// The lexer yields no string token, and every number that it yields reads back as a
/// signed 64-bit integer.
pub proof fn lemma_scanned_token(s: Seq<char>, pos: int)
    requires
        0 <= pos,
    ensures
        scan_from(s, pos).outcome matches Scanned::Token(t) ==> t.tag != TokenTag::STR && (t.tag
            == TokenTag::NUM ==> parse_i64_spec(t.lexeme) is Some),
{
    let p = run_end(s, pos, CharClass::Blank);
    if pos <= s.len() {
        lemma_run_end(s, pos, CharClass::Blank);
    }
    if 0 <= p < s.len() {
        let c = s[p];
        if c == 'I' {
            lemma_keyword_tag(s, p, TokenTag::IN, "IN"@, 1);
        } else if c == 'M' {
            lemma_keyword_tag(s, p, TokenTag::MOD, "MOD"@, 1);
        } else if c == 'A' {
            lemma_keyword_tag(s, p, TokenTag::AND, "AND"@, 1);
        } else if c == 'O' {
            lemma_keyword_tag(s, p, TokenTag::OR, "OR"@, 1);
        } else if c == 'E' {
            lemma_keyword_tag(s, p, TokenTag::EQUALS, "EQUALS"@, 1);
        } else if is_digit(c) {
            lemma_run_end(s, p, CharClass::Digit);
            let e = run_end(s, p, CharClass::Digit);
            let v = digits_value(s.subrange(p, e));
            assert(all_digits(s.subrange(p, e)));
            lemma_digits_value_monotone(s.subrange(p, e), 0);
            if e < s.len() && v <= i64::MAX {
                lemma_decimal_round_trip(v as nat);
            }
        }
    }
}

/// Whether a character is a space or a tab.
pub fn is_blank_char(c: char) -> (b: bool)
    ensures
        b == in_class(CharClass::Blank, c),
{
    c == ' ' || c == '\t'
}

/// Whether a character may stand in a variable's name, given whether it is numeric: the
/// numeric characters may, and the unaccented Latin letters.
pub fn is_name_char(is_numeric: bool, c: char) -> (b: bool)
    ensures
        b == (is_numeric || ('a' <= c && c <= 'z') || ('A' <= c && c <= 'Z')),
{
    is_numeric || (c >= 'a' && c <= 'z') || (c >= 'A' && c <= 'Z')
}

/// Whether a character may stand in a variable's name.
pub fn is_alnum_char(c: char) -> (b: bool)
    ensures
        b == in_class(CharClass::Alnum, c),
{
    is_name_char(c.is_numeric(), c)
}

/// Cuts a text into tokens, one for each call of `scan`.
#[derive(Debug)]
pub struct Lexer {
    chars: Vec<char>,
    cur_step: usize,
    peek: Option<char>,
}

impl Lexer {
    /// The text that is being cut into tokens.
    pub closed spec fn text(&self) -> Seq<char> {
        self.chars@
    }

    /// The cursor: how many characters have been asked for. It moves by one for every
    /// character read, and also each time the text has none left.
    pub closed spec fn pos(&self) -> nat {
        self.cur_step as nat
    }

    /// The character that was read last.
    pub closed spec fn peeked(&self) -> Option<char> {
        self.peek
    }

    /// The cursor can move once more, wherever in the text it stands: neither it nor the
    /// end of the text is at the largest number that the machine counts to.
    pub open spec fn has_room(&self) -> bool {
        self.text().len() < usize::MAX && self.pos() < usize::MAX
    }

    /// A lexer at the start of `content`. A text so long that the cursor could not move
    /// past its end is refused.
    pub fn create(content: String) -> (r: Result<Lexer, ErrCode>)
        ensures
            content@.len() < usize::MAX ==> (r matches Ok(l) && l.text() == content@ && l.pos() == 0
                && l.peeked() is None),
            content@.len() >= usize::MAX ==> (r matches Err(e) && e@ == Mishap::Other(
                TEXT_TOO_LONG@,
            )),
    {
        let chars = to_chars(content.as_str());
        if chars.len() == usize::MAX {
            return Err(ErrCode::OTHER(String::from_str(TEXT_TOO_LONG)));
        }
        Ok(Lexer { chars: chars, cur_step: 0, peek: None })
    }

    /// The cursor.
    pub fn position(&self) -> (r: usize)
        ensures
            r == self.pos(),
    {
        self.cur_step
    }

    /// Whether the text has ended under the cursor: a character was asked for and there
    /// was none.
    pub fn exhausted(&self) -> (r: bool)
        ensures
            r == (self.pos() > self.text().len()),
    {
        self.cur_step > self.chars.len()
    }

    /// Moves the cursor by one, and reads the character that stood under it into `peek`.
    /// At the end of the text there is none: `peek` stays, and the end is reported.
    pub fn read(step: &mut usize, peek: &mut Option<char>, c: &Vec<char>) -> (r: Result<
        (),
        ErrCode,
    >)
        requires
            *old(step) < usize::MAX,
        ensures
            *final(step) == *old(step) + 1,
            *old(step) < c.len() ==> r is Ok && *final(peek) == Some(c[*old(step) as int]),
            *old(step) >= c.len() ==> at_end(r) && *final(peek) == *old(peek),
    {
        let at = *step;
        *step = at + 1;
        if at < c.len() {
            *peek = Some(c[at]);
            Ok(())
        } else {
            Err(ErrCode::READ_TO_END(String::from_str(END_OF_TEXT)))
        }
    }

    /// Takes the cursor back to `ori_step`, where it stood before, and `peek` to the
    /// character that was read last there. A place ahead of the cursor, or one before the
    /// first character, is refused, and nothing changes.
    pub fn back_read(
        step: &mut usize,
        peek: &mut Option<char>,
        c: &Vec<char>,
        ori_step: usize,
    ) -> (r: Result<(), ErrCode>)
        ensures
            ori_step == *old(step) ==> r is Ok && *final(step) == *old(step) && *final(peek)
                == *old(peek),
            1 <= ori_step < *old(step) && ori_step <= c.len() ==> r is Ok && *final(step)
                == ori_step && *final(peek) == Some(c[ori_step - 1]),
            !(ori_step == *old(step) || (1 <= ori_step < *old(step) && ori_step <= c.len()))
                ==> (r matches Err(e) && e@ == Mishap::Other(NO_WAY_BACK@)) && *final(step)
                == *old(step) && *final(peek) == *old(peek),
    {
        if ori_step == *step {
            Ok(())
        } else if 1 <= ori_step && ori_step < *step && ori_step <= c.len() {
            *step = ori_step;
            *peek = Some(c[ori_step - 1]);
            Ok(())
        } else {
            Err(ErrCode::OTHER(String::from_str(NO_WAY_BACK)))
        }
    }

    /// Reads one character and says whether it is `c`. After a match a blank stands for
    /// the character read.
    pub fn read_next(&mut self, c: char) -> (r: Result<bool, ErrCode>)
        requires
            old(self).pos() < usize::MAX,
        ensures
            final(self).text() == old(self).text(),
            final(self).pos() == old(self).pos() + 1,
            old(self).pos() < old(self).text().len() ==> r == Ok::<bool, ErrCode>(
                old(self).text()[old(self).pos() as int] == c,
            ) && final(self).peeked() == Some(
                if old(self).text()[old(self).pos() as int] == c {
                    ' '
                } else {
                    old(self).text()[old(self).pos() as int]
                },
            ),
            old(self).pos() >= old(self).text().len() ==> at_end(r) && final(self).peeked() == old(
                self,
            ).peeked(),
    {
        Self::read(&mut self.cur_step, &mut self.peek, &self.chars)?;
        if self.peek == Some(c) {
            self.peek = Some(' ');
            Ok(true)
        } else {
            Ok(false)
        }
    }

    /// Reads up to and including the first character that is no blank.
    pub fn skip_blank_and_read(step: &mut usize, peek: &mut Option<char>, chars: &Vec<char>) -> (r:
        Result<(), ErrCode>)
        requires
            *old(step) < usize::MAX,
            chars.len() < usize::MAX,
        ensures
            ({
                let e = run_end(chars@, *old(step) as int, CharClass::Blank);
                &&& *final(step) == e + 1
                &&& if e < chars.len() {
                    r is Ok && *final(peek) == Some(chars[e])
                } else {
                    at_end(r) && *final(peek) == if e > *old(step) {
                        Some(chars[e - 1])
                    } else {
                        *old(peek)
                    }
                }
            }),
    {
        let ghost start = *step;
        let ghost peek0 = *peek;
        loop
            invariant
                start == *old(step),
                peek0 == *old(peek),
                start <= *step < usize::MAX,
                chars.len() < usize::MAX,
                *step > start ==> *step <= chars.len() && *peek == Some(chars[*step - 1]),
                *step == start ==> *peek == peek0,
                run_end(chars@, start as int, CharClass::Blank) == run_end(
                    chars@,
                    *step as int,
                    CharClass::Blank,
                ),
            decreases chars.len() - *step,
        {
            Self::read(step, peek, chars)?;
            let blank = match *peek {
                Some(c) => is_blank_char(c),
                None => true,
            };
            if !blank {
                return Ok(());
            }
        }
    }

    /// The keyword `word`, whose first letter was just read.
    fn keyword(&mut self, tag: TokenTag, word: &str) -> (r: Result<Token, ErrCode>)
        requires
            word@.len() >= 1,
            1 <= old(self).cur_step <= old(self).chars.len() < usize::MAX,
            old(self).peek == Some(old(self).chars[old(self).cur_step - 1]),
        ensures
            final(self).chars@ == old(self).chars@,
            final(self).cur_step == keyword_from(
                old(self).chars@,
                old(self).cur_step - 1,
                tag,
                word@,
                1,
            ).next,
            scanned(r) == keyword_from(
                old(self).chars@,
                old(self).cur_step - 1,
                tag,
                word@,
                1,
            ).outcome,
    {
        let ori_step = self.cur_step;
        let n = word.unicode_len();
        let mut j: usize = 1;
        while j < n
            invariant
                1 <= j <= n,
                n == word@.len(),
                self.chars@ == old(self).chars@,
                ori_step == old(self).cur_step,
                1 <= ori_step <= self.chars.len() < usize::MAX,
                self.cur_step == ori_step - 1 + j,
                self.cur_step <= self.chars.len(),
                keyword_from(self.chars@, ori_step - 1, tag, word@, 1) == keyword_from(
                    self.chars@,
                    ori_step - 1,
                    tag,
                    word@,
                    j as int,
                ),
            decreases n - j,
        {
            if !self.read_next(word.get_char(j))? {
                Self::back_read(&mut self.cur_step, &mut self.peek, &self.chars, ori_step)?;
                let first = match self.peek {
                    Some(c) => c,
                    None => ' ',
                };
                return Other::create_with_token_and_val(TokenTag::OTHER, first);
            }
            j = j + 1;
        }
        OpType::create_with_token(tag, String::from_str(word))
    }

    /// The number whose first digit was just read.
    fn number(&mut self) -> (r: Result<Token, ErrCode>)
        requires
            1 <= old(self).cur_step <= old(self).chars.len() < usize::MAX,
            old(self).peek == Some(old(self).chars[old(self).cur_step - 1]),
            is_digit(old(self).chars[old(self).cur_step - 1]),
        ensures
            final(self).chars@ == old(self).chars@,
            final(self).cur_step == number_at(old(self).chars@, old(self).cur_step - 1).next,
            scanned(r) == number_at(old(self).chars@, old(self).cur_step - 1).outcome,
    {
        let ghost s = self.chars@;
        let ghost p = self.cur_step - 1;
        let mut v: u64 = 0;
        let mut fits = true;
        loop
            invariant
                self.chars@ == s,
                s == old(self).chars@,
                s.len() < usize::MAX,
                p == old(self).cur_step - 1,
                0 <= p < self.cur_step <= s.len(),
                self.peek == Some(s[self.cur_step - 1]),
                forall|i: int| p <= i < self.cur_step ==> is_digit(#[trigger] s[i]),
                fits ==> v == digits_value(s.subrange(p, self.cur_step - 1)) && v <= i64::MAX,
                !fits ==> digits_value(s.subrange(p, self.cur_step - 1)) > i64::MAX,
            decreases s.len() - self.cur_step,
        {
            let c = match self.peek {
                Some(c) => c,
                None => '0',
            };
            let d = digit_of(c);
            proof {
                let q = self.cur_step as int;
                assert(s.subrange(p, q).drop_last() =~= s.subrange(p, q - 1));
                assert(all_digits(s.subrange(p, q - 1)));
                lemma_digits_value_monotone(s.subrange(p, q - 1), 0);
            }
            if fits {
                let next: u128 = v as u128 * 10 + d as u128;
                if next > 0x7fff_ffff_ffff_ffff {
                    fits = false;
                } else {
                    v = next as u64;
                }
            }
            let ori_step = self.cur_step;
            proof {
                if self.cur_step == s.len() {
                    lemma_run_end_is(s, p, s.len() as int, CharClass::Digit);
                }
            }
            Self::read(&mut self.cur_step, &mut self.peek, &self.chars)?;
            let more = match self.peek {
                Some(c) => is_digit_char(c),
                None => false,
            };
            if !more {
                Self::back_read(&mut self.cur_step, &mut self.peek, &self.chars, ori_step)?;
                proof {
                    lemma_run_end_is(s, p, ori_step as int, CharClass::Digit);
                }
                if fits {
                    proof {
                        lemma_decimal_round_trip(v as nat);
                    }
                    return Num::create_with_token_and_val(TokenTag::NUM, decimal_string(v));
                } else {
                    return Err(ErrCode::OTHER(String::from_str(NUMBER_TOO_LARGE)));
                }
            }
        }
    }

    /// The variable whose `$` was just read.
    fn variable(&mut self) -> (r: Result<Token, ErrCode>)
        requires
            1 <= old(self).cur_step <= old(self).chars.len() < usize::MAX,
            old(self).peek == Some(old(self).chars[old(self).cur_step - 1]),
        ensures
            final(self).chars@ == old(self).chars@,
            final(self).cur_step == variable_at(old(self).chars@, old(self).cur_step - 1).next,
            scanned(r) == variable_at(old(self).chars@, old(self).cur_step - 1).outcome,
    {
        let ghost s = self.chars@;
        let ghost p = self.cur_step - 1;
        let ori_step = self.cur_step;
        if !self.read_next('{')? {
            Self::back_read(&mut self.cur_step, &mut self.peek, &self.chars, ori_step)?;
            let first = match self.peek {
                Some(c) => c,
                None => '$',
            };
            return Other::create_with_token_and_val(TokenTag::OTHER, first);
        }
        let mut id = String::new();
        loop
            invariant
                self.chars@ == s,
                s == old(self).chars@,
                s.len() < usize::MAX,
                p == old(self).cur_step - 1,
                0 <= p,
                s[p + 1] == '{',
                p + 2 <= self.cur_step <= s.len(),
                id@ == s.subrange(p + 2, self.cur_step as int),
                forall|i: int|
                    p + 2 <= i < self.cur_step ==> in_class(CharClass::Alnum, #[trigger] s[i]),
            decreases s.len() - self.cur_step,
        {
            let ghost q = self.cur_step as int;
            proof {
                if self.cur_step == s.len() {
                    lemma_run_end_is(s, p + 2, s.len() as int, CharClass::Alnum);
                }
            }
            Self::read(&mut self.cur_step, &mut self.peek, &self.chars)?;
            let c = match self.peek {
                Some(c) => c,
                None => ' ',
            };
            if is_alnum_char(c) {
                id.push(c);
                assert(id@ =~= s.subrange(p + 2, q + 1));
            } else {
                proof {
                    lemma_run_end_is(s, p + 2, q, CharClass::Alnum);
                }
                if c == '}' {
                    return Var::create_with_token_and_val(TokenTag::VAR, id);
                } else {
                    let mut msg = String::from_str(ILLEGAL_NAME);
                    push_decimal(&mut msg, (self.cur_step - 1) as u64);
                    return Err(ErrCode::OTHER(msg));
                }
            }
        }
    }

    /// The next token of the text, as `scan_from` defines it. It is never a string, and the
    /// text of a number reads back as a signed 64-bit integer.
    pub fn scan(&mut self) -> (r: Result<Token, ErrCode>)
        requires
            old(self).has_room(),
        ensures
            final(self).text() == old(self).text(),
            final(self).pos() == scan_from(old(self).text(), old(self).pos() as int).next,
            scanned(r) == scan_from(old(self).text(), old(self).pos() as int).outcome,
            r matches Ok(t) ==> t@.tag != TokenTag::STR && (t@.tag == TokenTag::NUM
                ==> parse_i64_spec(t@.lexeme) is Some),
    {
        proof {
            lemma_scanned_token(self.chars@, self.cur_step as int);
            if self.cur_step <= self.chars.len() {
                lemma_run_end(self.chars@, self.cur_step as int, CharClass::Blank);
            }
        }
        Self::skip_blank_and_read(&mut self.cur_step, &mut self.peek, &self.chars)?;
        let c = match self.peek {
            Some(c) => c,
            None => ' ',
        };
        proof {
            reveal_strlit("IN");
            reveal_strlit("MOD");
            reveal_strlit("AND");
            reveal_strlit("OR");
            reveal_strlit("EQUALS");
        }
        if c == 'I' {
            self.keyword(TokenTag::IN, "IN")
        } else if c == 'M' {
            self.keyword(TokenTag::MOD, "MOD")
        } else if c == 'A' {
            self.keyword(TokenTag::AND, "AND")
        } else if c == 'O' {
            self.keyword(TokenTag::OR, "OR")
        } else if c == 'E' {
            self.keyword(TokenTag::EQUALS, "EQUALS")
        } else if is_digit_char(c) {
            self.number()
        } else if c == '$' {
            self.variable()
        } else if c == '(' {
            OpType::create_with_token(TokenTag::LEFT_PAREN, char_string(c))
        } else if c == ')' {
            OpType::create_with_token(TokenTag::RIGHT_PAREN, char_string(c))
        } else {
            Other::create_with_token_and_val(TokenTag::OTHER, c)
        }
    }
}

} // verus!
