//! The lexer: from the characters of a line to its tokens.
//!
//! Offsets count characters, not bytes, so that a span marks the right
//! columns even where the input holds characters of several bytes.

use vstd::prelude::*;
use vstd::string::StringExecFns;
use crate::errors::{CalcrError, CalcrErrorView, CalcrResult, ErrorKind};
use crate::text::{
    chars_of,
    fold_case,
    fold_case_all,
    is_alphabetic_char,
    is_numeric_char,
    is_whitespace_char,
    lower,
};
use crate::token::{
    DelimKind,
    OpKind,
    TokVal,
    TokValView,
    Token,
    TokenView,
    in_sequence,
    tokens_view,
};

verus! {

/// The kinds of character run that the lexer reads in one go.
#[derive(Debug, PartialEq, Eq, Clone, Copy, Structural)]
pub enum CharClass {
    /// Numeric characters and the decimal point.
    Number,
    /// Alphabetic characters.
    Name,
    /// White space.
    Blank,
}

/// Whether `c` belongs to a run of the given class.
pub open spec fn in_class(class: CharClass, c: char) -> bool {
    match class {
        CharClass::Number => is_numeric_char(c) || c == '.',
        CharClass::Name => is_alphabetic_char(c),
        CharClass::Blank => is_whitespace_char(c),
    }
}

/// Where the run of `class` characters that starts at `from` ends: the first
/// offset at or after `from` that holds no character of the class, or the end
/// of the input.
pub open spec fn run_end(chars: Seq<char>, from: int, class: CharClass) -> int
    decreases chars.len() - from,
{
    if 0 <= from < chars.len() && in_class(class, chars[from]) {
        run_end(chars, from + 1, class)
    } else {
        from
    }
}

/// A run neither ends before it starts nor runs past the input, holds only
/// characters of its class, and is not followed by another one.
pub proof fn lemma_run_end(chars: Seq<char>, from: int, class: CharClass)
    requires
        0 <= from <= chars.len(),
    ensures
        from <= run_end(chars, from, class) <= chars.len(),
        forall|i: int| from <= i < run_end(chars, from, class) ==> in_class(class, chars[i]),
        run_end(chars, from, class) < chars.len() ==> !in_class(
            class,
            chars[run_end(chars, from, class)],
        ),
    decreases chars.len() - from,
{
    if from < chars.len() && in_class(class, chars[from]) {
        lemma_run_end(chars, from + 1, class);
    }
}

/// How many characters of `s` satisfy `p`.
pub open spec fn count_where(s: Seq<char>, p: spec_fn(char) -> bool) -> nat
    decreases s.len(),
{
    if s.len() == 0 {
        0
    } else {
        count_where(s.drop_last(), p) + if p(s.last()) {
            1nat
        } else {
            0nat
        }
    }
}

pub open spec fn is_digit(c: char) -> bool {
    '0' <= c <= '9'
}

pub open spec fn is_point(c: char) -> bool {
    c == '.'
}

/// Whether `text` is a decimal literal: nothing but the digits `0` to `9` and
/// the point, with at least one digit and at most one point.
pub open spec fn is_decimal_literal(text: Seq<char>) -> bool {
    let digits = count_where(text, |c: char| is_digit(c));
    let points = count_where(text, |c: char| is_point(c));
    digits >= 1 && points <= 1 && digits + points == text.len()
}

/// The token that a single character stands for, if it stands for one.
pub open spec fn symbol(c: char) -> Option<TokValView> {
    if c == '+' {
        Some(TokValView::Op(OpKind::Plus))
    } else if c == '-' {
        Some(TokValView::Op(OpKind::Minus))
    } else if c == '*' {
        Some(TokValView::Op(OpKind::Mult))
    } else if c == '/' {
        Some(TokValView::Op(OpKind::Div))
    } else if c == '^' {
        Some(TokValView::Op(OpKind::Pow))
    } else if c == '!' {
        Some(TokValView::Op(OpKind::Fact))
    } else if c == '=' {
        Some(TokValView::Op(OpKind::Assign))
    } else if c == '\u{221a}' {
        // the radical sign
        Some(TokValView::Name("sqrt"@))
    } else if c == '(' {
        Some(TokValView::OpenDelim(DelimKind::Paren))
    } else if c == ')' {
        Some(TokValView::CloseDelim(DelimKind::Paren))
    } else if c == '[' {
        Some(TokValView::OpenDelim(DelimKind::Bracket))
    } else if c == ']' {
        Some(TokValView::CloseDelim(DelimKind::Bracket))
    } else if c == '{' {
        Some(TokValView::OpenDelim(DelimKind::Brace))
    } else if c == '}' {
        Some(TokValView::CloseDelim(DelimKind::Brace))
    } else if c == '|' {
        Some(TokValView::AbsDelim)
    } else {
        None
    }
}

/// The error for a run of digits and points that is no decimal literal.
pub open spec fn invalid_number(text: Seq<char>, span: (usize, usize)) -> CalcrErrorView {
    CalcrErrorView {
        kind: ErrorKind::InvalidNumber,
        desc: "Invalid number: "@ + text,
        span: Some(span),
    }
}

/// The error for a character that starts no token.
pub open spec fn invalid_char(c: char, span: (usize, usize)) -> CalcrErrorView {
    CalcrErrorView {
        kind: ErrorKind::InvalidChar,
        desc: "Invalid char: "@.push(c),
        span: Some(span),
    }
}

/// Where the token that starts at `start` ends. A numeric character starts a
/// number, which runs on over numeric characters and points. An alphabetic
/// character starts a name, which runs on over alphabetic characters. Any
/// other character is a token by itself.
pub open spec fn token_end(chars: Seq<char>, start: int) -> int {
    if is_numeric_char(chars[start]) {
        run_end(chars, start, CharClass::Number)
    } else if is_alphabetic_char(chars[start]) {
        run_end(chars, start, CharClass::Name)
    } else {
        start + 1
    }
}

/// The token that starts at `start`, which holds a character that is not
/// white space. Names and numbers are case-folded. A number must be a
/// decimal literal, and a lone character one of the known symbols.
pub open spec fn token_at(chars: Seq<char>, start: int) -> Result<TokenView, CalcrErrorView> {
    let end = token_end(chars, start);
    let span = (start as usize, end as usize);
    let text = fold_case_all(chars.subrange(start, end));
    if is_numeric_char(chars[start]) {
        if is_decimal_literal(text) {
            Ok(TokenView { val: TokValView::Num(text), span })
        } else {
            Err(invalid_number(text, span))
        }
    } else if is_alphabetic_char(chars[start]) {
        Ok(TokenView { val: TokValView::Name(text), span })
    } else {
        match symbol(fold_case(chars[start])) {
            Some(val) => Ok(TokenView { val, span }),
            None => Err(invalid_char(fold_case(chars[start]), span)),
        }
    }
}

/// `tokens` followed by what `rest` holds, or the error of `rest`.
pub open spec fn followed_by(
    tokens: Seq<TokenView>,
    rest: Result<Seq<TokenView>, CalcrErrorView>,
) -> Result<Seq<TokenView>, CalcrErrorView> {
    match rest {
        Ok(more) => Ok(tokens + more),
        Err(e) => Err(e),
    }
}

/// The tokens of the input from offset `from` on: white space is skipped,
/// and tokens are read one after the other up to the end of the input or the
/// first error.
pub open spec fn lex_from(chars: Seq<char>, from: int) -> Result<Seq<TokenView>, CalcrErrorView>
    decreases chars.len() - from,
{
    if 0 <= from <= chars.len() {
        let start = run_end(chars, from, CharClass::Blank);
        proof {
            lemma_run_end(chars, from, CharClass::Blank);
            if start < chars.len() {
                lemma_run_end(chars, start + 1, CharClass::Number);
                lemma_run_end(chars, start + 1, CharClass::Name);
            }
        }
        if start >= chars.len() {
            Ok(Seq::empty())
        } else {
            match token_at(chars, start) {
                Ok(token) => followed_by(seq![token], lex_from(chars, token_end(chars, start))),
                Err(e) => Err(e),
            }
        }
    } else {
        Ok(Seq::empty())
    }
}

/// The tokens of a line, or the first lexical error in it.
pub open spec fn lex(text: Seq<char>) -> Result<Seq<TokenView>, CalcrErrorView> {
    lex_from(text, 0)
}

/// The only errors of the lexer are invalid numbers and invalid
/// characters, and each tells where it lies.
pub proof fn lemma_lex_errors(chars: Seq<char>, from: int)
    ensures
        lex_from(chars, from) matches Err(e) ==> (e.kind == ErrorKind::InvalidNumber || e.kind
            == ErrorKind::InvalidChar) && e.span is Some,
    decreases chars.len() - from,
{
    if 0 <= from <= chars.len() {
        let start = run_end(chars, from, CharClass::Blank);
        lemma_run_end(chars, from, CharClass::Blank);
        if start < chars.len() {
            lemma_run_end(chars, start + 1, CharClass::Number);
            lemma_run_end(chars, start + 1, CharClass::Name);
            lemma_lex_errors(chars, token_end(chars, start));
        }
    }
}

/// The tokens of an input stand one after the other, from `from` on: each
/// takes up at least one character of the input, and each ends before the
/// next one starts. An error of the lexer points at least at one character
/// of the input.
pub proof fn lemma_lex_spans(chars: Seq<char>, from: int)
    requires
        0 <= from <= chars.len() <= usize::MAX,
    ensures
        match lex_from(chars, from) {
            Ok(tokens) => in_sequence(tokens, chars.len()) && forall|i: int|
                0 <= i < tokens.len() ==> from <= (#[trigger] tokens[i]).span.0,
            Err(e) => e.span matches Some(span) && from <= span.0 < span.1 <= chars.len(),
        },
    decreases chars.len() - from,
{
    let start = run_end(chars, from, CharClass::Blank);
    lemma_run_end(chars, from, CharClass::Blank);
    if start < chars.len() {
        lemma_run_end(chars, start + 1, CharClass::Number);
        lemma_run_end(chars, start + 1, CharClass::Name);
        let end = token_end(chars, start);
        lemma_lex_spans(chars, end);
        if let Ok(token) = token_at(chars, start) {
            if let Ok(rest) = lex_from(chars, end) {
                let tokens = seq![token] + rest;
                assert forall|i: int| 0 <= i < tokens.len() implies from <= (#[trigger] tokens[i]).span.0
                    < tokens[i].span.1 <= chars.len() by {
                    if i > 0 {
                        assert(tokens[i] == rest[i - 1]);
                    }
                }
                assert forall|i: int, j: int| 0 <= i < j < tokens.len() implies (
                #[trigger] tokens[i]).span.1 <= (#[trigger] tokens[j]).span.0 by {
                    assert(tokens[j] == rest[j - 1]);
                    if i > 0 {
                        assert(tokens[i] == rest[i - 1]);
                    }
                }
            }
        }
    }
}

/// The content of a lexer's result.
pub open spec fn lexed_view(r: CalcrResult<Vec<Token>>) -> Result<Seq<TokenView>, CalcrErrorView> {
    match r {
        Ok(tokens) => Ok(tokens_view(tokens@)),
        Err(e) => Err(e@),
    }
}

/// Splits a line into tokens.
pub fn lex_equation(eq: &String) -> (r: CalcrResult<Vec<Token>>)
    ensures
        lexed_view(r) == lex(eq@),
        r matches Ok(tokens) ==> in_sequence(tokens_view(tokens@), eq@.len()),
        r matches Err(e) ==> e.wf() && e@.within(eq@.len()),
{
    let mut lexer = Lexer::new(eq);
    proof {
        lemma_lex_spans(eq@, 0);
    }
    lexer.lex_equation()
}

/// A position in a line that is being split into tokens.
pub struct Lexer {
    chars: Vec<char>,
    pos: usize,
}

impl Lexer {
    #[verifier::type_invariant]
    spec fn inv(&self) -> bool {
        self.pos <= self.chars@.len()
    }

    /// The characters of the line.
    pub closed spec fn input(&self) -> Seq<char> {
        self.chars@
    }

    /// The offset of the next character to read.
    pub closed spec fn offset(&self) -> int {
        self.pos as int
    }

    /// A lexer at the start of `eq`.
    pub fn new(eq: &String) -> (lexer: Lexer)
        ensures
            lexer.input() == eq@,
            lexer.offset() == 0,
            eq@.len() <= usize::MAX,
    {
        let chars = chars_of(eq.as_str());
        assert(chars.len() <= usize::MAX);
        Lexer { chars, pos: 0 }
    }

    /// Reads the tokens from the current position to the end of the line.
    pub fn lex_equation(&mut self) -> (r: CalcrResult<Vec<Token>>)
        ensures
            final(self).input() == old(self).input(),
            lexed_view(r) == lex_from(old(self).input(), old(self).offset()),
            r matches Err(e) ==> e.wf(),
    {
        let mut out: Vec<Token> = Vec::new();
        let ghost chars = self.chars@;
        let ghost from = self.pos as int;
        proof {
            use_type_invariant(&*self);
            assert(tokens_view(out@) =~= Seq::empty());
            assert(followed_by(Seq::empty(), lex_from(chars, from)) == lex_from(chars, from)) by {
                if let Ok(more) = lex_from(chars, from) {
                    assert(Seq::<TokenView>::empty() + more =~= more);
                }
            }
        }
        loop
            invariant
                chars == old(self).input(),
                from == old(self).offset(),
                self.chars@ == chars,
                0 <= self.pos <= chars.len(),
                lex_from(chars, from) == followed_by(
                    tokens_view(out@),
                    lex_from(chars, self.pos as int),
                ),
            decreases chars.len() - self.pos,
        {
            let ghost before = self.pos as int;
            self.consume_whitespace();
            proof {
                lemma_run_end(chars, before, CharClass::Blank);
            }
            let ghost start = self.pos as int;
            let step = match self.peek_char() {
                Some(ch) => {
                    if ch.is_numeric() {
                        self.lex_number()
                    } else if ch.is_alphabetic() {
                        self.lex_name()
                    } else {
                        self.lex_single_char()
                    }
                },
                None => {
                    proof {
                        assert(tokens_view(out@) + Seq::<TokenView>::empty() =~= tokens_view(out@));
                    }
                    return Ok(out);
                },
            };
            match step {
                Ok(tok) => {
                    proof {
                        lemma_run_end(chars, start + 1, CharClass::Number);
                        lemma_run_end(chars, start + 1, CharClass::Name);
                        let rest = lex_from(chars, self.pos as int);
                        assert(tokens_view(out@.push(tok)) =~= tokens_view(out@) + seq![tok@]);
                        if let Ok(more) = rest {
                            assert(tokens_view(out@) + (seq![tok@] + more) =~= (tokens_view(out@)
                                + seq![tok@]) + more);
                        }
                    }
                    out.push(tok);
                },
                Err(e) => {
                    return Err(e);
                },
            }
        }
    }

    /// Reads a number, which starts at the current position.
    fn lex_number(&mut self) -> (r: CalcrResult<Token>)
        requires
            old(self).offset() < old(self).input().len(),
            is_numeric_char(old(self).input()[old(self).offset()]),
        ensures
            final(self).input() == old(self).input(),
            final(self).offset() == token_end(old(self).input(), old(self).offset()),
            match r {
                Ok(tok) => token_at(old(self).input(), old(self).offset()) == Ok::<
                    TokenView,
                    CalcrErrorView,
                >(tok@),
                Err(e) => e.wf() && token_at(old(self).input(), old(self).offset()) == Err::<
                    TokenView,
                    CalcrErrorView,
                >(e@),
            },
    {
        let start = self.pos;
        proof {
            use_type_invariant(&*self);
            lemma_run_end(self.chars@, start as int, CharClass::Number);
        }
        let num_str = self.consume_while(CharClass::Number);
        if is_decimal(&num_str) {
            Ok(Token { val: TokVal::Num(num_str), span: (start, self.pos) })
        } else {
            let mut desc = String::from_str("Invalid number: ");
            desc.append(num_str.as_str());
            Err(CalcrError { kind: ErrorKind::InvalidNumber, desc, span: Some((start, self.pos)) })
        }
    }

    /// Reads a name, which starts at the current position.
    fn lex_name(&mut self) -> (r: CalcrResult<Token>)
        requires
            old(self).offset() < old(self).input().len(),
            !is_numeric_char(old(self).input()[old(self).offset()]),
            is_alphabetic_char(old(self).input()[old(self).offset()]),
        ensures
            final(self).input() == old(self).input(),
            final(self).offset() == token_end(old(self).input(), old(self).offset()),
            r matches Ok(tok) && token_at(old(self).input(), old(self).offset()) == Ok::<
                TokenView,
                CalcrErrorView,
            >(tok@),
    {
        let start = self.pos;
        proof {
            use_type_invariant(&*self);
            lemma_run_end(self.chars@, start as int, CharClass::Name);
        }
        let name_str = self.consume_while(CharClass::Name);
        Ok(Token { val: TokVal::Name(name_str), span: (start, self.pos) })
    }

    /// Reads the one-character token at the current position.
    fn lex_single_char(&mut self) -> (r: CalcrResult<Token>)
        requires
            old(self).offset() < old(self).input().len(),
            !is_numeric_char(old(self).input()[old(self).offset()]),
            !is_alphabetic_char(old(self).input()[old(self).offset()]),
        ensures
            final(self).input() == old(self).input(),
            final(self).offset() == token_end(old(self).input(), old(self).offset()),
            match r {
                Ok(tok) => token_at(old(self).input(), old(self).offset()) == Ok::<
                    TokenView,
                    CalcrErrorView,
                >(tok@),
                Err(e) => e.wf() && token_at(old(self).input(), old(self).offset()) == Err::<
                    TokenView,
                    CalcrErrorView,
                >(e@),
            },
    {
        let start = self.pos;
        let ch = self.consume_char();
        let val = if ch == '+' {
            TokVal::Op(OpKind::Plus)
        } else if ch == '-' {
            TokVal::Op(OpKind::Minus)
        } else if ch == '*' {
            TokVal::Op(OpKind::Mult)
        } else if ch == '/' {
            TokVal::Op(OpKind::Div)
        } else if ch == '^' {
            TokVal::Op(OpKind::Pow)
        } else if ch == '!' {
            TokVal::Op(OpKind::Fact)
        } else if ch == '=' {
            TokVal::Op(OpKind::Assign)
        } else if ch == '\u{221a}' {
            TokVal::Name(String::from_str("sqrt"))
        } else if ch == '(' {
            TokVal::OpenDelim(DelimKind::Paren)
        } else if ch == ')' {
            TokVal::CloseDelim(DelimKind::Paren)
        } else if ch == '[' {
            TokVal::OpenDelim(DelimKind::Bracket)
        } else if ch == ']' {
            TokVal::CloseDelim(DelimKind::Bracket)
        } else if ch == '{' {
            TokVal::OpenDelim(DelimKind::Brace)
        } else if ch == '}' {
            TokVal::CloseDelim(DelimKind::Brace)
        } else if ch == '|' {
            TokVal::AbsDelim
        } else {
            let mut desc = String::from_str("Invalid char: ");
            desc.push(ch);
            return Err(
                CalcrError { kind: ErrorKind::InvalidChar, desc, span: Some((start, self.pos)) },
            );
        };
        Ok(Token { val, span: (start, self.pos) })
    }

    /// The next character, if there is one. The position stays.
    fn peek_char(&self) -> (r: Option<char>)
        ensures
            r == if self.offset() < self.input().len() {
                Some(self.input()[self.offset()])
            } else {
                None
            },
    {
        if self.pos < self.chars.len() {
            Some(self.chars[self.pos])
        } else {
            None
        }
    }

    /// Steps over the next character and returns it, case-folded.
    fn consume_char(&mut self) -> (r: char)
        requires
            old(self).offset() < old(self).input().len(),
        ensures
            final(self).input() == old(self).input(),
            final(self).offset() == old(self).offset() + 1,
            r == fold_case(old(self).input()[old(self).offset()]),
    {
        assert(self.pos < self.chars.len());
        let ch = self.chars[self.pos];
        self.pos += 1;
        lower(ch)
    }

    /// Steps over the run of `class` characters at the current position and
    /// returns it, case-folded.
    fn consume_while(&mut self, class: CharClass) -> (r: String)
        ensures
            final(self).input() == old(self).input(),
            final(self).offset() == run_end(old(self).input(), old(self).offset(), class),
            r@ == fold_case_all(old(self).input().subrange(old(self).offset(), final(self).offset())),
    {
        let mut out = String::new();
        let ghost chars = self.chars@;
        let ghost from = self.pos as int;
        proof {
            use_type_invariant(&*self);
            assert(fold_case_all(chars.subrange(from, from)) =~= Seq::empty());
        }
        loop
            invariant
                self.chars@ == chars,
                0 <= from <= self.pos <= chars.len(),
                run_end(chars, from, class) == run_end(chars, self.pos as int, class),
                out@ == fold_case_all(chars.subrange(from, self.pos as int)),
            ensures
                self.pos as int == run_end(chars, from, class),
            decreases chars.len() - self.pos,
        {
            match self.peek_char() {
                Some(ch) => {
                    let wanted = match class {
                        CharClass::Number => ch.is_numeric() || ch == '.',
                        CharClass::Name => ch.is_alphabetic(),
                        CharClass::Blank => ch.is_whitespace(),
                    };
                    if !wanted {
                        break ;
                    }
                    let ghost at = self.pos as int;
                    let folded = self.consume_char();
                    out.push(folded);
                    proof {
                        assert(fold_case_all(chars.subrange(from, at + 1)) =~= fold_case_all(
                            chars.subrange(from, at),
                        ).push(fold_case(chars[at])));
                    }
                },
                None => {
                    break ;
                },
            }
        }
        out
    }

    /// Steps over white space.
    fn consume_whitespace(&mut self)
        ensures
            final(self).input() == old(self).input(),
            final(self).offset() == run_end(old(self).input(), old(self).offset(), CharClass::Blank),
    {
        self.consume_while(CharClass::Blank);
    }
}

/// Whether `text` is a decimal literal.
fn is_decimal(text: &String) -> (r: bool)
    ensures
        r == is_decimal_literal(text@),
{
    let chars = chars_of(text.as_str());
    let mut digits: usize = 0;
    let mut points: usize = 0;
    let mut i: usize = 0;
    while i < chars.len()
        invariant
            i <= chars@.len(),
            digits + points <= i,
            digits == count_where(chars@.take(i as int), |c: char| is_digit(c)),
            points == count_where(chars@.take(i as int), |c: char| is_point(c)),
        decreases chars@.len() - i,
    {
        let c = chars[i];
        proof {
            assert(chars@.take(i + 1).drop_last() =~= chars@.take(i as int));
        }
        if '0' <= c && c <= '9' {
            digits += 1;
        } else if c == '.' {
            points += 1;
        }
        i += 1;
    }
    proof {
        assert(chars@.take(i as int) =~= chars@);
    }
    digits >= 1 && points <= 1 && digits + points == chars.len()
}

} // verus!
