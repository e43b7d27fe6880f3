use vstd::prelude::*;

use crate::text::{
    chars_of, is_ascii_alnum, is_digit, is_letter, is_space, letter, push_char, space, string_of,
};
use crate::token::{Position, Token, TokenKind, TokenView};

verus! {

/// The kinds of fatal lexical error.
#[derive(Debug, Clone, Copy, PartialEq, Eq, Structural)]
pub enum LexErrorKind {
    /// A string literal with no closing quote.
    UnterminatedString,
    /// A backslash in a string literal followed by neither `"` nor `\`.
    InvalidEscape,
    /// A second decimal point in one number.
    MultipleDecimalPoints,
    /// A second exponent marker (`e` or `E`) in one number.
    MultipleExponents,
    /// `..` after an opening brace, not followed by a third dot.
    IncompleteEllipsis,
    /// A `.` anywhere but at the start of `...` right after an opening brace.
    MisplacedDot,
}

/// A fatal lexical error and the line and column of the character at fault.
#[derive(Debug, Clone, Copy, PartialEq, Eq, Structural)]
pub struct LexError {
    pub kind: LexErrorKind,
    pub position: Position,
}

/// Where the scan stands: the next character to read, the current line, the
/// offset at which that line begins, and the kind of the last token produced.
pub struct ScanState {
    pub cursor: nat,
    pub line: nat,
    pub bol: nat,
    pub last: TokenKind,
}

/// A token together with the source span `start..end` it was read from.
pub struct Lexeme {
    pub token: TokenView,
    pub start: nat,
    pub end: nat,
}

/// The bounds every reachable state keeps.
pub open spec fn valid_state(s: Seq<char>, st: ScanState) -> bool {
    st.line <= st.bol <= st.cursor <= s.len()
}

pub open spec fn initial_state() -> ScanState {
    ScanState { cursor: 0, line: 0, bol: 0, last: TokenKind::EndOfInput }
}

/// Whitespace that separates tokens: a newline is a token of its own.
pub open spec fn is_blank(c: char) -> bool {
    is_space(c) && c != '\n'
}

pub open spec fn is_ident_char(c: char) -> bool {
    is_ascii_alnum(c) || c == '_'
}

pub open spec fn is_ident_start(c: char) -> bool {
    is_letter(c) || c == '_'
}

/// The first offset at or after `i` that does not hold a blank.
pub open spec fn skip_blanks(s: Seq<char>, i: nat) -> nat
    decreases s.len() - i,
{
    if i < s.len() && is_blank(s[i as int]) {
        skip_blanks(s, i + 1)
    } else {
        i
    }
}

/// The end of a comment: the first newline at or after `i`, or the end of `s`.
pub open spec fn line_end(s: Seq<char>, i: nat) -> nat
    decreases s.len() - i,
{
    if i < s.len() && s[i as int] != '\n' {
        line_end(s, i + 1)
    } else {
        i
    }
}

/// The end of the run of identifier characters that starts at `i`.
pub open spec fn ident_end(s: Seq<char>, i: nat) -> nat
    decreases s.len() - i,
{
    if i < s.len() && is_ident_char(s[i as int]) {
        ident_end(s, i + 1)
    } else {
        i
    }
}

/// The end of the number whose remaining characters start at `i`, given
/// whether a decimal point and an exponent marker were already seen; or the
/// error and the offset of the character at fault.
pub open spec fn number_end(s: Seq<char>, i: nat, point: bool, exponent: bool) -> Result<nat, (LexErrorKind, nat)>
    decreases s.len() - i,
{
    if i >= s.len() {
        Ok(i)
    } else {
        let c = s[i as int];
        if is_digit(c) {
            number_end(s, i + 1, point, exponent)
        } else if c == '.' {
            if point {
                Err((LexErrorKind::MultipleDecimalPoints, i))
            } else {
                number_end(s, i + 1, true, exponent)
            }
        } else if c == 'e' || c == 'E' {
            if exponent {
                Err((LexErrorKind::MultipleExponents, i))
            } else {
                number_end(s, i + 1, point, true)
            }
        } else {
            Ok(i)
        }
    }
}

/// The body of a string literal from offset `i` on, `acc` being the content
/// decoded so far: the decoded content and the offset after the closing quote,
/// or the error and the offset of the character at fault (`open` being the
/// offset of the opening quote).
pub open spec fn string_end(s: Seq<char>, open: nat, i: nat, acc: Seq<char>) -> Result<(Seq<char>, nat), (LexErrorKind, nat)>
    decreases s.len() - i,
{
    if i >= s.len() {
        Err((LexErrorKind::UnterminatedString, open))
    } else {
        let c = s[i as int];
        if c == '"' {
            Ok((acc, i + 1))
        } else if c == '\\' {
            if i + 1 >= s.len() {
                Err((LexErrorKind::UnterminatedString, open))
            } else if s[i as int + 1] == '"' || s[i as int + 1] == '\\' {
                string_end(s, open, i + 2, acc.push(s[i as int + 1]))
            } else {
                Err((LexErrorKind::InvalidEscape, i + 1))
            }
        } else {
            string_end(s, open, i + 1, acc.push(c))
        }
    }
}

pub open spec fn is_operator_char(c: char) -> bool {
    c == '+' || c == '-' || c == '*' || c == '/' || c == '=' || c == '<' || c == '>'
}

/// The length of the operator that starts with the operator character at `i`:
/// two when it is followed by `=`, or when `+` or `-` is doubled; else one.
pub open spec fn operator_len(s: Seq<char>, i: nat) -> nat {
    if i + 1 < s.len() && s[i as int + 1] == '=' {
        2
    } else if (s[i as int] == '+' || s[i as int] == '-') && i + 1 < s.len() && s[i as int + 1] == s[i as int] {
        2
    } else {
        1
    }
}

/// The kind of a one-character punctuation token.
pub open spec fn punctuation_kind(c: char) -> Option<TokenKind> {
    if c == '(' {
        Some(TokenKind::OpenParen)
    } else if c == ')' {
        Some(TokenKind::CloseParen)
    } else if c == '{' {
        Some(TokenKind::OpenBrace)
    } else if c == '}' {
        Some(TokenKind::CloseBrace)
    } else if c == ';' {
        Some(TokenKind::LineBreak)
    } else if c == ':' {
        Some(TokenKind::Colon)
    } else if c == ',' {
        Some(TokenKind::Comma)
    } else {
        None
    }
}

/// The reserved words.
pub open spec fn is_keyword(w: Seq<char>) -> bool {
    w == "if"@ || w == "else"@ || w == "while"@ || w == "let"@ || w == "define"@
}

/// The operators spelled as words.
pub open spec fn is_word_operator(w: Seq<char>) -> bool {
    w == "or"@ || w == "and"@
}

pub open spec fn word_kind(w: Seq<char>) -> TokenKind {
    if is_word_operator(w) {
        TokenKind::Operator
    } else if is_keyword(w) {
        TokenKind::Keyword
    } else {
        TokenKind::Symbol
    }
}

/// The token that starts at offset `i`, which holds neither a blank nor a
/// newline, `last` being the kind of the token before it: its kind, its text
/// and the offset where it ends; or the error and the offset at fault.
pub open spec fn token_at(s: Seq<char>, i: nat, last: TokenKind) -> Result<(TokenKind, Seq<char>, nat), (LexErrorKind, nat)> {
    let c = s[i as int];
    if c == '#' {
        let e = line_end(s, i);
        Ok((TokenKind::Comment, s.subrange(i as int, e as int), e))
    } else if punctuation_kind(c) is Some {
        Ok((punctuation_kind(c)->0, seq![c], i + 1))
    } else if is_operator_char(c) {
        let e = i + operator_len(s, i);
        Ok((TokenKind::Operator, s.subrange(i as int, e as int), e))
    } else if c == '"' {
        match string_end(s, i, i + 1, seq![]) {
            Ok((content, e)) => Ok((TokenKind::StringLiteral, content, e)),
            Err(f) => Err(f),
        }
    } else if c == '.' {
        if i + 1 < s.len() && s[i as int + 1] == '.' && last == TokenKind::OpenBrace {
            if i + 2 < s.len() && s[i as int + 2] == '.' {
                Ok((TokenKind::Ellipsis, s.subrange(i as int, i as int + 3), i + 3))
            } else {
                Err((LexErrorKind::IncompleteEllipsis, i))
            }
        } else {
            Err((LexErrorKind::MisplacedDot, i))
        }
    } else if is_ident_start(c) {
        let e = ident_end(s, i + 1);
        Ok((word_kind(s.subrange(i as int, e as int)), s.subrange(i as int, e as int), e))
    } else if is_digit(c) {
        match number_end(s, i, false, false) {
            Ok(e) => Ok((TokenKind::Number, s.subrange(i as int, e as int), e)),
            Err(f) => Err(f),
        }
    } else {
        Ok((TokenKind::Invalid, seq![c], i + 1))
    }
}

pub open spec fn error_at(st: ScanState, kind: LexErrorKind, p: nat) -> LexError {
    LexError { kind, position: Position { row: st.line as usize, col: (p - st.bol) as usize } }
}

pub open spec fn lexeme(kind: TokenKind, text: Seq<char>, start: nat, end: nat, st: ScanState) -> Lexeme {
    Lexeme {
        token: TokenView { kind, text, length: (end - start) as nat, row: st.line, col: (start - st.bol) as nat },
        start,
        end,
    }
}

/// One step of the tokenizer: skip blanks, then read one token (the end of
/// input once nothing is left), giving the token and the state after it.
#[verifier::opaque]
pub open spec fn scan(s: Seq<char>, st: ScanState) -> Result<(Lexeme, ScanState), LexError> {
    let i = skip_blanks(s, st.cursor);
    if i >= s.len() {
        Ok((lexeme(TokenKind::EndOfInput, seq![], i, i, st),
            ScanState { cursor: i, line: st.line, bol: st.bol, last: TokenKind::EndOfInput }))
    } else if s[i as int] == '\n' {
        Ok((lexeme(TokenKind::NewLine, seq!['\n'], i, i + 1, st),
            ScanState { cursor: i + 1, line: st.line + 1, bol: i + 1, last: TokenKind::NewLine }))
    } else {
        match token_at(s, i, st.last) {
            Ok((kind, text, e)) => Ok((lexeme(kind, text, i, e, st),
                ScanState { cursor: e, line: st.line, bol: st.bol, last: kind })),
            Err((k, p)) => Err(error_at(st, k, p)),
        }
    }
}

/// All tokens from state `st` on, up to and including the end of input, with
/// their spans; or the first lexical error.
pub open spec fn lex_from(s: Seq<char>, st: ScanState) -> Result<Seq<Lexeme>, LexError>
    decreases s.len() - st.cursor when valid_state(s, st)
{
    match scan(s, st) {
        Err(e) => Err(e),
        Ok((lx, next)) => if lx.token.kind == TokenKind::EndOfInput {
            Ok(seq![lx])
        } else {
            proof {
                lemma_scan(s, st);
            }
            match lex_from(s, next) {
                Ok(rest) => Ok(seq![lx] + rest),
                Err(e) => Err(e),
            }
        },
    }
}

/// The tokens of a whole source text, from its first character on.
pub open spec fn lex(s: Seq<char>) -> Result<Seq<Lexeme>, LexError> {
    lex_from(s, initial_state())
}

pub proof fn lemma_skip_blanks(s: Seq<char>, i: nat)
    requires
        i <= s.len(),
    ensures
        i <= skip_blanks(s, i) <= s.len(),
        skip_blanks(s, i) < s.len() ==> !is_blank(s[skip_blanks(s, i) as int]),
        forall|j: int| i <= j < skip_blanks(s, i) ==> is_blank(#[trigger] s[j]),
    decreases s.len() - i,
{
    if i < s.len() && is_blank(s[i as int]) {
        lemma_skip_blanks(s, i + 1);
    }
}

pub proof fn lemma_line_end(s: Seq<char>, i: nat)
    requires
        i <= s.len(),
    ensures
        i <= line_end(s, i) <= s.len(),
    decreases s.len() - i,
{
    if i < s.len() && s[i as int] != '\n' {
        lemma_line_end(s, i + 1);
    }
}

pub proof fn lemma_ident_end(s: Seq<char>, i: nat)
    requires
        i <= s.len(),
    ensures
        i <= ident_end(s, i) <= s.len(),
    decreases s.len() - i,
{
    if i < s.len() && is_ident_char(s[i as int]) {
        lemma_ident_end(s, i + 1);
    }
}

pub proof fn lemma_number_end(s: Seq<char>, i: nat, point: bool, exponent: bool)
    requires
        i <= s.len(),
    ensures
        number_end(s, i, point, exponent) matches Ok(e) ==> i <= e <= s.len(),
        number_end(s, i, point, exponent) matches Err((_, p)) ==> i <= p < s.len(),
    decreases s.len() - i,
{
    if i < s.len() {
        let c = s[i as int];
        if is_digit(c) {
            lemma_number_end(s, i + 1, point, exponent);
        } else if c == '.' {
            if !point {
                lemma_number_end(s, i + 1, true, exponent);
            }
        } else if c == 'e' || c == 'E' {
            if !exponent {
                lemma_number_end(s, i + 1, point, true);
            }
        }
    }
}

pub proof fn lemma_string_end(s: Seq<char>, open: nat, i: nat, acc: Seq<char>)
    requires
        open < i <= s.len(),
    ensures
        string_end(s, open, i, acc) matches Ok((_, e)) ==> i < e <= s.len(),
        string_end(s, open, i, acc) matches Err((_, p)) ==> open <= p < s.len(),
    decreases s.len() - i,
{
    if i < s.len() {
        let c = s[i as int];
        if c != '"' {
            if c == '\\' {
                if i + 1 < s.len() && (s[i as int + 1] == '"' || s[i as int + 1] == '\\') {
                    lemma_string_end(s, open, i + 2, acc.push(s[i as int + 1]));
                }
            } else {
                lemma_string_end(s, open, i + 1, acc.push(c));
            }
        }
    }
}

pub proof fn lemma_token_at(s: Seq<char>, i: nat, last: TokenKind)
    requires
        i < s.len(),
    ensures
        token_at(s, i, last) matches Ok((_, _, e)) ==> i < e <= s.len(),
        token_at(s, i, last) matches Err((_, p)) ==> i <= p < s.len(),
{
    lemma_line_end(s, i + 1);
    lemma_ident_end(s, i + 1);
    lemma_number_end(s, i + 1, false, false);
    lemma_string_end(s, i, i + 1, seq![]);
}

/// What one step of the scan does to the state: it reads a token that starts
/// after the blanks at the cursor and ends where the next state's cursor is,
/// advancing unless the input is exhausted.
pub proof fn lemma_scan(s: Seq<char>, st: ScanState)
    requires
        valid_state(s, st),
    ensures
        scan(s, st) matches Ok((lx, next)) ==> {
            &&& valid_state(s, next)
            &&& lx.start == skip_blanks(s, st.cursor)
            &&& st.cursor <= lx.start <= lx.end == next.cursor <= s.len()
            &&& lx.token.kind == TokenKind::EndOfInput <==> lx.start == s.len()
            &&& lx.token.kind != TokenKind::EndOfInput ==> lx.start < lx.end
            &&& lx.token.row == st.line
            &&& lx.token.col == lx.start - st.bol
            &&& lx.token.length == lx.end - lx.start
            &&& next.last == lx.token.kind
            &&& lx.token.kind != TokenKind::StringLiteral ==> lx.token.text == s.subrange(lx.start as int, lx.end as int)
            &&& if lx.token.kind == TokenKind::NewLine {
                next.line == st.line + 1 && next.bol == lx.end
            } else {
                next.line == st.line && next.bol == st.bol
            }
        },
        scan(s, st) matches Err(_) ==> skip_blanks(s, st.cursor) < s.len(),
{
    reveal(scan);
    lemma_skip_blanks(s, st.cursor);
    let i = skip_blanks(s, st.cursor);
    if i < s.len() {
        lemma_token_at(s, i, st.last);
        assert(s.subrange(i as int, i as int + 1) =~= seq![s[i as int]]);
    } else {
        assert(s.subrange(i as int, i as int) =~= seq![]);
    }
}

/// `done` followed by what `rest` holds, or the error of `rest`.
pub open spec fn prepend(done: Seq<Lexeme>, rest: Result<Seq<Lexeme>, LexError>) -> Result<Seq<Lexeme>, LexError> {
    match rest {
        Ok(r) => Ok(done + r),
        Err(e) => Err(e),
    }
}

/// The tokens `ts` are those of the lexemes `ls`, in order.
pub open spec fn tokens_match(ts: Seq<Token>, ls: Seq<Lexeme>) -> bool {
    &&& ts.len() == ls.len()
    &&& forall|k: int| 0 <= k < ts.len() ==> (#[trigger] ts[k])@ == ls[k].token
}

/// A tokenizer over one source text. It hands out tokens one at a time with
/// `next`, or all of them with `tokenize`; the scan cannot be restarted.
pub struct Lexer {
    content: Vec<char>,
    cursor: usize,
    line: usize,
    bol: usize,
    last_kind: TokenKind,
}

/// The kind of a one-character punctuation token, if `c` is one.
fn punctuation(c: char) -> (r: Option<TokenKind>)
    ensures
        r == punctuation_kind(c),
{
    match c {
        '(' => Some(TokenKind::OpenParen),
        ')' => Some(TokenKind::CloseParen),
        '{' => Some(TokenKind::OpenBrace),
        '}' => Some(TokenKind::CloseBrace),
        ';' => Some(TokenKind::LineBreak),
        ':' => Some(TokenKind::Colon),
        ',' => Some(TokenKind::Comma),
        _ => None,
    }
}

impl Lexer {
    /// The source text being scanned.
    pub closed spec fn source(&self) -> Seq<char> {
        self.content@
    }

    /// Where the scan stands.
    pub closed spec fn state(&self) -> ScanState {
        ScanState {
            cursor: self.cursor as nat,
            line: self.line as nat,
            bol: self.bol as nat,
            last: self.last_kind,
        }
    }

    pub closed spec fn wf(&self) -> bool {
        &&& valid_state(self.content@, self.state())
        &&& self.content@.len() == self.content.len()
    }

    spec fn moved_to(&self, before: &Lexer, cursor: nat) -> bool {
        &&& self.content == before.content
        &&& self.cursor == cursor
        &&& self.line == before.line
        &&& self.bol == before.bol
        &&& self.last_kind == before.last_kind
    }

    pub fn new(content: String) -> (r: Lexer)
        ensures
            r.wf(),
            r.source() == content@,
            r.state() == initial_state(),
    {
        Lexer {
            content: chars_of(&content),
            cursor: 0,
            line: 0,
            bol: 0,
            last_kind: TokenKind::EndOfInput,
        }
    }

    fn not_end(&self) -> (r: bool)
        ensures
            r == (self.cursor < self.content@.len()),
    {
        self.cursor < self.content.len()
    }

    fn is_whitespace_without_newline(&self, c: char) -> (r: bool)
        ensures
            r == is_blank(c),
    {
        space(c) && c != '\n'
    }

    fn get_current_char(&self) -> (c: char)
        requires
            self.cursor < self.content@.len(),
        ensures
            c == self.content@[self.cursor as int],
    {
        self.content[self.cursor]
    }

    fn advance_cursor(&mut self, length: usize)
        requires
            old(self).cursor + length <= old(self).content.len(),
        ensures
            final(self).moved_to(old(self), (old(self).cursor + length) as nat),
    {
        self.cursor = self.cursor + length;
    }

    fn skip_whitespace(&mut self)
        requires
            old(self).wf(),
        ensures
            final(self).moved_to(old(self), skip_blanks(old(self).content@, old(self).cursor as nat)),
            final(self).wf(),
    {
        proof {
            lemma_skip_blanks(self.content@, self.cursor as nat);
        }
        while self.not_end() && self.is_whitespace_without_newline(self.get_current_char())
            invariant
                self.wf(),
                self.content == old(self).content,
                self.line == old(self).line,
                self.bol == old(self).bol,
                self.last_kind == old(self).last_kind,
                skip_blanks(self.content@, self.cursor as nat) == skip_blanks(self.content@, old(self).cursor as nat),
            decreases self.content@.len() - self.cursor,
        {
            self.advance_cursor(1);
        }
    }

    /// The token of kind `kind` whose text is the source span of `length`
    /// characters at offset `start`, on the current line.
    pub fn create_token(&self, kind: TokenKind, start: usize, length: usize) -> (t: Token)
        requires
            self.wf(),
            self.state().bol <= start,
            start + length <= self.source().len(),
        ensures
            t@ == lexeme(kind, self.source().subrange(start as int, start + length), start as nat, (start + length) as nat, self.state()).token,
    {
        Token {
            kind,
            text: string_of(&self.content, start, start + length),
            length,
            position: Position { row: self.line, col: start - self.bol },
        }
    }

    fn match_operator(&mut self, start: usize, op: char) -> (t: Token)
        requires
            old(self).wf(),
            old(self).cursor == start < old(self).content@.len(),
            old(self).content@[start as int] == op,
        ensures
            ({
                let s = old(self).content@;
                let e = start + operator_len(s, start as nat);
                &&& t@ == lexeme(TokenKind::Operator, s.subrange(start as int, e), start as nat, e as nat, old(self).state()).token
                &&& final(self).moved_to(old(self), e as nat)
            }),
    {
        self.advance_cursor(1);
        if self.not_end() && self.get_current_char() == '=' {
            self.advance_cursor(1);
            self.create_token(TokenKind::Operator, start, 2)
        } else if (op == '+' || op == '-') && self.not_end() && self.get_current_char() == op {
            self.advance_cursor(1);
            self.create_token(TokenKind::Operator, start, 2)
        } else {
            self.create_token(TokenKind::Operator, start, 1)
        }
    }

    /// Whether `x` can start an identifier: a letter or `_`.
    pub fn is_symbol_start(&self, x: char) -> (r: bool)
        ensures
            r == is_ident_start(x),
    {
        letter(x) || x == '_'
    }

    fn is_symbol(&self, x: char) -> (r: bool)
        ensures
            r == is_ident_char(x),
    {
        (x >= '0' && x <= '9') || (x >= 'a' && x <= 'z') || (x >= 'A' && x <= 'Z') || x == '_'
    }

    fn span_is(&self, start: usize, end: usize, w: &str) -> (r: bool)
        requires
            start <= end <= self.content@.len(),
        ensures
            r == (self.content@.subrange(start as int, end as int) == w@),
    {
        let n = w.unicode_len();
        if n != end - start {
            return false;
        }
        let mut k: usize = 0;
        while k < n
            invariant
                n == w@.len() == end - start,
                start <= end <= self.content@.len(),
                k <= n,
                forall|j: int| 0 <= j < k ==> self.content@[start + j] == w@[j],
            decreases n - k,
        {
            if self.content[start + k] != w.get_char(k) {
                assert(self.content@.subrange(start as int, end as int)[k as int] != w@[k as int]);
                return false;
            }
            k += 1;
        }
        assert(self.content@.subrange(start as int, end as int) =~= w@);
        true
    }

    fn word_kind_of(&self, start: usize, end: usize) -> (k: TokenKind)
        requires
            start <= end <= self.content@.len(),
        ensures
            k == word_kind(self.content@.subrange(start as int, end as int)),
    {
        if self.span_is(start, end, "or") || self.span_is(start, end, "and") {
            TokenKind::Operator
        } else if self.span_is(start, end, "if") || self.span_is(start, end, "else")
            || self.span_is(start, end, "while") || self.span_is(start, end, "let")
            || self.span_is(start, end, "define") {
            TokenKind::Keyword
        } else {
            TokenKind::Symbol
        }
    }

    fn handle_symbol(&mut self) -> (t: Token)
        requires
            old(self).wf(),
            old(self).cursor < old(self).content@.len(),
        ensures
            ({
                let s = old(self).content@;
                let c = old(self).cursor as nat;
                let e = ident_end(s, c + 1);
                &&& t@ == lexeme(word_kind(s.subrange(c as int, e as int)), s.subrange(c as int, e as int), c, e, old(self).state()).token
                &&& final(self).moved_to(old(self), e)
            }),
    {
        let start = self.cursor;
        self.advance_cursor(1);
        proof {
            lemma_ident_end(self.content@, self.cursor as nat);
        }
        while self.not_end() && self.is_symbol(self.get_current_char())
            invariant
                old(self).wf(),
                self.moved_to(old(self), self.cursor as nat),
                start < self.cursor <= self.content@.len(),
                start == old(self).cursor,
                ident_end(self.content@, self.cursor as nat) == ident_end(self.content@, (start + 1) as nat),
            decreases self.content@.len() - self.cursor,
        {
            self.advance_cursor(1);
        }
        let kind = self.word_kind_of(start, self.cursor);
        self.create_token(kind, start, self.cursor - start)
    }

    fn is_decimal_point(&self, x: char) -> (r: bool)
        ensures
            r == (x == '.'),
    {
        x == '.'
    }

    fn is_exponent_marker(&self, x: char) -> (r: bool)
        ensures
            r == (x == 'e' || x == 'E'),
    {
        x == 'e' || x == 'E'
    }

    fn is_number(&self, x: char) -> (r: bool)
        ensures
            r == is_digit(x),
    {
        x >= '0' && x <= '9'
    }

    fn error(&self, kind: LexErrorKind, at: usize) -> (e: LexError)
        requires
            self.bol <= at,
        ensures
            e == error_at(self.state(), kind, at as nat),
    {
        LexError { kind, position: Position { row: self.line, col: at - self.bol } }
    }

    fn handle_number(&mut self) -> (r: Result<Token, LexError>)
        requires
            old(self).wf(),
            old(self).cursor < old(self).content@.len(),
        ensures
            final(self).wf(),
            final(self).content == old(self).content,
            ({
                let s = old(self).content@;
                let c = old(self).cursor as nat;
                match number_end(s, c, false, false) {
                    Ok(e) => {
                        &&& r is Ok
                        &&& r->Ok_0@ == lexeme(TokenKind::Number, s.subrange(c as int, e as int), c, e, old(self).state()).token
                        &&& final(self).moved_to(old(self), e)
                    },
                    Err((k, p)) => r == Err::<Token, LexError>(error_at(old(self).state(), k, p)),
                }
            }),
    {
        let start = self.cursor;
        let mut point = false;
        let mut exponent = false;
        while self.not_end()
            invariant
                old(self).wf(),
                self.moved_to(old(self), self.cursor as nat),
                start <= self.cursor <= self.content@.len(),
                start == old(self).cursor,
                number_end(self.content@, self.cursor as nat, point, exponent) == number_end(self.content@, start as nat, false, false),
            ensures
                number_end(self.content@, self.cursor as nat, point, exponent) == Ok::<nat, (LexErrorKind, nat)>(self.cursor as nat),
            decreases self.content@.len() - self.cursor,
        {
            let c = self.get_current_char();
            if self.is_number(c) {
                self.advance_cursor(1);
            } else if self.is_decimal_point(c) {
                if point {
                    return Err(self.error(LexErrorKind::MultipleDecimalPoints, self.cursor));
                }
                point = true;
                self.advance_cursor(1);
            } else if self.is_exponent_marker(c) {
                if exponent {
                    return Err(self.error(LexErrorKind::MultipleExponents, self.cursor));
                }
                exponent = true;
                self.advance_cursor(1);
            } else {
                break;
            }
        }
        Ok(self.create_token(TokenKind::Number, start, self.cursor - start))
    }

    fn handle_string_literal(&mut self) -> (r: Result<Token, LexError>)
        requires
            old(self).wf(),
            old(self).cursor < old(self).content@.len(),
        ensures
            final(self).wf(),
            final(self).content == old(self).content,
            ({
                let s = old(self).content@;
                let c = old(self).cursor as nat;
                match string_end(s, c, c + 1, seq![]) {
                    Ok((text, e)) => {
                        &&& r is Ok
                        &&& r->Ok_0@ == lexeme(TokenKind::StringLiteral, text, c, e, old(self).state()).token
                        &&& final(self).moved_to(old(self), e)
                    },
                    Err((k, p)) => r == Err::<Token, LexError>(error_at(old(self).state(), k, p)),
                }
            }),
    {
        let start = self.cursor;
        self.advance_cursor(1);
        let mut text = String::new();
        while self.not_end()
            invariant
                old(self).wf(),
                self.moved_to(old(self), self.cursor as nat),
                start < self.cursor <= self.content@.len(),
                start == old(self).cursor,
                string_end(self.content@, start as nat, self.cursor as nat, text@)
                    == string_end(self.content@, start as nat, (start + 1) as nat, seq![]),
            decreases self.content@.len() - self.cursor,
        {
            let c = self.get_current_char();
            if c == '"' {
                self.advance_cursor(1);
                let t = Token {
                    kind: TokenKind::StringLiteral,
                    text,
                    length: self.cursor - start,
                    position: Position { row: self.line, col: start - self.bol },
                };
                return Ok(t);
            } else if c == '\\' {
                if self.cursor + 1 >= self.content.len() {
                    return Err(self.error(LexErrorKind::UnterminatedString, start));
                }
                let escaped = self.content[self.cursor + 1];
                if escaped != '"' && escaped != '\\' {
                    return Err(self.error(LexErrorKind::InvalidEscape, self.cursor + 1));
                }
                push_char(&mut text, escaped);
                self.advance_cursor(2);
            } else {
                push_char(&mut text, c);
                self.advance_cursor(1);
            }
        }
        Err(self.error(LexErrorKind::UnterminatedString, start))
    }

    /// A `.`: the start of an ellipsis, allowed only right after an opening brace.
    fn handle_dot(&mut self) -> (r: Result<Token, LexError>)
        requires
            old(self).wf(),
            old(self).cursor < old(self).content@.len(),
            old(self).content@[old(self).cursor as int] == '.',
        ensures
            final(self).wf(),
            final(self).content == old(self).content,
            ({
                let s = old(self).content@;
                let c = old(self).cursor as nat;
                match token_at(s, c, old(self).last_kind) {
                    Ok((kind, text, e)) => {
                        &&& r is Ok
                        &&& r->Ok_0@ == lexeme(kind, text, c, e, old(self).state()).token
                        &&& final(self).moved_to(old(self), e)
                    },
                    Err((k, p)) => r == Err::<Token, LexError>(error_at(old(self).state(), k, p)),
                }
            }),
    {
        let start = self.cursor;
        if start + 1 < self.content.len() && self.content[start + 1] == '.' && self.last_kind == TokenKind::OpenBrace {
            if start + 2 < self.content.len() && self.content[start + 2] == '.' {
                self.advance_cursor(3);
                Ok(self.create_token(TokenKind::Ellipsis, start, 3))
            } else {
                Err(self.error(LexErrorKind::IncompleteEllipsis, start))
            }
        } else {
            Err(self.error(LexErrorKind::MisplacedDot, start))
        }
    }

    fn handle_comment(&mut self) -> (t: Token)
        requires
            old(self).wf(),
            old(self).cursor < old(self).content@.len(),
        ensures
            ({
                let s = old(self).content@;
                let c = old(self).cursor as nat;
                let e = line_end(s, c);
                &&& t@ == lexeme(TokenKind::Comment, s.subrange(c as int, e as int), c, e, old(self).state()).token
                &&& final(self).moved_to(old(self), e)
            }),
    {
        let start = self.cursor;
        proof {
            lemma_line_end(self.content@, self.cursor as nat);
        }
        while self.not_end() && self.get_current_char() != '\n'
            invariant
                old(self).wf(),
                self.moved_to(old(self), self.cursor as nat),
                start <= self.cursor <= self.content@.len(),
                start == old(self).cursor,
                line_end(self.content@, self.cursor as nat) == line_end(self.content@, start as nat),
            decreases self.content@.len() - self.cursor,
        {
            self.advance_cursor(1);
        }
        self.create_token(TokenKind::Comment, start, self.cursor - start)
    }

    /// The token that starts at the cursor, which holds neither a blank nor a newline.
    fn read_token(&mut self) -> (r: Result<Token, LexError>)
        requires
            old(self).wf(),
            old(self).cursor < old(self).content@.len(),
        ensures
            final(self).wf(),
            final(self).content == old(self).content,
            ({
                let s = old(self).content@;
                let c = old(self).cursor as nat;
                match token_at(s, c, old(self).last_kind) {
                    Ok((kind, text, e)) => {
                        &&& r is Ok
                        &&& r->Ok_0@ == lexeme(kind, text, c, e, old(self).state()).token
                        &&& final(self).moved_to(old(self), e)
                    },
                    Err((k, p)) => r == Err::<Token, LexError>(error_at(old(self).state(), k, p)),
                }
            }),
    {
        proof {
            lemma_token_at(self.content@, self.cursor as nat, self.last_kind);
        }
        let start = self.cursor;
        let c = self.get_current_char();
        assert(self.content@.subrange(start as int, start + 1) =~= seq![c]);
        match c {
            '#' => Ok(self.handle_comment()),
            '(' | ')' | '{' | '}' | ';' | ':' | ',' => {
                let kind = punctuation(c);
                self.advance_cursor(1);
                Ok(self.create_token(kind.unwrap(), start, 1))
            },
            '+' | '-' | '*' | '/' | '=' | '<' | '>' => Ok(self.match_operator(start, c)),
            '"' => self.handle_string_literal(),
            '.' => self.handle_dot(),
            _ => {
                if self.is_symbol_start(c) {
                    Ok(self.handle_symbol())
                } else if self.is_number(c) {
                    self.handle_number()
                } else {
                    self.advance_cursor(1);
                    Ok(self.create_token(TokenKind::Invalid, start, 1))
                }
            },
        }
    }

    /// The next token: blanks are skipped, a newline is a token of its own,
    /// and once the input is exhausted every call gives the end of input.
    pub fn next(&mut self) -> (r: Result<Token, LexError>)
        requires
            old(self).wf(),
        ensures
            final(self).wf(),
            final(self).source() == old(self).source(),
            match scan(old(self).source(), old(self).state()) {
                Ok((lx, st)) => {
                    &&& r is Ok
                    &&& r->Ok_0@ == lx.token
                    &&& final(self).state() == st
                },
                Err(e) => r == Err::<Token, LexError>(e),
            },
    {
        reveal(scan);
        self.skip_whitespace();
        let start = self.cursor;
        assert(self.content@.subrange(start as int, start as int) =~= seq![]);
        if !self.not_end() {
            self.last_kind = TokenKind::EndOfInput;
            return Ok(self.create_token(TokenKind::EndOfInput, start, 0));
        }
        if self.get_current_char() == '\n' {
            assert(self.content@.subrange(start as int, start + 1) =~= seq!['\n']);
            self.advance_cursor(1);
            let t = self.create_token(TokenKind::NewLine, start, 1);
            self.line = self.line + 1;
            self.bol = self.cursor;
            self.last_kind = TokenKind::NewLine;
            return Ok(t);
        }
        let r = self.read_token();
        if let Ok(t) = &r {
            self.last_kind = t.kind;
        }
        r
    }

    /// All the tokens that remain, the last one being the end of input; or
    /// the first lexical error.
    pub fn tokenize(&mut self) -> (r: Result<Vec<Token>, LexError>)
        requires
            old(self).wf(),
        ensures
            final(self).wf(),
            match lex_from(old(self).source(), old(self).state()) {
                Ok(ls) => r is Ok && tokens_match(r->Ok_0@, ls),
                Err(e) => r == Err::<Vec<Token>, LexError>(e),
            },
    {
        let mut tokens: Vec<Token> = Vec::new();
        let ghost done: Seq<Lexeme> = seq![];
        loop
            invariant
                self.wf(),
                self.source() == old(self).source(),
                tokens_match(tokens@, done),
                lex_from(self.source(), old(self).state()) == prepend(done, lex_from(self.source(), self.state())),
            decreases self.source().len() - self.state().cursor,
        {
            proof {
                lemma_scan(self.source(), self.state());
            }
            let ghost before = self.state();
            match self.next() {
                Err(e) => {
                    return Err(e);
                },
                Ok(t) => {
                    let end = t.kind == TokenKind::EndOfInput;
                    let ghost lx = scan(self.source(), before)->Ok_0.0;
                    proof {
                        assert(done.push(lx) =~= done + seq![lx]);
                        if !end {
                            assert(done + (seq![lx] + lex_from(self.source(), self.state())->Ok_0)
                                =~= done.push(lx) + lex_from(self.source(), self.state())->Ok_0);
                        }
                        done = done.push(lx);
                    }
                    tokens.push(t);
                    if end {
                        return Ok(tokens);
                    }
                },
            }
        }
    }
}

/// A human-readable description of the error.
pub open spec fn lex_error_message(k: LexErrorKind) -> Seq<char> {
    match k {
        LexErrorKind::UnterminatedString => "unterminated string literal"@,
        LexErrorKind::InvalidEscape => "invalid escape sequence in string literal"@,
        LexErrorKind::MultipleDecimalPoints => "invalid number: more than one decimal point"@,
        LexErrorKind::MultipleExponents => "invalid number: more than one exponent marker"@,
        LexErrorKind::IncompleteEllipsis => "expected '...' instead of '..'"@,
        LexErrorKind::MisplacedDot => "'...' is only allowed right after '{'"@,
    }
}

impl LexErrorKind {
    /// A human-readable description of the error.
    pub fn message(&self) -> (r: &'static str)
        ensures
            r@ == lex_error_message(*self),
    {
        match self {
            LexErrorKind::UnterminatedString => "unterminated string literal",
            LexErrorKind::InvalidEscape => "invalid escape sequence in string literal",
            LexErrorKind::MultipleDecimalPoints => "invalid number: more than one decimal point",
            LexErrorKind::MultipleExponents => "invalid number: more than one exponent marker",
            LexErrorKind::IncompleteEllipsis => "expected '...' instead of '..'",
            LexErrorKind::MisplacedDot => "'...' is only allowed right after '{'",
        }
    }
}

} // verus!
