//! The tokenizer.
//!
//! The scan is specified first as a mathematical function on the source text:
//! `lex_step` takes a lexer state (text, position, row, column) to the next
//! token and successor state, and `token_stream` iterates it to the full
//! sequence of tokens. The executable `Lexer` is proved to follow `lex_step`
//! call by call.
//!
//! The tokenizer is total: it never fails, and malformed lexemes come back
//! in-band as tokens of kind `Error`. Whitespace and the letters that make
//! up identifiers are classified by std's Unicode tables (`is_whitespace`,
//! `is_alphabetic`), taken on trust under the names `unicode_ws` and
//! `unicode_alpha`; digits are ASCII `0` to `9`.

use vstd::prelude::*;
use vstd::string::StrSliceExecFns;
use vstd::string::StringExecFns;

use crate::token::{tokens_view, SpecToken, Token, TokenName};

verus! {

/// What `char::is_whitespace` returns: whether a character has the Unicode
/// `White_Space` property. A function of the character alone, so it can be
/// given a name; what holds of a given character Verus does not know.
pub uninterp spec fn unicode_ws(c: char) -> bool;

/// Relies on char::is_whitespace: whether the character has the Unicode
/// `White_Space` property, a function of the character alone.
pub assume_specification[ char::is_whitespace ](c: char) -> (b: bool)
    ensures
        b == unicode_ws(c),
;

/// What `char::is_alphabetic` returns: whether a character has the Unicode
/// `Alphabetic` property. A function of the character alone, so it can be
/// given a name; what holds of a given character Verus does not know.
pub uninterp spec fn unicode_alpha(c: char) -> bool;

/// Relies on char::is_alphabetic: whether the character has the Unicode
/// `Alphabetic` property, a function of the character alone.
pub assume_specification[ char::is_alphabetic ](c: char) -> (b: bool)
    ensures
        b == unicode_alpha(c),
;

/// ASCII decimal digit.
pub open spec fn is_digit_char(c: char) -> bool {
    48 <= c as u32 && c as u32 <= 57
}

/// A character that may stand in an identifier: a Unicode-alphabetic
/// character or `_`.
pub open spec fn is_ident_char(c: char) -> bool {
    unicode_alpha(c) || c == '_'
}

/// A character that continues a numeric lexeme: a digit or a dot.
pub open spec fn is_num_char(c: char) -> bool {
    is_digit_char(c) || c == '.'
}

/// A character that starts an operator lexeme.
pub open spec fn is_op_char(c: char) -> bool {
    c == '=' || c == '+' || c == '-' || c == '*' || c == '/' || c == '<' || c == '>' || c == '&'
        || c == '|'
}

/// The state of a scan: the whole source text, the index of the next
/// unconsumed character, and the 1-based row and column of that character.
pub ghost struct LexState {
    pub text: Seq<char>,
    pub pos: int,
    pub row: int,
    pub col: int,
}

/// A well-formed scan state: the position is inside the text (or one past
/// its end), and row and column are bounded by the progress made, which is
/// what keeps the executable counters from overflowing.
pub open spec fn lex_wf(st: LexState) -> bool {
    &&& 0 <= st.pos <= st.text.len()
    &&& 1 <= st.row <= st.pos + 1
    &&& 1 <= st.col <= st.pos + 1
}

/// One step of the shared forward read: consume the character at `pos`.
/// A newline increments the row exactly once and resets the column to the
/// start-of-line value, 1; every other character increments the column.
pub open spec fn bump(st: LexState) -> LexState
    recommends
        st.pos < st.text.len(),
{
    if st.text[st.pos] == '\n' {
        LexState { text: st.text, pos: st.pos + 1, row: st.row + 1, col: 1 }
    } else {
        LexState { text: st.text, pos: st.pos + 1, row: st.row, col: st.col + 1 }
    }
}

/// Consume characters as long as `keep` accepts them.
pub open spec fn scan_while(st: LexState, keep: spec_fn(char) -> bool) -> LexState
    decreases st.text.len() - st.pos,
{
    if st.pos < st.text.len() && keep(st.text[st.pos]) {
        scan_while(bump(st), keep)
    } else {
        st
    }
}

/// The predicate of the whitespace scan.
pub open spec fn ws_pred() -> spec_fn(char) -> bool {
    |c: char| unicode_ws(c)
}

/// The predicate of the identifier scan.
pub open spec fn ident_pred() -> spec_fn(char) -> bool {
    |c: char| is_ident_char(c)
}

/// The predicate of the numeric scan.
pub open spec fn num_pred() -> spec_fn(char) -> bool {
    |c: char| is_num_char(c)
}

/// The predicate of the string-body scan: everything up to a closing quote.
pub open spec fn str_pred() -> spec_fn(char) -> bool {
    |c: char| c != '"'
}

/// Skip leading whitespace.
pub open spec fn skip_ws(st: LexState) -> LexState {
    scan_while(st, ws_pred())
}

/// Kind and length of the operator lexeme that starts with `c`, where
/// `next` is the character after it, if any. A trailing `=` combines with
/// the arithmetic and relational starters; `&` combines only with `&` and
/// `|` only with `|`, and a lone `&` or `|` is an `Error` lexeme.
pub open spec fn op_token(c: char, next: Option<char>) -> (TokenName, int)
    recommends
        is_op_char(c),
{
    if c == '=' {
        if next == Some('=') {
            (TokenName::Eq, 2)
        } else {
            (TokenName::Assign, 1)
        }
    } else if c == '+' {
        if next == Some('=') {
            (TokenName::AddAssign, 2)
        } else {
            (TokenName::Add, 1)
        }
    } else if c == '-' {
        if next == Some('=') {
            (TokenName::SubAssign, 2)
        } else {
            (TokenName::Sub, 1)
        }
    } else if c == '*' {
        if next == Some('=') {
            (TokenName::MulAssign, 2)
        } else {
            (TokenName::Mul, 1)
        }
    } else if c == '/' {
        if next == Some('=') {
            (TokenName::DivAssign, 2)
        } else {
            (TokenName::Div, 1)
        }
    } else if c == '<' {
        if next == Some('=') {
            (TokenName::Lte, 2)
        } else {
            (TokenName::Lt, 1)
        }
    } else if c == '>' {
        if next == Some('=') {
            (TokenName::Gte, 2)
        } else {
            (TokenName::Gt, 1)
        }
    } else if c == '&' {
        if next == Some('&') {
            (TokenName::And, 2)
        } else {
            (TokenName::Error, 1)
        }
    } else {
        if next == Some('|') {
            (TokenName::Or, 2)
        } else {
            (TokenName::Error, 1)
        }
    }
}

/// Kind of a single-character punctuation lexeme; any character that no
/// scan path recognises comes out as `Error`.
pub open spec fn symbol_kind(c: char) -> TokenName {
    if c == '{' {
        TokenName::Osq
    } else if c == '}' {
        TokenName::Csq
    } else if c == '[' {
        TokenName::Obr
    } else if c == ']' {
        TokenName::Cbr
    } else if c == '(' {
        TokenName::Opr
    } else if c == ')' {
        TokenName::Cpr
    } else if c == ':' {
        TokenName::Colon
    } else if c == ';' {
        TokenName::Semi
    } else if c == '!' {
        TokenName::Bang
    } else {
        TokenName::Error
    }
}

/// Keyword lookup: whole-lexeme match against the fixed keyword table;
/// anything else is an identifier.
pub open spec fn keyword_kind(text: Seq<char>) -> TokenName {
    if text == "let"@ {
        TokenName::Let
    } else if text == "return"@ {
        TokenName::Return
    } else if text == "if"@ {
        TokenName::If
    } else if text == "else"@ {
        TokenName::Else
    } else if text == "for"@ {
        TokenName::For
    } else {
        TokenName::Ident
    }
}

/// Whether a numeric lexeme contains a dot, which makes it a float.
pub open spec fn has_dot(text: Seq<char>) -> bool {
    exists|i: int| 0 <= i < text.len() && text[i] == '.'
}

/// One call of the tokenizer: skip whitespace, then dispatch on the first
/// unconsumed character. Returns the token produced, if any, and the state
/// the scan leaves behind. A token's row and column are those of the start
/// of its lexeme; a string token records the position just after the
/// opening quote, whose interior text it carries.
pub open spec fn lex_step(st: LexState) -> (Option<SpecToken>, LexState) {
    let st1 = skip_ws(st);
    if st1.pos >= st1.text.len() {
        (None, st1)
    } else {
        let c = st1.text[st1.pos];
        if is_op_char(c) {
            let next = if st1.pos + 1 < st1.text.len() {
                Some(st1.text[st1.pos + 1])
            } else {
                None
            };
            let (kind, n) = op_token(c, next);
            let st2 = if n == 2 {
                bump(bump(st1))
            } else {
                bump(st1)
            };
            (
                Some(
                    SpecToken {
                        kind,
                        text: st1.text.subrange(st1.pos, st1.pos + n),
                        row: st1.row,
                        col: st1.col,
                    },
                ),
                st2,
            )
        } else if c == '"' {
            let opened = bump(st1);
            let body = scan_while(opened, str_pred());
            let tok = SpecToken {
                kind: TokenName::Str,
                text: st1.text.subrange(opened.pos, body.pos),
                row: opened.row,
                col: opened.col,
            };
            let st2 = if body.pos < body.text.len() {
                bump(body)
            } else {
                body
            };
            (Some(tok), st2)
        } else if is_digit_char(c) {
            let end = scan_while(st1, num_pred());
            let text = st1.text.subrange(st1.pos, end.pos);
            let kind = if has_dot(text) {
                TokenName::Float
            } else {
                TokenName::Int
            };
            (Some(SpecToken { kind, text, row: st1.row, col: st1.col }), end)
        } else if is_ident_char(c) {
            let end = scan_while(st1, ident_pred());
            let text = st1.text.subrange(st1.pos, end.pos);
            (
                Some(SpecToken { kind: keyword_kind(text), text, row: st1.row, col: st1.col }),
                end,
            )
        } else {
            (
                Some(
                    SpecToken {
                        kind: symbol_kind(c),
                        text: st1.text.subrange(st1.pos, st1.pos + 1),
                        row: st1.row,
                        col: st1.col,
                    },
                ),
                bump(st1),
            )
        }
    }
}

/// The full token sequence that repeated calls of the tokenizer produce
/// from a state. Finite for every input: every produced token consumes at
/// least one character.
pub open spec fn token_stream(st: LexState) -> Seq<SpecToken>
    decreases st.text.len() - st.pos,
{
    let (ot, st2) = lex_step(st);
    match ot {
        None => Seq::empty(),
        Some(tok) => if st.pos < st2.pos <= st.text.len() && st2.text == st.text {
            seq![tok] + token_stream(st2)
        } else {
            seq![tok]
        },
    }
}

/// Row-then-column order on positions.
pub open spec fn rc_leq(row1: int, col1: int, row2: int, col2: int) -> bool {
    row1 < row2 || (row1 == row2 && col1 <= col2)
}

/// What a scan loop guarantees: the text is unchanged, the position moves
/// forward but not past the end, well-formedness is kept, the row/column
/// pair moves forward, every consumed character satisfied `keep`, and the
/// scan stopped at the end of the text or at a character that `keep`
/// refuses.
pub proof fn lemma_scan_while(st: LexState, keep: spec_fn(char) -> bool)
    requires
        lex_wf(st),
    ensures
        ({
            let r = scan_while(st, keep);
            &&& r.text == st.text
            &&& st.pos <= r.pos <= st.text.len()
            &&& lex_wf(r)
            &&& rc_leq(st.row, st.col, r.row, r.col)
            &&& forall|i: int| st.pos <= i < r.pos ==> keep(st.text[i])
            &&& (r.pos < st.text.len() ==> !keep(st.text[r.pos]))
        }),
    decreases st.text.len() - st.pos,
{
    if st.pos < st.text.len() && keep(st.text[st.pos]) {
        lemma_scan_while(bump(st), keep);
    }
}

/// What one call of the tokenizer guarantees: the text is unchanged and the
/// state stays well-formed; a produced token strictly advances the
/// position; `None` means the whole text is consumed; and both the token's
/// position and the successor state's position lie at or after the starting
/// row/column, in scan order.
pub proof fn lemma_lex_step(st: LexState)
    requires
        lex_wf(st),
    ensures
        ({
            let (ot, st2) = lex_step(st);
            &&& st2.text == st.text
            &&& lex_wf(st2)
            &&& st.pos <= st2.pos <= st.text.len()
            &&& (ot is Some ==> st.pos < st2.pos)
            &&& (ot is None ==> st2.pos == st.text.len())
            &&& (ot is Some ==> rc_leq(st.row, st.col, ot->0.row, ot->0.col))
            &&& (ot is Some ==> rc_leq(ot->0.row, ot->0.col, st2.row, st2.col))
        }),
{
    lemma_scan_while(st, ws_pred());
    let st1 = skip_ws(st);
    if st1.pos < st1.text.len() {
        let c = st1.text[st1.pos];
        if is_op_char(c) {
        } else if c == '"' {
            lemma_scan_while(bump(st1), str_pred());
        } else if is_digit_char(c) {
            lemma_scan_while(st1, num_pred());
        } else if is_ident_char(c) {
            lemma_scan_while(st1, ident_pred());
        } else {
        }
    }
}

/// What the shared read primitive does to the position: consuming a
/// newline increments the row exactly once and resets the column to the
/// start-of-line value, 1, so positions stay 1-based on every line;
/// consuming any other character increments the column and leaves the row
/// alone. Every scan path moves by this one step, so diagnostics are
/// consistent across all of them.
pub proof fn lemma_newline_step(st: LexState)
    requires
        st.pos < st.text.len(),
    ensures
        st.text[st.pos] == '\n' ==> bump(st).row == st.row + 1 && bump(st).col == 1,
        st.text[st.pos] != '\n' ==> bump(st).row == st.row && bump(st).col == st.col + 1,
        bump(st).pos == st.pos + 1,
{
}

/// Once the tokenizer has returned `None`, every further call returns
/// `None` again from an unchanged state: end of input is sticky.
pub proof fn lemma_end_sticky(st: LexState)
    requires
        lex_wf(st),
        lex_step(st).0 is None,
    ensures
        lex_step(lex_step(st).1).0 is None,
        lex_step(lex_step(st).1).1 == lex_step(st).1,
{
    lemma_lex_step(st);
}

/// Unfolding of the token stream by one tokenizer call, from any
/// well-formed state.
pub proof fn lemma_token_stream_cons(st: LexState)
    requires
        lex_wf(st),
    ensures
        ({
            let (ot, st2) = lex_step(st);
            match ot {
                None => token_stream(st) == Seq::<SpecToken>::empty(),
                Some(tok) => token_stream(st) == seq![tok] + token_stream(st2),
            }
        }),
{
    lemma_lex_step(st);
}

/// Tokenizer totality, counted: the stream a state yields holds at most
/// one token per unconsumed character, so repeated calls reach `None`
/// after finitely many steps.
pub proof fn lemma_token_stream_len(st: LexState)
    requires
        lex_wf(st),
    ensures
        token_stream(st).len() <= st.text.len() - st.pos,
    decreases st.text.len() - st.pos,
{
    lemma_lex_step(st);
    let (ot, st2) = lex_step(st);
    if ot is Some {
        lemma_token_stream_len(st2);
    }
}

/// Position monotonicity: every token of the stream lies at or after the
/// state's own row/column, and consecutive tokens are in row-then-column
/// order.
#[verifier::rlimit(100)]
pub proof fn lemma_positions_monotone(st: LexState)
    requires
        lex_wf(st),
    ensures
        forall|i: int|
            0 <= i < token_stream(st).len() ==> rc_leq(
                st.row,
                st.col,
                (#[trigger] token_stream(st)[i]).row,
                token_stream(st)[i].col,
            ),
        forall|i: int|
            0 <= i && i + 1 < token_stream(st).len() ==> rc_leq(
                (#[trigger] token_stream(st)[i]).row,
                token_stream(st)[i].col,
                token_stream(st)[i + 1].row,
                token_stream(st)[i + 1].col,
            ),
    decreases st.text.len() - st.pos,
{
    lemma_lex_step(st);
    lemma_token_stream_cons(st);
    let (ot, st2) = lex_step(st);
    let ts = token_stream(st);
    if ot is Some {
        let tok = ot->0;
        let rest = token_stream(st2);
        lemma_positions_monotone(st2);
        assert(ts == seq![tok] + rest);
        assert(ts[0] == tok);
        assert(forall|i: int| 1 <= i < ts.len() ==> #[trigger] ts[i] == rest[i - 1]);
        if rest.len() > 0 {
            lemma_token_stream_cons(st2);
            assert(rest[0] == lex_step(st2).0->0);
        }
    }
}

/// Extending a lexeme by one character adds a dot exactly when the new
/// character is a dot.
proof fn lemma_has_dot_push(u: Seq<char>, c: char)
    ensures
        has_dot(u.push(c)) <==> (has_dot(u) || c == '.'),
{
    if has_dot(u) {
        let i = choose|i: int| 0 <= i < u.len() && u[i] == '.';
        assert(u.push(c)[i] == '.');
    }
    if c == '.' {
        assert(u.push(c)[u.len() as int] == '.');
    }
    if has_dot(u.push(c)) {
        let i = choose|i: int| 0 <= i < u.push(c).len() && u.push(c)[i] == '.';
        if i < u.len() {
            assert(u[i] == '.');
        }
    }
}

// --- executable character classes ---
/// Whether `c` is whitespace.
fn ws_char(c: char) -> (b: bool)
    ensures
        b == unicode_ws(c),
{
    c.is_whitespace()
}

/// Whether `c` is an ASCII digit.
fn digit_char(c: char) -> (b: bool)
    ensures
        b == is_digit_char(c),
{
    let u = c as u32;
    48 <= u && u <= 57
}

/// Whether `c` may stand in an identifier.
fn ident_char(c: char) -> (b: bool)
    ensures
        b == is_ident_char(c),
{
    c.is_alphabetic() || c == '_'
}

/// Whether `c` continues a numeric lexeme.
fn num_char(c: char) -> (b: bool)
    ensures
        b == is_num_char(c),
{
    digit_char(c) || c == '.'
}

/// Whether `c` starts an operator lexeme.
fn op_char(c: char) -> (b: bool)
    ensures
        b == is_op_char(c),
{
    c == '=' || c == '+' || c == '-' || c == '*' || c == '/' || c == '<' || c == '>' || c == '&'
        || c == '|'
}

/// Whole-lexeme keyword lookup.
fn keyword_of(s: &String) -> (k: TokenName)
    ensures
        k == keyword_kind(s@),
{
    if *s == String::from_str("let") {
        TokenName::Let
    } else if *s == String::from_str("return") {
        TokenName::Return
    } else if *s == String::from_str("if") {
        TokenName::If
    } else if *s == String::from_str("else") {
        TokenName::Else
    } else if *s == String::from_str("for") {
        TokenName::For
    } else {
        TokenName::Ident
    }
}

/// The tokenizer. It owns a copy of the source text and a forward-only
/// cursor: the index of the next unconsumed character together with the
/// row and column of that character. Its view is the scan state that the
/// specification functions speak about.
#[derive(Debug)]
pub struct Lexer {
    input: String,
    pos: usize,
    row: usize,
    col: usize,
}

impl View for Lexer {
    type V = LexState;

    closed spec fn view(&self) -> LexState {
        LexState {
            text: self.input@,
            pos: self.pos as int,
            row: self.row as int,
            col: self.col as int,
        }
    }
}

impl Lexer {
    /// A well-formed tokenizer: the scan state is well-formed, and the text
    /// is short enough that the row and column counters cannot overflow.
    pub closed spec fn wf(&self) -> bool {
        &&& lex_wf(self@)
        &&& self.input@.len() < usize::MAX
    }

    /// The tokens that repeated calls of `next_token` will produce from
    /// here on.
    pub open spec fn tokens(&self) -> Seq<SpecToken> {
        token_stream(self@)
    }

    /// A fresh tokenizer at the start of `input`, at row 1, column 1.
    pub fn new(input: &str) -> (r: Lexer)
        requires
            input@.len() < usize::MAX,
        ensures
            r.wf(),
            r@ == (LexState { text: input@, pos: 0, row: 1, col: 1 }),
    {
        Lexer { input: String::from_str(input), pos: 0, row: 1, col: 1 }
    }

    /// The current character, if any.
    fn curr(&self) -> (c: Option<char>)
        requires
            self.wf(),
        ensures
            c == (if self@.pos < self@.text.len() {
                Some(self@.text[self@.pos])
            } else {
                None::<char>
            }),
    {
        if self.pos < self.input.as_str().unicode_len() {
            Some(self.input.as_str().get_char(self.pos))
        } else {
            None
        }
    }

    /// The character after the current one, if any.
    fn peek(&self) -> (c: Option<char>)
        requires
            self.wf(),
        ensures
            c == (if self@.pos + 1 < self@.text.len() {
                Some(self@.text[self@.pos + 1])
            } else {
                None::<char>
            }),
    {
        if self.pos + 1 < self.input.as_str().unicode_len() {
            Some(self.input.as_str().get_char(self.pos + 1))
        } else {
            None
        }
    }

    /// The shared forward read: consume one character, keeping row and
    /// column as `bump` says.
    fn read(&mut self)
        requires
            old(self).wf(),
            old(self)@.pos < old(self)@.text.len(),
        ensures
            final(self).wf(),
            final(self)@ == bump(old(self)@),
    {
        let c = self.input.as_str().get_char(self.pos);
        self.pos = self.pos + 1;
        if c == '\n' {
            self.row = self.row + 1;
            self.col = 1;
        } else {
            self.col = self.col + 1;
        }
    }

    /// Consume leading whitespace.
    fn skip_whitespace(&mut self)
        requires
            old(self).wf(),
        ensures
            final(self).wf(),
            final(self)@ == skip_ws(old(self)@),
    {
        loop
            invariant
                self.wf(),
                scan_while(self@, ws_pred()) == scan_while(old(self)@, ws_pred()),
            ensures
                self.wf(),
                self@ == scan_while(old(self)@, ws_pred()),
            decreases self@.text.len() - self@.pos,
        {
            match self.curr() {
                Some(c) => {
                    if ws_char(c) {
                        self.read();
                    } else {
                        break ;
                    }
                },
                None => {
                    break ;
                },
            }
        }
    }

    /// Scan an identifier or keyword lexeme.
    fn read_ident(&mut self) -> (t: Token)
        requires
            old(self).wf(),
            old(self)@.pos < old(self)@.text.len(),
            is_ident_char(old(self)@.text[old(self)@.pos]),
        ensures
            final(self).wf(),
            final(self)@ == scan_while(old(self)@, ident_pred()),
            t@ == (SpecToken {
                kind: keyword_kind(old(self)@.text.subrange(old(self)@.pos, final(self)@.pos)),
                text: old(self)@.text.subrange(old(self)@.pos, final(self)@.pos),
                row: old(self)@.row,
                col: old(self)@.col,
            }),
    {
        let start = self.pos;
        let row = self.row;
        let col = self.col;
        loop
            invariant
                self.wf(),
                self@.text == old(self)@.text,
                old(self)@.pos <= self@.pos,
                start as int == old(self)@.pos,
                scan_while(self@, ident_pred()) == scan_while(old(self)@, ident_pred()),
            ensures
                self.wf(),
                self@.text == old(self)@.text,
                old(self)@.pos <= self@.pos,
                self@ == scan_while(old(self)@, ident_pred()),
            decreases self@.text.len() - self@.pos,
        {
            match self.curr() {
                Some(c) => {
                    if ident_char(c) {
                        self.read();
                    } else {
                        break ;
                    }
                },
                None => {
                    break ;
                },
            }
        }
        let piece = self.input.as_str().substring_char(start, self.pos);
        let value = String::from_str(piece);
        let kind = keyword_of(&value);
        Token { kind, value, row, col }
    }

    /// Scan a numeric lexeme: digits and dots; a dot anywhere makes it a
    /// float.
    fn read_num(&mut self) -> (t: Token)
        requires
            old(self).wf(),
            old(self)@.pos < old(self)@.text.len(),
            is_digit_char(old(self)@.text[old(self)@.pos]),
        ensures
            final(self).wf(),
            final(self)@ == scan_while(old(self)@, num_pred()),
            t@ == (SpecToken {
                kind: (if has_dot(old(self)@.text.subrange(old(self)@.pos, final(self)@.pos)) {
                    TokenName::Float
                } else {
                    TokenName::Int
                }),
                text: old(self)@.text.subrange(old(self)@.pos, final(self)@.pos),
                row: old(self)@.row,
                col: old(self)@.col,
            }),
    {
        let start = self.pos;
        let row = self.row;
        let col = self.col;
        let mut dotted = false;
        loop
            invariant
                self.wf(),
                self@.text == old(self)@.text,
                old(self)@.pos <= self@.pos,
                start as int == old(self)@.pos,
                dotted == has_dot(old(self)@.text.subrange(old(self)@.pos, self@.pos)),
                scan_while(self@, num_pred()) == scan_while(old(self)@, num_pred()),
            ensures
                self.wf(),
                self@.text == old(self)@.text,
                old(self)@.pos <= self@.pos,
                self@ == scan_while(old(self)@, num_pred()),
                dotted == has_dot(old(self)@.text.subrange(old(self)@.pos, self@.pos)),
            decreases self@.text.len() - self@.pos,
        {
            match self.curr() {
                Some(c) => {
                    if num_char(c) {
                        proof {
                            let sub = old(self)@.text.subrange(start as int, self@.pos);
                            let sub1 = old(self)@.text.subrange(start as int, self@.pos + 1);
                            assert(sub1 =~= sub.push(self@.text[self@.pos]));
                            lemma_has_dot_push(sub, self@.text[self@.pos]);
                        }
                        if c == '.' {
                            dotted = true;
                        }
                        self.read();
                    } else {
                        break ;
                    }
                },
                None => {
                    break ;
                },
            }
        }
        let piece = self.input.as_str().substring_char(start, self.pos);
        let value = String::from_str(piece);
        let kind = if dotted {
            TokenName::Float
        } else {
            TokenName::Int
        };
        Token { kind, value, row, col }
    }

    /// Scan a string lexeme: consume the opening quote, take the interior
    /// up to the closing quote or the end of the text, then consume the
    /// closing quote if it is there.
    fn read_str(&mut self) -> (t: Token)
        requires
            old(self).wf(),
            old(self)@.pos < old(self)@.text.len(),
            old(self)@.text[old(self)@.pos] == '"',
        ensures
            final(self).wf(),
            ({
                let opened = bump(old(self)@);
                let body = scan_while(opened, str_pred());
                &&& t@ == (SpecToken {
                    kind: TokenName::Str,
                    text: old(self)@.text.subrange(opened.pos, body.pos),
                    row: opened.row,
                    col: opened.col,
                })
                &&& final(self)@ == (if body.pos < body.text.len() {
                    bump(body)
                } else {
                    body
                })
            }),
    {
        self.read();
        let ghost opened = self@;
        let start = self.pos;
        let row = self.row;
        let col = self.col;
        loop
            invariant
                self.wf(),
                self@.text == opened.text,
                opened.pos <= self@.pos,
                start as int == opened.pos,
                scan_while(self@, str_pred()) == scan_while(opened, str_pred()),
            ensures
                self.wf(),
                self@ == scan_while(opened, str_pred()),
            decreases self@.text.len() - self@.pos,
        {
            match self.curr() {
                Some(c) => {
                    if c == '"' {
                        break ;
                    } else {
                        self.read();
                    }
                },
                None => {
                    break ;
                },
            }
        }
        let piece = self.input.as_str().substring_char(start, self.pos);
        let value = String::from_str(piece);
        let t = Token { kind: TokenName::Str, value, row, col };
        match self.curr() {
            Some(_) => {
                self.read();
            },
            None => {},
        }
        t
    }

    /// Scan an operator lexeme of one or two characters.
    fn read_op(&mut self) -> (t: Token)
        requires
            old(self).wf(),
            old(self)@.pos < old(self)@.text.len(),
            is_op_char(old(self)@.text[old(self)@.pos]),
        ensures
            final(self).wf(),
            ({
                let st = old(self)@;
                let next = if st.pos + 1 < st.text.len() {
                    Some(st.text[st.pos + 1])
                } else {
                    None::<char>
                };
                let (kind, n) = op_token(st.text[st.pos], next);
                &&& t@ == (SpecToken {
                    kind: kind,
                    text: st.text.subrange(st.pos, st.pos + n),
                    row: st.row,
                    col: st.col,
                })
                &&& final(self)@ == (if n == 2 {
                    bump(bump(st))
                } else {
                    bump(st)
                })
            }),
    {
        let start = self.pos;
        let row = self.row;
        let col = self.col;
        let c = self.input.as_str().get_char(self.pos);
        let p = self.peek();
        let p_eq = match p {
            Some(x) => x == '=',
            None => false,
        };
        let p_amp = match p {
            Some(x) => x == '&',
            None => false,
        };
        let p_bar = match p {
            Some(x) => x == '|',
            None => false,
        };
        let (kind, two) = if c == '=' {
            if p_eq {
                (TokenName::Eq, true)
            } else {
                (TokenName::Assign, false)
            }
        } else if c == '+' {
            if p_eq {
                (TokenName::AddAssign, true)
            } else {
                (TokenName::Add, false)
            }
        } else if c == '-' {
            if p_eq {
                (TokenName::SubAssign, true)
            } else {
                (TokenName::Sub, false)
            }
        } else if c == '*' {
            if p_eq {
                (TokenName::MulAssign, true)
            } else {
                (TokenName::Mul, false)
            }
        } else if c == '/' {
            if p_eq {
                (TokenName::DivAssign, true)
            } else {
                (TokenName::Div, false)
            }
        } else if c == '<' {
            if p_eq {
                (TokenName::Lte, true)
            } else {
                (TokenName::Lt, false)
            }
        } else if c == '>' {
            if p_eq {
                (TokenName::Gte, true)
            } else {
                (TokenName::Gt, false)
            }
        } else if c == '&' {
            if p_amp {
                (TokenName::And, true)
            } else {
                (TokenName::Error, false)
            }
        } else {
            if p_bar {
                (TokenName::Or, true)
            } else {
                (TokenName::Error, false)
            }
        };
        if two {
            self.read();
        }
        self.read();
        let piece = self.input.as_str().substring_char(start, self.pos);
        let value = String::from_str(piece);
        Token { kind, value, row, col }
    }

    /// Scan a single-character punctuation lexeme, or an `Error` token for
    /// a character no scan path recognises.
    fn read_symbol(&mut self) -> (t: Token)
        requires
            old(self).wf(),
            old(self)@.pos < old(self)@.text.len(),
        ensures
            final(self).wf(),
            final(self)@ == bump(old(self)@),
            t@ == (SpecToken {
                kind: symbol_kind(old(self)@.text[old(self)@.pos]),
                text: old(self)@.text.subrange(old(self)@.pos, old(self)@.pos + 1),
                row: old(self)@.row,
                col: old(self)@.col,
            }),
    {
        let c = self.input.as_str().get_char(self.pos);
        let kind = if c == '{' {
            TokenName::Osq
        } else if c == '}' {
            TokenName::Csq
        } else if c == '[' {
            TokenName::Obr
        } else if c == ']' {
            TokenName::Cbr
        } else if c == '(' {
            TokenName::Opr
        } else if c == ')' {
            TokenName::Cpr
        } else if c == ':' {
            TokenName::Colon
        } else if c == ';' {
            TokenName::Semi
        } else if c == '!' {
            TokenName::Bang
        } else {
            TokenName::Error
        };
        let piece = self.input.as_str().substring_char(self.pos, self.pos + 1);
        let value = String::from_str(piece);
        let t = Token { kind, value, row: self.row, col: self.col };
        self.read();
        t
    }

    /// One call of the tokenizer: the next token of the stream, or `None`
    /// at the end of the input, which is sticky. The call follows
    /// `lex_step` exactly, so the stream of results is `tokens()`.
    pub fn next_token(&mut self) -> (t: Option<Token>)
        requires
            old(self).wf(),
        ensures
            final(self).wf(),
            final(self)@.text == old(self)@.text,
            ({
                let (ot, st2) = lex_step(old(self)@);
                &&& final(self)@ == st2
                &&& (match (t, ot) {
                    (Some(tk), Some(sp)) => tk@ == sp,
                    (None, None) => true,
                    _ => false,
                })
            }),
            t is Some ==> old(self).tokens() == seq![t->0@] + final(self).tokens()
                && old(self)@.pos < final(self)@.pos,
            t is None ==> old(self).tokens() == Seq::<SpecToken>::empty() && final(self).tokens()
                == Seq::<SpecToken>::empty(),
    {
        proof {
            lemma_lex_step(old(self)@);
            lemma_token_stream_cons(old(self)@);
        }
        self.skip_whitespace();
        let c = match self.curr() {
            Some(c) => c,
            None => {
                proof {
                    lemma_end_sticky(old(self)@);
                    lemma_token_stream_cons(self@);
                }
                return None;
            },
        };
        let t = if op_char(c) {
            self.read_op()
        } else if c == '"' {
            self.read_str()
        } else if digit_char(c) {
            self.read_num()
        } else if ident_char(c) {
            self.read_ident()
        } else {
            self.read_symbol()
        };
        Some(t)
    }

    /// Run the tokenizer to the end of its input and collect every token,
    /// in order. Witnesses tokenizer totality: the loop terminates on all
    /// inputs because every token consumes at least one character.
    pub fn tokenize(input: &str) -> (r: Vec<Token>)
        requires
            input@.len() < usize::MAX,
        ensures
            tokens_view(r@) == token_stream(LexState { text: input@, pos: 0, row: 1, col: 1 }),
    {
        let ghost st0 = LexState { text: input@, pos: 0, row: 1, col: 1 };
        let mut lx = Lexer::new(input);
        let mut out: Vec<Token> = Vec::new();
        loop
            invariant
                lx.wf(),
                tokens_view(out@) + lx.tokens() == token_stream(st0),
            ensures
                tokens_view(out@) == token_stream(st0),
            decreases lx@.text.len() - lx@.pos,
        {
            match lx.next_token() {
                Some(t) => {
                    proof {
                        assert(tokens_view(out@.push(t)) =~= tokens_view(out@).push(t@));
                        assert(tokens_view(out@).push(t@) + token_stream(lx@) =~= tokens_view(
                            out@,
                        ) + (seq![t@] + token_stream(lx@)));
                    }
                    out.push(t);
                },
                None => {
                    proof {
                        assert(tokens_view(out@) + lx.tokens() =~= tokens_view(out@));
                    }
                    break ;
                },
            }
        }
        out
    }
}

} // verus!
