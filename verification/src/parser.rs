//! The parser.
//!
//! Statements are parsed by recursive descent, expressions by precedence
//! climbing: parse one prefix expression, then, while the current token is
//! an infix operator binding tighter than the enclosing level, consume it
//! and parse its right operand one level up. All binary operators are
//! left-associative.
//!
//! The grammar is specified first as mathematical functions over the token
//! sequence (`parse_program_rest`, `parse_stmt_rest`, `parse_expr_rest`,
//! ...), each taking the index of the first unconsumed token and returning
//! the parsed node and the index just after it, or a structured error. The
//! executable `Parser` is proved to return exactly what these functions
//! say, on every input. A parse fails on the first syntactic anomaly: the
//! error carries what was expected and the token actually found, with its
//! row and column; there is no multi-error recovery.

use vstd::prelude::*;

use crate::ast::{stmt_view, stmts_view, SpecExpr, SpecStmt, AST, Expr, ExprKind, Stmt, StmtKind};
use crate::lexer::{token_stream, LexState, Lexer};
use crate::token::{SpecToken, Token, TokenName};

verus! {

/// What a failed production was looking for: a specific token kind, or
/// any token that can start an expression.
#[derive(Clone, Copy, Debug, PartialEq, Eq, Structural)]
pub enum Expected {
    /// A specific token kind was required.
    Kind(TokenName),
    /// Any token that can start an expression was required.
    ExprStart,
}

/// Mathematical image of a parse failure: what was expected, and the
/// token actually found — `None` for end of input.
pub ghost struct SpecParseError {
    pub expected: Expected,
    pub found: Option<SpecToken>,
}

/// A structured parse failure: what the active production expected, and
/// the token actually found, with its position — `None` when the input
/// ended too early.
#[derive(Debug, PartialEq, Eq)]
pub struct ParseError {
    pub expected: Expected,
    pub found: Option<Token>,
}

impl View for ParseError {
    type V = SpecParseError;

    open spec fn view(&self) -> SpecParseError {
        SpecParseError {
            expected: self.expected,
            found: match self.found {
                Some(t) => Some(t@),
                None => None,
            },
        }
    }
}

/// The token at index `i`, or `None` past the end.
pub open spec fn tok_at(toks: Seq<SpecToken>, i: int) -> Option<SpecToken> {
    if 0 <= i < toks.len() {
        Some(toks[i])
    } else {
        None
    }
}

/// The failure of a production that expected `exp` and stopped at index `i`.
pub open spec fn fail_at(exp: Expected, toks: Seq<SpecToken>, i: int) -> SpecParseError {
    SpecParseError { expected: exp, found: tok_at(toks, i) }
}

/// The binding power of an infix operator, lowest to highest: `||` <
/// `&&` < `==` < relational < additive < multiplicative. Zero for every
/// token kind that is no infix operator, which no operand binds below.
pub open spec fn infix_prec(k: TokenName) -> int {
    match k {
        TokenName::Or => 1,
        TokenName::And => 2,
        TokenName::Eq => 3,
        TokenName::Lt => 4,
        TokenName::Lte => 4,
        TokenName::Gt => 4,
        TokenName::Gte => 4,
        TokenName::Add => 5,
        TokenName::Sub => 5,
        TokenName::Mul => 6,
        TokenName::Div => 6,
        _ => 0,
    }
}

/// The binding power of the prefix operators `!` and unary `-`: above
/// every infix level, so a prefix operator takes the tightest operand.
pub open spec fn prefix_prec() -> int {
    7
}

/// Parse one prefix expression starting at `i`: a literal or identifier
/// leaf, a call `name(argument)`, a prefix operator and its operand, a
/// parenthesised group, or an if-expression. Returns the node and the
/// index just after it.
///
/// The bounds checks before each recursive call cannot fail — see
/// `lemma_expr_progress` — and only keep the recursion well-founded.
pub open spec fn parse_prefix_rest(toks: Seq<SpecToken>, i: int) -> Result<
    (SpecExpr, int),
    SpecParseError,
>
    decreases toks.len() - i, 1int,
{
    if i < 0 || i >= toks.len() {
        Err(fail_at(Expected::ExprStart, toks, i))
    } else {
        let k = toks[i].kind;
        if k == TokenName::Int {
            Ok((SpecExpr::IntLiteral(toks[i].text), i + 1))
        } else if k == TokenName::Float {
            Ok((SpecExpr::FloatLiteral(toks[i].text), i + 1))
        } else if k == TokenName::Str {
            Ok((SpecExpr::StringLiteral(toks[i].text), i + 1))
        } else if k == TokenName::Ident {
            if i + 1 < toks.len() && toks[i + 1].kind == TokenName::Opr {
                match parse_expr_rest(toks, i + 2, 0) {
                    Ok((arg, j)) => if 0 <= j < toks.len() && toks[j].kind == TokenName::Cpr {
                        Ok((SpecExpr::Call(toks[i].text, Box::new(arg)), j + 1))
                    } else {
                        Err(fail_at(Expected::Kind(TokenName::Cpr), toks, j))
                    },
                    Err(e) => Err(e),
                }
            } else {
                Ok((SpecExpr::Ident(toks[i].text), i + 1))
            }
        } else if k == TokenName::Bang || k == TokenName::Sub {
            match parse_expr_rest(toks, i + 1, prefix_prec()) {
                Ok((inner, j)) => Ok((SpecExpr::Prefix(k, Box::new(inner)), j)),
                Err(e) => Err(e),
            }
        } else if k == TokenName::Opr {
            match parse_expr_rest(toks, i + 1, 0) {
                Ok((inner, j)) => if 0 <= j < toks.len() && toks[j].kind == TokenName::Cpr {
                    Ok((inner, j + 1))
                } else {
                    Err(fail_at(Expected::Kind(TokenName::Cpr), toks, j))
                },
                Err(e) => Err(e),
            }
        } else if k == TokenName::If {
            match parse_expr_rest(toks, i + 1, 0) {
                Ok((cond, j)) => if i < j && 0 <= j < toks.len() && toks[j].kind == TokenName::Osq {
                    match parse_block_rest(toks, j + 1) {
                        Ok((thn, j2)) => if 0 <= j2 < toks.len() && toks[j2].kind
                            == TokenName::Else {
                            if j2 + 1 < toks.len() && toks[j2 + 1].kind == TokenName::Osq {
                                if j2 + 2 > i {
                                    match parse_block_rest(toks, j2 + 2) {
                                        Ok((els, j3)) => Ok(
                                            (SpecExpr::If(Box::new(cond), thn, Some(els)), j3),
                                        ),
                                        Err(e) => Err(e),
                                    }
                                } else {
                                    Err(fail_at(Expected::Kind(TokenName::Osq), toks, j2 + 1))
                                }
                            } else {
                                Err(fail_at(Expected::Kind(TokenName::Osq), toks, j2 + 1))
                            }
                        } else {
                            Ok((SpecExpr::If(Box::new(cond), thn, None), j2))
                        },
                        Err(e) => Err(e),
                    }
                } else {
                    Err(fail_at(Expected::Kind(TokenName::Osq), toks, j))
                },
                Err(e) => Err(e),
            }
        } else {
            Err(fail_at(Expected::ExprStart, toks, i))
        }
    }
}

/// The climbing loop: with `left` already parsed and the scan at `i`,
/// while the current token is an infix operator whose binding power
/// exceeds `min_prec`, consume it, parse the right operand at that power
/// (which makes every operator left-associative), and fold the pair into
/// an `Infix` node.
///
/// The bounds checks before each recursive call cannot fail — see
/// `lemma_infix_progress` — and only keep the recursion well-founded.
pub open spec fn parse_infix_rest(
    toks: Seq<SpecToken>,
    left: SpecExpr,
    i: int,
    min_prec: int,
) -> Result<(SpecExpr, int), SpecParseError>
    decreases toks.len() - i, 3int,
{
    if 0 <= i < toks.len() && infix_prec(toks[i].kind) > min_prec {
        let op = toks[i].kind;
        match parse_expr_rest(toks, i + 1, infix_prec(op)) {
            Ok((right, j)) => if i < j <= toks.len() {
                parse_infix_rest(
                    toks,
                    SpecExpr::Infix(op, Box::new(left), Box::new(right)),
                    j,
                    min_prec,
                )
            } else {
                Ok((SpecExpr::Infix(op, Box::new(left), Box::new(right)), j))
            },
            Err(e) => Err(e),
        }
    } else {
        Ok((left, i))
    }
}

/// Parse one expression starting at `i`, at enclosing binding power
/// `min_prec`: one prefix expression, then the climbing loop.
pub open spec fn parse_expr_rest(toks: Seq<SpecToken>, i: int, min_prec: int) -> Result<
    (SpecExpr, int),
    SpecParseError,
>
    decreases toks.len() - i, 2int,
{
    match parse_prefix_rest(toks, i) {
        Ok((left, j)) => if i < j <= toks.len() {
            parse_infix_rest(toks, left, j, min_prec)
        } else {
            Ok((left, j))
        },
        Err(e) => Err(e),
    }
}

/// Parse the rest of a brace-delimited block, the opening brace already
/// consumed: statements up to the closing brace, which is consumed.
///
/// The bounds checks before each recursive call cannot fail — see
/// `lemma_block_progress` — and only keep the recursion well-founded.
pub open spec fn parse_block_rest(toks: Seq<SpecToken>, i: int) -> Result<
    (Seq<SpecStmt>, int),
    SpecParseError,
>
    decreases toks.len() - i, 5int,
{
    if i < 0 || i >= toks.len() {
        Err(fail_at(Expected::Kind(TokenName::Csq), toks, i))
    } else if toks[i].kind == TokenName::Csq {
        Ok((Seq::empty(), i + 1))
    } else {
        match parse_stmt_rest(toks, i) {
            Ok((st, j)) => if i < j <= toks.len() {
                match parse_block_rest(toks, j) {
                    Ok((rest, j2)) => Ok((seq![st] + rest, j2)),
                    Err(e) => Err(e),
                }
            } else {
                Err(fail_at(Expected::Kind(TokenName::Csq), toks, j))
            },
            Err(e) => Err(e),
        }
    }
}

/// Parse one statement starting at `i`, dispatched on the current token:
/// `let name = expression ;`, `return expression ;`, or an expression
/// statement with an optional trailing semicolon (if-expressions included).
pub open spec fn parse_stmt_rest(toks: Seq<SpecToken>, i: int) -> Result<
    (SpecStmt, int),
    SpecParseError,
>
    decreases toks.len() - i, 4int,
{
    if i < 0 || i >= toks.len() {
        Err(fail_at(Expected::ExprStart, toks, i))
    } else if toks[i].kind == TokenName::Let {
        if i + 1 < toks.len() && toks[i + 1].kind == TokenName::Ident {
            if i + 2 < toks.len() && toks[i + 2].kind == TokenName::Assign {
                match parse_expr_rest(toks, i + 3, 0) {
                    Ok((value, j)) => if 0 <= j < toks.len() && toks[j].kind == TokenName::Semi {
                        Ok((SpecStmt::Let(toks[i + 1].text, value), j + 1))
                    } else {
                        Err(fail_at(Expected::Kind(TokenName::Semi), toks, j))
                    },
                    Err(e) => Err(e),
                }
            } else {
                Err(fail_at(Expected::Kind(TokenName::Assign), toks, i + 2))
            }
        } else {
            Err(fail_at(Expected::Kind(TokenName::Ident), toks, i + 1))
        }
    } else if toks[i].kind == TokenName::Return {
        match parse_expr_rest(toks, i + 1, 0) {
            Ok((value, j)) => if 0 <= j < toks.len() && toks[j].kind == TokenName::Semi {
                Ok((SpecStmt::Return(value), j + 1))
            } else {
                Err(fail_at(Expected::Kind(TokenName::Semi), toks, j))
            },
            Err(e) => Err(e),
        }
    } else {
        match parse_expr_rest(toks, i, 0) {
            Ok((value, j)) => if 0 <= j < toks.len() && toks[j].kind == TokenName::Semi {
                Ok((SpecStmt::ExprStmt(value), j + 1))
            } else {
                Ok((SpecStmt::ExprStmt(value), j))
            },
            Err(e) => Err(e),
        }
    }
}

/// Parse the top-level program from `i` to the end of the token sequence:
/// statements in source order. The first failure aborts the whole parse.
///
/// The bounds checks before each recursive call cannot fail — see
/// `lemma_stmt_progress` — and only keep the recursion well-founded.
pub open spec fn parse_program_rest(toks: Seq<SpecToken>, i: int) -> Result<
    Seq<SpecStmt>,
    SpecParseError,
>
    decreases toks.len() - i, 6int,
{
    if i < 0 || i >= toks.len() {
        Ok(Seq::empty())
    } else {
        match parse_stmt_rest(toks, i) {
            Ok((st, j)) => if i < j <= toks.len() {
                match parse_program_rest(toks, j) {
                    Ok(rest) => Ok(seq![st] + rest),
                    Err(e) => Err(e),
                }
            } else {
                Ok(seq![st])
            },
            Err(e) => Err(e),
        }
    }
}

/// The program that a source text parses to: the token stream of the
/// text, parsed from its start.
pub open spec fn parse_program(text: Seq<char>) -> Result<Seq<SpecStmt>, SpecParseError> {
    parse_program_rest(token_stream(LexState { text, pos: 0, row: 1, col: 1 }), 0)
}

/// A successful prefix parse consumes at least one token and stops inside
/// the sequence, so the guards in `parse_prefix_rest` never take their
/// failure branch.
pub proof fn lemma_prefix_progress(toks: Seq<SpecToken>, i: int)
    ensures
        parse_prefix_rest(toks, i) matches Ok((e, j)) ==> i < j <= toks.len(),
    decreases toks.len() - i, 1int,
{
    if 0 <= i < toks.len() {
        let k = toks[i].kind;
        if k == TokenName::Ident {
            if i + 1 < toks.len() && toks[i + 1].kind == TokenName::Opr {
                lemma_expr_progress(toks, i + 2, 0);
            }
        } else if k == TokenName::Bang || k == TokenName::Sub {
            lemma_expr_progress(toks, i + 1, prefix_prec());
        } else if k == TokenName::Opr {
            lemma_expr_progress(toks, i + 1, 0);
        } else if k == TokenName::If {
            lemma_expr_progress(toks, i + 1, 0);
            match parse_expr_rest(toks, i + 1, 0) {
                Ok((cond, j)) => {
                    if i < j && 0 <= j < toks.len() && toks[j].kind == TokenName::Osq {
                        lemma_block_progress(toks, j + 1);
                        match parse_block_rest(toks, j + 1) {
                            Ok((thn, j2)) => {
                                if 0 <= j2 < toks.len() && toks[j2].kind == TokenName::Else {
                                    if j2 + 1 < toks.len() && toks[j2 + 1].kind
                                        == TokenName::Osq {
                                        lemma_block_progress(toks, j2 + 2);
                                    }
                                }
                            },
                            Err(_) => {},
                        }
                    }
                },
                Err(_) => {},
            }
        }
    }
}

/// The climbing loop never moves backwards and stops inside the sequence.
pub proof fn lemma_infix_progress(toks: Seq<SpecToken>, left: SpecExpr, i: int, min_prec: int)
    requires
        0 <= i <= toks.len(),
    ensures
        parse_infix_rest(toks, left, i, min_prec) matches Ok((e, j)) ==> i <= j <= toks.len(),
    decreases toks.len() - i, 3int,
{
    if 0 <= i < toks.len() && infix_prec(toks[i].kind) > min_prec {
        let op = toks[i].kind;
        lemma_expr_progress(toks, i + 1, infix_prec(op));
        match parse_expr_rest(toks, i + 1, infix_prec(op)) {
            Ok((right, j)) => {
                if i < j <= toks.len() {
                    lemma_infix_progress(
                        toks,
                        SpecExpr::Infix(op, Box::new(left), Box::new(right)),
                        j,
                        min_prec,
                    );
                }
            },
            Err(_) => {},
        }
    }
}

/// A successful expression parse consumes at least one token and stops
/// inside the sequence, so the guards in `parse_expr_rest` and
/// `parse_infix_rest` never take their failure branch.
pub proof fn lemma_expr_progress(toks: Seq<SpecToken>, i: int, min_prec: int)
    ensures
        parse_expr_rest(toks, i, min_prec) matches Ok((e, j)) ==> i < j <= toks.len(),
    decreases toks.len() - i, 2int,
{
    lemma_prefix_progress(toks, i);
    match parse_prefix_rest(toks, i) {
        Ok((left, j)) => {
            if i < j <= toks.len() {
                lemma_infix_progress(toks, left, j, min_prec);
            }
        },
        Err(_) => {},
    }
}

/// A successful block parse consumes at least the closing brace and stops
/// inside the sequence.
pub proof fn lemma_block_progress(toks: Seq<SpecToken>, i: int)
    ensures
        parse_block_rest(toks, i) matches Ok((ss, j)) ==> i < j <= toks.len(),
    decreases toks.len() - i, 5int,
{
    if 0 <= i < toks.len() && toks[i].kind != TokenName::Csq {
        lemma_stmt_progress(toks, i);
        match parse_stmt_rest(toks, i) {
            Ok((st, j)) => {
                if i < j <= toks.len() {
                    lemma_block_progress(toks, j);
                }
            },
            Err(_) => {},
        }
    }
}

/// A successful statement parse consumes at least one token and stops
/// inside the sequence, so the guards in `parse_program_rest` and
/// `parse_block_rest` never take their failure branch.
pub proof fn lemma_stmt_progress(toks: Seq<SpecToken>, i: int)
    ensures
        parse_stmt_rest(toks, i) matches Ok((st, j)) ==> i < j <= toks.len(),
    decreases toks.len() - i, 4int,
{
    if 0 <= i < toks.len() {
        if toks[i].kind == TokenName::Let {
            if i + 1 < toks.len() && toks[i + 1].kind == TokenName::Ident && i + 2 < toks.len()
                && toks[i + 2].kind == TokenName::Assign {
                lemma_expr_progress(toks, i + 3, 0);
            }
        } else if toks[i].kind == TokenName::Return {
            lemma_expr_progress(toks, i + 1, 0);
        } else {
            lemma_expr_progress(toks, i, 0);
        }
    }
}

/// The binding power of an infix operator, executably.
fn infix_prec_of(k: TokenName) -> (p: u8)
    ensures
        p as int == infix_prec(k),
{
    match k {
        TokenName::Or => 1,
        TokenName::And => 2,
        TokenName::Eq => 3,
        TokenName::Lt => 4,
        TokenName::Lte => 4,
        TokenName::Gt => 4,
        TokenName::Gte => 4,
        TokenName::Add => 5,
        TokenName::Sub => 5,
        TokenName::Mul => 6,
        TokenName::Div => 6,
        _ => 0,
    }
}

/// The parser: it owns its tokenizer and a two-token cursor, `curr` being
/// the first unconsumed token and `peek` the one after it. `read_token` is
/// the only way the cursor moves. The ghost fields carry the full token
/// sequence of the source and the cursor's index into it; the cursor and
/// the tokenizer are exact images of that index, which is what `wf` says.
pub struct Parser {
    lexer: Lexer,
    curr: Option<Token>,
    peek: Option<Token>,
    toks: Ghost<Seq<SpecToken>>,
    idx: Ghost<int>,
}

impl Parser {
    /// The token sequence of the whole source text.
    pub closed spec fn tokens(&self) -> Seq<SpecToken> {
        self.toks@
    }

    /// The index of the first unconsumed token.
    pub closed spec fn cursor(&self) -> int {
        self.idx@
    }

    /// The parser's invariant: `curr` is the token at the cursor (or
    /// absent at the end), `peek` the one after it, and the tokenizer
    /// holds exactly the tokens after those two.
    pub closed spec fn wf(&self) -> bool {
        &&& self.lexer.wf()
        &&& 0 <= self.idx@ <= self.toks@.len()
        &&& (match self.curr {
            Some(t) => self.idx@ < self.toks@.len() && t@ == self.toks@[self.idx@],
            None => self.idx@ == self.toks@.len(),
        })
        &&& (match self.peek {
            Some(t) => self.idx@ + 1 < self.toks@.len() && t@ == self.toks@[self.idx@ + 1],
            None => self.idx@ + 1 >= self.toks@.len(),
        })
        &&& self.lexer.tokens() == self.toks@.skip(
            if self.idx@ + 2 <= self.toks@.len() {
                self.idx@ + 2
            } else {
                self.toks@.len() as int
            },
        )
    }

    /// A parser over the token stream of `input`, with the cursor at the
    /// first token.
    pub fn new(input: &str) -> (r: Parser)
        requires
            input@.len() < usize::MAX,
        ensures
            r.wf(),
            r.cursor() == 0,
            r.tokens() == token_stream(LexState { text: input@, pos: 0, row: 1, col: 1 }),
    {
        let mut lexer = Lexer::new(input);
        let ghost toks = lexer.tokens();
        let curr = lexer.next_token();
        let peek = lexer.next_token();
        proof {
            if curr is Some {
                if peek is Some {
                    assert(toks =~= seq![curr->0@, peek->0@] + lexer.tokens());
                    assert(toks[0] == curr->0@);
                    assert(toks[1] == peek->0@);
                    assert(lexer.tokens() =~= toks.skip(2));
                } else {
                    assert(toks =~= seq![curr->0@]);
                    assert(lexer.tokens() =~= toks.skip(1));
                }
            } else {
                assert(toks =~= Seq::<SpecToken>::empty());
            }
            assert(toks.skip(0) =~= toks);
        }
        Parser { lexer, curr, peek, toks: Ghost(toks), idx: Ghost(0int) }
    }

    /// The only mutator of the cursor: hand out the current token, shift
    /// the lookahead into its place, and pull one more token from the
    /// tokenizer. At the end of the input it returns `None` and changes
    /// nothing.
    fn read_token(&mut self) -> (t: Option<Token>)
        requires
            old(self).wf(),
        ensures
            final(self).wf(),
            final(self).tokens() == old(self).tokens(),
            match t {
                Some(tok) => {
                    &&& old(self).cursor() < old(self).tokens().len()
                    &&& tok@ == old(self).tokens()[old(self).cursor()]
                    &&& final(self).cursor() == old(self).cursor() + 1
                },
                None => {
                    &&& old(self).cursor() == old(self).tokens().len()
                    &&& final(self).cursor() == old(self).cursor()
                },
            },
    {
        let t = self.curr.take();
        self.curr = self.peek.take();
        let nxt = self.lexer.next_token();
        self.peek = nxt;
        proof {
            let toks = self.toks@;
            let i = old(self).idx@;
            if t is Some {
                self.idx@ = i + 1;
                let k = if i + 2 <= toks.len() {
                    i + 2
                } else {
                    toks.len() as int
                };
                match &self.peek {
                    Some(x) => {
                        assert(toks.skip(k).len() > 0);
                        assert(k == i + 2);
                        assert(toks.skip(k)[0] == toks[k]);
                        assert(seq![x@].len() == 1);
                        assert((seq![x@] + self.lexer.tokens())[0] == x@);
                        assert(x@ == toks[i + 2]);
                        assert forall|m: int|
                            0 <= m < self.lexer.tokens().len() implies self.lexer.tokens()[m]
                            == toks[i + 3 + m] by {
                            assert((seq![x@] + self.lexer.tokens())[m + 1]
                                == self.lexer.tokens()[m]);
                            assert(toks.skip(k)[m + 1] == toks[k + m + 1]);
                        }
                        assert(self.lexer.tokens().len() == toks.len() - i - 3);
                        assert(self.lexer.tokens() =~= toks.skip(i + 3));
                    },
                    None => {
                        assert(toks.skip(k).len() == 0);
                        assert(k == toks.len());
                        assert(self.lexer.tokens() =~= toks.skip(toks.len() as int));
                    },
                }
            } else {
                assert(toks.skip(toks.len() as int).len() == 0);
                assert(self.lexer.tokens() =~= toks.skip(toks.len() as int));
            }
        }
        t
    }

    /// Require the current token to be of kind `k`: hand it out and move
    /// past it, or fail with `k` as the expected kind and the token
    /// actually found.
    fn expect(&mut self, k: TokenName) -> (r: Result<Token, ParseError>)
        requires
            old(self).wf(),
        ensures
            final(self).wf(),
            final(self).tokens() == old(self).tokens(),
            match r {
                Ok(t) => {
                    &&& old(self).cursor() < old(self).tokens().len()
                    &&& old(self).tokens()[old(self).cursor()].kind == k
                    &&& t@ == old(self).tokens()[old(self).cursor()]
                    &&& final(self).cursor() == old(self).cursor() + 1
                },
                Err(e) => {
                    &&& !(old(self).cursor() < old(self).tokens().len() && old(self).tokens()[old(
                        self,
                    ).cursor()].kind == k)
                    &&& e@ == fail_at(Expected::Kind(k), old(self).tokens(), old(self).cursor())
                },
            },
    {
        let ok = match &self.curr {
            Some(t) => t.kind == k,
            None => false,
        };
        if ok {
            let t = self.read_token().unwrap();
            Ok(t)
        } else {
            let found = self.read_token();
            Err(ParseError { expected: Expected::Kind(k), found })
        }
    }

    /// Parse one statement at the cursor, as `parse_stmt_rest` says.
    fn parse_stmt(&mut self) -> (r: Result<Stmt, ParseError>)
        requires
            old(self).wf(),
        ensures
            final(self).wf(),
            final(self).tokens() == old(self).tokens(),
            match parse_stmt_rest(old(self).tokens(), old(self).cursor()) {
                Ok((s, j)) => r matches Ok(stm) && stm@ == s && final(self).cursor() == j,
                Err(e) => r matches Err(pe) && pe@ == e,
            },
        decreases old(self).tokens().len() - old(self).cursor(), 4int,
    {
        let kind_opt = match &self.curr {
            Some(t) => Some(t.kind),
            None => None,
        };
        match kind_opt {
            None => Err(ParseError { expected: Expected::ExprStart, found: None }),
            Some(TokenName::Let) => self.parse_let_stmt(),
            Some(TokenName::Return) => self.parse_ret_stmt(),
            Some(_) => self.parse_expr_stmt(),
        }
    }

    /// Parse `let name = expression ;` at the cursor.
    fn parse_let_stmt(&mut self) -> (r: Result<Stmt, ParseError>)
        requires
            old(self).wf(),
            old(self).cursor() < old(self).tokens().len(),
            old(self).tokens()[old(self).cursor()].kind == TokenName::Let,
        ensures
            final(self).wf(),
            final(self).tokens() == old(self).tokens(),
            match parse_stmt_rest(old(self).tokens(), old(self).cursor()) {
                Ok((s, j)) => r matches Ok(stm) && stm@ == s && final(self).cursor() == j,
                Err(e) => r matches Err(pe) && pe@ == e,
            },
        decreases old(self).tokens().len() - old(self).cursor(), 3int,
    {
        let _ = self.read_token();
        let name_tok = match self.expect(TokenName::Ident) {
            Ok(t) => t,
            Err(e) => {
                return Err(e);
            },
        };
        if let Err(e) = self.expect(TokenName::Assign) {
            return Err(e);
        }
        let value = match self.parse_expr(0) {
            Ok(v) => v,
            Err(e) => {
                return Err(e);
            },
        };
        if let Err(e) = self.expect(TokenName::Semi) {
            return Err(e);
        }
        Ok(Stmt { kind: StmtKind::Let(name_tok.value, value) })
    }

    /// Parse `return expression ;` at the cursor.
    fn parse_ret_stmt(&mut self) -> (r: Result<Stmt, ParseError>)
        requires
            old(self).wf(),
            old(self).cursor() < old(self).tokens().len(),
            old(self).tokens()[old(self).cursor()].kind == TokenName::Return,
        ensures
            final(self).wf(),
            final(self).tokens() == old(self).tokens(),
            match parse_stmt_rest(old(self).tokens(), old(self).cursor()) {
                Ok((s, j)) => r matches Ok(stm) && stm@ == s && final(self).cursor() == j,
                Err(e) => r matches Err(pe) && pe@ == e,
            },
        decreases old(self).tokens().len() - old(self).cursor(), 3int,
    {
        let _ = self.read_token();
        let value = match self.parse_expr(0) {
            Ok(v) => v,
            Err(e) => {
                return Err(e);
            },
        };
        if let Err(e) = self.expect(TokenName::Semi) {
            return Err(e);
        }
        Ok(Stmt { kind: StmtKind::Return(value) })
    }

    /// Parse an expression statement at the cursor, consuming an optional
    /// trailing semicolon.
    fn parse_expr_stmt(&mut self) -> (r: Result<Stmt, ParseError>)
        requires
            old(self).wf(),
            old(self).cursor() < old(self).tokens().len(),
            old(self).tokens()[old(self).cursor()].kind != TokenName::Let,
            old(self).tokens()[old(self).cursor()].kind != TokenName::Return,
        ensures
            final(self).wf(),
            final(self).tokens() == old(self).tokens(),
            match parse_stmt_rest(old(self).tokens(), old(self).cursor()) {
                Ok((s, j)) => r matches Ok(stm) && stm@ == s && final(self).cursor() == j,
                Err(e) => r matches Err(pe) && pe@ == e,
            },
        decreases old(self).tokens().len() - old(self).cursor(), 3int,
    {
        let value = match self.parse_expr(0) {
            Ok(v) => v,
            Err(e) => {
                return Err(e);
            },
        };
        let semi = match &self.curr {
            Some(t) => t.kind == TokenName::Semi,
            None => false,
        };
        if semi {
            let _ = self.read_token();
        }
        Ok(Stmt { kind: StmtKind::ExprStmt(value) })
    }

    /// Parse one expression at the cursor, at enclosing binding power
    /// `min_prec`, as `parse_expr_rest` says.
    fn parse_expr(&mut self, min_prec: u8) -> (r: Result<Expr, ParseError>)
        requires
            old(self).wf(),
        ensures
            final(self).wf(),
            final(self).tokens() == old(self).tokens(),
            match parse_expr_rest(old(self).tokens(), old(self).cursor(), min_prec as int) {
                Ok((e, j)) => r matches Ok(ex) && ex@ == e && final(self).cursor() == j,
                Err(pe) => r matches Err(x) && x@ == pe,
            },
        decreases old(self).tokens().len() - old(self).cursor(), 2int,
    {
        let left = match self.parse_prefix_expr() {
            Ok(e) => e,
            Err(e) => {
                return Err(e);
            },
        };
        proof {
            lemma_prefix_progress(self.toks@, old(self).cursor());
        }
        self.parse_infix_expr(left, min_prec)
    }

    /// The climbing loop, as `parse_infix_rest` says: fold qualifying
    /// infix operators and their right operands into the left operand.
    fn parse_infix_expr(&mut self, left: Expr, min_prec: u8) -> (r: Result<Expr, ParseError>)
        requires
            old(self).wf(),
        ensures
            final(self).wf(),
            final(self).tokens() == old(self).tokens(),
            match parse_infix_rest(
                old(self).tokens(),
                left@,
                old(self).cursor(),
                min_prec as int,
            ) {
                Ok((e, j)) => r matches Ok(ex) && ex@ == e && final(self).cursor() == j,
                Err(pe) => r matches Err(x) && x@ == pe,
            },
        decreases old(self).tokens().len() - old(self).cursor(), 3int,
    {
        let ghost toks = self.toks@;
        let ghost cc = self.idx@;
        let op_opt = match &self.curr {
            Some(t) => Some(t.kind),
            None => None,
        };
        let op = match op_opt {
            Some(k) => k,
            None => {
                return Ok(left);
            },
        };
        let p = infix_prec_of(op);
        if p > min_prec {
            let _ = self.read_token();
            let right = match self.parse_expr(p) {
                Ok(e) => e,
                Err(e) => {
                    return Err(e);
                },
            };
            proof {
                lemma_expr_progress(toks, cc + 1, p as int);
            }
            let folded = Expr { kind: ExprKind::Infix(op, Box::new(left), Box::new(right)) };
            self.parse_infix_expr(folded, min_prec)
        } else {
            Ok(left)
        }
    }

    /// Parse one prefix expression at the cursor, as `parse_prefix_rest`
    /// says: a leaf, a call, a prefix operator and its operand, a group,
    /// or an if-expression.
    fn parse_prefix_expr(&mut self) -> (r: Result<Expr, ParseError>)
        requires
            old(self).wf(),
        ensures
            final(self).wf(),
            final(self).tokens() == old(self).tokens(),
            match parse_prefix_rest(old(self).tokens(), old(self).cursor()) {
                Ok((e, j)) => r matches Ok(ex) && ex@ == e && final(self).cursor() == j,
                Err(pe) => r matches Err(x) && x@ == pe,
            },
        decreases old(self).tokens().len() - old(self).cursor(), 1int,
    {
        let kind_opt = match &self.curr {
            Some(t) => Some(t.kind),
            None => None,
        };
        let k = match kind_opt {
            Some(k) => k,
            None => {
                return Err(ParseError { expected: Expected::ExprStart, found: None });
            },
        };
        match k {
            TokenName::Int => {
                let t = self.read_token().unwrap();
                Ok(Expr { kind: ExprKind::IntLiteral(t.value) })
            },
            TokenName::Float => {
                let t = self.read_token().unwrap();
                Ok(Expr { kind: ExprKind::FloatLiteral(t.value) })
            },
            TokenName::Str => {
                let t = self.read_token().unwrap();
                Ok(Expr { kind: ExprKind::StringLiteral(t.value) })
            },
            TokenName::Ident => {
                let is_call = match &self.peek {
                    Some(p) => p.kind == TokenName::Opr,
                    None => false,
                };
                if is_call {
                    let name_tok = self.read_token().unwrap();
                    let _ = self.read_token();
                    let arg = match self.parse_expr(0) {
                        Ok(e) => e,
                        Err(e) => {
                            return Err(e);
                        },
                    };
                    if let Err(e) = self.expect(TokenName::Cpr) {
                        return Err(e);
                    }
                    Ok(Expr { kind: ExprKind::Call(name_tok.value, Box::new(arg)) })
                } else {
                    let t = self.read_token().unwrap();
                    Ok(Expr { kind: ExprKind::Ident(t.value) })
                }
            },
            TokenName::Bang | TokenName::Sub => {
                let _ = self.read_token();
                let inner = match self.parse_expr(7) {
                    Ok(e) => e,
                    Err(e) => {
                        return Err(e);
                    },
                };
                Ok(Expr { kind: ExprKind::Prefix(k, Box::new(inner)) })
            },
            TokenName::Opr => {
                let _ = self.read_token();
                let inner = match self.parse_expr(0) {
                    Ok(e) => e,
                    Err(e) => {
                        return Err(e);
                    },
                };
                if let Err(e) = self.expect(TokenName::Cpr) {
                    return Err(e);
                }
                Ok(inner)
            },
            TokenName::If => self.parse_if_expr(),
            _ => {
                let found = self.read_token();
                Err(ParseError { expected: Expected::ExprStart, found })
            },
        }
    }

    /// Parse an if-expression at the cursor: `if condition { block }`,
    /// optionally `else { block }`. The condition needs no parentheses.
    fn parse_if_expr(&mut self) -> (r: Result<Expr, ParseError>)
        requires
            old(self).wf(),
            old(self).cursor() < old(self).tokens().len(),
            old(self).tokens()[old(self).cursor()].kind == TokenName::If,
        ensures
            final(self).wf(),
            final(self).tokens() == old(self).tokens(),
            match parse_prefix_rest(old(self).tokens(), old(self).cursor()) {
                Ok((e, j)) => r matches Ok(ex) && ex@ == e && final(self).cursor() == j,
                Err(pe) => r matches Err(x) && x@ == pe,
            },
        decreases old(self).tokens().len() - old(self).cursor(), 0int,
    {
        let ghost toks = self.toks@;
        let ghost i = self.idx@;
        let _ = self.read_token();
        let cond = match self.parse_expr(0) {
            Ok(e) => e,
            Err(e) => {
                return Err(e);
            },
        };
        proof {
            lemma_expr_progress(toks, i + 1, 0);
        }
        if let Err(e) = self.expect(TokenName::Osq) {
            return Err(e);
        }
        let ghost jb = self.idx@;
        let thn = match self.parse_block() {
            Ok(v) => v,
            Err(e) => {
                return Err(e);
            },
        };
        proof {
            lemma_block_progress(toks, jb);
        }
        let has_else = match &self.curr {
            Some(t) => t.kind == TokenName::Else,
            None => false,
        };
        if has_else {
            let _ = self.read_token();
            if let Err(e) = self.expect(TokenName::Osq) {
                return Err(e);
            }
            let els = match self.parse_block() {
                Ok(v) => v,
                Err(e) => {
                    return Err(e);
                },
            };
            Ok(Expr { kind: ExprKind::If(Box::new(cond), thn, Some(els)) })
        } else {
            Ok(Expr { kind: ExprKind::If(Box::new(cond), thn, None) })
        }
    }

    /// Parse the rest of a brace-delimited block, the opening brace
    /// already consumed, as `parse_block_rest` says.
    fn parse_block(&mut self) -> (r: Result<Vec<Stmt>, ParseError>)
        requires
            old(self).wf(),
        ensures
            final(self).wf(),
            final(self).tokens() == old(self).tokens(),
            match parse_block_rest(old(self).tokens(), old(self).cursor()) {
                Ok((ss, j)) => r matches Ok(v) && stmts_view(v@) == ss && final(self).cursor()
                    == j,
                Err(pe) => r matches Err(x) && x@ == pe,
            },
        decreases old(self).tokens().len() - old(self).cursor(), 5int,
    {
        let ghost toks = self.toks@;
        let ghost i0 = self.idx@;
        let mut out: Vec<Stmt> = Vec::new();
        loop
            invariant_except_break
                parse_block_rest(toks, i0) == (match parse_block_rest(toks, self.cursor()) {
                    Ok((rest, j)) => Ok::<(Seq<SpecStmt>, int), SpecParseError>(
                        (stmts_view(out@) + rest, j),
                    ),
                    Err(e) => Err::<(Seq<SpecStmt>, int), SpecParseError>(e),
                }),
            invariant
                self.wf(),
                toks == old(self).tokens(),
                i0 == old(self).cursor(),
                self.tokens() == toks,
                i0 <= self.cursor() <= toks.len(),
            ensures
                self.wf(),
                self.tokens() == toks,
                parse_block_rest(toks, i0) == Ok::<(Seq<SpecStmt>, int), SpecParseError>(
                    (stmts_view(out@), self.cursor()),
                ),
            decreases toks.len() - self.cursor(),
        {
            let ghost cc = self.idx@;
            let kind_opt = match &self.curr {
                Some(t) => Some(t.kind),
                None => None,
            };
            match kind_opt {
                None => {
                    return Err(
                        ParseError { expected: Expected::Kind(TokenName::Csq), found: None },
                    );
                },
                Some(TokenName::Csq) => {
                    let _ = self.read_token();
                    proof {
                        assert(stmts_view(out@) + Seq::<SpecStmt>::empty() =~= stmts_view(out@));
                    }
                    break ;
                },
                Some(_) => {
                    let st = match self.parse_stmt() {
                        Ok(s) => s,
                        Err(e) => {
                            return Err(e);
                        },
                    };
                    proof {
                        lemma_stmt_progress(toks, cc);
                        crate::ast::lemma_stmts_view_push(out@, st);
                        match parse_block_rest(toks, self.idx@) {
                            Ok((rest2, j2)) => {
                                assert(stmts_view(out@).push(stmt_view(st)) + rest2 =~= stmts_view(
                                    out@,
                                ) + (seq![stmt_view(st)] + rest2));
                            },
                            Err(_) => {},
                        }
                    }
                    out.push(st);
                },
            }
        }
        Ok(out)
    }

    /// Parse the whole program: top-level statements to the end of the
    /// input, as `parse_program_rest` says. The first failure aborts the
    /// parse and comes back as the structured error.
    pub fn parse(&mut self) -> (r: Result<AST, ParseError>)
        requires
            old(self).wf(),
        ensures
            final(self).wf(),
            match parse_program_rest(old(self).tokens(), old(self).cursor()) {
                Ok(ss) => r matches Ok(ast) && ast@ == ss,
                Err(e) => r matches Err(pe) && pe@ == e,
            },
    {
        let ghost toks = self.toks@;
        let ghost i0 = self.idx@;
        let mut nodes: Vec<Stmt> = Vec::new();
        loop
            invariant_except_break
                parse_program_rest(toks, i0) == (match parse_program_rest(toks, self.cursor()) {
                    Ok(rest) => Ok::<Seq<SpecStmt>, SpecParseError>(stmts_view(nodes@) + rest),
                    Err(e) => Err::<Seq<SpecStmt>, SpecParseError>(e),
                }),
            invariant
                self.wf(),
                toks == old(self).tokens(),
                i0 == old(self).cursor(),
                self.tokens() == toks,
                i0 <= self.cursor() <= toks.len(),
            ensures
                self.wf(),
                parse_program_rest(toks, i0) == Ok::<Seq<SpecStmt>, SpecParseError>(
                    stmts_view(nodes@),
                ),
            decreases toks.len() - self.cursor(),
        {
            let ghost cc = self.idx@;
            if self.curr.is_none() {
                proof {
                    assert(stmts_view(nodes@) + Seq::<SpecStmt>::empty() =~= stmts_view(nodes@));
                }
                break ;
            }
            let st = match self.parse_stmt() {
                Ok(s) => s,
                Err(e) => {
                    return Err(e);
                },
            };
            proof {
                lemma_stmt_progress(toks, cc);
                crate::ast::lemma_stmts_view_push(nodes@, st);
                match parse_program_rest(toks, self.idx@) {
                    Ok(rest2) => {
                        assert(stmts_view(nodes@).push(stmt_view(st)) + rest2 =~= stmts_view(
                            nodes@,
                        ) + (seq![stmt_view(st)] + rest2));
                    },
                    Err(_) => {},
                }
            }
            nodes.push(st);
        }
        Ok(AST { nodes })
    }
}

/// Parse a source text: tokenize it and parse the token stream as a
/// program, as `parse_program` says.
pub fn parse_source(input: &str) -> (r: Result<AST, ParseError>)
    requires
        input@.len() < usize::MAX,
    ensures
        match parse_program(input@) {
            Ok(ss) => r matches Ok(ast) && ast@ == ss,
            Err(e) => r matches Err(pe) && pe@ == e,
        },
{
    let mut p = Parser::new(input);
    p.parse()
}

} // verus!
