//! The recursive-descent parser: token stream to abstract syntax tree.
//!
//! The meaning of parsing is fixed by the spec functions below, which map
//! the input text and the cursor of the lookahead token to the node built
//! and the cursor after it. The executable `Parser` is proved to build
//! exactly that tree. Parsing is total: every input yields a `Program`
//! node, malformed constructs degrading to `Error` nodes inline.

use vstd::prelude::*;
use crate::chars::str_eq_str;
use crate::lexer::{Lexer, Token, TokenV, next_token_of, token_fits, scan_ok, step_pos,
    lemma_token_bounds, lemma_error_stable};

verus! {

broadcast use vstd::std_specs::vec::group_vec_axioms, vstd::seq::group_seq_axioms;

/// A syntax construct. The tree is built once, bottom-up, and owned by
/// whoever receives the root `Program` node.
///
/// A float literal carries its source text, as its token does.
#[derive(Debug, PartialEq)]
pub enum AstNode {
    Program(Vec<AstNode>),
    Comment(String),
    Identifier(String),
    Integer(i64),
    Float(String),
    StrLit(String),
    Boolean(bool),
    Import(String),
    If(Box<AstNode>, Vec<AstNode>, Vec<AstNode>),
    Print(Vec<AstNode>),
    Error,
}

/// The mathematical form of a node: texts as character sequences, child
/// lists as sequences.
pub enum NodeV {
    Program(Seq<NodeV>),
    Comment(Seq<char>),
    Identifier(Seq<char>),
    Integer(int),
    Float(Seq<char>),
    StrLit(Seq<char>),
    Boolean(bool),
    Import(Seq<char>),
    If(Box<NodeV>, Seq<NodeV>, Seq<NodeV>),
    Print(Seq<NodeV>),
    Error,
}

/// The mathematical form of `n`.
pub open spec fn node_view(n: AstNode) -> NodeV
    decreases n, 1int,
{
    match n {
        AstNode::Program(v) => NodeV::Program(seq_views(v@)),
        AstNode::Comment(t) => NodeV::Comment(t@),
        AstNode::Identifier(t) => NodeV::Identifier(t@),
        AstNode::Integer(x) => NodeV::Integer(x as int),
        AstNode::Float(t) => NodeV::Float(t@),
        AstNode::StrLit(t) => NodeV::StrLit(t@),
        AstNode::Boolean(b) => NodeV::Boolean(b),
        AstNode::Import(t) => NodeV::Import(t@),
        AstNode::If(c, a, b) => NodeV::If(Box::new(node_view(*c)), seq_views(a@), seq_views(b@)),
        AstNode::Print(v) => NodeV::Print(seq_views(v@)),
        AstNode::Error => NodeV::Error,
    }
}

/// The views of the nodes of `s`, in order.
pub open spec fn seq_views(s: Seq<AstNode>) -> Seq<NodeV>
    decreases s, 0int,
{
    if s.len() == 0 {
        Seq::<NodeV>::empty()
    } else {
        seq_views(s.drop_last()).push(node_view(s.last()))
    }
}

/// The views of the nodes `v` holds, in order.
pub open spec fn nodes_view(v: Vec<AstNode>) -> Seq<NodeV> {
    seq_views(v@)
}

/// The node built by one `factor` production with its lookahead at `p`, and
/// the cursor of the lookahead after it.
///
/// Dispatch is purely on the lookahead's variant: a literal token becomes
/// its leaf node; `import` takes one following string literal, and any
/// other following token yields an `Error` node with `import` consumed;
/// `if` takes a condition expression, a then-branch running to `else` (or
/// to `Error`, should the input end first), and an else-branch running to
/// `Error`; `print` takes arguments while the lookahead begins one, so at
/// top level and in an else-branch it absorbs all remaining input, while
/// inside a then-branch it stops at the `else`. A lookahead that no
/// production begins yields an `Error` node, consuming the lookahead if it
/// is `Else` and nothing otherwise, so that parsing always makes progress
/// and always terminates.
pub open spec fn spec_factor(s: Seq<char>, p: int) -> (NodeV, int)
    decreases s.len() - p, 2int,
{
    let t = next_token_of(s, p);
    match t.0 {
        TokenV::Comment(txt) => (NodeV::Comment(txt), step_pos(s, p, t.1)),
        TokenV::Identifier(txt) => (NodeV::Identifier(txt), step_pos(s, p, t.1)),
        TokenV::Integer(v) => (NodeV::Integer(v), step_pos(s, p, t.1)),
        TokenV::Float(txt) => (NodeV::Float(txt), step_pos(s, p, t.1)),
        TokenV::StrLit(txt) => (NodeV::StrLit(txt), step_pos(s, p, t.1)),
        TokenV::Boolean(b) => (NodeV::Boolean(b), step_pos(s, p, t.1)),
        TokenV::Import => {
            let p1 = step_pos(s, p, t.1);
            let t2 = next_token_of(s, p1);
            match t2.0 {
                TokenV::StrLit(txt) => (NodeV::Import(txt), step_pos(s, p1, t2.1)),
                _ => (NodeV::Error, p1),
            }
        },
        TokenV::If => {
            let p1 = step_pos(s, p, t.1);
            let c = spec_factor(s, p1);
            let p2 = step_pos(s, p, c.1);
            let thens = spec_stmts_to_else(s, p2);
            let t3 = next_token_of(s, thens.1);
            let p3 = if t3.0 is Else {
                step_pos(s, p, t3.1)
            } else {
                step_pos(s, p, thens.1)
            };
            let elses = spec_stmts_to_error(s, p3);
            (NodeV::If(Box::new(c.0), thens.0, elses.0), elses.1)
        },
        TokenV::Print => {
            let p1 = step_pos(s, p, t.1);
            let args = spec_stmts_to_else(s, p1);
            (NodeV::Print(args.0), args.1)
        },
        TokenV::Else => (NodeV::Error, step_pos(s, p, t.1)),
        TokenV::Error => (NodeV::Error, p),
    }
}

/// The statements parsed while the lookahead begins one — until it is
/// `Else` or `Error` — and the cursor of that lookahead: the then-branch of
/// an `if`.
pub open spec fn spec_stmts_to_else(s: Seq<char>, p: int) -> (Seq<NodeV>, int)
    decreases s.len() - p, 3int,
{
    let t = next_token_of(s, p);
    if t.0 is Else || t.0 is Error {
        (Seq::<NodeV>::empty(), p)
    } else {
        let n = spec_factor(s, p);
        let rest = spec_stmts_to_else(s, step_pos(s, p, n.1));
        (seq![n.0] + rest.0, rest.1)
    }
}

/// The statements parsed until the lookahead is `Error`, and the cursor of
/// that lookahead: the whole program, an else-branch, or a print's
/// arguments — the three share one termination condition, so an `if` or
/// `print` absorbs everything to the end of the input.
pub open spec fn spec_stmts_to_error(s: Seq<char>, p: int) -> (Seq<NodeV>, int)
    decreases s.len() - p, 3int,
{
    let t = next_token_of(s, p);
    if t.0 is Error {
        (Seq::<NodeV>::empty(), p)
    } else {
        let n = spec_factor(s, p);
        let rest = spec_stmts_to_error(s, step_pos(s, p, n.1));
        (seq![n.0] + rest.0, rest.1)
    }
}

/// The tree parsed from the whole of `s`: every top-level statement until
/// the token stream yields `Error`, in a `Program` node. Every input
/// string, however malformed, parses to a `Program`.
pub open spec fn spec_parse(s: Seq<char>) -> NodeV {
    NodeV::Program(spec_stmts_to_error(s, 0).0)
}

/// One `factor` never moves the lookahead backward nor past the end, and
/// moves it strictly forward unless the lookahead is `Error`.
pub proof fn lemma_factor_bounds(s: Seq<char>, p: int)
    requires
        0 <= p <= s.len(),
    ensures
        p <= spec_factor(s, p).1 <= s.len(),
        !(next_token_of(s, p).0 is Error) ==> spec_factor(s, p).1 > p,
    decreases s.len() - p, 2int,
{
    lemma_token_bounds(s, p);
    let t = next_token_of(s, p);
    match t.0 {
        TokenV::Import => {
            let p1 = step_pos(s, p, t.1);
            lemma_token_bounds(s, p1);
        },
        TokenV::If => {
            let p1 = step_pos(s, p, t.1);
            lemma_factor_bounds(s, p1);
            let c = spec_factor(s, p1);
            let p2 = step_pos(s, p, c.1);
            lemma_stmts_to_else_bounds(s, p2);
            let thens = spec_stmts_to_else(s, p2);
            lemma_token_bounds(s, thens.1);
            let t3 = next_token_of(s, thens.1);
            let p3 = if t3.0 is Else {
                step_pos(s, p, t3.1)
            } else {
                step_pos(s, p, thens.1)
            };
            lemma_stmts_to_error_bounds(s, p3);
        },
        TokenV::Print => {
            let p1 = step_pos(s, p, t.1);
            lemma_stmts_to_else_bounds(s, p1);
        },
        _ => {},
    }
}

/// A then-branch never moves the lookahead backward nor past the end.
pub proof fn lemma_stmts_to_else_bounds(s: Seq<char>, p: int)
    requires
        0 <= p <= s.len(),
    ensures
        p <= spec_stmts_to_else(s, p).1 <= s.len(),
    decreases s.len() - p, 3int,
{
    let t = next_token_of(s, p);
    if !(t.0 is Else || t.0 is Error) {
        lemma_factor_bounds(s, p);
        let n = spec_factor(s, p);
        lemma_stmts_to_else_bounds(s, step_pos(s, p, n.1));
    }
}

/// A statement sequence never moves the lookahead backward nor past the
/// end.
pub proof fn lemma_stmts_to_error_bounds(s: Seq<char>, p: int)
    requires
        0 <= p <= s.len(),
    ensures
        p <= spec_stmts_to_error(s, p).1 <= s.len(),
    decreases s.len() - p, 3int,
{
    let t = next_token_of(s, p);
    if !(t.0 is Error) {
        lemma_factor_bounds(s, p);
        let n = spec_factor(s, p);
        lemma_stmts_to_error_bounds(s, step_pos(s, p, n.1));
    }
}

/// Appending a node appends its view.
proof fn lemma_views_push(v: Seq<AstNode>, n: AstNode)
    ensures
        seq_views(v.push(n)) == seq_views(v).push(node_view(n)),
{
    assert(v.push(n).drop_last() =~= v);
}

/// Whether two tokens are equal, variant and payload.
pub fn token_eq(a: &Token, b: &Token) -> (r: bool)
    ensures
        r == (a@ == b@),
{
    match (a, b) {
        (Token::Comment(x), Token::Comment(y)) => str_eq_str(x.as_str(), y.as_str()),
        (Token::Identifier(x), Token::Identifier(y)) => str_eq_str(x.as_str(), y.as_str()),
        (Token::Integer(x), Token::Integer(y)) => *x == *y,
        (Token::Float(x), Token::Float(y)) => str_eq_str(x.as_str(), y.as_str()),
        (Token::StrLit(x), Token::StrLit(y)) => str_eq_str(x.as_str(), y.as_str()),
        (Token::Boolean(x), Token::Boolean(y)) => *x == *y,
        (Token::Import, Token::Import) => true,
        (Token::If, Token::If) => true,
        (Token::Else, Token::Else) => true,
        (Token::Print, Token::Print) => true,
        (Token::Error, Token::Error) => true,
        _ => false,
    }
}

/// The parser: a one-token lookahead buffer over its own scanner, filled on
/// demand — tokenization is fully interleaved with parsing.
pub struct Parser {
    lexer: Lexer,
    current_token: Token,
    lookahead_at: Ghost<int>,
}

impl Parser {
    /// The input text.
    pub closed spec fn input(&self) -> Seq<char> {
        self.lexer.input()
    }

    /// The cursor of the lookahead token: what parsing from here returns is
    /// given by the spec functions at that cursor.
    pub closed spec fn at(&self) -> int {
        self.lookahead_at@
    }

    /// The lookahead is the token scanned at the cursor, and the scanner
    /// stands just past it.
    pub closed spec fn wf(&self) -> bool {
        &&& self.lexer.wf()
        &&& 0 <= self.at() <= self.input().len()
        &&& self.current_token@ == next_token_of(self.input(), self.at()).0
        &&& self.lexer.at() == next_token_of(self.input(), self.at()).1
    }

    /// A parser over `input`, its lookahead filled with the first token.
    pub fn new(input: &str) -> (p: Parser)
        requires
            token_fits(input@, 0),
        ensures
            p.wf(),
            p.input() == input@,
            p.at() == 0,
    {
        let mut lexer = Lexer::new(input);
        let current_token = lexer.get_next_token();
        Parser { lexer, current_token, lookahead_at: Ghost(0) }
    }

    /// Consumes the lookahead only if it equals `expected`, variant and
    /// payload; on a match the next token is pulled from the scanner, on a
    /// mismatch nothing happens — the grammar's deliberate best-effort
    /// consumption.
    pub fn eat(&mut self, expected: &Token)
        requires
            old(self).wf(),
            scan_ok(old(self).input(), old(self).at()),
        ensures
            final(self).wf(),
            final(self).input() == old(self).input(),
            scan_ok(final(self).input(), final(self).at()),
            next_token_of(old(self).input(), old(self).at()).0 == expected@ ==> final(self).at()
                == next_token_of(old(self).input(), old(self).at()).1,
            next_token_of(old(self).input(), old(self).at()).0 != expected@ ==> *final(self)
                == *old(self),
    {
        let ghost s = self.input();
        let ghost p = self.at();
        if token_eq(&self.current_token, expected) {
            proof {
                lemma_token_bounds(s, p);
                let e = next_token_of(s, p).1;
                if next_token_of(s, p).0 is Error {
                    lemma_error_stable(s, p);
                    assert(token_fits(s, e));
                    assert(scan_ok(s, e));
                } else {
                    assert(scan_ok(s, step_pos(s, p, e)));
                    assert(scan_ok(s, e));
                    assert(token_fits(s, e));
                }
            }
            let t = self.lexer.get_next_token();
            self.current_token = t;
            self.lookahead_at = Ghost(next_token_of(s, p).1);
        }
    }

    /// Whether the lookahead ends a statement sequence inside an `if`: the
    /// `else` keyword or the `Error` sentinel.
    fn at_block_end(&self) -> (b: bool)
        requires
            self.wf(),
        ensures
            b == (next_token_of(self.input(), self.at()).0 is Else || next_token_of(
                self.input(),
                self.at(),
            ).0 is Error),
    {
        matches!(self.current_token, Token::Else) || matches!(self.current_token, Token::Error)
    }

    /// Whether the lookahead is the `Error` sentinel, the shared terminator
    /// of the program, an else-branch and a print's arguments.
    fn at_error(&self) -> (b: bool)
        requires
            self.wf(),
        ensures
            b == (next_token_of(self.input(), self.at()).0 is Error),
    {
        matches!(self.current_token, Token::Error)
    }

    /// `comment := COMMENT` → a comment node carrying the token's text; any
    /// other lookahead yields an `Error` node and consumes nothing.
    pub fn parse_comment(&mut self) -> (n: AstNode)
        requires
            old(self).wf(),
            scan_ok(old(self).input(), old(self).at()),
        ensures
            final(self).wf(),
            final(self).input() == old(self).input(),
            scan_ok(final(self).input(), final(self).at()),
            ({
                let t = next_token_of(old(self).input(), old(self).at());
                match t.0 {
                    TokenV::Comment(txt) => node_view(n) == NodeV::Comment(txt) && final(self).at() == t.1,
                    _ => node_view(n) == NodeV::Error && final(self).at() == old(self).at(),
                }
            }),
    {
        let text_opt = match &self.current_token {
            Token::Comment(text) => Some(text.clone()),
            _ => None,
        };
        match text_opt {
            Some(text) => {
                self.eat(&Token::Comment(text.clone()));
                AstNode::Comment(text)
            },
            None => AstNode::Error,
        }
    }

    /// `identifier := IDENT` → an identifier node carrying the name; any
    /// other lookahead yields an `Error` node and consumes nothing.
    pub fn parse_identifier(&mut self) -> (n: AstNode)
        requires
            old(self).wf(),
            scan_ok(old(self).input(), old(self).at()),
        ensures
            final(self).wf(),
            final(self).input() == old(self).input(),
            scan_ok(final(self).input(), final(self).at()),
            ({
                let t = next_token_of(old(self).input(), old(self).at());
                match t.0 {
                    TokenV::Identifier(txt) => node_view(n) == NodeV::Identifier(txt) && final(self).at() == t.1,
                    _ => node_view(n) == NodeV::Error && final(self).at() == old(self).at(),
                }
            }),
    {
        let text_opt = match &self.current_token {
            Token::Identifier(text) => Some(text.clone()),
            _ => None,
        };
        match text_opt {
            Some(text) => {
                self.eat(&Token::Identifier(text.clone()));
                AstNode::Identifier(text)
            },
            None => AstNode::Error,
        }
    }

    /// `number := INTEGER | FLOAT` → the matching leaf node; any other
    /// lookahead yields an `Error` node and consumes nothing.
    pub fn parse_number(&mut self) -> (n: AstNode)
        requires
            old(self).wf(),
            scan_ok(old(self).input(), old(self).at()),
        ensures
            final(self).wf(),
            final(self).input() == old(self).input(),
            scan_ok(final(self).input(), final(self).at()),
            ({
                let t = next_token_of(old(self).input(), old(self).at());
                match t.0 {
                    TokenV::Integer(v) => node_view(n) == NodeV::Integer(v) && final(self).at()
                        == t.1,
                    TokenV::Float(txt) => node_view(n) == NodeV::Float(txt) && final(self).at()
                        == t.1,
                    _ => node_view(n) == NodeV::Error && final(self).at() == old(self).at(),
                }
            }),
    {
        let tok_opt = match &self.current_token {
            Token::Integer(x) => Some(Token::Integer(*x)),
            Token::Float(text) => Some(Token::Float(text.clone())),
            _ => None,
        };
        match tok_opt {
            Some(Token::Integer(x)) => {
                self.eat(&Token::Integer(x));
                AstNode::Integer(x)
            },
            Some(Token::Float(text)) => {
                self.eat(&Token::Float(text.clone()));
                AstNode::Float(text)
            },
            _ => AstNode::Error,
        }
    }

    /// `string := STRING` → a string node carrying the contents; any other
    /// lookahead yields an `Error` node and consumes nothing.
    pub fn parse_string(&mut self) -> (n: AstNode)
        requires
            old(self).wf(),
            scan_ok(old(self).input(), old(self).at()),
        ensures
            final(self).wf(),
            final(self).input() == old(self).input(),
            scan_ok(final(self).input(), final(self).at()),
            ({
                let t = next_token_of(old(self).input(), old(self).at());
                match t.0 {
                    TokenV::StrLit(txt) => node_view(n) == NodeV::StrLit(txt) && final(self).at() == t.1,
                    _ => node_view(n) == NodeV::Error && final(self).at() == old(self).at(),
                }
            }),
    {
        let text_opt = match &self.current_token {
            Token::StrLit(text) => Some(text.clone()),
            _ => None,
        };
        match text_opt {
            Some(text) => {
                self.eat(&Token::StrLit(text.clone()));
                AstNode::StrLit(text)
            },
            None => AstNode::Error,
        }
    }

    /// `boolean := BOOL` → a boolean node; any other lookahead yields an
    /// `Error` node and consumes nothing.
    pub fn parse_boolean(&mut self) -> (n: AstNode)
        requires
            old(self).wf(),
            scan_ok(old(self).input(), old(self).at()),
        ensures
            final(self).wf(),
            final(self).input() == old(self).input(),
            scan_ok(final(self).input(), final(self).at()),
            ({
                let t = next_token_of(old(self).input(), old(self).at());
                match t.0 {
                    TokenV::Boolean(b) => node_view(n) == NodeV::Boolean(b) && final(self).at()
                        == t.1,
                    _ => node_view(n) == NodeV::Error && final(self).at() == old(self).at(),
                }
            }),
    {
        let val_opt = match &self.current_token {
            Token::Boolean(b) => Some(*b),
            _ => None,
        };
        match val_opt {
            Some(b) => {
                self.eat(&Token::Boolean(b));
                AstNode::Boolean(b)
            },
            None => AstNode::Error,
        }
    }

    /// `import := 'import' STRING` → an import node carrying the module
    /// path; a following token that is no string yields an `Error` node
    /// with the `import` keyword already consumed.
    pub fn parse_import(&mut self) -> (n: AstNode)
        requires
            old(self).wf(),
            scan_ok(old(self).input(), old(self).at()),
        ensures
            final(self).wf(),
            final(self).input() == old(self).input(),
            scan_ok(final(self).input(), final(self).at()),
            ({
                let s = old(self).input();
                let a = old(self).at();
                let t = next_token_of(s, a);
                let p1 = if t.0 is Import {
                    t.1
                } else {
                    a
                };
                let t2 = next_token_of(s, p1);
                match t2.0 {
                    TokenV::StrLit(txt) => node_view(n) == NodeV::Import(txt) && final(self).at() == t2.1,
                    _ => node_view(n) == NodeV::Error && final(self).at() == p1,
                }
            }),
    {
        self.eat(&Token::Import);
        let text_opt = match &self.current_token {
            Token::StrLit(text) => Some(text.clone()),
            _ => None,
        };
        match text_opt {
            Some(text) => {
                self.eat(&Token::StrLit(text.clone()));
                AstNode::Import(text)
            },
            None => AstNode::Error,
        }
    }

    /// `factor := comment | identifier | number | string | boolean | import
    /// | if | print`, dispatched purely on the lookahead's variant; any
    /// other lookahead yields an `Error` node inline, never a parser abort.
    pub fn parse_factor(&mut self) -> (n: AstNode)
        requires
            old(self).wf(),
            scan_ok(old(self).input(), old(self).at()),
        ensures
            final(self).wf(),
            final(self).input() == old(self).input(),
            scan_ok(final(self).input(), final(self).at()),
            node_view(n) == spec_factor(old(self).input(), old(self).at()).0,
            final(self).at() == spec_factor(old(self).input(), old(self).at()).1,
        decreases old(self).input().len() - old(self).at(), 2int,
    {
        let ghost s = self.input();
        let ghost p = self.at();
        proof {
            lemma_token_bounds(s, p);
        }
        match &self.current_token {
            Token::Comment(_) => self.parse_comment(),
            Token::Identifier(_) => self.parse_identifier(),
            Token::Integer(_) => self.parse_number(),
            Token::Float(_) => self.parse_number(),
            Token::StrLit(_) => self.parse_string(),
            Token::Boolean(_) => self.parse_boolean(),
            Token::Import => {
                let n = self.parse_import();
                proof {
                    lemma_token_bounds(s, next_token_of(s, p).1);
                }
                n
            },
            Token::If => self.parse_if(),
            Token::Print => self.parse_print(),
            Token::Else => {
                self.eat(&Token::Else);
                AstNode::Error
            },
            Token::Error => AstNode::Error,
        }
    }

    /// `expression := factor`: the grammar has no operators, so an
    /// expression is one factor.
    pub fn parse_expression(&mut self) -> (n: AstNode)
        requires
            old(self).wf(),
            scan_ok(old(self).input(), old(self).at()),
        ensures
            final(self).wf(),
            final(self).input() == old(self).input(),
            scan_ok(final(self).input(), final(self).at()),
            node_view(n) == spec_factor(old(self).input(), old(self).at()).0,
            final(self).at() == spec_factor(old(self).input(), old(self).at()).1,
        decreases old(self).input().len() - old(self).at(), 3int,
    {
        self.parse_factor()
    }

    /// `if := 'if' expression expression* 'else' expression*` → an if node:
    /// one condition, a then-branch running to `else` (or to the `Error`
    /// sentinel, should the input end first), and an else-branch running to
    /// `Error` — the else-branch absorbs all remaining input.
    pub fn parse_if(&mut self) -> (n: AstNode)
        requires
            old(self).wf(),
            scan_ok(old(self).input(), old(self).at()),
            next_token_of(old(self).input(), old(self).at()).0 is If,
        ensures
            final(self).wf(),
            final(self).input() == old(self).input(),
            scan_ok(final(self).input(), final(self).at()),
            node_view(n) == spec_factor(old(self).input(), old(self).at()).0,
            final(self).at() == spec_factor(old(self).input(), old(self).at()).1,
        decreases old(self).input().len() - old(self).at(), 1int,
    {
        let ghost s = self.input();
        let ghost p = self.at();
        proof {
            lemma_token_bounds(s, p);
        }
        self.eat(&Token::If);
        let ghost p1 = self.at();
        let cond = self.parse_expression();
        proof {
            lemma_factor_bounds(s, p1);
        }
        let ghost p2 = self.at();
        let condition = Box::new(cond);
        let mut if_block: Vec<AstNode> = Vec::new();
        let mut else_block: Vec<AstNode> = Vec::new();
        while !self.at_block_end()
            invariant
                self.wf(),
                s == old(self).input(),
                p == old(self).at(),
                self.input() == s,
                scan_ok(s, self.at()),
                0 <= p2 <= self.at() <= s.len(),
                p < p2,
                spec_stmts_to_else(s, p2).0 == nodes_view(if_block) + spec_stmts_to_else(
                    s,
                    self.at(),
                ).0,
                spec_stmts_to_else(s, p2).1 == spec_stmts_to_else(s, self.at()).1,
            decreases s.len() - self.at(),
        {
            let ghost cur = self.at();
            let ghost acc = if_block@;
            let node = self.parse_expression();
            proof {
                lemma_factor_bounds(s, cur);
            }
            if_block.push(node);
            proof {
                lemma_views_push(acc, node);
                assert(seq_views(acc) + spec_stmts_to_else(s, cur).0 =~= seq_views(
                    acc.push(node),
                ) + spec_stmts_to_else(s, self.at()).0);
            }
        }
        proof {
            assert(spec_stmts_to_else(s, p2).0 =~= nodes_view(if_block));
            lemma_token_bounds(s, self.at());
        }
        self.eat(&Token::Else);
        let ghost p3 = self.at();
        while !self.at_error()
            invariant
                self.wf(),
                s == old(self).input(),
                p == old(self).at(),
                self.input() == s,
                scan_ok(s, self.at()),
                0 <= p3 <= self.at() <= s.len(),
                p < p3,
                spec_stmts_to_error(s, p3).0 == nodes_view(else_block) + spec_stmts_to_error(
                    s,
                    self.at(),
                ).0,
                spec_stmts_to_error(s, p3).1 == spec_stmts_to_error(s, self.at()).1,
            decreases s.len() - self.at(),
        {
            let ghost cur = self.at();
            let ghost acc = else_block@;
            let node = self.parse_expression();
            proof {
                lemma_factor_bounds(s, cur);
            }
            else_block.push(node);
            proof {
                lemma_views_push(acc, node);
                assert(seq_views(acc) + spec_stmts_to_error(s, cur).0 =~= seq_views(
                    acc.push(node),
                ) + spec_stmts_to_error(s, self.at()).0);
            }
        }
        proof {
            assert(spec_stmts_to_error(s, p3).0 =~= nodes_view(else_block));
        }
        AstNode::If(condition, if_block, else_block)
    }

    /// `print := 'print' expression*` → a print node taking arguments while
    /// the lookahead begins one — to the `else` that closes an enclosing
    /// then-branch, or to the `Error` sentinel: an unbracketed `print`
    /// anywhere else absorbs all remaining input.
    pub fn parse_print(&mut self) -> (n: AstNode)
        requires
            old(self).wf(),
            scan_ok(old(self).input(), old(self).at()),
            next_token_of(old(self).input(), old(self).at()).0 is Print,
        ensures
            final(self).wf(),
            final(self).input() == old(self).input(),
            scan_ok(final(self).input(), final(self).at()),
            node_view(n) == spec_factor(old(self).input(), old(self).at()).0,
            final(self).at() == spec_factor(old(self).input(), old(self).at()).1,
        decreases old(self).input().len() - old(self).at(), 1int,
    {
        let ghost s = self.input();
        let ghost p = self.at();
        proof {
            lemma_token_bounds(s, p);
        }
        self.eat(&Token::Print);
        let ghost p1 = self.at();
        let mut args: Vec<AstNode> = Vec::new();
        while !self.at_block_end()
            invariant
                self.wf(),
                s == old(self).input(),
                p == old(self).at(),
                self.input() == s,
                scan_ok(s, self.at()),
                0 <= p1 <= self.at() <= s.len(),
                p < p1,
                spec_stmts_to_else(s, p1).0 == nodes_view(args) + spec_stmts_to_else(
                    s,
                    self.at(),
                ).0,
                spec_stmts_to_else(s, p1).1 == spec_stmts_to_else(s, self.at()).1,
            decreases s.len() - self.at(),
        {
            let ghost cur = self.at();
            let ghost acc = args@;
            let node = self.parse_expression();
            proof {
                lemma_factor_bounds(s, cur);
            }
            args.push(node);
            proof {
                lemma_views_push(acc, node);
                assert(seq_views(acc) + spec_stmts_to_else(s, cur).0 =~= seq_views(
                    acc.push(node),
                ) + spec_stmts_to_else(s, self.at()).0);
            }
        }
        proof {
            assert(spec_stmts_to_else(s, p1).0 =~= nodes_view(args));
        }
        AstNode::Print(args)
    }

    /// `program := expression*` until the lookahead is the `Error`
    /// sentinel. Parsing always terminates and always returns a `Program`
    /// node, whatever the input.
    pub fn parse(&mut self) -> (n: AstNode)
        requires
            old(self).wf(),
            scan_ok(old(self).input(), old(self).at()),
        ensures
            final(self).wf(),
            final(self).input() == old(self).input(),
            node_view(n) == NodeV::Program(
                spec_stmts_to_error(old(self).input(), old(self).at()).0,
            ),
            final(self).at() == spec_stmts_to_error(old(self).input(), old(self).at()).1,
    {
        let ghost s = self.input();
        let ghost p0 = self.at();
        let mut program: Vec<AstNode> = Vec::new();
        while !self.at_error()
            invariant
                self.wf(),
                s == old(self).input(),
                p0 == old(self).at(),
                self.input() == s,
                scan_ok(s, self.at()),
                0 <= p0 <= self.at() <= s.len(),
                spec_stmts_to_error(s, p0).0 == nodes_view(program) + spec_stmts_to_error(
                    s,
                    self.at(),
                ).0,
                spec_stmts_to_error(s, p0).1 == spec_stmts_to_error(s, self.at()).1,
            decreases s.len() - self.at(),
        {
            let ghost cur = self.at();
            let ghost acc = program@;
            let node = self.parse_expression();
            proof {
                lemma_factor_bounds(s, cur);
            }
            program.push(node);
            proof {
                lemma_views_push(acc, node);
                assert(seq_views(acc) + spec_stmts_to_error(s, cur).0 =~= seq_views(
                    acc.push(node),
                ) + spec_stmts_to_error(s, self.at()).0);
            }
        }
        proof {
            assert(spec_stmts_to_error(s, p0).0 =~= nodes_view(program));
        }
        AstNode::Program(program)
    }
}

/// Parses a whole source text into its tree. The caller keeps away from the
/// fatal inputs, integer literals beyond `i64::MAX`, on which the run
/// cannot go on; `parse_source_checked` reports those instead of demanding
/// their absence.
pub fn parse_source(input: &str) -> (n: AstNode)
    requires
        scan_ok(input@, 0),
    ensures
        node_view(n) == spec_parse(input@),
{
    let mut parser = Parser::new(input);
    parser.parse()
}

/// Whether a whole scan of `input` stays clear of the fatal case: decides
/// `scan_ok` executably, by scanning.
pub fn scan_all_fits(input: &str) -> (b: bool)
    ensures
        b == scan_ok(input@, 0),
{
    let ghost s = input@;
    let mut lexer = Lexer::new(input);
    loop
        invariant
            s == input@,
            lexer.wf(),
            lexer.input() == s,
            scan_ok(s, 0) == scan_ok(s, lexer.at()),
        decreases s.len() - lexer.at(),
    {
        let ghost p = lexer.at();
        proof {
            lemma_token_bounds(s, p);
        }
        let r = lexer.get_next_token_checked();
        match r {
            None => {
                proof {
                    assert(!token_fits(s, p));
                    assert(!scan_ok(s, p));
                }
                return false;
            },
            Some(t) => {
                if matches!(t, Token::Error) {
                    proof {
                        assert(token_fits(s, p));
                        assert(scan_ok(s, p));
                    }
                    return true;
                }
                proof {
                    assert(scan_ok(s, p) == scan_ok(s, step_pos(s, p, next_token_of(s, p).1)));
                }
            },
        }
    }
}

/// Parses a whole source text, first deciding whether the scan stays clear
/// of the fatal case: `None` exactly when some integer literal among the
/// tokens does not fit `i64`.
pub fn parse_source_checked(input: &str) -> (r: Option<AstNode>)
    ensures
        scan_ok(input@, 0) ==> (r matches Some(n) && node_view(n) == spec_parse(input@)),
        !scan_ok(input@, 0) ==> r is None,
{
    if scan_all_fits(input) {
        let mut parser = Parser::new(input);
        Some(parser.parse())
    } else {
        None
    }
}

} // verus!
