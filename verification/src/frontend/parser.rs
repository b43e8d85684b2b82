//! The parser: tokens to a flat list of statements.
//!
//! Blocks are not nested in the list: a block is what stands between a
//! `BlockStart` and the `BlockEnd` that matches it. Every statement and
//! every expression carries the line and the file it was read from.

use vstd::prelude::*;
use crate::backend::built_ins::BuiltInFunctionList;
use crate::backend::table::Table;
use crate::common::io::IO;
use crate::common::number::Num;
use crate::common::pakhi_error::{PakhiErr, PakhiErrView};
use crate::common::platform::Platform;
use crate::common::text::{chars_of, chars_eq, clone_chars, str_eq, string_from_chars};
use crate::frontend::lexer::{tokenize, Token, TokenKind};

verus! {

/// A statement, with the line and the file it was read from.
#[derive(Debug, PartialEq)]
pub enum Stmt {
    Print(Expr, u32, String),
    PrintNoEOL(Expr, u32, String),
    Assignment(Assignment, u32, String),
    Expression(Expr, u32, String),
    BlockStart(u32, String),
    BlockEnd(u32, String),
    FuncDef(u32, String),
    Return(Expr, u32, String),
    If(Expr, u32, String),
    Loop(u32, String),
    Continue(u32, String),
    Break(u32, String),
    Else(u32, String),
    /// The end of the statements.
    EOS(u32, String),
}

/// A declaration of a variable, or an assignment to a variable or to an
/// element reached from it.
#[derive(Debug, PartialEq)]
pub struct Assignment {
    pub kind: AssignmentKind,
    pub var_name: Token,
    /// The index expressions of an assignment to an element of a list or a
    /// record; empty for an assignment to a variable.
    pub indexes: Vec<Expr>,
    pub init_value: Option<Expr>,
}

/// Whether an assignment declares its variable.
#[derive(Debug, PartialEq)]
pub enum AssignmentKind {
    FirstAssignment,
    Reassignment,
}

/// An expression, with the line and the file it was read from.
#[derive(Debug, PartialEq)]
pub enum Expr {
    Indexing(Box<Expr>, Box<Expr>, u32, String),
    Or(Or, u32, String),
    And(And, u32, String),
    Equality(Binary, u32, String),
    Comparison(Binary, u32, String),
    AddOrSub(Binary, u32, String),
    MulOrDivOrRemainder(Binary, u32, String),
    Unary(Unary, u32, String),
    Call(FunctionCall, u32, String),
    Primary(Primary, u32, String),
}

/// A literal, a variable, a list, a record or a group.
#[derive(Debug, PartialEq)]
pub enum Primary {
    Nil,
    Bool(bool),
    Num(Num),
    String(String),
    List(Vec<Expr>),
    /// The key expressions and the value expressions, pairwise.
    NamelessRecord((Vec<Expr>, Vec<Expr>)),
    Var(Token),
    Group(Box<Expr>),
}

/// `left | right`.
#[derive(Debug, PartialEq)]
pub struct Or {
    pub left: Box<Expr>,
    pub right: Box<Expr>,
}

/// `left & right`.
#[derive(Debug, PartialEq)]
pub struct And {
    pub left: Box<Expr>,
    pub right: Box<Expr>,
}

/// Two operands and the operator between them.
#[derive(Debug, PartialEq)]
pub struct Binary {
    pub operator: TokenKind,
    pub left: Box<Expr>,
    pub right: Box<Expr>,
}

/// An operator and its operand.
#[derive(Debug, PartialEq)]
pub struct Unary {
    pub operator: TokenKind,
    pub right: Box<Expr>,
}

/// A call: what is called, and the arguments.
#[derive(Debug, PartialEq)]
pub struct FunctionCall {
    pub expr: Box<Expr>,
    pub arguments: Vec<Expr>,
}

impl Stmt {
    /// The line the statement was read from.
    pub open spec fn line(&self) -> u32 {
        match self {
            Stmt::Print(_, l, _) => *l,
            Stmt::PrintNoEOL(_, l, _) => *l,
            Stmt::Assignment(_, l, _) => *l,
            Stmt::Expression(_, l, _) => *l,
            Stmt::BlockStart(l, _) => *l,
            Stmt::BlockEnd(l, _) => *l,
            Stmt::FuncDef(l, _) => *l,
            Stmt::Return(_, l, _) => *l,
            Stmt::If(_, l, _) => *l,
            Stmt::Loop(l, _) => *l,
            Stmt::Continue(l, _) => *l,
            Stmt::Break(l, _) => *l,
            Stmt::Else(l, _) => *l,
            Stmt::EOS(l, _) => *l,
        }
    }

    /// The file the statement was read from.
    pub open spec fn file(&self) -> Seq<char> {
        match self {
            Stmt::Print(_, _, f) => f@,
            Stmt::PrintNoEOL(_, _, f) => f@,
            Stmt::Assignment(_, _, f) => f@,
            Stmt::Expression(_, _, f) => f@,
            Stmt::BlockStart(_, f) => f@,
            Stmt::BlockEnd(_, f) => f@,
            Stmt::FuncDef(_, f) => f@,
            Stmt::Return(_, _, f) => f@,
            Stmt::If(_, _, f) => f@,
            Stmt::Loop(_, f) => f@,
            Stmt::Continue(_, f) => f@,
            Stmt::Break(_, f) => f@,
            Stmt::Else(_, f) => f@,
            Stmt::EOS(_, f) => f@,
        }
    }

    /// The line and the file the statement was read from.
    pub fn meta(&self) -> (r: (u32, String))
        ensures
            r.0 == self.line(),
            r.1@ == self.file(),
    {
        match self {
            Stmt::Print(_, l, f) => (*l, f.clone()),
            Stmt::PrintNoEOL(_, l, f) => (*l, f.clone()),
            Stmt::Assignment(_, l, f) => (*l, f.clone()),
            Stmt::Expression(_, l, f) => (*l, f.clone()),
            Stmt::BlockStart(l, f) => (*l, f.clone()),
            Stmt::BlockEnd(l, f) => (*l, f.clone()),
            Stmt::FuncDef(l, f) => (*l, f.clone()),
            Stmt::Return(_, l, f) => (*l, f.clone()),
            Stmt::If(_, l, f) => (*l, f.clone()),
            Stmt::Loop(l, f) => (*l, f.clone()),
            Stmt::Continue(l, f) => (*l, f.clone()),
            Stmt::Break(l, f) => (*l, f.clone()),
            Stmt::Else(l, f) => (*l, f.clone()),
            Stmt::EOS(l, f) => (*l, f.clone()),
        }
    }
}

impl Expr {
    /// The line the expression was read from.
    pub open spec fn line(&self) -> u32 {
        match self {
            Expr::Indexing(_, _, l, _) => *l,
            Expr::Or(_, l, _) => *l,
            Expr::And(_, l, _) => *l,
            Expr::Equality(_, l, _) => *l,
            Expr::Comparison(_, l, _) => *l,
            Expr::AddOrSub(_, l, _) => *l,
            Expr::MulOrDivOrRemainder(_, l, _) => *l,
            Expr::Unary(_, l, _) => *l,
            Expr::Call(_, l, _) => *l,
            Expr::Primary(_, l, _) => *l,
        }
    }

    /// The file the expression was read from.
    pub open spec fn file(&self) -> Seq<char> {
        match self {
            Expr::Indexing(_, _, _, f) => f@,
            Expr::Or(_, _, f) => f@,
            Expr::And(_, _, f) => f@,
            Expr::Equality(_, _, f) => f@,
            Expr::Comparison(_, _, f) => f@,
            Expr::AddOrSub(_, _, f) => f@,
            Expr::MulOrDivOrRemainder(_, _, f) => f@,
            Expr::Unary(_, _, f) => f@,
            Expr::Call(_, _, f) => f@,
            Expr::Primary(_, _, f) => f@,
        }
    }

    /// The line and the file the expression was read from.
    pub fn meta(&self) -> (r: (u32, String))
        ensures
            r.0 == self.line(),
            r.1@ == self.file(),
    {
        match self {
            Expr::Indexing(_, _, l, f) => (*l, f.clone()),
            Expr::Or(_, l, f) => (*l, f.clone()),
            Expr::And(_, l, f) => (*l, f.clone()),
            Expr::Equality(_, l, f) => (*l, f.clone()),
            Expr::Comparison(_, l, f) => (*l, f.clone()),
            Expr::AddOrSub(_, l, f) => (*l, f.clone()),
            Expr::MulOrDivOrRemainder(_, l, f) => (*l, f.clone()),
            Expr::Unary(_, l, f) => (*l, f.clone()),
            Expr::Call(_, l, f) => (*l, f.clone()),
            Expr::Primary(_, l, f) => (*l, f.clone()),
        }
    }
}

/// The literal that a token is, if it is one.
pub open spec fn literal_token(kind: TokenKind) -> Option<Primary> {
    match kind {
        TokenKind::Bool(b) => Some(Primary::Bool(b)),
        TokenKind::Num(n) => Some(Primary::Num(n)),
        TokenKind::String(s) => Some(Primary::String(s)),
        _ => None,
    }
}

/// Whether `e` is the literal `p`, read at `line` of `file`.
pub open spec fn is_literal(e: Expr, p: Primary, line: u32, file: Seq<char>) -> bool {
    e is Primary && e->Primary_1 == line && e->Primary_2@ == file && match (e->Primary_0, p) {
        (Primary::Bool(a), Primary::Bool(b)) => a == b,
        (Primary::Num(a), Primary::Num(b)) => a == b,
        (Primary::String(a), Primary::String(b)) => a@ == b@,
        _ => false,
    }
}

/// Whether a token of this kind behind an expression makes the expression
/// go on: an operator between two operands, or the `(` of a call.
pub open spec fn continues_expression(kind: TokenKind) -> bool {
    kind is ParenStart || kind is Or || kind is And || kind is NotEqual || kind is EqualEqual
        || kind is GreaterThan || kind is GreaterThanOrEqual || kind is LessThan
        || kind is LessThanOrEqual || kind is Plus || kind is Minus || kind is Multiply
        || kind is Division || kind is Remainder
}

/// The literal at `at`, where it is an expression of its own: a literal
/// token that nothing behind it continues.
pub open spec fn lone_literal(tokens: Seq<Token>, at: int) -> Option<Primary> {
    if 0 <= at < tokens.len() && (at + 1 >= tokens.len() || !continues_expression(
        tokens[at + 1].kind,
    )) {
        literal_token(tokens[at].kind)
    } else {
        None
    }
}

/// Whether `e` is the literal that stands alone at `at`.
pub open spec fn is_lone_literal(e: Expr, tokens: Seq<Token>, at: int) -> bool {
    is_literal(e, lone_literal(tokens, at)->0, tokens[at].line, tokens[at].src_file_path@)
}

/// Whether the token `t` reads as the token `u`.
pub open spec fn reads_as(t: Token, u: Token) -> bool {
    t.kind == u.kind && t.lexeme@ == u.lexeme@ && t.line == u.line && t.src_file_path@
        == u.src_file_path@
}

/// How many arguments stand from `at` on, where they are literals that
/// stand alone with a `,` between each two.
pub open spec fn literal_arguments(tokens: Seq<Token>, at: int) -> Option<nat>
    decreases tokens.len() - at,
{
    if lone_literal(tokens, at) is Some {
        if at + 1 < tokens.len() && tokens[at + 1].kind is Comma {
            match literal_arguments(tokens, at + 2) {
                Some(n) => Some(n + 1),
                None => None,
            }
        } else {
            Some(1)
        }
    } else {
        None
    }
}

/// Whether `e` is the variable that the token `t` names.
pub open spec fn is_variable(e: Expr, t: Token) -> bool {
    e is Primary && e->Primary_0 is Var && reads_as(e->Primary_0->Var_0, t) && e->Primary_1
        == t.line && e->Primary_2@ == t.src_file_path@
}

/// How many arguments the call at `at` has, where it is written as a name,
/// a `(`, and then either a `)` or literals that stand alone with a `,`
/// between each two.
pub open spec fn call_arguments(tokens: Seq<Token>, at: int) -> Option<nat> {
    if 0 <= at && at + 2 < tokens.len() && tokens[at].kind is Identifier && tokens[at
        + 1].kind is ParenStart {
        if tokens[at + 2].kind is ParenEnd {
            Some(0nat)
        } else {
            literal_arguments(tokens, at + 2)
        }
    } else {
        None
    }
}

/// The position behind the call at `at`: behind its `)`, or behind the
/// token that follows the last argument and is taken for the `)`.
pub open spec fn call_end(tokens: Seq<Token>, at: int) -> int {
    if call_arguments(tokens, at) == Some(0nat) {
        at + 3
    } else {
        at + 2 + 2 * call_arguments(tokens, at)->0
    }
}

/// Whether a call of a name with literal arguments stands at `at` as an
/// expression of its own: the token that closes it exists, and what
/// follows does not continue the expression.
pub open spec fn plain_call(tokens: Seq<Token>, at: int) -> bool {
    call_arguments(tokens, at) is Some && call_end(tokens, at) <= tokens.len() && (call_end(
        tokens,
        at,
    ) == tokens.len() || !continues_expression(tokens[call_end(tokens, at)].kind))
}

/// Whether `e` is the call that stands at `at`: the name, and the
/// arguments in their order, with the line and the file of the `(`.
pub open spec fn is_plain_call(e: Expr, tokens: Seq<Token>, at: int) -> bool {
    &&& e is Call
    &&& e->Call_1 == tokens[at + 1].line
    &&& e->Call_2@ == tokens[at + 1].src_file_path@
    &&& is_variable(*e->Call_0.expr, tokens[at])
    &&& e->Call_0.arguments@.len() == call_arguments(tokens, at)->0
    &&& forall|k: int|
        0 <= k < e->Call_0.arguments@.len() ==> is_lone_literal(
            #[trigger] e->Call_0.arguments@[k],
            tokens,
            at + 2 + 2 * k,
        )
}

/// The position that is `n` tokens behind `at`, or the largest position.
pub open spec fn moved_on(at: usize, n: nat) -> usize {
    if at + n > usize::MAX {
        usize::MAX
    } else {
        (at + n) as usize
    }
}

/// Whether `t` is what an import under the name `prepend` makes of the
/// token `lexed` of the module: the constant for the directory becomes a
/// string, and an identifier that names no built-in function gets the name
/// of the import and a `/` before it.
pub open spec fn imported_as(t: Token, lexed: Token, prepend: Seq<char>) -> bool {
    &&& t.line == lexed.line
    &&& if lexed.kind is Identifier && lexed.lexeme@ == "_ডাইরেক্টরি"@ {
        t.kind is String
    } else {
        t.kind == lexed.kind && t.lexeme@ == if lexed.kind is Identifier
            && !crate::backend::built_ins::built_in_names().contains(lexed.lexeme@) {
            prepend.push('/') + lexed.lexeme@
        } else {
            lexed.lexeme@
        }
    }
}

/// The tokens of `tokens` that are no end marker, in their order.
pub open spec fn without_end(tokens: Seq<Token>) -> Seq<Token>
    decreases tokens.len(),
{
    if tokens.len() == 0 {
        Seq::empty()
    } else if tokens.last().kind is EOT {
        without_end(tokens.drop_last())
    } else {
        without_end(tokens.drop_last()).push(tokens.last())
    }
}

/// A part of the tokens from their start holds no more tokens that are no
/// end marker than the whole.
pub proof fn lemma_without_end_prefix(tokens: Seq<Token>, t: int)
    requires
        0 <= t <= tokens.len(),
    ensures
        without_end(tokens.subrange(0, t)).len() <= without_end(tokens).len(),
    decreases tokens.len(),
{
    if t == tokens.len() {
        assert(tokens.subrange(0, t) =~= tokens);
    } else {
        lemma_without_end_prefix(tokens.drop_last(), t);
        assert(tokens.drop_last().subrange(0, t) =~= tokens.subrange(0, t));
    }
}

/// The message of the error for a module whose file could not be read.
pub open spec fn unread_message(path: Seq<char>, reason: Seq<char>) -> Seq<char> {
    "Error opening file: "@ + path + ". System error message: "@ + reason
}

/// Whether `text` ends with `suffix`.
pub open spec fn has_suffix(text: Seq<char>, suffix: Seq<char>) -> bool {
    suffix.len() <= text.len() && text.subrange(text.len() - suffix.len(), text.len() as int)
        == suffix
}

/// Whether `text` ends with `suffix`.
pub fn ends_with(text: &str, suffix: &str) -> (r: bool)
    ensures
        r == has_suffix(text@, suffix@),
{
    let t = chars_of(text);
    let s = chars_of(suffix);
    if s.len() > t.len() {
        return false;
    }
    let tail = crate::frontend::lexer::slice_chars(&t, t.len() - s.len(), t.len());
    chars_eq(&tail, &s)
}

/// The parser's state: the tokens, the position of the next token, and what
/// module imports need.
struct Parser {
    pub tokens: Vec<Token>,
    pub current: usize,
    pub main_module_path: String,
    /// For each module, by its file name, the file names of the modules it
    /// imports.
    pub parent_child_relationship: Table<Vec<String>>,
    /// A module import renames every identifier but these.
    pub built_in_functions: BuiltInFunctionList,
    /// How many modules may still be imported.
    pub imports_left: usize,
}

impl Parser {
    /// The invariant of the parser.
    spec fn wf(&self) -> bool {
        self.built_in_functions.wf() && self.parent_child_relationship.wf()
    }

    /// How many tokens are left.
    spec fn remaining(&self) -> nat {
        if self.current < self.tokens@.len() {
            (self.tokens@.len() - self.current) as nat
        } else {
            0
        }
    }

    /// The tokens, what was imported and how much may still be imported
    /// are as in `before`.
    spec fn same_tokens(&self, before: &Parser) -> bool {
        &&& self.tokens == before.tokens
        &&& self.main_module_path == before.main_module_path
        &&& self.parent_child_relationship == before.parent_child_relationship
        &&& self.built_in_functions == before.built_in_functions
        &&& self.imports_left == before.imports_left
    }

    /// What holds after a piece of an expression was read: the tokens are
    /// unchanged, and where it was read the position has moved on.
    spec fn has_read<A>(&self, before: &Parser, r: Result<A, PakhiErr>) -> bool {
        &&& self.same_tokens(before)
        &&& self.wf()
        &&& r is Ok ==> before.current < self.current && before.current < before.tokens@.len()
    }

    /// A parser at the first of the tokens.
    fn new(tokens: Vec<Token>) -> (r: Parser)
        ensures
            r.wf(),
            r.tokens == tokens,
            r.current == 0,
            r.main_module_path@.len() == 0,
            r.imports_left == usize::MAX,
    {
        Parser {
            tokens,
            current: 0,
            main_module_path: String::new(),
            parent_child_relationship: Table::new(),
            built_in_functions: BuiltInFunctionList::new(),
            imports_left: usize::MAX,
        }
    }

    /// The kind of the current token, if there is one.
    fn peek(&self) -> (r: Option<&TokenKind>)
        ensures
            self.tokens@.len() <= usize::MAX,
            self.current < self.tokens@.len() ==> r == Some(
                &self.tokens@[self.current as int].kind,
            ),
            self.current >= self.tokens@.len() ==> r is None,
    {
        if self.current < self.tokens.len() {
            Some(&self.tokens[self.current].kind)
        } else {
            None
        }
    }

    /// The kind of the token behind the current one, if there is one.
    fn peek_next(&self) -> (r: Option<&TokenKind>)
        ensures
            self.current + 1 < self.tokens@.len() ==> r == Some(
                &self.tokens@[self.current + 1].kind,
            ),
            self.current + 1 >= self.tokens@.len() ==> r is None,
    {
        if self.current < self.tokens.len() && self.current + 1 < self.tokens.len() {
            Some(&self.tokens[self.current + 1].kind)
        } else {
            None
        }
    }

    /// Moves on by `n` tokens.
    fn advance(&mut self, n: usize)
        ensures
            final(self).same_tokens(old(self)),
            final(self).current == if old(self).current + n > usize::MAX {
                usize::MAX
            } else {
                (old(self).current + n) as usize
            },
    {
        self.current = self.current.saturating_add(n);
    }

    /// The line and the file of the current token.
    fn extract_err_meta(&self) -> (r: Result<(u32, String), PakhiErr>)
        ensures
            self.tokens@.len() <= usize::MAX,
            self.current < self.tokens@.len() ==> (r matches Ok(m) && m.0
                == self.tokens@[self.current as int].line && m.1@
                == self.tokens@[self.current as int].src_file_path@),
            self.current >= self.tokens@.len() ==> (r matches Err(e) && e@
                == PakhiErrView::UnexpectedError("Unexpected error, probably missing ';'"@)),
    {
        if self.current >= self.tokens.len() {
            Err(PakhiErr::unexpected("Unexpected error, probably missing ';'"))
        } else {
            let line = self.tokens[self.current].line;
            let file_name = self.tokens[self.current].src_file_path.clone();
            Ok((line, file_name))
        }
    }

    /// A syntax error at the current token, or the error for a position
    /// behind the last token.
    fn syntax_error_here(&self, message: &str) -> (r: PakhiErr)
        ensures
            self.current < self.tokens@.len() ==> r@ == PakhiErrView::SyntaxError(
                self.tokens@[self.current as int].line,
                self.tokens@[self.current as int].src_file_path@,
                message@,
            ),
            self.current >= self.tokens@.len() ==> r@ == PakhiErrView::UnexpectedError(
                "Unexpected error, probably missing ';'"@,
            ),
    {
        match self.extract_err_meta() {
            Ok((line, file_name)) => PakhiErr::syntax(line, &file_name, message),
            Err(e) => e,
        }
    }

    /// Reads an expression.
    fn expression(&mut self) -> (r: Result<Expr, PakhiErr>)
        requires
            old(self).wf(),
        ensures
            final(self).has_read(old(self), r),
            lone_literal(old(self).tokens@, old(self).current as int) is Some ==> r is Ok
                && is_lone_literal(r->Ok_0, old(self).tokens@, old(self).current as int)
                && final(self).current == old(self).current + 1,
            plain_call(old(self).tokens@, old(self).current as int) ==> r is Ok && is_plain_call(
                r->Ok_0,
                old(self).tokens@,
                old(self).current as int,
            ) && final(self).current == call_end(old(self).tokens@, old(self).current as int),
        decreases old(self).remaining(), 10int,
    {
        self.or()
    }

    /// Reads operands joined by `|`, grouped from the left.
    #[verifier::loop_isolation(false)]
    fn or(&mut self) -> (r: Result<Expr, PakhiErr>)
        requires
            old(self).wf(),
        ensures
            final(self).has_read(old(self), r),
            lone_literal(old(self).tokens@, old(self).current as int) is Some ==> r is Ok
                && is_lone_literal(r->Ok_0, old(self).tokens@, old(self).current as int)
                && final(self).current == old(self).current + 1,
            plain_call(old(self).tokens@, old(self).current as int) ==> r is Ok && is_plain_call(
                r->Ok_0,
                old(self).tokens@,
                old(self).current as int,
            ) && final(self).current == call_end(old(self).tokens@, old(self).current as int),
        decreases old(self).remaining(), 9int,
    {
        let mut expr = self.and()?;
        while matches!(self.peek(), Some(TokenKind::Or))
            invariant
                lone_literal(old(self).tokens@, old(self).current as int) is Some
                    ==> is_lone_literal(expr, old(self).tokens@, old(self).current as int)
                    && self.current == old(self).current + 1,
                plain_call(old(self).tokens@, old(self).current as int) ==> is_plain_call(
                    expr,
                    old(self).tokens@,
                    old(self).current as int,
                ) && self.current == call_end(old(self).tokens@, old(self).current as int),
                self.same_tokens(old(self)),
                self.wf(),
                old(self).current < self.current,
                old(self).current < old(self).tokens@.len(),
            decreases self.remaining(),
        {
            let (line, file_name) = self.extract_err_meta()?;
            self.advance(1);
            let right = self.and()?;
            expr = Expr::Or(Or { left: Box::new(expr), right: Box::new(right) }, line, file_name);
        }
        Ok(expr)
    }

    /// Reads operands joined by `&`, grouped from the left.
    #[verifier::loop_isolation(false)]
    fn and(&mut self) -> (r: Result<Expr, PakhiErr>)
        requires
            old(self).wf(),
        ensures
            final(self).has_read(old(self), r),
            lone_literal(old(self).tokens@, old(self).current as int) is Some ==> r is Ok
                && is_lone_literal(r->Ok_0, old(self).tokens@, old(self).current as int)
                && final(self).current == old(self).current + 1,
            plain_call(old(self).tokens@, old(self).current as int) ==> r is Ok && is_plain_call(
                r->Ok_0,
                old(self).tokens@,
                old(self).current as int,
            ) && final(self).current == call_end(old(self).tokens@, old(self).current as int),
        decreases old(self).remaining(), 8int,
    {
        let mut expr = self.equality()?;
        while matches!(self.peek(), Some(TokenKind::And))
            invariant
                lone_literal(old(self).tokens@, old(self).current as int) is Some
                    ==> is_lone_literal(expr, old(self).tokens@, old(self).current as int)
                    && self.current == old(self).current + 1,
                plain_call(old(self).tokens@, old(self).current as int) ==> is_plain_call(
                    expr,
                    old(self).tokens@,
                    old(self).current as int,
                ) && self.current == call_end(old(self).tokens@, old(self).current as int),
                self.same_tokens(old(self)),
                self.wf(),
                old(self).current < self.current,
                old(self).current < old(self).tokens@.len(),
            decreases self.remaining(),
        {
            let (line, file_name) = self.extract_err_meta()?;
            self.advance(1);
            let right = self.equality()?;
            expr = Expr::And(And { left: Box::new(expr), right: Box::new(right) }, line, file_name);
        }
        Ok(expr)
    }

    /// Reads operands joined by `==` and `!=`, grouped from the left.
    #[verifier::loop_isolation(false)]
    fn equality(&mut self) -> (r: Result<Expr, PakhiErr>)
        requires
            old(self).wf(),
        ensures
            final(self).has_read(old(self), r),
            lone_literal(old(self).tokens@, old(self).current as int) is Some ==> r is Ok
                && is_lone_literal(r->Ok_0, old(self).tokens@, old(self).current as int)
                && final(self).current == old(self).current + 1,
            plain_call(old(self).tokens@, old(self).current as int) ==> r is Ok && is_plain_call(
                r->Ok_0,
                old(self).tokens@,
                old(self).current as int,
            ) && final(self).current == call_end(old(self).tokens@, old(self).current as int),
        decreases old(self).remaining(), 7int,
    {
        let mut expr = self.comparison()?;
        while matches!(self.peek(), Some(TokenKind::NotEqual) | Some(TokenKind::EqualEqual))
            invariant
                lone_literal(old(self).tokens@, old(self).current as int) is Some
                    ==> is_lone_literal(expr, old(self).tokens@, old(self).current as int)
                    && self.current == old(self).current + 1,
                plain_call(old(self).tokens@, old(self).current as int) ==> is_plain_call(
                    expr,
                    old(self).tokens@,
                    old(self).current as int,
                ) && self.current == call_end(old(self).tokens@, old(self).current as int),
                self.same_tokens(old(self)),
                self.wf(),
                old(self).current < self.current,
                old(self).current < old(self).tokens@.len(),
            decreases self.remaining(),
        {
            let (line, file_name) = self.extract_err_meta()?;
            let operator = self.tokens[self.current].kind.clone();
            self.advance(1);
            let right = self.comparison()?;
            expr = Expr::Equality(
                Binary { operator, left: Box::new(expr), right: Box::new(right) },
                line,
                file_name,
            );
        }
        Ok(expr)
    }

    /// Reads operands joined by `<`, `<=`, `>` and `>=`, grouped from the left.
    #[verifier::loop_isolation(false)]
    fn comparison(&mut self) -> (r: Result<Expr, PakhiErr>)
        requires
            old(self).wf(),
        ensures
            final(self).has_read(old(self), r),
            lone_literal(old(self).tokens@, old(self).current as int) is Some ==> r is Ok
                && is_lone_literal(r->Ok_0, old(self).tokens@, old(self).current as int)
                && final(self).current == old(self).current + 1,
            plain_call(old(self).tokens@, old(self).current as int) ==> r is Ok && is_plain_call(
                r->Ok_0,
                old(self).tokens@,
                old(self).current as int,
            ) && final(self).current == call_end(old(self).tokens@, old(self).current as int),
        decreases old(self).remaining(), 6int,
    {
        let mut expr = self.addition()?;
        while matches!(
            self.peek(),
            Some(TokenKind::GreaterThan) | Some(TokenKind::GreaterThanOrEqual) | Some(
                TokenKind::LessThan,
            ) | Some(TokenKind::LessThanOrEqual)
        )
            invariant
                lone_literal(old(self).tokens@, old(self).current as int) is Some
                    ==> is_lone_literal(expr, old(self).tokens@, old(self).current as int)
                    && self.current == old(self).current + 1,
                plain_call(old(self).tokens@, old(self).current as int) ==> is_plain_call(
                    expr,
                    old(self).tokens@,
                    old(self).current as int,
                ) && self.current == call_end(old(self).tokens@, old(self).current as int),
                self.same_tokens(old(self)),
                self.wf(),
                old(self).current < self.current,
                old(self).current < old(self).tokens@.len(),
            decreases self.remaining(),
        {
            let (line, file_name) = self.extract_err_meta()?;
            let operator = self.tokens[self.current].kind.clone();
            self.advance(1);
            let right = self.addition()?;
            expr = Expr::Comparison(
                Binary { operator, left: Box::new(expr), right: Box::new(right) },
                line,
                file_name,
            );
        }
        Ok(expr)
    }

    /// Reads operands joined by `+` and `-`, grouped from the left.
    #[verifier::loop_isolation(false)]
    fn addition(&mut self) -> (r: Result<Expr, PakhiErr>)
        requires
            old(self).wf(),
        ensures
            final(self).has_read(old(self), r),
            lone_literal(old(self).tokens@, old(self).current as int) is Some ==> r is Ok
                && is_lone_literal(r->Ok_0, old(self).tokens@, old(self).current as int)
                && final(self).current == old(self).current + 1,
            plain_call(old(self).tokens@, old(self).current as int) ==> r is Ok && is_plain_call(
                r->Ok_0,
                old(self).tokens@,
                old(self).current as int,
            ) && final(self).current == call_end(old(self).tokens@, old(self).current as int),
        decreases old(self).remaining(), 5int,
    {
        let mut expr = self.multiplication()?;
        while matches!(self.peek(), Some(TokenKind::Plus) | Some(TokenKind::Minus))
            invariant
                lone_literal(old(self).tokens@, old(self).current as int) is Some
                    ==> is_lone_literal(expr, old(self).tokens@, old(self).current as int)
                    && self.current == old(self).current + 1,
                plain_call(old(self).tokens@, old(self).current as int) ==> is_plain_call(
                    expr,
                    old(self).tokens@,
                    old(self).current as int,
                ) && self.current == call_end(old(self).tokens@, old(self).current as int),
                self.same_tokens(old(self)),
                self.wf(),
                old(self).current < self.current,
                old(self).current < old(self).tokens@.len(),
            decreases self.remaining(),
        {
            let (line, file_name) = self.extract_err_meta()?;
            let operator = self.tokens[self.current].kind.clone();
            self.advance(1);
            let right = self.multiplication()?;
            expr = Expr::AddOrSub(
                Binary { operator, left: Box::new(expr), right: Box::new(right) },
                line,
                file_name,
            );
        }
        Ok(expr)
    }

    /// Reads operands joined by `*`, `/` and `%`, grouped from the left.
    #[verifier::loop_isolation(false)]
    fn multiplication(&mut self) -> (r: Result<Expr, PakhiErr>)
        requires
            old(self).wf(),
        ensures
            final(self).has_read(old(self), r),
            lone_literal(old(self).tokens@, old(self).current as int) is Some ==> r is Ok
                && is_lone_literal(r->Ok_0, old(self).tokens@, old(self).current as int)
                && final(self).current == old(self).current + 1,
            plain_call(old(self).tokens@, old(self).current as int) ==> r is Ok && is_plain_call(
                r->Ok_0,
                old(self).tokens@,
                old(self).current as int,
            ) && final(self).current == call_end(old(self).tokens@, old(self).current as int),
        decreases old(self).remaining(), 4int,
    {
        let mut expr = self.unary()?;
        while matches!(
            self.peek(),
            Some(TokenKind::Multiply) | Some(TokenKind::Division) | Some(TokenKind::Remainder)
        )
            invariant
                lone_literal(old(self).tokens@, old(self).current as int) is Some
                    ==> is_lone_literal(expr, old(self).tokens@, old(self).current as int)
                    && self.current == old(self).current + 1,
                plain_call(old(self).tokens@, old(self).current as int) ==> is_plain_call(
                    expr,
                    old(self).tokens@,
                    old(self).current as int,
                ) && self.current == call_end(old(self).tokens@, old(self).current as int),
                self.same_tokens(old(self)),
                self.wf(),
                old(self).current < self.current,
                old(self).current < old(self).tokens@.len(),
            decreases self.remaining(),
        {
            let (line, file_name) = self.extract_err_meta()?;
            let operator = self.tokens[self.current].kind.clone();
            self.advance(1);
            let right = self.unary()?;
            expr = Expr::MulOrDivOrRemainder(
                Binary { operator, left: Box::new(expr), right: Box::new(right) },
                line,
                file_name,
            );
        }
        Ok(expr)
    }

    /// Reads an operand behind any number of `!` and `-`.
    fn unary(&mut self) -> (r: Result<Expr, PakhiErr>)
        requires
            old(self).wf(),
        ensures
            final(self).has_read(old(self), r),
            lone_literal(old(self).tokens@, old(self).current as int) is Some ==> r is Ok
                && is_lone_literal(r->Ok_0, old(self).tokens@, old(self).current as int)
                && final(self).current == old(self).current + 1,
            plain_call(old(self).tokens@, old(self).current as int) ==> r is Ok && is_plain_call(
                r->Ok_0,
                old(self).tokens@,
                old(self).current as int,
            ) && final(self).current == call_end(old(self).tokens@, old(self).current as int),
        decreases old(self).remaining(), 3int,
    {
        if matches!(self.peek(), Some(TokenKind::Not) | Some(TokenKind::Minus)) {
            let (line, file_name) = self.extract_err_meta()?;
            let operator = self.tokens[self.current].kind.clone();
            self.advance(1);
            let right = self.unary()?;
            return Ok(Expr::Unary(Unary { operator, right: Box::new(right) }, line, file_name));
        }
        self.call()
    }

    /// Reads the arguments of a call, behind its `(`, and the `)`.
    #[verifier::loop_isolation(false)]
    fn finish_call(&mut self, calle: Expr, line: u32, file_name: String) -> (r: Result<
        Expr,
        PakhiErr,
    >)
        requires
            old(self).wf(),
        ensures
            final(self).has_read(old(self), r),
            old(self).current >= old(self).tokens@.len() ==> (r matches Err(e) && e@
                == PakhiErrView::UnexpectedError("Unexpected error, probably missing ';'"@)),
            r matches Ok(e) ==> e is Call && *e->Call_0.expr == calle && e->Call_1 == line
                && e->Call_2 == file_name,
            old(self).current < old(self).tokens@.len()
                && old(self).tokens@[old(self).current as int].kind is ParenEnd ==> r is Ok
                    && r->Ok_0->Call_0.arguments@.len() == 0
                && final(self).current == old(self).current + 1,
            literal_arguments(old(self).tokens@, old(self).current as int) matches Some(n) ==> r
                is Ok && r->Ok_0->Call_0.arguments@.len() == n && final(self).current == moved_on(
                old(self).current,
                2 * n,
            ) && forall|k: int|
                0 <= k < n ==> is_lone_literal(
                    #[trigger] r->Ok_0->Call_0.arguments@[k],
                    old(self).tokens@,
                    old(self).current + 2 * k,
                ),
        decreases old(self).remaining(), 11int,
    {
        let mut arguments: Vec<Expr> = Vec::new();
        if self.current >= self.tokens.len() {
            return Err(self.syntax_error_here("Expected ')'"));
        }
        let ghost total = literal_arguments(self.tokens@, self.current as int);
        if !matches!(self.peek(), Some(TokenKind::ParenEnd)) {
            loop
                invariant
                    self.same_tokens(old(self)),
                    self.wf(),
                    old(self).current <= self.current,
                    old(self).current < old(self).tokens@.len(),
                    total is Some ==> literal_arguments(self.tokens@, self.current as int) is Some
                        && arguments@.len() + literal_arguments(
                        self.tokens@,
                        self.current as int,
                    )->0 == total->0 && self.current == old(self).current + 2 * arguments@.len()
                        && forall|k: int|
                        0 <= k < arguments@.len() ==> is_lone_literal(
                            #[trigger] arguments@[k],
                            old(self).tokens@,
                            old(self).current + 2 * k,
                        ),
                decreases self.remaining(),
            {
                let expr = self.expression()?;
                arguments.push(expr);
                if matches!(self.peek(), Some(TokenKind::Comma)) {
                    self.advance(1);
                } else {
                    break ;
                }
            }
        }
        // The `)` is taken.
        self.advance(1);
        Ok(Expr::Call(FunctionCall { expr: Box::new(calle), arguments }, line, file_name))
    }

    /// Reads what is called and the argument lists behind it.
    #[verifier::loop_isolation(false)]
    fn call(&mut self) -> (r: Result<Expr, PakhiErr>)
        requires
            old(self).wf(),
        ensures
            final(self).has_read(old(self), r),
            lone_literal(old(self).tokens@, old(self).current as int) is Some ==> r is Ok
                && is_lone_literal(r->Ok_0, old(self).tokens@, old(self).current as int)
                && final(self).current == old(self).current + 1,
            plain_call(old(self).tokens@, old(self).current as int) ==> r is Ok && is_plain_call(
                r->Ok_0,
                old(self).tokens@,
                old(self).current as int,
            ) && final(self).current == call_end(old(self).tokens@, old(self).current as int),
        decreases old(self).remaining(), 2int,
    {
        let mut expr = self.primary()?;
        while matches!(self.peek(), Some(TokenKind::ParenStart))
            invariant
                lone_literal(old(self).tokens@, old(self).current as int) is Some
                    ==> is_lone_literal(expr, old(self).tokens@, old(self).current as int)
                    && self.current == old(self).current + 1,
                plain_call(old(self).tokens@, old(self).current as int) ==> (self.current == old(self).current + 1 && is_variable(expr, old(self).tokens@[old(self).current as int]))
                    || (is_plain_call(expr, old(self).tokens@, old(self).current as int)
                    && self.current == call_end(old(self).tokens@, old(self).current as int)),
                self.same_tokens(old(self)),
                self.wf(),
                old(self).current < self.current,
                old(self).current < old(self).tokens@.len(),
            decreases self.remaining(),
        {
            let (line, file_name) = self.extract_err_meta()?;
            self.advance(1);
            expr = self.finish_call(expr, line, file_name)?;
        }
        Ok(expr)
    }

    /// Reads a literal, a variable with its indexes, a group, a list or a
    /// record.
    #[verifier::loop_isolation(false)]
    fn primary(&mut self) -> (r: Result<Expr, PakhiErr>)
        requires
            old(self).wf(),
        ensures
            final(self).has_read(old(self), r),
            old(self).current >= old(self).tokens@.len() ==> r is Err,
            old(self).current < old(self).tokens@.len() ==> match literal_token(
                old(self).tokens@[old(self).current as int].kind,
            ) {
                Some(p) => r is Ok && is_literal(
                    r->Ok_0,
                    p,
                    old(self).tokens@[old(self).current as int].line,
                    old(self).tokens@[old(self).current as int].src_file_path@,
                ) && final(self).current == old(self).current + 1,
                None => true,
            },
            old(self).current < old(self).tokens@.len() && old(self).tokens@[old(self).current as int].kind is Identifier && !(old(self).current + 1 < old(self).tokens@.len() && old(self).tokens@[old(self).current + 1].kind is SquareBraceStart)
                ==> r is Ok && is_variable(r->Ok_0, old(self).tokens@[old(self).current as int])
                && final(self).current == old(self).current + 1,
        decreases old(self).remaining(), 1int,
    {
        let (line, file_name) = self.extract_err_meta()?;
        match &self.tokens[self.current].kind {
            TokenKind::Bool(b) => {
                let b = *b;
                self.advance(1);
                Ok(Expr::Primary(Primary::Bool(b), line, file_name))
            },
            TokenKind::Num(n) => {
                let n = *n;
                self.advance(1);
                Ok(Expr::Primary(Primary::Num(n), line, file_name))
            },
            TokenKind::String(s) => {
                let s = s.clone();
                self.advance(1);
                Ok(Expr::Primary(Primary::String(s), line, file_name))
            },
            TokenKind::Identifier => {
                let mut expr = Expr::Primary(
                    Primary::Var(self.tokens[self.current].clone()),
                    line,
                    file_name,
                );
                self.advance(1);
                // Each pair of brackets indexes what stands before it.
                while matches!(self.peek(), Some(TokenKind::SquareBraceStart))
                    invariant
                        self.same_tokens(old(self)),
                        self.wf(),
                        old(self).current < self.current,
                        !(old(self).current + 1 < old(self).tokens@.len() && old(self).tokens@[old(self).current + 1].kind is SquareBraceStart) ==> self.current == old(self).current + 1 && is_variable(
                            expr,
                            old(self).tokens@[old(self).current as int],
                        ),
                    decreases self.remaining(),
                {
                    let (line, file_name) = self.extract_err_meta()?;
                    self.advance(1);
                    let i = self.expression()?;
                    if !matches!(self.peek(), Some(TokenKind::SquareBraceEnd)) {
                        return Err(self.syntax_error_here("Expected ']'"));
                    }
                    self.advance(1);
                    expr = Expr::Indexing(Box::new(expr), Box::new(i), line, file_name);
                }
                Ok(expr)
            },
            TokenKind::ParenStart => {
                self.advance(1);
                let expr = self.expression()?;
                // The `)` is taken.
                self.advance(1);
                Ok(Expr::Primary(Primary::Group(Box::new(expr)), line, file_name))
            },
            TokenKind::SquareBraceStart => {
                self.advance(1);
                let mut array_literal: Vec<Expr> = Vec::new();
                while !matches!(self.peek(), Some(TokenKind::SquareBraceEnd))
                    invariant
                        self.same_tokens(old(self)),
                        self.wf(),
                        old(self).current < self.current,
                    decreases self.remaining(),
                {
                    let expr = self.expression()?;
                    array_literal.push(expr);
                    if matches!(self.peek(), Some(TokenKind::Comma)) {
                        self.advance(1);
                    }
                }
                self.advance(1);
                Ok(Expr::Primary(Primary::List(array_literal), line, file_name))
            },
            TokenKind::At => {
                self.advance(1);
                if !matches!(self.peek(), Some(TokenKind::CurlyBraceStart)) {
                    return Err(self.syntax_error_here("Expected { after '@'"));
                }
                self.advance(1);
                let mut keys: Vec<Expr> = Vec::new();
                let mut values: Vec<Expr> = Vec::new();
                while !matches!(self.peek(), Some(TokenKind::CurlyBraceEnd))
                    invariant
                        self.same_tokens(old(self)),
                        self.wf(),
                        old(self).current < self.current,
                    decreases self.remaining(),
                {
                    let expr = self.expression()?;
                    keys.push(expr);
                    if !matches!(self.peek(), Some(TokenKind::MapArrow)) {
                        return Err(self.syntax_error_here("Expected -> after key name"));
                    }
                    self.advance(1);
                    let expr = self.expression()?;
                    values.push(expr);
                    if matches!(self.peek(), Some(TokenKind::Comma)) {
                        self.advance(1);
                    }
                }
                self.advance(1);
                Ok(Expr::Primary(Primary::NamelessRecord((keys, values)), line, file_name))
            },
            _ => Err(self.syntax_error_here("Unexpected Token")),
        }
    }
}

impl Parser {
    /// What holds after a statement was read without an import: the
    /// tokens are unchanged and the position has moved on.
    spec fn has_read_stmt(&self, before: &Parser, r: Result<Stmt, PakhiErr>) -> bool {
        &&& self.same_tokens(before)
        &&& self.wf()
        &&& r is Ok ==> before.current < self.current && before.current < before.tokens@.len()
            && !(r->Ok_0 is EOS)
    }

    /// Whether the characters name the constant that stands for the
    /// directory of the module.
    fn is_dirname_constant(&self, lexeme: &Vec<char>) -> (r: bool)
        ensures
            r == (lexeme@ == "_ডাইরেক্টরি"@),
    {
        let var_name = string_from_chars(lexeme);
        str_eq(var_name.as_str(), "_ডাইরেক্টরি")
    }

    /// The last component of a path, as the platform names it.
    fn extract_filename<P: Platform>(&self, path: &String, pf: &P) -> (r: String) {
        pf.file_name(path.as_str())
    }

    /// The last component of each path.
    fn extract_filenames<P: Platform>(&self, paths: &Vec<String>, pf: &P) -> (r: Vec<String>)
        ensures
            r@.len() == paths@.len(),
    {
        let mut file_names: Vec<String> = Vec::new();
        let mut i: usize = 0;
        while i < paths.len()
            invariant
                i <= paths@.len(),
                file_names@.len() == i,
            decreases paths.len() - i,
        {
            file_names.push(self.extract_filename(&paths[i], pf));
            i += 1;
        }
        file_names
    }

    /// The positions of the import keywords among the tokens.
    fn find_all_imports_start(&self, tokens: &Vec<Token>) -> (r: Vec<usize>)
        ensures
            forall|k: int|
                0 <= k < r@.len() ==> (#[trigger] r@[k]) < tokens@.len()
                    && tokens@[r@[k] as int].kind is Import,
            forall|i: int|
                0 <= i < tokens@.len() && (#[trigger] tokens@[i]).kind is Import ==> r@.contains(
                    i as usize,
                ),
    {
        let mut all_imports_starting_token_index: Vec<usize> = Vec::new();
        let mut i: usize = 0;
        while i < tokens.len()
            invariant
                i <= tokens@.len(),
                forall|k: int|
                    0 <= k < all_imports_starting_token_index@.len() ==> (
                    #[trigger] all_imports_starting_token_index@[k]) < tokens@.len()
                        && tokens@[all_imports_starting_token_index@[k] as int].kind is Import,
                forall|w: int|
                    0 <= w < i && (#[trigger] tokens@[w]).kind is Import
                        ==> all_imports_starting_token_index@.contains(w as usize),
            decreases tokens.len() - i,
        {
            if let TokenKind::Import = &tokens[i].kind {
                let ghost before = all_imports_starting_token_index@;
                all_imports_starting_token_index.push(i);
                proof {
                    let after = all_imports_starting_token_index@;
                    assert(after[before.len() as int] == i);
                    assert forall|w: int|
                        0 <= w < i + 1 && (#[trigger] tokens@[w]).kind is Import implies after.contains(
                        w as usize,
                    ) by {
                        if w < i {
                            let x = choose|x: int| 0 <= x < before.len() && before[x] == w as usize;
                            assert(after[x] == w as usize);
                        }
                    }
                }
            }
            i += 1;
        }
        all_imports_starting_token_index
    }

    /// The file name of the module that the import statement at
    /// `import_stmt_start_index` names: the string three tokens behind the
    /// keyword.
    fn get_module_path_from_import_stmt<P: Platform>(
        &self,
        tokens: &Vec<Token>,
        import_stmt_start_index: usize,
        pf: &P,
    ) -> (r: Result<String, PakhiErr>)
        ensures
            (r is Ok) == (import_stmt_start_index + 3 < tokens@.len()
                && tokens@[import_stmt_start_index
                + 3].kind is String),
    {
        let import_path_offset: usize = 3;
        if import_stmt_start_index >= tokens.len() || import_path_offset >= tokens.len()
            - import_stmt_start_index {
            return Err(self.syntax_error_here("import path is not valid"));
        }
        match &tokens[import_stmt_start_index + import_path_offset].kind {
            TokenKind::String(import_path) => Ok(self.extract_filename(import_path, pf)),
            _ => Err(self.syntax_error_here("import path is not valid")),
        }
    }

    /// The file names of the modules that the tokens import.
    fn extract_all_import_paths<P: Platform>(&self, tokens: &Vec<Token>, pf: &P) -> (r: Result<
        Vec<String>,
        PakhiErr,
    >)
        ensures
            (r is Ok) == (forall|i: int|
                0 <= i < tokens@.len() && (#[trigger] tokens@[i]).kind is Import ==> i + 3
                    < tokens@.len() && tokens@[i + 3].kind is String),
    {
        let total = tokens.len();
        let import_stmt_start_token_indexes = self.find_all_imports_start(tokens);
        let mut modules_paths: Vec<String> = Vec::new();
        let mut k: usize = 0;
        while k < import_stmt_start_token_indexes.len()
            invariant
                total == tokens@.len(),
                k <= import_stmt_start_token_indexes@.len(),
                forall|w: int|
                    0 <= w < k ==> (#[trigger] import_stmt_start_token_indexes@[w]) + 3
                        < tokens@.len() && tokens@[import_stmt_start_token_indexes@[w] + 3].kind
                        is String,
                forall|w: int|
                    0 <= w < import_stmt_start_token_indexes@.len() ==> (
                    #[trigger] import_stmt_start_token_indexes@[w]) < tokens@.len()
                        && tokens@[import_stmt_start_token_indexes@[w] as int].kind is Import,
                forall|i: int|
                    0 <= i < tokens@.len() && (#[trigger] tokens@[i]).kind is Import
                        ==> import_stmt_start_token_indexes@.contains(i as usize),
            decreases import_stmt_start_token_indexes.len() - k,
        {
            proof {
                let at = import_stmt_start_token_indexes@[k as int];
                assert(tokens@[at as int].kind is Import);
            }
            let path = self.get_module_path_from_import_stmt(
                tokens,
                import_stmt_start_token_indexes[k],
                pf,
            )?;
            modules_paths.push(path);
            k += 1;
        }
        proof {
            assert forall|i: int|
                0 <= i < tokens@.len() && (#[trigger] tokens@[i]).kind is Import implies i + 3
                < tokens@.len() && tokens@[i + 3].kind is String by {
                assert(import_stmt_start_token_indexes@.contains(i as usize));
                let w = choose|w: int|
                    0 <= w < import_stmt_start_token_indexes@.len()
                        && import_stmt_start_token_indexes@[w] == i as usize;
                assert(import_stmt_start_token_indexes@[w] + 3 < tokens@.len());
            }
        }
        Ok(self.extract_filenames(&modules_paths, pf))
    }

    /// Replaces each token that names the directory constant by a string
    /// token that holds the directory of the module at
    /// `module_file_location`, with a `/` at its end. Must run before the
    /// identifiers are renamed.
    fn expand_dirname_constant<P: Platform>(
        &self,
        tokens: &mut Vec<Token>,
        module_file_location: &str,
        pf: &P,
    )
        ensures
            final(tokens)@.len() == old(tokens)@.len(),
            forall|i: int|
                0 <= i < old(tokens)@.len() && !((#[trigger] old(tokens)@[i]).kind is Identifier
                    && old(tokens)@[i].lexeme@ == "_ডাইরেক্টরি"@)
                        ==> final(tokens)@[i] == old(tokens)@[i],
            forall|i: int|
                0 <= i < old(tokens)@.len() && (#[trigger] old(tokens)@[i]).kind is Identifier
                    && old(tokens)@[i].lexeme@ == "_ডাইরেক্টরি"@ ==> final(tokens)@[i].kind
                    is String && final(tokens)@[i].line == old(tokens)@[i].line,
    {
        let mut i: usize = 0;
        while i < tokens.len()
            invariant
                i <= tokens@.len(),
                tokens@.len() == old(tokens)@.len(),
                forall|w: int| i <= w < tokens@.len() ==> tokens@[w] == old(tokens)@[w],
                forall|w: int|
                    0 <= w < i && !((#[trigger] old(tokens)@[w]).kind is Identifier
                        && old(tokens)@[w].lexeme@ == "_ডাইরেক্টরি"@)
                            ==> tokens@[w] == old(tokens)@[w],
                forall|w: int|
                    0 <= w < i && (#[trigger] old(tokens)@[w]).kind is Identifier
                        && old(tokens)@[w].lexeme@ == "_ডাইরেক্টরি"@ ==> tokens@[w].kind is String
                            && tokens@[w].line
                        == old(tokens)@[w].line,
            decreases tokens.len() - i,
        {
            let is_constant = match &tokens[i].kind {
                TokenKind::Identifier => self.is_dirname_constant(&tokens[i].lexeme),
                _ => false,
            };
            if is_constant {
                let mut module_src_file_dir = pf.absolute_parent_dir(module_file_location);
                if !ends_with(module_src_file_dir.as_str(), "/") {
                    module_src_file_dir.append("/");
                }
                let replaced = Token {
                    kind: TokenKind::String(module_src_file_dir.clone()),
                    lexeme: chars_of(module_src_file_dir.as_str()),
                    line: tokens[i].line,
                    src_file_path: tokens[i].src_file_path.clone(),
                };
                tokens[i] = replaced;
            }
            i += 1;
        }
    }

    /// Expands the directory constant in the tokens of the main module.
    fn expand_dirname_constant_for_root_module<P: Platform>(&mut self, pf: &P)
        requires
            old(self).wf(),
        ensures
            final(self).wf(),
            final(self).current == old(self).current,
            final(self).imports_left == old(self).imports_left,
            final(self).tokens@.len() == old(self).tokens@.len(),
            forall|i: int|
                0 <= i < old(self).tokens@.len() ==> ((#[trigger] final(self).tokens@[i]).kind
                    is EOT) == (old(self).tokens@[i].kind is EOT),
            final(self).main_module_path == old(self).main_module_path,
            final(self).parent_child_relationship == old(self).parent_child_relationship,
            final(self).built_in_functions == old(self).built_in_functions,
            forall|i: int|
                0 <= i < old(self).tokens@.len() && !((#[trigger] old(self).tokens@[i]).kind
                    is Identifier && old(self).tokens@[i].lexeme@ == "_ডাইরেক্টরি"@)
                        ==> final(self).tokens@[i] == old(self).tokens@[i],
            forall|i: int|
                0 <= i < old(self).tokens@.len() && (#[trigger] old(self).tokens@[i]).kind
                    is Identifier && old(self).tokens@[i].lexeme@ == "_ডাইরেক্টরি"@
                        ==> final(self).tokens@[i].kind is String
                            && final(self).tokens@[i].line == old(self).tokens@[i].line,
    {
        let mut tokens: Vec<Token> = Vec::new();
        std::mem::swap(&mut tokens, &mut self.tokens);
        let location = self.main_module_path.clone();
        self.expand_dirname_constant(&mut tokens, location.as_str(), pf);
        self.tokens = tokens;
    }

    /// Puts the name of an import and a `/` before every identifier that is
    /// no built-in function.
    fn prepend_with_import_name(&self, tokens: &mut Vec<Token>, prepend: &Vec<char>)
        requires
            self.wf(),
        ensures
            final(tokens)@.len() == old(tokens)@.len(),
            forall|i: int|
                0 <= i < old(tokens)@.len()
                    ==> (#[trigger] final(tokens)@[i]).kind == old(tokens)@[i].kind
                        && final(tokens)@[i].line == old(tokens)@[i].line,
            forall|i: int|
                0 <= i < old(tokens)@.len()
                    ==> (#[trigger] final(tokens)@[i]).lexeme@ == if old(tokens)@[i].kind is Identifier
                    && !crate::backend::built_ins::built_in_names().contains(
                    old(tokens)@[i].lexeme@,
                ) {
                    prepend@.push('/') + old(tokens)@[i].lexeme@
                } else {
                    old(tokens)@[i].lexeme@
                },
    {
        let mut i: usize = 0;
        while i < tokens.len()
            invariant
                self.wf(),
                i <= tokens@.len(),
                tokens@.len() == old(tokens)@.len(),
                forall|w: int| i <= w < tokens@.len() ==> tokens@[w] == old(tokens)@[w],
                forall|w: int|
                    0 <= w < i ==> (#[trigger] tokens@[w]).kind == old(tokens)@[w].kind
                        && tokens@[w].line == old(tokens)@[w].line,
                forall|w: int|
                    0 <= w < i ==> (#[trigger] tokens@[w]).lexeme@ == if old(tokens)@[w].kind
                        is Identifier && !crate::backend::built_ins::built_in_names().contains(
                        old(tokens)@[w].lexeme@,
                    ) {
                        prepend@.push('/') + old(tokens)@[w].lexeme@
                    } else {
                        old(tokens)@[w].lexeme@
                    },
            decreases tokens.len() - i,
        {
            let rename = match &tokens[i].kind {
                TokenKind::Identifier => !self.built_in_functions.is_built_in(&tokens[i].lexeme),
                _ => false,
            };
            if rename {
                let mut lexeme = clone_chars(prepend);
                lexeme.push('/');
                let mut k: usize = 0;
                while k < tokens[i].lexeme.len()
                    invariant
                        i < tokens@.len(),
                        k <= tokens@[i as int].lexeme@.len(),
                        lexeme@ == prepend@.push('/') + tokens@[i as int].lexeme@.subrange(
                            0,
                            k as int,
                        ),
                    decreases tokens@[i as int].lexeme@.len() - k,
                {
                    lexeme.push(tokens[i].lexeme[k]);
                    k += 1;
                    assert(lexeme@ =~= prepend@.push('/') + tokens@[i as int].lexeme@.subrange(
                        0,
                        k as int,
                    ));
                }
                assert(tokens@[i as int].lexeme@.subrange(0,
                    k as int) =~= tokens@[i as int].lexeme@);
                let renamed = Token {
                    kind: tokens[i].kind.clone(),
                    lexeme,
                    line: tokens[i].line,
                    src_file_path: tokens[i].src_file_path.clone(),
                };
                tokens[i] = renamed;
            }
            i += 1;
        }
    }

    /// What is made of a module's file once it was read, or could not be:
    /// the tokens of its source, with the directory constant expanded and
    /// the identifiers renamed, or the error.
    fn module_tokens<P: Platform>(
        &self,
        read: Result<String, String>,
        module_file: &String,
        prepend: &Vec<char>,
        pf: &P,
    ) -> (r: Result<Vec<Token>, PakhiErr>)
        requires
            self.wf(),
        ensures
            read matches Err(reason) ==> (r matches Err(e) && e@ == PakhiErrView::RuntimeError(
                0,
                Seq::empty(),
                unread_message(module_file@, reason@),
            )),
            read matches Ok(src) ==> ((r is Ok) == (src@.len() < usize::MAX
                && crate::frontend::lexer::lexable(src@, 0))),
            (read matches Ok(src) && r matches Ok(tokens)) ==> {
                let starts = crate::frontend::lexer::token_starts(read->Ok_0@, 0, 1);
                &&& r->Ok_0@.len() == starts.len() + 1
                &&& r->Ok_0@.last().kind is EOT
                &&& exists|lexed: Seq<Token>|
                    {
                        &&& lexed.len() == starts.len()
                        &&& forall|k: int|
                            0 <= k < starts.len() ==> !((#[trigger] lexed[k]).kind is EOT)
                                && crate::frontend::lexer::describes(
                                lexed[k],
                                read->Ok_0@,
                                starts[k].0,
                                starts[k].1,
                                module_file@,
                            )
                        &&& forall|k: int|
                            0 <= k < starts.len() ==> imported_as(
                                #[trigger] r->Ok_0@[k],
                                lexed[k],
                                prepend@,
                            )
                    }
            },
    {
        match read {
            Ok(src) => {
                let src_chars = chars_of(src.as_str());
                let mut module_tokens = tokenize(src_chars, module_file.clone(), pf)?;
                let ghost lexed = module_tokens@.drop_last();
                let ghost whole = module_tokens@;
                self.expand_dirname_constant(&mut module_tokens, module_file.as_str(), pf);
                let ghost expanded = module_tokens@;
                self.prepend_with_import_name(&mut module_tokens, prepend);
                proof {
                    let starts = crate::frontend::lexer::token_starts(src@, 0, 1);
                    assert forall|k: int| 0 <= k < starts.len() implies imported_as(
                        #[trigger] module_tokens@[k],
                        lexed[k],
                        prepend@,
                    ) by {
                        assert(lexed[k] == whole[k]);
                        assert(expanded[k].line == whole[k].line);
                    }
                    assert(whole.last().kind is EOT);
                    assert(expanded[whole.len() - 1] == whole[whole.len() - 1]);
                    assert(module_tokens@.last().kind is EOT);
                    assert(lexed.len() == starts.len());
                    assert forall|k: int| 0 <= k < starts.len() implies !((
                    #[trigger] lexed[k]).kind is EOT) && crate::frontend::lexer::describes(
                        lexed[k],
                        src@,
                        starts[k].0,
                        starts[k].1,
                        module_file@,
                    ) by {
                        assert(lexed[k] == whole[k]);
                    }
                }
                Ok(module_tokens)
            },
            Err(e) => {
                let mut message = String::from_str("Error opening file: ");
                message.append(module_file.as_str());
                message.append(". System error message: ");
                message.append(e.as_str());
                assert(message@ =~= unread_message(module_file@, e@));
                Err(PakhiErr::RuntimeError(0, String::new(), message))
            },
        }
    }

    /// The tokens of the module at `path`, with the directory constant
    /// expanded and the identifiers renamed. The path is taken from the
    /// directory of the main module; whether the file can be read is up to
    /// `io`, and [`Parser::module_tokens`] says what is made of the answer.
    fn get_tokens_from_module<T: IO, P: Platform>(
        &self,
        path: &String,
        prepend: &Vec<char>,
        io: &mut T,
        pf: &P,
    ) -> (r: Result<Vec<Token>, PakhiErr>)
        requires
            self.wf(),
        ensures
            r matches Ok(tokens) ==> tokens@.len() >= 1 && tokens@.last().kind is EOT,
    {
        let current_module_root = pf.parent_dir(self.main_module_path.as_str());
        let final_module_path = pf.join_path(current_module_root.as_str(), path.as_str());
        let read = io.read_src_code_from_file(final_module_path.as_str());
        self.module_tokens(read, &final_module_path, prepend, pf)
    }

    /// Whether `name` is among `names`.
    fn contains_name(names: &Vec<String>, name: &String) -> (r: bool)
        ensures
            r == exists|k: int| 0 <= k < names@.len() && (#[trigger] names@[k])@ == name@,
    {
        let mut k: usize = 0;
        while k < names.len()
            invariant
                k <= names@.len(),
                forall|w: int| 0 <= w < k ==> (#[trigger] names@[w])@ != name@,
            decreases names.len() - k,
        {
            if names[k] == *name {
                return true;
            }
            k += 1;
        }
        false
    }

    /// Reads the rest of an import statement behind its keyword and puts
    /// the tokens of the imported module behind the statement.
    ///
    /// The path is made of string literals, joined as paths where `+`
    /// stands between them, and must end in `.pakhi`. A module that
    /// imports a module that it was already found to import is a cyclic
    /// dependency. Each import uses up one of the imports that are left.
    #[verifier::loop_isolation(false)]
    #[verifier::rlimit(60)]
    fn named_module_import<T: IO, P: Platform>(
        &mut self,
        module_import_name: Vec<char>,
        io: &mut T,
        pf: &P,
    ) -> (r: Result<(), PakhiErr>)
        requires
            old(self).wf(),
        ensures
            final(self).wf(),
            final(self).imports_left <= old(self).imports_left,
            r is Ok ==> final(self).imports_left + 1 == old(self).imports_left,
            final(self).main_module_path == old(self).main_module_path,
            final(self).built_in_functions == old(self).built_in_functions,
            old(self).imports_left == 0 ==> (r matches Err(e) && e@ == PakhiErrView::RuntimeError(
                0,
                Seq::empty(),
                "Too many module imports"@,
            )) && *final(self) == *old(self),
            old(self).imports_left > 0 && old(self).current + 2 >= old(self).tokens@.len() ==> (
            r matches Err(e) && e@ == PakhiErrView::UnexpectedError(
                "Unexpected error, probably missing ';'"@,
            )),
            old(self).imports_left > 0 && old(self).current + 2 < old(self).tokens@.len()
                && !(old(self).tokens@[old(self).current + 2].kind is String) ==> (r matches Err(e)
                    && e@
                == PakhiErrView::SyntaxError(
                old(self).tokens@[old(self).current + 2].line,
                old(self).tokens@[old(self).current + 2].src_file_path@,
                "Module path must be static string literal"@,
            )),
            r is Ok ==> old(self).current + 3 <= final(self).current < old(self).tokens@.len()
                && old(self).tokens@[final(self).current as int].kind is Semicolon,
            r is Ok ==> exists|added: Seq<Token>| #[trigger]
                final(self).spliced(old(self), final(self).current as int, added),
    {
        if self.imports_left == 0 {
            return Err(
                PakhiErr::RuntimeError(
                    0,
                    String::new(),
                    String::from_str("Too many module imports"),
                ),
            );
        }
        self.imports_left = self.imports_left - 1;
        // The name of the import and the `=` are passed.
        self.advance(2);
        let imported_path = match self.peek() {
            Some(TokenKind::String(path)) => {
                let mut concated_module_path = path.clone();
                self.advance(1);
                while !matches!(self.peek(), Some(TokenKind::Semicolon))
                    invariant
                        self.wf(),
                        self.imports_left + 1 == old(self).imports_left,
                        self.tokens == old(self).tokens,
                        self.main_module_path == old(self).main_module_path,
                        self.built_in_functions == old(self).built_in_functions,
                        self.parent_child_relationship == old(self).parent_child_relationship,
                        self.current >= old(self).current + 3 || self.current == usize::MAX,
                    decreases self.remaining(),
                {
                    match self.peek() {
                        Some(TokenKind::String(p)) => {
                            concated_module_path =
                            pf.join_path(concated_module_path.as_str(), p.as_str());
                            self.advance(1);
                        },
                        Some(TokenKind::Plus) => {
                            self.advance(1);
                        },
                        _ => {
                            return Err(
                                self.syntax_error_here("Module path must be static string literal"),
                            );
                        },
                    }
                }
                concated_module_path
            },
            _ => {
                return Err(self.syntax_error_here("Module path must be static string literal"));
            },
        };
        if !ends_with(imported_path.as_str(), ".pakhi") {
            return Err(self.syntax_error_here("Not a valid module file name"));
        }
        let imported_tokens = self.get_tokens_from_module(
            &imported_path,
            &module_import_name,
            io,
            pf,
        )?;
        let parent_module_file_name = self.extract_filename(&imported_path, pf);
        let child_modules_paths = self.extract_all_import_paths(&imported_tokens, pf)?;
        let child_modules_file_name = self.extract_filenames(&child_modules_paths, pf);

        let mut childs: Vec<String> = match self.parent_child_relationship.position(
            parent_module_file_name.as_str(),
        ) {
            Some(j) => crate::common::text::clone_strings(
                &self.parent_child_relationship.entries[j].value,
            ),
            None => Vec::new(),
        };
        let known = self.parent_child_relationship.position(
            parent_module_file_name.as_str(),
        ).is_some();
        let ghost at_end = *self;
        let mut k: usize = 0;
        while k < child_modules_file_name.len()
            invariant
                k <= child_modules_file_name@.len(),
                *self == at_end,
            decreases child_modules_file_name.len() - k,
        {
            if known && Self::contains_name(&childs, &child_modules_file_name[k]) {
                let mut message = String::from_str("Cyclic module dependency. Can't import ");
                message.append(parent_module_file_name.as_str());
                message.append(" from ");
                message.append(child_modules_file_name[k].as_str());
                return Err(PakhiErr::RuntimeError(0, String::new(), message));
            }
            childs.push(child_modules_file_name[k].clone());
            k += 1;
        }
        self.parent_child_relationship.insert(parent_module_file_name, childs);

        // The imported tokens go behind the semicolon of the import
        // statement, which is the current token.
        let ghost before = *self;
        let r = self.splice_tokens(&imported_tokens);
        proof {
            if r is Ok {
                assert(before.tokens@ == old(self).tokens@);
                assert(self.spliced(&before, self.current as int, without_end(imported_tokens@)));
                assert(self.spliced(old(self), self.current as int, without_end(imported_tokens@)));
            }
        }
        r
    }

    /// Puts the tokens of a module, but for its end marker, behind the
    /// current token, in their order.
    #[verifier::loop_isolation(false)]
    fn splice_tokens(&mut self, imported: &Vec<Token>) -> (r: Result<(), PakhiErr>)
        requires
            old(self).wf(),
        ensures
            final(self).wf(),
            final(self).current == old(self).current,
            final(self).imports_left == old(self).imports_left,
            final(self).main_module_path == old(self).main_module_path,
            final(self).parent_child_relationship == old(self).parent_child_relationship,
            final(self).built_in_functions == old(self).built_in_functions,
            (r is Ok) == (old(self).current < old(self).tokens@.len() && old(self).tokens@.len()
                + without_end(imported@).len() <= usize::MAX),
            r is Ok ==> final(self).spliced(
                old(self),
                old(self).current as int,
                without_end(imported@),
            ),
    {
        if self.current >= self.tokens.len() {
            return Err(self.syntax_error_here("Expected ';'"));
        }
        let mut insert_token_at = self.current + 1;
        let mut t: usize = 0;
        let ghost mut added: Seq<Token> = Seq::empty();
        proof {
            assert(imported@.subrange(0, 0) =~= Seq::<Token>::empty());
        }
        while t < imported.len()
            invariant
                t <= imported@.len(),
                self.wf(),
                self.current == old(self).current,
                self.imports_left == old(self).imports_left,
                self.main_module_path == old(self).main_module_path,
                self.parent_child_relationship == old(self).parent_child_relationship,
                self.built_in_functions == old(self).built_in_functions,
                added == without_end(imported@.subrange(0, t as int)),
                insert_token_at == self.current + 1 + added.len(),
                self.spliced(old(self), old(self).current as int, added),
            decreases imported.len() - t,
        {
            proof {
                assert(imported@.subrange(0, t + 1).drop_last() =~= imported@.subrange(0,
                    t as int));
                assert(imported@.subrange(0, t + 1).last() == imported@[t as int]);
                lemma_without_end_prefix(imported@, t + 1);
            }
            if let TokenKind::EOT = &imported[t].kind {
            } else {
                if self.tokens.len() == usize::MAX {
                    return Err(self.syntax_error_here("Too many tokens"));
                }
                let ghost before = self.tokens@;
                self.tokens.insert(insert_token_at, imported[t].clone());
                proof {
                    let after = self.tokens@;
                    let at = insert_token_at as int;
                    let first = old(self).current as int;
                    let longer = added.push(imported@[t as int]);
                    assert(after.len() == before.len() + 1);
                    assert(reads_as(after[at], imported@[t as int]));
                    assert forall|i: int| 0 <= i <= first implies after[i] == old(self).tokens@[i] by {
                        assert(after[i] == before[i]);
                    }
                    assert forall|j: int| 0 <= j < longer.len() implies reads_as(
                        #[trigger] after[first + 1 + j],
                        longer[j],
                    ) by {
                        if j < added.len() {
                            assert(reads_as(before[first + 1 + j], added[j]));
                            assert(after[first + 1 + j] == before[first + 1 + j]);
                        }
                    }
                    assert forall|i: int| first < i < old(self).tokens@.len() implies #[trigger] after[i
                        + longer.len()] == old(self).tokens@[i] by {
                        assert(before[i + added.len()] == old(self).tokens@[i]);
                        assert(after[i + added.len() + 1] == before[i + added.len()]);
                    }
                    added = longer;
                }
                insert_token_at += 1;
            }
            t += 1;
        }
        let total = self.tokens.len();
        proof {
            assert(imported@.subrange(0, t as int) =~= imported@);
            assert(total == old(self).tokens@.len() + added.len());
        }
        Ok(())
    }

    /// Whether the tokens are those of `before` with `added` put behind the
    /// token at `at`.
    spec fn spliced(&self, before: &Parser, at: int, added: Seq<Token>) -> bool {
        &&& 0 <= at < before.tokens@.len()
        &&& self.tokens@.len() == before.tokens@.len() + added.len()
        &&& forall|i: int| 0 <= i <= at ==> self.tokens@[i] == before.tokens@[i]
        &&& forall|j: int|
            0 <= j < added.len() ==> reads_as(#[trigger] self.tokens@[at + 1 + j], added[j])
        &&& forall|i: int|
            at < i < before.tokens@.len() ==> #[trigger] self.tokens@[i + added.len()]
                == before.tokens@[i]
    }

    /// Reads one statement.
    fn statements<T: IO, P: Platform>(&mut self, io: &mut T, pf: &P) -> (r: Result<
        Stmt,
        PakhiErr,
    >)
        requires
            old(self).wf(),
        ensures
            final(self).wf(),
            final(self).imports_left <= old(self).imports_left,
            r is Ok ==> final(self).imports_left < old(self).imports_left
                || (final(self).same_tokens(old(self)) && old(self).current <= final(self).current
                    && (r->Ok_0
                is EOS || old(self).current < final(self).current)
                    && old(self).current < old(self).tokens@.len()),
            r is Ok && r->Ok_0 is EOS ==> final(self).current < final(self).tokens@.len(),
            old(self).current >= old(self).tokens@.len() ==> r is Err,
            old(self).current < old(self).tokens@.len()
                && old(self).tokens@[old(self).current as int].kind is EOT ==> r is Ok
                && r->Ok_0 is EOS
                && r->Ok_0.line() == old(self).tokens@[old(self).current as int].line
                && *final(self) == *old(self),
        decreases old(self).imports_left, old(self).remaining(), 1int,
    {
        let (line, file_name) = self.extract_err_meta()?;
        match &self.tokens[self.current].kind {
            TokenKind::Print => self.print_stmt(),
            TokenKind::PrintNoEOL => self.print_no_newline_stmt(),
            TokenKind::Var => self.assignment_stmt(),
            TokenKind::Identifier => self.re_assignment_or_func_call_stmt(),
            TokenKind::CurlyBraceStart => Ok(self.block_start()),
            TokenKind::CurlyBraceEnd => Ok(self.block_end()),
            TokenKind::If => self.if_statement(),
            TokenKind::Else => Ok(self.else_statement()),
            TokenKind::Loop => Ok(self.loop_stmt()),
            TokenKind::Continue => Ok(self.continue_stmt()),
            TokenKind::Break => Ok(self.break_stmt()),
            TokenKind::Function => Ok(self.func_def_stmt()),
            TokenKind::Return => self.return_stmt(),
            TokenKind::Comment => self.comment_block(io, pf),
            TokenKind::Import => self.module_import_stmt(io, pf),
            TokenKind::EOT => Ok(Stmt::EOS(line, file_name)),
            _ => Err(self.syntax_error_here("Unexpected token")),
        }
    }

    /// Reads an import statement and the statement behind it. An import
    /// makes no statement of its own: the tokens of the module take its
    /// place.
    fn module_import_stmt<T: IO, P: Platform>(&mut self, io: &mut T, pf: &P) -> (r: Result<
        Stmt,
        PakhiErr,
    >)
        requires
            old(self).wf(),
        ensures
            final(self).wf(),
            final(self).imports_left <= old(self).imports_left,
            r is Ok ==> final(self).imports_left < old(self).imports_left,
            r is Ok && r->Ok_0 is EOS ==> final(self).current < final(self).tokens@.len(),
            old(self).current + 1 >= old(self).tokens@.len() ==> (r matches Err(e) && e@
                == PakhiErrView::UnexpectedError("Unexpected error, probably missing ';'"@)),
            old(self).current + 1 < old(self).tokens@.len() && !(old(self).tokens@[old(self).current
                + 1].kind is Identifier) ==> (r matches Err(e) && e@ == PakhiErrView::SyntaxError(
                old(self).tokens@[old(self).current + 1].line,
                old(self).tokens@[old(self).current + 1].src_file_path@,
                "Expected a name for imported module"@,
            )),
            old(self).current + 1 < old(self).tokens@.len() && old(self).tokens@[old(self).current
                + 1].kind is Identifier && old(self).imports_left == 0 ==> (r matches Err(e) && e@
                == PakhiErrView::RuntimeError(0, Seq::empty(), "Too many module imports"@)),
            old(self).current + 3 < old(self).tokens@.len() && old(self).tokens@[old(self).current
                + 1].kind is Identifier && old(self).imports_left > 0
                    && !(old(self).tokens@[old(self).current + 3].kind is String)
                        ==> (r matches Err(e) && e@ == PakhiErrView::SyntaxError(
                old(self).tokens@[old(self).current + 3].line,
                old(self).tokens@[old(self).current + 3].src_file_path@,
                "Module path must be static string literal"@,
            )),
        decreases old(self).imports_left, old(self).remaining(), 0int,
    {
        self.advance(1);
        let module_import_name = match self.peek() {
            Some(TokenKind::Identifier) => clone_chars(&self.tokens[self.current].lexeme),
            _ => {
                return Err(self.syntax_error_here("Expected a name for imported module"));
            },
        };
        self.named_module_import(module_import_name, io, pf)?;
        // The `;` is passed.
        self.advance(1);
        self.statements(io, pf)
    }

    /// Passes a comment and reads the statement behind it.
    fn comment_block<T: IO, P: Platform>(&mut self, io: &mut T, pf: &P) -> (r: Result<
        Stmt,
        PakhiErr,
    >)
        requires
            old(self).wf(),
            old(self).current < old(self).tokens.len(),
        ensures
            final(self).wf(),
            final(self).imports_left <= old(self).imports_left,
            r is Ok ==> final(self).imports_left < old(self).imports_left
                || (final(self).same_tokens(old(self)) && old(self).current < final(self).current),
            r is Ok && r->Ok_0 is EOS ==> final(self).current < final(self).tokens@.len(),
            old(self).current + 1 >= old(self).tokens@.len() ==> r is Err,
            old(self).current + 1 < old(self).tokens@.len() && old(self).tokens@[old(self).current
                + 1].kind is EOT ==> r is Ok && r->Ok_0 is EOS
                    && r->Ok_0.line() == old(self).tokens@[old(self).current + 1].line
                        && final(self).same_tokens(old(self))
                            && final(self).current == old(self).current + 1,
        decreases old(self).imports_left, old(self).remaining(), 0int,
    {
        self.advance(1);
        self.statements(io, pf)
    }

    /// Reads a print statement that ends the line.
    fn print_stmt(&mut self) -> (r: Result<Stmt, PakhiErr>)
        requires
            old(self).wf(),
            old(self).current < old(self).tokens.len(),
        ensures
            final(self).has_read_stmt(old(self), r),
            lone_literal(old(self).tokens@, old(self).current + 1) is Some ==> r is Ok
                && is_lone_literal(
                r->Ok_0->Print_0,
                old(self).tokens@,
                old(self).current + 1,
            ) && r->Ok_0.line() == old(self).tokens@[old(self).current as int].line,
            lone_literal(old(self).tokens@, old(self).current + 1) is Some && old(self).current
                + 3 <= usize::MAX ==> final(self).current == old(self).current + 3,
            r is Ok ==> r->Ok_0 is Print,
    {
        let (line, file_name) = self.extract_err_meta()?;
        self.advance(1);
        let expr = self.expression()?;
        // The `;` behind the expression is passed.
        self.advance(1);
        Ok(Stmt::Print(expr, line, file_name))
    }

    /// Reads a print statement that does not end the line.
    fn print_no_newline_stmt(&mut self) -> (r: Result<Stmt, PakhiErr>)
        requires
            old(self).wf(),
            old(self).current < old(self).tokens.len(),
        ensures
            final(self).has_read_stmt(old(self), r),
            lone_literal(old(self).tokens@, old(self).current + 1) is Some ==> r is Ok
                && is_lone_literal(
                r->Ok_0->PrintNoEOL_0,
                old(self).tokens@,
                old(self).current + 1,
            ) && r->Ok_0.line() == old(self).tokens@[old(self).current as int].line,
            lone_literal(old(self).tokens@, old(self).current + 1) is Some && old(self).current
                + 3 <= usize::MAX ==> final(self).current == old(self).current + 3,
            r is Ok ==> r->Ok_0 is PrintNoEOL,
    {
        let (line, file_name) = self.extract_err_meta()?;
        self.advance(1);
        let expr = self.expression()?;
        self.advance(1);
        Ok(Stmt::PrintNoEOL(expr, line, file_name))
    }

    /// Reads what starts with an identifier: a call, an assignment, or an
    /// expression that is a statement.
    fn re_assignment_or_func_call_stmt(&mut self) -> (r: Result<Stmt, PakhiErr>)
        requires
            old(self).wf(),
            old(self).current < old(self).tokens.len(),
        ensures
            final(self).has_read_stmt(old(self), r),
            r is Ok ==> r->Ok_0.line() == old(self).tokens@[old(self).current as int].line,
            old(self).current + 1 < old(self).tokens@.len() && old(self).tokens@[old(self).current
                + 1].kind is ParenStart ==> (r is Ok ==> r->Ok_0 is Expression),
            plain_call(old(self).tokens@, old(self).current as int) ==> r is Ok && is_plain_call(
                r->Ok_0->Expression_0,
                old(self).tokens@,
                old(self).current as int,
            ) && final(self).current == call_end(old(self).tokens@, old(self).current as int),
            old(self).current + 1 < old(self).tokens@.len() && (old(self).tokens@[old(self).current
                + 1].kind is Equal || old(self).tokens@[old(self).current + 1].kind
                is SquareBraceStart) ==> (r matches Ok(s) ==> s is Assignment
                && s->Assignment_0.kind is Reassignment && s->Assignment_0.init_value is Some
                && reads_as(s->Assignment_0.var_name, old(self).tokens@[old(self).current as int])),
            old(self).current + 1 < old(self).tokens@.len() && old(self).tokens@[old(self).current
                + 1].kind is Equal && lone_literal(old(self).tokens@, old(self).current + 2)
                is Some ==> r is Ok && r->Ok_0->Assignment_0.indexes@.len() == 0
                && is_lone_literal(
                r->Ok_0->Assignment_0.init_value->0,
                old(self).tokens@,
                old(self).current + 2,
            ) && final(self).current == moved_on(old(self).current, 4),
    {
        if matches!(self.peek_next(), Some(TokenKind::ParenStart)) {
            let (line, file_name) = self.extract_err_meta()?;
            let expr = self.expression()?;
            return Ok(Stmt::Expression(expr, line, file_name));
        }
        self.re_assignment_stmt()
    }

    /// Reads a declaration: the keyword, a name, and an initialiser unless
    /// a `;` follows the name.
    fn assignment_stmt(&mut self) -> (r: Result<Stmt, PakhiErr>)
        requires
            old(self).wf(),
            old(self).current < old(self).tokens.len(),
        ensures
            final(self).has_read_stmt(old(self), r),
            r is Ok ==> r->Ok_0 is Assignment && r->Ok_0->Assignment_0.kind is FirstAssignment
                && r->Ok_0->Assignment_0.indexes@.len() == 0
                    && r->Ok_0.line() == old(self).tokens@[old(self).current as int].line
                        && reads_as(
                r->Ok_0->Assignment_0.var_name,
                old(self).tokens@[old(self).current + 1],
            ),
            old(self).current + 1 < old(self).tokens@.len() && !(old(self).tokens@[old(self).current
                + 1].kind is Identifier) ==> (r matches Err(e) && e@ == PakhiErrView::SyntaxError(
                old(self).tokens@[old(self).current + 1].line,
                old(self).tokens@[old(self).current + 1].src_file_path@,
                "Expected an Identifier"@,
            )),
            old(self).current + 1 >= old(self).tokens@.len() ==> (r matches Err(e) && e@
                == PakhiErrView::UnexpectedError("Unexpected error, probably missing ';'"@)),
            old(self).current + 2 < old(self).tokens@.len() && old(self).tokens@[old(self).current
                + 1].kind is Identifier && old(self).tokens@[old(self).current + 2].kind
                is Semicolon ==> r is Ok && r->Ok_0->Assignment_0.init_value is None
                    && final(self).current == old(self).current + 3,
            old(self).current + 4 < old(self).tokens@.len() && old(self).tokens@[old(self).current
                + 1].kind is Identifier && !(old(self).tokens@[old(self).current + 2].kind
                is Semicolon) && lone_literal(old(self).tokens@, old(self).current + 3) is Some
                && old(self).tokens@[old(self).current + 4].kind is Semicolon ==> r is Ok
                && r->Ok_0->Assignment_0.init_value is Some && is_lone_literal(
                r->Ok_0->Assignment_0.init_value->0,
                old(self).tokens@,
                old(self).current + 3,
            ) && final(self).current == old(self).current + 5,
    {
        let (line, file_name) = self.extract_err_meta()?;
        self.advance(1);
        if !matches!(self.peek(), Some(TokenKind::Identifier)) {
            return Err(self.syntax_error_here("Expected an Identifier"));
        }
        let var_name = self.tokens[self.current].clone();
        self.advance(1);
        let stmt;
        if matches!(self.peek(), Some(TokenKind::Semicolon)) {
            stmt =
            Stmt::Assignment(
                Assignment {
                    kind: AssignmentKind::FirstAssignment,
                    var_name,
                    indexes: Vec::new(),
                    init_value: None,
                },
                line,
                file_name,
            );
        } else {
            // The `=` is passed.
            self.advance(1);
            let expr = self.expression()?;
            stmt =
            Stmt::Assignment(
                Assignment {
                    kind: AssignmentKind::FirstAssignment,
                    var_name,
                    indexes: Vec::new(),
                    init_value: Some(expr),
                },
                line,
                file_name,
            );
        }
        if !matches!(self.peek(), Some(TokenKind::Semicolon)) {
            if self.current >= self.tokens.len() || self.current == 0 {
                return Err(PakhiErr::unexpected("Unexpected error"));
            } else {
                // The line end was passed, so the error is on the line
                // of the token before.
                let line = self.tokens[self.current - 1].line;
                let file_name = self.tokens[self.current - 1].src_file_path.clone();
                return Err(PakhiErr::syntax(line, &file_name, "Expected ';'"));
            }
        }
        self.advance(1);
        Ok(stmt)
    }

    /// Reads an assignment to a variable or to an element, or an
    /// expression that is a statement.
    #[verifier::loop_isolation(false)]
    fn re_assignment_stmt(&mut self) -> (r: Result<Stmt, PakhiErr>)
        requires
            old(self).wf(),
            old(self).current < old(self).tokens.len(),
        ensures
            final(self).has_read_stmt(old(self), r),
            r is Ok ==> r->Ok_0.line() == old(self).tokens@[old(self).current as int].line,
            old(self).current + 1 < old(self).tokens@.len() && (old(self).tokens@[old(self).current
                + 1].kind is Equal || old(self).tokens@[old(self).current + 1].kind
                is SquareBraceStart) ==> (r matches Ok(s) ==> s is Assignment
                && s->Assignment_0.kind is Reassignment && s->Assignment_0.init_value is Some
                && reads_as(s->Assignment_0.var_name, old(self).tokens@[old(self).current as int])),
            old(self).current + 1 < old(self).tokens@.len() && old(self).tokens@[old(self).current
                + 1].kind is Equal && lone_literal(old(self).tokens@, old(self).current + 2)
                is Some ==> r is Ok && r->Ok_0->Assignment_0.indexes@.len() == 0
                && is_lone_literal(
                r->Ok_0->Assignment_0.init_value->0,
                old(self).tokens@,
                old(self).current + 2,
            ) && final(self).current == moved_on(old(self).current, 4),
            !(old(self).current + 1 < old(self).tokens@.len()
                && (old(self).tokens@[old(self).current + 1].kind is Equal
                    || old(self).tokens@[old(self).current + 1].kind
                is SquareBraceStart)) ==> (r is Ok ==> r->Ok_0 is Expression) && (lone_literal(
                old(self).tokens@,
                old(self).current as int,
            ) is Some ==> r is Ok && is_lone_literal(
                r->Ok_0->Expression_0,
                old(self).tokens@,
                old(self).current as int,
            ) && final(self).current == old(self).current + 1),
    {
        if !matches!(self.peek_next(), Some(TokenKind::Equal) | Some(TokenKind::SquareBraceStart)) {
            return self.expression_stmt();
        }
        let (line, file_name) = self.extract_err_meta()?;
        let var_name = self.tokens[self.current].clone();
        self.advance(1);
        // Each index is written in brackets, and so is read as a list.
        let mut indexes: Vec<Expr> = Vec::new();
        while !matches!(self.peek(), Some(TokenKind::Equal))
            invariant
                self.same_tokens(old(self)),
                self.wf(),
                old(self).current < self.current,
                old(self).tokens@[old(self).current + 1].kind is Equal
                    ==> self.current == old(self).current + 1 && indexes@.len() == 0,
            decreases self.remaining(),
        {
            let index = self.expression()?;
            if let Expr::Primary(Primary::List(_), _, _) = &index {
                indexes.push(index);
            } else {
                return Err(self.syntax_error_here("Array index expected"));
            }
        }
        // The `=` is passed.
        self.advance(1);
        let expr = self.expression()?;
        // The `;` is passed.
        self.advance(1);
        Ok(
            Stmt::Assignment(
                Assignment {
                    kind: AssignmentKind::Reassignment,
                    var_name,
                    indexes,
                    init_value: Some(expr),
                },
                line,
                file_name,
            ),
        )
    }

    /// Reads an expression that is a statement.
    fn expression_stmt(&mut self) -> (r: Result<Stmt, PakhiErr>)
        requires
            old(self).wf(),
        ensures
            final(self).has_read_stmt(old(self), r),
            r is Ok ==> r->Ok_0 is Expression
                && r->Ok_0.line() == old(self).tokens@[old(self).current as int].line
                    && r->Ok_0.file() == old(self).tokens@[old(self).current as int].src_file_path@,
            old(self).current >= old(self).tokens@.len() ==> (r matches Err(e) && e@
                == PakhiErrView::UnexpectedError("Unexpected error, probably missing ';'"@)),
            lone_literal(old(self).tokens@, old(self).current as int) is Some ==> r is Ok
                && is_lone_literal(
                r->Ok_0->Expression_0,
                old(self).tokens@,
                old(self).current as int,
            ) && final(self).current == old(self).current + 1,
            plain_call(old(self).tokens@, old(self).current as int) ==> r is Ok && is_plain_call(
                r->Ok_0->Expression_0,
                old(self).tokens@,
                old(self).current as int,
            ) && final(self).current == call_end(old(self).tokens@, old(self).current as int),
    {
        let (line, file_name) = self.extract_err_meta()?;
        let expr = self.expression()?;
        Ok(Stmt::Expression(expr, line, file_name))
    }

    /// The line and the file of the current token, which exists.
    fn meta_here(&self) -> (r: (u32, String))
        requires
            self.current < self.tokens.len(),
        ensures
            r.0 == self.tokens@[self.current as int].line,
            r.1@ == self.tokens@[self.current as int].src_file_path@,
    {
        (self.tokens[self.current].line, self.tokens[self.current].src_file_path.clone())
    }

    /// Reads the keyword of a function definition.
    fn func_def_stmt(&mut self) -> (r: Stmt)
        requires
            old(self).wf(),
            old(self).current < old(self).tokens.len(),
        ensures
            final(self).has_read_stmt(old(self), Ok(r)),
            final(self).current == old(self).current + 1,
            r is FuncDef,
            r.line() == old(self).tokens@[old(self).current as int].line,
    {
        let (line, file_name) = self.meta_here();
        self.advance(1);
        Stmt::FuncDef(line, file_name)
    }

    /// Reads a return statement; without a value the function returns nil.
    fn return_stmt(&mut self) -> (r: Result<Stmt, PakhiErr>)
        requires
            old(self).wf(),
            old(self).current < old(self).tokens.len(),
        ensures
            final(self).has_read_stmt(old(self), r),
            r is Ok ==> r->Ok_0 is Return
                && r->Ok_0.line() == old(self).tokens@[old(self).current as int].line
                    && r->Ok_0.file() == old(self).tokens@[old(self).current as int].src_file_path@,
            old(self).current + 1 < old(self).tokens@.len() && old(self).tokens@[old(self).current
                + 1].kind is Semicolon ==> r is Ok && r->Ok_0->Return_0 is Primary
                && r->Ok_0->Return_0->Primary_0 is Nil && final(self).current == old(self).current
                + 2,
            lone_literal(old(self).tokens@, old(self).current + 1) is Some ==> r is Ok
                && is_lone_literal(r->Ok_0->Return_0, old(self).tokens@, old(self).current + 1)
                && final(self).current == moved_on(old(self).current, 3),
    {
        let (line, file_name) = self.meta_here();
        self.advance(1);
        let return_value = if !matches!(self.peek(), Some(TokenKind::Semicolon)) {
            self.expression()?
        } else {
            Expr::Primary(Primary::Nil, line, file_name.clone())
        };
        // The `;` is passed.
        self.advance(1);
        Ok(Stmt::Return(return_value, line, file_name))
    }

    /// Reads the `{` that starts a block.
    fn block_start(&mut self) -> (r: Stmt)
        requires
            old(self).wf(),
            old(self).current < old(self).tokens.len(),
        ensures
            final(self).has_read_stmt(old(self), Ok(r)),
            final(self).current == old(self).current + 1,
            r is BlockStart,
            r.line() == old(self).tokens@[old(self).current as int].line,
    {
        let (line, file_name) = self.meta_here();
        self.advance(1);
        Stmt::BlockStart(line, file_name)
    }

    /// Reads the `}` that ends a block.
    fn block_end(&mut self) -> (r: Stmt)
        requires
            old(self).wf(),
            old(self).current < old(self).tokens.len(),
        ensures
            final(self).has_read_stmt(old(self), Ok(r)),
            final(self).current == old(self).current + 1,
            r is BlockEnd,
            r.line() == old(self).tokens@[old(self).current as int].line,
    {
        let (line, file_name) = self.meta_here();
        self.advance(1);
        Stmt::BlockEnd(line, file_name)
    }

    /// Reads the keyword that starts a loop.
    fn loop_stmt(&mut self) -> (r: Stmt)
        requires
            old(self).wf(),
            old(self).current < old(self).tokens.len(),
        ensures
            final(self).has_read_stmt(old(self), Ok(r)),
            final(self).current == old(self).current + 1,
            r is Loop,
            r.line() == old(self).tokens@[old(self).current as int].line,
    {
        let (line, file_name) = self.meta_here();
        self.advance(1);
        Stmt::Loop(line, file_name)
    }

    /// Reads the keyword that ends a loop, and the `;` behind it.
    fn continue_stmt(&mut self) -> (r: Stmt)
        requires
            old(self).wf(),
            old(self).current < old(self).tokens.len(),
        ensures
            final(self).has_read_stmt(old(self), Ok(r)),
            r is Continue,
            r.line() == old(self).tokens@[old(self).current as int].line,
    {
        let (line, file_name) = self.meta_here();
        self.advance(2);
        Stmt::Continue(line, file_name)
    }

    /// Reads the keyword that leaves a loop, and the `;` behind it.
    fn break_stmt(&mut self) -> (r: Stmt)
        requires
            old(self).wf(),
            old(self).current < old(self).tokens.len(),
        ensures
            final(self).has_read_stmt(old(self), Ok(r)),
            r is Break,
            r.line() == old(self).tokens@[old(self).current as int].line,
    {
        let (line, file_name) = self.meta_here();
        self.advance(2);
        Stmt::Break(line, file_name)
    }

    /// Reads the keyword of a condition and the condition.
    fn if_statement(&mut self) -> (r: Result<Stmt, PakhiErr>)
        requires
            old(self).wf(),
            old(self).current < old(self).tokens.len(),
        ensures
            final(self).has_read_stmt(old(self), r),
            r is Ok ==> r->Ok_0 is If
                && r->Ok_0.line() == old(self).tokens@[old(self).current as int].line
                    && r->Ok_0.file() == old(self).tokens@[old(self).current as int].src_file_path@,
            lone_literal(old(self).tokens@, old(self).current + 1) is Some ==> r is Ok
                && is_lone_literal(r->Ok_0->If_0, old(self).tokens@, old(self).current + 1)
                && final(self).current == old(self).current + 2,
    {
        let (line, file_name) = self.meta_here();
        self.advance(1);
        let condition = self.expression()?;
        Ok(Stmt::If(condition, line, file_name))
    }

    /// Reads the keyword of an `else`.
    fn else_statement(&mut self) -> (r: Stmt)
        requires
            old(self).wf(),
            old(self).current < old(self).tokens.len(),
        ensures
            final(self).has_read_stmt(old(self), Ok(r)),
            final(self).current == old(self).current + 1,
            r is Else,
            r.line() == old(self).tokens@[old(self).current as int].line,
    {
        let (line, file_name) = self.meta_here();
        self.advance(1);
        Stmt::Else(line, file_name)
    }

    /// Reads all statements. The last statement, and no other, is the
    /// end-of-statements marker.
    #[verifier::loop_isolation(false)]
    #[verifier::rlimit(40)]
    fn parse<T: IO, P: Platform>(&mut self, io: &mut T, pf: &P) -> (r: Result<
        Vec<Stmt>,
        PakhiErr,
    >)
        requires
            old(self).wf(),
        ensures
            r matches Ok(statements) ==> {
                &&& statements@.len() >= 1
                &&& statements@.last() is EOS
                &&& forall|k: int|
                    0 <= k < statements@.len() - 1 ==> !(#[trigger] statements@[k] is EOS)
            },
            old(self).current == 0 && old(self).tokens@.len() >= 1 && old(self).tokens@[0].kind
                is EOT && (forall|i: int|
                0 <= i < old(self).tokens@.len() ==> !((#[trigger] old(self).tokens@[i]).kind
                    is Import)) ==> (r matches Ok(statements) && statements@.len() == 1),
    {
        // The modules that the main module imports are noted first.
        let parent_module_file_name = self.extract_filename(&self.main_module_path, pf);
        let child_modules_paths = self.extract_all_import_paths(&self.tokens, pf)?;
        let new_childs = self.extract_filenames(&child_modules_paths, pf);
        self.parent_child_relationship.insert(parent_module_file_name, new_childs);
        self.expand_dirname_constant_for_root_module(pf);

        let mut statements: Vec<Stmt> = Vec::new();
        let ghost only_end = old(self).current == 0 && old(self).tokens@.len() >= 1
            && old(self).tokens@[0].kind is EOT && (forall|i: int|
            0 <= i < old(self).tokens@.len() ==> !((#[trigger] old(self).tokens@[i]).kind
                is Import));
        loop
            invariant
                self.wf(),
                forall|k: int| 0 <= k < statements@.len() ==> !(#[trigger] statements@[k] is EOS),
                only_end ==> statements@.len() == 0 && self.current == 0 && self.tokens@.len() >= 1
                    && self.tokens@[0].kind is EOT,
            decreases self.imports_left, self.remaining(),
        {
            let s = self.statements(io, pf)?;
            if let Stmt::EOS(_, _) = &s {
                statements.push(s);
                return Ok(statements);
            }
            statements.push(s);
            if self.current >= self.tokens.len() {
                return Err(PakhiErr::unexpected("Error at last line, Expected a ';'"));
            }
            if matches!(self.peek(), Some(TokenKind::Semicolon)) {
                // A semicolon that no statement has taken is passed: the
                // one behind a call, for one.
                self.advance(1);
            }
        }
    }
}

/// Turns the tokens of the main module into statements. Imports are read
/// from files through `io`.
pub fn parse<T: IO, P: Platform>(
    main_module_path: String,
    tokens: Vec<Token>,
    io: &mut T,
    pf: &P,
) -> (r: Result<Vec<Stmt>, PakhiErr>)
    ensures
        r matches Ok(statements) ==> {
            &&& statements@.len() >= 1
            &&& statements@.last() is EOS
            &&& forall|k: int| 0 <= k < statements@.len() - 1
                ==> !(#[trigger] statements@[k] is EOS)
        },
        tokens@.len() == 0 ==> r is Err,
        tokens@.len() >= 1 && tokens@[0].kind is EOT && (forall|i: int|
            0 <= i < tokens@.len() ==> !((#[trigger] tokens@[i]).kind is Import)) ==> (
        r matches Ok(statements) && statements@.len() == 1),
{
    if tokens.len() == 0 {
        return Err(PakhiErr::unexpected("Unexpected error, probably missing ';'"));
    }
    let mut parser = Parser::new(tokens);
    parser.main_module_path = main_module_path;
    parser.parse(io, pf)
}

} // verus!
