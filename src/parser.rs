use vstd::prelude::*;
use crate::ast::{fold_terms, Arithmetic, Node, Number, Operator, Program, Statement};
use crate::tokenizer::{Position, Token, TokenType};

verus! {

/// Recursive-descent parser over a token buffer, with one token of lookahead.
///
/// ```text
/// Program    := Statement* EOF
/// Statement  := Arithmetic ';'
/// Arithmetic := Node ( Op Node )*
/// Node       := Number | '(' Arithmetic ')'
/// Op         := '+' | '-' | '*' | '/'
/// ```
#[derive(Debug)]
pub struct Parser {
    index: usize,
    tokens: Vec<Token>,
    open_paren_count: usize,
}

#[derive(Debug, Clone, Copy, PartialEq, Eq, Structural)]
pub enum ParseErrorKind {
    /// The token cannot start an operand (a `-` in front of an operand is
    /// reserved and not implemented).
    UnexpectedToken,
    /// An operand is missing before `;`, `)` or the end of the input.
    MissingOperand,
    /// A `(` is still open where its expression ends.
    UnmatchedOpenParen,
    /// A `)` closes no `(`.
    UnmatchedCloseParen,
    /// A complete expression is not followed by `;`.
    MissingTerminator,
}

/// The text that explains a diagnostic of the given kind.
pub open spec fn message_text(kind: ParseErrorKind) -> Seq<char> {
    match kind {
        ParseErrorKind::UnexpectedToken => "cannot start an operand"@,
        ParseErrorKind::MissingOperand => "an operand is missing"@,
        ParseErrorKind::UnmatchedOpenParen => "a parenthesis is not closed"@,
        ParseErrorKind::UnmatchedCloseParen => "this parenthesis closes nothing"@,
        ParseErrorKind::MissingTerminator => "the statement does not end with `;`"@,
    }
}

impl ParseErrorKind {
    pub fn message(&self) -> (r: &'static str)
        ensures
            r@ == message_text(*self),
    {
        match self {
            ParseErrorKind::UnexpectedToken => "cannot start an operand",
            ParseErrorKind::MissingOperand => "an operand is missing",
            ParseErrorKind::UnmatchedOpenParen => "a parenthesis is not closed",
            ParseErrorKind::UnmatchedCloseParen => "this parenthesis closes nothing",
            ParseErrorKind::MissingTerminator => "the statement does not end with `;`",
        }
    }
}

/// A diagnostic: what went wrong, and the token at which it was found.
#[derive(Debug, Clone, PartialEq, Eq)]
pub struct ParseError {
    pub kind: ParseErrorKind,
    pub token_type: TokenType,
    pub lexeme: String,
    pub pos: Position,
}

pub open spec fn error_at(kind: ParseErrorKind, t: Token) -> ParseError {
    ParseError { kind, token_type: t.kind(), lexeme: t.lexeme(), pos: t.pos() }
}

/// The tokens that the grammar sees: newlines are layout only.
pub open spec fn significant(ts: Seq<Token>) -> Seq<Token> {
    ts.filter(|t: Token| is_significant(t))
}

pub open spec fn is_significant(t: Token) -> bool {
    t.kind() != TokenType::NewLine
}

/// Kind of the token at `i`; past either end there is only `EOF`.
pub open spec fn kind_at(s: Seq<Token>, i: int) -> TokenType {
    if 0 <= i < s.len() {
        s[i].kind()
    } else {
        TokenType::EOF
    }
}

pub open spec fn tokens_left(s: Seq<Token>, i: int) -> int {
    if i < s.len() {
        s.len() - i
    } else {
        0
    }
}

pub open spec fn is_terminator(k: TokenType) -> bool {
    k == TokenType::Semicolon || k == TokenType::EOF
}

pub open spec fn operator_for(k: TokenType) -> Option<Operator> {
    match k {
        TokenType::Plus => Some(Operator::Plus),
        TokenType::Minus => Some(Operator::Minus),
        TokenType::Asterisk => Some(Operator::Mul),
        TokenType::Slash => Some(Operator::Div),
        _ => None,
    }
}

/// `Node` at `i`: the operand and how many tokens it takes.
pub open spec fn parse_node(s: Seq<Token>, i: int) -> Result<(Node, nat), ParseError>
    decreases tokens_left(s, i), 0int,
{
    match kind_at(s, i) {
        TokenType::Number => Ok((Node::Number(Number { inner: s[i].lexeme() }), 1)),
        TokenType::LeftParenthesis => match parse_arithmetic(s, i + 1) {
            Err(e) => Err(e),
            Ok((a, n)) => if kind_at(s, i + 1 + n) == TokenType::RightParenthesis {
                Ok((Node::Arithmetic(Box::new(a)), n + 2))
            } else {
                Err(error_at(ParseErrorKind::UnmatchedOpenParen, s[i + 1 + n]))
            },
        },
        TokenType::Semicolon | TokenType::EOF | TokenType::RightParenthesis => Err(
            error_at(ParseErrorKind::MissingOperand, s[i]),
        ),
        _ => Err(error_at(ParseErrorKind::UnexpectedToken, s[i])),
    }
}

/// `( Op Node )*` at `i`: the pairs, and how many tokens they take.
pub open spec fn parse_chain(s: Seq<Token>, i: int) -> Result<(Seq<(Operator, Node)>, nat), ParseError>
    decreases tokens_left(s, i), 0int,
{
    match operator_for(kind_at(s, i)) {
        None => Ok((Seq::empty(), 0)),
        Some(op) => match parse_node(s, i + 1) {
            Err(e) => Err(e),
            Ok((n, a)) => match parse_chain(s, i + 1 + a) {
                Err(e) => Err(e),
                Ok((rest, b)) => Ok((seq![(op, n)] + rest, 1 + a + b)),
            },
        },
    }
}

/// `Arithmetic` at `i`, as the tree that the rewrites build, and how many
/// tokens it takes.
pub open spec fn parse_arithmetic(s: Seq<Token>, i: int) -> Result<(Arithmetic, nat), ParseError>
    decreases tokens_left(s, i), 1int,
{
    match parse_node(s, i) {
        Err(e) => Err(e),
        Ok((first, a)) => match parse_chain(s, i + a) {
            Err(e) => Err(e),
            Ok((rest, b)) => Ok((fold_terms(first, rest), a + b)),
        },
    }
}

/// `Statement` at `i`, and how many tokens it takes.
pub open spec fn parse_statement(s: Seq<Token>, i: int) -> Result<(Statement, nat), ParseError> {
    match parse_arithmetic(s, i) {
        Err(e) => Err(e),
        Ok((a, n)) => {
            let k = kind_at(s, i + n);
            if k == TokenType::Semicolon {
                Ok((Statement::Arithmetic(a), n + 1))
            } else if k == TokenType::RightParenthesis {
                Err(error_at(ParseErrorKind::UnmatchedCloseParen, s[i + n]))
            } else {
                Err(error_at(ParseErrorKind::MissingTerminator, s[i + n]))
            }
        },
    }
}

/// How many tokens lie between `i` and the next `;` or `EOF`.
pub open spec fn terminator_distance(s: Seq<Token>, i: int) -> nat
    decreases tokens_left(s, i),
{
    if is_terminator(kind_at(s, i)) {
        0
    } else {
        1 + terminator_distance(s, i + 1)
    }
}

/// Where parsing goes on after the statement that starts at `i` failed: just
/// past the `;` that ends it, or at `EOF`.
pub open spec fn recovery_point(s: Seq<Token>, i: int) -> int {
    let t = i + terminator_distance(s, i);
    if kind_at(s, t) == TokenType::Semicolon {
        t + 1
    } else {
        t
    }
}

/// The statements that parse from `i` on, and the diagnostics of those that
/// do not, both in order.
pub open spec fn parse_program(s: Seq<Token>, i: int) -> (Seq<Statement>, Seq<ParseError>)
    decreases tokens_left(s, i),
{
    if kind_at(s, i) == TokenType::EOF {
        (Seq::empty(), Seq::empty())
    } else {
        match parse_statement(s, i) {
            Ok((st, n)) => {
                let (sts, errs) = parse_program(s, i + n);
                (seq![st] + sts, errs)
            },
            Err(e) => {
                let (sts, errs) = parse_program(s, recovery_point(s, i));
                (sts, seq![e] + errs)
            },
        }
    }
}

/// No token in `[a, b)` ends a statement.
pub open spec fn passes_no_terminator(s: Seq<Token>, a: int, b: int) -> bool {
    forall|k: int| a <= k < b ==> !is_terminator(#[trigger] kind_at(s, k))
}

pub open spec fn prepend_chain(
    done: Seq<(Operator, Node)>,
    used: nat,
    rest: Result<(Seq<(Operator, Node)>, nat), ParseError>,
) -> Result<(Seq<(Operator, Node)>, nat), ParseError> {
    match rest {
        Ok((pairs, n)) => Ok((done + pairs, used + n)),
        Err(e) => Err(e),
    }
}

proof fn lemma_terminator_distance(s: Seq<Token>, a: int, b: int)
    requires
        a <= b,
        passes_no_terminator(s, a, b),
        is_terminator(kind_at(s, b)),
    ensures
        a + terminator_distance(s, a) == b,
    decreases b - a,
{
    if a < b {
        assert(!is_terminator(kind_at(s, a)));
        lemma_terminator_distance(s, a + 1, b);
    }
}

fn operator_from(k: TokenType) -> (r: Option<Operator>)
    ensures
        r == operator_for(k),
{
    match k {
        TokenType::Plus => Some(Operator::Plus),
        TokenType::Minus => Some(Operator::Minus),
        TokenType::Asterisk => Some(Operator::Mul),
        TokenType::Slash => Some(Operator::Div),
        _ => None,
    }
}

impl Parser {
    pub closed spec fn token_seq(&self) -> Seq<Token> {
        self.tokens@
    }

    pub closed spec fn cursor(&self) -> int {
        self.index as int
    }

    /// The state of the parser while it works inside a statement.
    spec fn inv(&self) -> bool {
        &&& self.tokens@.len() > 0
        &&& self.tokens@.last().kind() == TokenType::EOF
        &&& self.index < self.tokens@.len()
        &&& self.open_paren_count <= self.index
    }

    /// The state of the parser between statements.
    pub closed spec fn wf(&self) -> bool {
        &&& self.inv()
        &&& self.open_paren_count == 0
    }

    /// Keeps the tokens that the grammar sees. The stream must end with `EOF`.
    pub fn new(tokens: Vec<Token>) -> (r: Parser)
        requires
            tokens@.len() > 0,
            tokens@.last().kind() == TokenType::EOF,
        ensures
            r.wf(),
            r.token_seq() == significant(tokens@),
            r.cursor() == 0,
    {
        let ghost all = tokens@;
        let ghost keep = |t: Token| is_significant(t);
        let mut kept: Vec<Token> = Vec::new();
        for t in it: tokens.into_iter()
            invariant
                it.seq() == all,
                keep == (|t: Token| is_significant(t)),
                kept@ == all.take(it.index() as int).filter(keep),
        {
            proof {
                all.take(it.index() as int).lemma_filter_push(t, keep);
                assert(all.take(it.index() + 1) =~= all.take(it.index() as int).push(t));
            }
            if t.get_t_type() != TokenType::NewLine {
                kept.push(t);
            }
        }
        proof {
            assert(all.take(all.len() as int) =~= all);
            assert(all.drop_last().push(all.last()) =~= all);
            all.drop_last().lemma_filter_push(all.last(), keep);
        }
        Parser { index: 0, tokens: kept, open_paren_count: 0 }
    }

    fn now(&self) -> (r: &Token)
        requires
            self.index < self.tokens@.len(),
        ensures
            *r == self.tokens@[self.index as int],
    {
        &self.tokens[self.index]
    }

    /// Moves the cursor one token on; on the last token it stays.
    fn next(&mut self)
        ensures
            old(self).index + 1 < old(self).tokens@.len() ==> {
                final(self).index == old(self).index + 1
            },
            old(self).index + 1 >= old(self).tokens@.len() ==> {
                final(self).index == old(self).index
            },
            final(self).tokens == old(self).tokens,
            final(self).open_paren_count == old(self).open_paren_count,
    {
        if self.index < self.tokens.len() && self.tokens.len() - self.index > 1 {
            self.index += 1;
        }
    }

    fn is_end_of_statement(&self) -> (r: bool)
        requires
            self.index < self.tokens@.len(),
        ensures
            r == is_terminator(kind_at(self.tokens@, self.index as int)),
    {
        let k = self.now().get_t_type();
        k == TokenType::Semicolon || k == TokenType::EOF
    }

    fn inc_open_paren_count(&mut self)
        requires
            old(self).open_paren_count < usize::MAX,
        ensures
            final(self).open_paren_count == old(self).open_paren_count + 1,
            final(self).index == old(self).index,
            final(self).tokens == old(self).tokens,
    {
        self.open_paren_count += 1;
    }

    /// Closes one open parenthesis; with none open, the `)` is unmatched.
    fn dec_open_paren_count(&mut self) -> (r: Result<(), ParseErrorKind>)
        ensures
            old(self).open_paren_count == 0 ==> {
                &&& r == Err::<(), ParseErrorKind>(ParseErrorKind::UnmatchedCloseParen)
                &&& final(self).open_paren_count == 0
            },
            old(self).open_paren_count > 0 ==> {
                &&& r == Ok::<(), ParseErrorKind>(())
                &&& final(self).open_paren_count == old(self).open_paren_count - 1
            },
            final(self).index == old(self).index,
            final(self).tokens == old(self).tokens,
    {
        if self.open_paren_count == 0 {
            return Err(ParseErrorKind::UnmatchedCloseParen);
        }
        self.open_paren_count -= 1;
        Ok(())
    }

    /// `Node` at the cursor.
    fn get_node(&mut self) -> (r: Result<Node, ParseError>)
        requires
            old(self).inv(),
        ensures
            final(self).inv(),
            final(self).tokens@ == old(self).tokens@,
            old(self).index <= final(self).index,
            passes_no_terminator(old(self).tokens@, old(self).index as int, final(self).index as int),
            match parse_node(old(self).tokens@, old(self).index as int) {
                Ok((n, used)) => {
                    &&& r == Ok::<Node, ParseError>(n)
                    &&& final(self).index == old(self).index + used
                    &&& final(self).open_paren_count == old(self).open_paren_count
                },
                Err(e) => r == Err::<Node, ParseError>(e),
            },
        decreases tokens_left(old(self).tokens@, old(self).index as int), 0int,
    {
        let kind = self.now().get_t_type();
        if kind == TokenType::Number {
            let node = Node::Number(Number::new(self.now().get_inner()));
            self.next();
            Ok(node)
        } else if kind == TokenType::LeftParenthesis {
            self.next();
            self.inc_open_paren_count();
            let inner = match self.get_arithmetic() {
                Ok(a) => a,
                Err(e) => return Err(e),
            };
            if self.now().get_t_type() == TokenType::RightParenthesis {
                match self.dec_open_paren_count() {
                    Ok(()) => {
                        self.next();
                        Ok(Node::Arithmetic(Box::new(inner)))
                    },
                    Err(kind) => Err(self.error_here(kind)),
                }
            } else {
                Err(self.error_here(ParseErrorKind::UnmatchedOpenParen))
            }
        } else if kind == TokenType::Semicolon || kind == TokenType::EOF || kind
            == TokenType::RightParenthesis {
            Err(self.error_here(ParseErrorKind::MissingOperand))
        } else {
            Err(self.error_here(ParseErrorKind::UnexpectedToken))
        }
    }

    /// `Arithmetic` at the cursor: each further `op node` is folded in with
    /// `insert_top` when `op` is additive and with `insert_right` otherwise.
    fn get_arithmetic(&mut self) -> (r: Result<Arithmetic, ParseError>)
        requires
            old(self).inv(),
        ensures
            final(self).inv(),
            final(self).tokens@ == old(self).tokens@,
            old(self).index <= final(self).index,
            passes_no_terminator(old(self).tokens@, old(self).index as int, final(self).index as int),
            match parse_arithmetic(old(self).tokens@, old(self).index as int) {
                Ok((a, used)) => {
                    &&& r == Ok::<Arithmetic, ParseError>(a)
                    &&& final(self).index == old(self).index + used
                    &&& final(self).open_paren_count == old(self).open_paren_count
                },
                Err(e) => r == Err::<Arithmetic, ParseError>(e),
            },
        decreases tokens_left(old(self).tokens@, old(self).index as int), 1int,
    {
        let ghost s = self.tokens@;
        let ghost i = self.index as int;
        let ghost count = self.open_paren_count;
        let first = match self.get_node() {
            Ok(n) => n,
            Err(e) => return Err(e),
        };
        let ghost j = self.index as int;
        let ghost first_node = first;
        let mut tree = Arithmetic::Term(first);
        let ghost mut done: Seq<(Operator, Node)> = Seq::empty();
        assert(prepend_chain(done, 0, parse_chain(s, j)) == parse_chain(s, j)) by {
            if let Ok((pairs, n)) = parse_chain(s, j) {
                assert(done + pairs =~= pairs);
            }
        }
        loop
            invariant
                self.inv(),
                self.tokens@ == s,
                s == old(self).tokens@,
                i == old(self).index,
                i <= j <= self.index,
                self.open_paren_count == count,
                passes_no_terminator(s, i, self.index as int),
                parse_node(s, i) == Ok::<(Node, nat), ParseError>((first_node, (j - i) as nat)),
                tree == fold_terms(first_node, done),
                parse_chain(s, j) == prepend_chain(
                    done,
                    (self.index - j) as nat,
                    parse_chain(s, self.index as int),
                ),
            ensures
                operator_for(kind_at(s, self.index as int)) is None,
            decreases tokens_left(s, self.index as int),
        {
            let op = match operator_from(self.now().get_t_type()) {
                Some(op) => op,
                None => break,
            };
            self.next();
            let node = match self.get_node() {
                Ok(n) => n,
                Err(e) => return Err(e),
            };
            proof {
                if let Ok((pairs, n)) = parse_chain(s, self.index as int) {
                    assert(done + (seq![(op, node)] + pairs) =~= done.push((op, node)) + pairs);
                }
                assert(done.push((op, node)).drop_last() =~= done);
            }
            tree = if op.additive() {
                tree.insert_top(op, node)
            } else {
                tree.insert_right(op, node)
            };
            proof {
                done = done.push((op, node));
            }
        }
        proof {
            if let Ok((pairs, n)) = parse_chain(s, self.index as int) {
                assert(done + pairs =~= done);
            }
        }
        Ok(tree)
    }

    /// `Statement` at the cursor, with its `;`.
    fn get_statement(&mut self) -> (r: Result<Statement, ParseError>)
        requires
            old(self).wf(),
        ensures
            final(self).inv(),
            final(self).tokens@ == old(self).tokens@,
            old(self).index <= final(self).index,
            match parse_statement(old(self).tokens@, old(self).index as int) {
                Ok((st, used)) => {
                    &&& r == Ok::<Statement, ParseError>(st)
                    &&& final(self).index == old(self).index + used
                    &&& final(self).wf()
                },
                Err(e) => {
                    &&& r == Err::<Statement, ParseError>(e)
                    &&& passes_no_terminator(
                        old(self).tokens@,
                        old(self).index as int,
                        final(self).index as int,
                    )
                },
            },
    {
        let arithmetic = match self.get_arithmetic() {
            Ok(a) => a,
            Err(e) => return Err(e),
        };
        let kind = self.now().get_t_type();
        if kind == TokenType::Semicolon {
            self.next();
            Ok(Statement::Arithmetic(arithmetic))
        } else if kind == TokenType::RightParenthesis && self.open_paren_count == 0 {
            Err(self.error_here(ParseErrorKind::UnmatchedCloseParen))
        } else {
            Err(self.error_here(ParseErrorKind::MissingTerminator))
        }
    }

    /// After a failed statement that started at `start`: moves past the `;`
    /// that ends it, or to `EOF`.
    fn skip_statement(&mut self, Ghost(start): Ghost<int>)
        requires
            old(self).inv(),
            0 <= start <= old(self).index,
            passes_no_terminator(old(self).tokens@, start, old(self).index as int),
        ensures
            final(self).inv(),
            final(self).tokens@ == old(self).tokens@,
            final(self).index == recovery_point(old(self).tokens@, start),
    {
        let ghost s = self.tokens@;
        while !self.is_end_of_statement()
            invariant
                self.inv(),
                self.tokens@ == s,
                s == old(self).tokens@,
                start <= self.index,
                passes_no_terminator(s, start, self.index as int),
            decreases tokens_left(s, self.index as int),
        {
            self.next();
        }
        proof {
            lemma_terminator_distance(s, start, self.index as int);
        }
        if self.now().get_t_type() == TokenType::Semicolon {
            self.next();
        }
    }

    /// Parses every statement. A statement that fails gives its diagnostic,
    /// and parsing goes on after its `;`.
    pub fn parse_all(&mut self) -> (r: (Program, Vec<ParseError>))
        requires
            old(self).wf(),
        ensures
            final(self).wf(),
            final(self).token_seq() == old(self).token_seq(),
            (r.0@, r.1@) == parse_program(old(self).token_seq(), old(self).cursor()),
    {
        let ghost s = self.tokens@;
        let ghost i = self.index as int;
        let mut program = Program::new();
        let mut errors: Vec<ParseError> = Vec::new();
        assert(program@ + parse_program(s, i).0 =~= parse_program(s, i).0);
        assert(errors@ + parse_program(s, i).1 =~= parse_program(s, i).1);
        while self.now().get_t_type() != TokenType::EOF
            invariant
                self.wf(),
                self.tokens@ == s,
                s == old(self).tokens@,
                i == old(self).index,
                parse_program(s, i) == (
                    program@ + parse_program(s, self.index as int).0,
                    errors@ + parse_program(s, self.index as int).1,
                ),
            decreases tokens_left(s, self.index as int),
        {
            let ghost start = self.index as int;
            match self.get_statement() {
                Ok(st) => {
                    let ghost after = parse_program(s, self.index as int);
                    assert(program@.push(st) + after.0 =~= program@ + (seq![st] + after.0));
                    program.push(st);
                },
                Err(e) => {
                    self.skip_statement(Ghost(start));
                    self.open_paren_count = 0;
                    let ghost after = parse_program(s, self.index as int);
                    assert(errors@.push(e) + after.1 =~= errors@ + (seq![e] + after.1));
                    errors.push(e);
                },
            }
        }
        assert(program@ + Seq::empty() =~= program@);
        assert(errors@ + Seq::empty() =~= errors@);
        (program, errors)
    }

    /// Parses every statement: the program if all of them parse, else the
    /// diagnostics of all those that do not.
    pub fn parse(&mut self) -> (r: Result<Program, Vec<ParseError>>)
        requires
            old(self).wf(),
        ensures
            final(self).wf(),
            final(self).token_seq() == old(self).token_seq(),
            ({
                let (sts, errs) = parse_program(old(self).token_seq(), old(self).cursor());
                if errs.len() == 0 {
                    r matches Ok(p) && p@ == sts
                } else {
                    r matches Err(es) && es@ == errs
                }
            }),
    {
        let (program, errors) = self.parse_all();
        if errors.len() == 0 {
            Ok(program)
        } else {
            Err(errors)
        }
    }

    /// A diagnostic of the given kind at the current token.
    fn error_here(&self, kind: ParseErrorKind) -> (r: ParseError)
        requires
            self.index < self.tokens@.len(),
        ensures
            r == error_at(kind, self.tokens@[self.index as int]),
    {
        let t = self.now();
        ParseError {
            kind,
            token_type: t.get_t_type(),
            lexeme: t.get_inner(),
            pos: Position::new(t.get_line(), t.get_x()),
        }
    }
}

} // verus!
