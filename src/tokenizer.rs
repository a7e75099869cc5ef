use vstd::prelude::*;

verus! {

/// Scans a buffer of characters into tokens.
#[derive(Debug)]
pub struct Tokenizer {
    code: Vec<char>,
    len: usize,
}

/// The states of the scanner. A state other than `Normal` means that a lexeme
/// of that kind has been started and is not closed yet.
#[derive(Debug, Clone, Copy, PartialEq, Eq, Structural)]
pub enum TokenizeState {
    Normal,
    Number,
    Plus,
    Minus,
    Asterisk,
    Slash,
    NewLine,
    LeftParenthesis,
    RightParenthesis,
}

/// A classified lexeme with the place where it starts.
#[derive(Debug, Clone)]
pub struct Token {
    t_type: TokenType,
    pos: Position,
    inner: String,
}

/// A place in the source: both coordinates count from 1.
#[derive(Debug, Clone, Copy, PartialEq, Eq, Structural)]
pub struct Position {
    pub line: u32,
    pub column: u32,
}

/// The kinds of token. Every stream ends with one `EOF`.
#[derive(Debug, Clone, Copy, PartialEq, Eq, Structural)]
pub enum TokenType {
    Plus,
    Minus,
    Asterisk,
    Slash,
    Number,
    NewLine,
    LeftParenthesis,
    RightParenthesis,
    Semicolon,
    EOF,
}

/// The scan could not finish: a lexeme, or a comment, was still open at the
/// end of the input. `pos` is where it starts.
#[derive(Debug, Clone, Copy, PartialEq, Eq, Structural)]
pub struct LexError {
    pub state: TokenizeState,
    pub pos: Position,
}

/// A token as the scanning rules describe it: its kind, its text, and the
/// index of its first character.
pub struct Scanned {
    pub kind: TokenType,
    pub text: Seq<char>,
    pub start: int,
}

/// Either all tokens from some index on, or the open state and the index at
/// which that unfinished lexeme starts.
pub type ScanResult = Result<Seq<Scanned>, (TokenizeState, int)>;

pub open spec fn is_digit(c: char) -> bool {
    '0' <= c && c <= '9'
}

/// Line, counted from 1, of the character at index `i`.
pub open spec fn line_of(cs: Seq<char>, i: int) -> int
    decreases i,
{
    if i <= 0 {
        1
    } else if cs[i - 1] == '\n' {
        line_of(cs, i - 1) + 1
    } else {
        line_of(cs, i - 1)
    }
}

/// Index of the first character of the line that holds index `i`.
pub open spec fn line_start_of(cs: Seq<char>, i: int) -> int
    decreases i,
{
    if i <= 0 {
        0
    } else if cs[i - 1] == '\n' {
        i
    } else {
        line_start_of(cs, i - 1)
    }
}

/// Line and column of index `i`.
pub open spec fn position_at(cs: Seq<char>, i: int) -> Position {
    Position { line: line_of(cs, i) as u32, column: (i - line_start_of(cs, i) + 1) as u32 }
}

/// Index just past the run of digits that starts at `i`.
pub open spec fn digit_run_end(cs: Seq<char>, i: int) -> int
    decreases cs.len() - i,
{
    if 0 <= i < cs.len() && is_digit(cs[i]) {
        digit_run_end(cs, i + 1)
    } else {
        i
    }
}

/// Index of the first newline at or after `i`, or the length of `cs`.
pub open spec fn comment_end(cs: Seq<char>, i: int) -> int
    decreases cs.len() - i,
{
    if 0 <= i < cs.len() && cs[i] != '\n' {
        comment_end(cs, i + 1)
    } else {
        i
    }
}

/// Kind of the one-character tokens that are closed only by the character
/// after them.
pub open spec fn pending_kind(c: char) -> Option<TokenType> {
    if c == '+' {
        Some(TokenType::Plus)
    } else if c == '-' {
        Some(TokenType::Minus)
    } else if c == '*' {
        Some(TokenType::Asterisk)
    } else if c == '(' {
        Some(TokenType::LeftParenthesis)
    } else if c == ')' {
        Some(TokenType::RightParenthesis)
    } else {
        None
    }
}

/// The scanner state in which a lexeme of kind `k` is open.
pub open spec fn open_state(k: TokenType) -> TokenizeState {
    match k {
        TokenType::Plus => TokenizeState::Plus,
        TokenType::Minus => TokenizeState::Minus,
        TokenType::Asterisk => TokenizeState::Asterisk,
        TokenType::Slash => TokenizeState::Slash,
        TokenType::Number => TokenizeState::Number,
        TokenType::NewLine => TokenizeState::NewLine,
        TokenType::LeftParenthesis => TokenizeState::LeftParenthesis,
        TokenType::RightParenthesis => TokenizeState::RightParenthesis,
        _ => TokenizeState::Normal,
    }
}

pub open spec fn cons_scanned(t: Scanned, rest: ScanResult) -> ScanResult {
    match rest {
        Ok(ts) => Ok(seq![t] + ts),
        Err(e) => Err(e),
    }
}

pub open spec fn prepend_scanned(done: Seq<Scanned>, rest: ScanResult) -> ScanResult {
    match rest {
        Ok(ts) => Ok(done + ts),
        Err(e) => Err(e),
    }
}

/// The tokens of `cs` from index `i` on.
///
/// A run of digits is one `Number`. `;` and a newline are tokens of their
/// own. `+ - * ( )` and a lone `/` are tokens too, but each needs a character
/// after it: at the end of the input it is left open, which is an error. `//`
/// starts a comment that runs up to, not including, the next newline; one
/// that reaches the end of the input is an error too. Any other character is
/// skipped. The last token is always `EOF`, at the end of the input.
pub open spec fn scan(cs: Seq<char>, i: int) -> ScanResult
    decreases cs.len() - i,
    when 0 <= i
{
    if i >= cs.len() {
        Ok(seq![Scanned { kind: TokenType::EOF, text: Seq::empty(), start: cs.len() as int }])
    } else {
        let c = cs[i];
        if is_digit(c) {
            let j = digit_run_end(cs, i);
            proof {
                lemma_digit_run_end_bounds(cs, i + 1);
            }
            cons_scanned(
                Scanned { kind: TokenType::Number, text: cs.subrange(i, j), start: i },
                scan(cs, j),
            )
        } else if c == ';' {
            cons_scanned(
                Scanned { kind: TokenType::Semicolon, text: seq![c], start: i },
                scan(cs, i + 1),
            )
        } else if c == '\n' {
            cons_scanned(
                Scanned { kind: TokenType::NewLine, text: seq![c], start: i },
                scan(cs, i + 1),
            )
        } else if c == '/' {
            if i + 1 >= cs.len() {
                Err((TokenizeState::Slash, i))
            } else if cs[i + 1] == '/' {
                let e = comment_end(cs, i + 2);
                proof {
                    lemma_comment_end_bounds(cs, i + 2);
                }
                if e >= cs.len() {
                    Err((TokenizeState::Slash, i))
                } else {
                    scan(cs, e)
                }
            } else {
                cons_scanned(
                    Scanned { kind: TokenType::Slash, text: seq![c], start: i },
                    scan(cs, i + 1),
                )
            }
        } else if let Some(k) = pending_kind(c) {
            if i + 1 >= cs.len() {
                Err((open_state(k), i))
            } else {
                cons_scanned(Scanned { kind: k, text: seq![c], start: i }, scan(cs, i + 1))
            }
        } else {
            scan(cs, i + 1)
        }
    }
}

pub proof fn lemma_digit_run_end_bounds(cs: Seq<char>, i: int)
    requires
        0 <= i <= cs.len(),
    ensures
        i <= digit_run_end(cs, i) <= cs.len(),
    decreases cs.len() - i,
{
    if i < cs.len() && is_digit(cs[i]) {
        lemma_digit_run_end_bounds(cs, i + 1);
    }
}

pub proof fn lemma_comment_end_bounds(cs: Seq<char>, i: int)
    requires
        0 <= i <= cs.len(),
    ensures
        i <= comment_end(cs, i) <= cs.len(),
    decreases cs.len() - i,
{
    if i < cs.len() && cs[i] != '\n' {
        lemma_comment_end_bounds(cs, i + 1);
    }
}

proof fn lemma_prepend_step(done: Seq<Scanned>, t: Scanned, rest: ScanResult)
    ensures
        prepend_scanned(done, cons_scanned(t, rest)) == prepend_scanned(done.push(t), rest),
{
    if let Ok(ts) = rest {
        assert(done + (seq![t] + ts) =~= done.push(t) + ts);
    }
}

/// `ts` are the tokens that `items` describe, placed in `cs`.
pub open spec fn tokens_agree(ts: Seq<Token>, items: Seq<Scanned>, cs: Seq<char>) -> bool {
    &&& ts.len() == items.len()
    &&& forall|k: int|
        #![trigger ts[k]]
        0 <= k < ts.len() ==> {
            &&& ts[k].kind() == items[k].kind
            &&& ts[k].lexeme()@ == items[k].text
            &&& ts[k].pos() == position_at(cs, items[k].start)
        }
}

/// `r` is what scanning `cs` gives.
pub open spec fn lexed_as(r: Result<Vec<Token>, LexError>, cs: Seq<char>) -> bool {
    match scan(cs, 0) {
        Ok(items) => r matches Ok(ts) && tokens_agree(ts@, items, cs),
        Err((state, at)) => r == Err::<Vec<Token>, LexError>(
            LexError { state, pos: position_at(cs, at) },
        ),
    }
}

/// `p` comes no later than `q` in the source.
pub open spec fn position_le(p: Position, q: Position) -> bool {
    p.line < q.line || (p.line == q.line && p.column <= q.column)
}

/// A token stream ends with its only `EOF`, and its positions never go back.
pub open spec fn is_token_stream(ts: Seq<Token>) -> bool {
    &&& ts.len() > 0
    &&& ts.last().kind() == TokenType::EOF
    &&& forall|k: int| 0 <= k < ts.len() - 1 ==> #[trigger] ts[k].kind() != TokenType::EOF
    &&& forall|k: int, l: int|
        0 <= k <= l < ts.len() ==> position_le(#[trigger] ts[k].pos(), #[trigger] ts[l].pos())
}

proof fn lemma_line_bounds(cs: Seq<char>, i: int)
    requires
        0 <= i,
    ensures
        1 <= line_of(cs, i) <= i + 1,
        0 <= line_start_of(cs, i) <= i,
    decreases i,
{
    if i > 0 {
        lemma_line_bounds(cs, i - 1);
    }
}

proof fn lemma_position_monotone(cs: Seq<char>, a: int, b: int)
    requires
        0 <= a <= b <= cs.len(),
        cs.len() < u32::MAX,
    ensures
        line_of(cs, a) < line_of(cs, b) || (line_of(cs, a) == line_of(cs, b) && a
            - line_start_of(cs, a) <= b - line_start_of(cs, b)),
        position_le(position_at(cs, a), position_at(cs, b)),
    decreases b - a,
{
    lemma_line_bounds(cs, a);
    lemma_line_bounds(cs, b);
    if a < b {
        lemma_position_monotone(cs, a, b - 1);
        lemma_line_bounds(cs, b - 1);
    }
}

/// The items of a successful scan from `i`: one `EOF`, last, and starts that
/// grow strictly, from `i` to the length of the input.
proof fn lemma_scan_shape(cs: Seq<char>, i: int)
    requires
        0 <= i <= cs.len(),
    ensures
        scan(cs, i) matches Ok(items) ==> {
            &&& items.len() > 0
            &&& items.last().kind == TokenType::EOF
            &&& items.last().start == cs.len()
            &&& forall|k: int| 0 <= k < items.len() - 1 ==> #[trigger] items[k].kind != TokenType::EOF
            &&& forall|k: int| 0 <= k < items.len() ==> i <= #[trigger] items[k].start <= cs.len()
            &&& forall|k: int, l: int|
                0 <= k < l < items.len() ==> #[trigger] items[k].start < #[trigger] items[l].start
        },
    decreases cs.len() - i,
{
    if i < cs.len() {
        let c = cs[i];
        if is_digit(c) {
            lemma_digit_run_end_bounds(cs, i + 1);
            lemma_scan_shape(cs, digit_run_end(cs, i));
        } else if c == '/' && i + 1 < cs.len() && cs[i + 1] == '/' {
            lemma_comment_end_bounds(cs, i + 2);
            lemma_scan_shape(cs, comment_end(cs, i + 2));
        } else {
            lemma_scan_shape(cs, i + 1);
        }
    }
}

proof fn lemma_token_stream(ts: Seq<Token>, cs: Seq<char>)
    requires
        cs.len() < u32::MAX,
        scan(cs, 0) matches Ok(items) && tokens_agree(ts, items, cs),
    ensures
        is_token_stream(ts),
{
    lemma_scan_shape(cs, 0);
    let items = scan(cs, 0)->Ok_0;
    assert forall|k: int, l: int| 0 <= k <= l < ts.len() implies position_le(
        #[trigger] ts[k].pos(),
        #[trigger] ts[l].pos(),
    ) by {
        lemma_position_monotone(cs, items[k].start, items[l].start);
    }
    assert(ts.last() == ts[ts.len() - 1]);
}

/// Relies on `String::push`: the character is appended at the end.
#[verifier::external_body]
fn push_char(s: &mut String, c: char)
    ensures
        final(s)@ == old(s)@.push(c),
{
    s.push(c);
}

fn one_char_string(c: char) -> (r: String)
    ensures
        r@ == seq![c],
{
    let mut s = String::new();
    push_char(&mut s, c);
    assert(Seq::<char>::empty().push(c) =~= seq![c]);
    s
}

fn is_digit_char(c: char) -> (r: bool)
    ensures
        r == is_digit(c),
{
    '0' <= c && c <= '9'
}

fn pending_kind_of(c: char) -> (r: Option<TokenType>)
    ensures
        r == pending_kind(c),
{
    if c == '+' {
        Some(TokenType::Plus)
    } else if c == '-' {
        Some(TokenType::Minus)
    } else if c == '*' {
        Some(TokenType::Asterisk)
    } else if c == '(' {
        Some(TokenType::LeftParenthesis)
    } else if c == ')' {
        Some(TokenType::RightParenthesis)
    } else {
        None
    }
}

fn open_state_of(k: TokenType) -> (r: TokenizeState)
    ensures
        r == open_state(k),
{
    match k {
        TokenType::Plus => TokenizeState::Plus,
        TokenType::Minus => TokenizeState::Minus,
        TokenType::Asterisk => TokenizeState::Asterisk,
        TokenType::Slash => TokenizeState::Slash,
        TokenType::Number => TokenizeState::Number,
        TokenType::NewLine => TokenizeState::NewLine,
        TokenType::LeftParenthesis => TokenizeState::LeftParenthesis,
        TokenType::RightParenthesis => TokenizeState::RightParenthesis,
        _ => TokenizeState::Normal,
    }
}

impl View for Tokenizer {
    type V = Seq<char>;

    closed spec fn view(&self) -> Seq<char> {
        self.code@
    }
}

impl Tokenizer {
    pub closed spec fn wf(&self) -> bool {
        self.len == self.code.len()
    }

    pub fn new(code: Vec<char>) -> (r: Tokenizer)
        ensures
            r.wf(),
            r@ == code@,
    {
        let len = code.len();
        Tokenizer { code, len }
    }

    /// Scans the whole input. The input must be short enough for every
    /// line and column to fit in a `u32`.
    pub fn tokenize(&self) -> (r: Result<Vec<Token>, LexError>)
        requires
            self.wf(),
            self@.len() < u32::MAX,
        ensures
            lexed_as(r, self@),
            r matches Ok(ts) ==> is_token_stream(ts@),
    {
        let ghost cs = self@;
        let mut tokens: Vec<Token> = Vec::new();
        let mut i: usize = 0;
        let mut line: u32 = 1;
        let mut line_start: usize = 0;
        let ghost mut emitted: Seq<Scanned> = Seq::empty();
        proof {
            if let Ok(items) = scan(cs, 0) {
                assert(emitted + items =~= items);
            }
        }
        while i < self.len
            invariant
                self.wf(),
                cs == self@,
                cs.len() < u32::MAX,
                i <= cs.len(),
                line == line_of(cs, i as int),
                line_start == line_start_of(cs, i as int),
                line_start <= i,
                line <= i + 1,
                tokens_agree(tokens@, emitted, cs),
                scan(cs, 0) == prepend_scanned(emitted, scan(cs, i as int)),
            decreases cs.len() - i,
        {
            let c = self.code[i];
            let start = i;
            let at = Position::new(line, (i - line_start + 1) as u32);
            assert(at == position_at(cs, start as int));
            if is_digit_char(c) {
                let mut text = String::new();
                while i < self.len && is_digit_char(self.code[i])
                    invariant
                        self.wf(),
                        cs == self@,
                        start <= i <= cs.len(),
                        text@ == cs.subrange(start as int, i as int),
                        digit_run_end(cs, start as int) == digit_run_end(cs, i as int),
                        line == line_of(cs, i as int),
                        line_start == line_start_of(cs, i as int),
                        line_start <= start,
                        line <= start + 1,
                    decreases cs.len() - i,
                {
                    push_char(&mut text, self.code[i]);
                    i += 1;
                    assert(text@ =~= cs.subrange(start as int, i as int));
                }
                let ghost t = Scanned {
                    kind: TokenType::Number,
                    text: cs.subrange(start as int, i as int),
                    start: start as int,
                };
                tokens.push(Token::new(TokenType::Number, at, text));
                proof {
                    lemma_prepend_step(emitted, t, scan(cs, i as int));
                    emitted = emitted.push(t);
                }
            } else if c == ';' || c == '\n' {
                let kind = if c == ';' {
                    TokenType::Semicolon
                } else {
                    TokenType::NewLine
                };
                let ghost t = Scanned { kind, text: seq![c], start: start as int };
                tokens.push(Token::new(kind, at, one_char_string(c)));
                i += 1;
                if c == '\n' {
                    line += 1;
                    line_start = i;
                }
                proof {
                    lemma_prepend_step(emitted, t, scan(cs, i as int));
                    emitted = emitted.push(t);
                }
            } else if c == '/' {
                if i + 1 >= self.len {
                    return Err(LexError { state: TokenizeState::Slash, pos: at });
                }
                if self.code[i + 1] == '/' {
                    assert(line_of(cs, start + 1) == line_of(cs, start as int));
                    assert(line_start_of(cs, start + 1) == line_start_of(cs, start as int));
                    i += 2;
                    while i < self.len && self.code[i] != '\n'
                        invariant
                            self.wf(),
                            cs == self@,
                            start + 2 <= i <= cs.len(),
                            comment_end(cs, start + 2) == comment_end(cs, i as int),
                            line == line_of(cs, i as int),
                            line_start == line_start_of(cs, i as int),
                            line_start <= start,
                            line <= start + 1,
                        decreases cs.len() - i,
                    {
                        i += 1;
                    }
                    if i >= self.len {
                        return Err(LexError { state: TokenizeState::Slash, pos: at });
                    }
                } else {
                    let ghost t = Scanned { kind: TokenType::Slash, text: seq![c], start: start as int };
                    tokens.push(Token::new(TokenType::Slash, at, one_char_string(c)));
                    i += 1;
                    proof {
                        lemma_prepend_step(emitted, t, scan(cs, i as int));
                        emitted = emitted.push(t);
                    }
                }
            } else if let Some(kind) = pending_kind_of(c) {
                if i + 1 >= self.len {
                    return Err(LexError { state: open_state_of(kind), pos: at });
                }
                let ghost t = Scanned { kind, text: seq![c], start: start as int };
                tokens.push(Token::new(kind, at, one_char_string(c)));
                i += 1;
                proof {
                    lemma_prepend_step(emitted, t, scan(cs, i as int));
                    emitted = emitted.push(t);
                }
            } else {
                i += 1;
            }
        }
        let ghost eof = Scanned { kind: TokenType::EOF, text: Seq::empty(), start: cs.len() as int };
        let at = Position::new(line, (i - line_start + 1) as u32);
        tokens.push(Token::new(TokenType::EOF, at, String::new()));
        assert(emitted + seq![eof] =~= emitted.push(eof));
        proof {
            lemma_token_stream(tokens@, cs);
        }
        Ok(tokens)
    }
}

impl Position {
    pub fn new(line: u32, column: u32) -> (r: Position)
        ensures
            r.line == line,
            r.column == column,
    {
        Position { line, column }
    }
}

impl Token {
    pub closed spec fn kind(&self) -> TokenType {
        self.t_type
    }

    pub closed spec fn lexeme(&self) -> String {
        self.inner
    }

    pub closed spec fn pos(&self) -> Position {
        self.pos
    }

    pub fn new(t_type: TokenType, pos: Position, inner: String) -> (r: Token)
        ensures
            r.kind() == t_type,
            r.pos() == pos,
            r.lexeme() == inner,
    {
        Token { t_type, pos, inner }
    }

    pub fn get_line(&self) -> (r: u32)
        ensures
            r == self.pos().line,
    {
        self.pos.line
    }

    pub fn get_x(&self) -> (r: u32)
        ensures
            r == self.pos().column,
    {
        self.pos.column
    }

    pub fn get_inner(&self) -> (r: String)
        ensures
            r == self.lexeme(),
    {
        self.inner.clone()
    }

    pub fn get_t_type(&self) -> (r: TokenType)
        ensures
            r == self.kind(),
    {
        self.t_type
    }
}

} // verus!
