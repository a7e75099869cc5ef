use vstd::prelude::*;
use crate::machine::{
    arithmetic_count, is_arithmetic, is_literal_push, lemma_run_append, literal_push_count,
    operator_instruction, run, Instruction, Machine,
};

verus! {

/// Lowering to the stack machine. Each part of the tree appends the
/// instructions that leave its value on top of the stack.
pub trait Ast {
    /// The instructions of this part of the tree.
    spec fn code(&self) -> Seq<Instruction>;

    fn generate_code(&self, out: &mut Vec<Instruction>)
        ensures
            final(out)@ == old(out)@ + self.code(),
    ;
}

/// The statements of a whole source text, in order.
#[derive(Debug)]
pub struct Program {
    statements: Vec<Statement>,
}

#[derive(Debug, PartialEq, Eq)]
pub enum Statement {
    Arithmetic(Arithmetic),
}

/// An expression: a lone operand, or one binary operation.
#[derive(Debug, PartialEq, Eq)]
pub enum Arithmetic {
    Term(Node),
    MultiTerm(Node, Operator, Node),
}

#[derive(Debug, Clone, Copy, PartialEq, Eq, Structural)]
pub enum Operator {
    Plus,
    Minus,
    Mul,
    Div,
}

/// An operand: an integer literal, or a whole sub-expression.
#[derive(Debug, PartialEq, Eq)]
pub enum Node {
    Number(Number),
    Arithmetic(Box<Arithmetic>),
}

/// An integer literal, kept as its digits.
#[derive(Debug, PartialEq, Eq)]
pub struct Number {
    pub inner: String,
}

/// The value of a string of decimal digits.
pub open spec fn digits_value(s: Seq<char>) -> int
    decreases s.len(),
{
    if s.len() == 0 {
        0
    } else {
        10 * digits_value(s.drop_last()) + (s.last() as int - '0' as int)
    }
}

/// What the operator computes on mathematical integers. Overflow and
/// division by zero are left to the machine that runs the code.
pub open spec fn apply_op(op: Operator, a: int, b: int) -> int {
    match op {
        Operator::Plus => a + b,
        Operator::Minus => a - b,
        Operator::Mul => a * b,
        Operator::Div => a / b,
    }
}

impl View for Program {
    type V = Seq<Statement>;

    closed spec fn view(&self) -> Seq<Statement> {
        self.statements@
    }
}

impl Program {
    pub fn new() -> (r: Program)
        ensures
            r@ == Seq::<Statement>::empty(),
    {
        Program { statements: Vec::new() }
    }

    pub fn push(&mut self, statement: Statement)
        ensures
            final(self)@ == old(self)@.push(statement),
    {
        self.statements.push(statement)
    }

    pub fn statements(&self) -> (r: &Vec<Statement>)
        ensures
            r@ == self@,
    {
        &self.statements
    }
}

impl Operator {
    /// `+` and `-` bind less tightly than `*` and `/`.
    pub open spec fn is_additive(self) -> bool {
        self == Operator::Plus || self == Operator::Minus
    }

    pub fn additive(&self) -> (r: bool)
        ensures
            r == self.is_additive(),
    {
        *self == Operator::Plus || *self == Operator::Minus
    }
}

impl Number {
    pub fn new(inner: String) -> (r: Number)
        ensures
            r.inner == inner,
    {
        Number { inner }
    }

    pub open spec fn value(self) -> int {
        digits_value(self.inner@)
    }
}

impl Node {
    /// The value of the operand, evaluated bottom-up.
    pub open spec fn value(self) -> int
        decreases self,
    {
        match self {
            Node::Number(n) => n.value(),
            Node::Arithmetic(a) => a.value(),
        }
    }
}

impl Arithmetic {
    /// The value of the tree, evaluated bottom-up.
    pub open spec fn value(self) -> int
        decreases self,
    {
        match self {
            Arithmetic::Term(n) => n.value(),
            Arithmetic::MultiTerm(l, op, r) => apply_op(op, l.value(), r.value()),
        }
    }

    /// The whole tree becomes the left operand of a new root.
    pub open spec fn spec_insert_top(self, op: Operator, node: Node) -> Arithmetic {
        match self {
            Arithmetic::Term(t) => Arithmetic::MultiTerm(t, op, node),
            Arithmetic::MultiTerm(..) => Arithmetic::MultiTerm(
                Node::Arithmetic(Box::new(self)),
                op,
                node,
            ),
        }
    }

    /// The rightmost operand of the additive part of the tree is combined
    /// with `node`. Where the root is not additive, that operand is the whole
    /// tree.
    pub open spec fn spec_insert_right(self, op: Operator, node: Node) -> Arithmetic {
        match self {
            Arithmetic::Term(t) => Arithmetic::MultiTerm(t, op, node),
            Arithmetic::MultiTerm(l, root_op, r) => if root_op.is_additive() {
                Arithmetic::MultiTerm(
                    l,
                    root_op,
                    Node::Arithmetic(Box::new(Arithmetic::MultiTerm(r, op, node))),
                )
            } else {
                Arithmetic::MultiTerm(Node::Arithmetic(Box::new(self)), op, node)
            },
        }
    }

    /// The rewrite that one more `op node` makes: additive operators go to
    /// the top, multiplicative ones to the right.
    pub open spec fn spec_extend(self, op: Operator, node: Node) -> Arithmetic {
        if op.is_additive() {
            self.spec_insert_top(op, node)
        } else {
            self.spec_insert_right(op, node)
        }
    }

    pub fn insert_right(self, newop: Operator, r_node: Node) -> (r: Arithmetic)
        ensures
            r == self.spec_insert_right(newop, r_node),
    {
        match self {
            Arithmetic::Term(term) => Arithmetic::MultiTerm(term, newop, r_node),
            Arithmetic::MultiTerm(left, op, right) => {
                if op.additive() {
                    let inner = Arithmetic::MultiTerm(right, newop, r_node);
                    Arithmetic::MultiTerm(left, op, Node::Arithmetic(Box::new(inner)))
                } else {
                    let whole = Arithmetic::MultiTerm(left, op, right);
                    Arithmetic::MultiTerm(Node::Arithmetic(Box::new(whole)), newop, r_node)
                }
            },
        }
    }

    pub fn insert_top(self, newop: Operator, r_node: Node) -> (r: Arithmetic)
        ensures
            r == self.spec_insert_top(newop, r_node),
    {
        match self {
            Arithmetic::Term(term) => Arithmetic::MultiTerm(term, newop, r_node),
            Arithmetic::MultiTerm(left, op, right) => {
                let whole = Arithmetic::MultiTerm(left, op, right);
                Arithmetic::MultiTerm(Node::Arithmetic(Box::new(whole)), newop, r_node)
            },
        }
    }

    pub fn get_op_type(&self) -> (r: Option<Operator>)
        ensures
            r == (match self {
                Arithmetic::Term(_) => None,
                Arithmetic::MultiTerm(_, op, _) => Some(*op),
            }),
    {
        match self {
            Arithmetic::Term(_) => None,
            Arithmetic::MultiTerm(_, op, _) => Some(*op),
        }
    }
}

/// The tree that the rewrites build from `first op1 node1 op2 node2 ...`,
/// starting from a lone term and taking one `(op, node)` pair at a time.
pub open spec fn fold_terms(first: Node, rest: Seq<(Operator, Node)>) -> Arithmetic
    decreases rest.len(),
{
    if rest.len() == 0 {
        Arithmetic::Term(first)
    } else {
        fold_terms(first, rest.drop_last()).spec_extend(rest.last().0, rest.last().1)
    }
}

/// Reading `v0 op1 v1 op2 v2 ...` from left to right, with `*` and `/`
/// binding tighter than `+` and `-`: the value of the additive operations
/// already complete, the additive operator still open, and the value of the
/// product that is being built.
pub open spec fn precedence_state(v0: int, rest: Seq<(Operator, int)>) -> (int, Operator, int)
    decreases rest.len(),
{
    if rest.len() == 0 {
        (0, Operator::Plus, v0)
    } else {
        let (closed, pending, term) = precedence_state(v0, rest.drop_last());
        let (op, v) = rest.last();
        if op.is_additive() {
            (apply_op(pending, closed, term), op, v)
        } else {
            (closed, pending, apply_op(op, term, v))
        }
    }
}

/// The conventional value of `v0 op1 v1 op2 v2 ...`: left to right, with
/// multiplicative operators binding tighter than additive ones.
pub open spec fn precedence_value(v0: int, rest: Seq<(Operator, int)>) -> int {
    let (closed, pending, term) = precedence_state(v0, rest);
    apply_op(pending, closed, term)
}

/// The operators of a chain with the values of its operands.
pub open spec fn operand_values(rest: Seq<(Operator, Node)>) -> Seq<(Operator, int)> {
    rest.map_values(|p: (Operator, Node)| (p.0, p.1.value()))
}

proof fn lemma_fold_shape(first: Node, rest: Seq<(Operator, Node)>)
    ensures
        ({
            let (closed, pending, term) = precedence_state(first.value(), operand_values(rest));
            match fold_terms(first, rest) {
                Arithmetic::MultiTerm(l, op, r) => if op.is_additive() {
                    op == pending && l.value() == closed && r.value() == term
                } else {
                    closed == 0 && pending == Operator::Plus && fold_terms(first, rest).value()
                        == term
                },
                Arithmetic::Term(n) => closed == 0 && pending == Operator::Plus && n.value()
                    == term,
            }
        }),
    decreases rest.len(),
{
    if rest.len() > 0 {
        let prev = rest.drop_last();
        lemma_fold_shape(first, prev);
        assert(operand_values(rest).drop_last() =~= operand_values(prev));
        let prev_tree = fold_terms(first, prev);
        assert(Node::Arithmetic(Box::new(prev_tree)).value() == prev_tree.value());
        if let Arithmetic::MultiTerm(l, op, r) = prev_tree {
            let inner = Arithmetic::MultiTerm(r, rest.last().0, rest.last().1);
            assert(Node::Arithmetic(Box::new(inner)).value() == inner.value());
        }
    }
}

/// Folding with the two rewrites gives every chain its conventional value:
/// the tree evaluated bottom-up computes the chain left to right, with `*` and
/// `/` binding tighter than `+` and `-`.
pub proof fn lemma_fold_respects_precedence(first: Node, rest: Seq<(Operator, Node)>)
    ensures
        fold_terms(first, rest).value() == precedence_value(first.value(), operand_values(rest)),
{
    lemma_fold_shape(first, rest);
}

impl Ast for Number {
    /// Pushes the literal.
    open spec fn code(&self) -> Seq<Instruction> {
        seq![Instruction::PushLiteral(self.inner)]
    }

    fn generate_code(&self, out: &mut Vec<Instruction>) {
        out.push(Instruction::PushLiteral(self.inner.clone()));
        assert(old(out)@.push(Instruction::PushLiteral(self.inner)) =~= old(out)@ + self.code());
    }
}

impl Ast for Operator {
    /// Pops the right operand, then the left one, applies the operator, and
    /// pushes the result.
    open spec fn code(&self) -> Seq<Instruction> {
        seq![
            Instruction::PopRightOperand,
            Instruction::PopLeftOperand,
            operator_instruction(*self),
            Instruction::PushRax,
        ]
    }

    fn generate_code(&self, out: &mut Vec<Instruction>) {
        out.push(Instruction::PopRightOperand);
        out.push(Instruction::PopLeftOperand);
        let apply = match self {
            Operator::Plus => Instruction::Add,
            Operator::Minus => Instruction::Sub,
            Operator::Mul => Instruction::Mul,
            Operator::Div => Instruction::Div,
        };
        out.push(apply);
        out.push(Instruction::PushRax);
        assert(out@ =~= old(out)@ + self.code());
    }
}

impl Ast for Node {
    open spec fn code(&self) -> Seq<Instruction>
        decreases self,
    {
        match self {
            Node::Number(n) => n.code(),
            Node::Arithmetic(a) => a.code(),
        }
    }

    fn generate_code(&self, out: &mut Vec<Instruction>)
        decreases self,
    {
        match self {
            Node::Number(n) => n.generate_code(out),
            Node::Arithmetic(a) => a.generate_code(out),
        }
    }
}

impl Ast for Arithmetic {
    /// Post-order: the left operand, the right operand, then the operator.
    open spec fn code(&self) -> Seq<Instruction>
        decreases self,
    {
        match self {
            Arithmetic::Term(n) => n.code(),
            Arithmetic::MultiTerm(l, op, r) => l.code() + r.code() + op.code(),
        }
    }

    fn generate_code(&self, out: &mut Vec<Instruction>)
        decreases self,
    {
        match self {
            Arithmetic::Term(n) => n.generate_code(out),
            Arithmetic::MultiTerm(l, op, r) => {
                l.generate_code(out);
                r.generate_code(out);
                op.generate_code(out);
                assert(out@ =~= old(out)@ + self.code());
            },
        }
    }
}

impl Ast for Statement {
    /// The expression, then a pop that discards its value.
    open spec fn code(&self) -> Seq<Instruction> {
        match self {
            Statement::Arithmetic(a) => a.code().push(Instruction::PopRax),
        }
    }

    fn generate_code(&self, out: &mut Vec<Instruction>) {
        match self {
            Statement::Arithmetic(a) => a.generate_code(out),
        }
        out.push(Instruction::PopRax);
        assert(out@ =~= old(out)@ + self.code());
    }
}

/// The code of the statements, one after another.
pub open spec fn statements_code(sts: Seq<Statement>) -> Seq<Instruction>
    decreases sts.len(),
{
    if sts.len() == 0 {
        Seq::empty()
    } else {
        statements_code(sts.drop_last()) + sts.last().code()
    }
}

/// The fixed directives that open every listing.
pub open spec fn prologue() -> Seq<Instruction> {
    seq![Instruction::TextSection, Instruction::GlobalMain, Instruction::Blank, Instruction::MainLabel]
}

impl Ast for Program {
    /// The prologue, the statements, and a return.
    open spec fn code(&self) -> Seq<Instruction> {
        prologue() + statements_code(self@) + seq![Instruction::Ret]
    }

    fn generate_code(&self, out: &mut Vec<Instruction>) {
        out.push(Instruction::TextSection);
        out.push(Instruction::GlobalMain);
        out.push(Instruction::Blank);
        out.push(Instruction::MainLabel);
        assert(out@ =~= old(out)@ + prologue() + statements_code(self@.take(0)));
        let n = self.statements.len();
        for i in 0..n
            invariant
                n == self@.len(),
                out@ == old(out)@ + prologue() + statements_code(self@.take(i as int)),
        {
            self.statements[i].generate_code(out);
            assert(self@.take(i + 1).drop_last() =~= self@.take(i as int));
            assert(out@ =~= old(out)@ + prologue() + statements_code(self@.take(i + 1)));
        }
        out.push(Instruction::Ret);
        assert(self@.take(n as int) =~= self@);
        assert(out@ =~= old(out)@ + self.code());
    }
}

impl Node {
    /// How many `Number` leaves the operand has.
    pub open spec fn leaf_count(self) -> nat
        decreases self,
    {
        match self {
            Node::Number(_) => 1,
            Node::Arithmetic(a) => a.leaf_count(),
        }
    }

    /// How many `MultiTerm` nodes the operand has.
    pub open spec fn multi_term_count(self) -> nat
        decreases self,
    {
        match self {
            Node::Number(_) => 0,
            Node::Arithmetic(a) => a.multi_term_count(),
        }
    }
}

impl Arithmetic {
    /// How many `Number` leaves the tree has.
    pub open spec fn leaf_count(self) -> nat
        decreases self,
    {
        match self {
            Arithmetic::Term(n) => n.leaf_count(),
            Arithmetic::MultiTerm(l, _, r) => l.leaf_count() + r.leaf_count(),
        }
    }

    /// How many `MultiTerm` nodes the tree has.
    pub open spec fn multi_term_count(self) -> nat
        decreases self,
    {
        match self {
            Arithmetic::Term(n) => n.multi_term_count(),
            Arithmetic::MultiTerm(l, _, r) => l.multi_term_count() + r.multi_term_count() + 1,
        }
    }
}

proof fn lemma_node_counts(n: Node)
    ensures
        literal_push_count(n.code()) == n.leaf_count(),
        arithmetic_count(n.code()) == n.multi_term_count(),
    decreases n,
{
    match n {
        Node::Number(_) => {
            reveal_with_fuel(Seq::filter, 2);
        },
        Node::Arithmetic(a) => lemma_arithmetic_counts(*a),
    }
}

proof fn lemma_arithmetic_counts(a: Arithmetic)
    ensures
        literal_push_count(a.code()) == a.leaf_count(),
        arithmetic_count(a.code()) == a.multi_term_count(),
    decreases a,
{
    match a {
        Arithmetic::Term(n) => lemma_node_counts(n),
        Arithmetic::MultiTerm(l, op, r) => {
            lemma_node_counts(l);
            lemma_node_counts(r);
            let pushes = |i: Instruction| is_literal_push(i);
            let ops = |i: Instruction| is_arithmetic(i);
            Seq::filter_distributes_over_add(l.code() + r.code(), op.code(), pushes);
            Seq::filter_distributes_over_add(l.code(), r.code(), pushes);
            Seq::filter_distributes_over_add(l.code() + r.code(), op.code(), ops);
            Seq::filter_distributes_over_add(l.code(), r.code(), ops);
            reveal_with_fuel(Seq::filter, 5);
        },
    }
}

/// The code of a statement pushes one literal for each `Number` leaf of its
/// tree, and holds one arithmetic instruction for each `MultiTerm` node.
pub proof fn lemma_statement_code_counts(st: Statement)
    ensures
        ({
            let Statement::Arithmetic(a) = st;
            &&& literal_push_count(st.code()) == a.leaf_count()
            &&& arithmetic_count(st.code()) == a.multi_term_count()
        }),
{
    let Statement::Arithmetic(a) = st;
    lemma_arithmetic_counts(a);
    a.code().lemma_filter_push(Instruction::PopRax, |i: Instruction| is_literal_push(i));
    a.code().lemma_filter_push(Instruction::PopRax, |i: Instruction| is_arithmetic(i));
}

proof fn lemma_node_computes_value(n: Node, m: Machine)
    ensures
        run(m, n.code()).stack == m.stack.push(n.value()),
    decreases n,
{
    match n {
        Node::Number(_) => {
            reveal_with_fuel(run, 2);
        },
        Node::Arithmetic(a) => lemma_arithmetic_computes_value(*a, m),
    }
}

/// Run on the stack machine, the code of a tree pushes the tree's value and
/// leaves the rest of the stack as it was: the most recent pop is the right
/// operand, the one before it the left operand.
pub proof fn lemma_arithmetic_computes_value(a: Arithmetic, m: Machine)
    ensures
        run(m, a.code()).stack == m.stack.push(a.value()),
    decreases a,
{
    match a {
        Arithmetic::Term(n) => lemma_node_computes_value(n, m),
        Arithmetic::MultiTerm(l, op, r) => {
            lemma_run_append(m, l.code() + r.code(), op.code());
            lemma_run_append(m, l.code(), r.code());
            lemma_node_computes_value(l, m);
            let m1 = run(m, l.code());
            lemma_node_computes_value(r, m1);
            let m2 = run(m1, r.code());
            reveal_with_fuel(run, 5);
            assert(m2.stack.drop_last() =~= m.stack.push(l.value()));
            assert(m2.stack.drop_last().drop_last() =~= m.stack);
        },
    }
}

/// Run on the stack machine, the code of a statement leaves the stack as it
/// was, with the value of the statement in `rax`.
pub proof fn lemma_statement_computes_value(st: Statement, m: Machine)
    ensures
        ({
            let Statement::Arithmetic(a) = st;
            &&& run(m, st.code()).stack == m.stack
            &&& run(m, st.code()).rax == a.value()
        }),
{
    let Statement::Arithmetic(a) = st;
    lemma_arithmetic_computes_value(a, m);
    lemma_run_append(m, a.code(), seq![Instruction::PopRax]);
    assert(a.code().push(Instruction::PopRax) =~= a.code() + seq![Instruction::PopRax]);
    reveal_with_fuel(run, 2);
    assert(m.stack.push(a.value()).drop_last() =~= m.stack);
}

} // verus!
