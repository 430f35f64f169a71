use crate::lexing::{
    initial_state, lemma_next_token_advances, next_token, LexState, Position, Token, TokenKind,
    TokenStream,
};
use crate::tables::{
    id_entries, id_get, id_insert, id_remove, new_id_map, new_pair_map, pair_entries, pair_get,
    pair_insert,
};
use crate::evaluating::{decimal, push_decimal};
use crate::text::{push_str, string_from_chars};
use ahash::AHashMap;
use vstd::prelude::*;

verus! {

/// Why a text is not a term: the first violation in left-to-right order.
#[derive(Debug, PartialEq, Eq)]
pub enum Error {
    IncorrectToken { actual: Token, expected: TokenKind },
    TokenStreamExhausted { position: Position },
    UndefinedLabel { position: Position },
    UnexpectedToken { token: Token },
}

/// `line:column`, both in decimal.
pub open spec fn position_text(p: Position) -> Seq<char> {
    decimal(p.line as nat) + seq![':'] + decimal(p.column as nat)
}

fn push_position(out: &mut Vec<char>, p: Position)
    ensures
        final(out)@ == old(out)@ + position_text(p),
{
    push_decimal(p.line, out);
    out.push(':');
    push_decimal(p.column, out);
    assert(out@ =~= old(out)@ + position_text(p));
}

impl Error {
    /// The text shown for the error: what went wrong, and where.
    pub open spec fn message_text(&self) -> Seq<char> {
        match self {
            Error::IncorrectToken { actual, expected } => "expected "@ + expected.description()
                + ", found "@ + actual.kind.description() + " at "@ + position_text(
                actual.position,
            ),
            Error::TokenStreamExhausted { position } => "unexpected end of input at "@
                + position_text(*position),
            Error::UndefinedLabel { position } => "undefined label at "@ + position_text(
                *position,
            ),
            Error::UnexpectedToken { token } => "unexpected "@ + token.kind.description()
                + " at "@ + position_text(token.position),
        }
    }

    pub fn message(&self) -> (r: String)
        ensures
            r@ == self.message_text(),
    {
        let mut out: Vec<char> = Vec::new();
        match self {
            Error::IncorrectToken { actual, expected } => {
                push_str(&mut out, "expected ");
                push_str(&mut out, expected.describe());
                push_str(&mut out, ", found ");
                push_str(&mut out, actual.kind.describe());
                push_str(&mut out, " at ");
                push_position(&mut out, actual.position);
            },
            Error::TokenStreamExhausted { position } => {
                push_str(&mut out, "unexpected end of input at ");
                push_position(&mut out, *position);
            },
            Error::UndefinedLabel { position } => {
                push_str(&mut out, "undefined label at ");
                push_position(&mut out, *position);
            },
            Error::UnexpectedToken { token } => {
                push_str(&mut out, "unexpected ");
                push_str(&mut out, token.kind.describe());
                push_str(&mut out, " at ");
                push_position(&mut out, token.position);
            },
        }
        assert(out@ =~= self.message_text());
        string_from_chars(&out)
    }
}

/// The id of a node in an expression graph.
#[derive(Clone, Copy, Debug, PartialEq, Eq, Hash, Structural)]
pub struct ExpressionId(pub usize);

/// One node of the graph; it refers to other nodes by id only.
#[derive(Clone, Copy, Debug, PartialEq, Eq, Hash, Structural)]
pub enum Expression {
    Abstraction { body: ExpressionId },
    Application { function: ExpressionId, argument: ExpressionId },
    Variable { index: usize },
}

/// A lambda term as a tree, with variables as de Bruijn indices.
pub ghost enum Term {
    Abstraction { body: Box<Term> },
    Application { function: Box<Term>, argument: Box<Term> },
    Variable { index: nat },
}

/// How much of the text is left after a state.
pub open spec fn remaining(chars: Seq<char>, st: LexState) -> nat {
    if st.index <= chars.len() {
        (chars.len() - st.index) as nat
    } else {
        0
    }
}

/// Reads one token that must be of the kind `expected`.
pub open spec fn expect_token(chars: Seq<char>, st: LexState, expected: TokenKind) -> Result<
    (Token, LexState),
    Error,
> {
    let (t, after) = next_token(chars, st);
    match t {
        None => Err(Error::TokenStreamExhausted { position: after.position }),
        Some(token) => if token.kind == expected {
            Ok((token, after))
        } else {
            Err(Error::IncorrectToken { actual: token, expected })
        },
    }
}

/// `Atom := '\' Label '.' Expr | Label | '(' Expr ')'`, read from `st` with
/// `scope` mapping each bound symbol to the depth of its binder, `depth`
/// abstractions open and `open` parentheses unmatched.
pub open spec fn parse_atom(
    chars: Seq<char>,
    st: LexState,
    scope: Map<usize, usize>,
    depth: nat,
    open: nat,
) -> Result<(Term, LexState), Error>
    decreases remaining(chars, st), 0nat,
{
    let (t, s1) = next_token(chars, st);
    match t {
        None => Err(Error::TokenStreamExhausted { position: s1.position }),
        Some(token) => if token.kind == TokenKind::Backslash {
            match expect_token(chars, s1, TokenKind::Label) {
                Err(e) => Err(e),
                Ok((label, s2)) => match expect_token(chars, s2, TokenKind::FullStop) {
                    Err(e) => Err(e),
                    Ok((_, s3)) => if remaining(chars, s3) < remaining(chars, st) {
                        let inner = scope.insert(label.intern->Some_0, depth as usize);
                        match parse_chain(chars, s3, inner, depth + 1, open) {
                            Err(e) => Err(e),
                            Ok((body, s4)) => Ok((Term::Abstraction { body: Box::new(body) }, s4)),
                        }
                    } else {
                        Err(Error::TokenStreamExhausted { position: s3.position })
                    },
                },
            }
        } else if token.kind == TokenKind::Label {
            let symbol = token.intern->Some_0;
            if scope.contains_key(symbol) {
                Ok((Term::Variable { index: (depth - scope[symbol]) as nat }, s1))
            } else {
                Err(Error::UndefinedLabel { position: token.position })
            }
        } else if token.kind == TokenKind::LeftParenthesis {
            if remaining(chars, s1) < remaining(chars, st) {
                match parse_chain(chars, s1, scope, depth, open + 1) {
                    Err(e) => Err(e),
                    Ok((inner, s2)) => match expect_token(chars, s2, TokenKind::RightParenthesis) {
                        Err(e) => Err(e),
                        Ok((_, s3)) => Ok((inner, s3)),
                    },
                }
            } else {
                Err(Error::TokenStreamExhausted { position: s1.position })
            }
        } else {
            Err(Error::UnexpectedToken { token })
        },
    }
}

/// `Expr := Atom+`, applied from the left.
pub open spec fn parse_chain(
    chars: Seq<char>,
    st: LexState,
    scope: Map<usize, usize>,
    depth: nat,
    open: nat,
) -> Result<(Term, LexState), Error>
    decreases remaining(chars, st), 1nat,
{
    match parse_atom(chars, st, scope, depth, open) {
        Err(e) => Err(e),
        Ok((function, s1)) => if remaining(chars, s1) < remaining(chars, st) {
            parse_arguments(chars, s1, function, scope, depth, open)
        } else {
            Ok((function, s1))
        },
    }
}

/// The rest of an application chain whose terms so far combine to `function`:
/// it ends at the end of the text, or at a `)` while a parenthesis is open.
pub open spec fn parse_arguments(
    chars: Seq<char>,
    st: LexState,
    function: Term,
    scope: Map<usize, usize>,
    depth: nat,
    open: nat,
) -> Result<(Term, LexState), Error>
    decreases remaining(chars, st), 2nat,
{
    match next_token(chars, st).0 {
        None => Ok((function, st)),
        Some(token) => if open > 0 && token.kind == TokenKind::RightParenthesis {
            Ok((function, st))
        } else {
            match parse_atom(chars, st, scope, depth, open) {
                Err(e) => Err(e),
                Ok((argument, s1)) => {
                    let applied = Term::Application {
                        function: Box::new(function),
                        argument: Box::new(argument),
                    };
                    if remaining(chars, s1) < remaining(chars, st) {
                        parse_arguments(chars, s1, applied, scope, depth, open)
                    } else {
                        Ok((applied, s1))
                    }
                },
            }
        },
    }
}

/// The term that a whole text denotes, or the first error in it.
pub open spec fn parse_source(chars: Seq<char>) -> Result<Term, Error> {
    match parse_chain(chars, initial_state(), Map::empty(), 0, 0) {
        Ok((t, _)) => Ok(t),
        Err(e) => Err(e),
    }
}

/// `g` is a well-formed graph for the term that `source` denotes.
pub open spec fn parses_to(source: Seq<char>, g: ExpressionGraph) -> bool {
    parse_source(source) matches Ok(t) && g.wf() && g.term() == t && (g.nodes(), g.root_id() as nat)
        == hash_cons(Seq::empty(), t) && g.root_id() + 1 == g.nodes().len() && forall|j: int|
        0 <= j < g.nodes().len() ==> #[trigger] reaches(g.nodes(), g.root_id() as int, j)
}

/// Parsing is deterministic: any two graphs that one text parses to hold the
/// same nodes in the same order, with the same root, and stand for the same
/// term; neither holds two nodes of the same shape.
pub proof fn lemma_parse_deterministic(source: Seq<char>, g1: ExpressionGraph, g2: ExpressionGraph)
    requires
        parses_to(source, g1),
        parses_to(source, g2),
    ensures
        g1.term() == g2.term(),
        g1.nodes() == g2.nodes(),
        g1.root_id() == g2.root_id(),
        forall|i: int, j: int|
            0 <= i < g1.nodes().len() && 0 <= j < g1.nodes().len() && i != j ==> g1.nodes()[i]
                != g1.nodes()[j],
        forall|i: int, j: int|
            0 <= i < g2.nodes().len() && 0 <= j < g2.nodes().len() && i != j ==> g2.nodes()[i]
                != g2.nodes()[j],
{
}

/// Parses `source`; the result is exactly what `parse_source` gives.
pub fn parse_text(source: &str) -> (r: Result<ExpressionGraph, Error>)
    ensures
        match parse_source(source@) {
            Ok(t) => r matches Ok(g) && g.wf() && g.term() == t && (g.nodes(), g.root_id() as nat)
                == hash_cons(Seq::empty(), t) && g.root_id() + 1 == g.nodes().len() && forall|j: int|
                0 <= j < g.nodes().len() ==> #[trigger] reaches(g.nodes(), g.root_id() as int, j),
            Err(e) => r == Err::<ExpressionGraph, Error>(e),
        },
        r matches Ok(g) ==> parses_to(source@, g),
{
    let context = ParsingContext::new(source);
    assert(context.nodes() =~= Seq::<Expression>::empty());
    context.parse()
}

/// The tree that node `id` of `g` stands for.
pub open spec fn term_of(g: Seq<Expression>, id: int) -> Term
    decreases id,
{
    if 0 <= id < g.len() {
        match g[id] {
            Expression::Abstraction { body } => if body.0 < id {
                Term::Abstraction { body: Box::new(term_of(g, body.0 as int)) }
            } else {
                Term::Variable { index: 0 }
            },
            Expression::Application { function, argument } => if function.0 < id && argument.0
                < id {
                Term::Application {
                    function: Box::new(term_of(g, function.0 as int)),
                    argument: Box::new(term_of(g, argument.0 as int)),
                }
            } else {
                Term::Variable { index: 0 }
            },
            Expression::Variable { index } => Term::Variable { index: index as nat },
        }
    } else {
        Term::Variable { index: 0 }
    }
}

/// Every node refers only to earlier nodes, every variable has an index of
/// at least 1, and no two nodes have the same shape.
pub open spec fn graph_wf(g: Seq<Expression>) -> bool {
    &&& forall|i: int|
        0 <= i < g.len() ==> match #[trigger] g[i] {
            Expression::Abstraction { body } => body.0 < i,
            Expression::Application { function, argument } => function.0 < i && argument.0 < i,
            Expression::Variable { index } => index >= 1,
        }
    &&& forall|i: int, j: int| 0 <= i < g.len() && 0 <= j < g.len() && i != j ==> g[i] != g[j]
}

/// Node ids below `g1.len()` stand for the same trees in `g2` as in `g1`.
pub proof fn lemma_term_of_prefix(g1: Seq<Expression>, g2: Seq<Expression>, id: int)
    requires
        g1.len() <= g2.len(),
        g2.subrange(0, g1.len() as int) == g1,
        0 <= id < g1.len(),
    ensures
        term_of(g2, id) == term_of(g1, id),
    decreases id,
{
    assert(g2[id] == g1[id]);
    match g1[id] {
        Expression::Abstraction { body } => {
            if body.0 < id {
                lemma_term_of_prefix(g1, g2, body.0 as int);
            }
        },
        Expression::Application { function, argument } => {
            if function.0 < id && argument.0 < id {
                lemma_term_of_prefix(g1, g2, function.0 as int);
                lemma_term_of_prefix(g1, g2, argument.0 as int);
            }
        },
        Expression::Variable { .. } => {},
    }
}

/// The id of the node of shape `e` in `g`, if there is one.
pub open spec fn find(g: Seq<Expression>, e: Expression) -> Option<nat> {
    if exists|i: int| 0 <= i < g.len() && g[i] == e {
        Some((choose|i: int| 0 <= i < g.len() && g[i] == e) as nat)
    } else {
        None
    }
}

/// The node of shape `e`: the one already in `g`, or a new one appended.
pub open spec fn intern_node(g: Seq<Expression>, e: Expression) -> (Seq<Expression>, nat) {
    match find(g, e) {
        Some(i) => (g, i),
        None => (g.push(e), g.len()),
    }
}

/// The nodes after adding the term `t` to `g`, subterms first and from left
/// to right, each shape stored once; and the id of the node for `t`.
pub open spec fn hash_cons(g: Seq<Expression>, t: Term) -> (Seq<Expression>, nat)
    decreases t,
{
    match t {
        Term::Variable { index } => intern_node(g, Expression::Variable { index: index as usize }),
        Term::Abstraction { body } => {
            let (g1, b) = hash_cons(g, *body);
            intern_node(g1, Expression::Abstraction { body: ExpressionId(b as usize) })
        },
        Term::Application { function, argument } => {
            let (g1, f) = hash_cons(g, *function);
            let (g2, a) = hash_cons(g1, *argument);
            intern_node(
                g2,
                Expression::Application {
                    function: ExpressionId(f as usize),
                    argument: ExpressionId(a as usize),
                },
            )
        },
    }
}

/// In a graph without repeated shapes, `find` gives the one node of a shape.
proof fn lemma_find_unique(g: Seq<Expression>, e: Expression, i: int)
    requires
        graph_wf(g),
        0 <= i < g.len(),
        g[i] == e,
    ensures
        find(g, e) == Some(i as nat),
        intern_node(g, e) == (g, i as nat),
{
    let j = choose|j: int| 0 <= j < g.len() && g[j] == e;
    assert(g[j] == g[i]);
}

/// Appending a shape that `g` does not hold keeps the graph well formed.
proof fn lemma_push_fresh(g: Seq<Expression>, e: Expression)
    requires
        graph_wf(g),
        forall|i: int| 0 <= i < g.len() ==> g[i] != e,
        match e {
            Expression::Abstraction { body } => body.0 < g.len(),
            Expression::Application { function, argument } => function.0 < g.len()
                && argument.0 < g.len(),
            Expression::Variable { index } => index >= 1,
        },
    ensures
        graph_wf(g.push(e)),
        intern_node(g, e) == (g.push(e), g.len()),
        g.push(e).subrange(0, g.len() as int) == g,
{
    let h = g.push(e);
    assert forall|i: int, j: int| 0 <= i < h.len() && 0 <= j < h.len() && i != j implies h[i]
        != h[j] by {
        if i < g.len() && j < g.len() {
            assert(g[i] != g[j]);
        } else if i < g.len() {
            assert(h[i] == g[i]);
        } else {
            assert(h[j] == g[j]);
        }
    }
    assert(h.subrange(0, g.len() as int) =~= g);
}

/// The number of constructors in a term.
pub open spec fn term_size(t: Term) -> nat
    decreases t,
{
    match t {
        Term::Variable { .. } => 1,
        Term::Abstraction { body } => 1 + term_size(*body),
        Term::Application { function, argument } => 1 + term_size(*function) + term_size(
            *argument,
        ),
    }
}

/// Every variable index of the term is between 1 and `usize::MAX`.
pub open spec fn indices_fit(t: Term) -> bool
    decreases t,
{
    match t {
        Term::Variable { index } => 1 <= index <= usize::MAX,
        Term::Abstraction { body } => indices_fit(*body),
        Term::Application { function, argument } => indices_fit(*function) && indices_fit(
            *argument,
        ),
    }
}

pub open spec fn max_nat(a: nat, b: nat) -> nat {
    if a < b {
        b
    } else {
        a
    }
}

/// Adding a term keeps the graph well formed, only appends, gives a node
/// that stands for the term, and adds no node larger than the term.
pub proof fn lemma_hash_cons(g: Seq<Expression>, t: Term, bound: nat)
    requires
        graph_wf(g),
        indices_fit(t),
        hash_cons(g, t).0.len() <= usize::MAX,
        forall|j: int| 0 <= j < g.len() ==> term_size(#[trigger] term_of(g, j)) <= bound,
    ensures
        ({
            let (h, i) = hash_cons(g, t);
            &&& graph_wf(h)
            &&& g.len() <= h.len()
            &&& h.subrange(0, g.len() as int) == g
            &&& i < h.len()
            &&& term_of(h, i as int) == t
            &&& forall|j: int|
                0 <= j < h.len() ==> term_size(#[trigger] term_of(h, j)) <= max_nat(
                    bound,
                    term_size(t),
                )
        }),
    decreases t,
{
    assert(g.subrange(0, g.len() as int) =~= g);
    match t {
        Term::Variable { index } => {
            lemma_intern_node(g, Expression::Variable { index: index as usize }, bound, t);
        },
        Term::Abstraction { body } => {
            lemma_hash_cons(g, *body, bound);
            let (g1, b) = hash_cons(g, *body);
            lemma_intern_node(
                g1,
                Expression::Abstraction { body: ExpressionId(b as usize) },
                max_nat(bound, term_size(*body)),
                t,
            );
            let (h, i) = hash_cons(g, t);
            assert(h.subrange(0, g.len() as int) =~= g1.subrange(0, g.len() as int));
        },
        Term::Application { function, argument } => {
            lemma_hash_cons_grows(hash_cons(g, *function).0, *argument);
            lemma_hash_cons(g, *function, bound);
            let (g1, f) = hash_cons(g, *function);
            let b1 = max_nat(bound, term_size(*function));
            lemma_hash_cons(g1, *argument, b1);
            let (g2, a) = hash_cons(g1, *argument);
            lemma_term_of_prefix(g1, g2, f as int);
            lemma_intern_node(
                g2,
                Expression::Application {
                    function: ExpressionId(f as usize),
                    argument: ExpressionId(a as usize),
                },
                max_nat(b1, term_size(*argument)),
                t,
            );
            let (h, i) = hash_cons(g, t);
            assert(g2.subrange(0, g.len() as int) =~= g1.subrange(0, g.len() as int));
            assert(h.subrange(0, g.len() as int) =~= g2.subrange(0, g.len() as int));
        },
    }
}

/// Adding a term never removes nodes.
proof fn lemma_hash_cons_grows(g: Seq<Expression>, t: Term)
    ensures
        g.len() <= hash_cons(g, t).0.len(),
    decreases t,
{
    match t {
        Term::Variable { .. } => {},
        Term::Abstraction { body } => lemma_hash_cons_grows(g, *body),
        Term::Application { function, argument } => {
            lemma_hash_cons_grows(g, *function);
            lemma_hash_cons_grows(hash_cons(g, *function).0, *argument);
        },
    }
}

/// Every tree that a well-formed graph holds has indices of at least 1 that
/// fit in `usize`.
pub proof fn lemma_term_of_indices(g: Seq<Expression>, id: int)
    requires
        graph_wf(g),
        0 <= id < g.len(),
    ensures
        indices_fit(term_of(g, id)),
    decreases id,
{
    match g[id] {
        Expression::Abstraction { body } => lemma_term_of_indices(g, body.0 as int),
        Expression::Application { function, argument } => {
            lemma_term_of_indices(g, function.0 as int);
            lemma_term_of_indices(g, argument.0 as int);
        },
        Expression::Variable { .. } => {},
    }
}

/// `intern_node` for a shape whose node stands for `t`.
proof fn lemma_intern_node(g: Seq<Expression>, e: Expression, bound: nat, t: Term)
    requires
        graph_wf(g),
        forall|j: int| 0 <= j < g.len() ==> term_size(#[trigger] term_of(g, j)) <= bound,
        match e {
            Expression::Abstraction { body } => body.0 < g.len() && t == Term::Abstraction {
                body: Box::new(term_of(g, body.0 as int)),
            },
            Expression::Application { function, argument } => function.0 < g.len() && argument.0
                < g.len() && t == Term::Application {
                function: Box::new(term_of(g, function.0 as int)),
                argument: Box::new(term_of(g, argument.0 as int)),
            },
            Expression::Variable { index } => index >= 1 && t == Term::Variable {
                index: index as nat,
            },
        },
    ensures
        ({
            let (h, i) = intern_node(g, e);
            &&& graph_wf(h)
            &&& g.len() <= h.len() <= g.len() + 1
            &&& h.subrange(0, g.len() as int) == g
            &&& i < h.len()
            &&& term_of(h, i as int) == t
            &&& forall|j: int|
                0 <= j < h.len() ==> term_size(#[trigger] term_of(h, j)) <= max_nat(
                    bound,
                    term_size(t),
                )
            &&& find(g, e) is Some ==> term_size(t) <= bound
        }),
{
    assert(g.subrange(0, g.len() as int) =~= g);
    match find(g, e) {
        Some(i) => {
            assert(g[i as int] == e);
        },
        None => {
            lemma_push_fresh(g, e);
            let h = g.push(e);
            match e {
                Expression::Abstraction { body } => lemma_term_of_prefix(g, h, body.0 as int),
                Expression::Application { function, argument } => {
                    lemma_term_of_prefix(g, h, function.0 as int);
                    lemma_term_of_prefix(g, h, argument.0 as int);
                },
                _ => {},
            }
            assert(term_of(h, g.len() as int) == t);
            assert forall|j: int| 0 <= j < h.len() implies term_size(
                #[trigger] term_of(h, j),
            ) <= max_nat(bound, term_size(t)) by {
                if j < g.len() {
                    lemma_term_of_prefix(g, h, j);
                }
            }
        },
    }
}

/// Node `j` can be reached from node `i` by following bodies, functions
/// and arguments.
pub open spec fn reaches(g: Seq<Expression>, i: int, j: int) -> bool
    decreases i,
{
    if i == j {
        true
    } else if 0 <= i < g.len() {
        match g[i] {
            Expression::Abstraction { body } => body.0 < i && reaches(g, body.0 as int, j),
            Expression::Application { function, argument } => (function.0 < i && reaches(
                g,
                function.0 as int,
                j,
            )) || (argument.0 < i && reaches(g, argument.0 as int, j)),
            Expression::Variable { .. } => false,
        }
    } else {
        false
    }
}

proof fn lemma_reaches_prefix(g: Seq<Expression>, h: Seq<Expression>, i: int, j: int)
    requires
        g.len() <= h.len(),
        h.subrange(0, g.len() as int) == g,
        0 <= i < g.len(),
        reaches(g, i, j),
    ensures
        reaches(h, i, j),
    decreases i,
{
    assert(h[i] == g[i]);
    if i != j {
        match g[i] {
            Expression::Abstraction { body } => lemma_reaches_prefix(g, h, body.0 as int, j),
            Expression::Application { function, argument } => {
                if function.0 < i && reaches(g, function.0 as int, j) {
                    lemma_reaches_prefix(g, h, function.0 as int, j);
                } else {
                    lemma_reaches_prefix(g, h, argument.0 as int, j);
                }
            },
            Expression::Variable { .. } => {},
        }
    }
}

/// Every node that adding a term appends can be reached from the node for
/// the term.
pub proof fn lemma_hash_cons_reaches(g: Seq<Expression>, t: Term, bound: nat)
    requires
        graph_wf(g),
        forall|j: int| 0 <= j < g.len() ==> term_size(#[trigger] term_of(g, j)) <= bound,
        indices_fit(t),
        hash_cons(g, t).0.len() <= usize::MAX,
    ensures
        ({
            let (h, i) = hash_cons(g, t);
            forall|j: int| g.len() <= j < h.len() ==> #[trigger] reaches(h, i as int, j)
        }),
    decreases t,
{
    lemma_hash_cons(g, t, bound);
    match t {
        Term::Variable { .. } => {},
        Term::Abstraction { body } => {
            lemma_hash_cons(g, *body, bound);
            lemma_hash_cons_reaches(g, *body, bound);
            let (g1, b) = hash_cons(g, *body);
            let (h, i) = hash_cons(g, t);
            assert(h.subrange(0, g1.len() as int) =~= g1);
            assert forall|j: int| g.len() <= j < h.len() implies #[trigger] reaches(
                h,
                i as int,
                j,
            ) by {
                if j < g1.len() {
                    assert(reaches(g1, b as int, j));
                    lemma_reaches_prefix(g1, h, b as int, j);
                    assert(h[i as int] == (Expression::Abstraction {
                        body: ExpressionId(b as usize),
                    }));
                }
            }
        },
        Term::Application { function, argument } => {
            lemma_hash_cons_grows(hash_cons(g, *function).0, *argument);
            lemma_hash_cons(g, *function, bound);
            lemma_hash_cons_reaches(g, *function, bound);
            let (g1, f) = hash_cons(g, *function);
            let b1 = max_nat(bound, term_size(*function));
            lemma_hash_cons(g1, *argument, b1);
            lemma_hash_cons_reaches(g1, *argument, b1);
            let (g2, a) = hash_cons(g1, *argument);
            let (h, i) = hash_cons(g, t);
            assert(h.subrange(0, g2.len() as int) =~= g2);
            assert(h.subrange(0, g1.len() as int) =~= g2.subrange(0, g1.len() as int));
            assert(h.subrange(0, g1.len() as int) =~= g1);
            assert(h[i as int] == (Expression::Application {
                function: ExpressionId(f as usize),
                argument: ExpressionId(a as usize),
            }));
            assert forall|j: int| g.len() <= j < h.len() implies #[trigger] reaches(
                h,
                i as int,
                j,
            ) by {
                if j < g1.len() {
                    assert(reaches(g1, f as int, j));
                    lemma_reaches_prefix(g1, h, f as int, j);
                } else if j < g2.len() {
                    assert(reaches(g2, a as int, j));
                    lemma_reaches_prefix(g2, h, a as int, j);
                }
            }
        },
    }
}

/// The node for a whole term added to an empty graph is the last one.
pub proof fn lemma_root_last(t: Term)
    requires
        indices_fit(t),
        hash_cons(Seq::empty(), t).0.len() <= usize::MAX,
    ensures
        hash_cons(Seq::empty(), t).1 + 1 == hash_cons(Seq::empty(), t).0.len(),
{
    let g = Seq::<Expression>::empty();
    match t {
        Term::Variable { index } => {},
        Term::Abstraction { body } => {
            lemma_hash_cons(g, *body, 0);
            let (g1, b) = hash_cons(g, *body);
            lemma_intern_node(
                g1,
                Expression::Abstraction { body: ExpressionId(b as usize) },
                term_size(*body),
                t,
            );
        },
        Term::Application { function, argument } => {
            lemma_hash_cons_grows(hash_cons(g, *function).0, *argument);
            lemma_hash_cons(g, *function, 0);
            let (g1, f) = hash_cons(g, *function);
            lemma_hash_cons(g1, *argument, term_size(*function));
            let (g2, a) = hash_cons(g1, *argument);
            lemma_term_of_prefix(g1, g2, f as int);
            lemma_intern_node(
                g2,
                Expression::Application {
                    function: ExpressionId(f as usize),
                    argument: ExpressionId(a as usize),
                },
                max_nat(term_size(*function), term_size(*argument)),
                t,
            );
        },
    }
}

/// The parsed term: an append-only arena of nodes and the id of its root.
pub struct ExpressionGraph {
    expressions: Vec<Expression>,
    root: ExpressionId,
}

impl ExpressionGraph {
    /// The nodes, in the order in which they were made.
    pub closed spec fn nodes(&self) -> Seq<Expression> {
        self.expressions@
    }

    pub closed spec fn root_id(&self) -> usize {
        self.root.0
    }

    /// A well-formed graph whose root is one of its nodes.
    pub open spec fn wf(&self) -> bool {
        graph_wf(self.nodes()) && self.root_id() < self.nodes().len()
    }

    /// The tree that the whole graph stands for.
    pub open spec fn term(&self) -> Term {
        term_of(self.nodes(), self.root_id() as int)
    }

    pub fn get(&self, expression: ExpressionId) -> (r: Option<&Expression>)
        ensures
            expression.0 < self.nodes().len() ==> r == Some(&self.nodes()[expression.0 as int]),
            expression.0 >= self.nodes().len() ==> r is None,
    {
        if expression.0 >= self.expressions.len() {
            return None;
        }
        Some(&self.expressions[expression.0])
    }

    pub fn len(&self) -> (r: usize)
        ensures
            r == self.nodes().len(),
    {
        self.expressions.len()
    }

    pub fn root(&self) -> (r: ExpressionId)
        ensures
            r.0 == self.root_id(),
    {
        self.root
    }
}

/// The state of one parse: the token stream, the scope of each bound symbol,
/// the arena of nodes, and the tables that find a node by its shape.
pub struct ParsingContext {
    abstractions: AHashMap<usize, usize>,
    applications: AHashMap<(usize, usize), usize>,
    depths: AHashMap<usize, usize>,
    token_stream: TokenStream,
    expressions: Vec<Expression>,
    variables: Vec<Option<ExpressionId>>,
    current_depth: usize,
    unmatched_tokens: usize,
}

impl ParsingContext {
    pub closed spec fn source(&self) -> Seq<char> {
        self.token_stream.source()
    }

    pub closed spec fn state(&self) -> LexState {
        self.token_stream@
    }

    pub closed spec fn scope(&self) -> Map<usize, usize> {
        id_entries(self.depths)
    }

    pub closed spec fn nodes(&self) -> Seq<Expression> {
        self.expressions@
    }

    /// What a parse of the rest of the text reads from this state.
    pub open spec fn pending(&self) -> Result<Term, Error> {
        match parse_chain(self.source(), self.state(), self.scope(), self.depth() as nat, self.open_count() as nat) {
            Ok((t, _)) => Ok(t),
            Err(e) => Err(e),
        }
    }

    pub closed spec fn depth(&self) -> usize {
        self.current_depth
    }

    pub closed spec fn open_count(&self) -> usize {
        self.unmatched_tokens
    }

    spec fn tables_ok(&self) -> bool {
        let g = self.expressions@;
        let abs = id_entries(self.abstractions);
        let apps = pair_entries(self.applications);
        let vars = self.variables@;
        &&& forall|b: usize|
            #[trigger] abs.contains_key(b) ==> abs[b] < g.len() && g[abs[b] as int]
                == (Expression::Abstraction { body: ExpressionId(b) })
        &&& forall|k: (usize, usize)|
            #[trigger] apps.contains_key(k) ==> apps[k] < g.len() && g[apps[k] as int]
                == (Expression::Application {
                function: ExpressionId(k.0),
                argument: ExpressionId(k.1),
            })
        &&& forall|k: int|
            0 <= k < vars.len() && (#[trigger] vars[k]) is Some ==> vars[k]->Some_0.0 < g.len()
                && g[vars[k]->Some_0.0 as int] == (Expression::Variable { index: (k + 1) as usize })
        &&& forall|i: int|
            0 <= i < g.len() ==> match #[trigger] g[i] {
                Expression::Abstraction { body } => abs.contains_key(body.0) && abs[body.0] == i,
                Expression::Application { function, argument } => apps.contains_key(
                    (function.0, argument.0),
                ) && apps[(function.0, argument.0)] == i,
                Expression::Variable { index } => 1 <= index <= vars.len() && vars[index - 1]
                    == Some(ExpressionId(i as usize)),
            }
    }

    pub closed spec fn inv(&self) -> bool {
        &&& self.token_stream.inv()
        &&& graph_wf(self.expressions@)
        &&& self.tables_ok()
        &&& forall|s: usize| #[trigger]
            self.scope().contains_key(s) ==> self.scope()[s] < self.current_depth
        &&& self.current_depth <= self.token_stream@.index
        &&& self.unmatched_tokens <= self.token_stream@.index
    }

    spec fn measure(&self) -> nat {
        remaining(self.source(), self.state())
    }

    /// What a successful step leaves unchanged, and that it only appends nodes.
    spec fn extends(&self, before: &Self) -> bool {
        &&& self.source() == before.source()
        &&& self.scope() == before.scope()
        &&& self.current_depth == before.current_depth
        &&& self.unmatched_tokens == before.unmatched_tokens
        &&& before.expressions@.len() <= self.expressions@.len()
        &&& self.expressions@.subrange(0, before.expressions@.len() as int) == before.expressions@
    }

    pub fn new(source: &str) -> (r: Self)
        ensures
            r.inv(),
            r.source() == source@,
            r.state() == initial_state(),
            r.scope() == Map::<usize, usize>::empty(),
            r.depth() == 0,
            r.open_count() == 0,
            r.nodes() == Seq::<Expression>::empty(),
            r.pending() == parse_source(source@),
    {
        let r = ParsingContext {
            abstractions: new_id_map(),
            applications: new_pair_map(),
            depths: new_id_map(),
            token_stream: TokenStream::new(source),
            expressions: Vec::new(),
            variables: Vec::new(),
            current_depth: 0,
            unmatched_tokens: 0,
        };
        assert(r.scope() =~= Map::<usize, usize>::empty());
        assert(r.nodes() =~= Seq::<Expression>::empty());
        r
    }

    /// Parses the whole text into a graph, or reports the first error.
    pub fn parse(self) -> (r: Result<ExpressionGraph, Error>)
        requires
            self.inv(),
        ensures
            match self.pending() {
                Ok(t) => r matches Ok(g) && g.wf() && g.term() == t && (g.nodes(), g.root_id() as nat)
                    == hash_cons(self.nodes(), t) && (self.nodes().len() == 0 ==> g.root_id() + 1
                    == g.nodes().len() && forall|j: int|
                    0 <= j < g.nodes().len() ==> #[trigger] reaches(
                        g.nodes(),
                        g.root_id() as int,
                        j,
                    )),
                Err(e) => r == Err::<ExpressionGraph, Error>(e),
            },
    {
        let ghost start = self.nodes();
        let mut context = self;
        match context.parse_application() {
            Ok(root) => {
                let g = ExpressionGraph { expressions: context.expressions, root };
                let _ = g.len();
                proof {
                    if start.len() == 0 {
                        assert(start =~= Seq::<Expression>::empty());
                        lemma_term_of_indices(g.nodes(), g.root_id() as int);
                        lemma_root_last(g.term());
                        lemma_hash_cons_reaches(start, g.term(), 0);
                    }
                }
                Ok(g)
            },
            Err(e) => Err(e),
        }
    }

    /// Only the token stream has moved.
    spec fn only_stream_moved(&self, before: &Self) -> bool {
        &&& self.abstractions == before.abstractions
        &&& self.applications == before.applications
        &&& self.depths == before.depths
        &&& self.expressions == before.expressions
        &&& self.variables == before.variables
        &&& self.current_depth == before.current_depth
        &&& self.unmatched_tokens == before.unmatched_tokens
    }

    fn add_expression(&mut self, expression: Expression) -> (r: ExpressionId)
        ensures
            final(self).expressions@ == old(self).expressions@.push(expression),
            r.0 == old(self).expressions@.len(),
            final(self).abstractions == old(self).abstractions,
            final(self).applications == old(self).applications,
            final(self).depths == old(self).depths,
            final(self).token_stream == old(self).token_stream,
            final(self).variables == old(self).variables,
            final(self).current_depth == old(self).current_depth,
            final(self).unmatched_tokens == old(self).unmatched_tokens,
    {
        let index = self.expressions.len();
        self.expressions.push(expression);
        ExpressionId(index)
    }

    fn expect(&mut self, expected: TokenKind) -> (r: Result<Token, Error>)
        requires
            old(self).inv(),
        ensures
            final(self).only_stream_moved(old(self)),
            final(self).source() == old(self).source(),
            final(self).state() == next_token(old(self).source(), old(self).state()).1,
            final(self).inv(),
            match expect_token(old(self).source(), old(self).state(), expected) {
                Ok((t, st)) => r == Ok::<Token, Error>(t) && final(self).state() == st
                    && final(self).inv() && old(self).state().index < st.index && (t.intern is Some
                    <==> t.kind == TokenKind::Label),
                Err(e) => r == Err::<Token, Error>(e),
            },
    {
        let r = self.token_stream.next();
        assert(self.scope() == old(self).scope());
        assert(self.inv());
        match r {
            None => Err(Error::TokenStreamExhausted { position: self.token_stream.position() }),
            Some(token) => {
                if token.kind == expected {
                    Ok(token)
                } else {
                    Err(Error::IncorrectToken { actual: token, expected })
                }
            },
        }
    }

    /// Whether the application chain goes on: some token follows, and it is
    /// not a `)` that closes an open parenthesis.
    fn chain_continues(&self) -> (r: bool)
        requires
            self.inv(),
        ensures
            r == match next_token(self.source(), self.state()).0 {
                None => false,
                Some(token) => !(self.unmatched_tokens > 0 && token.kind
                    == TokenKind::RightParenthesis),
            },
    {
        match self.token_stream.peek() {
            None => false,
            Some(token) => !(self.unmatched_tokens > 0 && token.kind == TokenKind::RightParenthesis),
        }
    }

    /// Appends `None` slots until the table has at least `n` of them.
    fn reserve_slots(vars: &mut Vec<Option<ExpressionId>>, n: usize)
        ensures
            final(vars)@.len() == if old(vars)@.len() < n {
                n as int
            } else {
                old(vars)@.len() as int
            },
            forall|k: int| 0 <= k < old(vars)@.len() ==> #[trigger] final(vars)@[k] == old(vars)@[k],
            forall|k: int|
                old(vars)@.len() <= k < final(vars)@.len() ==> #[trigger] final(vars)@[k] is None,
    {
        while vars.len() < n
            invariant
                old(vars)@.len() <= vars@.len(),
                old(vars)@.len() < n ==> vars@.len() <= n,
                old(vars)@.len() >= n ==> vars@.len() == old(vars)@.len(),
                forall|k: int| 0 <= k < old(vars)@.len() ==> #[trigger] vars@[k] == old(vars)@[k],
                forall|k: int| old(vars)@.len() <= k < vars@.len() ==> #[trigger] vars@[k] is None,
            decreases n - vars@.len(),
        {
            vars.push(None);
        }
    }

    /// Reads one atom and returns the node that stands for it.
    fn parse_other(&mut self) -> (r: Result<ExpressionId, Error>)
        requires
            old(self).inv(),
        ensures
            (r is Err && (next_token(old(self).source(), old(self).state()).0 matches Some(t)
                && t.kind == TokenKind::Label)) ==> final(self).expressions@
                == old(self).expressions@,
            match parse_atom(
                old(self).source(),
                old(self).state(),
                old(self).scope(),
                old(self).depth() as nat,
                old(self).open_count() as nat,
            ) {
                Ok((t, st)) => {
                    &&& r is Ok
                    &&& final(self).inv()
                    &&& final(self).extends(old(self))
                    &&& final(self).state() == st
                    &&& old(self).state().index < st.index
                    &&& r->Ok_0.0 < final(self).expressions@.len()
                    &&& term_of(final(self).expressions@, r->Ok_0.0 as int) == t
                    &&& hash_cons(old(self).expressions@, t) == (final(self).expressions@, r->Ok_0.0 as nat)
                },
                Err(e) => r == Err::<ExpressionId, Error>(e),
            },
        decreases old(self).measure(), 0nat,
    {
        let ghost start = *self;
        let token = match self.token_stream.next() {
            Some(token) => token,
            None => {
                return Err(Error::TokenStreamExhausted { position: self.token_stream.position() });
            },
        };
        assert(self.scope() == start.scope());
        assert(self.inv());
        proof {
            self.token_stream.lemma_inv_bounded();
        }
        if token.kind == TokenKind::Backslash {
            self.parse_binder(Ghost(start))
        } else if token.kind == TokenKind::Label {
            self.parse_variable(token, Ghost(start))
        } else if token.kind == TokenKind::LeftParenthesis {
            self.parse_group(Ghost(start))
        } else {
            Err(Error::UnexpectedToken { token })
        }
    }

    /// Reads the rest of an abstraction after its `\\`.
    fn parse_binder(&mut self, Ghost(start): Ghost<Self>) -> (r: Result<ExpressionId, Error>)
        requires
            start.inv(),
            old(self).inv(),
            old(self).only_stream_moved(&start),
            old(self).source() == start.source(),
            next_token(start.source(), start.state()).1 == old(self).state(),
            start.state().index < old(self).state().index,
            next_token(start.source(), start.state()).0 matches Some(t) && t.kind
                == TokenKind::Backslash,
        ensures
            match parse_atom(
                start.source(),
                start.state(),
                start.scope(),
                start.depth() as nat,
                start.open_count() as nat,
            ) {
                Ok((t, st)) => {
                    &&& r is Ok
                    &&& final(self).inv()
                    &&& final(self).extends(&start)
                    &&& final(self).state() == st
                    &&& start.state().index < st.index
                    &&& r->Ok_0.0 < final(self).expressions@.len()
                    &&& term_of(final(self).expressions@, r->Ok_0.0 as int) == t
                    &&& hash_cons(start.expressions@, t) == (final(self).expressions@, r->Ok_0.0 as nat)
                },
                Err(e) => r == Err::<ExpressionId, Error>(e),
            },
        decreases old(self).measure(), 2nat,
    {
        proof {
            self.token_stream.lemma_inv_bounded();
        }
        let label = match self.expect(TokenKind::Label) {
            Ok(label) => label,
            Err(e) => {
                return Err(e);
            },
        };
        match self.expect(TokenKind::FullStop) {
            Ok(_) => {},
            Err(e) => {
                return Err(e);
            },
        }
        let symbol = label.intern.unwrap();
        let previous = id_insert(&mut self.depths, symbol, self.current_depth);
        self.current_depth = self.current_depth + 1;
        assert(self.scope() == start.scope().insert(symbol, start.current_depth));
        assert(self.inv());
        let body = match self.parse_application() {
            Ok(body) => body,
            Err(e) => {
                return Err(e);
            },
        };
        let ghost after_body = *self;
        self.current_depth = self.current_depth - 1;
        match previous {
            Some(d) => {
                id_insert(&mut self.depths, symbol, d);
            },
            None => {
                id_remove(&mut self.depths, symbol);
            },
        }
        assert(self.scope() =~= start.scope());
        assert(self.inv());
        proof {
            assert(after_body.expressions@.subrange(0, start.expressions@.len() as int)
                =~= start.expressions@);
        }
        match id_get(&self.abstractions, body.0) {
            Some(e) => {
                assert(self.expressions@[e as int] == (Expression::Abstraction { body }));
                proof {
                    lemma_find_unique(
                        self.expressions@,
                        Expression::Abstraction { body },
                        e as int,
                    );
                }
                return Ok(ExpressionId(e));
            },
            None => {},
        }
        let ghost g0 = self.expressions@;
        proof {
            assert forall|i: int| 0 <= i < g0.len() implies g0[i] != (Expression::Abstraction {
                body,
            }) by {
                if g0[i] == (Expression::Abstraction { body }) {
                    assert(id_entries(self.abstractions).contains_key(body.0));
                }
            }
            lemma_push_fresh(g0, Expression::Abstraction { body });
        }
        let e = self.add_expression(Expression::Abstraction { body });
        id_insert(&mut self.abstractions, body.0, e.0);
        proof {
            let g = self.expressions@;
            lemma_term_of_prefix(g0, g, body.0 as int);
            assert(self.tables_ok());
            assert(self.inv());
            assert(g.subrange(0, start.expressions@.len() as int) =~= start.expressions@);
        }
        Ok(e)
    }

    /// Resolves a label to the variable node of its de Bruijn index.
    fn parse_variable(&mut self, token: Token, Ghost(start): Ghost<Self>) -> (r: Result<ExpressionId, Error>)
        requires
            start.inv(),
            old(self).inv(),
            old(self).only_stream_moved(&start),
            old(self).source() == start.source(),
            next_token(start.source(), start.state()).1 == old(self).state(),
            start.state().index < old(self).state().index,
            next_token(start.source(), start.state()).0 == Some(token),
            token.kind == TokenKind::Label,
        ensures
            r is Err ==> final(self).expressions@ == start.expressions@,
            match parse_atom(
                start.source(),
                start.state(),
                start.scope(),
                start.depth() as nat,
                start.open_count() as nat,
            ) {
                Ok((t, st)) => {
                    &&& r is Ok
                    &&& final(self).inv()
                    &&& final(self).extends(&start)
                    &&& final(self).state() == st
                    &&& start.state().index < st.index
                    &&& r->Ok_0.0 < final(self).expressions@.len()
                    &&& term_of(final(self).expressions@, r->Ok_0.0 as int) == t
                    &&& hash_cons(start.expressions@, t) == (final(self).expressions@, r->Ok_0.0 as nat)
                },
                Err(e) => r == Err::<ExpressionId, Error>(e),
            },
    {
        proof {
            start.token_stream.lemma_inv_bounded();
            lemma_next_token_advances(start.source(), start.state());
        }
        let symbol = token.intern.unwrap();
        let depth = match id_get(&self.depths, symbol) {
            Some(depth) => depth,
            None => {
                return Err(Error::UndefinedLabel { position: token.position });
            },
        };
        let index = self.current_depth - depth;
        if index - 1 < self.variables.len() {
            match self.variables[index - 1] {
                Some(e) => {
                    proof {
                        assert(self.expressions@.subrange(0, start.expressions@.len() as int)
                            =~= start.expressions@);
                        lemma_find_unique(
                            self.expressions@,
                            Expression::Variable { index },
                            e.0 as int,
                        );
                    }
                    return Ok(e);
                },
                None => {},
            }
        }
        let ghost g0 = self.expressions@;
        proof {
            assert forall|i: int| 0 <= i < g0.len() implies g0[i] != (Expression::Variable {
                index,
            }) by {
                if g0[i] == (Expression::Variable { index }) {
                    assert(self.variables@[index - 1] == Some(ExpressionId(i as usize)));
                }
            }
            lemma_push_fresh(g0, Expression::Variable { index });
        }
        let e = self.add_expression(Expression::Variable { index });
        Self::reserve_slots(&mut self.variables, index);
        self.variables.set(index - 1, Some(e));
        proof {
            let g = self.expressions@;
            assert(self.tables_ok());
            assert(self.inv());
            assert(g.subrange(0, start.expressions@.len() as int) =~= start.expressions@);
        }
        Ok(e)
    }

    /// Reads the rest of a parenthesised group after its `(`.
    fn parse_group(&mut self, Ghost(start): Ghost<Self>) -> (r: Result<ExpressionId, Error>)
        requires
            start.inv(),
            old(self).inv(),
            old(self).only_stream_moved(&start),
            old(self).source() == start.source(),
            next_token(start.source(), start.state()).1 == old(self).state(),
            start.state().index < old(self).state().index,
            next_token(start.source(), start.state()).0 matches Some(t) && t.kind
                == TokenKind::LeftParenthesis,
        ensures
            match parse_atom(
                start.source(),
                start.state(),
                start.scope(),
                start.depth() as nat,
                start.open_count() as nat,
            ) {
                Ok((t, st)) => {
                    &&& r is Ok
                    &&& final(self).inv()
                    &&& final(self).extends(&start)
                    &&& final(self).state() == st
                    &&& start.state().index < st.index
                    &&& r->Ok_0.0 < final(self).expressions@.len()
                    &&& term_of(final(self).expressions@, r->Ok_0.0 as int) == t
                    &&& hash_cons(start.expressions@, t) == (final(self).expressions@, r->Ok_0.0 as nat)
                },
                Err(e) => r == Err::<ExpressionId, Error>(e),
            },
        decreases old(self).measure(), 2nat,
    {
        proof {
            self.token_stream.lemma_inv_bounded();
        }
        self.unmatched_tokens = self.unmatched_tokens + 1;
        assert(self.scope() == start.scope());
        assert(self.inv());
        let inner = match self.parse_application() {
            Ok(inner) => inner,
            Err(e) => {
                return Err(e);
            },
        };
        match self.expect(TokenKind::RightParenthesis) {
            Ok(_) => {},
            Err(e) => {
                return Err(e);
            },
        }
        self.unmatched_tokens = self.unmatched_tokens - 1;
        assert(self.scope() == start.scope());
        assert(self.inv());
        proof {
            assert(self.expressions@.subrange(0, start.expressions@.len() as int)
                =~= start.expressions@);
        }
        Ok(inner)
    }

    /// The node for `function` applied to `argument`: the one already in the
    /// graph, or a new one.
    fn apply(&mut self, function: ExpressionId, argument: ExpressionId) -> (r: ExpressionId)
        requires
            old(self).inv(),
            function.0 < old(self).expressions@.len(),
            argument.0 < old(self).expressions@.len(),
        ensures
            final(self).inv(),
            final(self).extends(old(self)),
            final(self).state() == old(self).state(),
            r.0 < final(self).expressions@.len(),
            term_of(final(self).expressions@, r.0 as int) == (Term::Application {
                function: Box::new(term_of(old(self).expressions@, function.0 as int)),
                argument: Box::new(term_of(old(self).expressions@, argument.0 as int)),
            }),
            intern_node(old(self).expressions@, Expression::Application { function, argument })
                == (final(self).expressions@, r.0 as nat),
    {
        let ghost g1 = self.expressions@;
        proof {
            assert(g1.subrange(0, g1.len() as int) =~= g1);
        }
        match pair_get(&self.applications, (function.0, argument.0)) {
            Some(e) => {
                assert(self.expressions@[e as int] == (Expression::Application {
                    function,
                    argument,
                }));
                proof {
                    lemma_find_unique(
                        g1,
                        Expression::Application { function, argument },
                        e as int,
                    );
                }
                ExpressionId(e)
            },
            None => {
                proof {
                    let shape = Expression::Application { function, argument };
                    assert forall|i: int| 0 <= i < g1.len() implies g1[i] != shape by {
                        if g1[i] == shape {
                            assert(pair_entries(self.applications).contains_key(
                                (function.0, argument.0),
                            ));
                        }
                    }
                    lemma_push_fresh(g1, shape);
                }
                let e = self.add_expression(Expression::Application { function, argument });
                pair_insert(&mut self.applications, (function.0, argument.0), e.0);
                proof {
                    let g = self.expressions@;
                    lemma_term_of_prefix(g1, g, function.0 as int);
                    lemma_term_of_prefix(g1, g, argument.0 as int);
                    assert(self.tables_ok());
                    assert(self.scope() == old(self).scope());
                    assert(self.inv());
                }
                e
            },
        }
    }

    /// Reads an application chain and returns the node that stands for it.
    fn parse_application(&mut self) -> (r: Result<ExpressionId, Error>)
        requires
            old(self).inv(),
        ensures
            match parse_chain(
                old(self).source(),
                old(self).state(),
                old(self).scope(),
                old(self).depth() as nat,
                old(self).open_count() as nat,
            ) {
                Ok((t, st)) => {
                    &&& r is Ok
                    &&& final(self).inv()
                    &&& final(self).extends(old(self))
                    &&& final(self).state() == st
                    &&& old(self).state().index < st.index
                    &&& r->Ok_0.0 < final(self).expressions@.len()
                    &&& term_of(final(self).expressions@, r->Ok_0.0 as int) == t
                    &&& hash_cons(old(self).expressions@, t) == (final(self).expressions@, r->Ok_0.0 as nat)
                },
                Err(e) => r == Err::<ExpressionId, Error>(e),
            },
        decreases old(self).measure(), 1nat,
    {
        let ghost chars = self.source();
        let ghost st0 = self.state();
        let ghost scope = self.scope();
        let ghost depth = self.current_depth as nat;
        let ghost open = self.unmatched_tokens as nat;
        let ghost start = *self;
        let mut function = match self.parse_other() {
            Ok(function) => function,
            Err(e) => {
                return Err(e);
            },
        };
        proof {
            self.token_stream.lemma_inv_bounded();
        }
        while self.chain_continues()
            invariant
                self.inv(),
                self.extends(&start),
                start == *old(self),
                chars == start.source(),
                st0 == start.state(),
                scope == start.scope(),
                depth == start.current_depth,
                open == start.unmatched_tokens,
                st0.index < self.state().index,
                self.measure() <= start.measure(),
                function.0 < self.expressions@.len(),
                hash_cons(start.expressions@, term_of(self.expressions@, function.0 as int)) == (
                    self.expressions@,
                    function.0 as nat,
                ),
                parse_chain(chars, st0, scope, depth, open) == parse_arguments(
                    chars,
                    self.state(),
                    term_of(self.expressions@, function.0 as int),
                    scope,
                    depth,
                    open,
                ),
            decreases self.measure(),
        {
            proof {
                self.token_stream.lemma_inv_bounded();
            }
            let ghost before = *self;
            assert(self.scope() == scope && self.current_depth == depth && self.unmatched_tokens
                == open);
            let argument = match self.parse_other() {
                Ok(argument) => argument,
                Err(e) => {
                    return Err(e);
                },
            };
            let ghost g1 = self.expressions@;
            proof {
                self.token_stream.lemma_inv_bounded();
                lemma_term_of_prefix(before.expressions@, g1, function.0 as int);
                assert(g1.subrange(0, start.expressions@.len() as int) =~= start.expressions@);
            }
            let applied = self.apply(function, argument);
            proof {
                assert(self.expressions@.subrange(0, start.expressions@.len() as int)
                    =~= start.expressions@);
            }
            function = applied;
        }
        Ok(function)
    }
}

} // verus!
