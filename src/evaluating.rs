use crate::parsing::{
    parse_source, parses_to, term_of, Expression, ExpressionGraph, ExpressionId, Term,
};
use crate::text::string_from_chars;
use vstd::prelude::*;

verus! {

/// The decimal digit for `d`, which is below 10.
pub open spec fn digit(d: nat) -> char {
    seq!['0', '1', '2', '3', '4', '5', '6', '7', '8', '9'][d as int]
}

/// The decimal form of `n`, without leading zeros.
pub open spec fn decimal(n: nat) -> Seq<char>
    decreases n,
{
    if n < 10 {
        seq![digit(n)]
    } else {
        decimal(n / 10) + seq![digit(n % 10)]
    }
}

/// The text of a term: `(\body)`, `(function argument)`, or the decimal
/// de Bruijn index of a variable.
pub open spec fn render(t: Term) -> Seq<char>
    decreases t,
{
    match t {
        Term::Abstraction { body } => seq!['(', '\\'] + render(*body) + seq![')'],
        Term::Application { function, argument } => seq!['('] + render(*function) + seq![' ']
            + render(*argument) + seq![')'],
        Term::Variable { index } => decimal(index),
    }
}

pub(crate) fn push_decimal(n: usize, out: &mut Vec<char>)
    ensures
        final(out)@ == old(out)@ + decimal(n as nat),
    decreases n,
{
    if n >= 10 {
        push_decimal(n / 10, out);
    }
    let digits = vec!['0', '1', '2', '3', '4', '5', '6', '7', '8', '9'];
    let d = n % 10;
    assert(digits@ == seq!['0', '1', '2', '3', '4', '5', '6', '7', '8', '9']);
    out.push(digits[d]);
    proof {
        if n < 10 {
            assert(d == n);
        }
    }
    assert(out@ =~= old(out)@ + decimal(n as nat));
}

fn render_into(ast: &ExpressionGraph, expression: usize, out: &mut Vec<char>)
    requires
        ast.wf(),
        expression < ast.nodes().len(),
    ensures
        final(out)@ == old(out)@ + render(term_of(ast.nodes(), expression as int)),
    decreases expression,
{
    let node = *ast.get(ExpressionId(expression)).unwrap();
    assert(node == ast.nodes()[expression as int]);
    match node {
        Expression::Abstraction { body } => {
            out.push('(');
            out.push('\\');
            render_into(ast, body.0, out);
            out.push(')');
        },
        Expression::Application { function, argument } => {
            out.push('(');
            render_into(ast, function.0, out);
            out.push(' ');
            render_into(ast, argument.0, out);
            out.push(')');
        },
        Expression::Variable { index } => {
            push_decimal(index, out);
        },
    }
    assert(out@ =~= old(out)@ + render(term_of(ast.nodes(), expression as int)));
}

/// Renders the node `expression` of the graph.
pub fn evaluate_expression(ast: &ExpressionGraph, expression: usize) -> (r: String)
    requires
        ast.wf(),
        expression < ast.nodes().len(),
    ensures
        r@ == render(term_of(ast.nodes(), expression as int)),
{
    let mut out: Vec<char> = Vec::new();
    render_into(ast, expression, &mut out);
    assert(out@ =~= render(term_of(ast.nodes(), expression as int)));
    string_from_chars(&out)
}

/// Renders the whole graph, from its root.
pub fn evaluate(ast: ExpressionGraph) -> (r: String)
    requires
        ast.wf(),
    ensures
        r@ == render(ast.term()),
{
    evaluate_expression(&ast, ast.root().0)
}

pub open spec fn is_digit(c: char) -> bool {
    '0' <= c <= '9'
}

/// What may follow a rendered term inside a larger rendering.
pub open spec fn delimited(rest: Seq<char>) -> bool {
    rest.len() == 0 || rest[0] == ' ' || rest[0] == ')'
}

proof fn lemma_digit(d: nat)
    requires
        d < 10,
    ensures
        digit(d) as u32 == 48 + d,
{
    let s = seq!['0', '1', '2', '3', '4', '5', '6', '7', '8', '9'];
    if d == 0 {
        assert(s[0] == '0');
    } else if d == 1 {
        assert(s[1] == '1');
    } else if d == 2 {
        assert(s[2] == '2');
    } else if d == 3 {
        assert(s[3] == '3');
    } else if d == 4 {
        assert(s[4] == '4');
    } else if d == 5 {
        assert(s[5] == '5');
    } else if d == 6 {
        assert(s[6] == '6');
    } else if d == 7 {
        assert(s[7] == '7');
    } else if d == 8 {
        assert(s[8] == '8');
    } else {
        assert(s[9] == '9');
    }
}

proof fn lemma_decimal_digits(n: nat)
    ensures
        decimal(n).len() >= 1,
        n >= 10 ==> decimal(n).len() >= 2,
        forall|i: int| 0 <= i < decimal(n).len() ==> is_digit(#[trigger] decimal(n)[i]),
    decreases n,
{
    if n < 10 {
        lemma_digit(n);
    } else {
        lemma_decimal_digits(n / 10);
        lemma_digit(n % 10);
        let d = decimal(n / 10);
        assert forall|i: int| 0 <= i < decimal(n).len() implies is_digit(
            #[trigger] decimal(n)[i],
        ) by {
            if i < d.len() {
                assert(decimal(n)[i] == d[i]);
            }
        }
    }
}

proof fn lemma_decimal_injective(n1: nat, n2: nat)
    requires
        decimal(n1) == decimal(n2),
    ensures
        n1 == n2,
    decreases n1,
{
    lemma_decimal_digits(n1);
    lemma_decimal_digits(n2);
    if n1 < 10 && n2 < 10 {
        assert(decimal(n1)[0] == digit(n1));
        lemma_digit(n1);
        lemma_digit(n2);
    } else if n1 >= 10 && n2 >= 10 {
        let s = decimal(n1);
        assert(s.last() == digit(n1 % 10));
        assert(decimal(n2).last() == digit(n2 % 10));
        lemma_digit(n1 % 10);
        lemma_digit(n2 % 10);
        assert(s.drop_last() =~= decimal(n1 / 10));
        assert(decimal(n2).drop_last() =~= decimal(n2 / 10));
        lemma_decimal_injective(n1 / 10, n2 / 10);
        assert(n1 == 10 * (n1 / 10) + n1 % 10);
        assert(n2 == 10 * (n2 / 10) + n2 % 10);
    }
}

proof fn lemma_render_start(t: Term)
    ensures
        render(t).len() >= 1,
        t is Variable ==> forall|i: int|
            0 <= i < render(t).len() ==> is_digit(#[trigger] render(t)[i]),
        !(t is Variable) ==> render(t)[0] == '(',
{
    match t {
        Term::Variable { index } => lemma_decimal_digits(index),
        _ => {},
    }
}

/// Two all-digit texts, each followed by a delimited rest, line up.
proof fn lemma_digits_split(s1: Seq<char>, r1: Seq<char>, s2: Seq<char>, r2: Seq<char>)
    requires
        s1 + r1 == s2 + r2,
        forall|i: int| 0 <= i < s1.len() ==> is_digit(#[trigger] s1[i]),
        forall|i: int| 0 <= i < s2.len() ==> is_digit(#[trigger] s2[i]),
        delimited(r1),
        delimited(r2),
    ensures
        s1 == s2,
        r1 == r2,
{
    if s1.len() < s2.len() {
        assert((s1 + r1)[s1.len() as int] == r1[0]);
        assert((s2 + r2)[s1.len() as int] == s2[s1.len() as int]);
    } else if s2.len() < s1.len() {
        assert((s2 + r2)[s2.len() as int] == r2[0]);
        assert((s1 + r1)[s2.len() as int] == s1[s2.len() as int]);
    } else {
        assert(s1 =~= (s1 + r1).subrange(0, s1.len() as int));
        assert(s2 =~= (s2 + r2).subrange(0, s2.len() as int));
        assert(r1 =~= (s1 + r1).subrange(s1.len() as int, (s1 + r1).len() as int));
        assert(r2 =~= (s2 + r2).subrange(s2.len() as int, (s2 + r2).len() as int));
    }
}

/// A rendering followed by a delimited rest determines the term and the rest.
proof fn lemma_render_prefix(t1: Term, r1: Seq<char>, t2: Term, r2: Seq<char>)
    requires
        render(t1) + r1 == render(t2) + r2,
        delimited(r1),
        delimited(r2),
    ensures
        t1 == t2,
        r1 == r2,
    decreases t1,
{
    lemma_render_start(t1);
    lemma_render_start(t2);
    let whole = render(t1) + r1;
    assert(whole[0] == render(t1)[0]);
    assert(whole[0] == render(t2)[0]);
    match t1 {
        Term::Variable { index: n1 } => {
            assert(is_digit(render(t1)[0]));
            match t2 {
                Term::Variable { index: n2 } => {
                    lemma_digits_split(render(t1), r1, render(t2), r2);
                    lemma_decimal_injective(n1, n2);
                },
                _ => {},
            }
        },
        Term::Abstraction { body: b1 } => {
            lemma_render_start(*b1);
            assert(whole[1] == '\\');
            match t2 {
                Term::Variable { .. } => {
                    assert(is_digit(render(t2)[0]));
                },
                Term::Abstraction { body: b2 } => {
                    let rest1 = seq![')'] + r1;
                    let rest2 = seq![')'] + r2;
                    assert(whole.subrange(2, whole.len() as int) =~= render(*b1) + rest1);
                    assert((render(t2) + r2).subrange(2, whole.len() as int) =~= render(*b2)
                        + rest2);
                    lemma_render_prefix(*b1, rest1, *b2, rest2);
                    assert(r1 =~= rest1.subrange(1, rest1.len() as int));
                    assert(r2 =~= rest2.subrange(1, rest2.len() as int));
                },
                Term::Application { function: f2, .. } => {
                    lemma_render_start(*f2);
                    assert((render(t2) + r2)[1] == render(*f2)[0]);
                    if *f2 is Variable {
                        assert(is_digit(render(*f2)[0]));
                    }
                },
            }
        },
        Term::Application { function: f1, argument: a1 } => {
            lemma_render_start(*f1);
            match t2 {
                Term::Variable { .. } => {
                    assert(is_digit(render(t2)[0]));
                },
                Term::Abstraction { body: b2 } => {
                    assert((render(t2) + r2)[1] == '\\');
                    assert(whole[1] == render(*f1)[0]);
                    if *f1 is Variable {
                        assert(is_digit(render(*f1)[0]));
                    }
                },
                Term::Application { function: f2, argument: a2 } => {
                    let tail1 = seq![' '] + render(*a1) + seq![')'] + r1;
                    let tail2 = seq![' '] + render(*a2) + seq![')'] + r2;
                    assert(whole.subrange(1, whole.len() as int) =~= render(*f1) + tail1);
                    assert((render(t2) + r2).subrange(1, whole.len() as int) =~= render(*f2)
                        + tail2);
                    lemma_render_prefix(*f1, tail1, *f2, tail2);
                    let rest1 = seq![')'] + r1;
                    let rest2 = seq![')'] + r2;
                    assert(tail1.subrange(1, tail1.len() as int) =~= render(*a1) + rest1);
                    assert(tail2.subrange(1, tail2.len() as int) =~= render(*a2) + rest2);
                    lemma_render_prefix(*a1, rest1, *a2, rest2);
                    assert(r1 =~= rest1.subrange(1, rest1.len() as int));
                    assert(r2 =~= rest2.subrange(1, rest2.len() as int));
                },
            }
        },
    }
}

/// Rendering is injective: the text determines the de Bruijn term.
pub proof fn lemma_render_injective(t1: Term, t2: Term)
    requires
        render(t1) == render(t2),
    ensures
        t1 == t2,
{
    let empty = Seq::<char>::empty();
    assert(render(t1) + empty =~= render(t1));
    assert(render(t2) + empty =~= render(t2));
    lemma_render_prefix(t1, empty, t2, empty);
}

/// Rendering a parsed graph gives the text of the term that the source
/// denotes, and that text determines the term: the de Bruijn structure
/// survives the round trip, while the spellings do not.
pub proof fn lemma_render_round_trip(source: Seq<char>, g: ExpressionGraph, t: Term)
    requires
        parses_to(source, g),
        render(t) == render(g.term()),
    ensures
        parse_source(source) == Ok::<Term, crate::parsing::Error>(t),
{
    lemma_render_injective(t, g.term());
}

} // verus!
