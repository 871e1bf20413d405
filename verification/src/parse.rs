//! The parser: a fixed operator-precedence grammar over the token
//! sequence.
//!
//! Grammar, highest precedence first:
//! `atom  := proposition | '(' expr ')'`
//! `unary := NOT* atom`
//! `expr  := unary (binary-op unary)?`
//!
//! Binary operators are not chained at one precedence level: at most one
//! binary operator per expression level, nested structure needs explicit
//! parentheses. A line is accepted only when the grammar consumes every
//! token; anything else is a fatal `ParseError`.

use vstd::prelude::*;

use crate::ast::{eval, render, Node, NodeInner, Proposition};
use crate::lex::{is_letter, is_space, lex, lex_spec, single_token, Token};

verus! {

/// The three surface binary connectives, before NAND normalization.
#[derive(Debug, Clone, Copy, PartialEq, Eq, Hash, Structural)]
pub enum BinaryOperator {
    And,
    Or,
    Imply,
}

/// A formula string that the grammar cannot fully consume is rejected
/// with this error; there is no partial-parse or recovery mode.
#[derive(Debug, Clone, Copy, PartialEq, Eq, Structural)]
pub struct ParseError;

/// Truth table of a surface connective.
pub open spec fn binop_eval(op: BinaryOperator, l: bool, r: bool) -> bool {
    match op {
        BinaryOperator::And => l && r,
        BinaryOperator::Or => l || r,
        BinaryOperator::Imply => !l || r,
    }
}

/// NAND normalization of one binary connective: per-side and whole-node
/// negation flags absorb the connective by De Morgan equivalences.
pub open spec fn make_binary_spec(left: Node, op: BinaryOperator, right: Node) -> Node {
    let (left_negated, right_negated, outer_negated): (bool, bool, bool) = match op {
        BinaryOperator::And => (false, false, true),
        BinaryOperator::Or => (true, true, false),
        BinaryOperator::Imply => (false, true, false),
    };
    Node {
        negated: outer_negated,
        inner: NodeInner::Nand(
            Box::new(Node { negated: left.negated != left_negated, inner: left.inner }),
            Box::new(Node { negated: right.negated != right_negated, inner: right.inner }),
        ),
    }
}

/// Joins two formulas with a surface connective, normalized to NAND form.
pub fn make_binary(left: Node, binary: BinaryOperator, right: Node) -> (r: Node)
    ensures
        r == make_binary_spec(left, binary, right),
        forall|a: Map<char, bool>|
            eval(r, a) == binop_eval(binary, eval(left, a), eval(right, a)),
{
    let (left_negated, right_negated, outer_negated): (bool, bool, bool) = match binary {
        BinaryOperator::And => (false, false, true),
        BinaryOperator::Or => (true, true, false),
        BinaryOperator::Imply => (false, true, false),
    };
    let r = Node {
        negated: outer_negated,
        inner: NodeInner::Nand(
            Box::new(left.negate_if(left_negated)),
            Box::new(right.negate_if(right_negated)),
        ),
    };
    proof {
        assert forall|a: Map<char, bool>|
            eval(r, a) == binop_eval(binary, eval(left, a), eval(right, a)) by {
            let li = Node { negated: left.negated != left_negated, inner: left.inner };
            let ri = Node { negated: right.negated != right_negated, inner: right.inner };
            assert(eval(li, a) == (eval(left, a) != left_negated));
            assert(eval(ri, a) == (eval(right, a) != right_negated));
        }
    }
    r
}

/// The surface connective a token stands for, if any.
pub open spec fn token_binop(t: Token) -> Option<BinaryOperator> {
    match t {
        Token::And => Some(BinaryOperator::And),
        Token::Or => Some(BinaryOperator::Or),
        Token::Imply => Some(BinaryOperator::Imply),
        _ => None,
    }
}

/// Exec form of `token_binop`.
fn token_binop_exec(t: Token) -> (r: Option<BinaryOperator>)
    ensures
        r == token_binop(t),
{
    match t {
        Token::And => Some(BinaryOperator::And),
        Token::Or => Some(BinaryOperator::Or),
        Token::Imply => Some(BinaryOperator::Imply),
        _ => None,
    }
}

/// `atom := proposition | '(' expr ')'`, as a function from a token
/// sequence to the parsed formula and the number of tokens consumed, or
/// `None` where the grammar does not match.
pub open spec fn atom_spec(ts: Seq<Token>) -> Option<(Node, int)>
    decreases ts.len(), 0int,
{
    if ts.len() == 0 {
        None
    } else {
        match ts[0] {
            Token::Proposition(c) => Some(
                (Node { negated: false, inner: NodeInner::Proposition(Proposition(c)) }, 1int),
            ),
            Token::OpenParen => match expr_spec(ts.skip(1)) {
                Some((n, k)) => if 0 <= k && k + 1 < ts.len() && ts[k + 1] is CloseParen {
                    Some((n, k + 2))
                } else {
                    None
                },
                None => None,
            },
            _ => None,
        }
    }
}

/// `unary := NOT* atom`: repeated NOT composes by XOR on the negation
/// flag, so an even count cancels.
pub open spec fn unary_spec(ts: Seq<Token>) -> Option<(Node, int)>
    decreases ts.len(), 1int,
{
    if ts.len() > 0 && ts[0] is Not {
        match unary_spec(ts.skip(1)) {
            Some((n, k)) => Some((Node { negated: !n.negated, inner: n.inner }, k + 1)),
            None => None,
        }
    } else {
        atom_spec(ts)
    }
}

/// `expr := unary (binary-op unary)?`.
pub open spec fn expr_spec(ts: Seq<Token>) -> Option<(Node, int)>
    decreases ts.len(), 2int,
{
    match unary_spec(ts) {
        None => None,
        Some((l, k)) => if 0 <= k && k < ts.len() && token_binop(ts[k]) is Some {
            match unary_spec(ts.skip(k + 1)) {
                Some((r, k2)) => Some(
                    (make_binary_spec(l, token_binop(ts[k]).unwrap(), r), k + 1 + k2),
                ),
                None => None,
            }
        } else {
            Some((l, k))
        },
    }
}

/// What parsing a whole token sequence yields: the formula of a full
/// parse, or a `ParseError` when the grammar cannot consume every token.
pub open spec fn parse_spec(ts: Seq<Token>) -> Result<Node, ParseError> {
    match expr_spec(ts) {
        Some((n, k)) => if k == ts.len() {
            Ok(n)
        } else {
            Err(ParseError)
        },
        None => Err(ParseError),
    }
}

/// Parses one atom starting at `pos`.
fn parse_atom(ts: &Vec<Token>, pos: usize) -> (r: Result<(Node, usize), ParseError>)
    requires
        pos <= ts@.len(),
    ensures
        match r {
            Ok((n, end)) => pos <= end <= ts@.len() && atom_spec(ts@.skip(pos as int))
                == Some((n, end - pos)),
            Err(e) => atom_spec(ts@.skip(pos as int)) is None && e == ParseError,
        },
    decreases ts@.len() - pos, 0int,
{
    let ghost tail = ts@.skip(pos as int);
    if pos == ts.len() {
        return Err(ParseError);
    }
    match ts[pos] {
        Token::Proposition(c) => {
            Ok((Node { negated: false, inner: NodeInner::Proposition(Proposition(c)) }, pos + 1))
        },
        Token::OpenParen => {
            proof {
                assert(tail.skip(1) =~= ts@.skip(pos + 1));
            }
            match parse_expr(ts, pos + 1) {
                Ok((n, end)) => {
                    if end < ts.len() && matches!(ts[end], Token::CloseParen) {
                        proof {
                            let k = end - (pos + 1);
                            assert(tail[k + 1] == ts@[end as int]);
                            assert(k + 1 < tail.len());
                        }
                        Ok((n, end + 1))
                    } else {
                        proof {
                            let k = end - (pos + 1);
                            if k + 1 < tail.len() {
                                assert(tail[k + 1] == ts@[end as int]);
                            }
                        }
                        Err(ParseError)
                    }
                },
                Err(e) => Err(e),
            }
        },
        _ => Err(ParseError),
    }
}

/// Parses `NOT* atom` starting at `pos`.
fn parse_unary(ts: &Vec<Token>, pos: usize) -> (r: Result<(Node, usize), ParseError>)
    requires
        pos <= ts@.len(),
    ensures
        match r {
            Ok((n, end)) => pos <= end <= ts@.len() && unary_spec(ts@.skip(pos as int))
                == Some((n, end - pos)),
            Err(e) => unary_spec(ts@.skip(pos as int)) is None && e == ParseError,
        },
    decreases ts@.len() - pos, 1int,
{
    let ghost tail = ts@.skip(pos as int);
    if pos < ts.len() && matches!(ts[pos], Token::Not) {
        proof {
            assert(tail[0] == ts@[pos as int]);
            assert(tail.skip(1) =~= ts@.skip(pos + 1));
        }
        match parse_unary(ts, pos + 1) {
            Ok((n, end)) => Ok((n.negate(), end)),
            Err(e) => Err(e),
        }
    } else {
        proof {
            if tail.len() > 0 {
                assert(tail[0] == ts@[pos as int]);
            }
        }
        parse_atom(ts, pos)
    }
}

/// Parses `unary (binary-op unary)?` starting at `pos`.
fn parse_expr(ts: &Vec<Token>, pos: usize) -> (r: Result<(Node, usize), ParseError>)
    requires
        pos <= ts@.len(),
    ensures
        match r {
            Ok((n, end)) => pos <= end <= ts@.len() && expr_spec(ts@.skip(pos as int))
                == Some((n, end - pos)),
            Err(e) => expr_spec(ts@.skip(pos as int)) is None && e == ParseError,
        },
    decreases ts@.len() - pos, 2int,
{
    let ghost tail = ts@.skip(pos as int);
    match parse_unary(ts, pos) {
        Err(e) => Err(e),
        Ok((l, mid)) => {
            let ghost k = mid - pos;
            if mid < ts.len() {
                proof {
                    assert(tail[k] == ts@[mid as int]);
                }
                match token_binop_exec(ts[mid]) {
                    Some(op) => {
                        proof {
                            assert(tail.skip(k + 1) =~= ts@.skip(mid + 1));
                        }
                        match parse_unary(ts, mid + 1) {
                            Ok((r2, end)) => Ok((make_binary(l, op, r2), end)),
                            Err(e) => Err(e),
                        }
                    },
                    None => Ok((l, mid)),
                }
            } else {
                Ok((l, mid))
            }
        },
    }
}

/// Parses a formula string: tokenizes it and runs the grammar, demanding
/// that every token is consumed. Returns `Err` exactly on the strings the
/// grammar rejects — malformed formulas, unbalanced parentheses, stray
/// characters, empty input.
pub fn parse(input: &str) -> (r: Result<Node, ParseError>)
    ensures
        r == parse_spec(lex_spec(input@)),
{
    let tokens = lex(input);
    proof {
        assert(tokens@.skip(0) =~= tokens@);
    }
    match parse_expr(&tokens, 0) {
        Ok((n, end)) => if end == tokens.len() {
            Ok(n)
        } else {
            Err(ParseError)
        },
        Err(e) => Err(e),
    }
}

/// Every proposition in the tree is a single ASCII letter, as the
/// grammar produces them.
pub open spec fn wf_node(n: Node) -> bool
    decreases n,
{
    match n.inner {
        NodeInner::Proposition(p) => is_letter(p.0),
        NodeInner::Nand(l, r) => wf_node(*l) && wf_node(*r),
    }
}

/// The token sequence of a formula's canonical display form.
pub open spec fn tokens_of(n: Node) -> Seq<Token>
    decreases n,
{
    match n.inner {
        NodeInner::Proposition(p) => if n.negated {
            seq![Token::Not, Token::Proposition(p.0)]
        } else {
            seq![Token::Proposition(p.0)]
        },
        NodeInner::Nand(l, r) => {
            let core = seq![Token::OpenParen] + tokens_of(*l) + seq![Token::And] + tokens_of(*r)
                + seq![Token::CloseParen];
            if n.negated {
                core
            } else {
                seq![Token::Not] + core
            }
        },
    }
}

/// Lexing steps over a leading character that is a token on its own.
proof fn lemma_lex_single(c: char, s: Seq<char>)
    requires
        c != '-',
        !is_space(c),
    ensures
        lex_spec(seq![c] + s) == seq![single_token(c)] + lex_spec(s),
{
    let w = seq![c] + s;
    assert(w[0] == c);
    assert(w.skip(1) =~= s);
}

/// Lexing skips a leading whitespace character.
proof fn lemma_lex_space(c: char, s: Seq<char>)
    requires
        is_space(c),
    ensures
        lex_spec(seq![c] + s) == lex_spec(s),
{
    let w = seq![c] + s;
    assert(w[0] == c);
    assert(w.skip(1) =~= s);
}

/// Lexing the display form of a formula, whatever follows it, yields its
/// token sequence followed by the tokens of the remainder.
#[verifier::rlimit(60)]
proof fn lemma_render_lex(n: Node, s: Seq<char>)
    requires
        wf_node(n),
    ensures
        lex_spec(render(n) + s) == tokens_of(n) + lex_spec(s),
    decreases n,
{
    match n.inner {
        NodeInner::Proposition(p) => {
            if n.negated {
                assert(render(n) + s =~= seq!['!'] + (seq![p.0] + s));
                lemma_lex_single('!', seq![p.0] + s);
                lemma_lex_single(p.0, s);
                assert(seq![single_token('!')] + (seq![single_token(p.0)] + lex_spec(s))
                    =~= tokens_of(n) + lex_spec(s));
            } else {
                assert(render(n) + s =~= seq![p.0] + s);
                lemma_lex_single(p.0, s);
                assert(seq![single_token(p.0)] + lex_spec(s) =~= tokens_of(n) + lex_spec(s));
            }
        },
        NodeInner::Nand(l, r) => {
            let s5 = seq![')'] + s;
            let s4 = render(*r) + s5;
            let s3 = seq![' '] + (seq!['&'] + (seq![' '] + s4));
            let s2 = render(*l) + s3;
            let s1 = seq!['('] + s2;
            lemma_lex_single(')', s);
            lemma_render_lex(*r, s5);
            lemma_lex_space(' ', s4);
            lemma_lex_single('&', seq![' '] + s4);
            lemma_lex_space(' ', seq!['&'] + (seq![' '] + s4));
            lemma_render_lex(*l, s3);
            lemma_lex_single('(', s2);
            assert(lex_spec(s1) == seq![Token::OpenParen] + (tokens_of(*l) + (seq![Token::And]
                + (tokens_of(*r) + (seq![Token::CloseParen] + lex_spec(s))))));
            let core_toks = seq![Token::OpenParen] + tokens_of(*l) + seq![Token::And]
                + tokens_of(*r) + seq![Token::CloseParen];
            assert(lex_spec(s1) =~= core_toks + lex_spec(s));
            if n.negated {
                assert(render(n) + s =~= s1);
                assert(tokens_of(n) == core_toks);
            } else {
                assert(render(n) + s =~= seq!['!'] + s1);
                lemma_lex_single('!', s1);
                assert(seq![Token::Not] + (core_toks + lex_spec(s)) =~= tokens_of(n) + lex_spec(
                    s,
                ));
            }
        },
    }
}

/// Parsing `NOT* atom` at the front of a formula's token sequence,
/// whatever tokens follow it, recovers exactly that formula and consumes
/// exactly its tokens.
proof fn lemma_unary_tokens(n: Node, rest: Seq<Token>)
    requires
        wf_node(n),
    ensures
        unary_spec(tokens_of(n) + rest) == Some((n, tokens_of(n).len() as int)),
    decreases n,
{
    reveal_with_fuel(unary_spec, 2);
    match n.inner {
        NodeInner::Proposition(p) => {
            let atom = Node { negated: false, inner: NodeInner::Proposition(p) };
            if n.negated {
                let ts = tokens_of(n) + rest;
                assert(ts[0] == Token::Not);
                assert(ts.skip(1) =~= seq![Token::Proposition(p.0)] + rest);
                assert(atom_spec(ts.skip(1)) == Some((atom, 1int)));
                assert(Node { negated: true, inner: atom.inner } == n);
            } else {
                let ts = tokens_of(n) + rest;
                assert(ts[0] == Token::Proposition(p.0));
                assert(atom_spec(ts) == Some((atom, 1int)));
                assert(atom == n);
            }
        },
        NodeInner::Nand(lb, rb) => {
            let l = *lb;
            let r = *rb;
            let tl = tokens_of(l);
            let tr = tokens_of(r);
            let core = seq![Token::OpenParen] + tl + seq![Token::And] + tr
                + seq![Token::CloseParen];
            let ts_core = core + rest;
            let inner_ts = tl + (seq![Token::And] + (tr + (seq![Token::CloseParen] + rest)));
            assert(ts_core.skip(1) =~= inner_ts);
            lemma_unary_tokens(l, seq![Token::And] + (tr + (seq![Token::CloseParen] + rest)));
            let kl = tl.len() as int;
            let kr = tr.len() as int;
            assert(unary_spec(inner_ts) == Some((l, kl)));
            assert(inner_ts[kl] == Token::And);
            assert(token_binop(inner_ts[kl]) == Some(BinaryOperator::And));
            assert(inner_ts.skip(kl + 1) =~= tr + (seq![Token::CloseParen] + rest));
            lemma_unary_tokens(r, seq![Token::CloseParen] + rest);
            assert(unary_spec(inner_ts.skip(kl + 1)) == Some((r, kr)));
            let mk = make_binary_spec(l, BinaryOperator::And, r);
            assert(Node { negated: l.negated != false, inner: l.inner } == l);
            assert(Node { negated: r.negated != false, inner: r.inner } == r);
            assert(mk == Node { negated: true, inner: NodeInner::Nand(Box::new(l), Box::new(r)) });
            assert(mk.inner == n.inner);
            let kk = kl + 1 + kr;
            assert(inner_ts[kk] == Token::CloseParen);
            assert(token_binop(inner_ts[kk]) is None);
            assert(expr_spec(inner_ts) == Some((mk, kk)));
            assert(ts_core[kk + 1] == Token::CloseParen);
            assert(ts_core[0] == Token::OpenParen);
            assert(atom_spec(ts_core) == Some((mk, kk + 2)));
            if n.negated {
                assert(tokens_of(n) + rest =~= ts_core);
                assert(mk == n);
                assert(unary_spec(ts_core) == Some((n, kk + 2)));
                assert(tokens_of(n).len() == kk + 2);
            } else {
                let ts = tokens_of(n) + rest;
                assert(ts[0] == Token::Not);
                assert(ts.skip(1) =~= ts_core);
                assert(unary_spec(ts_core) == Some((mk, kk + 2)));
                assert(Node { negated: !mk.negated, inner: mk.inner } == n);
                assert(unary_spec(ts) == Some((n, kk + 3)));
                assert(tokens_of(n).len() == kk + 3);
            }
        },
    }
}

/// The parser round trip: rendering a formula built through the grammar
/// to its canonical display string and re-parsing it yields the same
/// formula tree — in particular one with the same truth value under
/// every assignment.
pub proof fn lemma_parse_render_round_trip(n: Node)
    requires
        wf_node(n),
    ensures
        parse_spec(lex_spec(render(n))) == Ok::<Node, ParseError>(n),
{
    let empty_chars = Seq::<char>::empty();
    lemma_render_lex(n, empty_chars);
    assert(render(n) + empty_chars =~= render(n));
    assert(lex_spec(empty_chars) =~= Seq::<Token>::empty());
    assert(tokens_of(n) + Seq::<Token>::empty() =~= tokens_of(n));
    lemma_unary_tokens(n, Seq::<Token>::empty());
    assert(lex_spec(render(n)) == tokens_of(n));
    let len = tokens_of(n).len() as int;
    assert(unary_spec(tokens_of(n)) == Some((n, len)));
    assert(expr_spec(tokens_of(n)) == Some((n, len)));
    assert(parse_spec(tokens_of(n)) == Ok::<Node, ParseError>(n));
}

} // verus!
