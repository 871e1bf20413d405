//! The solver: iterative propagation of known truth values.
//!
//! Each round first scans the premises for one already reduced to the
//! target proposition (possibly negated) — that forces the verdict. Else
//! it extracts the first premise reduced to a single proposition, removes
//! it, and substitutes the now-known truth value into every remaining
//! premise, simplifying bottom-up. When no premise is reducible to a
//! single proposition and the target was never forced, the deduction is
//! underdetermined and the solver reports `Unsolvable`.

use vstd::prelude::*;

use crate::ast::{eval, Node, NodeInner, Proposition};

verus! {

/// The recoverable "indeterminate" outcome: no remaining premise can be
/// reduced to a single known proposition, and the target was never forced.
#[derive(Debug, Clone, Copy, PartialEq, Eq, Structural)]
pub struct Unsolvable;

/// A premise reduced to exactly one proposition reference, possibly
/// negated: its truth value is fully known.
#[derive(Debug, Clone, Copy, PartialEq, Eq, Structural)]
pub struct Trivial {
    pub proposition: Proposition,
    pub truth_value: bool,
}

/// The trivial reading of a premise: `Some` exactly when the premise is a
/// bare proposition, whose known truth value is `true` XOR the negation
/// flag. A premise that collapsed to a constant is never trivial.
pub open spec fn as_trivial_spec(premise: Node) -> Option<Trivial> {
    match premise.inner {
        NodeInner::Proposition(p) => Some(
            Trivial { proposition: p, truth_value: !premise.negated },
        ),
        NodeInner::Nand(_, _) => None,
    }
}

/// The constant a premise collapses to once `t` is known, if any: an atom
/// matching the known proposition becomes its value, and a NAND node with
/// enough known children short-circuits; each result is XORed with the
/// node's negation flag on the way up.
pub open spec fn simplify_val_spec(p: Node, t: Trivial) -> Option<bool>
    decreases p,
{
    let base = match p.inner {
        NodeInner::Proposition(q) => if q == t.proposition {
            Some(t.truth_value)
        } else {
            None::<bool>
        },
        NodeInner::Nand(l, r) => match (simplify_val_spec(*l, t), simplify_val_spec(*r, t)) {
            (Some(lv), Some(rv)) => Some(!(lv && rv)),
            (Some(false), _) => Some(true),
            (_, Some(false)) => Some(true),
            (_, _) => None,
        },
    };
    match base {
        Some(v) => Some(v != p.negated),
        None => None,
    }
}

/// The tree a premise is rewritten to once `t` is known. A NAND node with
/// exactly one child known to be true collapses to the other child, the
/// surviving subtree's negation composed with the node's own (negated
/// once more for the NAND itself); everything else keeps its shape with
/// the children rewritten in place.
pub open spec fn simplify_tree_spec(p: Node, t: Trivial) -> Node
    decreases p,
{
    match p.inner {
        NodeInner::Proposition(_) => p,
        NodeInner::Nand(l, r) => {
            let lv = simplify_val_spec(*l, t);
            let rv = simplify_val_spec(*r, t);
            let ls = simplify_tree_spec(*l, t);
            let rs = simplify_tree_spec(*r, t);
            if lv is Some && rv is Some {
                Node { negated: p.negated, inner: NodeInner::Nand(Box::new(ls), Box::new(rs)) }
            } else if lv == Some(false) || rv == Some(false) {
                Node { negated: p.negated, inner: NodeInner::Nand(Box::new(ls), Box::new(rs)) }
            } else if lv == Some(true) {
                Node { negated: rs.negated != !p.negated, inner: rs.inner }
            } else if rv == Some(true) {
                Node { negated: ls.negated != !p.negated, inner: ls.inner }
            } else {
                Node { negated: p.negated, inner: NodeInner::Nand(Box::new(ls), Box::new(rs)) }
            }
        },
    }
}

/// The first premise already reduced to the target proposition decides
/// the verdict; scanned front to back.
pub open spec fn find_solution_spec(ps: Seq<Node>, deduction: Proposition) -> Option<bool>
    decreases ps.len(),
{
    if ps.len() == 0 {
        None
    } else {
        match as_trivial_spec(ps[0]) {
            Some(t) => if t.proposition == deduction {
                Some(t.truth_value)
            } else {
                find_solution_spec(ps.skip(1), deduction)
            },
            None => find_solution_spec(ps.skip(1), deduction),
        }
    }
}

/// The first trivial premise of any proposition, with its index; scanned
/// front to back.
pub open spec fn find_trivial_spec(ps: Seq<Node>) -> Option<(int, Trivial)>
    decreases ps.len(),
{
    if ps.len() == 0 {
        None
    } else {
        match as_trivial_spec(ps[0]) {
            Some(t) => Some((0int, t)),
            None => match find_trivial_spec(ps.skip(1)) {
                Some((i, t)) => Some((i + 1, t)),
                None => None,
            },
        }
    }
}

/// The index returned by `find_trivial_spec` points at the trivial
/// premise it found, and everything before it is not trivial.
pub proof fn lemma_find_trivial_spec_range(ps: Seq<Node>)
    requires
        find_trivial_spec(ps) is Some,
    ensures
        0 <= find_trivial_spec(ps).unwrap().0 < ps.len(),
        as_trivial_spec(ps[find_trivial_spec(ps).unwrap().0]) == Some(
            find_trivial_spec(ps).unwrap().1,
        ),
    decreases ps.len(),
{
    let (i, t) = find_trivial_spec(ps).unwrap();
    if as_trivial_spec(ps[0]) is Some {
    } else {
        lemma_find_trivial_spec_range(ps.skip(1));
        assert(ps.skip(1)[i - 1] == ps[i]);
    }
}

/// One propagation round: the trivial premise at `i` is removed and its
/// known truth value is substituted into every remaining premise.
pub open spec fn step_spec(ps: Seq<Node>, i: int, t: Trivial) -> Seq<Node> {
    ps.remove(i).map_values(|p: Node| simplify_tree_spec(p, t))
}

/// The verdict of the whole solving loop: `Ok(true)` when the target is
/// forced true, `Ok(false)` when forced false, `Err(Unsolvable)` when the
/// premises leave it open. Each round either terminates or removes one
/// premise.
pub open spec fn solve_spec(ps: Seq<Node>, deduction: Proposition) -> Result<bool, Unsolvable>
    decreases ps.len(),
    via solve_spec_decreases
{
    match find_solution_spec(ps, deduction) {
        Some(value) => Ok(value),
        None => match find_trivial_spec(ps) {
            None => Err(Unsolvable),
            Some((i, t)) => solve_spec(step_spec(ps, i, t), deduction),
        },
    }
}

#[via_fn]
proof fn solve_spec_decreases(ps: Seq<Node>, deduction: Proposition) {
    if find_trivial_spec(ps) is Some {
        lemma_find_trivial_spec_range(ps);
    }
}

/// Every premise in the list evaluates to true under the assignment `a`.
pub open spec fn all_true(ps: Seq<Node>, a: Map<char, bool>) -> bool {
    forall|i: int| 0 <= i < ps.len() ==> eval(ps[i], a)
}

/// A trivial premise holds under an assignment exactly when the
/// assignment gives its proposition the known truth value.
pub proof fn lemma_as_trivial_eval(p: Node, t: Trivial, a: Map<char, bool>)
    requires
        as_trivial_spec(p) == Some(t),
    ensures
        eval(p, a) == (a[t.proposition.0] == t.truth_value),
{
}

/// Substituting a known truth value that the assignment agrees with never
/// changes the truth value of a premise, and a premise that collapses to
/// a constant collapses to its truth value.
pub proof fn lemma_simplify_preserves(p: Node, t: Trivial, a: Map<char, bool>)
    requires
        a[t.proposition.0] == t.truth_value,
    ensures
        eval(simplify_tree_spec(p, t), a) == eval(p, a),
        simplify_val_spec(p, t) is Some ==> simplify_val_spec(p, t) == Some(eval(p, a)),
    decreases p,
{
    match p.inner {
        NodeInner::Proposition(_) => {},
        NodeInner::Nand(l, r) => {
            lemma_simplify_preserves(*l, t, a);
            lemma_simplify_preserves(*r, t, a);
        },
    }
}

/// A verdict found by scanning for a trivial premise on the target is
/// forced under every assignment satisfying the premises.
proof fn lemma_find_solution_sound(
    ps: Seq<Node>,
    deduction: Proposition,
    a: Map<char, bool>,
    value: bool,
)
    requires
        find_solution_spec(ps, deduction) == Some(value),
        all_true(ps, a),
    ensures
        a[deduction.0] == value,
    decreases ps.len(),
{
    match as_trivial_spec(ps[0]) {
        Some(t) => {
            if t.proposition == deduction {
                lemma_as_trivial_eval(ps[0], t, a);
            } else {
                assert(all_true(ps.skip(1), a));
                lemma_find_solution_sound(ps.skip(1), deduction, a, value);
            }
        },
        None => {
            assert(all_true(ps.skip(1), a));
            lemma_find_solution_sound(ps.skip(1), deduction, a, value);
        },
    }
}

/// Soundness of the solver: a verdict it reaches holds under every
/// assignment that satisfies all the premises. In particular `Ok(true)`
/// means the target is true whenever the premises are, and `Ok(false)`
/// that it is then false.
pub proof fn lemma_solve_sound(
    ps: Seq<Node>,
    deduction: Proposition,
    a: Map<char, bool>,
    value: bool,
)
    requires
        solve_spec(ps, deduction) == Ok::<bool, Unsolvable>(value),
        all_true(ps, a),
    ensures
        a[deduction.0] == value,
    decreases ps.len(),
{
    match find_solution_spec(ps, deduction) {
        Some(v) => {
            lemma_find_solution_sound(ps, deduction, a, value);
        },
        None => {
            let (i, t) = find_trivial_spec(ps).unwrap();
            lemma_find_trivial_spec_range(ps);
            lemma_as_trivial_eval(ps[i], t, a);
            let stepped = step_spec(ps, i, t);
            assert forall|k: int| 0 <= k < stepped.len() implies eval(stepped[k], a) by {
                assert(stepped[k] == simplify_tree_spec(ps.remove(i)[k], t));
                lemma_simplify_preserves(ps.remove(i)[k], t, a);
            }
            lemma_solve_sound(stepped, deduction, a, value);
        },
    }
}

/// The solver is a function of the premise list and the target alone:
/// re-running it on the same (re-supplied) inputs yields the same
/// verdict.
pub proof fn lemma_solve_deterministic(
    ps1: Seq<Node>,
    ps2: Seq<Node>,
    deduction: Proposition,
)
    requires
        ps1 == ps2,
    ensures
        solve_spec(ps1, deduction) == solve_spec(ps2, deduction),
{
}

/// A single premise consisting of the bare target proposition makes the
/// deduction valid; the same premise negated makes it invalid.
pub proof fn lemma_single_premise_on_target(p: Node, c: char)
    requires
        p.inner == NodeInner::Proposition(Proposition(c)),
    ensures
        solve_spec(seq![p], Proposition(c)) == Ok::<bool, Unsolvable>(!p.negated),
{
    assert(seq![p][0] == p);
}

/// A single premise on a different variable leaves the target
/// underdetermined.
pub proof fn lemma_unrelated_premise(p: Node, c: char, d: char)
    requires
        p.inner == NodeInner::Proposition(Proposition(c)),
        c != d,
    ensures
        solve_spec(seq![p], Proposition(d)) == Err::<bool, Unsolvable>(Unsolvable),
{
    let ps = seq![p];
    let t = as_trivial_spec(p).unwrap();
    assert(ps[0] == p);
    assert(find_solution_spec(ps, Proposition(d)) is None) by {
        reveal_with_fuel(find_solution_spec, 2);
        assert(ps.skip(1).len() == 0);
    }
    assert(find_trivial_spec(ps) == Some((0int, t)));
    let stepped = step_spec(ps, 0, t);
    assert(stepped.len() == 0);
    assert(solve_spec(stepped, Proposition(d)) == Err::<bool, Unsolvable>(Unsolvable));
}

/// Reads a premise as a known proposition value, if it is one.
fn as_trivial(premise: &Node) -> (r: Option<Trivial>)
    ensures
        r == as_trivial_spec(*premise),
{
    match &premise.inner {
        NodeInner::Proposition(p) => Some(
            Trivial { proposition: *p, truth_value: !premise.negated },
        ),
        NodeInner::Nand(_, _) => None,
    }
}

/// Substitutes the known truth value of `trivial` throughout one premise
/// and resimplifies bottom-up, in a single depth-first pass. Returns the
/// rewritten tree and the constant it collapsed to, if any.
fn simplify_with(premise: Node, trivial: Trivial) -> (r: (Node, Option<bool>))
    ensures
        r.0 == simplify_tree_spec(premise, trivial),
        r.1 == simplify_val_spec(premise, trivial),
    decreases premise,
{
    let Node { negated, inner } = premise;
    match inner {
        NodeInner::Proposition(p) => {
            let value = if p == trivial.proposition {
                Some(trivial.truth_value != negated)
            } else {
                None
            };
            (Node { negated, inner: NodeInner::Proposition(p) }, value)
        },
        NodeInner::Nand(l, r) => {
            let (ls, lv) = simplify_with(*l, trivial);
            let (rs, rv) = simplify_with(*r, trivial);
            match (lv, rv) {
                (Some(lval), Some(rval)) => {
                    let value = !(lval && rval);
                    (
                        Node { negated, inner: NodeInner::Nand(Box::new(ls), Box::new(rs)) },
                        Some(value != negated),
                    )
                },
                (Some(false), _) | (_, Some(false)) => {
                    (
                        Node { negated, inner: NodeInner::Nand(Box::new(ls), Box::new(rs)) },
                        Some(true != negated),
                    )
                },
                (Some(true), _) => (rs.negate_if(!negated), None),
                (_, Some(true)) => (ls.negate_if(!negated), None),
                (None, None) => (
                    Node { negated, inner: NodeInner::Nand(Box::new(ls), Box::new(rs)) },
                    None,
                ),
            }
        },
    }
}

/// Scans the premises for one already reduced to the target proposition.
fn find_solution(premises: &Vec<Node>, deduction: Proposition) -> (r: Option<bool>)
    ensures
        r == find_solution_spec(premises@, deduction),
{
    let mut i: usize = 0;
    proof {
        assert(premises@.skip(0) =~= premises@);
    }
    while i < premises.len()
        invariant
            i <= premises@.len(),
            find_solution_spec(premises@, deduction) == find_solution_spec(
                premises@.skip(i as int),
                deduction,
            ),
        decreases premises@.len() - i,
    {
        let ghost tail = premises@.skip(i as int);
        proof {
            assert(tail[0] == premises@[i as int]);
            assert(tail.skip(1) =~= premises@.skip(i + 1));
        }
        match as_trivial(&premises[i]) {
            Some(t) => {
                if t.proposition == deduction {
                    return Some(t.truth_value);
                }
            },
            None => {},
        }
        i = i + 1;
    }
    None
}

/// Scans the premises for the first one reduced to a single proposition.
fn find_trivial(premises: &Vec<Node>) -> (r: Option<(usize, Trivial)>)
    ensures
        match r {
            Some((i, t)) => i < premises@.len() && find_trivial_spec(premises@) == Some(
                (i as int, t),
            ),
            None => find_trivial_spec(premises@) is None,
        },
{
    let mut i: usize = 0;
    proof {
        assert(premises@.skip(0) =~= premises@);
    }
    while i < premises.len()
        invariant
            i <= premises@.len(),
            forall|j: int| 0 <= j < i ==> as_trivial_spec(premises@[j]) is None,
        decreases premises@.len() - i,
    {
        match as_trivial(&premises[i]) {
            Some(t) => {
                proof {
                    lemma_find_trivial_prefix(premises@, i as int);
                }
                return Some((i, t));
            },
            None => {},
        }
        i = i + 1;
    }
    proof {
        lemma_find_trivial_none(premises@, 0);
    }
    None
}

/// A scan that found its first trivial premise at `i` agrees with
/// `find_trivial_spec`.
proof fn lemma_find_trivial_prefix(ps: Seq<Node>, i: int)
    requires
        0 <= i < ps.len(),
        forall|j: int| 0 <= j < i ==> as_trivial_spec(ps[j]) is None,
        as_trivial_spec(ps[i]) is Some,
    ensures
        find_trivial_spec(ps) == Some((i, as_trivial_spec(ps[i]).unwrap())),
    decreases i,
{
    if i == 0 {
    } else {
        assert(forall|j: int| 0 <= j < i - 1 ==> ps.skip(1)[j] == ps[j + 1]);
        assert(ps.skip(1)[i - 1] == ps[i]);
        lemma_find_trivial_prefix(ps.skip(1), i - 1);
    }
}

/// A scan that found no trivial premise from `i` on agrees with
/// `find_trivial_spec` on the whole tail.
proof fn lemma_find_trivial_none(ps: Seq<Node>, i: int)
    requires
        0 <= i <= ps.len(),
        forall|j: int| i <= j < ps.len() ==> as_trivial_spec(ps[j]) is None,
    ensures
        find_trivial_spec(ps.skip(i)) is None,
    decreases ps.len() - i,
{
    if i < ps.len() {
        assert(ps.skip(i)[0] == ps[i]);
        assert(ps.skip(i).skip(1) =~= ps.skip(i + 1));
        lemma_find_trivial_none(ps, i + 1);
    }
}

/// Decides whether the deduction is forced by the premises: `Ok(true)`
/// for a valid deduction, `Ok(false)` for an invalid one, and
/// `Err(Unsolvable)` where the premises underdetermine the target.
pub fn solve(premises: Vec<Node>, deduction: Proposition) -> (r: Result<bool, Unsolvable>)
    ensures
        r == solve_spec(premises@, deduction),
        forall|a: Map<char, bool>|
            all_true(premises@, a) && r is Ok ==> a[deduction.0] == r.unwrap(),
{
    let ghost orig = premises@;
    let mut ps = premises;
    #[verifier::loop_isolation(false)]
    loop
        invariant
            solve_spec(ps@, deduction) == solve_spec(orig, deduction),
        decreases ps@.len(),
    {
        if let Some(value) = find_solution(&ps, deduction) {
            proof {
                assert forall|a: Map<char, bool>| all_true(orig, a) implies a[deduction.0]
                    == value by {
                    lemma_solve_sound(orig, deduction, a, value);
                }
            }
            return Ok(value);
        }
        match find_trivial(&ps) {
            None => {
                return Err(Unsolvable);
            },
            Some((idx, trivial)) => {
                let ghost before = ps@;
                let _extracted = ps.remove(idx);
                let ghost removed = ps@;
                let mut j: usize = 0;
                while j < ps.len()
                    invariant
                        ps@.len() == removed.len(),
                        j <= removed.len(),
                        forall|k: int| 0 <= k < j ==> ps@[k] == simplify_tree_spec(
                            removed[k],
                            trivial,
                        ),
                        forall|k: int| j <= k < removed.len() ==> ps@[k] == removed[k],
                    decreases removed.len() - j,
                {
                    let ghost mid = ps@;
                    let p = ps.remove(j);
                    let (p2, _unused) = simplify_with(p, trivial);
                    ps.insert(j, p2);
                    proof {
                        assert(ps@ =~= mid.update(j as int, p2));
                    }
                    j = j + 1;
                }
                proof {
                    assert(ps@ =~= step_spec(before, idx as int, trivial));
                }
            },
        }
    }
}

} // verus!
