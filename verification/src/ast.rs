//! The formula tree shared by the parser and the solver.
//!
//! Every binary connective is normalized at construction time into a single
//! NAND node, and negation is carried as a boolean flag on each node rather
//! than as a separate tree node, so double negation is a flag flip.

use vstd::prelude::*;

verus! {

/// An atomic boolean variable, identified by a single character.
#[derive(Debug, Clone, Copy, PartialEq, Eq, Hash, Structural)]
pub struct Proposition(pub char);

/// The body of a formula node: an atomic proposition, or the canonical
/// binary connective (NAND) over two exclusively owned child formulas.
#[derive(Debug, PartialEq, Eq, Hash)]
pub enum NodeInner {
    Proposition(Proposition),
    Nand(Box<Node>, Box<Node>),
}

/// A formula tree node: a body together with a negation flag that applies
/// to the whole node.
#[derive(Debug, PartialEq, Eq, Hash)]
pub struct Node {
    pub negated: bool,
    pub inner: NodeInner,
}

/// Truth value of a formula under an assignment of variables to booleans.
pub open spec fn eval(n: Node, a: Map<char, bool>) -> bool
    decreases n,
{
    let base = match n.inner {
        NodeInner::Proposition(p) => a[p.0],
        NodeInner::Nand(l, r) => !(eval(*l, a) && eval(*r, a)),
    };
    if n.negated {
        !base
    } else {
        base
    }
}

impl Node {
    /// Logical negation: flips the negation flag, leaving the body alone.
    pub fn negate(self) -> (r: Self)
        ensures
            r.negated == !self.negated,
            r.inner == self.inner,
            forall|a: Map<char, bool>| eval(r, a) == !eval(self, a),
    {
        Node { negated: !self.negated, inner: self.inner }
    }

    /// Negates the formula exactly when `cond` holds; repeated negation
    /// composes by XOR on the flag.
    pub fn negate_if(self, cond: bool) -> (r: Self)
        ensures
            r.negated == (self.negated != cond),
            r.inner == self.inner,
            forall|a: Map<char, bool>| eval(r, a) == (eval(self, a) != cond),
    {
        Node { negated: self.negated ^ cond, inner: self.inner }
    }
}

impl From<NodeInner> for Node {
    fn from(inner: NodeInner) -> (r: Self) {
        Node { negated: false, inner }
    }
}

impl vstd::std_specs::convert::FromSpecImpl<NodeInner> for Node {
    open spec fn obeys_from_spec() -> bool {
        true
    }

    open spec fn from_spec(inner: NodeInner) -> Self {
        Node { negated: false, inner }
    }
}

impl From<Proposition> for Node {
    fn from(proposition: Proposition) -> (r: Self) {
        Node { negated: false, inner: NodeInner::Proposition(proposition) }
    }
}

impl vstd::std_specs::convert::FromSpecImpl<Proposition> for Node {
    open spec fn obeys_from_spec() -> bool {
        true
    }

    open spec fn from_spec(proposition: Proposition) -> Self {
        Node { negated: false, inner: NodeInner::Proposition(proposition) }
    }
}

/// Canonical display form of a formula: the NAND body is shown as a
/// parenthesized conjunction under a negation, so a plain NAND node prints
/// as `!(l & r)` and a negated one as `(l & r)`, and a negated atom as `!x`.
/// Every display string re-enters the grammar of the parser.
pub open spec fn render(n: Node) -> Seq<char>
    decreases n,
{
    match n.inner {
        NodeInner::Proposition(p) => if n.negated {
            seq!['!', p.0]
        } else {
            seq![p.0]
        },
        NodeInner::Nand(l, r) => {
            let core = seq!['('] + render(*l) + seq![' ', '&', ' '] + render(*r) + seq![')'];
            if n.negated {
                core
            } else {
                seq!['!'] + core
            }
        },
    }
}

impl Node {
    /// Writes the canonical display form of the formula.
    pub fn render_chars(&self) -> (r: Vec<char>)
        ensures
            r@ == render(*self),
        decreases *self,
    {
        match &self.inner {
            NodeInner::Proposition(p) => {
                let mut out: Vec<char> = Vec::new();
                if self.negated {
                    out.push('!');
                }
                out.push(p.0);
                proof {
                    assert(out@ =~= render(*self));
                }
                out
            },
            NodeInner::Nand(l, r) => {
                let mut out: Vec<char> = Vec::new();
                if !self.negated {
                    out.push('!');
                }
                out.push('(');
                let mut left = l.render_chars();
                out.append(&mut left);
                out.push(' ');
                out.push('&');
                out.push(' ');
                let mut right = r.render_chars();
                out.append(&mut right);
                out.push(')');
                proof {
                    assert(out@ =~= render(*self));
                }
                out
            },
        }
    }
}

} // verus!
