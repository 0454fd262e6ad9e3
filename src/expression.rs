use vstd::prelude::*;
use crate::operator::{Op, op_of, weight_of, groups_right};
use crate::text::{trim, trimmed};

verus! {

/// `(o, c)` is the group resolved first: `s[o]` is the last `(` before the
/// first `)` that has any `(` before it, and `s[c]` is that `)`.
pub open spec fn is_first_group(s: Seq<char>, o: int, c: int) -> bool {
    &&& 0 <= o < c < s.len()
    &&& s[o] == '('
    &&& s[c] == ')'
    &&& forall|k: int| o < k < c ==> s[k] != '('
    &&& forall|i: int, j: int| 0 <= i < j < c && s[j] == ')' ==> s[i] != '('
}

/// No `)` in `s` has a `(` before it: nothing is left to resolve.
pub open spec fn has_no_group(s: Seq<char>) -> bool {
    forall|i: int, j: int| 0 <= i < j < s.len() && s[j] == ')' ==> s[i] != '('
}

/// An operator at `p` may split `s`; one that begins `s` may not.
pub open spec fn is_candidate(s: Seq<char>, p: int) -> bool {
    1 <= p < s.len() && op_of(s[p]).is_some()
}

/// The weight of the operator at `p`.
pub open spec fn weight_at(s: Seq<char>, p: int) -> nat {
    weight_of(op_of(s[p]).unwrap())
}

/// `s` splits at `p`: the operator there binds loosest of all in `s`; among
/// equally loose ones it is the last, or the first where operands group from
/// the right.
pub open spec fn is_split(s: Seq<char>, p: int) -> bool {
    &&& is_candidate(s, p)
    &&& forall|q: int| is_candidate(s, q) ==> weight_at(s, p) <= weight_at(s, q)
    &&& forall|q: int|
        is_candidate(s, q) && weight_at(s, q) == weight_at(s, p) ==> if groups_right(
            op_of(s[p]).unwrap(),
        ) {
            p <= q
        } else {
            q <= p
        }
}

/// No operator of `s` may split it.
pub open spec fn has_no_operator(s: Seq<char>) -> bool {
    forall|q: int| !is_candidate(s, q)
}

/// What is done next with a trimmed expression.
#[derive(Clone, Copy, Debug, PartialEq, Eq, Structural)]
pub enum Step {
    /// Evaluate the text strictly between `open` and `close`, and put its
    /// value in place of the whole group.
    Group { open: usize, close: usize },
    /// Evaluate the text on each side of the operator at `at`, and combine.
    Split { at: usize, op: Op },
    /// The whole text is one operand.
    Operand,
}

/// `st` is the step that `s` calls for.
pub open spec fn is_step(s: Seq<char>, st: Step) -> bool {
    match st {
        Step::Group { open, close } => is_first_group(s, open as int, close as int),
        Step::Split { at, op } => has_no_group(s) && is_split(s, at as int) && op_of(s[at as int])
            == Some(op),
        Step::Operand => has_no_group(s) && has_no_operator(s),
    }
}

/// A text has at most one group that is resolved first.
pub proof fn lemma_first_group_unique(s: Seq<char>, o1: int, c1: int, o2: int, c2: int)
    requires
        is_first_group(s, o1, c1),
        is_first_group(s, o2, c2),
    ensures
        o1 == o2,
        c1 == c2,
{
    if c1 < c2 {
        assert(s[o1] != '(');
    } else if c2 < c1 {
        assert(s[o2] != '(');
    }
    if o1 < o2 {
        assert(s[o2] != '(');
    } else if o2 < o1 {
        assert(s[o1] != '(');
    }
}

/// A text splits at one operator at most.
pub proof fn lemma_split_unique(s: Seq<char>, p: int, q: int)
    requires
        is_split(s, p),
        is_split(s, q),
    ensures
        p == q,
{
    assert(weight_at(s, p) == weight_at(s, q));
}

/// The group resolved first is innermost: no parenthesis stands inside it.
pub proof fn lemma_group_is_innermost(s: Seq<char>, o: int, c: int)
    requires
        is_first_group(s, o, c),
    ensures
        forall|k: int| o < k < c ==> s[k] != '(' && s[k] != ')',
{
    assert forall|k: int| o < k < c implies s[k] != '(' && s[k] != ')' by {
        if s[k] == ')' {
            assert(s[o] != '(');
        }
    }
}

/// Operators that bind equally loosely and group from the left are taken
/// from the left: where every operator of `s` has the weight of the one at
/// `p`, which groups from the left, and none stands after `p`, `s` splits at
/// `p`, so the left side holds all the other operands.
pub proof fn lemma_left_grouping(s: Seq<char>, p: int)
    requires
        is_candidate(s, p),
        !groups_right(op_of(s[p]).unwrap()),
        forall|q: int| is_candidate(s, q) ==> weight_at(s, q) == weight_at(s, p),
        forall|q: int| p < q < s.len() ==> !is_candidate(s, q),
    ensures
        is_split(s, p),
{
}

/// Exponents group from the right: where every operator of `s` is `^` and
/// none stands before `p`, `s` splits at `p`, so the right side holds all the
/// other operands.
pub proof fn lemma_right_grouping(s: Seq<char>, p: int)
    requires
        is_candidate(s, p),
        forall|q: int| is_candidate(s, q) ==> s[q] == '^',
        forall|q: int| 1 <= q < p ==> !is_candidate(s, q),
    ensures
        is_split(s, p),
{
}

/// Tighter operators are applied first: where `s` holds an operator of
/// weight `w`, it splits at an operator of weight `w` or less.
pub proof fn lemma_loosest_splits(s: Seq<char>, p: int, q: int)
    requires
        is_split(s, p),
        is_candidate(s, q),
    ensures
        weight_at(s, p) <= weight_at(s, q),
{
}

/// The group that is resolved first, if `s` has one.
pub fn innermost_group(s: &str) -> (r: Option<(usize, usize)>)
    ensures
        match r {
            Some((o, c)) => is_first_group(s@, o as int, c as int),
            None => has_no_group(s@),
        },
{
    let n = s.unicode_len();
    let mut open: Option<usize> = None;
    let mut i: usize = 0;
    while i < n
        invariant
            i <= n,
            n == s@.len(),
            match open {
                Some(o) => o < i && s@[o as int] == '(' && forall|k: int|
                    o < k < i ==> s@[k] != '(',
                None => forall|k: int| 0 <= k < i ==> s@[k] != '(',
            },
            forall|a: int, b: int| 0 <= a < b < i && s@[b] == ')' ==> s@[a] != '(',
        decreases n - i,
    {
        let ch = s.get_char(i);
        if ch == '(' {
            open = Some(i);
        } else if ch == ')' {
            if let Some(o) = open {
                return Some((o, i));
            }
        }
        i = i + 1;
    }
    None
}

/// The operator at which `s` splits, if any.
pub fn split_point(s: &str) -> (r: Option<(usize, Op)>)
    ensures
        match r {
            Some((p, op)) => is_split(s@, p as int) && op_of(s@[p as int]) == Some(op),
            None => has_no_operator(s@),
        },
{
    let n = s.unicode_len();
    if n <= 1 {
        return None;
    }
    let mut best: Option<(usize, Op)> = None;
    let mut i: usize = 1;
    while i < n
        invariant
            1 <= i <= n,
            n == s@.len(),
            match best {
                Some((p, op)) => {
                    &&& p < i
                    &&& is_candidate(s@, p as int)
                    &&& op_of(s@[p as int]) == Some(op)
                    &&& forall|q: int|
                        q < i && is_candidate(s@, q) ==> weight_at(s@, p as int) <= weight_at(
                            s@,
                            q,
                        )
                    &&& forall|q: int|
                        q < i && is_candidate(s@, q) && weight_at(s@, q) == weight_at(
                            s@,
                            p as int,
                        ) ==> if groups_right(op) {
                            p <= q
                        } else {
                            q <= p
                        }
                },
                None => forall|q: int| q < i ==> !is_candidate(s@, q),
            },
        decreases n - i,
    {
        if let Some(op) = Op::from_char(s.get_char(i)) {
            match best {
                None => {
                    best = Some((i, op));
                },
                Some((_, b)) => {
                    let w = op.weight();
                    let bw = b.weight();
                    if w < bw || (w == bw && !b.groups_right()) {
                        best = Some((i, op));
                    }
                },
            }
        }
        i = i + 1;
    }
    proof {
        assert forall|q: int| !(q < n) implies !is_candidate(s@, q) by {}
    }
    best
}

/// The step that the trimmed expression `s` calls for.
pub fn next_step(s: &str) -> (r: Step)
    ensures
        is_step(s@, r),
{
    match innermost_group(s) {
        Some((open, close)) => Step::Group { open, close },
        None => match split_point(s) {
            Some((at, op)) => Step::Split { at, op },
            None => Step::Operand,
        },
    }
}

} // verus!
