use vstd::prelude::*;
use crate::operator::{Op, op_of};
use crate::text::{trim, trimmed, lemma_trimmed_len, lemma_trimmed_idempotent};
use crate::expression::{
    lemma_first_group_unique,
    lemma_split_unique,
    is_candidate,
    Step,
    next_step,
    is_first_group,
    has_no_group,
    has_no_operator,
    is_split,
};

verus! {

/// A part of an expression that waits for the value of one of its pieces.
pub enum Pending {
    /// `expr` waits for the value of its group from `open` to `close`.
    Group { expr: String, open: usize, close: usize },
    /// `expr` splits at `at` and waits for the value of its left operand.
    Left { expr: String, at: usize, op: Op },
    /// The left operand of `op` has the value `left`; the right one is awaited.
    Right { op: Op, left: String },
}

/// The model of [`Pending`].
pub enum PendingView {
    Group { expr: Seq<char>, open: int, close: int },
    Left { expr: Seq<char>, at: int, op: Op },
    Right { op: Op, left: Seq<char> },
}

impl View for Pending {
    type V = PendingView;

    open spec fn view(&self) -> PendingView {
        match self {
            Pending::Group { expr, open, close } => PendingView::Group {
                expr: expr@,
                open: *open as int,
                close: *close as int,
            },
            Pending::Left { expr, at, op } => PendingView::Left { expr: expr@, at: *at as int, op: *op },
            Pending::Right { op, left } => PendingView::Right { op: *op, left: left@ },
        }
    }
}

/// What the caller is asked to compute. Values travel as the text that
/// writes them.
pub enum Request {
    /// The value of an operand; text that is no number stands for zero.
    Operand(String),
    /// `left op right`. A division whose right value is zero fails the
    /// whole evaluation.
    Apply { op: Op, left: String, right: String },
}

/// The model of [`Request`].
pub enum RequestView {
    Operand(Seq<char>),
    Apply { op: Op, left: Seq<char>, right: Seq<char> },
}

impl View for Request {
    type V = RequestView;

    open spec fn view(&self) -> RequestView {
        match self {
            Request::Operand(x) => RequestView::Operand(x@),
            Request::Apply { op, left, right } => RequestView::Apply {
                op: *op,
                left: left@,
                right: right@,
            },
        }
    }
}

/// Where an evaluation stands after a value came back.
pub enum Progress {
    /// One more value is needed.
    Ask(Request),
    /// The value of the whole expression.
    Done(String),
    /// A division by zero ended the evaluation.
    DivisionByZero,
}

/// The model of [`Progress`].
pub enum ProgressView {
    Ask(RequestView),
    Done(Seq<char>),
    DivisionByZero,
}

impl View for Progress {
    type V = ProgressView;

    open spec fn view(&self) -> ProgressView {
        match self {
            Progress::Ask(q) => ProgressView::Ask(q@),
            Progress::Done(v) => ProgressView::Done(v@),
            Progress::DivisionByZero => ProgressView::DivisionByZero,
        }
    }
}

/// The digits of a value: its text without a leading `-`.
pub open spec fn unsigned(v: Seq<char>) -> Seq<char> {
    if v.len() > 0 && v[0] == '-' {
        v.drop_first()
    } else {
        v
    }
}

/// Whether `v` writes the number zero: an optional `-`, then only `0` and
/// `.`, with at least one `0`.
pub open spec fn is_zero_text(v: Seq<char>) -> bool {
    let d = unsigned(v);
    &&& exists|i: int| 0 <= i < d.len() && d[i] == '0'
    &&& forall|i: int| 0 <= i < d.len() ==> d[i] == '0' || d[i] == '.'
}

/// `s` with the text `v` in place of the span from `open` to `close`, both included.
pub open spec fn substituted(s: Seq<char>, open: int, close: int, v: Seq<char>) -> Seq<char> {
    s.subrange(0, open) + v + s.subrange(close + 1, s.len() as int)
}

/// The text to the right of the operator at `at`.
pub open spec fn right_of(s: Seq<char>, at: int) -> Seq<char> {
    s.subrange(at + 1, s.len() as int)
}

/// Taking `e` apart down to its first operand pushes the parts `fs`, outermost
/// first, and reaches the operand `x`.
pub open spec fn descends(e: Seq<char>, fs: Seq<PendingView>, x: Seq<char>) -> bool
    decreases fs.len(),
{
    let t = trimmed(e);
    if fs.len() == 0 {
        has_no_group(t) && has_no_operator(t) && x == t
    } else {
        match fs[0] {
            PendingView::Group { expr, open, close } => expr == t && is_first_group(t, open, close)
                && descends(t.subrange(open + 1, close), fs.drop_first(), x),
            PendingView::Left { expr, at, op } => expr == t && has_no_group(t) && is_split(t, at)
                && op_of(t[at]) == Some(op) && descends(t.subrange(0, at), fs.drop_first(), x),
            PendingView::Right { .. } => false,
        }
    }
}

/// A fresh evaluation of `e` waits in the state `fs` on the request `r`.
pub open spec fn started(e: Seq<char>, fs: Seq<PendingView>, r: ProgressView) -> bool {
    match r {
        ProgressView::Ask(RequestView::Operand(x)) => descends(e, fs, x),
        _ => false,
    }
}

/// Handing the value `v` to an evaluation in the state `fs` leads to the
/// state `gs` and the progress `r`.
pub open spec fn resumed(
    fs: Seq<PendingView>,
    v: Seq<char>,
    gs: Seq<PendingView>,
    r: ProgressView,
) -> bool {
    if fs.len() == 0 {
        gs == fs && r == ProgressView::Done(v)
    } else {
        let rest = fs.drop_last();
        let k = rest.len() as int;
        match fs.last() {
            PendingView::Group { expr, open, close } => k <= gs.len() && gs.subrange(0, k) == rest
                && started(substituted(expr, open, close, v), gs.subrange(k, gs.len() as int), r),
            PendingView::Left { expr, at, op } => k < gs.len() && gs.subrange(0, k) == rest
                && gs[k] == (PendingView::Right { op, left: v }) && started(
                right_of(expr, at),
                gs.subrange(k + 1, gs.len() as int),
                r,
            ),
            PendingView::Right { op, left } => gs == rest && if op == Op::Div && is_zero_text(v) {
                r == ProgressView::DivisionByZero
            } else {
                r == ProgressView::Ask(RequestView::Apply { op, left, right: v })
            },
        }
    }
}

/// A part that the evaluation can resume: its indices lie in its text.
pub open spec fn pending_ok(p: PendingView) -> bool {
    match p {
        PendingView::Group { expr, open, close } => is_first_group(expr, open, close),
        PendingView::Left { expr, at, .. } => is_split(expr, at),
        PendingView::Right { .. } => true,
    }
}

/// An evaluation in progress: the parts of the expression that wait for a
/// value, innermost last.
pub struct Evaluation {
    pending: Vec<Pending>,
}

impl View for Evaluation {
    type V = Seq<PendingView>;

    closed spec fn view(&self) -> Seq<PendingView> {
        self.pending@.map_values(|p: Pending| p@)
    }
}

impl Evaluation {
    /// Every waiting part can be resumed.
    pub open spec fn wf(&self) -> bool {
        forall|i: int| 0 <= i < self@.len() ==> pending_ok(#[trigger] self@[i])
    }

    /// Starts evaluating `expr`, and asks for the value of its first operand.
    pub fn start(expr: &str) -> (r: (Evaluation, Progress))
        ensures
            r.0.wf(),
            started(expr@, r.0@, r.1@),
    {
        let mut ev = Evaluation { pending: Vec::new() };
        assert(ev@ =~= Seq::<PendingView>::empty());
        let x = ev.descend(expr);
        assert(ev@.subrange(0, ev@.len() as int) =~= ev@);
        (ev, Progress::Ask(Request::Operand(x)))
    }

    /// Hands over `value`, the value asked for last, and says what is needed next.
    pub fn resume(&mut self, value: String) -> (r: Progress)
        requires
            old(self).wf(),
        ensures
            final(self).wf(),
            resumed(old(self)@, value@, final(self)@, r@),
    {
        let ghost fs = self@;
        if self.pending.len() == 0 {
            assert(self@ =~= fs);
            return Progress::Done(value);
        }
        let popped = self.pending.pop();
        proof {
            assert(self@ =~= fs.drop_last());
            assert(pending_ok(fs[fs.len() - 1]));
        }
        match popped {
            None => Progress::Done(value),
            Some(Pending::Group { expr, open, close }) => {
                let e2 = substitute(expr.as_str(), open, close, value.as_str());
                let x = self.descend(e2.as_str());
                Progress::Ask(Request::Operand(x))
            },
            Some(Pending::Left { expr, at, op }) => {
                let n = expr.as_str().unicode_len();
                let right = expr.as_str().substring_char(at + 1, n);
                let ghost rest = self@;
                self.pending.push(Pending::Right { op, left: value });
                proof {
                    assert(self@ =~= rest.push(self.pending@.last()@));
                }
                let ghost k = self@.len();
                let ghost mid = self@;
                let x = self.descend(right);
                proof {
                    assert(self@.subrange(0, k as int) == mid);
                    assert(self@[rest.len() as int] == mid[rest.len() as int]);
                    assert(self@.subrange(0, rest.len() as int) =~= rest);
                    assert(self@.subrange(rest.len() + 1 as int, self@.len() as int) =~= self@.subrange(
                        k as int,
                        self@.len() as int,
                    ));
                }
                Progress::Ask(Request::Operand(x))
            },
            Some(Pending::Right { op, left }) => {
                if op == Op::Div && is_zero(value.as_str()) {
                    Progress::DivisionByZero
                } else {
                    Progress::Ask(Request::Apply { op, left, right: value })
                }
            },
        }
    }

    /// Takes `e` apart down to its first operand, pushing the parts that wait,
    /// and returns that operand.
    fn descend(&mut self, e: &str) -> (x: String)
        requires
            old(self).wf(),
        ensures
            final(self).wf(),
            old(self)@.len() <= final(self)@.len(),
            final(self)@.subrange(0, old(self)@.len() as int) == old(self)@,
            descends(
                e@,
                final(self)@.subrange(old(self)@.len() as int, final(self)@.len() as int),
                x@,
            ),
        decreases e@.len(),
    {
        let ghost base = self@;
        let t = trim(e);
        proof {
            lemma_trimmed_len(e@);
        }
        match next_step(t) {
            Step::Group { open, close } => {
                self.pending.push(Pending::Group { expr: String::from_str(t), open, close });
                proof {
                    assert(self@ =~= base.push(self.pending@.last()@));
                }
                let ghost mid = self@;
                let inner = t.substring_char(open + 1, close);
                let x = self.descend(inner);
                proof {
                    let fs = self@.subrange(base.len() as int, self@.len() as int);
                    assert(self@.subrange(0, mid.len() as int) == mid);
                    assert(self@.subrange(0, base.len() as int) =~= mid.subrange(0, base.len() as int));
                    assert(fs[0] == mid[base.len() as int]);
                    assert(fs.drop_first() =~= self@.subrange(mid.len() as int, self@.len() as int));
                }
                x
            },
            Step::Split { at, op } => {
                self.pending.push(Pending::Left { expr: String::from_str(t), at, op });
                proof {
                    assert(self@ =~= base.push(self.pending@.last()@));
                }
                let ghost mid = self@;
                let left = t.substring_char(0, at);
                let x = self.descend(left);
                proof {
                    let fs = self@.subrange(base.len() as int, self@.len() as int);
                    assert(self@.subrange(0, mid.len() as int) == mid);
                    assert(self@.subrange(0, base.len() as int) =~= mid.subrange(0, base.len() as int));
                    assert(fs[0] == mid[base.len() as int]);
                    assert(fs.drop_first() =~= self@.subrange(mid.len() as int, self@.len() as int));
                }
                x
            },
            Step::Operand => {
                assert(self@.subrange(base.len() as int, self@.len() as int) =~= Seq::<PendingView>::empty());
                String::from_str(t)
            },
        }
    }
}

/// Taking a text apart leads to one sequence of parts and one operand.
pub proof fn lemma_descends_unique(
    e: Seq<char>,
    fs: Seq<PendingView>,
    x: Seq<char>,
    gs: Seq<PendingView>,
    y: Seq<char>,
)
    requires
        descends(e, fs, x),
        descends(e, gs, y),
    ensures
        fs == gs,
        x == y,
    decreases fs.len(),
{
    let t = trimmed(e);
    if fs.len() == 0 {
        if gs.len() > 0 {
            match gs[0] {
                PendingView::Group { open, close, .. } => {
                    assert(t[open] == '(' && t[close] == ')');
                },
                PendingView::Left { at, .. } => {
                    assert(is_candidate(t, at));
                },
                _ => {},
            }
        }
    } else if gs.len() == 0 {
        match fs[0] {
            PendingView::Group { open, close, .. } => {
                assert(t[open] == '(' && t[close] == ')');
            },
            PendingView::Left { at, .. } => {
                assert(is_candidate(t, at));
            },
            _ => {},
        }
    } else {
        match (fs[0], gs[0]) {
            (
                PendingView::Group { open: o1, close: c1, .. },
                PendingView::Group { open: o2, close: c2, .. },
            ) => {
                lemma_first_group_unique(t, o1, c1, o2, c2);
                lemma_descends_unique(t.subrange(o1 + 1, c1), fs.drop_first(), x, gs.drop_first(), y);
            },
            (PendingView::Left { at: a1, .. }, PendingView::Left { at: a2, .. }) => {
                lemma_split_unique(t, a1, a2);
                lemma_descends_unique(t.subrange(0, a1), fs.drop_first(), x, gs.drop_first(), y);
            },
            (PendingView::Group { open, close, .. }, _) => {
                assert(t[open] == '(' && t[close] == ')');
            },
            (_, PendingView::Group { open, close, .. }) => {
                assert(t[open] == '(' && t[close] == ')');
            },
            _ => {},
        }
        assert(fs =~= seq![fs[0]] + fs.drop_first());
        assert(gs =~= seq![gs[0]] + gs.drop_first());
    }
}

/// Resolving a group and going on is the same as starting afresh on the text
/// in which the group's value stands in place of the group: an evaluation of
/// `e` first waits on its first group, and once that group's value `v` comes
/// back, it is in the very state, asking the very thing, that a fresh
/// evaluation of the substituted text is in.
pub proof fn lemma_group_round_trip(
    e: Seq<char>,
    open: int,
    close: int,
    v: Seq<char>,
    fs: Seq<PendingView>,
    r0: ProgressView,
    gs: Seq<PendingView>,
    r: ProgressView,
    hs: Seq<PendingView>,
    r2: ProgressView,
)
    requires
        is_first_group(trimmed(e), open, close),
        started(e, fs, r0),
        resumed(seq![fs[0]], v, gs, r),
        started(substituted(trimmed(e), open, close, v), hs, r2),
    ensures
        fs[0] == (PendingView::Group { expr: trimmed(e), open, close }),
        gs == hs,
        r == r2,
{
    let t = trimmed(e);
    let x = r0->Ask_0->Operand_0;
    if fs.len() == 0 {
        assert(t[open] == '(' && t[close] == ')');
    }
    match fs[0] {
        PendingView::Group { open: o, close: c, .. } => {
            lemma_first_group_unique(t, open, close, o, c);
        },
        PendingView::Left { at, .. } => {
            assert(t[open] == '(' && t[close] == ')');
        },
        _ => {},
    }
    let one = seq![fs[0]];
    assert(one.drop_last() =~= Seq::<PendingView>::empty());
    assert(gs.subrange(0, gs.len() as int) =~= gs);
    let y = r->Ask_0->Operand_0;
    let z = r2->Ask_0->Operand_0;
    lemma_descends_unique(substituted(t, open, close, v), gs, y, hs, z);
}

/// Whether the value `v` is zero (see [`is_zero_text`]).
pub fn is_zero(v: &str) -> (r: bool)
    ensures
        r == is_zero_text(v@),
{
    let n = v.unicode_len();
    let mut i: usize = 0;
    if n > 0 && v.get_char(0) == '-' {
        i = 1;
    }
    let ghost start = i as int;
    let mut seen = false;
    while i < n
        invariant
            0 <= start <= i <= n,
            n == v@.len(),
            unsigned(v@) =~= v@.subrange(start, n as int),
            seen <==> exists|k: int| start <= k < i && v@[k] == '0',
            forall|k: int| start <= k < i ==> v@[k] == '0' || v@[k] == '.',
        decreases n - i,
    {
        let c = v.get_char(i);
        if c == '0' {
            seen = true;
        } else if c != '.' {
            proof {
                let d = unsigned(v@);
                assert(d[i - start] == c);
            }
            return false;
        }
        i = i + 1;
    }
    proof {
        let d = unsigned(v@);
        if seen {
            let k = choose|k: int| start <= k < i && v@[k] == '0';
            assert(d[k - start] == '0');
        } else {
            assert forall|j: int| 0 <= j < d.len() implies d[j] != '0' by {
                assert(v@[j + start] == d[j]);
            }
        }
        assert forall|j: int| 0 <= j < d.len() implies d[j] == '0' || d[j] == '.' by {
            assert(v@[j + start] == d[j]);
        }
    }
    seen
}

/// White space at the ends of an expression is insignificant: evaluating a
/// text and evaluating it trimmed go through the same states and requests.
pub proof fn lemma_outer_space_insignificant(e: Seq<char>, fs: Seq<PendingView>, r: ProgressView)
    ensures
        started(e, fs, r) == started(trimmed(e), fs, r),
{
    lemma_trimmed_idempotent(e);
}

/// A bare operand is its own value: an evaluation of a text with no group
/// and no operator asks for the value of the trimmed text alone, and ends
/// with the value it is given.
pub proof fn lemma_bare_operand(
    e: Seq<char>,
    fs: Seq<PendingView>,
    r: ProgressView,
    v: Seq<char>,
    gs: Seq<PendingView>,
    r2: ProgressView,
)
    requires
        has_no_group(trimmed(e)),
        has_no_operator(trimmed(e)),
        started(e, fs, r),
        resumed(fs, v, gs, r2),
    ensures
        fs.len() == 0,
        r == ProgressView::Ask(RequestView::Operand(trimmed(e))),
        r2 == ProgressView::Done(v),
{
    let t = trimmed(e);
    if fs.len() > 0 {
        match fs[0] {
            PendingView::Group { open, close, .. } => {
                assert(t[open] == '(' && t[close] == ')');
            },
            PendingView::Left { at, .. } => {
                assert(is_candidate(t, at));
            },
            _ => {},
        }
    }
}

/// `s` with `v` in place of the span from `open` to `close`, both included.
pub fn substitute(s: &str, open: usize, close: usize, v: &str) -> (r: String)
    requires
        open <= close < s@.len(),
    ensures
        r@ == substituted(s@, open as int, close as int, v@),
{
    let n = s.unicode_len();
    let mut r = String::from_str(s.substring_char(0, open));
    r.append(v);
    r.append(s.substring_char(close + 1, n));
    r
}

} // verus!
