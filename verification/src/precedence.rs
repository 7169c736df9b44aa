use vstd::prelude::*;
use crate::parser::{BinaryOp, Expression};

verus! {

/// The binding strength of a binary operator: operators of a lower level
/// are grouped first. Exponentiation binds tightest, then `%`, `/`, `*`,
/// `-`, `+`, the comparisons, `&&` and `||`.
pub open spec fn level(op: BinaryOp) -> int {
    match op {
        BinaryOp::EExp => 0,
        BinaryOp::EMod => 1,
        BinaryOp::EDiv => 2,
        BinaryOp::EMul => 3,
        BinaryOp::ESub => 4,
        BinaryOp::EAdd => 5,
        BinaryOp::ELT => 6,
        BinaryOp::ELTE => 6,
        BinaryOp::EEQ => 6,
        BinaryOp::ENE => 6,
        BinaryOp::EGTE => 6,
        BinaryOp::EGT => 6,
        BinaryOp::EAND => 7,
        BinaryOp::EOR => 8,
    }
}

/// Whether the operators of a level group from the right (`^`, `*`, `+`);
/// the others group from the left.
pub open spec fn right_assoc(lv: int) -> bool {
    lv == 0 || lv == 3 || lv == 5
}

/// How the values of an expression are grouped by its binary operators:
/// a leaf is the index of a value (0 for the first value, `k + 1` for the
/// value of the `k`-th operator/value pair); a node applies an operator
/// to the results of two groups.
#[derive(Debug, PartialEq, Eq)]
pub enum OpTree {
    Leaf(usize),
    Node(BinaryOp, Box<OpTree>, Box<OpTree>),
}

impl OpTree {
    /// The value indices of the tree, from left to right.
    pub open spec fn leaves(self) -> Seq<usize>
        decreases self,
    {
        match self {
            OpTree::Leaf(i) => seq![i],
            OpTree::Node(_, l, r) => l.leaves() + r.leaves(),
        }
    }

    /// The operators of the tree, from left to right.
    pub open spec fn ops(self) -> Seq<BinaryOp>
        decreases self,
    {
        match self {
            OpTree::Leaf(_) => Seq::empty(),
            OpTree::Node(op, l, r) => l.ops() + seq![op] + r.ops(),
        }
    }

    /// The level of the root operator; -1 for a leaf.
    pub open spec fn top(self) -> int {
        match self {
            OpTree::Leaf(_) => -1,
            OpTree::Node(op, _, _) => level(op),
        }
    }

    /// Every node groups according to precedence and associativity: a child
    /// binds at least as tightly as its parent, and a child of the same
    /// level stands on the side the level associates towards.
    pub open spec fn well_grouped(self) -> bool
        decreases self,
    {
        match self {
            OpTree::Leaf(_) => true,
            OpTree::Node(op, l, r) => {
                let p = level(op);
                &&& l.well_grouped()
                &&& r.well_grouped()
                &&& (l.top() < p || (l.top() == p && !right_assoc(p)))
                &&& (r.top() < p || (r.top() == p && right_assoc(p)))
            },
        }
    }
}

/// A tree has one more value than operators.
pub proof fn lemma_leaves_len(t: OpTree)
    ensures
        t.leaves().len() == t.ops().len() + 1,
    decreases t,
{
    match t {
        OpTree::Leaf(_) => {},
        OpTree::Node(_, l, r) => {
            lemma_leaves_len(*l);
            lemma_leaves_len(*r);
        },
    }
}

/// In a well-grouped tree no operator has a higher level than the root.
pub proof fn lemma_top_is_max(t: OpTree)
    requires
        t.well_grouped(),
    ensures
        forall|j: int| 0 <= j < t.ops().len() ==> level(#[trigger] t.ops()[j]) <= t.top(),
    decreases t,
{
    match t {
        OpTree::Leaf(_) => {},
        OpTree::Node(op, l, r) => {
            lemma_top_is_max(*l);
            lemma_top_is_max(*r);
            let s = t.ops();
            assert forall|j: int| 0 <= j < s.len() implies level(#[trigger] s[j]) <= t.top() by {
                if j < l.ops().len() {
                    assert(s[j] == l.ops()[j]);
                } else if j == l.ops().len() {
                } else {
                    assert(s[j] == r.ops()[j - l.ops().len() - 1]);
                }
            }
        },
    }
}

/// Precedence and associativity determine the grouping: two well-grouped
/// trees over the same values and the same operators are the same tree.
pub proof fn lemma_grouping_unique(t1: OpTree, t2: OpTree)
    requires
        t1.well_grouped(),
        t2.well_grouped(),
        t1.ops() == t2.ops(),
        t1.leaves() == t2.leaves(),
    ensures
        t1 == t2,
    decreases t1,
{
    lemma_leaves_len(t1);
    lemma_leaves_len(t2);
    match t1 {
        OpTree::Leaf(a) => {
            match t2 {
                OpTree::Leaf(b) => {
                    assert(t1.leaves()[0] == a);
                    assert(t2.leaves()[0] == b);
                },
                OpTree::Node(_, _, _) => {
                    assert(t2.ops().len() >= 1);
                },
            }
        },
        OpTree::Node(op1, l1, r1) => {
            match t2 {
                OpTree::Leaf(_) => {
                    assert(t1.ops().len() >= 1);
                },
                OpTree::Node(op2, l2, r2) => {
                    let s = t1.ops();
                    let k1 = l1.ops().len() as int;
                    let k2 = l2.ops().len() as int;
                    lemma_top_is_max(t1);
                    lemma_top_is_max(t2);
                    lemma_top_is_max(*l1);
                    lemma_top_is_max(*l2);
                    lemma_top_is_max(*r1);
                    lemma_top_is_max(*r2);
                    assert(s[k1] == op1);
                    assert(s[k2] == op2);
                    let p = level(op1);
                    assert(level(op2) == p);
                    if k1 < k2 {
                        assert(s[k1] == l2.ops()[k1]);
                        assert(s[k2] == r1.ops()[k2 - k1 - 1]);
                        assert(false);
                    } else if k2 < k1 {
                        assert(s[k2] == l1.ops()[k2]);
                        assert(s[k1] == r2.ops()[k1 - k2 - 1]);
                        assert(false);
                    }
                    assert(l1.ops() =~= s.take(k1));
                    assert(l2.ops() =~= s.take(k1));
                    assert(r1.ops() =~= s.skip(k1 + 1));
                    assert(r2.ops() =~= s.skip(k1 + 1));
                    lemma_leaves_len(*l1);
                    lemma_leaves_len(*l2);
                    let v = t1.leaves();
                    assert(l1.leaves() =~= v.take(k1 + 1));
                    assert(l2.leaves() =~= v.take(k1 + 1));
                    assert(r1.leaves() =~= v.skip(k1 + 1));
                    assert(r2.leaves() =~= v.skip(k1 + 1));
                    lemma_grouping_unique(*l1, *l2);
                    lemma_grouping_unique(*r1, *r2);
                },
            }
        },
    }
}

/// The operators of a row of groups joined by operators, from left to right.
pub open spec fn flat_ops(ts: Seq<OpTree>, os: Seq<BinaryOp>) -> Seq<BinaryOp>
    decreases ts.len(),
{
    if ts.len() == 0 {
        Seq::empty()
    } else if ts.len() == 1 {
        ts[0].ops()
    } else {
        ts[0].ops() + seq![os[0]] + flat_ops(ts.skip(1), os.skip(1))
    }
}

/// The value indices of a row of groups, from left to right.
pub open spec fn flat_leaves(ts: Seq<OpTree>) -> Seq<usize>
    decreases ts.len(),
{
    if ts.len() == 0 {
        Seq::empty()
    } else {
        ts[0].leaves() + flat_leaves(ts.skip(1))
    }
}

/// The row after the groups at `i` and `i + 1` are joined by operator `i`.
pub open spec fn combined(ts: Seq<OpTree>, os: Seq<BinaryOp>, i: int) -> Seq<OpTree> {
    ts.take(i).push(OpTree::Node(os[i], Box::new(ts[i]), Box::new(ts[i + 1]))) + ts.skip(i + 2)
}

/// Joining two neighbouring groups keeps the row's values and operators.
proof fn lemma_combined_flat(ts: Seq<OpTree>, os: Seq<BinaryOp>, i: int)
    requires
        ts.len() == os.len() + 1,
        0 <= i < os.len(),
    ensures
        flat_ops(combined(ts, os, i), os.remove(i)) == flat_ops(ts, os),
        flat_leaves(combined(ts, os, i)) == flat_leaves(ts),
    decreases i,
{
    let c = combined(ts, os, i);
    let o2 = os.remove(i);
    let n = OpTree::Node(os[i], Box::new(ts[i]), Box::new(ts[i + 1]));
    if i == 0 {
        assert(c =~= seq![n] + ts.skip(2));
        assert(c[0] == n);
        assert(c.skip(1) =~= ts.skip(2));
        assert(ts.skip(1).skip(1) =~= ts.skip(2));
        assert(ts.skip(1)[0] == ts[1]);
        assert(flat_leaves(ts.skip(1)) == ts[1].leaves() + flat_leaves(ts.skip(1).skip(1)));
        assert(flat_leaves(c) =~= flat_leaves(ts));
        if ts.len() == 2 {
            assert(c.len() == 1);
            assert(flat_ops(ts.skip(1), os.skip(1)) == ts[1].ops());
            assert(flat_ops(c, o2) =~= flat_ops(ts, os));
        } else {
            assert(o2 =~= os.skip(1));
            assert(o2[0] == os[1]);
            assert(o2.skip(1) =~= os.skip(2));
            assert(os.skip(1).skip(1) =~= os.skip(2));
            assert(os.skip(1)[0] == os[1]);
            assert(flat_ops(ts.skip(1), os.skip(1)) == ts[1].ops() + seq![os[1]]
                + flat_ops(ts.skip(1).skip(1), os.skip(1).skip(1)));
            assert(flat_ops(c, o2) =~= flat_ops(ts, os));
        }
    } else {
        let ts1 = ts.skip(1);
        let os1 = os.skip(1);
        lemma_combined_flat(ts1, os1, i - 1);
        assert(c[0] == ts[0]);
        assert(c.skip(1) =~= combined(ts1, os1, i - 1));
        assert(o2[0] == os[0]);
        assert(o2.skip(1) =~= os1.remove(i - 1));
        assert(flat_ops(c, o2) =~= flat_ops(ts, os));
        assert(flat_leaves(c) =~= flat_leaves(ts));
    }
}

proof fn lemma_initial_flat(ts: Seq<OpTree>, os: Seq<BinaryOp>, start: int)
    requires
        ts.len() == os.len() + 1,
        start >= 0,
        start + ts.len() <= usize::MAX + 1,
        forall|j: int| 0 <= j < ts.len() ==> ts[j] == OpTree::Leaf((start + j) as usize),
    ensures
        flat_ops(ts, os) == os,
        flat_leaves(ts) == Seq::new(ts.len(), |j: int| (start + j) as usize),
    decreases ts.len(),
{
    if ts.len() == 1 {
        assert(flat_leaves(ts.skip(1)) == Seq::<usize>::empty());
        assert(flat_leaves(ts) =~= Seq::new(ts.len(), |j: int| (start + j) as usize));
        assert(os =~= Seq::<BinaryOp>::empty());
    } else {
        lemma_initial_flat(ts.skip(1), os.skip(1), start + 1);
        assert(flat_ops(ts, os) =~= os);
        assert(flat_leaves(ts) =~= Seq::new(ts.len(), |j: int| (start + j) as usize));
    }
}

/// The conditions under which the operators of level `lv` are grouped:
/// every group binds tighter than `lv`, every remaining operator is of
/// level `lv` or looser.
pub open spec fn ready_for(ts: Seq<OpTree>, os: Seq<BinaryOp>, lv: int) -> bool {
    &&& ts.len() == os.len() + 1
    &&& forall|j: int| 0 <= j < ts.len() ==> (#[trigger] ts[j]).well_grouped() && ts[j].top() < lv
    &&& forall|j: int| 0 <= j < os.len() ==> level(#[trigger] os[j]) >= lv
}

/// After the operators of level `lv` are grouped: every group binds at
/// least as tightly as `lv`, every remaining operator is looser.
pub open spec fn done_with(ts: Seq<OpTree>, os: Seq<BinaryOp>, lv: int) -> bool {
    &&& ts.len() == os.len() + 1
    &&& forall|j: int| 0 <= j < ts.len() ==> (#[trigger] ts[j]).well_grouped() && ts[j].top() <= lv
    &&& forall|j: int| 0 <= j < os.len() ==> level(#[trigger] os[j]) > lv
}

/// Joins the groups at `i` and `i + 1` with operator `i`.
fn combine_at(vals: &mut Vec<OpTree>, ops: &mut Vec<BinaryOp>, i: usize)
    requires
        old(vals)@.len() == old(ops)@.len() + 1,
        i < old(ops)@.len(),
    ensures
        final(vals)@ == combined(old(vals)@, old(ops)@, i as int),
        final(ops)@ == old(ops)@.remove(i as int),
{
    let op = ops[i];
    assert(i + 1 < vals.len());
    let right = vals.remove(i + 1);
    let left = vals.remove(i);
    vals.insert(i, OpTree::Node(op, Box::new(left), Box::new(right)));
    ops.remove(i);
    assert(vals@ =~= combined(old(vals)@, old(ops)@, i as int));
}

/// Groups the operators equal to `search` from the right to the left.
fn rtol(vals: &mut Vec<OpTree>, ops: &mut Vec<BinaryOp>, search: BinaryOp)
    requires
        ready_for(old(vals)@, old(ops)@, level(search)),
        right_assoc(level(search)),
        forall|o: BinaryOp| level(o) == level(search) ==> o == search,
    ensures
        done_with(final(vals)@, final(ops)@, level(search)),
        flat_ops(final(vals)@, final(ops)@) == flat_ops(old(vals)@, old(ops)@),
        flat_leaves(final(vals)@) == flat_leaves(old(vals)@),
{
    let ghost lv = level(search);
    let ghost fo = flat_ops(vals@, ops@);
    let ghost fl = flat_leaves(vals@);
    let mut i = ops.len();
    while i > 0
        invariant
            vals@.len() == ops@.len() + 1,
            i <= ops@.len(),
            lv == level(search),
            right_assoc(lv),
            forall|o: BinaryOp| level(o) == lv ==> o == search,
            forall|j: int| 0 <= j < vals@.len() ==> (#[trigger] vals@[j]).well_grouped(),
            forall|j: int| 0 <= j < i ==> (#[trigger] vals@[j]).top() < lv,
            forall|j: int| i <= j < vals@.len() ==> (#[trigger] vals@[j]).top() <= lv,
            forall|j: int| 0 <= j < ops@.len() ==> level(#[trigger] ops@[j]) >= lv,
            forall|j: int| i <= j < ops@.len() ==> level(#[trigger] ops@[j]) != lv,
            flat_ops(vals@, ops@) == fo,
            flat_leaves(vals@) == fl,
        decreases i,
    {
        i = i - 1;
        let op = ops[i];
        if op == search {
            proof {
                lemma_combined_flat(vals@, ops@, i as int);
            }
            let ghost pv = vals@;
            let ghost po = ops@;
            combine_at(vals, ops, i);
            assert forall|j: int| 0 <= j < vals@.len() implies (#[trigger] vals@[j]).well_grouped()
                && (j < i ==> vals@[j].top() < lv) && (i <= j ==> vals@[j].top() <= lv) by {
                if j < i {
                    assert(vals@[j] == pv[j]);
                } else if j > i {
                    assert(vals@[j] == pv[j + 1]);
                }
            }
            assert forall|j: int| 0 <= j < ops@.len() implies level(#[trigger] ops@[j]) >= lv
                && (i <= j ==> level(ops@[j]) != lv) by {
                if j < i {
                    assert(ops@[j] == po[j]);
                } else {
                    assert(ops@[j] == po[j + 1]);
                }
            }
        }
    }
}

/// Groups the operators equal to `search` from the left to the right.
fn ltor(vals: &mut Vec<OpTree>, ops: &mut Vec<BinaryOp>, search: BinaryOp)
    requires
        ready_for(old(vals)@, old(ops)@, level(search)),
        !right_assoc(level(search)),
        forall|o: BinaryOp| level(o) == level(search) ==> o == search,
    ensures
        done_with(final(vals)@, final(ops)@, level(search)),
        flat_ops(final(vals)@, final(ops)@) == flat_ops(old(vals)@, old(ops)@),
        flat_leaves(final(vals)@) == flat_leaves(old(vals)@),
{
    let ghost lv = level(search);
    let ghost fo = flat_ops(vals@, ops@);
    let ghost fl = flat_leaves(vals@);
    let mut i: usize = 0;
    while i < ops.len()
        invariant
            vals@.len() == ops@.len() + 1,
            i <= ops@.len(),
            lv == level(search),
            !right_assoc(lv),
            forall|o: BinaryOp| level(o) == lv ==> o == search,
            forall|j: int| 0 <= j < vals@.len() ==> (#[trigger] vals@[j]).well_grouped(),
            forall|j: int| 0 <= j <= i ==> (#[trigger] vals@[j]).top() <= lv,
            forall|j: int| i < j < vals@.len() ==> (#[trigger] vals@[j]).top() < lv,
            forall|j: int| 0 <= j < ops@.len() ==> level(#[trigger] ops@[j]) >= lv,
            forall|j: int| 0 <= j < i ==> level(#[trigger] ops@[j]) != lv,
            flat_ops(vals@, ops@) == fo,
            flat_leaves(vals@) == fl,
        decreases 2 * ops@.len() - i,
    {
        let op = ops[i];
        if op == search {
            proof {
                lemma_combined_flat(vals@, ops@, i as int);
            }
            let ghost pv = vals@;
            let ghost po = ops@;
            combine_at(vals, ops, i);
            assert forall|j: int| 0 <= j < vals@.len() implies (#[trigger] vals@[j]).well_grouped()
                && (j <= i ==> vals@[j].top() <= lv) && (i < j ==> vals@[j].top() < lv) by {
                if j < i {
                    assert(vals@[j] == pv[j]);
                } else if j > i {
                    assert(vals@[j] == pv[j + 1]);
                }
            }
            assert forall|j: int| 0 <= j < ops@.len() implies level(#[trigger] ops@[j]) >= lv
                && (j < i ==> level(ops@[j]) != lv) by {
                if j < i {
                    assert(ops@[j] == po[j]);
                } else {
                    assert(ops@[j] == po[j + 1]);
                }
            }
        } else {
            i = i + 1;
        }
    }
}

/// Whether `op` is one of the comparisons `<`, `<=`, `==`, `!=`, `>=`, `>`.
pub fn is_comparison(op: BinaryOp) -> (res: bool)
    ensures
        res == (level(op) == 6),
{
    match op {
        BinaryOp::ELT | BinaryOp::ELTE | BinaryOp::EEQ | BinaryOp::ENE | BinaryOp::EGTE
        | BinaryOp::EGT => true,
        _ => false,
    }
}

/// Groups the comparison operators from the left to the right.
fn ltor_multi(vals: &mut Vec<OpTree>, ops: &mut Vec<BinaryOp>)
    requires
        ready_for(old(vals)@, old(ops)@, 6),
    ensures
        done_with(final(vals)@, final(ops)@, 6),
        flat_ops(final(vals)@, final(ops)@) == flat_ops(old(vals)@, old(ops)@),
        flat_leaves(final(vals)@) == flat_leaves(old(vals)@),
{
    let ghost lv = 6int;
    let ghost fo = flat_ops(vals@, ops@);
    let ghost fl = flat_leaves(vals@);
    let mut i: usize = 0;
    while i < ops.len()
        invariant
            vals@.len() == ops@.len() + 1,
            i <= ops@.len(),
            lv == 6,
            forall|j: int| 0 <= j < vals@.len() ==> (#[trigger] vals@[j]).well_grouped(),
            forall|j: int| 0 <= j <= i ==> (#[trigger] vals@[j]).top() <= lv,
            forall|j: int| i < j < vals@.len() ==> (#[trigger] vals@[j]).top() < lv,
            forall|j: int| 0 <= j < ops@.len() ==> level(#[trigger] ops@[j]) >= lv,
            forall|j: int| 0 <= j < i ==> level(#[trigger] ops@[j]) != lv,
            flat_ops(vals@, ops@) == fo,
            flat_leaves(vals@) == fl,
        decreases 2 * ops@.len() - i,
    {
        let op = ops[i];
        if is_comparison(op) {
            proof {
                lemma_combined_flat(vals@, ops@, i as int);
            }
            let ghost pv = vals@;
            let ghost po = ops@;
            combine_at(vals, ops, i);
            assert forall|j: int| 0 <= j < vals@.len() implies (#[trigger] vals@[j]).well_grouped()
                && (j <= i ==> vals@[j].top() <= lv) && (i < j ==> vals@[j].top() < lv) by {
                if j < i {
                    assert(vals@[j] == pv[j]);
                } else if j > i {
                    assert(vals@[j] == pv[j + 1]);
                }
            }
            assert forall|j: int| 0 <= j < ops@.len() implies level(#[trigger] ops@[j]) >= lv
                && (j < i ==> level(ops@[j]) != lv) by {
                if j < i {
                    assert(ops@[j] == po[j]);
                } else {
                    assert(ops@[j] == po[j + 1]);
                }
            }
        } else {
            i = i + 1;
        }
    }
}

/// Groups the values `0..=ops.len()` by the operators between them:
/// `ops[k]` stands between value `k` and value `k + 1`. The result lists
/// the values and the operators in their order and groups them by
/// precedence and associativity; by `lemma_grouping_unique` it is the only
/// such tree.
pub fn group_operands(ops: &Vec<BinaryOp>) -> (t: OpTree)
    requires
        ops@.len() < usize::MAX,
    ensures
        t.well_grouped(),
        t.ops() == ops@,
        t.leaves() == Seq::new((ops@.len() + 1) as nat, |j: int| j as usize),
{
    let n = ops.len();
    let mut vals: Vec<OpTree> = Vec::with_capacity(n + 1);
    let mut work: Vec<BinaryOp> = Vec::with_capacity(n);
    let mut k: usize = 0;
    while k < n
        invariant
            k <= n,
            n == ops@.len(),
            n < usize::MAX,
            vals@.len() == k,
            work@ == ops@.take(k as int),
            forall|j: int| 0 <= j < k ==> vals@[j] == OpTree::Leaf(j as usize),
        decreases n - k,
    {
        vals.push(OpTree::Leaf(k));
        work.push(ops[k]);
        k = k + 1;
        assert(work@ =~= ops@.take(k as int));
    }
    vals.push(OpTree::Leaf(n));
    assert(work@ =~= ops@);
    proof {
        lemma_initial_flat(vals@, work@, 0);
        assert(Seq::new(vals@.len(), |j: int| (0 + j) as usize) =~= Seq::new(
            (ops@.len() + 1) as nat,
            |j: int| j as usize,
        ));
    }
    let ghost fl = flat_leaves(vals@);
    rtol(&mut vals, &mut work, BinaryOp::EExp);
    ltor(&mut vals, &mut work, BinaryOp::EMod);
    ltor(&mut vals, &mut work, BinaryOp::EDiv);
    rtol(&mut vals, &mut work, BinaryOp::EMul);
    ltor(&mut vals, &mut work, BinaryOp::ESub);
    rtol(&mut vals, &mut work, BinaryOp::EAdd);
    ltor_multi(&mut vals, &mut work);
    ltor(&mut vals, &mut work, BinaryOp::EAND);
    ltor(&mut vals, &mut work, BinaryOp::EOR);
    if work.len() > 0 {
        assert(level(work@[0]) > 8);
    }
    assert(vals@.len() == 1);
    let ghost last = vals@;
    let t = vals.pop().unwrap();
    proof {
        assert(last[0] == t);
        assert(last.skip(1).len() == 0);
        assert(flat_leaves(last.skip(1)) == Seq::<usize>::empty());
        assert(t.leaves() =~= fl);
    }
    t
}

impl Expression {
    /// How the binary operators of the expression group its values: value
    /// 0 is `first`, value `k + 1` is the value of `pairs[k]`.
    pub fn grouping(&self) -> (t: OpTree)
        requires
            self.pairs@.len() < usize::MAX,
        ensures
            t.well_grouped(),
            t.ops() == self.pairs@.map_values(|p: crate::parser::ExprPair| p.0),
            t.leaves() == Seq::new((self.pairs@.len() + 1) as nat, |j: int| j as usize),
    {
        let mut ops: Vec<BinaryOp> = Vec::with_capacity(self.pairs.len());
        let mut k: usize = 0;
        while k < self.pairs.len()
            invariant
                k <= self.pairs@.len(),
                ops@ == self.pairs@.take(k as int).map_values(|p: crate::parser::ExprPair| p.0),
            decreases self.pairs@.len() - k,
        {
            ops.push(self.pairs[k].0);
            k = k + 1;
            assert(ops@ =~= self.pairs@.take(k as int).map_values(|p: crate::parser::ExprPair| p.0));
        }
        assert(self.pairs@.take(k as int) =~= self.pairs@);
        group_operands(&ops)
    }
}

} // verus!
