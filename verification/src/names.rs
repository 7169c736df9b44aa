use vstd::prelude::*;
use crate::parser::{
    ExprPair, Expression, ExpressionI, ExpressionOrString, PrintFunc, StdFunc, UnaryOp, Value,
};
use crate::compiler::{IC, Instruction, InstructionI};
use crate::slab::{
    ParseSlab, CompileSlab, Slab, expr_ok, value_ok, stdfunc_ok, print_ok, instr_ok, ic_ok, ref_ok,
    exprs_ok,
};

verus! {

/// The names of variables and custom functions used by the stored
/// expression `i`.
pub open spec fn expr_names(ps: ParseSlab, i: int) -> Set<Seq<char>>
    decreases i, ps.vals@.len() + 2, 0int, 0int,
{
    if 0 <= i < ps.exprs@.len() {
        ex_names(ps, ps.exprs@[i], i)
    } else {
        Set::empty()
    }
}

/// The names used by expression `e`, whose references to stored
/// expressions are below `b`.
pub open spec fn ex_names(ps: ParseSlab, e: Expression, b: int) -> Set<Seq<char>>
    decreases b, ps.vals@.len() + 1, 1int, 0int,
{
    value_names(ps, e.first, b, ps.vals@.len()) + pairs_names(ps, e.pairs@, b)
}

/// The names used by the values of the operator/value pairs.
pub open spec fn pairs_names(ps: ParseSlab, pairs: Seq<ExprPair>, b: int) -> Set<Seq<char>>
    decreases b, ps.vals@.len() + 1, 0int, pairs.len(),
{
    if pairs.len() == 0 {
        Set::empty()
    } else {
        pairs_names(ps, pairs.drop_last(), b) + value_names(
            ps,
            pairs.last().1,
            b,
            ps.vals@.len(),
        )
    }
}

/// The names used by value `v`.
pub open spec fn value_names(ps: ParseSlab, v: Value, b: int, vb: nat) -> Set<Seq<char>>
    decreases b, vb, 2int, 0int,
{
    match v {
        Value::EConstant(_) => Set::empty(),
        Value::EUnaryOp(u) => unary_names(ps, u, b, vb),
        Value::EStdFunc(f) => stdfunc_names(ps, f, b),
        Value::EPrintFunc(pf) => print_names(ps, pf.0@, b),
    }
}

/// The names used by a unary operator's operand.
pub open spec fn unary_names(ps: ParseSlab, u: UnaryOp, b: int, vb: nat) -> Set<Seq<char>>
    decreases b, vb, 1int, 0int,
{
    match u {
        UnaryOp::EPos(vi) | UnaryOp::ENeg(vi) | UnaryOp::ENot(vi) => {
            if vi.0 < vb && vi.0 < ps.vals@.len() {
                value_names(ps, ps.vals@[vi.0 as int], b, vi.0 as nat)
            } else {
                Set::empty()
            }
        },
        UnaryOp::EParentheses(x) => sub_names(ps, x, b),
    }
}

/// The names used by the stored expression `x`, when it is below `b`.
pub open spec fn sub_names(ps: ParseSlab, x: ExpressionI, b: int) -> Set<Seq<char>>
    decreases b, 0int, 0int, 0int,
{
    if x.0 < b {
        expr_names(ps, x.0 as int)
    } else {
        Set::empty()
    }
}

/// The names used by a list of stored expressions.
pub open spec fn list_names(ps: ParseSlab, xs: Seq<ExpressionI>, b: int) -> Set<Seq<char>>
    decreases b, 0int, 0int, xs.len() + 1,
{
    if xs.len() == 0 {
        Set::empty()
    } else {
        list_names(ps, xs.drop_last(), b) + sub_names(ps, xs.last(), b)
    }
}

/// The names used by a function call: the name of a variable or custom
/// function, and the names used by its arguments.
pub open spec fn stdfunc_names(ps: ParseSlab, f: StdFunc, b: int) -> Set<Seq<char>>
    decreases b, 0int, 1int, 0int,
{
    match f {
        StdFunc::EVar(s) | StdFunc::ETargetVar(s) => set![s@],
        StdFunc::EFunc { name, args } => set![name@] + list_names(ps, args@, b),
        StdFunc::EFuncE | StdFunc::EFuncPi => Set::empty(),
        StdFunc::EFuncLog { base: opt, expr } | StdFunc::EFuncRound { modulus: opt, expr } => {
            let from_opt = match opt {
                Some(x) => sub_names(ps, x, b),
                None => Set::empty(),
            };
            from_opt + sub_names(ps, expr, b)
        },
        StdFunc::EFuncMin { first, rest } | StdFunc::EFuncMax { first, rest } => {
            sub_names(ps, first, b) + list_names(ps, rest@, b)
        },
        StdFunc::EFuncIf { cond, then, els } => {
            sub_names(ps, cond, b) + sub_names(ps, then, b) + sub_names(ps, els, b)
        },
        StdFunc::EFuncInt(x) | StdFunc::EFuncCeil(x) | StdFunc::EFuncFloor(x)
        | StdFunc::EFuncAbs(x) | StdFunc::EFuncSign(x) | StdFunc::EFuncSin(x)
        | StdFunc::EFuncCos(x) | StdFunc::EFuncTan(x) | StdFunc::EFuncASin(x)
        | StdFunc::EFuncACos(x) | StdFunc::EFuncATan(x) | StdFunc::EFuncSinH(x)
        | StdFunc::EFuncCosH(x) | StdFunc::EFuncTanH(x) | StdFunc::EFuncASinH(x)
        | StdFunc::EFuncACosH(x) | StdFunc::EFuncATanH(x) => sub_names(ps, x, b),
    }
}

/// The names used by the expression arguments of a `print()` call.
pub open spec fn print_names(ps: ParseSlab, items: Seq<ExpressionOrString>, b: int) -> Set<
    Seq<char>,
>
    decreases b, 0int, 0int, items.len() + 1,
{
    if items.len() == 0 {
        Set::empty()
    } else {
        let last = match items.last() {
            ExpressionOrString::EExpr(x) => sub_names(ps, x, b),
            ExpressionOrString::EStr(_) => Set::empty(),
        };
        print_names(ps, items.drop_last(), b) + last
    }
}

/// The names used by the stored instruction `i`.
pub open spec fn instr_names(ps: ParseSlab, cs: CompileSlab, i: int) -> Set<Seq<char>>
    decreases i, 2int, 0int,
{
    if 0 <= i < cs.instrs@.len() {
        inline_names(ps, cs, cs.instrs@[i], i)
    } else {
        Set::empty()
    }
}

/// The names used by the stored instruction `i`, when it is below `b`.
pub open spec fn ref_names(ps: ParseSlab, cs: CompileSlab, i: InstructionI, b: int) -> Set<
    Seq<char>,
>
    decreases b, 0int, 0int,
{
    if i.0 < b {
        instr_names(ps, cs, i.0 as int)
    } else {
        Set::empty()
    }
}

/// The names used by an instruction operand: none for a constant.
pub open spec fn ic_names(ps: ParseSlab, cs: CompileSlab, ic: IC, b: int) -> Set<Seq<char>>
    decreases b, 0int, 1int,
{
    match ic {
        IC::I(i) => ref_names(ps, cs, i, b),
        IC::C(_) => Set::empty(),
    }
}

/// The names used by a list of instruction operands.
pub open spec fn ic_list_names(ps: ParseSlab, cs: CompileSlab, xs: Seq<IC>, b: int) -> Set<
    Seq<char>,
>
    decreases b, 0int, xs.len() + 1,
{
    if xs.len() == 0 {
        Set::empty()
    } else {
        ic_list_names(ps, cs, xs.drop_last(), b) + ic_names(ps, cs, xs.last(), b)
    }
}

/// The names used by instruction `ins`, whose references to stored
/// instructions are below `b`.
pub open spec fn inline_names(ps: ParseSlab, cs: CompileSlab, ins: Instruction, b: int) -> Set<
    Seq<char>,
>
    decreases b, 1int, 0int,
{
    match ins {
        Instruction::IConst(_) => Set::empty(),
        Instruction::IVar(s) | Instruction::ITargetVar(s) => set![s@],
        Instruction::IFunc { name, args } => set![name@] + ic_list_names(ps, cs, args@, b),
        Instruction::INeg(i) | Instruction::INot(i) | Instruction::IInv(i)
        | Instruction::IFuncInt(i) | Instruction::IFuncCeil(i) | Instruction::IFuncFloor(i)
        | Instruction::IFuncAbs(i) | Instruction::IFuncSign(i) | Instruction::IFuncSin(i)
        | Instruction::IFuncCos(i) | Instruction::IFuncTan(i) | Instruction::IFuncASin(i)
        | Instruction::IFuncACos(i) | Instruction::IFuncATan(i) | Instruction::IFuncSinH(i)
        | Instruction::IFuncCosH(i) | Instruction::IFuncTanH(i) | Instruction::IFuncASinH(i)
        | Instruction::IFuncACosH(i) | Instruction::IFuncATanH(i) => ref_names(ps, cs, i, b),
        Instruction::ILT(l, r) | Instruction::ILTE(l, r) | Instruction::IEQ(l, r)
        | Instruction::INE(l, r) | Instruction::IGTE(l, r) | Instruction::IGT(l, r)
        | Instruction::IMod { dividend: l, divisor: r } | Instruction::IExp { base: l, power: r }
        | Instruction::IFuncLog { base: l, of: r } | Instruction::IFuncRound { modulus: l, of: r } => {
            ic_names(ps, cs, l, b) + ic_names(ps, cs, r, b)
        },
        Instruction::IAdd(l, r) | Instruction::IMul(l, r) | Instruction::IOR(l, r)
        | Instruction::IAND(l, r) | Instruction::IFuncMin(l, r) | Instruction::IFuncMax(l, r) => {
            ref_names(ps, cs, l, b) + ic_names(ps, cs, r, b)
        },
        Instruction::IFuncIf { cond, then, els } => ic_names(ps, cs, cond, b) + ic_names(
            ps,
            cs,
            then,
            b,
        ) + ic_names(ps, cs, els, b),
        Instruction::IPrintFunc(pf) => print_names(ps, pf.0@, ps.exprs@.len() as int),
    }
}

/// The names held by a list of strings.
pub open spec fn name_set(v: Seq<String>) -> Set<Seq<char>> {
    Set::new(|n: Seq<char>| exists|j: int| 0 <= j < v.len() && (#[trigger] v[j])@ == n)
}

/// Lexicographic order of character sequences by code point, the order of
/// `String`s (UTF-8 preserves the order of code points).
pub open spec fn lex_lt(a: Seq<char>, b: Seq<char>) -> bool
    decreases a.len(),
{
    if a.len() == 0 {
        b.len() > 0
    } else if b.len() == 0 {
        false
    } else if a[0] != b[0] {
        (a[0] as int) < (b[0] as int)
    } else {
        lex_lt(a.skip(1), b.skip(1))
    }
}

/// The list is in strictly increasing order, so no name occurs twice.
///
/// Name lists are plain vectors kept in this order, which is the order and
/// the uniqueness a `BTreeSet<String>` would give: vstd specifies `BTreeSet`
/// only for keys shown to obey its model of `Ord`, and `String` is not
/// among them, so a set of strings would come with no contract to prove from.
pub open spec fn sorted_names(v: Seq<String>) -> bool {
    forall|a: int, c: int| 0 <= a < c < v.len() ==> lex_lt((#[trigger] v[a])@, (#[trigger] v[c])@)
}

/// No sequence is below itself.
pub proof fn lemma_lex_irreflexive(a: Seq<char>)
    ensures
        !lex_lt(a, a),
    decreases a.len(),
{
    if a.len() > 0 {
        lemma_lex_irreflexive(a.skip(1));
    }
}

/// The order is transitive.
pub proof fn lemma_lex_transitive(a: Seq<char>, b: Seq<char>, c: Seq<char>)
    requires
        lex_lt(a, b),
        lex_lt(b, c),
    ensures
        lex_lt(a, c),
    decreases a.len(),
{
    if a.len() > 0 && b.len() > 0 && c.len() > 0 && a[0] == b[0] && b[0] == c[0] {
        lemma_lex_transitive(a.skip(1), b.skip(1), c.skip(1));
    }
}

/// Of two different sequences one is below the other, and not both.
pub proof fn lemma_lex_total(a: Seq<char>, b: Seq<char>)
    requires
        a != b,
    ensures
        lex_lt(a, b) || lex_lt(b, a),
        !(lex_lt(a, b) && lex_lt(b, a)),
    decreases a.len(),
{
    if a.len() == 0 {
        if b.len() == 0 {
            assert(a =~= b);
        }
    } else if b.len() == 0 {
    } else if a[0] == b[0] {
        if a.skip(1) == b.skip(1) {
            assert(a =~= seq![a[0]] + a.skip(1));
            assert(b =~= seq![b[0]] + b.skip(1));
        }
        lemma_lex_total(a.skip(1), b.skip(1));
    }
}

/// Two increasing name lists that hold the same names hold them in the
/// same order.
pub proof fn lemma_sorted_names_unique(a: Seq<String>, b: Seq<String>)
    requires
        sorted_names(a),
        sorted_names(b),
        name_set(a) == name_set(b),
    ensures
        a.len() == b.len(),
        forall|j: int| 0 <= j < a.len() ==> (#[trigger] a[j])@ == b[j]@,
    decreases a.len(),
{
    if a.len() == 0 {
        if b.len() > 0 {
            assert(name_set(b).contains(b[0]@));
            assert(name_set(a).contains(b[0]@));
        }
    } else {
        assert(name_set(a).contains(a[0]@));
        assert(name_set(b).contains(a[0]@));
        let jb = choose|j: int| 0 <= j < b.len() && (#[trigger] b[j])@ == a[0]@;
        assert(name_set(b).contains(b[0]@));
        assert(name_set(a).contains(b[0]@));
        let ia = choose|j: int| 0 <= j < a.len() && (#[trigger] a[j])@ == b[0]@;
        if a[0]@ != b[0]@ {
            assert(lex_lt(b[0]@, b[jb]@));
            assert(lex_lt(a[0]@, a[ia]@));
            lemma_lex_total(a[0]@, b[0]@);
        }
        let a1 = a.skip(1);
        let b1 = b.skip(1);
        assert forall|n: Seq<char>| name_set(a1).contains(n) implies name_set(b1).contains(n) by {
            let j = choose|j: int| 0 <= j < a1.len() && (#[trigger] a1[j])@ == n;
            assert(a1[j] == a[j + 1]);
            assert(lex_lt(a[0]@, a[j + 1]@));
            lemma_lex_irreflexive(a[0]@);
            assert(name_set(a).contains(n));
            let k = choose|k: int| 0 <= k < b.len() && (#[trigger] b[k])@ == n;
            assert(k != 0);
            assert(b1[k - 1] == b[k]);
        }
        assert forall|n: Seq<char>| name_set(b1).contains(n) implies name_set(a1).contains(n) by {
            let j = choose|j: int| 0 <= j < b1.len() && (#[trigger] b1[j])@ == n;
            assert(b1[j] == b[j + 1]);
            assert(lex_lt(b[0]@, b[j + 1]@));
            lemma_lex_irreflexive(b[0]@);
            assert(name_set(b).contains(n));
            let k = choose|k: int| 0 <= k < a.len() && (#[trigger] a[k])@ == n;
            assert(k != 0);
            assert(a1[k - 1] == a[k]);
        }
        assert(name_set(a1) =~= name_set(b1));
        assert forall|x: int, y: int| 0 <= x < y < a1.len() implies lex_lt(
            (#[trigger] a1[x])@,
            (#[trigger] a1[y])@,
        ) by {
            assert(a1[x] == a[x + 1] && a1[y] == a[y + 1]);
        }
        assert forall|x: int, y: int| 0 <= x < y < b1.len() implies lex_lt(
            (#[trigger] b1[x])@,
            (#[trigger] b1[y])@,
        ) by {
            assert(b1[x] == b[x + 1] && b1[y] == b[y + 1]);
        }
        lemma_sorted_names_unique(a1, b1);
        assert forall|j: int| 0 <= j < a.len() implies (#[trigger] a[j])@ == b[j]@ by {
            if j > 0 {
                assert(a1[j - 1] == a[j] && b1[j - 1] == b[j]);
            }
        }
    }
}

/// `after` is `before` with the names of `s` added: in increasing order,
/// each name once, holding the names of both.
pub open spec fn names_added(before: Seq<String>, after: Seq<String>, s: Set<Seq<char>>) -> bool {
    &&& sorted_names(after)
    &&& name_set(after) == name_set(before) + s
}

/// The two lists hold the same strings in the same places.
pub open spec fn same_names(a: Seq<String>, b: Seq<String>) -> bool {
    &&& a.len() == b.len()
    &&& forall|j: int| 0 <= j < a.len() ==> (#[trigger] a[j])@ == b[j]@
}

/// Adding names that an increasing list already holds leaves the list as it was.
pub proof fn lemma_add_known_names(d0: Seq<String>, d1: Seq<String>, s: Set<Seq<char>>)
    requires
        sorted_names(d0),
        names_added(d0, d1, s),
    ensures
        s.subset_of(name_set(d0)) ==> same_names(d1, d0),
{
    if s.subset_of(name_set(d0)) {
        assert(name_set(d1) =~= name_set(d0));
        lemma_sorted_names_unique(d1, d0);
    }
}

/// Adding the names a node uses a second time changes nothing: the first
/// pass only adds (every name `d0` held, `d1` holds), and the second leaves
/// the list, name for name, as the first pass left it.
pub proof fn lemma_add_names_twice(
    d0: Seq<String>,
    d1: Seq<String>,
    d2: Seq<String>,
    s: Set<Seq<char>>,
)
    requires
        sorted_names(d0),
        names_added(d0, d1, s),
        names_added(d1, d2, s),
    ensures
        name_set(d0).subset_of(name_set(d1)),
        same_names(d2, d1),
{
    lemma_add_known_names(d1, d2, s);
}

/// Whether `a` comes before `b`, as `lex_lt` states.
fn str_lt(a: &String, b: &String) -> (res: bool)
    ensures
        res == lex_lt(a@, b@),
{
    let sa = a.as_str();
    let sb = b.as_str();
    let na = sa.unicode_len();
    let nb = sb.unicode_len();
    let mut i: usize = 0;
    assert(a@.skip(0) =~= a@);
    assert(b@.skip(0) =~= b@);
    loop
        invariant
            na == a@.len(),
            nb == b@.len(),
            sa@ == a@,
            sb@ == b@,
            i <= na,
            i <= nb,
            lex_lt(a@, b@) == lex_lt(a@.skip(i as int), b@.skip(i as int)),
        decreases na - i,
    {
        if i == na {
            return i < nb;
        }
        if i == nb {
            return false;
        }
        let ca = sa.get_char(i);
        let cb = sb.get_char(i);
        assert(a@.skip(i as int)[0] == ca);
        assert(b@.skip(i as int)[0] == cb);
        if ca != cb {
            return (ca as u32) < (cb as u32);
        }
        assert(a@.skip(i as int).skip(1) =~= a@.skip(i + 1));
        assert(b@.skip(i as int).skip(1) =~= b@.skip(i + 1));
        i = i + 1;
    }
}

/// Adds `name` to `dst` in its place unless `dst` already holds it.
fn insert_name(dst: &mut Vec<String>, name: &String)
    requires
        sorted_names(old(dst)@),
    ensures
        sorted_names(final(dst)@),
        name_set(final(dst)@) == name_set(old(dst)@).insert(name@),
{
    let mut p: usize = 0;
    while p < dst.len()
        invariant
            p <= dst@.len(),
            dst@ == old(dst)@,
            sorted_names(dst@),
            forall|a: int| 0 <= a < p ==> lex_lt((#[trigger] dst@[a])@, name@),
        ensures
            p <= dst@.len(),
            dst@ == old(dst)@,
            sorted_names(dst@),
            forall|a: int| 0 <= a < p ==> lex_lt((#[trigger] dst@[a])@, name@),
            p < dst@.len() ==> !lex_lt(dst@[p as int]@, name@),
        decreases dst@.len() - p,
    {
        if !str_lt(&dst[p], name) {
            break;
        }
        p = p + 1;
    }
    if p < dst.len() && dst[p] == *name {
        assert(name_set(dst@) =~= name_set(dst@).insert(name@)) by {
            assert(dst@[p as int]@ == name@);
        }
        return;
    }
    let ghost prev = dst@;
    if p < dst.len() {
        proof {
            lemma_lex_total(prev[p as int]@, name@);
        }
    }
    dst.insert(p, name.clone());
    assert(dst@ == prev.insert(p as int, *name));
    assert forall|a: int, c: int| 0 <= a < c < dst@.len() implies lex_lt(
        (#[trigger] dst@[a])@,
        (#[trigger] dst@[c])@,
    ) by {
        if c < p {
            assert(dst@[a] == prev[a] && dst@[c] == prev[c]);
        } else if c == p {
            assert(dst@[a] == prev[a]);
        } else if a < p {
            assert(dst@[a] == prev[a] && dst@[c] == prev[c - 1]);
            assert(lex_lt(prev[a]@, prev[c - 1]@));
        } else if a == p {
            assert(dst@[c] == prev[c - 1]);
            assert(lex_lt(name@, prev[p as int]@));
            if c - 1 > p {
                assert(lex_lt(prev[p as int]@, prev[c - 1]@));
                lemma_lex_transitive(name@, prev[p as int]@, prev[c - 1]@);
            }
        } else {
            assert(dst@[a] == prev[a - 1] && dst@[c] == prev[c - 1]);
            assert(lex_lt(prev[a - 1]@, prev[c - 1]@));
        }
    }
    assert(name_set(dst@) =~= name_set(prev).insert(name@)) by {
        assert(dst@[p as int]@ == name@);
        assert forall|n: Seq<char>| name_set(prev).contains(n) implies name_set(dst@).contains(n) by {
            let j = choose|j: int| 0 <= j < prev.len() && (#[trigger] prev[j])@ == n;
            if j < p {
                assert(dst@[j] == prev[j]);
            } else {
                assert(dst@[j + 1] == prev[j]);
            }
        }
        assert forall|n: Seq<char>| name_set(dst@).contains(n) implies name_set(prev).insert(
            name@,
        ).contains(n) by {
            let j = choose|j: int| 0 <= j < dst@.len() && (#[trigger] dst@[j])@ == n;
            if j < p {
                assert(dst@[j] == prev[j]);
            } else if j > p {
                assert(dst@[j] == prev[j - 1]);
            }
        }
    }
}

/// Adds the names used by the stored expression `x` to `dst`.
fn collect_sub(slab: &Slab, dst: &mut Vec<String>, x: ExpressionI, Ghost(b): Ghost<int>)
    requires
        slab.wf(),
        0 <= b <= slab.ps.exprs@.len(),
        ref_ok(x.0, b, slab.ps.exprs@.len() as int),
        sorted_names(old(dst)@),
    ensures
        sorted_names(final(dst)@),
        name_set(final(dst)@) == name_set(old(dst)@) + sub_names(slab.ps, x, b),
    decreases b, 0int, 0int, 0int,
{
    if x.0 < slab.ps.exprs.len() {
        let e = &slab.ps.exprs[x.0];
        assert(expr_ok(slab.ps, slab.ps.exprs@[x.0 as int], x.0 as int));
        e.collect_names(slab, dst, Ghost(x.0 as int));
    } else {
        assert(name_set(dst@) =~= name_set(dst@) + sub_names(slab.ps, x, b));
    }
}

impl Expression {
    /// Adds the names used by this expression to `dst`; references to stored
    /// expressions are below `b`.
    fn collect_names(&self, slab: &Slab, dst: &mut Vec<String>, Ghost(b): Ghost<int>)
        requires
            slab.wf(),
            0 <= b <= slab.ps.exprs@.len(),
            expr_ok(slab.ps, *self, b),
            sorted_names(old(dst)@),
        ensures
            sorted_names(final(dst)@),
            name_set(final(dst)@) == name_set(old(dst)@) + ex_names(slab.ps, *self, b),
        decreases b, slab.ps.vals@.len() + 1, 1int, 0int,
    {
        let ghost start = name_set(dst@);
        let ghost nv = slab.ps.vals@.len();
        self.first.collect_names(slab, dst, Ghost(b), Ghost(nv));
        let mut k: usize = 0;
        while k < self.pairs.len()
            invariant
                slab.wf(),
                0 <= b <= slab.ps.exprs@.len(),
                expr_ok(slab.ps, *self, b),
                nv == slab.ps.vals@.len(),
                k <= self.pairs@.len(),
                sorted_names(dst@),
                name_set(dst@) == start + value_names(slab.ps, self.first, b, nv) + pairs_names(
                    slab.ps,
                    self.pairs@.take(k as int),
                    b,
                ),
            decreases self.pairs@.len() - k,
        {
            assert(value_ok(slab.ps, self.pairs@[k as int].1, b, nv as int));
            self.pairs[k].1.collect_names(slab, dst, Ghost(b), Ghost(nv));
            assert(self.pairs@.take(k + 1).drop_last() =~= self.pairs@.take(k as int));
            k = k + 1;
        }
        assert(self.pairs@.take(k as int) =~= self.pairs@);
    }

    /// Adds the names of the variables and custom functions this expression uses to
    /// `dst`, keeping `dst` in increasing order with each name once.
    /// Where `dst` already holds every such name, it is left as it was, so a
    /// second call changes nothing (`lemma_add_names_twice`).
    pub fn _var_names(&self, slab: &Slab, dst: &mut Vec<String>)
        requires
            slab.wf(),
            expr_ok(slab.ps, *self, slab.ps.exprs@.len() as int),
            sorted_names(old(dst)@),
        ensures
            names_added(old(dst)@, final(dst)@, ex_names(slab.ps, *self, slab.ps.exprs@.len() as int)),
            (ex_names(slab.ps, *self, slab.ps.exprs@.len() as int)).subset_of(name_set(old(dst)@)) ==> same_names(final(dst)@, old(dst)@),
    {
        let ghost d0 = dst@;
        self.collect_names(slab, dst, Ghost(slab.ps.exprs@.len() as int));
        proof {
            lemma_add_known_names(d0, dst@, ex_names(slab.ps, *self, slab.ps.exprs@.len() as int));
        }
    }

    /// The names of the variables and custom functions this expression uses, in
    /// increasing order, each once.
    pub fn var_names(&self, slab: &Slab) -> (res: Vec<String>)
        requires
            slab.wf(),
            expr_ok(slab.ps, *self, slab.ps.exprs@.len() as int),
        ensures
            sorted_names(res@),
            name_set(res@) == ex_names(slab.ps, *self, slab.ps.exprs@.len() as int),
    {
        let mut dst: Vec<String> = Vec::new();
        assert(name_set(dst@) =~= Set::empty());
        self._var_names(slab, &mut dst);
        dst
    }
}

impl Value {
    /// Adds the names used by this value to `dst`.
    fn collect_names(&self, slab: &Slab, dst: &mut Vec<String>, Ghost(b): Ghost<int>, Ghost(vb): Ghost<nat>)
        requires
            slab.wf(),
            0 <= b <= slab.ps.exprs@.len(),
            vb <= slab.ps.vals@.len(),
            value_ok(slab.ps, *self, b, vb as int),
            sorted_names(old(dst)@),
        ensures
            sorted_names(final(dst)@),
            name_set(final(dst)@) == name_set(old(dst)@) + value_names(slab.ps, *self, b, vb),
        decreases b, vb, 2int, 0int,
    {
        match self {
            Value::EConstant(_) => {
                assert(name_set(dst@) =~= name_set(dst@) + Set::empty());
            },
            Value::EUnaryOp(u) => u.collect_names(slab, dst, Ghost(b), Ghost(vb)),
            Value::EStdFunc(f) => f.collect_names(slab, dst, Ghost(b)),
            Value::EPrintFunc(pf) => pf.collect_names(slab, dst, Ghost(b)),
        }
    }

    /// Adds the names of the variables and custom functions this value uses to
    /// `dst`, keeping `dst` in increasing order with each name once.
    /// Where `dst` already holds every such name, it is left as it was, so a
    /// second call changes nothing (`lemma_add_names_twice`).
    pub fn _var_names(&self, slab: &Slab, dst: &mut Vec<String>)
        requires
            slab.wf(),
            value_ok(slab.ps, *self, slab.ps.exprs@.len() as int, slab.ps.vals@.len() as int),
            sorted_names(old(dst)@),
        ensures
            names_added(old(dst)@, final(dst)@, value_names(slab.ps, *self, slab.ps.exprs@.len() as int, slab.ps.vals@.len())),
            (value_names(slab.ps, *self, slab.ps.exprs@.len() as int, slab.ps.vals@.len())).subset_of(name_set(old(dst)@)) ==> same_names(final(dst)@, old(dst)@),
    {
        let ghost d0 = dst@;
        self.collect_names(slab, dst, Ghost(slab.ps.exprs@.len() as int), Ghost(slab.ps.vals@.len()));
        proof {
            lemma_add_known_names(d0, dst@, value_names(slab.ps, *self, slab.ps.exprs@.len() as int, slab.ps.vals@.len()));
        }
    }

    /// The names of the variables and custom functions this value uses, in
    /// increasing order, each once.
    pub fn var_names(&self, slab: &Slab) -> (res: Vec<String>)
        requires
            slab.wf(),
            value_ok(slab.ps, *self, slab.ps.exprs@.len() as int, slab.ps.vals@.len() as int),
        ensures
            sorted_names(res@),
            name_set(res@) == value_names(slab.ps, *self, slab.ps.exprs@.len() as int, slab.ps.vals@.len()),
    {
        let mut dst: Vec<String> = Vec::new();
        assert(name_set(dst@) =~= Set::empty());
        self._var_names(slab, &mut dst);
        dst
    }
}

impl UnaryOp {
    /// Adds the names used by this operator's operand to `dst`.
    fn collect_names(&self, slab: &Slab, dst: &mut Vec<String>, Ghost(b): Ghost<int>, Ghost(vb): Ghost<nat>)
        requires
            slab.wf(),
            0 <= b <= slab.ps.exprs@.len(),
            vb <= slab.ps.vals@.len(),
            value_ok(slab.ps, Value::EUnaryOp(*self), b, vb as int),
            sorted_names(old(dst)@),
        ensures
            sorted_names(final(dst)@),
            name_set(final(dst)@) == name_set(old(dst)@) + unary_names(slab.ps, *self, b, vb),
        decreases b, vb, 1int, 0int,
    {
        match self {
            UnaryOp::EPos(vi) | UnaryOp::ENeg(vi) | UnaryOp::ENot(vi) => {
                if vi.0 < slab.ps.vals.len() {
                    slab.ps.vals[vi.0].collect_names(slab, dst, Ghost(b), Ghost(vi.0 as nat));
                } else {
                    assert(name_set(dst@) =~= name_set(dst@) + unary_names(slab.ps, *self, b, vb));
                }
            },
            UnaryOp::EParentheses(x) => collect_sub(slab, dst, *x, Ghost(b)),
        }
    }

    /// Adds the names of the variables and custom functions this operator's operand uses to
    /// `dst`, keeping `dst` in increasing order with each name once.
    /// Where `dst` already holds every such name, it is left as it was, so a
    /// second call changes nothing (`lemma_add_names_twice`).
    pub fn _var_names(&self, slab: &Slab, dst: &mut Vec<String>)
        requires
            slab.wf(),
            value_ok(slab.ps, Value::EUnaryOp(*self), slab.ps.exprs@.len() as int, slab.ps.vals@.len() as int),
            sorted_names(old(dst)@),
        ensures
            names_added(old(dst)@, final(dst)@, unary_names(slab.ps, *self, slab.ps.exprs@.len() as int, slab.ps.vals@.len())),
            (unary_names(slab.ps, *self, slab.ps.exprs@.len() as int, slab.ps.vals@.len())).subset_of(name_set(old(dst)@)) ==> same_names(final(dst)@, old(dst)@),
    {
        let ghost d0 = dst@;
        self.collect_names(slab, dst, Ghost(slab.ps.exprs@.len() as int), Ghost(slab.ps.vals@.len()));
        proof {
            lemma_add_known_names(d0, dst@, unary_names(slab.ps, *self, slab.ps.exprs@.len() as int, slab.ps.vals@.len()));
        }
    }

    /// The names of the variables and custom functions this operator's operand uses, in
    /// increasing order, each once.
    pub fn var_names(&self, slab: &Slab) -> (res: Vec<String>)
        requires
            slab.wf(),
            value_ok(slab.ps, Value::EUnaryOp(*self), slab.ps.exprs@.len() as int, slab.ps.vals@.len() as int),
        ensures
            sorted_names(res@),
            name_set(res@) == unary_names(slab.ps, *self, slab.ps.exprs@.len() as int, slab.ps.vals@.len()),
    {
        let mut dst: Vec<String> = Vec::new();
        assert(name_set(dst@) =~= Set::empty());
        self._var_names(slab, &mut dst);
        dst
    }
}

/// Adds the names used by the stored expressions `xs` to `dst`.
fn collect_list(slab: &Slab, dst: &mut Vec<String>, xs: &Vec<ExpressionI>, Ghost(b): Ghost<int>)
    requires
        slab.wf(),
        0 <= b <= slab.ps.exprs@.len(),
        exprs_ok(xs@, b, slab.ps.exprs@.len() as int),
        sorted_names(old(dst)@),
    ensures
        sorted_names(final(dst)@),
        name_set(final(dst)@) == name_set(old(dst)@) + list_names(slab.ps, xs@, b),
    decreases b, 0int, 0int, xs@.len() + 1,
{
    let ghost start = name_set(dst@);
    let mut k: usize = 0;
    while k < xs.len()
        invariant
            slab.wf(),
            0 <= b <= slab.ps.exprs@.len(),
            exprs_ok(xs@, b, slab.ps.exprs@.len() as int),
            k <= xs@.len(),
            sorted_names(dst@),
            name_set(dst@) == start + list_names(slab.ps, xs@.take(k as int), b),
        decreases xs@.len() - k,
    {
        collect_sub(slab, dst, xs[k], Ghost(b));
        assert(xs@.take(k + 1).drop_last() =~= xs@.take(k as int));
        k = k + 1;
    }
    assert(xs@.take(k as int) =~= xs@);
}

impl StdFunc {
    /// Adds the name of this call, if it names a variable or a custom
    /// function, and the names its arguments use, to `dst`.
    fn collect_names(&self, slab: &Slab, dst: &mut Vec<String>, Ghost(b): Ghost<int>)
        requires
            slab.wf(),
            0 <= b <= slab.ps.exprs@.len(),
            stdfunc_ok(*self, b, slab.ps.exprs@.len() as int),
            sorted_names(old(dst)@),
        ensures
            sorted_names(final(dst)@),
            name_set(final(dst)@) == name_set(old(dst)@) + stdfunc_names(slab.ps, *self, b),
        decreases b, 0int, 1int, 0int,
    {
        match self {
            StdFunc::EVar(s) | StdFunc::ETargetVar(s) => {
                insert_name(dst, s);
            },
            StdFunc::EFunc { name, args } => {
                insert_name(dst, name);
                collect_list(slab, dst, args, Ghost(b));
            },
            StdFunc::EFuncE | StdFunc::EFuncPi => {
                assert(name_set(dst@) =~= name_set(dst@) + Set::empty());
            },
            StdFunc::EFuncLog { base: opt, expr } | StdFunc::EFuncRound { modulus: opt, expr } => {
                match opt {
                    Some(x) => collect_sub(slab, dst, *x, Ghost(b)),
                    None => {},
                }
                collect_sub(slab, dst, *expr, Ghost(b));
            },
            StdFunc::EFuncMin { first, rest } | StdFunc::EFuncMax { first, rest } => {
                collect_sub(slab, dst, *first, Ghost(b));
                collect_list(slab, dst, rest, Ghost(b));
            },
            StdFunc::EFuncIf { cond, then, els } => {
                collect_sub(slab, dst, *cond, Ghost(b));
                collect_sub(slab, dst, *then, Ghost(b));
                collect_sub(slab, dst, *els, Ghost(b));
            },
            StdFunc::EFuncInt(x) | StdFunc::EFuncCeil(x) | StdFunc::EFuncFloor(x)
            | StdFunc::EFuncAbs(x) | StdFunc::EFuncSign(x) | StdFunc::EFuncSin(x)
            | StdFunc::EFuncCos(x) | StdFunc::EFuncTan(x) | StdFunc::EFuncASin(x)
            | StdFunc::EFuncACos(x) | StdFunc::EFuncATan(x) | StdFunc::EFuncSinH(x)
            | StdFunc::EFuncCosH(x) | StdFunc::EFuncTanH(x) | StdFunc::EFuncASinH(x)
            | StdFunc::EFuncACosH(x) | StdFunc::EFuncATanH(x) => {
                collect_sub(slab, dst, *x, Ghost(b));
            },
        }
    }

    /// Adds the names of the variables and custom functions this call uses to
    /// `dst`, keeping `dst` in increasing order with each name once.
    /// Where `dst` already holds every such name, it is left as it was, so a
    /// second call changes nothing (`lemma_add_names_twice`).
    pub fn _var_names(&self, slab: &Slab, dst: &mut Vec<String>)
        requires
            slab.wf(),
            sorted_names(old(dst)@),
        ensures
            names_added(old(dst)@, final(dst)@, stdfunc_names(slab.ps, *self, slab.ps.exprs@.len() as int)),
            (stdfunc_names(slab.ps, *self, slab.ps.exprs@.len() as int)).subset_of(name_set(old(dst)@)) ==> same_names(final(dst)@, old(dst)@),
    {
        let ghost d0 = dst@;
        assert(stdfunc_ok(*self, slab.ps.exprs@.len() as int, slab.ps.exprs@.len() as int));
        self.collect_names(slab, dst, Ghost(slab.ps.exprs@.len() as int));
        proof {
            lemma_add_known_names(d0, dst@, stdfunc_names(slab.ps, *self, slab.ps.exprs@.len() as int));
        }
    }

    /// The names of the variables and custom functions this call uses, in
    /// increasing order, each once.
    pub fn var_names(&self, slab: &Slab) -> (res: Vec<String>)
        requires
            slab.wf(),
        ensures
            sorted_names(res@),
            name_set(res@) == stdfunc_names(slab.ps, *self, slab.ps.exprs@.len() as int),
    {
        let mut dst: Vec<String> = Vec::new();
        assert(name_set(dst@) =~= Set::empty());
        self._var_names(slab, &mut dst);
        dst
    }
}

impl PrintFunc {
    /// Adds the names used by the expression arguments to `dst`.
    fn collect_names(&self, slab: &Slab, dst: &mut Vec<String>, Ghost(b): Ghost<int>)
        requires
            slab.wf(),
            0 <= b <= slab.ps.exprs@.len(),
            print_ok(*self, b, slab.ps.exprs@.len() as int),
            sorted_names(old(dst)@),
        ensures
            sorted_names(final(dst)@),
            name_set(final(dst)@) == name_set(old(dst)@) + print_names(slab.ps, self.0@, b),
        decreases b, 0int, 1int, 0int,
    {
        let ghost start = name_set(dst@);
        let mut k: usize = 0;
        while k < self.0.len()
            invariant
                slab.wf(),
                0 <= b <= slab.ps.exprs@.len(),
                print_ok(*self, b, slab.ps.exprs@.len() as int),
                k <= self.0@.len(),
                sorted_names(dst@),
                name_set(dst@) == start + print_names(slab.ps, self.0@.take(k as int), b),
            decreases self.0@.len() - k,
        {
            match &self.0[k] {
                ExpressionOrString::EExpr(x) => collect_sub(slab, dst, *x, Ghost(b)),
                ExpressionOrString::EStr(_) => {},
            }
            assert(self.0@.take(k + 1).drop_last() =~= self.0@.take(k as int));
            k = k + 1;
        }
        assert(self.0@.take(k as int) =~= self.0@);
    }

    /// Adds the names of the variables and custom functions the expression arguments use to
    /// `dst`, keeping `dst` in increasing order with each name once.
    /// Where `dst` already holds every such name, it is left as it was, so a
    /// second call changes nothing (`lemma_add_names_twice`).
    pub fn _var_names(&self, slab: &Slab, dst: &mut Vec<String>)
        requires
            slab.wf(),
            sorted_names(old(dst)@),
        ensures
            names_added(old(dst)@, final(dst)@, print_names(slab.ps, self.0@, slab.ps.exprs@.len() as int)),
            (print_names(slab.ps, self.0@, slab.ps.exprs@.len() as int)).subset_of(name_set(old(dst)@)) ==> same_names(final(dst)@, old(dst)@),
    {
        let ghost d0 = dst@;
        assert(print_ok(*self, slab.ps.exprs@.len() as int, slab.ps.exprs@.len() as int));
        self.collect_names(slab, dst, Ghost(slab.ps.exprs@.len() as int));
        proof {
            lemma_add_known_names(d0, dst@, print_names(slab.ps, self.0@, slab.ps.exprs@.len() as int));
        }
    }

    /// The names of the variables and custom functions the expression arguments use, in
    /// increasing order, each once.
    pub fn var_names(&self, slab: &Slab) -> (res: Vec<String>)
        requires
            slab.wf(),
        ensures
            sorted_names(res@),
            name_set(res@) == print_names(slab.ps, self.0@, slab.ps.exprs@.len() as int),
    {
        let mut dst: Vec<String> = Vec::new();
        assert(name_set(dst@) =~= Set::empty());
        self._var_names(slab, &mut dst);
        dst
    }
}

/// Adds the names used by the stored instruction `i` to `dst`.
fn collect_ref(slab: &Slab, dst: &mut Vec<String>, i: InstructionI, Ghost(b): Ghost<int>)
    requires
        slab.wf(),
        0 <= b <= slab.cs.instrs@.len(),
        ref_ok(i.0, b, slab.cs.instrs@.len() as int),
        sorted_names(old(dst)@),
    ensures
        sorted_names(final(dst)@),
        name_set(final(dst)@) == name_set(old(dst)@) + ref_names(slab.ps, slab.cs, i, b),
    decreases b, 0int, 0int,
{
    if i.0 < slab.cs.instrs.len() {
        assert(instr_ok(*slab, slab.cs.instrs@[i.0 as int], i.0 as int));
        slab.cs.instrs[i.0].collect_names(slab, dst, Ghost(i.0 as int));
    } else {
        assert(name_set(dst@) =~= name_set(dst@) + ref_names(slab.ps, slab.cs, i, b));
    }
}

/// Adds the names used by an instruction operand to `dst`.
fn collect_ic(slab: &Slab, dst: &mut Vec<String>, ic: IC, Ghost(b): Ghost<int>)
    requires
        slab.wf(),
        0 <= b <= slab.cs.instrs@.len(),
        ic_ok(ic, b, slab.cs.instrs@.len() as int),
        sorted_names(old(dst)@),
    ensures
        sorted_names(final(dst)@),
        name_set(final(dst)@) == name_set(old(dst)@) + ic_names(slab.ps, slab.cs, ic, b),
    decreases b, 0int, 1int,
{
    match ic {
        IC::I(i) => collect_ref(slab, dst, i, Ghost(b)),
        IC::C(_) => {
            assert(name_set(dst@) =~= name_set(dst@) + Set::empty());
        },
    }
}

impl Instruction {
    /// Adds the names used by this instruction to `dst`; references to
    /// stored instructions are below `b`.
    fn collect_names(&self, slab: &Slab, dst: &mut Vec<String>, Ghost(b): Ghost<int>)
        requires
            slab.wf(),
            0 <= b <= slab.cs.instrs@.len(),
            instr_ok(*slab, *self, b),
            sorted_names(old(dst)@),
        ensures
            sorted_names(final(dst)@),
            name_set(final(dst)@) == name_set(old(dst)@) + inline_names(slab.ps, slab.cs, *self, b),
        decreases b, 1int, 0int,
    {
        match self {
            Instruction::IConst(_) => {
                assert(name_set(dst@) =~= name_set(dst@) + Set::empty());
            },
            Instruction::IVar(s) | Instruction::ITargetVar(s) => {
                insert_name(dst, s);
            },
            Instruction::IFunc { name, args } => {
                insert_name(dst, name);
                let ghost start = name_set(dst@);
                let mut k: usize = 0;
                while k < args.len()
                    invariant
                        slab.wf(),
                        0 <= b <= slab.cs.instrs@.len(),
                        forall|j: int|
                            0 <= j < args@.len() ==> ic_ok(
                                #[trigger] args@[j],
                                b,
                                slab.cs.instrs@.len() as int,
                            ),
                        k <= args@.len(),
                        sorted_names(dst@),
                        name_set(dst@) == start + ic_list_names(
                            slab.ps,
                            slab.cs,
                            args@.take(k as int),
                            b,
                        ),
                    decreases args@.len() - k,
                {
                    assert(ic_ok(args@[k as int], b, slab.cs.instrs@.len() as int));
                    collect_ic(slab, dst, args[k], Ghost(b));
                    assert(args@.take(k + 1).drop_last() =~= args@.take(k as int));
                    k = k + 1;
                }
                assert(args@.take(k as int) =~= args@);
            },
            Instruction::INeg(i) | Instruction::INot(i) | Instruction::IInv(i)
            | Instruction::IFuncInt(i) | Instruction::IFuncCeil(i) | Instruction::IFuncFloor(i)
            | Instruction::IFuncAbs(i) | Instruction::IFuncSign(i) | Instruction::IFuncSin(i)
            | Instruction::IFuncCos(i) | Instruction::IFuncTan(i) | Instruction::IFuncASin(i)
            | Instruction::IFuncACos(i) | Instruction::IFuncATan(i) | Instruction::IFuncSinH(i)
            | Instruction::IFuncCosH(i) | Instruction::IFuncTanH(i) | Instruction::IFuncASinH(i)
            | Instruction::IFuncACosH(i) | Instruction::IFuncATanH(i) => {
                collect_ref(slab, dst, *i, Ghost(b));
            },
            Instruction::ILT(l, r) | Instruction::ILTE(l, r) | Instruction::IEQ(l, r)
            | Instruction::INE(l, r) | Instruction::IGTE(l, r) | Instruction::IGT(l, r)
            | Instruction::IMod { dividend: l, divisor: r }
            | Instruction::IExp { base: l, power: r } | Instruction::IFuncLog { base: l, of: r }
            | Instruction::IFuncRound { modulus: l, of: r } => {
                collect_ic(slab, dst, *l, Ghost(b));
                collect_ic(slab, dst, *r, Ghost(b));
            },
            Instruction::IAdd(l, r) | Instruction::IMul(l, r) | Instruction::IOR(l, r)
            | Instruction::IAND(l, r) | Instruction::IFuncMin(l, r)
            | Instruction::IFuncMax(l, r) => {
                collect_ref(slab, dst, *l, Ghost(b));
                collect_ic(slab, dst, *r, Ghost(b));
            },
            Instruction::IFuncIf { cond, then, els } => {
                collect_ic(slab, dst, *cond, Ghost(b));
                collect_ic(slab, dst, *then, Ghost(b));
                collect_ic(slab, dst, *els, Ghost(b));
            },
            Instruction::IPrintFunc(pf) => {
                pf.collect_names(slab, dst, Ghost(slab.ps.exprs@.len() as int));
            },
        }
    }

    /// Adds the names of the variables and custom functions this instruction uses to
    /// `dst`, keeping `dst` in increasing order with each name once.
    /// Where `dst` already holds every such name, it is left as it was, so a
    /// second call changes nothing (`lemma_add_names_twice`).
    pub fn _var_names(&self, slab: &Slab, dst: &mut Vec<String>)
        requires
            slab.wf(),
            sorted_names(old(dst)@),
        ensures
            names_added(old(dst)@, final(dst)@, inline_names(slab.ps, slab.cs, *self, slab.cs.instrs@.len() as int)),
            (inline_names(slab.ps, slab.cs, *self, slab.cs.instrs@.len() as int)).subset_of(name_set(old(dst)@)) ==> same_names(final(dst)@, old(dst)@),
    {
        let ghost d0 = dst@;
        assert(instr_ok(*slab, *self, slab.cs.instrs@.len() as int));
        self.collect_names(slab, dst, Ghost(slab.cs.instrs@.len() as int));
        proof {
            lemma_add_known_names(d0, dst@, inline_names(slab.ps, slab.cs, *self, slab.cs.instrs@.len() as int));
        }
    }

    /// The names of the variables and custom functions this instruction uses, in
    /// increasing order, each once.
    pub fn var_names(&self, slab: &Slab) -> (res: Vec<String>)
        requires
            slab.wf(),
        ensures
            sorted_names(res@),
            name_set(res@) == inline_names(slab.ps, slab.cs, *self, slab.cs.instrs@.len() as int),
    {
        let mut dst: Vec<String> = Vec::new();
        assert(name_set(dst@) =~= Set::empty());
        self._var_names(slab, &mut dst);
        dst
    }
}

} // verus!
