use vstd::prelude::*;
use crate::runtime_opcode::RuntimeOpcode;
use crate::signature::{SignatureArgument, SignatureTreeNode, lemma_seq_cons_eq};

verus! {

/// A runtime opcode together with the argument kinds of its signature.
pub type Combination = (RuntimeOpcode, Vec<SignatureArgument>);

/// The mathematical value of a combination.
pub open spec fn combination_view(x: Combination) -> (RuntimeOpcode, Seq<SignatureArgument>) {
    (x.0, x.1@)
}

/// Lexicographic order on signatures, argument kinds compared by rank; a
/// proper prefix comes first.
pub open spec fn args_less(a: Seq<SignatureArgument>, b: Seq<SignatureArgument>) -> bool
    decreases a.len(),
{
    if a.len() == 0 {
        b.len() > 0
    } else if b.len() == 0 {
        false
    } else if a[0].rank() < b[0].rank() {
        true
    } else if a[0].rank() > b[0].rank() {
        false
    } else {
        args_less(a.drop_first(), b.drop_first())
    }
}

/// Order on combinations: by runtime opcode encoding, then by signature.
/// This is the order that `derive(Ord)` gives the pair type.
pub open spec fn combination_less(
    x: (RuntimeOpcode, Seq<SignatureArgument>),
    y: (RuntimeOpcode, Seq<SignatureArgument>),
) -> bool {
    x.0.spec_code() < y.0.spec_code() || (x.0 == y.0 && args_less(x.1, y.1))
}

/// Strictly increasing in the combination order.
pub open spec fn strictly_sorted(s: Seq<(RuntimeOpcode, Seq<SignatureArgument>)>) -> bool {
    forall|i: int, j: int| 0 <= i < j < s.len() ==> combination_less(#[trigger] s[i], #[trigger] s[j])
}

pub open spec fn views(s: Seq<Combination>) -> Seq<(RuntimeOpcode, Seq<SignatureArgument>)> {
    s.map_values(|x: Combination| combination_view(x))
}

pub proof fn lemma_args_less_irreflexive(a: Seq<SignatureArgument>)
    ensures
        !args_less(a, a),
    decreases a.len(),
{
    if a.len() > 0 {
        lemma_args_less_irreflexive(a.drop_first());
    }
}

pub proof fn lemma_args_less_transitive(
    a: Seq<SignatureArgument>,
    b: Seq<SignatureArgument>,
    c: Seq<SignatureArgument>,
)
    requires
        args_less(a, b),
        args_less(b, c),
    ensures
        args_less(a, c),
    decreases a.len(),
{
    if a.len() > 0 && b.len() > 0 && c.len() > 0 {
        if a[0].rank() == b[0].rank() && b[0].rank() == c[0].rank() {
            lemma_args_less_transitive(a.drop_first(), b.drop_first(), c.drop_first());
        }
    }
}

pub proof fn lemma_args_less_total(a: Seq<SignatureArgument>, b: Seq<SignatureArgument>)
    ensures
        a == b || args_less(a, b) || args_less(b, a),
    decreases a.len(),
{
    if a.len() > 0 && b.len() > 0 && a[0].rank() == b[0].rank() {
        lemma_args_less_total(a.drop_first(), b.drop_first());
        assert(a[0] == b[0]);
        if a.drop_first() == b.drop_first() {
            lemma_seq_cons_eq(a, b);
        }
    } else if a.len() == 0 && b.len() == 0 {
        assert(a =~= b);
    }
}

pub proof fn lemma_combination_order(
    x: (RuntimeOpcode, Seq<SignatureArgument>),
    y: (RuntimeOpcode, Seq<SignatureArgument>),
    z: (RuntimeOpcode, Seq<SignatureArgument>),
)
    ensures
        !combination_less(x, x),
        combination_less(x, y) && combination_less(y, z) ==> combination_less(x, z),
        x == y || combination_less(x, y) || combination_less(y, x),
{
    lemma_args_less_irreflexive(x.1);
    if combination_less(x, y) && combination_less(y, z) && x.0 == y.0 && y.0 == z.0 {
        lemma_args_less_transitive(x.1, y.1, z.1);
    }
    lemma_args_less_total(x.1, y.1);
    if x.0.spec_code() == y.0.spec_code() {
        crate::runtime_opcode::lemma_code_roundtrip(x.0);
        crate::runtime_opcode::lemma_code_roundtrip(y.0);
    }
}

/// Two strictly sorted sequences with the same elements are the same sequence.
pub proof fn lemma_sorted_unique(
    s: Seq<(RuntimeOpcode, Seq<SignatureArgument>)>,
    t: Seq<(RuntimeOpcode, Seq<SignatureArgument>)>,
)
    requires
        strictly_sorted(s),
        strictly_sorted(t),
        forall|x: (RuntimeOpcode, Seq<SignatureArgument>)| s.contains(x) <==> t.contains(x),
    ensures
        s == t,
    decreases s.len(),
{
    if s.len() == 0 {
        if t.len() > 0 {
            assert(t.contains(t[0]));
        }
        assert(s =~= t);
    } else {
        assert(s.contains(s[0]));
        if t.len() == 0 {
            assert(false);
        }
        assert(t.contains(t[0]));
        let j = choose|j: int| 0 <= j < t.len() && t[j] == s[0];
        let i = choose|i: int| 0 <= i < s.len() && s[i] == t[0];
        lemma_combination_order(s[0], s[0], s[0]);
        lemma_combination_order(t[0], t[0], t[0]);
        if j > 0 {
            assert(combination_less(t[0], t[j]));
            if i > 0 {
                assert(combination_less(s[0], s[i]));
                lemma_combination_order(t[0], s[0], t[0]);
            }
            assert(false);
        }
        let s1 = s.drop_first();
        let t1 = t.drop_first();
        assert forall|x: (RuntimeOpcode, Seq<SignatureArgument>)| s1.contains(x) <==> t1.contains(x) by {
            if s1.contains(x) {
                let a = choose|a: int| 0 <= a < s1.len() && s1[a] == x;
                assert(s[a + 1] == x);
                assert(combination_less(s[0], s[a + 1]));
                assert(t.contains(x));
                let b = choose|b: int| 0 <= b < t.len() && t[b] == x;
                if b == 0 {
                    assert(false);
                }
                assert(t1[b - 1] == x);
            }
            if t1.contains(x) {
                let a = choose|a: int| 0 <= a < t1.len() && t1[a] == x;
                assert(t[a + 1] == x);
                assert(combination_less(t[0], t[a + 1]));
                assert(s.contains(x));
                let b = choose|b: int| 0 <= b < s.len() && s[b] == x;
                if b == 0 {
                    assert(false);
                }
                assert(s1[b - 1] == x);
            }
        }
        lemma_sorted_unique(s1, t1);
        lemma_seq_cons_eq(s, t);
    }
}

fn rank_of(a: SignatureArgument) -> (res: u8)
    ensures
        res == a.rank(),
{
    match a {
        SignatureArgument::Register => 0,
        SignatureArgument::MemoryRef => 1,
        SignatureArgument::Label => 2,
        SignatureArgument::Literal => 3,
    }
}

/// Decides `args_less`.
pub fn signature_less(a: &Vec<SignatureArgument>, b: &Vec<SignatureArgument>) -> (res: bool)
    ensures
        res == args_less(a@, b@),
{
    let mut i: usize = 0;
    assert(a@.skip(0) =~= a@);
    assert(b@.skip(0) =~= b@);
    loop
        invariant
            i <= a@.len(),
            i <= b@.len(),
            args_less(a@, b@) == args_less(a@.skip(i as int), b@.skip(i as int)),
        decreases a@.len() - i,
    {
        let ghost sa = a@.skip(i as int);
        let ghost sb = b@.skip(i as int);
        if i == a.len() {
            return i < b.len();
        }
        if i == b.len() {
            return false;
        }
        let ra = rank_of(a[i]);
        let rb = rank_of(b[i]);
        assert(sa[0] == a@[i as int] && sb[0] == b@[i as int]);
        if ra < rb {
            return true;
        }
        if ra > rb {
            return false;
        }
        assert(sa.drop_first() =~= a@.skip(i + 1));
        assert(sb.drop_first() =~= b@.skip(i + 1));
        i = i + 1;
    }
}

/// Decides `combination_less`.
pub fn combination_less_exec(x: &Combination, y: &Combination) -> (res: bool)
    ensures
        res == combination_less(combination_view(*x), combination_view(*y)),
{
    let cx = x.0.code();
    let cy = y.0.code();
    if cx < cy {
        return true;
    }
    if cx > cy {
        return false;
    }
    proof {
        crate::runtime_opcode::lemma_code_roundtrip(x.0);
        crate::runtime_opcode::lemma_code_roundtrip(y.0);
    }
    signature_less(&x.1, &y.1)
}

fn copy_signature(v: &Vec<SignatureArgument>) -> (res: Vec<SignatureArgument>)
    ensures
        res@ == v@,
{
    let mut res: Vec<SignatureArgument> = Vec::new();
    let mut i: usize = 0;
    while i < v.len()
        invariant
            i <= v@.len(),
            res@ == v@.subrange(0, i as int),
        decreases v@.len() - i,
    {
        res.push(v[i]);
        i = i + 1;
        assert(res@ =~= v@.subrange(0, i as int));
    }
    assert(v@.subrange(0, v@.len() as int) =~= v@);
    res
}

/// Inserts `x` into a strictly sorted vector, keeping it strictly sorted; an
/// element equal to `x` already present is kept instead.
pub fn insert_sorted(res: &mut Vec<Combination>, x: Combination)
    requires
        strictly_sorted(views(old(res)@)),
    ensures
        strictly_sorted(views(final(res)@)),
        forall|y: (RuntimeOpcode, Seq<SignatureArgument>)| #[trigger] views(final(res)@).contains(y) <==> (
            views(old(res)@).contains(y) || y == combination_view(x)),
{
    let ghost xv = combination_view(x);
    let mut j: usize = 0;
    while j < res.len()
        invariant
            j <= res@.len(),
            res@ == old(res)@,
            strictly_sorted(views(res@)),
            forall|k: int| 0 <= k < j ==> combination_less(#[trigger] views(res@)[k], xv),
            xv == combination_view(x),
        ensures
            j <= res@.len(),
            res@ == old(res)@,
            forall|k: int| 0 <= k < j ==> combination_less(#[trigger] views(res@)[k], xv),
            j < res@.len() ==> combination_less(xv, views(res@)[j as int]),
        decreases res@.len() - j,
    {
        let ghost yv = views(res@)[j as int];
        assert(yv == combination_view(res@[j as int]));
        if combination_less_exec(&x, &res[j]) {
            break;
        }
        if !combination_less_exec(&res[j], &x) {
            proof {
                lemma_combination_order(xv, yv, yv);
                assert(views(res@).contains(xv));
                assert forall|y: (RuntimeOpcode, Seq<SignatureArgument>)| #[trigger] views(res@).contains(y) <==> (
                    views(old(res)@).contains(y) || y == xv) by {}
            }
            return;
        }
        j = j + 1;
    }
    let ghost before = views(res@);
    proof {
        assert forall|k: int| j <= k < before.len() implies combination_less(xv, #[trigger] before[k]) by {
            lemma_combination_order(xv, before[j as int], before[k]);
        }
    }
    res.insert(j, x);
    let ghost after = views(res@);
    proof {
        assert(after =~= before.insert(j as int, xv));
        assert forall|a: int, b: int| 0 <= a < b < after.len() implies combination_less(#[trigger] after[a], #[trigger] after[b]) by {
            if b < j {
            } else if b == j {
            } else if a < j {
                lemma_combination_order(after[a], xv, after[b]);
            } else if a == j {
            } else {
            }
        }
        assert forall|y: (RuntimeOpcode, Seq<SignatureArgument>)| #[trigger] after.contains(y) <==> (
            before.contains(y) || y == xv) by {
            if after.contains(y) {
                let k = choose|k: int| 0 <= k < after.len() && after[k] == y;
                if k < j {
                    assert(before[k] == y);
                } else if k > j {
                    assert(before[k - 1] == y);
                }
            }
            if before.contains(y) {
                let k = choose|k: int| 0 <= k < before.len() && before[k] == y;
                if k < j {
                    assert(after[k] == y);
                } else {
                    assert(after[k + 1] == y);
                }
            }
            if y == xv {
                assert(after[j as int] == y);
            }
        }
    }
}

/// The entry `x`, found below a node reached by `prefix`, really is a
/// signature of that node.
pub open spec fn entry_sound(
    node: SignatureTreeNode,
    prefix: Seq<SignatureArgument>,
    x: (RuntimeOpcode, Seq<SignatureArgument>),
) -> bool {
    &&& x.1.len() >= prefix.len()
    &&& x.1.take(prefix.len() as int) == prefix
    &&& node.lookup(x.1.skip(prefix.len() as int)) == Some(x.0)
}

/// `out[base..]` lists the signatures below `node` (each prefixed by
/// `prefix`), and holds every one that is empty or starts with an argument
/// kind of rank below `r`.
pub open spec fn collected(
    node: SignatureTreeNode,
    prefix: Seq<SignatureArgument>,
    base: int,
    out: Seq<(RuntimeOpcode, Seq<SignatureArgument>)>,
    r: int,
) -> bool {
    &&& 0 <= base <= out.len()
    &&& forall|k: int| base <= k < out.len() ==> entry_sound(node, prefix, #[trigger] out[k])
    &&& forall|q: Seq<SignatureArgument>| #[trigger] node.lookup(q) is Some && (q.len() == 0 || q[0].rank() < r)
        ==> exists|k: int| base <= k < out.len() && (#[trigger] out[k]) == (node.lookup(q).unwrap(), prefix + q)
}

proof fn lemma_collected_extend(
    node: SignatureTreeNode,
    a: SignatureArgument,
    prefix: Seq<SignatureArgument>,
    base: int,
    before: Seq<(RuntimeOpcode, Seq<SignatureArgument>)>,
    after: Seq<(RuntimeOpcode, Seq<SignatureArgument>)>,
)
    requires
        collected(node, prefix, base, before, a.rank()),
        after.len() >= before.len(),
        after.subrange(0, before.len() as int) == before,
        match node.child(a) {
            None => after == before,
            Some(c) => collected(c, prefix.push(a), before.len() as int, after, 4),
        },
    ensures
        collected(node, prefix, base, after, a.rank() + 1),
{
    let n = prefix.len() as int;
    assert forall|k: int| base <= k < after.len() implies entry_sound(node, prefix, #[trigger] after[k]) by {
        if k < before.len() {
            assert(after[k] == before[k]);
        } else {
            let c = node.child(a)->0;
            let x = after[k];
            assert(entry_sound(c, prefix.push(a), x));
            assert(x.1.take(n) =~= x.1.take(n + 1).take(n));
            assert(prefix.push(a).take(n) =~= prefix);
            let s = x.1.skip(n);
            assert(s[0] == x.1.take(n + 1)[n]);
            assert(s.drop_first() =~= x.1.skip(n + 1));
        }
    }
    assert forall|q: Seq<SignatureArgument>| #[trigger] node.lookup(q) is Some && (q.len() == 0 || q[0].rank()
        < a.rank() + 1) implies exists|k: int| base <= k < after.len() && (#[trigger] after[k]) == (
        node.lookup(q).unwrap(),
        prefix + q,
    ) by {
        if q.len() == 0 || q[0].rank() < a.rank() {
            let k = choose|k: int| base <= k < before.len() && (#[trigger] before[k]) == (
                node.lookup(q).unwrap(),
                prefix + q,
            );
            assert(after[k] == before[k]);
        } else {
            assert(q[0] == a);
            let c = node.child(a)->0;
            assert(c.lookup(q.drop_first()) is Some);
            let k = choose|k: int| before.len() <= k < after.len() && (#[trigger] after[k]) == (
                c.lookup(q.drop_first()).unwrap(),
                prefix.push(a) + q.drop_first(),
            );
            assert(prefix.push(a) + q.drop_first() =~= prefix + q);
        }
    }
}

fn collect_slot(
    slot: &Option<Box<SignatureTreeNode>>,
    a: SignatureArgument,
    prefix: &mut Vec<SignatureArgument>,
    out: &mut Vec<Combination>,
)
    ensures
        final(prefix)@ == old(prefix)@,
        final(out)@.len() >= old(out)@.len(),
        final(out)@.subrange(0, old(out)@.len() as int) == old(out)@,
        match slot {
            None => final(out)@ == old(out)@,
            Some(c) => collected(**c, old(prefix)@.push(a), old(out)@.len() as int, views(final(out)@), 4),
        },
    decreases slot,
{
    match slot {
        None => {
            assert(out@.subrange(0, out@.len() as int) =~= out@);
        },
        Some(c) => {
            prefix.push(a);
            collect(&**c, prefix, out);
            prefix.pop();
            assert(prefix@ =~= old(prefix)@);
        },
    }
}

/// Appends to `out` every signature below `node`, each prefixed by `prefix`.
fn collect(node: &SignatureTreeNode, prefix: &mut Vec<SignatureArgument>, out: &mut Vec<Combination>)
    ensures
        final(prefix)@ == old(prefix)@,
        final(out)@.len() >= old(out)@.len(),
        final(out)@.subrange(0, old(out)@.len() as int) == old(out)@,
        collected(*node, old(prefix)@, old(out)@.len() as int, views(final(out)@), 4),
    decreases node,
{
    let ghost base = out@.len() as int;
    let ghost p = prefix@;
    match node.runtime_opcode {
        Some(rt) => {
            let path = copy_signature(prefix);
            out.push((rt, path));
        },
        None => {},
    }
    proof {
        let v = views(out@);
        assert forall|k: int| base <= k < v.len() implies entry_sound(*node, p, #[trigger] v[k]) by {
            assert(v[k].1 =~= p);
            assert(p.take(p.len() as int) =~= p);
            assert(p.skip(p.len() as int) =~= Seq::<SignatureArgument>::empty());
        }
        assert forall|q: Seq<SignatureArgument>| #[trigger] node.lookup(q) is Some && (q.len() == 0 || q[0].rank()
            < 0) implies exists|k: int| base <= k < v.len() && (#[trigger] v[k]) == (node.lookup(q).unwrap(), p + q) by {
            assert(p + q =~= p);
            assert(v[base] == (node.lookup(q).unwrap(), p + q));
        }
        assert(collected(*node, p, base, v, 0));
    }
    let ghost o0 = out@;
    collect_slot(&node.register, SignatureArgument::Register, prefix, out);
    proof {
        assert(views(out@).subrange(0, o0.len() as int) =~= views(o0));
        lemma_collected_extend(*node, SignatureArgument::Register, p, base, views(o0), views(out@));
    }
    let ghost o1 = out@;
    collect_slot(&node.memory_ref, SignatureArgument::MemoryRef, prefix, out);
    proof {
        assert(views(out@).subrange(0, o1.len() as int) =~= views(o1));
        lemma_collected_extend(*node, SignatureArgument::MemoryRef, p, base, views(o1), views(out@));
    }
    let ghost o2 = out@;
    collect_slot(&node.label, SignatureArgument::Label, prefix, out);
    proof {
        assert(views(out@).subrange(0, o2.len() as int) =~= views(o2));
        lemma_collected_extend(*node, SignatureArgument::Label, p, base, views(o2), views(out@));
    }
    let ghost o3 = out@;
    collect_slot(&node.literal, SignatureArgument::Literal, prefix, out);
    proof {
        assert(views(out@).subrange(0, o3.len() as int) =~= views(o3));
        lemma_collected_extend(*node, SignatureArgument::Literal, p, base, views(o3), views(out@));
        assert(out@.subrange(0, o0.len() as int) =~= o0);
        assert(o0.subrange(0, base) == old(out)@);
        assert(out@.subrange(0, base) =~= o0.subrange(0, base));
    }
}

/// Every signature below `node`, sorted by runtime opcode and then by
/// signature, each listed once.
pub fn sorted_combinations(node: &SignatureTreeNode) -> (res: Vec<Combination>)
    ensures
        strictly_sorted(views(res@)),
        forall|k: int| 0 <= k < res@.len() ==> node.lookup((#[trigger] res@[k]).1@) == Some(res@[k].0),
        forall|q: Seq<SignatureArgument>| #[trigger] node.lookup(q) is Some ==> views(res@).contains(
            (node.lookup(q).unwrap(), q),
        ),
{
    let mut prefix: Vec<SignatureArgument> = Vec::new();
    let mut found: Vec<Combination> = Vec::new();
    collect(node, &mut prefix, &mut found);
    let ghost fv = views(found@);
    proof {
        assert forall|k: int| 0 <= k < fv.len() implies node.lookup((#[trigger] fv[k]).1) == Some(fv[k].0) by {
            assert(entry_sound(*node, Seq::empty(), fv[k]));
            assert(fv[k].1.skip(0) =~= fv[k].1);
        }
        assert forall|q: Seq<SignatureArgument>| #[trigger] node.lookup(q) is Some implies fv.contains(
            (node.lookup(q).unwrap(), q),
        ) by {
            let k = choose|k: int| 0 <= k < fv.len() && (#[trigger] fv[k]) == (
                node.lookup(q).unwrap(),
                Seq::<SignatureArgument>::empty() + q,
            );
            assert(Seq::<SignatureArgument>::empty() + q =~= q);
        }
    }
    let mut res: Vec<Combination> = Vec::new();
    let mut i: usize = 0;
    while i < found.len()
        invariant
            i <= found@.len(),
            fv == views(found@),
            strictly_sorted(views(res@)),
            forall|y: (RuntimeOpcode, Seq<SignatureArgument>)| #[trigger] views(res@).contains(y) <==> fv.subrange(
                0,
                i as int,
            ).contains(y),
        decreases found@.len() - i,
    {
        let x = (found[i].0, copy_signature(&found[i].1));
        assert(combination_view(x) == fv[i as int]);
        insert_sorted(&mut res, x);
        proof {
            assert forall|y: (RuntimeOpcode, Seq<SignatureArgument>)| #[trigger] views(res@).contains(y) <==> fv.subrange(
                0,
                i + 1,
            ).contains(y) by {
                let s = fv.subrange(0, i + 1);
                assert(s =~= fv.subrange(0, i as int).push(fv[i as int]));
                if fv.subrange(0, i as int).contains(y) {
                    let k = choose|k: int| 0 <= k < i && fv.subrange(0, i as int)[k] == y;
                    assert(s[k] == y);
                }
                if y == fv[i as int] {
                    assert(s[i as int] == y);
                }
                if s.contains(y) {
                    let k = choose|k: int| 0 <= k < i + 1 && s[k] == y;
                    if k < i {
                        assert(fv.subrange(0, i as int)[k] == y);
                    }
                }
            }
        }
        i = i + 1;
    }
    proof {
        assert(fv.subrange(0, fv.len() as int) =~= fv);
        let rv = views(res@);
        assert forall|k: int| 0 <= k < res@.len() implies node.lookup((#[trigger] res@[k]).1@) == Some(res@[k].0) by {
            assert(rv[k] == combination_view(res@[k]));
            assert(rv.contains(rv[k]));
            let j = choose|j: int| 0 <= j < fv.len() && fv[j] == rv[k];
        }
    }
    res
}

} // verus!
