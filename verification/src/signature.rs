use vstd::prelude::*;
use crate::operand::{Operand, signature_of};
use crate::runtime_opcode::RuntimeOpcode;
use crate::source_opcode::SourceOpcode;
use crate::combinations::{Combination, lemma_sorted_unique, sorted_combinations, strictly_sorted, views};

verus! {

/// The kind of one argument in an instruction signature.
#[derive(Debug, Clone, Copy, PartialEq, Eq, Hash, PartialOrd, Ord, Structural)]
pub enum SignatureArgument {
    Register,
    MemoryRef,
    Label,
    Literal,
}

impl SignatureArgument {
    /// Position in declaration order, which is also the order of `Ord`.
    pub open spec fn rank(self) -> int {
        match self {
            SignatureArgument::Register => 0,
            SignatureArgument::MemoryRef => 1,
            SignatureArgument::Label => 2,
            SignatureArgument::Literal => 3,
        }
    }

    /// How the argument kind is written in messages.
    pub open spec fn spec_description(self) -> Seq<char> {
        match self {
            SignatureArgument::Register => "register"@,
            SignatureArgument::MemoryRef => "memory reference"@,
            SignatureArgument::Label => "label"@,
            SignatureArgument::Literal => "literal"@,
        }
    }

    /// How the argument kind is written in messages.
    pub fn description(&self) -> (res: &'static str)
        ensures
            res@ == self.spec_description(),
    {
        match self {
            SignatureArgument::Register => "register",
            SignatureArgument::MemoryRef => "memory reference",
            SignatureArgument::Label => "label",
            SignatureArgument::Literal => "literal",
        }
    }
}

/// A node of the signature tree. The path of argument kinds from the root of
/// an opcode to a node is a signature; `runtime_opcode` is the instruction that
/// the signature selects, if any. Children are kept by argument kind.
#[derive(Debug)]
pub struct SignatureTreeNode {
    pub runtime_opcode: Option<RuntimeOpcode>,
    pub register: Option<Box<SignatureTreeNode>>,
    pub memory_ref: Option<Box<SignatureTreeNode>>,
    pub label: Option<Box<SignatureTreeNode>>,
    pub literal: Option<Box<SignatureTreeNode>>,
}

impl SignatureTreeNode {
    /// The child reached by an argument of kind `a`.
    pub open spec fn child(self, a: SignatureArgument) -> Option<SignatureTreeNode> {
        let slot = match a {
            SignatureArgument::Register => self.register,
            SignatureArgument::MemoryRef => self.memory_ref,
            SignatureArgument::Label => self.label,
            SignatureArgument::Literal => self.literal,
        };
        match slot {
            Some(b) => Some(*b),
            None => None,
        }
    }

    /// The runtime opcode selected by the signature `path` below this node.
    pub open spec fn lookup(self, path: Seq<SignatureArgument>) -> Option<RuntimeOpcode>
        decreases path.len(),
    {
        if path.len() == 0 {
            self.runtime_opcode
        } else {
            match self.child(path[0]) {
                Some(c) => c.lookup(path.drop_first()),
                None => None,
            }
        }
    }

    /// A node with no signature and no children.
    pub fn new() -> (res: Self)
        ensures
            forall|p: Seq<SignatureArgument>| #[trigger] res.lookup(p) is None,
            res.runtime_opcode is None,
            forall|a: SignatureArgument| #[trigger] res.child(a) is None,
    {
        let res = SignatureTreeNode {
            runtime_opcode: None,
            register: None,
            memory_ref: None,
            label: None,
            literal: None,
        };
        assert forall|p: Seq<SignatureArgument>| #[trigger] res.lookup(p) is None by {
            if p.len() > 0 {
                assert(res.child(p[0]) is None);
            }
        }
        res
    }

    fn take_child(&mut self, a: SignatureArgument) -> (res: Option<Box<SignatureTreeNode>>)
        ensures
            final(self).runtime_opcode == old(self).runtime_opcode,
            final(self).child(a) is None,
            forall|b: SignatureArgument| b != a ==> #[trigger] final(self).child(b) == old(self).child(b),
            match res {
                Some(c) => old(self).child(a) == Some(*c),
                None => old(self).child(a) is None,
            },
    {
        match a {
            SignatureArgument::Register => self.register.take(),
            SignatureArgument::MemoryRef => self.memory_ref.take(),
            SignatureArgument::Label => self.label.take(),
            SignatureArgument::Literal => self.literal.take(),
        }
    }

    fn put_child(&mut self, a: SignatureArgument, c: SignatureTreeNode)
        ensures
            final(self).runtime_opcode == old(self).runtime_opcode,
            final(self).child(a) == Some(c),
            forall|b: SignatureArgument| b != a ==> #[trigger] final(self).child(b) == old(self).child(b),
    {
        match a {
            SignatureArgument::Register => self.register = Some(Box::new(c)),
            SignatureArgument::MemoryRef => self.memory_ref = Some(Box::new(c)),
            SignatureArgument::Label => self.label = Some(Box::new(c)),
            SignatureArgument::Literal => self.literal = Some(Box::new(c)),
        }
    }

    fn child_ref(&self, a: SignatureArgument) -> (res: Option<&SignatureTreeNode>)
        ensures
            match res {
                Some(c) => self.child(a) == Some(*c),
                None => self.child(a) is None,
            },
    {
        let slot = match a {
            SignatureArgument::Register => &self.register,
            SignatureArgument::MemoryRef => &self.memory_ref,
            SignatureArgument::Label => &self.label,
            SignatureArgument::Literal => &self.literal,
        };
        match slot {
            Some(b) => Some(&**b),
            None => None,
        }
    }

    /// Records that the signature `args[i..]` below this node selects `rt`.
    fn add_path(&mut self, args: &[SignatureArgument], i: usize, rt: RuntimeOpcode)
        requires
            i <= args@.len(),
        ensures
            forall|p: Seq<SignatureArgument>| #[trigger] final(self).lookup(p) == if p == args@.skip(i as int) {
                Some(rt)
            } else {
                old(self).lookup(p)
            },
        decreases args@.len() - i,
    {
        if i == args.len() {
            self.runtime_opcode = Some(rt);
            assert forall|p: Seq<SignatureArgument>| #[trigger] self.lookup(p) == if p == args@.skip(i as int) {
                Some(rt)
            } else {
                old(self).lookup(p)
            } by {
                if p.len() == 0 {
                    assert(p =~= args@.skip(i as int));
                } else {
                    assert(p != args@.skip(i as int));
                }
            }
        } else {
            let a = args[i];
            let taken = self.take_child(a);
            let mut c = match taken {
                Some(b) => *b,
                None => SignatureTreeNode::new(),
            };
            let ghost old_c = c;
            c.add_path(args, i + 1, rt);
            self.put_child(a, c);
            assert forall|p: Seq<SignatureArgument>| #[trigger] self.lookup(p) == if p == args@.skip(i as int) {
                Some(rt)
            } else {
                old(self).lookup(p)
            } by {
                let s = args@.skip(i as int);
                assert(s.len() > 0 && s[0] == a);
                assert(s.drop_first() =~= args@.skip(i + 1));
                if p.len() > 0 && p[0] == a {
                    if p.drop_first() == args@.skip(i + 1) {
                        lemma_seq_cons_eq(p, s);
                    } else {
                        assert(p != s);
                    }
                    assert(old(self).lookup(p) == old_c.lookup(p.drop_first()));
                    assert(self.child(a) == Some(c));
                    assert(self.lookup(p) == c.lookup(p.drop_first()));
                } else if p.len() > 0 {
                    assert(p != s);
                    assert(self.child(p[0]) == old(self).child(p[0]));
                } else {
                    assert(p != s);
                }
            }
        }
    }
}

/// Two non-empty sequences with the same first element and the same rest are equal.
pub proof fn lemma_seq_cons_eq<A>(p: Seq<A>, s: Seq<A>)
    requires
        p.len() > 0,
        s.len() > 0,
        p[0] == s[0],
        p.drop_first() == s.drop_first(),
    ensures
        p == s,
{
    assert(p.drop_first().len() == p.len() - 1);
    assert(s.drop_first().len() == s.len() - 1);
    assert(p.len() == s.len());
    assert forall|k: int| 0 <= k < p.len() implies p[k] == s[k] by {
        if k > 0 {
            assert(p[k] == p.drop_first()[k - 1]);
            assert(s[k] == s.drop_first()[k - 1]);
        }
    }
    assert(p =~= s);
}

/// Instruction signatures of every source opcode, arranged as one tree per
/// opcode.
#[derive(Debug)]
pub struct SignatureTree {
    root: Vec<SignatureTreeNode>,
}

impl SignatureTree {
    #[verifier::type_invariant]
    spec fn well_formed(self) -> bool {
        self.root@.len() == 21
    }

    /// The runtime opcode that `op` with the argument kinds `path` selects.
    pub closed spec fn lookup(self, op: SourceOpcode, path: Seq<SignatureArgument>) -> Option<RuntimeOpcode> {
        self.root@[op.index()].lookup(path)
    }

    /// An empty tree: no signature selects anything.
    pub fn new() -> (res: Self)
        ensures
            forall|op: SourceOpcode, p: Seq<SignatureArgument>| #[trigger] res.lookup(op, p) is None,
    {
        SignatureTree { root: Self::empty_root() }
    }

    fn empty_root() -> (root: Vec<SignatureTreeNode>)
        ensures
            root@.len() == 21,
            forall|j: int, p: Seq<SignatureArgument>| 0 <= j < 21 ==> #[trigger] root@[j].lookup(p) is None,
    {
        let mut root: Vec<SignatureTreeNode> = Vec::new();
        let mut i: usize = 0;
        while i < 21
            invariant
                i <= 21,
                root@.len() == i,
                forall|j: int, p: Seq<SignatureArgument>| 0 <= j < i ==> #[trigger] root@[j].lookup(p) is None,
            decreases 21 - i,
        {
            root.push(SignatureTreeNode::new());
            i = i + 1;
        }
        root
    }

    /// Records that `source_opcode` with argument kinds `arguments` selects
    /// `runtime_opcode`; every other signature keeps what it selected.
    pub fn add_signature(
        &mut self,
        source_opcode: SourceOpcode,
        arguments: &[SignatureArgument],
        runtime_opcode: RuntimeOpcode,
    )
        ensures
            adds_signature(*old(self), *final(self), source_opcode, arguments@, runtime_opcode),
    {
        proof {
            use_type_invariant(&*self);
        }
        let idx = source_opcode.ordinal();
        let mut root = Self::empty_root();
        std::mem::swap(&mut root, &mut self.root);
        let mut node = root.remove(idx);
        node.add_path(arguments, 0, runtime_opcode);
        root.insert(idx, node);
        self.root = root;
        assert(arguments@.skip(0) =~= arguments@);
        assert forall|op: SourceOpcode, p: Seq<SignatureArgument>| #[trigger] self.lookup(op, p) == if op == source_opcode && p == arguments@ {
            Some(runtime_opcode)
        } else {
            old(self).lookup(op, p)
        } by {
            if op.index() == source_opcode.index() {
                assert(op == source_opcode);
            } else {
                assert(op != source_opcode);
            }
        }
    }

    /// Every signature of `source_opcode` with the runtime opcode it selects,
    /// sorted by runtime opcode and then by signature, each listed once.
    pub fn get_all_valid_operand_combinations_for_source_opcode(&self, source_opcode: SourceOpcode) -> (res: Vec<
        Combination,
    >)
        ensures
            strictly_sorted(views(res@)),
            forall|k: int|
                0 <= k < res@.len() ==> self.lookup(source_opcode, (#[trigger] res@[k]).1@) == Some(res@[k].0),
            forall|q: Seq<SignatureArgument>| #[trigger] self.lookup(source_opcode, q) is Some ==> views(
                res@,
            ).contains((self.lookup(source_opcode, q).unwrap(), q)),
    {
        proof {
            use_type_invariant(self);
        }
        let idx = source_opcode.ordinal();
        sorted_combinations(&self.root[idx])
    }

    /// The runtime opcode that `source_opcode` selects for these operands, if
    /// the kinds of the operands form one of its signatures.
    pub fn matches_signature(&self, source_opcode: SourceOpcode, operands: &[Operand]) -> (res: Option<
        RuntimeOpcode,
    >)
        ensures
            res == self.lookup(source_opcode, signature_of(operands@)),
    {
        proof {
            use_type_invariant(self);
        }
        let ghost path = signature_of(operands@);
        let idx = source_opcode.ordinal();
        let mut current: &SignatureTreeNode = &self.root[idx];
        let mut i: usize = 0;
        assert(path.skip(0) =~= path);
        while i < operands.len()
            invariant
                i <= operands@.len(),
                path == signature_of(operands@),
                self.lookup(source_opcode, path) == current.lookup(path.skip(i as int)),
            decreases operands@.len() - i,
        {
            let arg = operands[i].get_signature_argument();
            let ghost rest = path.skip(i as int);
            assert(rest[0] == arg);
            assert(rest.drop_first() =~= path.skip(i + 1));
            match current.child_ref(arg) {
                Some(c) => {
                    current = c;
                },
                None => {
                    return None;
                },
            }
            i = i + 1;
        }
        assert(path.skip(i as int).len() == 0);
        current.runtime_opcode
    }
}

/// `after` is `before` with `op` and the argument kinds `args` selecting `rt`,
/// every other signature selecting what it did (what `add_signature` does).
pub open spec fn adds_signature(
    before: SignatureTree,
    after: SignatureTree,
    op: SourceOpcode,
    args: Seq<SignatureArgument>,
    rt: RuntimeOpcode,
) -> bool {
    forall|o: SourceOpcode, p: Seq<SignatureArgument>| #[trigger] after.lookup(o, p) == if o == op && p == args {
        Some(rt)
    } else {
        before.lookup(o, p)
    }
}

/// The runtime opcode of the last addition of `op` with `p`, if any.
pub open spec fn last_added(
    adds: Seq<(SourceOpcode, Seq<SignatureArgument>, RuntimeOpcode)>,
    op: SourceOpcode,
    p: Seq<SignatureArgument>,
) -> Option<RuntimeOpcode>
    decreases adds.len(),
{
    if adds.len() == 0 {
        None
    } else if adds.last().0 == op && adds.last().1 == p {
        Some(adds.last().2)
    } else {
        last_added(adds.drop_last(), op, p)
    }
}

/// After an empty tree and a sequence of additions, a signature selects the
/// runtime opcode it was last added with, and nothing if it never was (so a
/// proper prefix or extension of an added signature selects nothing). As
/// `matches_signature` gives the lookup of its operands' kinds, this is what
/// it returns.
pub proof fn lemma_signature_sequence(
    trees: Seq<SignatureTree>,
    adds: Seq<(SourceOpcode, Seq<SignatureArgument>, RuntimeOpcode)>,
)
    requires
        trees.len() == adds.len() + 1,
        forall|o: SourceOpcode, p: Seq<SignatureArgument>| #[trigger] trees[0].lookup(o, p) is None,
        forall|i: int|
            0 <= i < adds.len() ==> adds_signature(trees[i], trees[i + 1], (#[trigger] adds[i]).0, adds[i].1, adds[i].2),
    ensures
        forall|o: SourceOpcode, p: Seq<SignatureArgument>| #[trigger] trees.last().lookup(o, p) == last_added(adds, o, p),
    decreases adds.len(),
{
    if adds.len() > 0 {
        let n = adds.len() - 1;
        let a = adds.drop_last();
        let t = trees.drop_last();
        assert forall|i: int| 0 <= i < a.len() implies adds_signature(t[i], t[i + 1], (#[trigger] a[i]).0, a[i].1, a[i].2) by {
            assert(adds[i] == a[i]);
        }
        lemma_signature_sequence(t, a);
        assert(adds_signature(trees[n], trees[n + 1], adds[n].0, adds[n].1, adds[n].2));
        assert forall|o: SourceOpcode, p: Seq<SignatureArgument>| #[trigger] trees.last().lookup(o, p) == last_added(adds, o, p) by {
            assert(trees.last() == trees[n + 1]);
            assert(t.last() == trees[n]);
            assert(trees[n + 1].lookup(o, p) == if o == adds[n].0 && p == adds[n].1 {
                Some(adds[n].2)
            } else {
                trees[n].lookup(o, p)
            });
        }
    }
}

/// The instruction set: the runtime opcode that each source opcode selects
/// for each signature of argument kinds, and nothing for any other signature.
pub open spec fn standard_signature(op: SourceOpcode, p: Seq<SignatureArgument>) -> Option<RuntimeOpcode> {
    match op {
            SourceOpcode::Nop => if p.len() == 0 {
                Some(RuntimeOpcode::Nop)
            } else {
                None
            },
            SourceOpcode::Ldr => if p == seq![SignatureArgument::Register, SignatureArgument::MemoryRef] {
                Some(RuntimeOpcode::Ldr)
            } else {
                None
            },
            SourceOpcode::Str => if p == seq![SignatureArgument::Register, SignatureArgument::MemoryRef] {
                Some(RuntimeOpcode::Str)
            } else {
                None
            },
            SourceOpcode::Add => if p == seq![SignatureArgument::Register, SignatureArgument::Register, SignatureArgument::Literal] {
                Some(RuntimeOpcode::AddLiteral)
            } else if p == seq![SignatureArgument::Register, SignatureArgument::Register, SignatureArgument::Register] {
                Some(RuntimeOpcode::AddRegister)
            } else {
                None
            },
            SourceOpcode::Sub => if p == seq![SignatureArgument::Register, SignatureArgument::Register, SignatureArgument::Literal] {
                Some(RuntimeOpcode::SubLiteral)
            } else if p == seq![SignatureArgument::Register, SignatureArgument::Register, SignatureArgument::Register] {
                Some(RuntimeOpcode::SubRegister)
            } else {
                None
            },
            SourceOpcode::Mov => if p == seq![SignatureArgument::Register, SignatureArgument::Literal] {
                Some(RuntimeOpcode::MovLiteral)
            } else if p == seq![SignatureArgument::Register, SignatureArgument::Register] {
                Some(RuntimeOpcode::MovRegister)
            } else {
                None
            },
            SourceOpcode::Cmp => if p == seq![SignatureArgument::Register, SignatureArgument::Literal] {
                Some(RuntimeOpcode::CmpLiteral)
            } else if p == seq![SignatureArgument::Register, SignatureArgument::Register] {
                Some(RuntimeOpcode::CmpRegister)
            } else {
                None
            },
            SourceOpcode::B => if p == seq![SignatureArgument::Label] {
                Some(RuntimeOpcode::B)
            } else {
                None
            },
            SourceOpcode::Beq => if p == seq![SignatureArgument::Label] {
                Some(RuntimeOpcode::Beq)
            } else {
                None
            },
            SourceOpcode::Bne => if p == seq![SignatureArgument::Label] {
                Some(RuntimeOpcode::Bne)
            } else {
                None
            },
            SourceOpcode::Bgt => if p == seq![SignatureArgument::Label] {
                Some(RuntimeOpcode::Bgt)
            } else {
                None
            },
            SourceOpcode::Blt => if p == seq![SignatureArgument::Label] {
                Some(RuntimeOpcode::Blt)
            } else {
                None
            },
            SourceOpcode::And => if p == seq![SignatureArgument::Register, SignatureArgument::Register, SignatureArgument::Literal] {
                Some(RuntimeOpcode::AndLiteral)
            } else if p == seq![SignatureArgument::Register, SignatureArgument::Register, SignatureArgument::Register] {
                Some(RuntimeOpcode::AndRegister)
            } else {
                None
            },
            SourceOpcode::Orr => if p == seq![SignatureArgument::Register, SignatureArgument::Register, SignatureArgument::Literal] {
                Some(RuntimeOpcode::OrrLiteral)
            } else if p == seq![SignatureArgument::Register, SignatureArgument::Register, SignatureArgument::Register] {
                Some(RuntimeOpcode::OrrRegister)
            } else {
                None
            },
            SourceOpcode::Eor => if p == seq![SignatureArgument::Register, SignatureArgument::Register, SignatureArgument::Literal] {
                Some(RuntimeOpcode::EorLiteral)
            } else if p == seq![SignatureArgument::Register, SignatureArgument::Register, SignatureArgument::Register] {
                Some(RuntimeOpcode::EorRegister)
            } else {
                None
            },
            SourceOpcode::Mvn => if p == seq![SignatureArgument::Register, SignatureArgument::Literal] {
                Some(RuntimeOpcode::MvnLiteral)
            } else if p == seq![SignatureArgument::Register, SignatureArgument::Register] {
                Some(RuntimeOpcode::MvnRegister)
            } else {
                None
            },
            SourceOpcode::Lsl => if p == seq![SignatureArgument::Register, SignatureArgument::Register, SignatureArgument::Literal] {
                Some(RuntimeOpcode::LslLiteral)
            } else if p == seq![SignatureArgument::Register, SignatureArgument::Register, SignatureArgument::Register] {
                Some(RuntimeOpcode::LslRegister)
            } else {
                None
            },
            SourceOpcode::Lsr => if p == seq![SignatureArgument::Register, SignatureArgument::Register, SignatureArgument::Literal] {
                Some(RuntimeOpcode::LsrLiteral)
            } else if p == seq![SignatureArgument::Register, SignatureArgument::Register, SignatureArgument::Register] {
                Some(RuntimeOpcode::LsrRegister)
            } else {
                None
            },
            SourceOpcode::Print => if p == seq![SignatureArgument::Register] {
                Some(RuntimeOpcode::PrintRegister)
            } else if p == seq![SignatureArgument::MemoryRef] {
                Some(RuntimeOpcode::PrintMemory)
            } else {
                None
            },
            SourceOpcode::Input => if p == seq![SignatureArgument::Register] {
                Some(RuntimeOpcode::InputRegister)
            } else if p == seq![SignatureArgument::MemoryRef] {
                Some(RuntimeOpcode::InputMemory)
            } else {
                None
            },
            SourceOpcode::Halt => if p.len() == 0 {
                Some(RuntimeOpcode::Halt)
            } else {
                None
            },
    }
}

/// Whether `s` lists every signature of `op` in the instruction set, each
/// with the runtime opcode it selects and nothing else, strictly sorted in
/// combination order.
pub open spec fn lists_signatures(op: SourceOpcode, s: Seq<(RuntimeOpcode, Seq<SignatureArgument>)>) -> bool {
    &&& strictly_sorted(s)
    &&& forall|k: int| 0 <= k < s.len() ==> standard_signature(op, (#[trigger] s[k]).1) == Some(s[k].0)
    &&& forall|q: Seq<SignatureArgument>| #[trigger] standard_signature(op, q) is Some ==> s.contains(
        (standard_signature(op, q).unwrap(), q),
    )
}

/// The signatures of `op` in the instruction set with their runtime opcodes,
/// in combination order.
pub open spec fn signature_listing(op: SourceOpcode) -> Seq<(RuntimeOpcode, Seq<SignatureArgument>)> {
    choose|s: Seq<(RuntimeOpcode, Seq<SignatureArgument>)>| lists_signatures(op, s)
}

/// There is only one such listing.
pub proof fn lemma_signature_listing(op: SourceOpcode, s: Seq<(RuntimeOpcode, Seq<SignatureArgument>)>)
    requires
        lists_signatures(op, s),
    ensures
        signature_listing(op) == s,
{
    let t = signature_listing(op);
    assert(lists_signatures(op, t));
    assert forall|x: (RuntimeOpcode, Seq<SignatureArgument>)| s.contains(x) <==> t.contains(x) by {
        if s.contains(x) {
            let k = choose|k: int| 0 <= k < s.len() && s[k] == x;
            assert(standard_signature(op, s[k].1) is Some);
        }
        if t.contains(x) {
            let k = choose|k: int| 0 <= k < t.len() && t[k] == x;
            assert(standard_signature(op, t[k].1) is Some);
        }
    }
    lemma_sorted_unique(s, t);
}

/// The signature tree of the instruction set.
#[verifier::rlimit(60)]
pub fn signature_tree() -> (tree: SignatureTree)
    ensures
        forall|op: SourceOpcode, p: Seq<SignatureArgument>| #[trigger] tree.lookup(op, p) == standard_signature(op, p),
{
    let mut tree = SignatureTree::new();
    let args: [SignatureArgument; 0] = [];
    assert(args@ =~= Seq::<SignatureArgument>::empty());
    tree.add_signature(SourceOpcode::Nop, &args, RuntimeOpcode::Nop);
    assert(tree.lookup(SourceOpcode::Nop, Seq::empty()) == Some(RuntimeOpcode::Nop));
    let args = [SignatureArgument::Register, SignatureArgument::MemoryRef];
    assert(args@ == seq![SignatureArgument::Register, SignatureArgument::MemoryRef]);
    tree.add_signature(SourceOpcode::Ldr, &args, RuntimeOpcode::Ldr);
    let args = [SignatureArgument::Register, SignatureArgument::MemoryRef];
    assert(args@ == seq![SignatureArgument::Register, SignatureArgument::MemoryRef]);
    tree.add_signature(SourceOpcode::Str, &args, RuntimeOpcode::Str);
    let args = [SignatureArgument::Register, SignatureArgument::Register, SignatureArgument::Literal];
    assert(args@ == seq![SignatureArgument::Register, SignatureArgument::Register, SignatureArgument::Literal]);
    tree.add_signature(SourceOpcode::Add, &args, RuntimeOpcode::AddLiteral);
    let args = [SignatureArgument::Register, SignatureArgument::Register, SignatureArgument::Register];
    assert(args@ == seq![SignatureArgument::Register, SignatureArgument::Register, SignatureArgument::Register]);
    tree.add_signature(SourceOpcode::Add, &args, RuntimeOpcode::AddRegister);
    let args = [SignatureArgument::Register, SignatureArgument::Register, SignatureArgument::Literal];
    assert(args@ == seq![SignatureArgument::Register, SignatureArgument::Register, SignatureArgument::Literal]);
    tree.add_signature(SourceOpcode::Sub, &args, RuntimeOpcode::SubLiteral);
    let args = [SignatureArgument::Register, SignatureArgument::Register, SignatureArgument::Register];
    assert(args@ == seq![SignatureArgument::Register, SignatureArgument::Register, SignatureArgument::Register]);
    tree.add_signature(SourceOpcode::Sub, &args, RuntimeOpcode::SubRegister);
    let args = [SignatureArgument::Register, SignatureArgument::Literal];
    assert(args@ == seq![SignatureArgument::Register, SignatureArgument::Literal]);
    tree.add_signature(SourceOpcode::Mov, &args, RuntimeOpcode::MovLiteral);
    let args = [SignatureArgument::Register, SignatureArgument::Register];
    assert(args@ == seq![SignatureArgument::Register, SignatureArgument::Register]);
    tree.add_signature(SourceOpcode::Mov, &args, RuntimeOpcode::MovRegister);
    let args = [SignatureArgument::Register, SignatureArgument::Literal];
    assert(args@ == seq![SignatureArgument::Register, SignatureArgument::Literal]);
    tree.add_signature(SourceOpcode::Cmp, &args, RuntimeOpcode::CmpLiteral);
    let args = [SignatureArgument::Register, SignatureArgument::Register];
    assert(args@ == seq![SignatureArgument::Register, SignatureArgument::Register]);
    tree.add_signature(SourceOpcode::Cmp, &args, RuntimeOpcode::CmpRegister);
    let args = [SignatureArgument::Label];
    assert(args@ == seq![SignatureArgument::Label]);
    tree.add_signature(SourceOpcode::B, &args, RuntimeOpcode::B);
    let args = [SignatureArgument::Label];
    assert(args@ == seq![SignatureArgument::Label]);
    tree.add_signature(SourceOpcode::Beq, &args, RuntimeOpcode::Beq);
    let args = [SignatureArgument::Label];
    assert(args@ == seq![SignatureArgument::Label]);
    tree.add_signature(SourceOpcode::Bne, &args, RuntimeOpcode::Bne);
    let args = [SignatureArgument::Label];
    assert(args@ == seq![SignatureArgument::Label]);
    tree.add_signature(SourceOpcode::Bgt, &args, RuntimeOpcode::Bgt);
    let args = [SignatureArgument::Label];
    assert(args@ == seq![SignatureArgument::Label]);
    tree.add_signature(SourceOpcode::Blt, &args, RuntimeOpcode::Blt);
    let args = [SignatureArgument::Register, SignatureArgument::Register, SignatureArgument::Literal];
    assert(args@ == seq![SignatureArgument::Register, SignatureArgument::Register, SignatureArgument::Literal]);
    tree.add_signature(SourceOpcode::And, &args, RuntimeOpcode::AndLiteral);
    let args = [SignatureArgument::Register, SignatureArgument::Register, SignatureArgument::Register];
    assert(args@ == seq![SignatureArgument::Register, SignatureArgument::Register, SignatureArgument::Register]);
    tree.add_signature(SourceOpcode::And, &args, RuntimeOpcode::AndRegister);
    let args = [SignatureArgument::Register, SignatureArgument::Register, SignatureArgument::Literal];
    assert(args@ == seq![SignatureArgument::Register, SignatureArgument::Register, SignatureArgument::Literal]);
    tree.add_signature(SourceOpcode::Orr, &args, RuntimeOpcode::OrrLiteral);
    let args = [SignatureArgument::Register, SignatureArgument::Register, SignatureArgument::Register];
    assert(args@ == seq![SignatureArgument::Register, SignatureArgument::Register, SignatureArgument::Register]);
    tree.add_signature(SourceOpcode::Orr, &args, RuntimeOpcode::OrrRegister);
    let args = [SignatureArgument::Register, SignatureArgument::Register, SignatureArgument::Literal];
    assert(args@ == seq![SignatureArgument::Register, SignatureArgument::Register, SignatureArgument::Literal]);
    tree.add_signature(SourceOpcode::Eor, &args, RuntimeOpcode::EorLiteral);
    let args = [SignatureArgument::Register, SignatureArgument::Register, SignatureArgument::Register];
    assert(args@ == seq![SignatureArgument::Register, SignatureArgument::Register, SignatureArgument::Register]);
    tree.add_signature(SourceOpcode::Eor, &args, RuntimeOpcode::EorRegister);
    let args = [SignatureArgument::Register, SignatureArgument::Literal];
    assert(args@ == seq![SignatureArgument::Register, SignatureArgument::Literal]);
    tree.add_signature(SourceOpcode::Mvn, &args, RuntimeOpcode::MvnLiteral);
    let args = [SignatureArgument::Register, SignatureArgument::Register];
    assert(args@ == seq![SignatureArgument::Register, SignatureArgument::Register]);
    tree.add_signature(SourceOpcode::Mvn, &args, RuntimeOpcode::MvnRegister);
    let args = [SignatureArgument::Register, SignatureArgument::Register, SignatureArgument::Literal];
    assert(args@ == seq![SignatureArgument::Register, SignatureArgument::Register, SignatureArgument::Literal]);
    tree.add_signature(SourceOpcode::Lsl, &args, RuntimeOpcode::LslLiteral);
    let args = [SignatureArgument::Register, SignatureArgument::Register, SignatureArgument::Register];
    assert(args@ == seq![SignatureArgument::Register, SignatureArgument::Register, SignatureArgument::Register]);
    tree.add_signature(SourceOpcode::Lsl, &args, RuntimeOpcode::LslRegister);
    let args = [SignatureArgument::Register, SignatureArgument::Register, SignatureArgument::Literal];
    assert(args@ == seq![SignatureArgument::Register, SignatureArgument::Register, SignatureArgument::Literal]);
    tree.add_signature(SourceOpcode::Lsr, &args, RuntimeOpcode::LsrLiteral);
    let args = [SignatureArgument::Register, SignatureArgument::Register, SignatureArgument::Register];
    assert(args@ == seq![SignatureArgument::Register, SignatureArgument::Register, SignatureArgument::Register]);
    tree.add_signature(SourceOpcode::Lsr, &args, RuntimeOpcode::LsrRegister);
    let args: [SignatureArgument; 0] = [];
    assert(args@ =~= Seq::<SignatureArgument>::empty());
    tree.add_signature(SourceOpcode::Halt, &args, RuntimeOpcode::Halt);
    let args = [SignatureArgument::Register];
    assert(args@ == seq![SignatureArgument::Register]);
    tree.add_signature(SourceOpcode::Print, &args, RuntimeOpcode::PrintRegister);
    let args = [SignatureArgument::MemoryRef];
    assert(args@ == seq![SignatureArgument::MemoryRef]);
    tree.add_signature(SourceOpcode::Print, &args, RuntimeOpcode::PrintMemory);
    let args = [SignatureArgument::Register];
    assert(args@ == seq![SignatureArgument::Register]);
    tree.add_signature(SourceOpcode::Input, &args, RuntimeOpcode::InputRegister);
    let args = [SignatureArgument::MemoryRef];
    assert(args@ == seq![SignatureArgument::MemoryRef]);
    tree.add_signature(SourceOpcode::Input, &args, RuntimeOpcode::InputMemory);
    assert forall|op: SourceOpcode, p: Seq<SignatureArgument>| #[trigger] tree.lookup(op, p) == standard_signature(op, p) by {
        match op {
            SourceOpcode::Nop => {},
            SourceOpcode::Ldr => {},
            SourceOpcode::Str => {},
            SourceOpcode::Add => {},
            SourceOpcode::Sub => {},
            SourceOpcode::Mov => {},
            SourceOpcode::Cmp => {},
            SourceOpcode::B => {},
            SourceOpcode::Beq => {},
            SourceOpcode::Bne => {},
            SourceOpcode::Bgt => {},
            SourceOpcode::Blt => {},
            SourceOpcode::And => {},
            SourceOpcode::Orr => {},
            SourceOpcode::Eor => {},
            SourceOpcode::Mvn => {},
            SourceOpcode::Lsl => {},
            SourceOpcode::Lsr => {},
            SourceOpcode::Print => {},
            SourceOpcode::Input => {},
            SourceOpcode::Halt => {},
        }
    }
    tree
}

} // verus!
