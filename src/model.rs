use vstd::prelude::*;
use vstd::string::*;
use crate::bits::{valid_width, MAX_WIDTH};
use crate::expr::{reads_within, Expr};

verus! {

/// The direction of a signal, seen from the component that owns it.
#[derive(Clone, Copy, Debug, PartialEq, Eq, Structural)]
pub enum Direction {
    In,
    Out,
    InOut,
    Local,
}

/// A signal: a fixed-width bit vector owned by one component.
#[derive(Debug)]
pub struct SignalDecl {
    pub name: String,
    pub dir: Direction,
    pub width: u32,
    pub owner: usize,
}

/// Hand-written target text for a primitive component.
#[derive(Debug)]
pub struct Wrapper {
    pub code: String,
    pub cores: String,
}

/// How a component is rendered: from its parts, or by text of its own.
#[derive(Debug)]
pub enum Behavior {
    Composite,
    Primitive(Wrapper),
}

/// A node of the ownership tree. The root has no parent; every other
/// component's parent comes before it.
#[derive(Debug)]
pub struct Component {
    pub name: String,
    pub parent: Option<usize>,
    pub behavior: Behavior,
}

/// A combinational assignment `target.next = expr`, made by `owner`.
#[derive(Debug)]
pub struct Assign {
    pub owner: usize,
    pub target: usize,
    pub expr: Expr,
}

/// A state-holding element: on each rising edge of `clock`, `q` takes the
/// value that `d` had just before the edge.
#[derive(Clone, Copy, Debug, PartialEq, Eq, Structural)]
pub struct Register {
    pub owner: usize,
    pub clock: usize,
    pub d: usize,
    pub q: usize,
}

/// The structural model: an arena of components and signals, with the
/// combinational connection table (assignments, including those that links
/// and joins produce) and the registers.
#[derive(Debug)]
pub struct Model {
    pub components: Vec<Component>,
    pub signals: Vec<SignalDecl>,
    pub assigns: Vec<Assign>,
    pub registers: Vec<Register>,
}

/// The assignment that passes `src` through to `dst` unchanged.
pub open spec fn pass(owner: usize, dst: usize, src: usize) -> Assign {
    Assign { owner, target: dst, expr: Expr::Sig(src) }
}

impl Model {
    pub open spec fn width_of(&self, s: int) -> nat {
        self.signals@[s].width as nat
    }

    pub open spec fn dir_of(&self, s: int) -> Direction {
        self.signals@[s].dir
    }

    pub open spec fn component_ok(&self, c: int) -> bool {
        &&& c == 0 ==> self.components@[c].parent is None
        &&& c > 0 ==> (self.components@[c].parent matches Some(p) && p < c)
    }

    pub open spec fn assign_ok(&self, a: Assign) -> bool {
        &&& a.owner < self.components@.len()
        &&& a.target < self.signals@.len()
        &&& reads_within(a.expr, self.signals@.len())
    }

    pub open spec fn register_ok(&self, r: Register) -> bool {
        &&& r.owner < self.components@.len()
        &&& r.clock < self.signals@.len()
        &&& r.d < self.signals@.len()
        &&& r.q < self.signals@.len()
    }

    pub open spec fn signal_ok(&self, d: SignalDecl) -> bool {
        &&& d.owner < self.components@.len()
        &&& valid_width(d.width as nat)
    }

    /// Well-formedness: a tree of components rooted at index 0, and every
    /// reference within range.
    pub open spec fn wf(&self) -> bool {
        &&& self.components@.len() >= 1
        &&& forall|c: int| 0 <= c < self.components@.len() ==> #[trigger] self.component_ok(c)
        &&& forall|s: int| 0 <= s < self.signals@.len() ==> self.signal_ok(#[trigger] self.signals@[s])
        &&& forall|k: int| 0 <= k < self.assigns@.len() ==> self.assign_ok(#[trigger] self.assigns@[k])
        &&& forall|k: int| 0 <= k < self.registers@.len() ==> self.register_ok(#[trigger] self.registers@[k])
    }

    /// The assignments that linking `outer` to `inner` adds: each signal that
    /// the inner side produces (`Out`) drives its outer partner; every other
    /// signal is driven from the outer side.
    pub open spec fn link_assigns(&self, owner: usize, outer: Seq<usize>, inner: Seq<usize>) -> Seq<Assign> {
        Seq::new(
            inner.len(),
            |k: int|
                if self.dir_of(inner[k] as int) == Direction::Out {
                    pass(owner, outer[k], inner[k])
                } else {
                    pass(owner, inner[k], outer[k])
                },
        )
    }

    /// The assignments that joining `a` and `b` adds: each signal that `a`
    /// produces (`Out`) drives its partner in `b`; every other signal of `a`
    /// is driven by its partner.
    pub open spec fn join_assigns(&self, owner: usize, a: Seq<usize>, b: Seq<usize>) -> Seq<Assign> {
        Seq::new(
            a.len(),
            |k: int|
                if self.dir_of(a[k] as int) == Direction::Out {
                    pass(owner, b[k], a[k])
                } else {
                    pass(owner, a[k], b[k])
                },
        )
    }

    proof fn lemma_wf_same_tables(&self, o: &Model)
        requires
            o.wf(),
            self.components@ == o.components@,
            self.signals@ == o.signals@,
        ensures
            forall|c: int| 0 <= c < self.components@.len() ==> #[trigger] self.component_ok(c),
            forall|s: int| 0 <= s < self.signals@.len() ==> self.signal_ok(#[trigger] self.signals@[s]),
    {
        assert forall|c: int| 0 <= c < self.components@.len() implies #[trigger] self.component_ok(c) by {
            assert(o.component_ok(c));
        }
        assert forall|x: int| 0 <= x < self.signals@.len() implies self.signal_ok(#[trigger] self.signals@[x]) by {
            assert(o.signal_ok(o.signals@[x]));
        }
    }

    /// Signal `s` exists, belongs to `owner`, and has this name, direction and width.
    pub open spec fn declares(&self, s: int, owner: usize, name: Seq<char>, dir: Direction, width: nat) -> bool {
        &&& 0 <= s < self.signals@.len()
        &&& self.signals@[s].owner == owner
        &&& self.signals@[s].name@ == name
        &&& self.signals@[s].dir == dir
        &&& self.signals@[s].width == width
    }

    /// `self` is `o` with more components, signals, assignments and registers
    /// appended, and nothing that `o` had changed.
    pub open spec fn extends(&self, o: &Model) -> bool {
        &&& o.components@.len() <= self.components@.len()
        &&& o.signals@.len() <= self.signals@.len()
        &&& o.assigns@.len() <= self.assigns@.len()
        &&& o.registers@.len() <= self.registers@.len()
        &&& self.components@.take(o.components@.len() as int) == o.components@
        &&& self.signals@.take(o.signals@.len() as int) == o.signals@
        &&& self.assigns@.take(o.assigns@.len() as int) == o.assigns@
        &&& self.registers@.take(o.registers@.len() as int) == o.registers@
    }

    /// Linking `a` to `b` and joining `a` with `b` wire the same connections
    /// when `a` produces every signal (`Out`) and `b` consumes it (`In`): in
    /// both, each signal of `a` drives its partner in `b`.
    pub proof fn lemma_link_join_equivalent(&self, owner: usize, a: Seq<usize>, b: Seq<usize>)
        requires
            a.len() == b.len(),
            forall|k: int| 0 <= k < a.len() ==> self.dir_of(#[trigger] a[k] as int) == Direction::Out,
            forall|k: int| 0 <= k < b.len() ==> self.dir_of(#[trigger] b[k] as int) == Direction::In,
        ensures
            self.link_assigns(owner, a, b) == self.join_assigns(owner, a, b),
            forall|k: int| 0 <= k < a.len() ==> #[trigger] self.link_assigns(owner, a, b)[k] == pass(owner, b[k], a[k]),
    {
        assert(self.link_assigns(owner, a, b) =~= self.join_assigns(owner, a, b));
    }

    /// The dotted path of component `c` from the root.
    pub open spec fn component_path(&self, c: int) -> Seq<char>
        decreases c,
    {
        match self.components@[c].parent {
            Some(p) => if 0 < c && p < c {
                self.component_path(p as int) + "."@ + self.components@[c].name@
            } else {
                self.components@[c].name@
            },
            None => self.components@[c].name@,
        }
    }

    /// The dotted path of signal `s`: its owner's path, then its name.
    pub open spec fn signal_path(&self, s: int) -> Seq<char> {
        self.component_path(self.signals@[s].owner as int) + "."@ + self.signals@[s].name@
    }

    fn push_component_path(&self, c: usize, out: &mut String)
        requires
            self.wf(),
            c < self.components@.len(),
        ensures
            final(out)@ == old(out)@ + self.component_path(c as int),
        decreases c,
    {
        proof {
            assert(self.component_ok(c as int));
        }
        match self.components[c].parent {
            Some(p) => {
                if c > 0 {
                    self.push_component_path(p, out);
                    out.append(".");
                }
            },
            None => {},
        }
        out.append(self.components[c].name.as_str());
        proof {
            assert(final(out)@ =~= old(out)@ + self.component_path(c as int));
        }
    }

    /// The dotted path of signal `s`, for reports that name it.
    pub fn path_of(&self, s: usize) -> (r: String)
        requires
            self.wf(),
            s < self.signals@.len(),
        ensures
            r@ == self.signal_path(s as int),
    {
        proof {
            assert(self.signal_ok(self.signals@[s as int]));
        }
        let mut out = String::new();
        self.push_component_path(self.signals[s].owner, &mut out);
        out.append(".");
        out.append(self.signals[s].name.as_str());
        proof {
            assert(out@ =~= self.signal_path(s as int));
        }
        out
    }

    /// A model with a root component and nothing else.
    pub fn new(root: String) -> (r: Model)
        ensures
            r.wf(),
            r.components@.len() == 1,
            r.components@[0].name == root,
            r.components@[0].behavior is Composite,
            r.signals@.len() == 0,
            r.assigns@.len() == 0,
            r.registers@.len() == 0,
    {
        let mut components: Vec<Component> = Vec::new();
        components.push(Component { name: root, parent: None, behavior: Behavior::Composite });
        Model { components, signals: Vec::new(), assigns: Vec::new(), registers: Vec::new() }
    }

    /// Adds a component under `parent` and returns its index.
    pub fn add_component(&mut self, parent: usize, name: String, behavior: Behavior) -> (r: usize)
        requires
            old(self).wf(),
            parent < old(self).components@.len(),
        ensures
            final(self).wf(),
            r == old(self).components@.len(),
            final(self).components@ == old(self).components@.push(
                Component { name, parent: Some(parent), behavior },
            ),
            final(self).signals@ == old(self).signals@,
            final(self).assigns@ == old(self).assigns@,
            final(self).registers@ == old(self).registers@,
    {
        let r = self.components.len();
        self.components.push(Component { name, parent: Some(parent), behavior });
        proof {
            assert forall|c: int| 0 <= c < self.components@.len() implies #[trigger] self.component_ok(c) by {
                if c < r {
                    assert(old(self).component_ok(c));
                }
            }
            assert forall|x: int| 0 <= x < self.signals@.len() implies self.signal_ok(#[trigger] self.signals@[x]) by {
                assert(old(self).signal_ok(old(self).signals@[x]));
            }
            assert forall|k: int| 0 <= k < self.assigns@.len() implies self.assign_ok(#[trigger] self.assigns@[k]) by {
                assert(old(self).assign_ok(old(self).assigns@[k]));
            }
            assert forall|k: int| 0 <= k < self.registers@.len() implies self.register_ok(#[trigger] self.registers@[k]) by {
                assert(old(self).register_ok(old(self).registers@[k]));
            }
        }
        r
    }

    /// Adds a signal owned by `owner` and returns its index.
    pub fn add_signal(&mut self, owner: usize, name: String, dir: Direction, width: u32) -> (r: usize)
        requires
            old(self).wf(),
            owner < old(self).components@.len(),
            1 <= width <= MAX_WIDTH,
        ensures
            final(self).wf(),
            r == old(self).signals@.len(),
            final(self).signals@ == old(self).signals@.push(SignalDecl { name, dir, width, owner }),
            final(self).components@ == old(self).components@,
            final(self).assigns@ == old(self).assigns@,
            final(self).registers@ == old(self).registers@,
    {
        let r = self.signals.len();
        self.signals.push(SignalDecl { name, dir, width, owner });
        proof {
            assert forall|k: int| 0 <= k < self.assigns@.len() implies self.assign_ok(#[trigger] self.assigns@[k]) by {
                assert(old(self).assign_ok(old(self).assigns@[k]));
                crate::expr::lemma_reads_within_grows(self.assigns@[k].expr, old(self).signals@.len(), self.signals@.len());
            }
            assert forall|x: int| 0 <= x < self.signals@.len() implies self.signal_ok(#[trigger] self.signals@[x]) by {
                if x < r {
                    assert(old(self).signal_ok(old(self).signals@[x]));
                }
            }
            assert forall|k: int| 0 <= k < self.registers@.len() implies self.register_ok(#[trigger] self.registers@[k]) by {
                assert(old(self).register_ok(old(self).registers@[k]));
            }
            assert forall|c: int| 0 <= c < self.components@.len() implies #[trigger] self.component_ok(c) by {
                assert(old(self).component_ok(c));
            }
        }
        r
    }

    /// Adds the assignment `target.next = expr`, made by `owner`.
    pub fn assign(&mut self, owner: usize, target: usize, expr: Expr)
        requires
            old(self).wf(),
            old(self).assign_ok(Assign { owner, target, expr }),
        ensures
            final(self).wf(),
            final(self).assigns@ == old(self).assigns@.push(Assign { owner, target, expr }),
            final(self).components@ == old(self).components@,
            final(self).signals@ == old(self).signals@,
            final(self).registers@ == old(self).registers@,
    {
        self.assigns.push(Assign { owner, target, expr });
        proof {
            assert forall|k: int| 0 <= k < self.assigns@.len() implies self.assign_ok(#[trigger] self.assigns@[k]) by {
                if k < old(self).assigns@.len() {
                    assert(old(self).assign_ok(old(self).assigns@[k]));
                }
            }
            self.lemma_wf_same_tables(old(self));
        }
    }

    /// Adds a register, made by `owner`, that loads `d` into `q` on each rising
    /// edge of `clock`.
    pub fn add_register(&mut self, owner: usize, clock: usize, d: usize, q: usize)
        requires
            old(self).wf(),
            old(self).register_ok(Register { owner, clock, d, q }),
        ensures
            final(self).wf(),
            final(self).registers@ == old(self).registers@.push(Register { owner, clock, d, q }),
            final(self).components@ == old(self).components@,
            final(self).signals@ == old(self).signals@,
            final(self).assigns@ == old(self).assigns@,
    {
        self.registers.push(Register { owner, clock, d, q });
        proof {
            assert forall|k: int| 0 <= k < self.registers@.len() implies self.register_ok(#[trigger] self.registers@[k]) by {
                if k < old(self).registers@.len() {
                    assert(old(self).register_ok(old(self).registers@[k]));
                }
            }
            self.lemma_wf_same_tables(old(self));
        }
    }

    /// Links the interface `outer` to `inner`, signal by signal: values pass
    /// through unchanged, in the direction that the inner side declares.
    pub fn link(&mut self, owner: usize, outer: &Vec<usize>, inner: &Vec<usize>)
        requires
            old(self).wf(),
            owner < old(self).components@.len(),
            outer@.len() == inner@.len(),
            forall|k: int| 0 <= k < outer@.len() ==> outer@[k] < old(self).signals@.len(),
            forall|k: int| 0 <= k < inner@.len() ==> inner@[k] < old(self).signals@.len(),
        ensures
            final(self).wf(),
            final(self).assigns@ == old(self).assigns@ + old(self).link_assigns(owner, outer@, inner@),
            final(self).components@ == old(self).components@,
            final(self).signals@ == old(self).signals@,
            final(self).registers@ == old(self).registers@,
    {
        let ghost start = self.assigns@;
        let mut k: usize = 0;
        while k < inner.len()
            invariant
                self.wf(),
                k <= inner@.len(),
                outer@.len() == inner@.len(),
                owner < self.components@.len(),
                forall|j: int| 0 <= j < outer@.len() ==> outer@[j] < self.signals@.len(),
                forall|j: int| 0 <= j < inner@.len() ==> inner@[j] < self.signals@.len(),
                self.components@ == old(self).components@,
                self.signals@ == old(self).signals@,
                self.registers@ == old(self).registers@,
                start == old(self).assigns@,
                self.assigns@ == start + old(self).link_assigns(owner, outer@, inner@).take(k as int),
            decreases inner@.len() - k,
        {
            let i = inner[k];
            let o = outer[k];
            if self.signals[i].dir == Direction::Out {
                self.assign(owner, o, Expr::Sig(i));
            } else {
                self.assign(owner, i, Expr::Sig(o));
            }
            k = k + 1;
            proof {
                assert(self.assigns@ =~= start + old(self).link_assigns(owner, outer@, inner@).take(k as int));
            }
        }
        proof {
            assert(old(self).link_assigns(owner, outer@, inner@).take(k as int) =~= old(self).link_assigns(owner, outer@, inner@));
        }
    }

    /// Joins the interfaces `a` and `b`, signal by signal: each signal is
    /// driven by whichever side declares itself its producer.
    pub fn join(&mut self, owner: usize, a: &Vec<usize>, b: &Vec<usize>)
        requires
            old(self).wf(),
            owner < old(self).components@.len(),
            a@.len() == b@.len(),
            forall|k: int| 0 <= k < a@.len() ==> a@[k] < old(self).signals@.len(),
            forall|k: int| 0 <= k < b@.len() ==> b@[k] < old(self).signals@.len(),
        ensures
            final(self).wf(),
            final(self).assigns@ == old(self).assigns@ + old(self).join_assigns(owner, a@, b@),
            final(self).components@ == old(self).components@,
            final(self).signals@ == old(self).signals@,
            final(self).registers@ == old(self).registers@,
    {
        let ghost start = self.assigns@;
        let mut k: usize = 0;
        while k < a.len()
            invariant
                self.wf(),
                k <= a@.len(),
                a@.len() == b@.len(),
                owner < self.components@.len(),
                forall|j: int| 0 <= j < a@.len() ==> a@[j] < self.signals@.len(),
                forall|j: int| 0 <= j < b@.len() ==> b@[j] < self.signals@.len(),
                self.components@ == old(self).components@,
                self.signals@ == old(self).signals@,
                self.registers@ == old(self).registers@,
                start == old(self).assigns@,
                self.assigns@ == start + old(self).join_assigns(owner, a@, b@).take(k as int),
            decreases a@.len() - k,
        {
            let x = a[k];
            let y = b[k];
            if self.signals[x].dir == Direction::Out {
                self.assign(owner, y, Expr::Sig(x));
            } else {
                self.assign(owner, x, Expr::Sig(y));
            }
            k = k + 1;
            proof {
                assert(self.assigns@ =~= start + old(self).join_assigns(owner, a@, b@).take(k as int));
            }
        }
        proof {
            assert(old(self).join_assigns(owner, a@, b@).take(k as int) =~= old(self).join_assigns(owner, a@, b@));
        }
    }
}

} // verus!
