//! Walking a tree and the trees below it, entry by entry: the decisions of
//! `load_tree_recursive`. Loading each object is left to the caller, which
//! answers every `Load` step with the object it read.
use crate::error::{ErrorKind, GitError};
use crate::objects::object::{Object, ObjectType, ObjectView};
use crate::objects::tree::{entry_views, mode_object_type, mode_of, EntryView, Mode, Tree, TreeEntry};
use vstd::prelude::*;

verus! {

/// What the walk needs next.
pub enum WalkStep {
    /// The tree with this hash must be loaded and handed to [`TreeWalk::visit`].
    Load(String),
    /// The walk is over; the tree holds every entry that is not a tree, in order.
    Done(Tree),
    /// An entry with this mode names no kind of entry (the walk cannot go on).
    UnknownMode(u32),
}

/// The mathematical model of a [`WalkStep`].
pub enum StepView {
    Load(Seq<char>),
    Done(Seq<EntryView>),
    UnknownMode(u32),
}

impl View for WalkStep {
    type V = StepView;

    open spec fn view(&self) -> StepView {
        match self {
            WalkStep::Load(h) => StepView::Load(h@),
            WalkStep::Done(t) => StepView::Done(t@),
            WalkStep::UnknownMode(m) => StepView::UnknownMode(*m),
        }
    }
}

/// The entries of one tree that the walk is going through.
struct Frame {
    entries: Vec<TreeEntry>,
    next: usize,
}

/// A walk through a tree and its subtrees, depth first.
pub struct TreeWalk {
    frames: Vec<Frame>,
    output: Vec<TreeEntry>,
}

/// How many entries the frames still hold.
pub open spec fn pending_count(fs: Seq<Seq<EntryView>>) -> nat
    decreases fs.len(),
{
    if fs.len() == 0 {
        0
    } else {
        pending_count(fs.drop_last()) + fs.last().len()
    }
}

/// One move of the walk, from the entries gathered so far and the entries
/// still pending in each open tree (the innermost last): the next pending
/// entry of the innermost tree is taken; a blob, symlink or submodule entry
/// is gathered and the walk goes on; a tree entry asks for that tree to be
/// loaded; an unknown mode stops the walk. An exhausted tree is closed. When
/// no tree is open the walk is done with what it gathered. Gives the gathered
/// entries, the pending entries and the step.
pub open spec fn advance_spec(out: Seq<EntryView>, fs: Seq<Seq<EntryView>>) -> (
    Seq<EntryView>,
    Seq<Seq<EntryView>>,
    StepView,
)
    decreases pending_count(fs), fs.len(),
{
    if fs.len() == 0 {
        (Seq::empty(), fs, StepView::Done(out))
    } else {
        let top = fs.last();
        let rest = fs.drop_last();
        if top.len() == 0 {
            advance_spec(out, rest)
        } else {
            let e = top[0];
            let fs2 = rest.push(top.drop_first());
            proof {
                assert(fs2.drop_last() =~= rest);
            }
            match mode_of(e.mode) {
                None => (out, fs2, StepView::UnknownMode(e.mode)),
                Some(m) => if mode_object_type(m) == ObjectType::Tree {
                    (out, fs2, StepView::Load(e.hash))
                } else {
                    advance_spec(out.push(e), fs2)
                },
            }
        }
    }
}

impl TreeWalk {
    /// The frames are in order.
    pub closed spec fn wf(&self) -> bool {
        forall|i: int|
            0 <= i < self.frames@.len() ==> #[trigger] self.frames@[i].next
                <= self.frames@[i].entries@.len()
    }

    /// The entries gathered so far.
    pub closed spec fn gathered(&self) -> Seq<EntryView> {
        entry_views(self.output@)
    }

    /// The entries still pending in each open tree, the innermost last.
    pub closed spec fn pending(&self) -> Seq<Seq<EntryView>> {
        self.frames@.map_values(|f: Frame| entry_views(f.entries@).skip(f.next as int))
    }

    /// A walk that has gathered nothing and has no tree open.
    pub fn new() -> (res: Self)
        ensures
            res.wf(),
            res.gathered() == Seq::<EntryView>::empty(),
            res.pending() == Seq::<Seq<EntryView>>::empty(),
    {
        let res = TreeWalk { frames: Vec::new(), output: Vec::new() };
        assert(res.gathered() =~= Seq::<EntryView>::empty());
        assert(res.pending() =~= Seq::<Seq<EntryView>>::empty());
        res
    }

    /// Hands the walk the object that was loaded for its last `Load` step (or
    /// the root object): a tree is opened and the walk moves on; anything
    /// else is an error.
    pub fn visit(&mut self, obj: Object) -> (res: Result<WalkStep, GitError>)
        requires
            old(self).wf(),
        ensures
            final(self).wf(),
            match obj@ {
                ObjectView::Tree { entries } => {
                    let next = advance_spec(old(self).gathered(), old(self).pending().push(entries));
                    &&& res matches Ok(step) && step@ == next.2
                    &&& final(self).gathered() == next.0
                    &&& final(self).pending() == next.1
                },
                _ => {
                    &&& res matches Err(e) && e@ == ErrorKind::NotATree
                    &&& final(self).gathered() == old(self).gathered()
                    &&& final(self).pending() == old(self).pending()
                },
            },
    {
        match obj {
            Object::Tree(tree) => {
                let ghost es = tree@;
                self.frames.push(Frame { entries: tree.entries, next: 0 });
                proof {
                    assert(es.skip(0) =~= es);
                    assert(self.pending() =~= old(self).pending().push(es));
                }
                Ok(self.advance())
            },
            _ => Err(GitError::NotATree),
        }
    }

    /// Moves the walk on to its next step.
    fn advance(&mut self) -> (step: WalkStep)
        requires
            old(self).wf(),
        ensures
            final(self).wf(),
            ({
                let next = advance_spec(old(self).gathered(), old(self).pending());
                &&& step@ == next.2
                &&& final(self).gathered() == next.0
                &&& final(self).pending() == next.1
            }),
    {
        loop
            invariant
                self.wf(),
                advance_spec(self.gathered(), self.pending()) == advance_spec(
                    old(self).gathered(),
                    old(self).pending(),
                ),
            decreases pending_count(self.pending()), self.pending().len(),
        {
            let ghost before = self.pending();
            match self.frames.pop() {
                None => {
                    let mut out: Vec<TreeEntry> = Vec::new();
                    std::mem::swap(&mut out, &mut self.output);
                    proof {
                        assert(self.gathered() =~= Seq::<EntryView>::empty());
                    }
                    return WalkStep::Done(Tree { entries: out });
                },
                Some(f) => {
                    let mut f = f;
                    proof {
                        assert(self.pending() =~= before.drop_last());
                        assert(f.next <= f.entries@.len());
                    }
                    if f.next >= f.entries.len() {
                        assert(before.last().len() == 0);
                        continue;
                    }
                    let i = f.next;
                    f.next = i + 1;
                    let ghost top = before.last();
                    assert(top[0] == f.entries@[i as int]@);
                    let mode = f.entries[i].mode;
                    match Mode::from_u32(mode) {
                        Err(_) => {
                            self.frames.push(f);
                            proof {
                                assert(entry_views(f.entries@).skip(f.next as int) =~= top.drop_first());
                                assert(self.pending() =~= before.drop_last().push(top.drop_first()));
                            }
                            return WalkStep::UnknownMode(mode);
                        },
                        Ok(m) => {
                            if m.object_type() == ObjectType::Tree {
                                let h = f.entries[i].hash.clone();
                                self.frames.push(f);
                                proof {
                                    assert(entry_views(f.entries@).skip(f.next as int) =~= top.drop_first());
                                    assert(self.pending() =~= before.drop_last().push(top.drop_first()));
                                }
                                return WalkStep::Load(h);
                            } else {
                                let d = f.entries[i].duplicate();
                                let ghost old_out = self.gathered();
                                self.output.push(d);
                                self.frames.push(f);
                                proof {
                                    assert(entry_views(f.entries@).skip(f.next as int) =~= top.drop_first());
                                    assert(self.pending() =~= before.drop_last().push(top.drop_first()));
                                    assert(self.gathered() =~= old_out.push(top[0]));
                                    let fs2 = before.drop_last().push(top.drop_first());
                                    assert(fs2.drop_last() =~= before.drop_last());
                                }
                            }
                        },
                    }
                },
            }
        }
    }
}

/// The entries of `es` with every tree entry replaced, in place, by the
/// expansion of the tree stored under its hash in `trees`, subtrees nested at
/// most `fuel` deep: what `load_tree_recursive` returns when nothing goes
/// wrong. `None` when an entry's mode names no kind of entry, a subtree is
/// not in `trees`, or the nesting runs deeper than `fuel`.
pub open spec fn expand(trees: Map<Seq<char>, Seq<EntryView>>, es: Seq<EntryView>, fuel: nat) -> Option<
    Seq<EntryView>,
>
    decreases fuel, es.len(),
{
    if es.len() == 0 {
        Some(Seq::empty())
    } else {
        let e = es[0];
        match mode_of(e.mode) {
            None => None,
            Some(m) => if mode_object_type(m) == ObjectType::Tree {
                if fuel == 0 || !trees.contains_key(e.hash) {
                    None
                } else {
                    match expand(trees, trees[e.hash], (fuel - 1) as nat) {
                        Some(a) => match expand(trees, es.drop_first(), fuel) {
                            Some(b) => Some(a + b),
                            None => None,
                        },
                        None => None,
                    }
                }
            } else {
                match expand(trees, es.drop_first(), fuel) {
                    Some(b) => Some(seq![e] + b),
                    None => None,
                }
            },
        }
    }
}

/// Where the walk ends when, from the gathered entries `out` and the pending
/// entries `fs`, it moves on and every `Load(h)` step is answered by visiting
/// the tree stored under `h` in `trees`, at most `n` times: `Some` of the
/// entries of its `Done` step; `None` when it stops on an unknown mode, on a
/// hash that `trees` lacks, or after `n` loads.
pub open spec fn drive(
    out: Seq<EntryView>,
    fs: Seq<Seq<EntryView>>,
    trees: Map<Seq<char>, Seq<EntryView>>,
    n: nat,
) -> Option<Seq<EntryView>>
    decreases n,
{
    let next = advance_spec(out, fs);
    match next.2 {
        StepView::Done(r) => Some(r),
        StepView::UnknownMode(_) => None,
        StepView::Load(h) => if n == 0 || !trees.contains_key(h) {
            None
        } else {
            drive(next.0, next.1.push(trees[h]), trees, (n - 1) as nat)
        },
    }
}

/// Going through the entries of one tree on top of the pending trees `fs`
/// takes the walk, after some loads, to where it would be with the tree's
/// expansion gathered and the tree closed.
proof fn lemma_drive_expand(
    trees: Map<Seq<char>, Seq<EntryView>>,
    es: Seq<EntryView>,
    fuel: nat,
    out: Seq<EntryView>,
    fs: Seq<Seq<EntryView>>,
    k: nat,
) -> (loads: nat)
    requires
        expand(trees, es, fuel) is Some,
    ensures
        drive(out, fs.push(es), trees, k + loads) == drive(
            out + expand(trees, es, fuel)->0,
            fs,
            trees,
            k,
        ),
    decreases fuel, es.len(),
{
    let x = expand(trees, es, fuel)->0;
    let stack = fs.push(es);
    assert(stack.drop_last() =~= fs);
    assert(stack.last() == es);
    if es.len() == 0 {
        assert(out + x =~= out);
        assert(advance_spec(out, stack) == advance_spec(out, fs));
        0
    } else {
        let e = es[0];
        let rest = es.drop_first();
        let next_stack = fs.push(rest);
        assert(stack.drop_last().push(es.drop_first()) =~= next_stack);
        let m = mode_of(e.mode)->0;
        if mode_object_type(m) == ObjectType::Tree {
            let sub = trees[e.hash];
            let xs = expand(trees, sub, (fuel - 1) as nat)->0;
            let xr = expand(trees, rest, fuel)->0;
            assert(x == xs + xr);
            let l2 = lemma_drive_expand(trees, rest, fuel, out + xs, fs, k);
            let l1 = lemma_drive_expand(trees, sub, (fuel - 1) as nat, out, next_stack, k + l2);
            assert(advance_spec(out, stack) == (out, next_stack, StepView::Load(e.hash)));
            assert(drive(out, stack, trees, k + l2 + l1 + 1) == drive(
                out,
                next_stack.push(sub),
                trees,
                k + l2 + l1,
            ));
            assert(out + xs + xr =~= out + x);
            l2 + l1 + 1
        } else {
            let xr = expand(trees, rest, fuel)->0;
            assert(x == seq![e] + xr);
            let l = lemma_drive_expand(trees, rest, fuel, out.push(e), fs, k);
            assert(advance_spec(out, stack) == advance_spec(out.push(e), next_stack));
            assert(drive(out, stack, trees, k + l) == drive(out.push(e), next_stack, trees, k + l));
            assert(out.push(e) + xr =~= out + x);
            l
        }
    }
}

/// Walking a tree answers with its expansion: when every subtree is answered
/// with the tree stored under its hash, the walk started by visiting the
/// root's entries ends with `Done` of the entries with each subtree expanded
/// in place, in order, whenever that expansion exists.
pub proof fn law_walk_expands_subtrees(
    trees: Map<Seq<char>, Seq<EntryView>>,
    root: Seq<EntryView>,
    fuel: nat,
)
    requires
        expand(trees, root, fuel) is Some,
    ensures
        exists|n: nat|
            drive(Seq::empty(), seq![root], trees, n) == Some(expand(trees, root, fuel)->0),
{
    let empty = Seq::<Seq<EntryView>>::empty();
    assert(empty.push(root) =~= seq![root]);
    let n = lemma_drive_expand(trees, root, fuel, Seq::empty(), empty, 0);
    let x = expand(trees, root, fuel)->0;
    assert(Seq::<EntryView>::empty() + x =~= x);
    assert(drive(x, empty, trees, 0) == Some(x));
    assert(drive(Seq::empty(), seq![root], trees, n) == Some(x));
}

} // verus!
