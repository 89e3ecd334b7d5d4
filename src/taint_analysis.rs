use vstd::prelude::*;
use crate::block_state::BlockState;
use crate::block_visitor::BlockVisitor;
use crate::context::{GlobalContext, RunState, diagnosis_set};
use crate::summary::cache_extends;
use crate::diagnosis::{Diagnosis, DiagnosisModel, rank};
use crate::text::{has_prefix, has_infix, has_suffix, starts_with, contains, ends_with};
use crate::domain::AbstractDomain;
use crate::ir::Terminator;
use crate::lattice::{MemoryState, state_le};
use crate::block_state::{shape_le, lemma_shape_le_trans, lemma_shape_le_refl};
use crate::join::{lemma_union_above, union_shape, lemma_union_shape};
use crate::block_state::Shape;
use crate::block_visitor::{transfer_all, call_free};
use crate::ir::BasicBlock;
use crate::name::NameModel;
use crate::name::Name;
use crate::known_names::texts;

verus! {

/// The most blocks one function analysis visits.
pub const MAX_ITERATION: u32 = 200;

/// The deepest nesting of callee analyses.
pub const MAX_DEPTH: u32 = 20;

/// The analysis of one function, at some depth of the call chain.
pub struct FuncAnalysis {
    /// The state on entry to the function.
    pub init_state: BlockState,
    /// The index of the function in the context.
    pub function: usize,
    /// The state after each block analysed so far.
    pub taint_domain: AbstractDomain,
    /// The join of the states of the values returned so far.
    pub ret_state: MemoryState,
    /// The depth of the call chain; an analysis started from an entry point
    /// has depth 1, and one of its callees depth 2.
    pub depth: u32,
    /// How many blocks the last fixpoint computation visited.
    pub iteration: u32,
}

/// One of the successors of `b` is named `name`.
pub open spec fn precedes(b: crate::ir::BasicBlock, name: crate::name::NameModel) -> bool {
    exists|j: int| 0 <= j < b.successors@.len() && #[trigger] b.successors@[j]@ == name
}

/// The join of the recorded states of those of the first `n` blocks that
/// precede the block named `name`.
pub open spec fn join_preds(dom: Map<NameModel, Shape>, blocks: Seq<BasicBlock>, name: NameModel, n: int) -> Shape
    decreases n,
{
    if n <= 0 {
        Shape::empty()
    } else {
        let acc = join_preds(dom, blocks, name, n - 1);
        if precedes(blocks[n - 1], name) && dom.contains_key(blocks[n - 1].name@) {
            union_shape(acc, dom[blocks[n - 1].name@])
        } else {
            acc
        }
    }
}

/// The join of the recorded states of those of the first `n` blocks that
/// return.
pub open spec fn join_returns(dom: Map<NameModel, Shape>, blocks: Seq<BasicBlock>, n: int) -> Shape
    decreases n,
{
    if n <= 0 {
        Shape::empty()
    } else {
        let acc = join_returns(dom, blocks, n - 1);
        if blocks[n - 1].term is Ret && dom.contains_key(blocks[n - 1].name@) {
            union_shape(acc, dom[blocks[n - 1].name@])
        } else {
            acc
        }
    }
}

/// The state on entry to block `b`: `init` for the first block, else the
/// join of its predecessors' recorded states.
pub open spec fn entry_state(init: Shape, dom: Map<NameModel, Shape>, blocks: Seq<BasicBlock>, b: int) -> Shape {
    if b == 0 {
        init
    } else {
        join_preds(dom, blocks, blocks[b].name@, blocks.len() as int)
    }
}

/// A block with no call and no invoke.
pub open spec fn simple_block(bl: BasicBlock) -> bool {
    call_free(bl.instrs@) && !(bl.term is Invoke)
}

/// Block `b` has a recorded state, and where it has no call that state lies
/// above the block's effect on its entry state.
pub open spec fn settled(init: Shape, dom: Map<NameModel, Shape>, blocks: Seq<BasicBlock>, b: int) -> bool {
    &&& dom.contains_key(blocks[b].name@)
    &&& simple_block(blocks[b]) ==> shape_le(
        transfer_all(entry_state(init, dom, blocks, b), blocks[b].instrs@),
        dom[blocks[b].name@],
    )
}

/// No two blocks share a name.
pub open spec fn unique_names(blocks: Seq<BasicBlock>) -> bool {
    forall|i: int, j: int| 0 <= i < blocks.len() && 0 <= j < blocks.len() && #[trigger] blocks[i].name@ == #[trigger] blocks[j].name@ ==> i == j
}

/// Block `b` is queued at or after position `head`.
pub open spec fn pending(w: Seq<usize>, head: int, b: int) -> bool {
    exists|k: int| head <= k < w.len() && #[trigger] w[k] as int == b
}

/// The join of the predecessors only reads their recorded states.
pub proof fn lemma_join_preds_frame(d1: Map<NameModel, Shape>, d2: Map<NameModel, Shape>, blocks: Seq<BasicBlock>, name: NameModel, n: int)
    requires
        n <= blocks.len(),
        forall|p: int| 0 <= p < n && precedes(#[trigger] blocks[p], name) ==> d1.contains_key(blocks[p].name@) == d2.contains_key(blocks[p].name@)
            && (d1.contains_key(blocks[p].name@) ==> d1[blocks[p].name@] == d2[blocks[p].name@]),
    ensures
        join_preds(d1, blocks, name, n) == join_preds(d2, blocks, name, n),
    decreases n,
{
    if n > 0 {
        lemma_join_preds_frame(d1, d2, blocks, name, n - 1);
        if precedes(blocks[n - 1], name) {
            assert(d1.contains_key(blocks[n - 1].name@) == d2.contains_key(blocks[n - 1].name@));
        }
    }
}

/// Only the returned state and the iteration count differ.
pub open spec fn same_frame(a: FuncAnalysis, b: FuncAnalysis) -> bool {
    &&& b.function == a.function
    &&& b.depth == a.depth
    &&& b.init_state == a.init_state
    &&& b.taint_domain == a.taint_domain
    &&& state_le(a.ret_state, b.ret_state)
}

impl FuncAnalysis {
    /// The function exists, the states are well formed and the depth is in
    /// bounds.
    pub open spec fn wf(&self, ctx: &GlobalContext) -> bool {
        &&& self.function < ctx.functions@.len()
        &&& self.init_state.wf()
        &&& self.taint_domain.wf()
        &&& self.depth < MAX_DEPTH
    }

    /// An analysis of the function with symbol `func_name` from an empty
    /// state, at depth 1; `None` where that function was not loaded.
    pub fn new(ctx: &GlobalContext, func_name: &String) -> (r: Option<FuncAnalysis>)
        ensures
            r is Some <==> exists|i: int| 0 <= i < ctx.functions@.len() && #[trigger] ctx.functions@[i].name@ == func_name@,
            r matches Some(a) ==> a.wf(ctx) && a.depth == 1 && a.init_state@ == crate::block_state::Shape::empty()
                && a.function as int == ctx.function_named(func_name@) && a.ret_state == MemoryState::Untainted
                && a.taint_domain@ == Map::<crate::name::NameModel, crate::block_state::Shape>::empty() && a.iteration == 0,
    {
        match ctx.find_function(func_name.as_str()) {
            Some(i) => Some(FuncAnalysis {
                init_state: BlockState::new(),
                function: i,
                taint_domain: AbstractDomain::new(),
                ret_state: MemoryState::Untainted,
                depth: 1,
                iteration: 0,
            }),
            None => None,
        }
    }

    /// An analysis of the function with symbol `func_name` from the state
    /// `init`, at depth `depth`; `None` where the depth reaches the bound or
    /// the function was not loaded.
    pub fn new_with_init(ctx: &GlobalContext, func_name: &String, init: &BlockState, depth: u32) -> (r: Option<FuncAnalysis>)
        requires
            init.wf(),
        ensures
            r is Some <==> depth < MAX_DEPTH && exists|i: int| 0 <= i < ctx.functions@.len() && #[trigger] ctx.functions@[i].name@ == func_name@,
            r matches Some(a) ==> a.wf(ctx) && a.depth == depth && a.init_state@ == init@
                && a.function as int == ctx.function_named(func_name@) && a.ret_state == MemoryState::Untainted
                && a.taint_domain@ == Map::<crate::name::NameModel, crate::block_state::Shape>::empty() && a.iteration == 0,
    {
        if depth >= MAX_DEPTH {
            return None;
        }
        match ctx.find_function(func_name.as_str()) {
            Some(i) => Some(FuncAnalysis {
                init_state: init.clone(),
                function: i,
                taint_domain: AbstractDomain::new(),
                ret_state: MemoryState::Untainted,
                depth,
                iteration: 0,
            }),
            None => None,
        }
    }

    /// The index of the block named `name`, if the function has one.
    fn block_index(&self, ctx: &GlobalContext, name: &Name) -> (r: Option<usize>)
        requires
            self.wf(ctx),
        ensures
            match r {
                Some(i) => i < ctx.functions@[self.function as int].basic_blocks@.len()
                    && ctx.functions@[self.function as int].basic_blocks@[i as int].name@ == name@,
                None => forall|j: int| 0 <= j < ctx.functions@[self.function as int].basic_blocks@.len()
                    ==> #[trigger] ctx.functions@[self.function as int].basic_blocks@[j].name@ != name@,
            },
    {
        let blocks = &ctx.functions[self.function].basic_blocks;
        let mut i: usize = 0;
        while i < blocks.len()
            invariant
                self.wf(ctx),
                blocks == &ctx.functions@[self.function as int].basic_blocks,
                i <= blocks@.len(),
                forall|j: int| 0 <= j < i ==> #[trigger] blocks@[j].name@ != name@,
            decreases blocks@.len() - i,
        {
            if blocks[i].name == *name {
                return Some(i);
            }
            i = i + 1;
        }
        None
    }

    /// Runs the worklist algorithm: each visit analyses a block from the join
    /// of its predecessors' states (the initial state for the entry block);
    /// where the result is not below the recorded state, it is recorded and
    /// the block's successors are queued. Stops when the worklist is empty or
    /// after `MAX_ITERATION` visits.
    pub fn iterate_to_fixpoint(&mut self, ctx: &GlobalContext, run: &mut RunState)
        requires
            old(self).wf(ctx),
            old(run).wf(),
        ensures
            final(self).wf(ctx),
            final(self).function == old(self).function,
            final(self).depth == old(self).depth,
            final(self).init_state == old(self).init_state,
            final(self).iteration <= MAX_ITERATION,
            state_le(old(self).ret_state, final(self).ret_state),
            final(run).wf(),
            diagnosis_set(old(run).diagnoses@).subset_of(diagnosis_set(final(run).diagnoses@)),
            cache_extends(old(run).summary_cache@, final(run).summary_cache@),
            ({
                let blocks = ctx.functions@[old(self).function as int].basic_blocks@;
                final(self).iteration < MAX_ITERATION && unique_names(blocks) ==> forall|b: int|
                    0 <= b < blocks.len() ==> #[trigger] settled(final(self).init_state@, final(self).taint_domain@, blocks, b)
            }),
        decreases MAX_DEPTH - old(self).depth, 7nat,
    {
        let nb = ctx.functions[self.function].basic_blocks.len();
        let ghost blocks = ctx.functions@[self.function as int].basic_blocks@;
        let mut worklist: Vec<usize> = Vec::new();
        let mut b: usize = 0;
        while b < nb
            invariant
                b <= nb,
                worklist@.len() == b,
                forall|k: int| 0 <= k < worklist@.len() ==> #[trigger] worklist@[k] == k,
            decreases nb - b,
        {
            worklist.push(b);
            b = b + 1;
        }
        let mut head: usize = 0;
        let mut iteration: u32 = 0;
        assert forall|c: int| 0 <= c < nb implies pending(worklist@, 0, c) by {
            assert(worklist@[c] as int == c);
        }
        while head < worklist.len() && iteration < MAX_ITERATION
            invariant
                self.wf(ctx),
                self.function == old(self).function,
                self.depth == old(self).depth,
                self.init_state == old(self).init_state,
                state_le(old(self).ret_state, self.ret_state),
                blocks == ctx.functions@[self.function as int].basic_blocks@,
                nb == blocks.len(),
                forall|k: int| 0 <= k < worklist@.len() ==> #[trigger] worklist@[k] < nb,
                iteration <= MAX_ITERATION,
                run.wf(),
                diagnosis_set(old(run).diagnoses@).subset_of(diagnosis_set(run.diagnoses@)),
                cache_extends(old(run).summary_cache@, run.summary_cache@),
                unique_names(blocks) ==> forall|c: int| 0 <= c < nb && !pending(worklist@, head as int, c)
                    ==> #[trigger] settled(self.init_state@, self.taint_domain@, blocks, c),
            decreases MAX_ITERATION - iteration,
        {
            let bb = worklist[head];
            let ghost head0 = head as int;
            let ghost w0 = worklist@;
            let ghost dom0 = self.taint_domain@;
            head = head + 1;
            let ghost before = self.ret_state;
            let post = self.analyze_basic_block(bb, ctx, run);
            proof {
                crate::lattice::lemma_state_le_partial_order(old(self).ret_state, before, self.ret_state);
            }
            let name = &ctx.functions[self.function].basic_blocks[bb].name;
            let changed = match self.taint_domain.get(name) {
                None => true,
                Some(recorded) => !post.is_le(&recorded),
            };
            if changed {
                self.taint_domain.insert(name.clone(), post);
                let succs = &ctx.functions[self.function].basic_blocks[bb].successors;
                let ghost w1 = worklist@;
                let mut s: usize = 0;
                while s < succs.len()
                    invariant
                        self.wf(ctx),
                        blocks == ctx.functions@[self.function as int].basic_blocks@,
                        succs == &blocks[bb as int].successors,
                        nb == blocks.len(),
                        forall|k: int| 0 <= k < worklist@.len() ==> #[trigger] worklist@[k] < nb,
                        worklist@.len() >= w1.len(),
                        head <= w1.len(),
                        forall|k: int| 0 <= k < w1.len() ==> #[trigger] worklist@[k] == w1[k],
                        s <= succs@.len(),
                        forall|j: int, t: int| 0 <= j < nb && 0 <= t < s && #[trigger] succs@[t]@ == #[trigger] blocks[j].name@
                            && unique_names(blocks) ==> pending(worklist@, head as int, j),
                    decreases succs@.len() - s,
                {
                    let ghost w2 = worklist@;
                    match self.block_index(ctx, &succs[s]) {
                        Some(i) => {
                            worklist.push(i);
                            proof {
                                assert(worklist@[w2.len() as int] == i);
                                assert forall|j: int, t: int| 0 <= j < nb && 0 <= t < s + 1 && #[trigger] succs@[t]@ == #[trigger] blocks[j].name@
                                    && unique_names(blocks) implies pending(worklist@, head as int, j) by {
                                    if t < s {
                                        let k = choose|k: int| head <= k < w2.len() && #[trigger] w2[k] as int == j;
                                        assert(worklist@[k] == w2[k]);
                                    } else {
                                        assert(blocks[i as int].name@ == blocks[j].name@);
                                        assert(i as int == j);
                                        assert(head <= w2.len() && worklist@[w2.len() as int] as int == j);
                                    }
                                }
                            }
                        },
                        None => {},
                    }
                    s = s + 1;
                }
                proof {
                    if unique_names(blocks) {
                        let dom1 = self.taint_domain@;
                        let nm = blocks[bb as int].name@;
                        assert forall|c: int| 0 <= c < nb && !pending(worklist@, head as int, c) implies #[trigger] settled(self.init_state@, dom1, blocks, c) by {
                            // a block whose predecessors include bb was queued
                            assert forall|p: int| 0 <= p < nb && precedes(#[trigger] blocks[p], blocks[c].name@) implies dom1.contains_key(blocks[p].name@) == dom0.contains_key(blocks[p].name@)
                                && (dom1.contains_key(blocks[p].name@) ==> dom1[blocks[p].name@] == dom0[blocks[p].name@]) by {
                                if blocks[p].name@ == nm {
                                    assert(p == bb);
                                    let t = choose|t: int| 0 <= t < blocks[p].successors@.len() && #[trigger] blocks[p].successors@[t]@ == blocks[c].name@;
                                    assert(pending(worklist@, head as int, c));
                                }
                            }
                            lemma_join_preds_frame(dom1, dom0, blocks, blocks[c].name@, nb as int);
                            assert(entry_state(self.init_state@, dom1, blocks, c) == entry_state(self.init_state@, dom0, blocks, c));
                            if c != bb {
                                assert(!pending(w0, head0, c)) by {
                                    if pending(w0, head0, c) {
                                        let k = choose|k: int| head0 <= k < w0.len() && #[trigger] w0[k] as int == c;
                                        assert(k != head0);
                                        assert(worklist@[k] == w0[k]);
                                    }
                                }
                                assert(settled(self.init_state@, dom0, blocks, c));
                                assert(blocks[c].name@ != nm);
                            } else {
                                lemma_shape_le_refl(dom1[nm]);
                            }
                        }
                    }
                }
            } else {
                proof {
                    if unique_names(blocks) {
                        assert forall|c: int| 0 <= c < nb && !pending(worklist@, head as int, c) implies #[trigger] settled(self.init_state@, self.taint_domain@, blocks, c) by {
                            if c != bb {
                                if pending(w0, head0, c) {
                                    let k = choose|k: int| head0 <= k < w0.len() && #[trigger] w0[k] as int == c;
                                    assert(k != head0);
                                }
                            }
                        }
                    }
                }
            }
            iteration = iteration + 1;
        }
        self.iteration = iteration;
    }

    /// The state after the function returns: the join of the states after all
    /// its returning blocks.
    pub fn get_state_after_call(&self, ctx: &GlobalContext) -> (r: BlockState)
        requires
            self.wf(ctx),
        ensures
            r.wf(),
            forall|i: int| 0 <= i < ctx.functions@[self.function as int].basic_blocks@.len()
                && (#[trigger] ctx.functions@[self.function as int].basic_blocks@[i]).term is Ret
                && self.taint_domain@.contains_key(ctx.functions@[self.function as int].basic_blocks@[i].name@)
                ==> shape_le(self.taint_domain@[ctx.functions@[self.function as int].basic_blocks@[i].name@], r@),
            r@ == join_returns(
                self.taint_domain@,
                ctx.functions@[self.function as int].basic_blocks@,
                ctx.functions@[self.function as int].basic_blocks@.len() as int,
            ),
    {
        let blocks = &ctx.functions[self.function].basic_blocks;
        let mut result = BlockState::new();
        let mut i: usize = 0;
        while i < blocks.len()
            invariant
                self.wf(ctx),
                blocks == &ctx.functions@[self.function as int].basic_blocks,
                result.wf(),
                i <= blocks@.len(),
                forall|k: int| 0 <= k < i && (#[trigger] blocks@[k]).term is Ret
                    && self.taint_domain@.contains_key(blocks@[k].name@)
                    ==> shape_le(self.taint_domain@[blocks@[k].name@], result@),
                result@ == join_returns(self.taint_domain@, blocks@, i as int),
            decreases blocks@.len() - i,
        {
            match &blocks[i].term {
                Terminator::Ret { .. } => match self.taint_domain.get(&blocks[i].name) {
                    Some(state) => {
                        let next = result.union(&state);
                        proof {
                            lemma_union_shape(result@, state@, next@);
                            lemma_union_above(result@, state@, next@);
                            assert forall|k: int| 0 <= k < i + 1 && (#[trigger] blocks@[k]).term is Ret
                                && self.taint_domain@.contains_key(blocks@[k].name@)
                                implies shape_le(self.taint_domain@[blocks@[k].name@], next@) by {
                                if k < i {
                                    lemma_shape_le_trans(self.taint_domain@[blocks@[k].name@], result@, next@);
                                }
                            }
                        }
                        result = next;
                    },
                    None => {},
                },
                _ => {},
            }
            i = i + 1;
        }
        result
    }

    /// The state after block `bb`, analysed from its entry state.
    fn analyze_basic_block(&mut self, bb: usize, ctx: &GlobalContext, run: &mut RunState) -> (r: BlockState)
        requires
            old(self).wf(ctx),
            old(run).wf(),
            bb < ctx.functions@[old(self).function as int].basic_blocks@.len(),
        ensures
            r.wf(),
            final(self).wf(ctx),
            same_frame(*old(self), *final(self)),
            final(run).wf(),
            diagnosis_set(old(run).diagnoses@).subset_of(diagnosis_set(final(run).diagnoses@)),
            cache_extends(old(run).summary_cache@, final(run).summary_cache@),
            simple_block(ctx.functions@[old(self).function as int].basic_blocks@[bb as int]) ==> r@ == transfer_all(
                entry_state(
                    old(self).init_state@,
                    old(self).taint_domain@,
                    ctx.functions@[old(self).function as int].basic_blocks@,
                    bb as int,
                ),
                ctx.functions@[old(self).function as int].basic_blocks@[bb as int].instrs@,
            ),
        decreases MAX_DEPTH - old(self).depth, 6nat,
    {
        let pre = if bb == 0 {
            self.init_state.clone()
        } else {
            self.get_state_from_predecessors(bb, ctx)
        };
        let mut visitor = BlockVisitor::new(&pre, bb);
        visitor.analyze(self, ctx, run)
    }

    /// The join of the recorded states of the predecessors of block `bb`;
    /// empty where none was recorded.
    fn get_state_from_predecessors(&self, bb: usize, ctx: &GlobalContext) -> (r: BlockState)
        requires
            self.wf(ctx),
            bb < ctx.functions@[self.function as int].basic_blocks@.len(),
        ensures
            r.wf(),
            forall|p: int| 0 <= p < ctx.functions@[self.function as int].basic_blocks@.len()
                && precedes(#[trigger] ctx.functions@[self.function as int].basic_blocks@[p], ctx.functions@[self.function as int].basic_blocks@[bb as int].name@)
                && self.taint_domain@.contains_key(ctx.functions@[self.function as int].basic_blocks@[p].name@)
                ==> shape_le(self.taint_domain@[ctx.functions@[self.function as int].basic_blocks@[p].name@], r@),
            r@ == join_preds(
                self.taint_domain@,
                ctx.functions@[self.function as int].basic_blocks@,
                ctx.functions@[self.function as int].basic_blocks@[bb as int].name@,
                ctx.functions@[self.function as int].basic_blocks@.len() as int,
            ),
    {
        let blocks = &ctx.functions[self.function].basic_blocks;
        let name = &blocks[bb].name;
        let mut res = BlockState::new();
        let mut p: usize = 0;
        while p < blocks.len()
            invariant
                self.wf(ctx),
                blocks == &ctx.functions@[self.function as int].basic_blocks,
                name == &blocks@[bb as int].name,
                res.wf(),
                p <= blocks@.len(),
                forall|k: int| 0 <= k < p && precedes(#[trigger] blocks@[k], name@)
                    && self.taint_domain@.contains_key(blocks@[k].name@)
                    ==> shape_le(self.taint_domain@[blocks@[k].name@], res@),
                res@ == join_preds(self.taint_domain@, blocks@, name@, p as int),
            decreases blocks@.len() - p,
        {
            let succs = &blocks[p].successors;
            let mut found = false;
            let mut s: usize = 0;
            while s < succs.len()
                invariant
                    succs == &blocks@[p as int].successors,
                    s <= succs@.len(),
                    found == exists|j: int| 0 <= j < s && #[trigger] succs@[j]@ == name@,
                decreases succs@.len() - s,
            {
                if succs[s] == *name {
                    found = true;
                }
                s = s + 1;
            }
            assert(found == precedes(blocks@[p as int], name@));
            if found {
                match self.taint_domain.get(&blocks[p].name) {
                    Some(state) => {
                        let next = res.union(&state);
                        proof {
                            lemma_union_shape(res@, state@, next@);
                            lemma_union_above(res@, state@, next@);
                            assert forall|k: int| 0 <= k < p + 1 && precedes(#[trigger] blocks@[k], name@)
                                && self.taint_domain@.contains_key(blocks@[k].name@)
                                implies shape_le(self.taint_domain@[blocks@[k].name@], next@) by {
                                if k < p {
                                    lemma_shape_le_trans(self.taint_domain@[blocks@[k].name@], res@, next@);
                                }
                            }
                        }
                        res = next;
                    },
                    None => {},
                }
            }
            p = p + 1;
        }
        res
    }
}

/// A whole run: every function that an entry point names is analysed, and
/// the diagnoses are gathered.
pub struct StaticAnalysis {
    pub context: GlobalContext,
    pub state: RunState,
}

/// No loaded function's demangled name ends with `e`.
pub open spec fn unmatched(ctx: &GlobalContext, e: Seq<char>) -> bool {
    forall|i: int| 0 <= i < ctx.functions@.len() ==> !has_suffix(#[trigger] ctx.functions@[i].demangled_name@, e)
}

/// Whether a diagnosis is reported: severe enough, and in one of the analysed
/// crates or in a function outside any namespace.
pub open spec fn reported(ctx: &GlobalContext, d: DiagnosisModel) -> bool {
    &&& rank(d.seriousness) >= rank(ctx.analysis_option.precision_threshold)
    &&& (exists|i: int| 0 <= i < ctx.analysis_option.crate_names@.len() && has_prefix(
        d.function_name,
        #[trigger] ctx.analysis_option.crate_names@[i]@,
    )) || !has_infix(d.function_name, "::"@)
}

impl StaticAnalysis {
    pub fn new(context: GlobalContext) -> (r: StaticAnalysis)
        ensures
            r.context == context,
            r.state.wf(),
            r.state.diagnoses@.len() == 0,
    {
        StaticAnalysis { context, state: RunState::new() }
    }

    /// Analyses, from an empty state, every loaded function whose demangled
    /// name ends with an entry point. Returns the entry points that matched no
    /// function.
    pub fn run(&mut self) -> (missing: Vec<String>)
        requires
            old(self).state.wf(),
        ensures
            final(self).context == old(self).context,
            final(self).state.wf(),
            diagnosis_set(old(self).state.diagnoses@).subset_of(diagnosis_set(final(self).state.diagnoses@)),
            cache_extends(old(self).state.summary_cache@, final(self).state.summary_cache@),
            forall|k: int| 0 <= k < missing@.len() ==> texts(final(self).context.analysis_option.entry_points@).contains(#[trigger] missing@[k]@)
                && unmatched(&final(self).context, missing@[k]@),
            forall|e: int| 0 <= e < final(self).context.analysis_option.entry_points@.len()
                && unmatched(&final(self).context, #[trigger] final(self).context.analysis_option.entry_points@[e]@)
                ==> texts(missing@).contains(final(self).context.analysis_option.entry_points@[e]@),
    {
        let ctx = &self.context;
        let run = &mut self.state;
        let entries = &ctx.analysis_option.entry_points;
        let mut missing: Vec<String> = Vec::new();
        let mut e: usize = 0;
        while e < entries.len()
            invariant
                run.wf(),
                diagnosis_set(old(self).state.diagnoses@).subset_of(diagnosis_set(run.diagnoses@)),
                cache_extends(old(self).state.summary_cache@, run.summary_cache@),
                e <= entries@.len(),
                forall|k: int| 0 <= k < missing@.len() ==> texts(entries@).contains(#[trigger] missing@[k]@)
                    && unmatched(ctx, missing@[k]@),
                forall|x: int| 0 <= x < e && unmatched(ctx, #[trigger] entries@[x]@) ==> texts(missing@).contains(entries@[x]@),
            decreases entries@.len() - e,
        {
            let mut found = false;
            let mut i: usize = 0;
            while i < ctx.functions.len()
                invariant
                    run.wf(),
                    diagnosis_set(old(self).state.diagnoses@).subset_of(diagnosis_set(run.diagnoses@)),
                    cache_extends(old(self).state.summary_cache@, run.summary_cache@),
                    e < entries@.len(),
                    i <= ctx.functions@.len(),
                    !found ==> forall|j: int| 0 <= j < i ==> !has_suffix(#[trigger] ctx.functions@[j].demangled_name@, entries@[e as int]@),
                    found ==> exists|j: int| 0 <= j < ctx.functions@.len() && has_suffix(#[trigger] ctx.functions@[j].demangled_name@, entries@[e as int]@),
                decreases ctx.functions@.len() - i,
            {
                if ends_with(ctx.functions[i].demangled_name.as_str(), entries[e].as_str()) {
                    found = true;
                    match FuncAnalysis::new(ctx, &ctx.functions[i].name) {
                        Some(mut fa) => fa.iterate_to_fixpoint(ctx, run),
                        None => {},
                    }
                }
                i = i + 1;
            }
            let ghost before = missing@;
            if !found {
                missing.push(entries[e].clone());
                assert forall|k: int| 0 <= k < missing@.len() implies texts(entries@).contains(#[trigger] missing@[k]@)
                    && unmatched(ctx, missing@[k]@) by {
                    if k < before.len() {
                        assert(missing@[k] == before[k]);
                    } else {
                        assert(missing@[k]@ == entries@[e as int]@);
                        assert(texts(entries@)[e as int] == missing@[k]@);
                    }
                }
            }
            assert forall|x: int| 0 <= x < e + 1 && unmatched(ctx, #[trigger] entries@[x]@) implies texts(missing@).contains(entries@[x]@) by {
                if x < e {
                    let k = choose|k: int| 0 <= k < before.len() && texts(before)[k] == entries@[x]@;
                    assert(texts(missing@)[k] == entries@[x]@);
                } else {
                    if found {
                        let j = choose|j: int| 0 <= j < ctx.functions@.len() && has_suffix(#[trigger] ctx.functions@[j].demangled_name@, entries@[e as int]@);
                    }
                    assert(texts(missing@)[missing@.len() - 1] == entries@[x]@);
                }
            }
            e = e + 1;
        }
        missing
    }

    /// Whether the diagnosis is reported.
    fn is_reported(&self, d: &Diagnosis) -> (r: bool)
        ensures
            r == reported(&self.context, d@),
    {
        let opts = &self.context.analysis_option;
        if !d.seriousness.at_least(&opts.precision_threshold) {
            return false;
        }
        let mut i: usize = 0;
        while i < opts.crate_names.len()
            invariant
                opts == &self.context.analysis_option,
                rank(d.seriousness) >= rank(opts.precision_threshold),
                i <= opts.crate_names@.len(),
                forall|k: int| 0 <= k < i ==> !has_prefix(d@.function_name, #[trigger] opts.crate_names@[k]@),
            decreases opts.crate_names@.len() - i,
        {
            if starts_with(d.function_name.as_str(), opts.crate_names[i].as_str()) {
                assert(has_prefix(d@.function_name, opts.crate_names@[i as int]@));
                return true;
            }
            i = i + 1;
        }
        !contains(d.function_name.as_str(), "::")
    }

    /// The diagnoses to report: of those that are severe enough and in an
    /// analysed crate (or outside any namespace), the most severe one of each
    /// function.
    pub fn select_diagnoses(&self) -> (r: Vec<Diagnosis>)
        ensures
            forall|k: int| 0 <= k < r@.len() ==> diagnosis_set(self.state.diagnoses@).contains(#[trigger] r@[k]@)
                && reported(&self.context, r@[k]@),
            forall|k: int, j: int| 0 <= k < r@.len() && 0 <= j < self.state.diagnoses@.len()
                && reported(&self.context, #[trigger] self.state.diagnoses@[j]@)
                && self.state.diagnoses@[j]@.function_name == #[trigger] r@[k]@.function_name
                ==> rank(self.state.diagnoses@[j]@.seriousness) <= rank(r@[k]@.seriousness),
            forall|j: int| 0 <= j < self.state.diagnoses@.len() && reported(&self.context, #[trigger] self.state.diagnoses@[j]@)
                ==> exists|k: int| 0 <= k < r@.len() && #[trigger] r@[k]@.function_name == self.state.diagnoses@[j]@.function_name,
            forall|k: int, l: int| 0 <= k < l < r@.len() ==> #[trigger] r@[k]@.function_name != #[trigger] r@[l]@.function_name,
    {
        let ds = &self.state.diagnoses;
        let mut out: Vec<Diagnosis> = Vec::new();
        let mut j: usize = 0;
        while j < ds.len()
            invariant
                j <= ds@.len(),
                forall|k: int| 0 <= k < out@.len() ==> diagnosis_set(ds@).contains(#[trigger] out@[k]@)
                    && reported(&self.context, out@[k]@),
                forall|k: int, x: int| 0 <= k < out@.len() && 0 <= x < j
                    && reported(&self.context, #[trigger] ds@[x]@)
                    && ds@[x]@.function_name == #[trigger] out@[k]@.function_name
                    ==> rank(ds@[x]@.seriousness) <= rank(out@[k]@.seriousness),
                forall|x: int| 0 <= x < j && reported(&self.context, #[trigger] ds@[x]@)
                    ==> exists|k: int| 0 <= k < out@.len() && #[trigger] out@[k]@.function_name == ds@[x]@.function_name,
                forall|k: int, l: int| 0 <= k < l < out@.len() ==> #[trigger] out@[k]@.function_name != #[trigger] out@[l]@.function_name,
            decreases ds@.len() - j,
        {
            let d = &ds[j];
            if self.is_reported(d) {
                assert(diagnosis_set(ds@).contains(ds@[j as int]@));
                let mut k: usize = 0;
                let mut at: Option<usize> = None;
                while k < out.len()
                    invariant
                        k <= out@.len(),
                        match at {
                            Some(p) => p < out@.len() && out@[p as int]@.function_name == d@.function_name,
                            None => forall|q: int| 0 <= q < k ==> #[trigger] out@[q]@.function_name != d@.function_name,
                        },
                    decreases out@.len() - k,
                {
                    if at.is_none() && out[k].function_name == d.function_name {
                        at = Some(k);
                    }
                    k = k + 1;
                }
                match at {
                    Some(p) => {
                        if d.seriousness.at_least(&out[p].seriousness) {
                            let ghost before = out@;
                            out.set(p, d.clone());
                            proof {
                                assert forall|k2: int, l: int| 0 <= k2 < l < out@.len() implies #[trigger] out@[k2]@.function_name != #[trigger] out@[l]@.function_name by {
                                    assert(before[k2]@.function_name != before[l]@.function_name);
                                }
                                assert forall|x: int| 0 <= x < j + 1 && reported(&self.context, #[trigger] ds@[x]@)
                                    implies exists|k2: int| 0 <= k2 < out@.len() && #[trigger] out@[k2]@.function_name == ds@[x]@.function_name by {
                                    if x < j {
                                        let k2 = choose|k2: int| 0 <= k2 < before.len() && #[trigger] before[k2]@.function_name == ds@[x]@.function_name;
                                        assert(out@[k2]@.function_name == before[k2]@.function_name);
                                    } else {
                                        assert(out@[p as int]@.function_name == ds@[x]@.function_name);
                                    }
                                }
                                assert forall|k2: int, x: int| 0 <= k2 < out@.len() && 0 <= x < j + 1
                                    && reported(&self.context, #[trigger] ds@[x]@)
                                    && ds@[x]@.function_name == #[trigger] out@[k2]@.function_name
                                    implies rank(ds@[x]@.seriousness) <= rank(out@[k2]@.seriousness) by {
                                    if k2 == p && x < j {
                                        assert(before[p as int]@.function_name == ds@[x]@.function_name);
                                    } else if k2 != p && x == j {
                                        assert(before[k2]@.function_name == before[p as int]@.function_name);
                                        if k2 < p {
                                            assert(before[k2]@.function_name != before[p as int]@.function_name);
                                        } else {
                                            assert(before[p as int]@.function_name != before[k2]@.function_name);
                                        }
                                    }
                                }
                            }
                        }
                    },
                    None => {
                        let ghost before = out@;
                        out.push(d.clone());
                        proof {
                            assert forall|k2: int, l: int| 0 <= k2 < l < out@.len() implies #[trigger] out@[k2]@.function_name != #[trigger] out@[l]@.function_name by {
                                if l < before.len() {
                                    assert(before[k2]@.function_name != before[l]@.function_name);
                                } else {
                                    assert(out@[k2] == before[k2]);
                                }
                            }
                            assert forall|x: int| 0 <= x < j + 1 && reported(&self.context, #[trigger] ds@[x]@)
                                implies exists|k2: int| 0 <= k2 < out@.len() && #[trigger] out@[k2]@.function_name == ds@[x]@.function_name by {
                                if x < j {
                                    let k2 = choose|k2: int| 0 <= k2 < before.len() && #[trigger] before[k2]@.function_name == ds@[x]@.function_name;
                                    assert(out@[k2] == before[k2]);
                                } else {
                                    assert(out@[before.len() as int]@.function_name == ds@[x]@.function_name);
                                }
                            }
                            assert forall|k2: int, x: int| 0 <= k2 < out@.len() && 0 <= x < j + 1
                                && reported(&self.context, #[trigger] ds@[x]@)
                                && ds@[x]@.function_name == #[trigger] out@[k2]@.function_name
                                implies rank(ds@[x]@.seriousness) <= rank(out@[k2]@.seriousness) by {
                                if k2 < before.len() {
                                    assert(out@[k2] == before[k2]);
                                    if x == j {
                                        assert(before[k2]@.function_name != d@.function_name);
                                    }
                                } else if x < j {
                                    let k3 = choose|k3: int| 0 <= k3 < before.len() && #[trigger] before[k3]@.function_name == ds@[x]@.function_name;
                                    assert(before[k3]@.function_name != d@.function_name);
                                }
                            }
                        }
                    },
                }
            }
            j = j + 1;
        }
        out
    }
}

} // verus!
