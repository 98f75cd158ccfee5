//! Mathematical model of pool materialization and tree synthesis: the three
//! chains derived from a genome, the resolution of selectors against them,
//! and the denotation of the synthesizer's work stack.

use vstd::prelude::*;
use crate::genome::GenomeView;
use crate::tree::Tree;
use crate::tree::nil_tree;
use crate::tree::pair_tree;

verus! {

/// One atom-chain slot: the terminating sentinel, or one byte plus a raw
/// next-reference.
#[derive(Clone, Copy)]
pub enum AtomPath {
    Nil,
    AndByte(u8, usize),
}

/// A selector into one of the three chains.  An atom selector carries a raw
/// start index; cons and list selectors carry indices already reduced
/// modulo the chain length at materialization time.
#[derive(Clone, Copy)]
pub enum ConsContent {
    WithAtom(usize),
    WithCons(usize),
    WithList(usize),
}

/// One cons-chain slot: the sentinel, or two selectors.
#[derive(Clone, Copy)]
pub enum ConsPath {
    Nil,
    Consed(ConsContent, ConsContent),
}

/// One list-chain slot: the sentinel, or a head selector plus a raw tail
/// reference, reduced only at synthesis time.
#[derive(Clone, Copy)]
pub enum ListPath {
    Nil,
    Enlisted(ConsContent, usize),
}

/// The three materialized chains.
pub struct ChainsView {
    pub atoms: Seq<AtomPath>,
    pub conses: Seq<ConsPath>,
    pub lists: Seq<ListPath>,
}

/// A selector stored in a cons slot: never a list selector, and any cons
/// reference points strictly below `bound`.
pub open spec fn cons_entry_ok(cc: ConsContent, bound: int) -> bool {
    match cc {
        ConsContent::WithAtom(_) => true,
        ConsContent::WithCons(j) => (j as int) < bound,
        ConsContent::WithList(_) => false,
    }
}

/// A selector stored in a list slot: a list reference points strictly below
/// `bound`, a cons reference below the full cons-chain length.
pub open spec fn list_entry_ok(cc: ConsContent, bound: int, cons_len: int) -> bool {
    match cc {
        ConsContent::WithAtom(_) => true,
        ConsContent::WithCons(j) => (j as int) < cons_len,
        ConsContent::WithList(j) => (j as int) < bound,
    }
}

/// During a list walk from index `bound`, the head selector's list
/// reference, if any, lies strictly below `bound`.
pub open spec fn walk_entry_ok(cc: ConsContent, bound: int) -> bool {
    match cc {
        ConsContent::WithList(j) => (j as int) < bound,
        _ => true,
    }
}

/// Well-formedness of materialized chains: each chain starts with its
/// sentinel at slot zero, and every reference points strictly backwards.
pub open spec fn wf_chains(ch: ChainsView) -> bool {
    &&& ch.atoms.len() >= 1 && ch.atoms[0] == AtomPath::Nil
    &&& ch.conses.len() >= 1 && ch.conses[0] == ConsPath::Nil
    &&& ch.lists.len() >= 1 && ch.lists[0] == ListPath::Nil
    &&& forall|i: int|
        1 <= i < ch.conses.len() ==> ((#[trigger] ch.conses[i]) matches ConsPath::Consed(a, b)
            && cons_entry_ok(a, i) && cons_entry_ok(b, i))
    &&& forall|j: int|
        1 <= j < ch.lists.len() ==> ((#[trigger] ch.lists[j]) matches ListPath::Enlisted(h, _t)
            && list_entry_ok(h, j, ch.conses.len() as int))
}

/// The round-robin choice cursor: the `k`-th draw from a pool, or the
/// default zero if the pool is empty.
pub open spec fn nth_choice(choices: Seq<usize>, k: nat) -> usize {
    if choices.len() == 0 {
        0usize
    } else {
        choices[(k % choices.len()) as int]
    }
}

/// The bytes accumulated by walking the atom chain from raw index `idx`:
/// one byte per hop, the next index recomputed modulo the current one, so
/// the walk strictly descends to the sentinel.
pub open spec fn atom_walk(atoms: Seq<AtomPath>, idx: nat) -> Seq<u8>
    decreases idx,
{
    if atoms.len() == 0 {
        Seq::empty()
    } else {
        match atoms[(idx % atoms.len()) as int] {
            AtomPath::Nil => Seq::empty(),
            AtomPath::AndByte(b, next) => if idx > 0 {
                seq![b] + atom_walk(atoms, (next as nat) % idx)
            } else {
                Seq::empty()
            },
        }
    }
}

/// Rank components ordering selector resolution: list selectors dominate
/// cons selectors dominate atom selectors, and within a kind the stored
/// index descends.
pub open spec fn cc_list_rank(cc: ConsContent) -> int {
    match cc {
        ConsContent::WithList(l) => l as int,
        _ => 0,
    }
}

pub open spec fn cc_tier(cc: ConsContent) -> int {
    match cc {
        ConsContent::WithAtom(_) => 0,
        ConsContent::WithCons(_) => 1,
        ConsContent::WithList(_) => 2,
    }
}

pub open spec fn cc_cons_rank(cc: ConsContent) -> int {
    match cc {
        ConsContent::WithCons(c) => c as int,
        _ => 0,
    }
}

/// The tree a selector resolves to, together with the weight of the task
/// it denotes on the synthesizer's work stack.
pub open spec fn resolve_cc(ch: ChainsView, cc: ConsContent) -> (Tree, nat)
    decreases cc_list_rank(cc), cc_tier(cc), cc_cons_rank(cc),
{
    match cc {
        ConsContent::WithAtom(c) => (Tree::Atom(atom_walk(ch.atoms, c as nat)), 1nat),
        ConsContent::WithCons(c) => {
            if ch.conses.len() == 0 {
                (nil_tree(), 1nat)
            } else {
                let i = (c as nat) % ch.conses.len();
                match ch.conses[i as int] {
                    ConsPath::Nil => (nil_tree(), 1nat),
                    ConsPath::Consed(a, b) => {
                        if cons_entry_ok(a, i as int) && cons_entry_ok(b, i as int) && i <= c {
                            let ra = resolve_cc(ch, a);
                            let rb = resolve_cc(ch, b);
                            (pair_tree(ra.0, rb.0), (2 + ra.1 + rb.1) as nat)
                        } else {
                            (nil_tree(), 1nat)
                        }
                    },
                }
            }
        },
        ConsContent::WithList(l) => {
            let r = list_walk(ch, l as nat, nil_tree());
            (r.0, (1 + r.1) as nat)
        },
    }
}

/// The tree built by walking the list chain from raw index `idx`, ending in
/// `base`, together with the weight of the tasks the walk pushes.
pub open spec fn list_walk(ch: ChainsView, idx: nat, base: Tree) -> (Tree, nat)
    decreases idx as int, 0int, 0int,
{
    if ch.lists.len() == 0 {
        (base, 0nat)
    } else {
        let m = idx % ch.lists.len();
        match ch.lists[m as int] {
            ListPath::Nil => (base, 0nat),
            ListPath::Enlisted(h, t) => {
                if idx > 0 && walk_entry_ok(h, idx as int) {
                    let rh = resolve_cc(ch, h);
                    let rr = list_walk(ch, (t as nat) % idx, base);
                    (pair_tree(rh.0, rr.0), (1 + rh.1 + rr.1) as nat)
                } else {
                    (base, 0nat)
                }
            },
        }
    }
}

/// What one `make_choice` step produces from a raw kind, magnitude and
/// altitude: the resolved tree, and the weight of the tasks it pushes.
pub open spec fn spec_make_choice(ch: ChainsView, kind: usize, choice: usize, level: usize) -> (
    Tree,
    nat,
) {
    if kind > 2 && level >= kind {
        list_walk(ch, choice as nat, nil_tree())
    } else if kind > 1 && level >= kind {
        if ch.conses.len() == 0 {
            (nil_tree(), 0nat)
        } else {
            let i = (choice as nat) % ch.conses.len();
            match ch.conses[i as int] {
                ConsPath::Nil => (nil_tree(), 0nat),
                ConsPath::Consed(a, b) => {
                    if cons_entry_ok(a, i as int) && cons_entry_ok(b, i as int) && i <= choice {
                        let ra = resolve_cc(ch, a);
                        let rb = resolve_cc(ch, b);
                        (pair_tree(ra.0, rb.0), (1 + ra.1 + rb.1) as nat)
                    } else {
                        (nil_tree(), 0nat)
                    }
                },
            }
        }
    } else {
        (Tree::Atom(atom_walk(ch.atoms, choice as nat)), 0nat)
    }
}

/// The synthesized tree for a prototype, starting at choice cursor `k`:
/// yields the output tree, the cursor after, and the weight of the task.
/// Pairs expand right child first, matching the work stack's pop order;
/// the pair is reassembled in the prototype's own left/right order.
pub open spec fn spec_synth(ch: ChainsView, choices: Seq<usize>, k: nat, proto: Tree) -> (
    Tree,
    nat,
    nat,
)
    decreases proto,
{
    match proto {
        Tree::Atom(bytes) => if bytes.len() == 0 {
            (nil_tree(), k, 1nat)
        } else {
            let raw = nth_choice(choices, k);
            let r = spec_make_choice(ch, raw & 3, raw >> 2, 3);
            (r.0, (k + 1) as nat, (2 + r.1) as nat)
        },
        Tree::Pair(l, r) => {
            let rr = spec_synth(ch, choices, k, *r);
            let rl = spec_synth(ch, choices, rr.1, *l);
            (pair_tree(rl.0, rr.0), rl.1, (2 + rr.2 + rl.2) as nat)
        },
    }
}

/// The chains a genome materializes to: each chain starts with its
/// sentinel; selectors stored in a slot were resolved against the chain
/// lengths current when that slot was built.
pub open spec fn spec_agg_input(raw: usize, level: usize, conses_len: usize, lists_len: usize) -> ConsContent {
    let t = raw & 3;
    let v = raw >> 2;
    if level == 3 && t == 3 {
        ConsContent::WithList(v % lists_len)
    } else if level > 1 && t > 1 {
        ConsContent::WithCons(v % conses_len)
    } else {
        ConsContent::WithAtom(v)
    }
}

pub open spec fn spec_atom_chain(seeds: Seq<usize>) -> Seq<AtomPath> {
    Seq::new(
        seeds.len() + 1,
        |i: int|
            if i == 0 {
                AtomPath::Nil
            } else {
                AtomPath::AndByte((seeds[i - 1] & 0xff) as u8, seeds[i - 1] >> 8)
            },
    )
}

pub open spec fn spec_cons_chain(g: GenomeView) -> Seq<ConsPath> {
    Seq::new(
        g.conses.len() + 1,
        |i: int|
            if i == 0 {
                ConsPath::Nil
            } else {
                ConsPath::Consed(
                    spec_agg_input(g.conses[i - 1], 2, i as usize, 1),
                    spec_agg_input(nth_choice(g.choices, (i - 1) as nat), 2, i as usize, 1),
                )
            },
    )
}

pub open spec fn spec_list_chain(g: GenomeView) -> Seq<ListPath> {
    Seq::new(
        g.lists.len() + 1,
        |j: int|
            if j == 0 {
                ListPath::Nil
            } else {
                ListPath::Enlisted(
                    spec_agg_input(
                        nth_choice(g.choices, (g.conses.len() + j - 1) as nat),
                        3,
                        (g.conses.len() + 1) as usize,
                        j as usize,
                    ),
                    g.lists[j - 1],
                )
            },
    )
}

pub open spec fn chains_of(g: GenomeView) -> ChainsView {
    ChainsView {
        atoms: spec_atom_chain(g.atoms),
        conses: spec_cons_chain(g),
        lists: spec_list_chain(g),
    }
}

/// The choice cursor consumed by materialization: one draw per cons seed,
/// then one per list seed.
pub open spec fn base_cursor(g: GenomeView) -> nat {
    g.conses.len() + g.lists.len()
}

/// The full pipeline: materialize the genome's chains, then synthesize
/// against the prototype with the cursor where materialization left it.
pub open spec fn spec_synthesize(g: GenomeView, proto: Tree) -> Tree {
    spec_synth(chains_of(g), g.choices, base_cursor(g), proto).0
}

/// The chains of any genome are well formed.
pub proof fn lemma_chains_wf(g: GenomeView)
    ensures
        wf_chains(chains_of(g)),
{
    let ch = chains_of(g);
    assert forall|i: int| 1 <= i < ch.conses.len() implies ((#[trigger] ch.conses[i])
        matches ConsPath::Consed(a, b) && cons_entry_ok(a, i) && cons_entry_ok(b, i)) by {
        let s1 = spec_agg_input(g.conses[i - 1], 2, i as usize, 1);
        let s2 = spec_agg_input(nth_choice(g.choices, (i - 1) as nat), 2, i as usize, 1);
        assert(ch.conses[i] == ConsPath::Consed(s1, s2));
        assert(cons_entry_ok(s1, i));
        assert(cons_entry_ok(s2, i));
    }
    assert forall|j: int| 1 <= j < ch.lists.len() implies ((#[trigger] ch.lists[j])
        matches ListPath::Enlisted(h, _t) && list_entry_ok(h, j, ch.conses.len() as int)) by {
        let h = spec_agg_input(
            nth_choice(g.choices, (g.conses.len() + j - 1) as nat),
            3,
            (g.conses.len() + 1) as usize,
            j as usize,
        );
        assert(ch.lists[j] == ListPath::Enlisted(h, g.lists[j - 1]));
        assert(list_entry_ok(h, j, ch.conses.len() as int));
    }
}

/// A task on the synthesizer's work stack, modelled: expand a prototype
/// subtree, combine the two topmost finished values into a pair, or
/// resolve a stored selector.
pub enum TaskM {
    Expand(Tree),
    MakePair,
    ResolveCC(ConsContent),
}

/// What executing the work stack from its top against the finished-value
/// stack yields: the final value stack, the final choice cursor, and the
/// total weight of the pending tasks.  A combine step finding fewer than
/// two finished values yields the empty stack, which no reachable
/// synthesizer state denotes.
pub open spec fn denote(
    ch: ChainsView,
    choices: Seq<usize>,
    k: nat,
    tasks: Seq<TaskM>,
    vals: Seq<Tree>,
) -> (Seq<Tree>, nat, nat)
    decreases tasks.len(),
{
    if tasks.len() == 0 {
        (vals, k, 0nat)
    } else {
        let rest = tasks.drop_last();
        match tasks.last() {
            TaskM::Expand(p) => {
                let s = spec_synth(ch, choices, k, p);
                let d = denote(ch, choices, s.1, rest, vals.push(s.0));
                (d.0, d.1, (s.2 + d.2) as nat)
            },
            TaskM::ResolveCC(cc) => {
                let r = resolve_cc(ch, cc);
                let d = denote(ch, choices, k, rest, vals.push(r.0));
                (d.0, d.1, (r.1 + d.2) as nat)
            },
            TaskM::MakePair => {
                if vals.len() >= 2 {
                    let a = vals.last();
                    let b = vals[vals.len() - 2];
                    let d = denote(
                        ch,
                        choices,
                        k,
                        rest,
                        vals.drop_last().drop_last().push(pair_tree(a, b)),
                    );
                    (d.0, d.1, (1 + d.2) as nat)
                } else {
                    (Seq::empty(), k, 0nat)
                }
            },
        }
    }
}

/// The tasks a list walk from raw index `idx` pushes, bottom of the pushed
/// segment first.
pub open spec fn walk_tasks(ch: ChainsView, idx: nat) -> Seq<TaskM>
    decreases idx,
{
    if ch.lists.len() == 0 {
        Seq::empty()
    } else {
        let m = idx % ch.lists.len();
        match ch.lists[m as int] {
            ListPath::Nil => Seq::empty(),
            ListPath::Enlisted(h, t) => if idx > 0 && walk_entry_ok(h, idx as int) {
                seq![TaskM::MakePair, TaskM::ResolveCC(h)] + walk_tasks(ch, (t as nat) % idx)
            } else {
                Seq::empty()
            },
        }
    }
}

/// The tasks one `make_choice` step pushes onto the work stack.
pub open spec fn mc_tasks(ch: ChainsView, kind: usize, choice: usize, level: usize) -> Seq<
    TaskM,
> {
    if kind > 2 && level >= kind {
        walk_tasks(ch, choice as nat)
    } else if kind > 1 && level >= kind {
        if ch.conses.len() == 0 {
            Seq::empty()
        } else {
            let i = (choice as nat) % ch.conses.len();
            match ch.conses[i as int] {
                ConsPath::Nil => Seq::empty(),
                ConsPath::Consed(a, b) => {
                    if cons_entry_ok(a, i as int) && cons_entry_ok(b, i as int) && i <= choice {
                        seq![TaskM::MakePair, TaskM::ResolveCC(a), TaskM::ResolveCC(b)]
                    } else {
                        Seq::empty()
                    }
                },
            }
        }
    } else {
        Seq::empty()
    }
}

/// The finished values one `make_choice` step pushes.
pub open spec fn mc_vals(ch: ChainsView, kind: usize, choice: usize, level: usize) -> Seq<
    Tree,
> {
    if kind > 2 && level >= kind {
        seq![nil_tree()]
    } else if kind > 1 && level >= kind {
        if ch.conses.len() == 0 {
            seq![nil_tree()]
        } else {
            let i = (choice as nat) % ch.conses.len();
            match ch.conses[i as int] {
                ConsPath::Nil => seq![nil_tree()],
                ConsPath::Consed(a, b) => {
                    if cons_entry_ok(a, i as int) && cons_entry_ok(b, i as int) && i <= choice {
                        Seq::empty()
                    } else {
                        seq![nil_tree()]
                    }
                },
            }
        }
    } else {
        seq![Tree::Atom(atom_walk(ch.atoms, choice as nat))]
    }
}

/// Executing the tasks a list walk pushed, above `tasks` and a base value,
/// builds exactly the walk's tree above `tasks`.
pub proof fn lemma_denote_walk(
    ch: ChainsView,
    choices: Seq<usize>,
    k: nat,
    idx: nat,
    tasks: Seq<TaskM>,
    vals: Seq<Tree>,
    base: Tree,
)
    ensures
        denote(ch, choices, k, tasks + walk_tasks(ch, idx), vals.push(base)).0 == denote(
            ch,
            choices,
            k,
            tasks,
            vals.push(list_walk(ch, idx, base).0),
        ).0,
        denote(ch, choices, k, tasks + walk_tasks(ch, idx), vals.push(base)).1 == denote(
            ch,
            choices,
            k,
            tasks,
            vals.push(list_walk(ch, idx, base).0),
        ).1,
        denote(ch, choices, k, tasks + walk_tasks(ch, idx), vals.push(base)).2 == list_walk(
            ch,
            idx,
            base,
        ).1 + denote(ch, choices, k, tasks, vals.push(list_walk(ch, idx, base).0)).2,
    decreases idx,
{
    let w = list_walk(ch, idx, base);
    let walk_done = {
        &&& ch.lists.len() > 0
        &&& ch.lists[(idx % ch.lists.len()) as int] matches ListPath::Enlisted(h, _t)
        &&& idx > 0
        &&& walk_entry_ok(ch.lists[(idx % ch.lists.len()) as int]->Enlisted_0, idx as int)
    };
    if !walk_done {
        assert(walk_tasks(ch, idx) =~= Seq::<TaskM>::empty());
        assert(tasks + walk_tasks(ch, idx) =~= tasks);
        assert(w.0 == base && w.1 == 0);
    } else {
        let m = idx % ch.lists.len();
        let h = ch.lists[m as int]->Enlisted_0;
        let t = ch.lists[m as int]->Enlisted_1;
        let idx2 = (t as nat) % idx;
        let w2 = list_walk(ch, idx2, base);
        let rh = resolve_cc(ch, h);
        let t1 = tasks.push(TaskM::MakePair);
        let tasks2 = t1.push(TaskM::ResolveCC(h));
        assert(walk_tasks(ch, idx) == seq![TaskM::MakePair, TaskM::ResolveCC(h)] + walk_tasks(
            ch,
            idx2,
        ));
        assert(tasks + walk_tasks(ch, idx) =~= tasks2 + walk_tasks(ch, idx2));
        lemma_denote_walk(ch, choices, k, idx2, tasks2, vals, base);
        // Unfold the two steps that consume the selector task and the
        // combine task.
        let d2 = denote(ch, choices, k, tasks2, vals.push(w2.0));
        let vmid = vals.push(w2.0).push(rh.0);
        let dd1 = denote(ch, choices, k, t1, vmid);
        assert(tasks2.last() == TaskM::ResolveCC(h));
        assert(tasks2.drop_last() =~= t1);
        assert(d2.0 == dd1.0 && d2.1 == dd1.1 && d2.2 == rh.1 + dd1.2);
        assert(t1.last() == TaskM::MakePair);
        assert(t1.drop_last() =~= tasks);
        assert(vmid.len() >= 2);
        assert(vmid.last() == rh.0);
        assert(vmid[vmid.len() - 2] == w2.0);
        let vfin = vmid.drop_last().drop_last().push(pair_tree(rh.0, w2.0));
        assert(vfin =~= vals.push(pair_tree(rh.0, w2.0)));
        let dfin = denote(ch, choices, k, tasks, vals.push(pair_tree(rh.0, w2.0)));
        assert(dd1.0 == dfin.0 && dd1.1 == dfin.1 && dd1.2 == 1 + dfin.2);
        assert(w.0 == pair_tree(rh.0, w2.0));
        assert(w.1 == 1 + rh.1 + w2.1);
    }
}

/// Executing the tasks and values one `make_choice` step pushed, above
/// `tasks` and `vals`, builds exactly the step's resolved tree.
pub proof fn lemma_denote_mc(
    ch: ChainsView,
    choices: Seq<usize>,
    k: nat,
    kind: usize,
    choice: usize,
    level: usize,
    tasks: Seq<TaskM>,
    vals: Seq<Tree>,
)
    ensures
        denote(
            ch,
            choices,
            k,
            tasks + mc_tasks(ch, kind, choice, level),
            vals + mc_vals(ch, kind, choice, level),
        ).0 == denote(ch, choices, k, tasks, vals.push(spec_make_choice(ch, kind, choice, level).0)).0,
        denote(
            ch,
            choices,
            k,
            tasks + mc_tasks(ch, kind, choice, level),
            vals + mc_vals(ch, kind, choice, level),
        ).1 == denote(ch, choices, k, tasks, vals.push(spec_make_choice(ch, kind, choice, level).0)).1,
        denote(
            ch,
            choices,
            k,
            tasks + mc_tasks(ch, kind, choice, level),
            vals + mc_vals(ch, kind, choice, level),
        ).2 == spec_make_choice(ch, kind, choice, level).1 + denote(
            ch,
            choices,
            k,
            tasks,
            vals.push(spec_make_choice(ch, kind, choice, level).0),
        ).2,
{
    let r = spec_make_choice(ch, kind, choice, level);
    if kind > 2 && level >= kind {
        assert(vals + mc_vals(ch, kind, choice, level) =~= vals.push(nil_tree()));
        lemma_denote_walk(ch, choices, k, choice as nat, tasks, vals, nil_tree());
    } else if kind > 1 && level >= kind {
        let consed_ok = {
            &&& ch.conses.len() > 0
            &&& ch.conses[((choice as nat) % ch.conses.len()) as int] matches ConsPath::Consed(
                a,
                b,
            )
            &&& cons_entry_ok(a, ((choice as nat) % ch.conses.len()) as int)
            &&& cons_entry_ok(b, ((choice as nat) % ch.conses.len()) as int)
            &&& (choice as nat) % ch.conses.len() <= choice
        };
        if !consed_ok {
            assert(mc_tasks(ch, kind, choice, level) =~= Seq::<TaskM>::empty());
            assert(tasks + mc_tasks(ch, kind, choice, level) =~= tasks);
            assert(vals + mc_vals(ch, kind, choice, level) =~= vals.push(nil_tree()));
            assert(r.0 == nil_tree() && r.1 == 0);
        } else {
            let i = (choice as nat) % ch.conses.len();
            let a = ch.conses[i as int]->Consed_0;
            let b = ch.conses[i as int]->Consed_1;
            let ra = resolve_cc(ch, a);
            let rb = resolve_cc(ch, b);
            assert(vals + mc_vals(ch, kind, choice, level) =~= vals);
            let t1 = tasks.push(TaskM::MakePair);
            let t2 = t1.push(TaskM::ResolveCC(a));
            let t3 = t2.push(TaskM::ResolveCC(b));
            assert(tasks + mc_tasks(ch, kind, choice, level) =~= t3);
            // Step 1: the selector for the right half.
            let d3 = denote(ch, choices, k, t3, vals);
            assert(t3.last() == TaskM::ResolveCC(b));
            assert(t3.drop_last() =~= t2);
            let d2 = denote(ch, choices, k, t2, vals.push(rb.0));
            assert(d3.0 == d2.0 && d3.1 == d2.1 && d3.2 == rb.1 + d2.2);
            // Step 2: the selector for the left half.
            assert(t2.last() == TaskM::ResolveCC(a));
            assert(t2.drop_last() =~= t1);
            let vmid = vals.push(rb.0).push(ra.0);
            let d1 = denote(ch, choices, k, t1, vmid);
            assert(d2.0 == d1.0 && d2.1 == d1.1 && d2.2 == ra.1 + d1.2);
            // Step 3: the combine.
            assert(t1.last() == TaskM::MakePair);
            assert(t1.drop_last() =~= tasks);
            assert(vmid.len() >= 2);
            assert(vmid.last() == ra.0);
            assert(vmid[vmid.len() - 2] == rb.0);
            assert(vmid.drop_last().drop_last().push(pair_tree(ra.0, rb.0)) =~= vals.push(
                pair_tree(ra.0, rb.0),
            ));
            let dfin = denote(ch, choices, k, tasks, vals.push(pair_tree(ra.0, rb.0)));
            assert(d1.0 == dfin.0 && d1.1 == dfin.1 && d1.2 == 1 + dfin.2);
            assert(r.0 == pair_tree(ra.0, rb.0));
            assert(r.1 == 1 + ra.1 + rb.1);
        }
    } else {
        assert(tasks + mc_tasks(ch, kind, choice, level) =~= tasks);
        assert(vals + mc_vals(ch, kind, choice, level) =~= vals.push(r.0));
    }
}

/// Executing the three tasks a pair expansion pushes, above `tasks` and
/// `vals`, synthesizes the right child, then the left, then combines them
/// in the prototype's own order.
pub proof fn lemma_denote_pair(
    ch: ChainsView,
    choices: Seq<usize>,
    k: nat,
    l: Tree,
    r: Tree,
    tasks: Seq<TaskM>,
    vals: Seq<Tree>,
)
    ensures
        ({
            let sr = spec_synth(ch, choices, k, r);
            let sl = spec_synth(ch, choices, sr.1, l);
            let t3 = tasks + seq![TaskM::MakePair, TaskM::Expand(l), TaskM::Expand(r)];
            let d = denote(ch, choices, sl.1, tasks, vals.push(pair_tree(sl.0, sr.0)));
            denote(ch, choices, k, t3, vals).0 == d.0 && denote(ch, choices, k, t3, vals).1
                == d.1 && denote(ch, choices, k, t3, vals).2 == sr.2 + sl.2 + 1 + d.2
        }),
{
    let sr = spec_synth(ch, choices, k, r);
    let sl = spec_synth(ch, choices, sr.1, l);
    let t1 = tasks.push(TaskM::MakePair);
    let t2 = t1.push(TaskM::Expand(l));
    let t3full = t2.push(TaskM::Expand(r));
    assert(tasks + seq![TaskM::MakePair, TaskM::Expand(l), TaskM::Expand(r)] =~= t3full);
    // Step 1: expand the right child.
    assert(t3full.last() == TaskM::Expand(r));
    assert(t3full.drop_last() =~= t2);
    let d3 = denote(ch, choices, k, t3full, vals);
    let d2 = denote(ch, choices, sr.1, t2, vals.push(sr.0));
    assert(d3.0 == d2.0 && d3.1 == d2.1 && d3.2 == sr.2 + d2.2);
    // Step 2: expand the left child.
    assert(t2.last() == TaskM::Expand(l));
    assert(t2.drop_last() =~= t1);
    let vmid = vals.push(sr.0).push(sl.0);
    let d1 = denote(ch, choices, sl.1, t1, vmid);
    assert(d2.0 == d1.0 && d2.1 == d1.1 && d2.2 == sl.2 + d1.2);
    // Step 3: combine, left on top.
    assert(t1.last() == TaskM::MakePair);
    assert(t1.drop_last() =~= tasks);
    assert(vmid.len() >= 2);
    assert(vmid.last() == sl.0);
    assert(vmid[vmid.len() - 2] == sr.0);
    assert(vmid.drop_last().drop_last().push(pair_tree(sl.0, sr.0)) =~= vals.push(
        pair_tree(sl.0, sr.0),
    ));
    let dfin = denote(ch, choices, sl.1, tasks, vals.push(pair_tree(sl.0, sr.0)));
    assert(d1.0 == dfin.0 && d1.1 == dfin.1 && d1.2 == 1 + dfin.2);
}

/// The raw kind, magnitude and altitude a stored selector re-enters
/// `make_choice` with.
pub open spec fn cc_params(cc: ConsContent) -> (usize, usize, usize) {
    match cc {
        ConsContent::WithAtom(c) => (0usize, c, 1usize),
        ConsContent::WithCons(c) => (2usize, c, 2usize),
        ConsContent::WithList(c) => (3usize, c, 3usize),
    }
}

/// Re-entering `make_choice` with a stored selector's parameters builds
/// the selector's resolved tree, with one task's weight spent.
pub proof fn lemma_mc_resolves(ch: ChainsView, cc: ConsContent)
    ensures
        ({
            let p = cc_params(cc);
            let m = spec_make_choice(ch, p.0, p.1, p.2);
            let r = resolve_cc(ch, cc);
            m.0 == r.0 && r.1 == m.1 + 1
        }),
{
    match cc {
        ConsContent::WithAtom(_c) => {},
        ConsContent::WithCons(_c) => {},
        ConsContent::WithList(_c) => {},
    }
}

} // verus!
