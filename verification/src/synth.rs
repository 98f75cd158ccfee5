//! The synthesizer: materializes a genome's chains and walks a prototype
//! tree with an explicit work stack, building an isomorphic output tree
//! through the builder capability.

use vstd::prelude::*;
use vstd::arithmetic::div_mod::lemma_mod_decreases;
use vstd::arithmetic::div_mod::lemma_small_mod;
use vstd::arithmetic::div_mod::lemma_add_mod_noop_right;
use crate::builder::SexpBuilder;
use crate::genome::CollectArgumentStructure;
use crate::genome::GenomeView;
use crate::model::AtomPath;
use crate::model::ChainsView;
use crate::model::ConsContent;
use crate::model::ConsPath;
use crate::model::ListPath;
use crate::model::TaskM;
use crate::model::base_cursor;
use crate::model::cons_entry_ok;
use crate::model::list_entry_ok;
use crate::model::mc_tasks;
use crate::model::mc_vals;
use crate::model::walk_entry_ok;
use crate::model::walk_tasks;
use crate::model::atom_walk;
use crate::model::denote;
use crate::model::lemma_denote_mc;
use crate::model::lemma_denote_pair;
use crate::model::lemma_mc_resolves;
use crate::model::spec_make_choice;
use crate::model::spec_synth;
use crate::model::chains_of;
use crate::model::lemma_chains_wf;
use crate::model::nth_choice;
use crate::model::spec_agg_input;
use crate::model::spec_atom_chain;
use crate::model::spec_cons_chain;
use crate::model::spec_list_chain;
use crate::model::spec_synthesize;
use crate::model::wf_chains;
use crate::tree::Tree;
use crate::tree::nil_tree;
use crate::tree::pair_tree;
use crate::builder::SexpContent;

verus! {

/// A pending task on the synthesizer's work stack: expand a prototype
/// node, combine the two topmost finished values, or resolve a stored
/// selector.
enum RevisitStack<T> {
    GenerateFor(T),
    GeneratePair,
    Choice(ConsContent),
}

/// The stored cursor is the absolute draw count reduced modulo the choice
/// pool's length (zero for an empty pool).
pub open spec fn cursor_ok(cursor: usize, k: nat, n: nat) -> bool {
    if n == 0 {
        cursor == 0
    } else {
        cursor as nat == k % n
    }
}

/// An exec task stands for a model task: a prototype node for the
/// expansion of its view, and the other tasks for themselves.
spec fn task_rel<T, E, B: SexpBuilder<T, E>>(b: B, t: RevisitStack<T>, m: TaskM) -> bool {
    match t {
        RevisitStack::GenerateFor(v) => {
            &&& b.node_wf(v)
            &&& m == TaskM::Expand(b.view_of(v))
        },
        RevisitStack::GeneratePair => m == TaskM::MakePair,
        RevisitStack::Choice(cc) => m == TaskM::ResolveCC(cc),
    }
}

/// A task that carries no node handle stands for its model task under any
/// builder.
spec fn simple_rel<T>(t: RevisitStack<T>, m: TaskM) -> bool {
    match t {
        RevisitStack::GenerateFor(_) => false,
        RevisitStack::GeneratePair => m == TaskM::MakePair,
        RevisitStack::Choice(cc) => m == TaskM::ResolveCC(cc),
    }
}

spec fn stack_rel<T, E, B: SexpBuilder<T, E>>(
    b: B,
    s: Seq<RevisitStack<T>>,
    ms: Seq<TaskM>,
) -> bool {
    &&& s.len() == ms.len()
    &&& forall|i: int| 0 <= i < s.len() ==> task_rel(b, #[trigger] s[i], ms[i])
}

spec fn vals_rel<T, E, B: SexpBuilder<T, E>>(b: B, ds: Seq<T>, dms: Seq<Tree>) -> bool {
    &&& ds.len() == dms.len()
    &&& forall|i: int|
        0 <= i < ds.len() ==> b.node_wf(#[trigger] ds[i]) && b.view_of(ds[i]) == dms[i]
}

/// A builder that extends another keeps every stack and value relation.
proof fn lemma_rels_extend<T, E, B: SexpBuilder<T, E>>(
    bnew: B,
    bold: B,
    s: Seq<RevisitStack<T>>,
    ms: Seq<TaskM>,
    ds: Seq<T>,
    dms: Seq<Tree>,
)
    requires
        bnew.extends(&bold),
        stack_rel(bold, s, ms),
        vals_rel(bold, ds, dms),
    ensures
        stack_rel(bnew, s, ms),
        vals_rel(bnew, ds, dms),
{
    assert forall|i: int| 0 <= i < s.len() implies task_rel(bnew, #[trigger] s[i], ms[i]) by {
        match s[i] {
            RevisitStack::GenerateFor(v) => {
                bnew.lemma_extends_node(&bold, v);
            },
            _ => {},
        }
    }
    assert forall|i: int| 0 <= i < ds.len() implies bnew.node_wf(#[trigger] ds[i])
        && bnew.view_of(ds[i]) == dms[i] by {
        bnew.lemma_extends_node(&bold, ds[i]);
    }
}

/// Internal state for one synthesis run: the genome, the materialized
/// chains, and the round-robin choice cursor.
pub struct CollectArgumentStructureReader<'a> {
    choice: usize,
    cas: &'a CollectArgumentStructure,
    atoms: Vec<AtomPath>,
    conses: Vec<ConsPath>,
    lists: Vec<ListPath>,
}

impl<'a> CollectArgumentStructureReader<'a> {
    /// The genome this reader expands.
    pub closed spec fn genome(&self) -> GenomeView {
        self.cas@
    }

    /// The chains as materialized so far.
    pub closed spec fn chains(&self) -> ChainsView {
        ChainsView { atoms: self.atoms@, conses: self.conses@, lists: self.lists@ }
    }

    /// The round-robin choice cursor.
    pub closed spec fn cursor(&self) -> usize {
        self.choice
    }

    /// A reader that has not materialized or drawn anything yet: each chain
    /// holds only its sentinel and the cursor is at the start.
    pub closed spec fn fresh(&self) -> bool {
        &&& self.choice == 0
        &&& self.atoms@ == seq![AtomPath::Nil]
        &&& self.conses@ == seq![ConsPath::Nil]
        &&& self.lists@ == seq![ListPath::Nil]
    }

    /// A fresh reader over a genome.
    pub fn new(cas: &'a CollectArgumentStructure) -> (r: Self)
        ensures
            r.fresh(),
            r.genome() == cas@,
    {
        let mut atoms: Vec<AtomPath> = Vec::new();
        atoms.push(AtomPath::Nil);
        let mut conses: Vec<ConsPath> = Vec::new();
        conses.push(ConsPath::Nil);
        let mut lists: Vec<ListPath> = Vec::new();
        lists.push(ListPath::Nil);
        proof {
            assert(atoms@ =~= seq![AtomPath::Nil]);
            assert(conses@ =~= seq![ConsPath::Nil]);
            assert(lists@ =~= seq![ListPath::Nil]);
        }
        CollectArgumentStructureReader { choice: 0, cas, atoms, conses, lists }
    }

    /// Pick from a chain by an index reduced modulo the chain's current
    /// length, or the default when the chain is empty: no lookup ever uses
    /// an index at or above the chain's length.
    fn choose_with_default<U: Copy>(&self, lst: &Vec<U>, choice: usize, default: U) -> (r: U)
        ensures
            r == (if lst@.len() == 0 {
                default
            } else {
                lst@[((choice as nat) % lst@.len()) as int]
            }),
    {
        if lst.len() == 0 {
            return default;
        }
        lst[choice % lst.len()]
    }

    /// Draw the next choice: round-robin over the pool, `None` when the
    /// pool is empty.  The ghost argument is the absolute draw count.
    fn get_choice(&mut self, Ghost(k): Ghost<nat>) -> (r: Option<usize>)
        requires
            cursor_ok(old(self).choice, k, old(self).cas.choices@.len()),
        ensures
            final(self).cas == old(self).cas,
            final(self).atoms == old(self).atoms,
            final(self).conses == old(self).conses,
            final(self).lists == old(self).lists,
            cursor_ok(final(self).choice, k + 1, old(self).cas.choices@.len()),
            r == (if old(self).cas.choices@.len() == 0 {
                Option::<usize>::None
            } else {
                Option::Some(nth_choice(old(self).cas.choices@, k))
            }),
    {
        let len = self.cas.choices.len();
        if len == 0 {
            return None;
        }
        let this_choice = self.cas.choices[self.choice % len];
        proof {
            assert(self.choice as nat == k % (len as nat));
            assert(self.choice < len);
            lemma_small_mod(self.choice as nat, len as nat);
            assert((self.choice as nat) % (len as nat) == self.choice as nat);
        }
        self.choice = (self.choice % len + 1) % len;
        proof {
            lemma_add_mod_noop_right(1, k as int, len as int);
            assert((k % (len as nat) + 1) as int % (len as int) == (k + 1) as int % (len as int));
        }
        Some(this_choice)
    }

    /// Resolve a raw value into a selector against the chains' current
    /// lengths, gated by the altitude.
    fn choose_agg_input(&self, choice: usize, level: usize) -> (r: ConsContent)
        requires
            self.conses@.len() >= 1,
            self.lists@.len() >= 1,
        ensures
            r == spec_agg_input(choice, level, self.conses@.len() as usize, self.lists@.len() as usize),
    {
        let choice_type = choice & 3;
        let choice_value = choice >> 2;
        if level == 3 && choice_type == 3 {
            ConsContent::WithList(choice_value % self.lists.len())
        } else if level > 1 && choice_type > 1 {
            ConsContent::WithCons(choice_value % self.conses.len())
        } else {
            ConsContent::WithAtom(choice_value)
        }
    }

    /// Expand the genome's flat seed pools into the three chains, in seed
    /// order: atoms, then conses (one choice drawn each), then lists (one
    /// choice drawn each).
    pub fn materialize(&mut self)
        requires
            old(self).fresh(),
        ensures
            final(self).genome() == old(self).genome(),
            final(self).chains() == chains_of(old(self).genome()),
            wf_chains(final(self).chains()),
            cursor_ok(
                final(self).cursor(),
                base_cursor(old(self).genome()),
                old(self).genome().choices.len(),
            ),
    {
        let ghost g = self.cas@;
        // Make atoms.
        let n_atoms = self.cas.atoms.len();
        let mut i: usize = 0;
        while i < n_atoms
            invariant
                self.cas == old(self).cas,
                g == self.cas@,
                self.choice == 0,
                self.conses@ == seq![ConsPath::Nil],
                self.lists@ == seq![ListPath::Nil],
                n_atoms == g.atoms.len(),
                i <= n_atoms,
                self.atoms@ =~= spec_atom_chain(g.atoms).take(i + 1),
            decreases n_atoms - i,
        {
            let a = self.cas.atoms[i];
            self.atoms.push(AtomPath::AndByte((a & 0xff) as u8, a >> 8));
            i = i + 1;
            proof {
                assert(self.atoms@ =~= spec_atom_chain(g.atoms).take(i + 1));
            }
        }
        proof {
            assert(self.atoms@ =~= spec_atom_chain(g.atoms));
        }
        // Make conses.
        let n_conses = self.cas.conses.len();
        let mut i: usize = 0;
        while i < n_conses
            invariant
                self.cas == old(self).cas,
                g == self.cas@,
                self.atoms@ == spec_atom_chain(g.atoms),
                self.lists@ == seq![ListPath::Nil],
                n_conses == g.conses.len(),
                i <= n_conses,
                cursor_ok(self.choice, i as nat, g.choices.len()),
                self.conses@ =~= spec_cons_chain(g).take(i + 1),
            decreases n_conses - i,
        {
            let seed = self.cas.conses[i];
            let first_item = self.choose_agg_input(seed, 2);
            let first_choice = match self.get_choice(Ghost(i as nat)) {
                Some(c) => c,
                None => 0,
            };
            let second_item = self.choose_agg_input(first_choice, 2);
            proof {
                assert(first_choice == nth_choice(g.choices, i as nat));
                assert(self.conses@.len() == i + 1);
            }
            self.conses.push(ConsPath::Consed(first_item, second_item));
            i = i + 1;
            proof {
                assert(spec_cons_chain(g)[i as int] == ConsPath::Consed(
                    spec_agg_input(g.conses[i - 1], 2, i as usize, 1),
                    spec_agg_input(nth_choice(g.choices, (i - 1) as nat), 2, i as usize, 1),
                ));
                assert(self.conses@ =~= spec_cons_chain(g).take(i + 1));
            }
        }
        proof {
            assert(self.conses@ =~= spec_cons_chain(g));
        }
        // Make lists.
        let n_lists = self.cas.lists.len();
        let mut i: usize = 0;
        while i < n_lists
            invariant
                self.cas == old(self).cas,
                g == self.cas@,
                self.atoms@ == spec_atom_chain(g.atoms),
                self.conses@ == spec_cons_chain(g),
                n_lists == g.lists.len(),
                i <= n_lists,
                cursor_ok(self.choice, (g.conses.len() + i) as nat, g.choices.len()),
                self.lists@ =~= spec_list_chain(g).take(i + 1),
            decreases n_lists - i,
        {
            let seed = self.cas.lists[i];
            let head_choice = match self.get_choice(Ghost((g.conses.len() + i) as nat)) {
                Some(c) => c,
                None => 0,
            };
            let head = self.choose_agg_input(head_choice, 3);
            proof {
                assert(head_choice == nth_choice(g.choices, (g.conses.len() + i) as nat));
                assert(self.lists@.len() == i + 1);
                assert(self.conses@.len() == g.conses.len() + 1);
            }
            self.lists.push(ListPath::Enlisted(head, seed));
            i = i + 1;
            proof {
                assert(spec_list_chain(g)[i as int] == ListPath::Enlisted(
                    spec_agg_input(
                        nth_choice(g.choices, (g.conses.len() + i - 1) as nat),
                        3,
                        (g.conses.len() + 1) as usize,
                        i as usize,
                    ),
                    g.lists[i - 1],
                ));
                assert(self.lists@ =~= spec_list_chain(g).take(i + 1));
            }
        }
        proof {
            assert(self.lists@ =~= spec_list_chain(g));
            lemma_chains_wf(g);
        }
    }

    /// Resolve one raw (kind, magnitude) draw at an altitude: a list draw
    /// pushes a nil base value and the walk's combine/selector tasks; a
    /// cons draw pushes a combine task and the slot's two selectors, or a
    /// nil value at the sentinel; an atom draw walks the atom chain and
    /// builds the accumulated bytes.
    fn make_choice<T, E, B: SexpBuilder<T, E>>(
        &self,
        do_stack: &mut Vec<RevisitStack<T>>,
        done: &mut Vec<T>,
        builder: &mut B,
        kind: usize,
        choice: usize,
        level: usize,
    ) -> (r: Result<(), E>)
        requires
            wf_chains(self.chains()),
            old(builder).wf(),
        ensures
            final(builder).wf(),
            final(builder).extends(old(builder)),
            r is Ok ==> {
                let ts = mc_tasks(self.chains(), kind, choice, level);
                let vs = mc_vals(self.chains(), kind, choice, level);
                &&& final(do_stack)@.len() == old(do_stack)@.len() + ts.len()
                &&& final(do_stack)@.subrange(0, old(do_stack)@.len() as int) == old(do_stack)@
                &&& stack_rel(*final(builder), final(do_stack)@.skip(old(do_stack)@.len() as int), ts)
                &&& final(done)@.len() == old(done)@.len() + vs.len()
                &&& final(done)@.subrange(0, old(done)@.len() as int) == old(done)@
                &&& vals_rel(*final(builder), final(done)@.skip(old(done)@.len() as int), vs)
            },
            r is Err ==> final(do_stack)@ == old(do_stack)@ && final(done)@ == old(done)@,
    {
        let ghost ch = self.chains();
        let ghost stack0 = do_stack@;
        let ghost done0 = done@;
        if kind > 2 && level >= kind {
            let nil_node = builder.make_nil();
            done.push(nil_node);
            let mut use_list: usize = choice;
            let ghost mut pushed: Seq<TaskM> = Seq::empty();
            proof {
                assert(do_stack@ =~= stack0 + Seq::<RevisitStack<T>>::empty());
            }
            loop
                invariant
                    ch == self.chains(),
                    wf_chains(ch),
                    do_stack@.len() == stack0.len() + pushed.len(),
                    do_stack@.subrange(0, stack0.len() as int) == stack0,
                    forall|i: int|
                        0 <= i < pushed.len() ==> simple_rel(
                            #[trigger] do_stack@[stack0.len() + i],
                            pushed[i],
                        ),
                    walk_tasks(ch, choice as nat) == pushed + walk_tasks(ch, use_list as nat),
                ensures
                    do_stack@.len() == stack0.len() + pushed.len(),
                    do_stack@.subrange(0, stack0.len() as int) == stack0,
                    forall|i: int|
                        0 <= i < pushed.len() ==> simple_rel(
                            #[trigger] do_stack@[stack0.len() + i],
                            pushed[i],
                        ),
                    pushed == walk_tasks(ch, choice as nat),
                decreases use_list,
            {
                let entry = self.choose_with_default(&self.lists, use_list, ListPath::Nil);
                match entry {
                    ListPath::Nil => {
                        proof {
                            assert(walk_tasks(ch, use_list as nat) =~= Seq::<TaskM>::empty());
                            assert(pushed =~= pushed + walk_tasks(ch, use_list as nat));
                        }
                        break ;
                    },
                    ListPath::Enlisted(h, t) => {
                        proof {
                            if use_list == 0 {
                                lemma_small_mod(0, ch.lists.len());
                                assert(entry == ch.lists[0]);
                                assert(false);
                            }
                            let m = (use_list as nat) % ch.lists.len();
                            if m == 0 {
                                assert(entry == ch.lists[0]);
                                assert(false);
                            }
                            lemma_mod_decreases(use_list as nat, ch.lists.len());
                            assert(m <= use_list as nat);
                            assert(list_entry_ok(h, m as int, ch.conses.len() as int));
                            assert(walk_entry_ok(h, use_list as int));
                            assert(walk_tasks(ch, use_list as nat) == seq![
                                TaskM::MakePair,
                                TaskM::ResolveCC(h),
                            ] + walk_tasks(ch, (t as nat) % (use_list as nat)));
                        }
                        let ghost pushed_pre = pushed;
                        let ghost walk_pre: nat = use_list as nat;
                        use_list = t % use_list;
                        do_stack.push(RevisitStack::GeneratePair);
                        do_stack.push(RevisitStack::Choice(h));
                        proof {
                            pushed = pushed + seq![TaskM::MakePair, TaskM::ResolveCC(h)];
                            assert(do_stack@.subrange(0, stack0.len() as int) =~= stack0);
                            assert(walk_tasks(ch, choice as nat) =~= pushed + walk_tasks(
                                ch,
                                use_list as nat,
                            ));
                        }
                    },
                }
            }
            proof {
                let ts = mc_tasks(ch, kind, choice, level);
                let vs = mc_vals(ch, kind, choice, level);
                assert(ts == walk_tasks(ch, choice as nat));
                assert(vs == seq![nil_tree()]);
                let suffix = do_stack@.skip(stack0.len() as int);
                assert(suffix.len() == ts.len());
                assert forall|i: int| 0 <= i < suffix.len() implies task_rel(
                    *builder,
                    #[trigger] suffix[i],
                    ts[i],
                ) by {
                    assert(suffix[i] == do_stack@[stack0.len() + i]);
                    assert(simple_rel(do_stack@[stack0.len() + i], ts[i]));
                }
                assert(done@ =~= done0.push(nil_node));
                assert(done@.subrange(0, done0.len() as int) =~= done0);
                assert(done@.skip(done0.len() as int) =~= seq![nil_node]);
            }
            Ok(())
        } else if kind > 1 && level >= kind {
            let entry = self.choose_with_default(&self.conses, choice, ConsPath::Nil);
            match entry {
                ConsPath::Consed(a, b) => {
                    proof {
                        let i = (choice as nat) % ch.conses.len();
                        if i == 0 {
                            assert(entry == ch.conses[0]);
                            assert(false);
                        }
                        lemma_mod_decreases(choice as nat, ch.conses.len());
                        assert(cons_entry_ok(a, i as int) && cons_entry_ok(b, i as int) && i
                            <= choice);
                    }
                    do_stack.push(RevisitStack::GeneratePair);
                    do_stack.push(RevisitStack::Choice(a));
                    do_stack.push(RevisitStack::Choice(b));
                    proof {
                        builder.lemma_extends_refl();
                        let ts = mc_tasks(ch, kind, choice, level);
                        assert(ts == seq![
                            TaskM::MakePair,
                            TaskM::ResolveCC(a),
                            TaskM::ResolveCC(b),
                        ]);
                        assert(mc_vals(ch, kind, choice, level) == Seq::<Tree>::empty());
                        assert(do_stack@.subrange(0, stack0.len() as int) =~= stack0);
                        assert(do_stack@.skip(stack0.len() as int) =~= seq![
                            RevisitStack::<T>::GeneratePair,
                            RevisitStack::<T>::Choice(a),
                            RevisitStack::<T>::Choice(b),
                        ]);
                        assert(done@.subrange(0, done0.len() as int) =~= done0);
                        assert(done@.skip(done0.len() as int) =~= Seq::<T>::empty());
                    }
                    Ok(())
                },
                ConsPath::Nil => {
                    let nil_node = builder.make_nil();
                    done.push(nil_node);
                    proof {
                        assert(mc_tasks(ch, kind, choice, level) == Seq::<TaskM>::empty());
                        assert(mc_vals(ch, kind, choice, level) == seq![nil_tree()]);
                        assert(do_stack@.subrange(0, stack0.len() as int) =~= stack0);
                        assert(do_stack@.skip(stack0.len() as int) =~= Seq::<
                            RevisitStack<T>,
                        >::empty());
                        assert(done@.subrange(0, done0.len() as int) =~= done0);
                        assert(done@.skip(done0.len() as int) =~= seq![nil_node]);
                    }
                    Ok(())
                },
            }
        } else {
            let mut atom_bytes: Vec<u8> = Vec::new();
            let mut use_atom: usize = choice;
            loop
                invariant
                    ch == self.chains(),
                    wf_chains(ch),
                    atom_walk(ch.atoms, choice as nat) == atom_bytes@ + atom_walk(
                        ch.atoms,
                        use_atom as nat,
                    ),
                ensures
                    atom_bytes@ == atom_walk(ch.atoms, choice as nat),
                decreases use_atom,
            {
                let entry = self.choose_with_default(&self.atoms, use_atom, AtomPath::Nil);
                match entry {
                    AtomPath::Nil => {
                        proof {
                            assert(atom_walk(ch.atoms, use_atom as nat) =~= Seq::<u8>::empty());
                            assert(atom_bytes@ =~= atom_bytes@ + atom_walk(
                                ch.atoms,
                                use_atom as nat,
                            ));
                        }
                        break ;
                    },
                    AtomPath::AndByte(b, next) => {
                        proof {
                            if use_atom == 0 {
                                lemma_small_mod(0, ch.atoms.len());
                                assert(entry == ch.atoms[0]);
                                assert(false);
                            }
                            assert(atom_walk(ch.atoms, use_atom as nat) == seq![b] + atom_walk(
                                ch.atoms,
                                (next as nat) % (use_atom as nat),
                            ));
                        }
                        let ghost bytes_pre = atom_bytes@;
                        use_atom = next % use_atom;
                        atom_bytes.push(b);
                        proof {
                            assert(atom_bytes@ =~= bytes_pre + seq![b]);
                            assert(atom_walk(ch.atoms, choice as nat) =~= atom_bytes@
                                + atom_walk(ch.atoms, use_atom as nat));
                        }
                    },
                }
            }
            match builder.make_atom(atom_bytes.as_slice()) {
                Ok(n) => {
                    done.push(n);
                    proof {
                        assert(mc_tasks(ch, kind, choice, level) == Seq::<TaskM>::empty());
                        assert(mc_vals(ch, kind, choice, level) == seq![
                            Tree::Atom(atom_walk(ch.atoms, choice as nat)),
                        ]);
                        assert(do_stack@.subrange(0, stack0.len() as int) =~= stack0);
                        assert(do_stack@.skip(stack0.len() as int) =~= Seq::<
                            RevisitStack<T>,
                        >::empty());
                        assert(done@.subrange(0, done0.len() as int) =~= done0);
                        assert(done@.skip(done0.len() as int) =~= seq![n]);
                    }
                    Ok(())
                },
                Err(e) => Err(e),
            }
        }
    }

    /// Run the work-stack machine against a prototype.  Every iteration
    /// pops one task; the finished-value stack ends holding exactly the
    /// synthesized root.
    fn run_stack<T, E, B: SexpBuilder<T, E>>(
        &mut self,
        builder: &mut B,
        prototype: T,
        Ghost(k0): Ghost<nat>,
    ) -> (r: Result<T, E>)
        requires
            wf_chains(old(self).chains()),
            cursor_ok(old(self).choice, k0, old(self).cas.choices@.len()),
            old(builder).wf(),
            old(builder).node_wf(prototype),
        ensures
            final(builder).wf(),
            final(builder).extends(old(builder)),
            r matches Ok(out) ==> final(builder).node_wf(out) && final(builder).view_of(out)
                == spec_synth(
                old(self).chains(),
                old(self).cas.choices@,
                k0,
                old(builder).view_of(prototype),
            ).0,
    {
        let ghost ch = self.chains();
        let ghost choices = self.cas.choices@;
        let ghost b0 = *builder;
        let ghost proto_t = builder.view_of(prototype);
        let ghost target = spec_synth(ch, choices, k0, proto_t);
        let mut done: Vec<T> = Vec::new();
        let mut do_stack: Vec<RevisitStack<T>> = Vec::new();
        do_stack.push(RevisitStack::GenerateFor(prototype));
        let ghost mut tasks: Seq<TaskM> = seq![TaskM::Expand(proto_t)];
        let ghost mut donem: Seq<Tree> = Seq::empty();
        let ghost mut k: nat = k0;
        proof {
            builder.lemma_extends_refl();
            assert(tasks.last() == TaskM::Expand(proto_t));
            assert(tasks.drop_last() =~= Seq::<TaskM>::empty());
            assert(Seq::<Tree>::empty().push(target.0) =~= seq![target.0]);
            assert(denote(
                ch,
                choices,
                target.1,
                Seq::<TaskM>::empty(),
                Seq::<Tree>::empty().push(target.0),
            ).0 == seq![target.0]);
            assert(denote(ch, choices, k0, tasks, donem).0 == seq![target.0]);
        }
        loop
            invariant
                self.cas == old(self).cas,
                choices == self.cas.choices@,
                self.chains() == ch,
                wf_chains(ch),
                b0 == *old(builder),
                builder.wf(),
                builder.extends(&b0),
                cursor_ok(self.choice, k, choices.len()),
                stack_rel(*builder, do_stack@, tasks),
                vals_rel(*builder, done@, donem),
                denote(ch, choices, k, tasks, donem).0 == seq![target.0],
            ensures
                builder.wf(),
                builder.extends(&b0),
                tasks.len() == 0,
                vals_rel(*builder, done@, donem),
                denote(ch, choices, k, tasks, donem).0 == seq![target.0],
            decreases denote(ch, choices, k, tasks, donem).2,
        {
            let ghost stack_full = do_stack@;
            let ghost tasks_full = tasks;
            let ghost donem_full = donem;
            let perform = match do_stack.pop() {
                Some(p) => p,
                None => {
                    break ;
                },
            };
            let ghost tasks_rest = tasks_full.drop_last();
            proof {
                assert(task_rel(*builder, stack_full[stack_full.len() - 1], tasks_full.last()));
                assert(task_rel(*builder, perform, tasks_full.last()));
                assert forall|i: int| 0 <= i < do_stack@.len() implies task_rel(
                    *builder,
                    #[trigger] do_stack@[i],
                    tasks_rest[i],
                ) by {
                    assert(do_stack@[i] == stack_full[i]);
                    assert(task_rel(*builder, stack_full[i], tasks_full[i]));
                }
                assert(stack_rel(*builder, do_stack@, tasks_rest));
            }
            match perform {
                RevisitStack::GeneratePair => {
                    proof {
                        assert(tasks_full.last() == TaskM::MakePair);
                        if donem_full.len() < 2 {
                            assert(denote(ch, choices, k, tasks_full, donem_full).0 =~= Seq::<
                                Tree,
                            >::empty());
                            assert(false);
                        }
                    }
                    let ghost va = donem_full.last();
                    let ghost vb = donem_full[donem_full.len() - 2];
                    let popped_a = done.pop().unwrap();
                    let popped_b = done.pop().unwrap();
                    proof {
                        assert(builder.node_wf(popped_a) && builder.view_of(popped_a) == va);
                        assert(builder.node_wf(popped_b) && builder.view_of(popped_b) == vb);
                    }
                    let ghost bpre = *builder;
                    let ghost done_low = done@;
                    let ghost donem_low = donem_full.drop_last().drop_last();
                    let cons = match builder.make_cons(popped_a, popped_b) {
                        Ok(n) => n,
                        Err(e) => {
                            proof {
                                builder.lemma_extends_trans(&bpre, &b0);
                            }
                            return Err(e);
                        },
                    };
                    done.push(cons);
                    proof {
                        builder.lemma_extends_trans(&bpre, &b0);
                        assert(vals_rel(bpre, done_low, donem_low));
                        lemma_rels_extend(
                            *builder,
                            bpre,
                            do_stack@,
                            tasks_rest,
                            done_low,
                            donem_low,
                        );
                        tasks = tasks_rest;
                        donem = donem_low.push(pair_tree(va, vb));
                        assert(builder.view_of(cons) == pair_tree(va, vb));
                        assert(done@ =~= done_low.push(cons));
                        assert(vals_rel(*builder, done@, donem));
                        assert(denote(ch, choices, k, tasks_full, donem_full).0 == denote(
                            ch,
                            choices,
                            k,
                            tasks,
                            donem,
                        ).0);
                        assert(denote(ch, choices, k, tasks_full, donem_full).2 == 1 + denote(
                            ch,
                            choices,
                            k,
                            tasks,
                            donem,
                        ).2);
                    }
                },
                RevisitStack::Choice(cc) => {
                    let kind: usize;
                    let choice_number: usize;
                    let level: usize;
                    match cc {
                        ConsContent::WithAtom(c) => {
                            kind = 0;
                            choice_number = c;
                            level = 1;
                        },
                        ConsContent::WithCons(c) => {
                            kind = 2;
                            choice_number = c;
                            level = 2;
                        },
                        ConsContent::WithList(c) => {
                            kind = 3;
                            choice_number = c;
                            level = 3;
                        },
                    }
                    let ghost bpre = *builder;
                    let ghost spre = do_stack@;
                    let ghost dpre = done@;
                    let res = self.make_choice(
                        &mut do_stack,
                        &mut done,
                        builder,
                        kind,
                        choice_number,
                        level,
                    );
                    match res {
                        Ok(_u) => {},
                        Err(e) => {
                            proof {
                                builder.lemma_extends_trans(&bpre, &b0);
                            }
                            return Err(e);
                        },
                    }
                    proof {
                        builder.lemma_extends_trans(&bpre, &b0);
                        assert(tasks_full.last() == TaskM::ResolveCC(cc));
                        let ts = mc_tasks(ch, kind, choice_number, level);
                        let vs = mc_vals(ch, kind, choice_number, level);
                        lemma_rels_extend(*builder, bpre, spre, tasks_rest, dpre, donem_full);
                        tasks = tasks_rest + ts;
                        donem = donem_full + vs;
                        assert forall|i: int| 0 <= i < do_stack@.len() implies task_rel(
                            *builder,
                            #[trigger] do_stack@[i],
                            tasks[i],
                        ) by {
                            if i < spre.len() {
                                assert(do_stack@[i] == spre[i]);
                                assert(tasks[i] == tasks_rest[i]);
                            } else {
                                assert(do_stack@[i] == do_stack@.skip(spre.len() as int)[i - spre.len()]);
                                assert(tasks[i] == ts[i - spre.len()]);
                            }
                        }
                        assert(stack_rel(*builder, do_stack@, tasks));
                        assert forall|i: int| 0 <= i < done@.len() implies builder.node_wf(
                            #[trigger] done@[i],
                        ) && builder.view_of(done@[i]) == donem[i] by {
                            if i < dpre.len() {
                                assert(done@[i] == dpre[i]);
                                assert(donem[i] == donem_full[i]);
                            } else {
                                assert(done@[i] == done@.skip(dpre.len() as int)[i - dpre.len()]);
                                assert(donem[i] == vs[i - dpre.len()]);
                            }
                        }
                        assert(vals_rel(*builder, done@, donem));
                        lemma_mc_resolves(ch, cc);
                        lemma_denote_mc(
                            ch,
                            choices,
                            k,
                            kind,
                            choice_number,
                            level,
                            tasks_rest,
                            donem_full,
                        );
                        assert(denote(ch, choices, k, tasks, donem).0 == seq![target.0]);
                        assert(denote(ch, choices, k, tasks_full, donem_full).2 == 1 + denote(
                            ch,
                            choices,
                            k,
                            tasks,
                            donem,
                        ).2);
                    }
                },
                RevisitStack::GenerateFor(v) => {
                    let ghost bpre = *builder;
                    let ghost p = bpre.view_of(v);
                    proof {
                        assert(tasks_full.last() == TaskM::Expand(p));
                    }
                    let content = match builder.destructure(v) {
                        Ok(c) => c,
                        Err(e) => {
                            proof {
                                builder.lemma_extends_trans(&bpre, &b0);
                            }
                            return Err(e);
                        },
                    };
                    proof {
                        builder.lemma_extends_trans(&bpre, &b0);
                        lemma_rels_extend(*builder, bpre, do_stack@, tasks_rest, done@, donem_full);
                    }
                    match content {
                        SexpContent::SexpTypeAtom(abytes) => {
                            let ghost ab = abytes@;
                            proof {
                                assert(p == Tree::Atom(ab));
                            }
                            if abytes.len() == 0 {
                                let ghost bpre2 = *builder;
                                let nil_node = builder.make_nil();
                                done.push(nil_node);
                                proof {
                                    builder.lemma_extends_trans(&bpre2, &b0);
                                    let done_pre = done@.drop_last();
                                    assert(done_pre =~= done@.subrange(0, done@.len() - 1));
                                    assert(vals_rel(bpre2, done_pre, donem_full));
                                    lemma_rels_extend(
                                        *builder,
                                        bpre2,
                                        do_stack@,
                                        tasks_rest,
                                        done_pre,
                                        donem_full,
                                    );
                                    tasks = tasks_rest;
                                    donem = donem_full.push(nil_tree());
                                    assert(ab =~= Seq::<u8>::empty());
                                    assert(p == nil_tree());
                                    assert(spec_synth(ch, choices, k, p) == (nil_tree(), k, 1nat));
                                    assert(builder.view_of(nil_node) == nil_tree());
                                    assert forall|i: int| 0 <= i < done@.len() implies builder.node_wf(
                                        #[trigger] done@[i],
                                    ) && builder.view_of(done@[i]) == donem[i] by {
                                        if i < done@.len() - 1 {
                                            assert(done@[i] == done_pre[i]);
                                            assert(donem[i] == donem_full[i]);
                                        } else {
                                            assert(done@[i] == nil_node);
                                        }
                                    }
                                    assert(vals_rel(*builder, done@, donem));
                                    assert(denote(ch, choices, k, tasks_full, donem_full).0
                                        == denote(ch, choices, k, tasks, donem).0);
                                    assert(denote(ch, choices, k, tasks_full, donem_full).2 == 1
                                        + denote(ch, choices, k, tasks, donem).2);
                                }
                            } else {
                                let raw = match self.get_choice(Ghost(k)) {
                                    Some(c) => c,
                                    None => 0,
                                };
                                proof {
                                    assert(raw == nth_choice(choices, k));
                                }
                                let ghost bpre2 = *builder;
                                let ghost spre = do_stack@;
                                let ghost dpre = done@;
                                let res = self.make_choice(
                                    &mut do_stack,
                                    &mut done,
                                    builder,
                                    raw & 3,
                                    raw >> 2,
                                    3,
                                );
                                match res {
                                    Ok(_u) => {},
                                    Err(e) => {
                                        proof {
                                            builder.lemma_extends_trans(&bpre2, &b0);
                                        }
                                        return Err(e);
                                    },
                                }
                                proof {
                                    builder.lemma_extends_trans(&bpre2, &b0);
                                    let ts = mc_tasks(ch, raw & 3, raw >> 2, 3);
                                    let vs = mc_vals(ch, raw & 3, raw >> 2, 3);
                                    let mc = spec_make_choice(ch, raw & 3, raw >> 2, 3);
                                    lemma_rels_extend(*builder, bpre2, spre, tasks_rest, dpre, donem_full);
                                    tasks = tasks_rest + ts;
                                    donem = donem_full + vs;
                                    assert forall|i: int| 0 <= i < do_stack@.len() implies task_rel(
                                        *builder,
                                        #[trigger] do_stack@[i],
                                        tasks[i],
                                    ) by {
                                        if i < spre.len() {
                                            assert(do_stack@[i] == spre[i]);
                                            assert(tasks[i] == tasks_rest[i]);
                                        } else {
                                            assert(do_stack@[i] == do_stack@.skip(
                                                spre.len() as int,
                                            )[i - spre.len()]);
                                            assert(tasks[i] == ts[i - spre.len()]);
                                        }
                                    }
                                    assert(stack_rel(*builder, do_stack@, tasks));
                                    assert forall|i: int| 0 <= i < done@.len() implies builder.node_wf(
                                        #[trigger] done@[i],
                                    ) && builder.view_of(done@[i]) == donem[i] by {
                                        if i < dpre.len() {
                                            assert(done@[i] == dpre[i]);
                                            assert(donem[i] == donem_full[i]);
                                        } else {
                                            assert(done@[i] == done@.skip(dpre.len() as int)[i
                                                - dpre.len()]);
                                            assert(donem[i] == vs[i - dpre.len()]);
                                        }
                                    }
                                    assert(vals_rel(*builder, done@, donem));
                                    assert(spec_synth(ch, choices, k, p) == (
                                        mc.0,
                                        (k + 1) as nat,
                                        (2 + mc.1) as nat,
                                    ));
                                    lemma_denote_mc(
                                        ch,
                                        choices,
                                        (k + 1) as nat,
                                        raw & 3,
                                        raw >> 2,
                                        3,
                                        tasks_rest,
                                        donem_full,
                                    );
                                    assert(denote(ch, choices, k, tasks_full, donem_full).0
                                        == denote(ch, choices, (k + 1) as nat, tasks, donem).0);
                                    assert(denote(ch, choices, k, tasks_full, donem_full).2 == 2
                                        + denote(ch, choices, (k + 1) as nat, tasks, donem).2);
                                    k = (k + 1) as nat;
                                }
                            }
                        },
                        SexpContent::SexpTypeCons(x, y) => {
                            let ghost lt = bpre.view_of(x);
                            let ghost rt = bpre.view_of(y);
                            proof {
                                assert(p == pair_tree(lt, rt));
                                builder.lemma_extends_node(&bpre, x);
                                builder.lemma_extends_node(&bpre, y);
                            }
                            let ghost spre = do_stack@;
                            do_stack.push(RevisitStack::GeneratePair);
                            do_stack.push(RevisitStack::GenerateFor(x));
                            do_stack.push(RevisitStack::GenerateFor(y));
                            proof {
                                let seg = seq![
                                    TaskM::MakePair,
                                    TaskM::Expand(lt),
                                    TaskM::Expand(rt),
                                ];
                                tasks = tasks_rest + seg;
                                assert forall|i: int| 0 <= i < do_stack@.len() implies task_rel(
                                    *builder,
                                    #[trigger] do_stack@[i],
                                    tasks[i],
                                ) by {
                                    if i < spre.len() {
                                        assert(do_stack@[i] == spre[i]);
                                        assert(tasks[i] == tasks_rest[i]);
                                    } else {
                                        assert(tasks[i] == seg[i - spre.len()]);
                                    }
                                }
                                assert(stack_rel(*builder, do_stack@, tasks));
                                lemma_denote_pair(ch, choices, k, lt, rt, tasks_rest, donem_full);
                                let sr = spec_synth(ch, choices, k, rt);
                                let sl = spec_synth(ch, choices, sr.1, lt);
                                assert(spec_synth(ch, choices, k, p) == (
                                    pair_tree(sl.0, sr.0),
                                    sl.1,
                                    (2 + sr.2 + sl.2) as nat,
                                ));
                                assert(denote(ch, choices, k, tasks_full, donem_full).0 == denote(
                                    ch,
                                    choices,
                                    k,
                                    tasks,
                                    donem,
                                ).0);
                                assert(denote(ch, choices, k, tasks_full, donem_full).2 == 1
                                    + denote(ch, choices, k, tasks, donem).2);
                            }
                        },
                    }
                },
            }
        }
        proof {
            assert(denote(ch, choices, k, tasks, donem).0 == donem);
            assert(donem == seq![target.0]);
            assert(done@.len() == 1);
            assert(builder.view_of(done@[0]) == target.0);
        }
        let out = done.pop().unwrap();
        Ok(out)
    }

    /// Synthesize an output tree for `prototype` through the builder:
    /// materialize the genome's chains, then run the work-stack machine.
    /// On success the output's model is `spec_synthesize` of the genome and
    /// the prototype's model alone; a builder failure aborts synthesis and
    /// propagates unchanged.
    pub fn to_sexp<T, E, B: SexpBuilder<T, E>>(
        &mut self,
        builder: &mut B,
        prototype: T,
    ) -> (r: Result<T, E>)
        requires
            old(self).fresh(),
            old(builder).wf(),
            old(builder).node_wf(prototype),
        ensures
            final(builder).wf(),
            final(builder).extends(old(builder)),
            r matches Ok(out) ==> final(builder).node_wf(out) && final(builder).view_of(out)
                == spec_synthesize(old(self).genome(), old(builder).view_of(prototype)),
    {
        self.materialize();
        let ghost k0 = base_cursor(self.genome());
        self.run_stack(builder, prototype, Ghost(k0))
    }
}


impl CollectArgumentStructure {
    /// Use the builder to create an s-expression described by the data
    /// absorbed in this genome, shaped by `prototype`.  The result's model
    /// is a pure function of the genome's and the prototype's models
    /// alone, so identical inputs always yield identical output; a builder
    /// failure aborts synthesis and propagates unchanged.
    pub fn to_sexp<T, E, B: SexpBuilder<T, E>>(
        &self,
        builder: &mut B,
        prototype: T,
    ) -> (r: Result<T, E>)
        requires
            old(builder).wf(),
            old(builder).node_wf(prototype),
        ensures
            final(builder).wf(),
            final(builder).extends(old(builder)),
            r matches Ok(out) ==> final(builder).node_wf(out) && final(builder).view_of(out)
                == spec_synthesize(self@, old(builder).view_of(prototype)),
    {
        let mut reader = CollectArgumentStructureReader::new(self);
        reader.to_sexp(builder, prototype)
    }
}

} // verus!
