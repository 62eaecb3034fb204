//! Presets: named groups of mods that are forced active while enabled.

use vstd::prelude::*;
use crate::error::Error;
use crate::ident::copied;
use crate::ident::holds;
use crate::ident::lemma_push_new;
use crate::ident::views;
use crate::mod_store::forced;
use crate::mod_store::ModStore;

verus! {

/// What a preset is: its name, the mods it claims, each once and in the
/// order in which they were added, and whether it is enabled.
pub struct PresetView {
    pub name: Seq<char>,
    pub mods: Seq<Seq<char>>,
    pub enabled: bool,
}

/// `mods` with `id` added at the end, unless it is there already.
pub open spec fn with_mod(mods: Seq<Seq<char>>, id: Seq<char>) -> Seq<Seq<char>> {
    if mods.contains(id) {
        mods
    } else {
        mods.push(id)
    }
}

/// `mods` with each of `ids` added in turn.
pub open spec fn with_mods(mods: Seq<Seq<char>>, ids: Seq<Seq<char>>) -> Seq<Seq<char>>
    decreases ids.len(),
{
    if ids.len() == 0 {
        mods
    } else {
        with_mod(with_mods(mods, ids.drop_last()), ids.last())
    }
}

/// `mods` without the identifiers in `ids`, the others in their order.
pub open spec fn without_mods(mods: Seq<Seq<char>>, ids: Set<Seq<char>>) -> Seq<Seq<char>> {
    mods.filter(|m: Seq<char>| !ids.contains(m))
}

/// Adding an identifier keeps a sequence free of repetitions and adds just
/// that identifier to its members.
pub proof fn lemma_with_mod(mods: Seq<Seq<char>>, id: Seq<char>)
    requires
        mods.no_duplicates(),
    ensures
        with_mod(mods, id).no_duplicates(),
        with_mod(mods, id).to_set() == mods.to_set().insert(id),
{
    broadcast use vstd::seq_lib::lemma_seq_contains_after_push;

    if !mods.contains(id) {
        lemma_push_new(mods, id);
    }
    assert(with_mod(mods, id).to_set() =~= mods.to_set().insert(id));
}

/// Adding identifiers in turn keeps a sequence free of repetitions and adds
/// just those identifiers to its members.
pub proof fn lemma_with_mods(mods: Seq<Seq<char>>, ids: Seq<Seq<char>>)
    requires
        mods.no_duplicates(),
    ensures
        with_mods(mods, ids).no_duplicates(),
        with_mods(mods, ids).to_set() == mods.to_set().union(ids.to_set()),
    decreases ids.len(),
{
    broadcast use vstd::seq_lib::lemma_seq_contains_after_push;

    if ids.len() == 0 {
        assert(mods.to_set().union(ids.to_set()) =~= mods.to_set());
    } else {
        let head = ids.drop_last();
        lemma_with_mods(mods, head);
        lemma_with_mod(with_mods(mods, head), ids.last());
        assert(ids =~= head.push(ids.last()));
        assert(with_mods(mods, ids).to_set() =~= mods.to_set().union(ids.to_set()));
    }
}

/// Removing identifiers keeps a sequence free of repetitions and leaves
/// just the members that were not removed.
pub proof fn lemma_without_mods(mods: Seq<Seq<char>>, ids: Set<Seq<char>>)
    requires
        mods.no_duplicates(),
    ensures
        without_mods(mods, ids).no_duplicates(),
        without_mods(mods, ids).to_set() == mods.to_set().difference(ids),
    decreases mods.len(),
{
    reveal(Seq::filter);
    if mods.len() == 0 {
        assert(without_mods(mods, ids).to_set() =~= mods.to_set().difference(ids));
    } else {
        let head = mods.drop_last();
        let last = mods.last();
        let kept = without_mods(head, ids);
        lemma_without_mods(head, ids);
        assert(mods =~= head.push(last));
        assert(!head.contains(last)) by {
            if head.contains(last) {
                let k = head.index_of(last);
                assert(mods[k] == mods[mods.len() - 1]);
            }
        }
        assert(without_mods(mods, ids) == if ids.contains(last) {
            kept
        } else {
            kept.push(last)
        });
        head.lemma_push_to_set_commute(last);
        if !ids.contains(last) {
            assert(!kept.to_set().contains(last));
            lemma_push_new(kept, last);
            kept.lemma_push_to_set_commute(last);
        }
        assert(without_mods(mods, ids).to_set() =~= mods.to_set().difference(ids));
    }
}

/// A named set of mods with an enabled flag: the intent that these mods be
/// active while the preset is enabled.
#[derive(Debug)]
pub struct Preset {
    name: String,
    mods: Vec<String>,
    enabled: bool,
}

impl View for Preset {
    type V = PresetView;

    closed spec fn view(&self) -> PresetView {
        PresetView { name: self.name@, mods: views(self.mods@), enabled: self.enabled }
    }
}

impl Clone for Preset {
    /// A preset with the same name, mods and flag.
    fn clone(&self) -> (r: Preset)
        ensures
            r@ == self@,
    {
        proof {
            use_type_invariant(self);
        }
        Preset { name: self.name.clone(), mods: copied(&self.mods), enabled: self.enabled }
    }
}

impl Preset {
    /// The name is not empty and no mod is held twice.
    #[verifier::type_invariant]
    closed spec fn wf(&self) -> bool {
        &&& self.name@.len() > 0
        &&& views(self.mods@).no_duplicates()
    }

    /// The mods that the preset claims, as a set.
    pub open spec fn mod_set(&self) -> Set<Seq<char>> {
        self@.mods.to_set()
    }

    /// A disabled preset called `name` that holds `mods`, each once, in the
    /// order of their first occurrence; `InvalidName` where `name` is empty.
    pub fn new(name: String, mods: Vec<String>) -> (r: Result<Preset, Error>)
        ensures
            name@.len() == 0 ==> r == Err::<Preset, Error>(Error::InvalidName),
            name@.len() > 0 ==> r is Ok && r->Ok_0@ == (PresetView {
                name: name@,
                mods: with_mods(Seq::empty(), views(mods@)),
                enabled: false,
            }),
            name@.len() > 0 ==> r->Ok_0.mod_set() == views(mods@).to_set(),
    {
        if name.as_str().is_empty() {
            return Err(Error::InvalidName);
        }
        let mut preset = Preset { name, mods: Vec::new(), enabled: false };
        assert(views(preset.mods@) =~= Seq::<Seq<char>>::empty());
        preset.add_mods(&mods);
        assert(preset.mod_set() =~= views(mods@).to_set());
        Ok(preset)
    }

    /// The preset's name.
    pub fn name(&self) -> (r: &String)
        ensures
            r@ == self@.name,
            r@.len() > 0,
    {
        proof {
            use_type_invariant(self);
        }
        &self.name
    }

    /// Whether the preset is enabled.
    pub fn is_enabled(&self) -> (r: bool)
        ensures
            r == self@.enabled,
    {
        self.enabled
    }

    /// The mods that the preset claims, each once.
    pub fn get_mods(&self) -> (r: &Vec<String>)
        ensures
            views(r@) == self@.mods,
            views(r@).no_duplicates(),
    {
        proof {
            use_type_invariant(self);
        }
        &self.mods
    }

    /// Whether the preset claims the mod `id`.
    pub fn contains(&self, id: &str) -> (r: bool)
        ensures
            r == self@.mods.contains(id@),
    {
        holds(&self.mods, id)
    }

    /// Marks the preset enabled. The mod store is not touched: the mods
    /// become active with the next reconciliation.
    pub fn enable(&mut self)
        ensures
            final(self)@ == (PresetView { enabled: true, ..old(self)@ }),
    {
        proof {
            use_type_invariant(&*self);
        }
        self.enabled = true;
    }

    /// Marks the preset disabled and deactivates every mod that it claims
    /// and the store knows, whether or not another enabled preset claims the
    /// mod too. A reconciliation must follow to restore the mods that other
    /// enabled presets claim.
    pub fn disable(&mut self, store: &mut ModStore)
        ensures
            final(self)@ == (PresetView { enabled: false, ..old(self)@ }),
            final(store)@ == forced(old(store)@, old(self).mod_set(), false),
    {
        proof {
            use_type_invariant(&*self);
        }
        store.set_all(&self.mods, false);
        self.enabled = false;
    }

    /// Adds the mod `id`, unless the preset claims it already.
    pub fn add_mod(&mut self, id: &str)
        ensures
            final(self)@ == (PresetView { mods: with_mod(old(self)@.mods, id@), ..old(self)@ }),
            final(self).mod_set() == old(self).mod_set().insert(id@),
    {
        proof {
            use_type_invariant(&*self);
            lemma_with_mod(views(self.mods@), id@);
        }
        if !self.contains(id) {
            let mut mods: Vec<String> = Vec::new();
            assert(views(mods@) =~= Seq::<Seq<char>>::empty());
            core::mem::swap(&mut self.mods, &mut mods);
            let ghost before = views(mods@);
            mods.push(id.to_owned());
            assert(views(mods@) =~= before.push(id@));
            self.mods = mods;
        }
    }

    /// Adds each of `ids` in turn, unless the preset claims it already.
    pub fn add_mods(&mut self, ids: &Vec<String>)
        ensures
            final(self)@ == (PresetView {
                mods: with_mods(old(self)@.mods, views(ids@)),
                ..old(self)@
            }),
            final(self).mod_set() == old(self).mod_set().union(views(ids@).to_set()),
    {
        proof {
            use_type_invariant(&*self);
            lemma_with_mods(views(self.mods@), views(ids@));
        }
        let mut i: usize = 0;
        assert(views(ids@).take(0) =~= Seq::<Seq<char>>::empty());
        while i < ids.len()
            invariant
                i <= ids.len(),
                self@ == (PresetView {
                    mods: with_mods(old(self)@.mods, views(ids@).take(i as int)),
                    ..old(self)@
                }),
            decreases ids.len() - i,
        {
            self.add_mod(ids[i].as_str());
            proof {
                let next = views(ids@).take(i + 1);
                assert(next.drop_last() =~= views(ids@).take(i as int));
                assert(next.last() == ids[i as int]@);
            }
            i = i + 1;
        }
        assert(views(ids@).take(i as int) =~= views(ids@));
    }

    /// Removes each of `ids` that the preset claims. The mod store is not
    /// touched: a removed mod stays as it is there.
    pub fn remove_mods(&mut self, ids: &Vec<String>)
        ensures
            final(self)@ == (PresetView {
                mods: without_mods(old(self)@.mods, views(ids@).to_set()),
                ..old(self)@
            }),
            final(self).mod_set() == old(self).mod_set().difference(views(ids@).to_set()),
    {
        proof {
            use_type_invariant(&*self);
        }
        let ghost gone = views(ids@).to_set();
        let ghost pred = |m: Seq<char>| !gone.contains(m);
        let mut kept: Vec<String> = Vec::new();
        let mut i: usize = 0;
        proof {
            reveal(Seq::filter);
            assert(views(self.mods@).take(0) =~= Seq::<Seq<char>>::empty());
            assert(views(kept@) =~= views(self.mods@).take(0).filter(pred));
        }
        while i < self.mods.len()
            invariant
                i <= self.mods.len(),
                gone == views(ids@).to_set(),
                pred == |m: Seq<char>| !gone.contains(m),
                views(kept@) == views(self.mods@).take(i as int).filter(pred),
            decreases self.mods.len() - i,
        {
            let listed = holds(ids, self.mods[i].as_str());
            proof {
                let m = self.mods[i as int]@;
                let head = views(self.mods@).take(i as int);
                assert(views(self.mods@).take(i + 1) =~= head.push(m));
                head.lemma_filter_push(m, pred);
                if !listed {
                    assert(views(kept@.push(self.mods[i as int])) =~= views(kept@).push(m));
                }
            }
            if !listed {
                kept.push(self.mods[i].clone());
            }
            i = i + 1;
        }
        proof {
            assert(views(self.mods@).take(i as int) =~= views(self.mods@));
            lemma_without_mods(views(self.mods@), gone);
        }
        self.mods = kept;
    }
}

} // verus!
