//! The registry of presets and the reconciliation of the mod store with
//! the presets that are enabled.

use vstd::prelude::*;
use crate::error::Error;
use crate::ident::copied;
use crate::ident::lemma_push_new;
use crate::ident::same_id;
use crate::ident::views;
use crate::mod_store::forced;
use crate::mod_store::Flags;
use crate::mod_store::ModStore;
use crate::preset::with_mods;
use crate::preset::without_mods;
use crate::preset::Preset;
use crate::preset::PresetView;

verus! {

/// The names of a sequence of presets, in the presets' order.
pub open spec fn preset_names(presets: Seq<PresetView>) -> Seq<Seq<char>> {
    Seq::new(presets.len(), |i: int| presets[i].name)
}

/// The claimed mods: those that belong to at least one enabled preset.
pub open spec fn claimed(presets: Seq<PresetView>) -> Set<Seq<char>> {
    Set::new(
        |id: Seq<char>|
            exists|i: int|
                0 <= i < presets.len() && (#[trigger] presets[i]).enabled
                    && presets[i].mods.contains(id),
    )
}

/// The mod store after reconciliation: every known claimed mod is active,
/// every other mod is as it was.
pub open spec fn reconciled(store: Flags, presets: Seq<PresetView>) -> Flags {
    forced(store, claimed(presets), true)
}

/// The claimed mods of one more preset.
pub proof fn lemma_claimed_push(presets: Seq<PresetView>, preset: PresetView)
    ensures
        claimed(presets.push(preset)) == if preset.enabled {
            claimed(presets).union(preset.mods.to_set())
        } else {
            claimed(presets)
        },
{
    let more = presets.push(preset);
    let expected = if preset.enabled {
        claimed(presets).union(preset.mods.to_set())
    } else {
        claimed(presets)
    };
    assert forall|id: Seq<char>| claimed(more).contains(id) == expected.contains(id) by {
        if claimed(more).contains(id) {
            let i = choose|i: int|
                0 <= i < more.len() && (#[trigger] more[i]).enabled && more[i].mods.contains(id);
            if i < presets.len() {
                assert(presets[i] == more[i]);
            }
        }
        if claimed(presets).contains(id) {
            let i = choose|i: int|
                0 <= i < presets.len() && (#[trigger] presets[i]).enabled
                    && presets[i].mods.contains(id);
            assert(more[i] == presets[i]);
        }
        if preset.enabled && preset.mods.contains(id) {
            assert(more[presets.len() as int] == preset);
        }
    }
    assert(claimed(more) =~= expected);
}

/// The preset called `name` among `presets`, if there is one.
pub open spec fn lookup(presets: Seq<PresetView>, name: Seq<char>) -> Option<PresetView> {
    if preset_names(presets).contains(name) {
        Some(presets[preset_names(presets).index_of(name)])
    } else {
        None
    }
}

/// `presets` with `preset` recorded under its name: in place of the preset
/// of that name where there is one, else after the others.
pub open spec fn stored(presets: Seq<PresetView>, preset: PresetView) -> Seq<PresetView> {
    if preset_names(presets).contains(preset.name) {
        presets.update(preset_names(presets).index_of(preset.name), preset)
    } else {
        presets.push(preset)
    }
}

/// `presets` without the preset called `name`.
pub open spec fn removed(presets: Seq<PresetView>, name: Seq<char>) -> Seq<PresetView> {
    if preset_names(presets).contains(name) {
        presets.remove(preset_names(presets).index_of(name))
    } else {
        presets
    }
}

/// The label that stands for no preset wherever a preset is chosen by its
/// label.
pub open spec fn reserved_name() -> Seq<char> {
    "None"@
}

/// Whether a preset called `name` can be created beside those called
/// `names`, and the failure where it cannot.
pub open spec fn creation(names: Seq<Seq<char>>, name: Seq<char>) -> Result<(), Error> {
    if name.len() == 0 {
        Err(Error::InvalidName)
    } else if names.contains(name) {
        Err(Error::AlreadyExists)
    } else {
        Ok(())
    }
}

/// Where names are unique, the preset at place `i` is the one that its name
/// looks up, and recording a preset of that name replaces it there.
pub proof fn lemma_lookup_at(presets: Seq<PresetView>, i: int, preset: PresetView)
    requires
        preset_names(presets).no_duplicates(),
        0 <= i < presets.len(),
        preset.name == presets[i].name,
    ensures
        preset_names(presets).contains(preset.name),
        preset_names(presets).index_of(preset.name) == i,
        lookup(presets, preset.name) == Some(presets[i]),
        stored(presets, preset) == presets.update(i, preset),
        preset_names(presets.update(i, preset)) == preset_names(presets),
{
    let names = preset_names(presets);
    assert(names[i] == preset.name);
    assert(preset_names(presets.update(i, preset)) =~= names);
}

/// Where names are unique, they stay so when a preset with a new name is
/// recorded.
pub proof fn lemma_push_unique(presets: Seq<PresetView>, preset: PresetView)
    requires
        preset_names(presets).no_duplicates(),
        !preset_names(presets).contains(preset.name),
    ensures
        preset_names(presets.push(preset)) == preset_names(presets).push(preset.name),
        preset_names(presets.push(preset)).no_duplicates(),
{
    assert(preset_names(presets.push(preset)) =~= preset_names(presets).push(preset.name));
    lemma_push_new(preset_names(presets), preset.name);
}

/// Where names are unique, they stay so when the preset at place `i` is
/// taken out, and its name is no longer among them.
pub proof fn lemma_remove_unique(presets: Seq<PresetView>, i: int)
    requires
        preset_names(presets).no_duplicates(),
        0 <= i < presets.len(),
    ensures
        preset_names(presets.remove(i)).no_duplicates(),
        !preset_names(presets.remove(i)).contains(presets[i].name),
        removed(presets, presets[i].name) == presets.remove(i),
{
    let names = preset_names(presets);
    let after = preset_names(presets.remove(i));
    lemma_lookup_at(presets, i, presets[i]);
    // the name at place `j` after the removal was at place `from(j)` before
    let from = |j: int| if j < i { j } else { j + 1 };
    assert forall|j: int| 0 <= j < after.len() implies #[trigger] after[j] == names[from(j)]
        && after[j] != presets[i].name by {
        assert(names[from(j)] != names[i]);
    }
    assert forall|a: int, b: int|
        0 <= a < after.len() && 0 <= b < after.len() && a != b implies after[a] != after[b] by {
        assert(names[from(a)] != names[from(b)]);
    }
}

/// One persisted record of a preset: its name, the mods it lists and
/// whether it is enabled.
#[derive(Debug)]
pub struct PresetRecord {
    /// The preset's name.
    pub name: String,
    /// The mods that the preset lists.
    pub mods: Vec<String>,
    /// Whether the preset is enabled.
    pub enabled: bool,
}

/// The preset that a record stands for: its mods each once, in the order of
/// their first occurrence.
pub open spec fn record_preset(record: PresetRecord) -> PresetView {
    PresetView {
        name: record.name@,
        mods: with_mods(Seq::empty(), views(record.mods@)),
        enabled: record.enabled,
    }
}

/// The presets that a sequence of records stands for, in the records'
/// order.
pub open spec fn record_presets(records: Seq<PresetRecord>) -> Seq<PresetView> {
    Seq::new(records.len(), |i: int| record_preset(records[i]))
}

/// The records are well formed: each has a name, and no name occurs twice.
pub open spec fn well_formed(records: Seq<PresetRecord>) -> bool {
    &&& forall|i: int| 0 <= i < records.len() ==> (#[trigger] records[i]).name@.len() > 0
    &&& preset_names(record_presets(records)).no_duplicates()
}

/// The presets by name, in the order in which they were recorded.
///
/// Its view is the sequence of the presets' views; no two of them have the
/// same name.
#[derive(Debug)]
pub struct PresetRegistry {
    presets: Vec<Preset>,
}

impl View for PresetRegistry {
    type V = Seq<PresetView>;

    closed spec fn view(&self) -> Seq<PresetView> {
        preset_views(self.presets@)
    }
}

/// The views of a sequence of presets.
pub open spec fn preset_views(presets: Seq<Preset>) -> Seq<PresetView> {
    Seq::new(presets.len(), |i: int| presets[i]@)
}

impl PresetRegistry {
    /// At most one preset per name.
    #[verifier::type_invariant]
    closed spec fn wf(&self) -> bool {
        preset_names(preset_views(self.presets@)).no_duplicates()
    }

    /// The names in the registry's order.
    pub open spec fn names(&self) -> Seq<Seq<char>> {
        preset_names(self@)
    }

    /// The mods that some enabled preset of the registry claims.
    pub open spec fn claimed(&self) -> Set<Seq<char>> {
        claimed(self@)
    }

    /// A registry without presets.
    pub fn new() -> (r: PresetRegistry)
        ensures
            r@ == Seq::<PresetView>::empty(),
    {
        let r = PresetRegistry { presets: Vec::new() };
        assert(r@ =~= Seq::<PresetView>::empty());
        r
    }

    /// Builds the registry from the persisted records of the presets, in
    /// the records' order.
    ///
    /// Fails with `LoadError` exactly when the records are not well formed:
    /// a record has no name, or a name occurs in more than one record.
    pub fn load(records: &Vec<PresetRecord>) -> (r: Result<PresetRegistry, Error>)
        ensures
            match r {
                Ok(registry) => well_formed(records@) && registry@ == record_presets(records@),
                Err(e) => e == Error::LoadError && !well_formed(records@),
            },
    {
        let mut registry = PresetRegistry::new();
        let mut i: usize = 0;
        assert(registry@ =~= record_presets(records@.take(0)));
        while i < records.len()
            invariant
                i <= records.len(),
                well_formed(records@.take(i as int)),
                registry@ == record_presets(records@.take(i as int)),
            decreases records.len() - i,
        {
            let ghost seen = records@.take(i as int);
            let ghost names = preset_names(record_presets(seen));
            let ghost all = preset_names(record_presets(records@));
            if registry.contains(records[i].name.as_str()) {
                proof {
                    let k = names.index_of(records[i as int].name@);
                    assert(names[k] == all[k]);
                    assert(all[i as int] == records[i as int].name@);
                }
                return Err(Error::LoadError);
            }
            match Preset::new(records[i].name.clone(), copied(&records[i].mods)) {
                Ok(mut preset) => {
                    if records[i].enabled {
                        preset.enable();
                    }
                    proof {
                        lemma_push_unique(registry@, preset@);
                    }
                    registry.put(preset);
                },
                Err(_) => {
                    return Err(Error::LoadError);
                },
            }
            i = i + 1;
            proof {
                let next = records@.take(i as int);
                assert(record_presets(next) =~= record_presets(seen).push(
                    record_preset(records[i - 1]),
                ));
                assert forall|j: int| 0 <= j < next.len() implies (#[trigger] next[j]).name@.len()
                    > 0 by {
                    if j < i - 1 {
                        assert(next[j] == seen[j]);
                    }
                }
            }
        }
        assert(records@.take(i as int) =~= records@);
        Ok(registry)
    }

    /// The number of presets.
    pub fn len(&self) -> (n: usize)
        ensures
            n == self@.len(),
    {
        self.presets.len()
    }

    /// The names of all presets, in the registry's order; no name occurs
    /// twice.
    pub fn list(&self) -> (names: Vec<String>)
        ensures
            views(names@) == self.names(),
            views(names@).no_duplicates(),
    {
        proof {
            use_type_invariant(self);
        }
        let mut names: Vec<String> = Vec::new();
        let mut i: usize = 0;
        while i < self.presets.len()
            invariant
                i <= self.presets.len(),
                names.len() == i,
                forall|j: int| 0 <= j < i ==> (#[trigger] names[j])@ == self.presets[j]@.name,
            decreases self.presets.len() - i,
        {
            names.push(self.presets[i].name().clone());
            i = i + 1;
        }
        assert(views(names@) =~= self.names());
        names
    }

    /// The presets in the registry's order.
    pub fn presets(&self) -> (r: &Vec<Preset>)
        ensures
            preset_views(r@) == self@,
            preset_names(self@).no_duplicates(),
    {
        proof {
            use_type_invariant(self);
        }
        &self.presets
    }

    /// Where in `presets` the preset called `name` stands, if there is one.
    fn position(presets: &Vec<Preset>, name: &str) -> (r: Option<usize>)
        ensures
            match r {
                Some(i) => i < presets.len() && presets[i as int]@.name == name@,
                None => !preset_names(preset_views(presets@)).contains(name@),
            },
    {
        let mut i: usize = 0;
        while i < presets.len()
            invariant
                i <= presets.len(),
                forall|j: int| 0 <= j < i ==> preset_names(preset_views(presets@))[j] != name@,
            decreases presets.len() - i,
        {
            if same_id(presets[i].name().as_str(), name) {
                return Some(i);
            }
            i = i + 1;
        }
        None
    }

    /// Takes the presets out, leaving none.
    fn take_all(&mut self) -> (presets: Vec<Preset>)
        ensures
            preset_views(presets@) == old(self)@,
            preset_names(old(self)@).no_duplicates(),
    {
        proof {
            use_type_invariant(&*self);
        }
        let mut presets: Vec<Preset> = Vec::new();
        assert(preset_views(presets@) =~= Seq::<PresetView>::empty());
        core::mem::swap(&mut self.presets, &mut presets);
        presets
    }

    /// Puts `presets` in the place of those that are there.
    fn put_all(&mut self, presets: Vec<Preset>)
        requires
            preset_names(preset_views(presets@)).no_duplicates(),
        ensures
            final(self)@ == preset_views(presets@),
    {
        self.presets = presets;
    }

    /// Whether a preset called `name` is recorded.
    pub fn contains(&self, name: &str) -> (r: bool)
        ensures
            r == self.names().contains(name@),
    {
        match Self::position(&self.presets, name) {
            Some(i) => {
                assert(self.names()[i as int] == name@);
                true
            },
            None => false,
        }
    }

    /// The preset called `name`; `NotFound` where none is recorded.
    pub fn get(&self, name: &str) -> (r: Result<&Preset, Error>)
        ensures
            match lookup(self@, name@) {
                Some(preset) => r is Ok && r->Ok_0@ == preset,
                None => r == Err::<&Preset, Error>(Error::NotFound),
            },
    {
        proof {
            use_type_invariant(self);
        }
        match Self::position(&self.presets, name) {
            Some(i) => {
                proof {
                    lemma_lookup_at(self@, i as int, self@[i as int]);
                }
                Ok(&self.presets[i])
            },
            None => Err(Error::NotFound),
        }
    }

    /// Records `preset` under its name: in place of the preset of that name
    /// where there is one, else after the others.
    pub fn put(&mut self, preset: Preset)
        ensures
            final(self)@ == stored(old(self)@, preset@),
    {
        let mut presets = self.take_all();
        let ghost before = preset_views(presets@);
        match Self::position(&presets, preset.name().as_str()) {
            Some(i) => {
                presets[i] = preset;
                proof {
                    lemma_lookup_at(before, i as int, preset@);
                    assert(preset_views(presets@) =~= before.update(i as int, preset@));
                }
            },
            None => {
                presets.push(preset);
                proof {
                    lemma_push_unique(before, preset@);
                    assert(preset_views(presets@) =~= before.push(preset@));
                }
            },
        }
        self.put_all(presets);
    }

    /// Takes the preset called `name` out of the registry and returns it;
    /// `NotFound`, and no change, where none is recorded.
    pub fn remove(&mut self, name: &str) -> (r: Result<Preset, Error>)
        ensures
            final(self)@ == removed(old(self)@, name@),
            match lookup(old(self)@, name@) {
                Some(preset) => r is Ok && r->Ok_0@ == preset,
                None => r is Err && r->Err_0 == Error::NotFound,
            },
    {
        let mut presets = self.take_all();
        let ghost before = preset_views(presets@);
        let found = Self::position(&presets, name);
        let r = match found {
            Some(i) => {
                let preset = presets.remove(i);
                proof {
                    lemma_lookup_at(before, i as int, before[i as int]);
                    lemma_remove_unique(before, i as int);
                    assert(preset_views(presets@) =~= before.remove(i as int));
                }
                Ok(preset)
            },
            None => Err(Error::NotFound),
        };
        self.put_all(presets);
        r
    }

    /// Records a new preset called `name`, empty and disabled, after the
    /// others. Fails, with no change, with `InvalidName` where `name` is
    /// empty and with `AlreadyExists` where a preset of that name is
    /// recorded.
    pub fn create(&mut self, name: String) -> (r: Result<(), Error>)
        ensures
            r == creation(old(self).names(), name@),
            r is Ok ==> final(self)@ == old(self)@.push(
                PresetView { name: name@, mods: Seq::empty(), enabled: false },
            ),
            r is Ok ==> final(self).names() == old(self).names().push(name@),
            r is Err ==> final(self)@ == old(self)@,
    {
        proof {
            use_type_invariant(&*self);
        }
        if name.as_str().is_empty() {
            return Err(Error::InvalidName);
        }
        if self.contains(name.as_str()) {
            return Err(Error::AlreadyExists);
        }
        match Preset::new(name, Vec::new()) {
            Ok(preset) => {
                proof {
                    lemma_push_unique(self@, preset@);
                }
                self.put(preset);
                Ok(())
            },
            Err(e) => Err(e),
        }
    }

    /// Marks the preset called `name` enabled; `NotFound`, and no change,
    /// where none is recorded. The mod store is not touched: the mods become
    /// active with the next reconciliation.
    pub fn enable(&mut self, name: &str) -> (r: Result<(), Error>)
        ensures
            match lookup(old(self)@, name@) {
                Some(preset) => r is Ok && final(self)@ == stored(
                    old(self)@,
                    PresetView { enabled: true, ..preset },
                ),
                None => r == Err::<(), Error>(Error::NotFound) && final(self)@ == old(self)@,
            },
    {
        let mut presets = self.take_all();
        let ghost before = preset_views(presets@);
        let found = Self::position(&presets, name);
        let r = match found {
            Some(i) => {
                presets[i].enable();
                proof {
                    let edited = PresetView { enabled: true, ..before[i as int] };
                    lemma_lookup_at(before, i as int, edited);
                    assert(preset_views(presets@) =~= before.update(i as int, edited));
                }
                Ok(())
            },
            None => Err(Error::NotFound),
        };
        self.put_all(presets);
        r
    }

    /// Marks the preset called `name` disabled and deactivates every mod
    /// that it claims and the store knows; `NotFound`, and no change, where
    /// none is recorded. A reconciliation must follow to restore the mods
    /// that other enabled presets claim.
    pub fn disable(&mut self, name: &str, store: &mut ModStore) -> (r: Result<(), Error>)
        ensures
            match lookup(old(self)@, name@) {
                Some(preset) => {
                    &&& r is Ok
                    &&& final(self)@ == stored(old(self)@, PresetView { enabled: false, ..preset })
                    &&& final(store)@ == forced(old(store)@, preset.mods.to_set(), false)
                },
                None => {
                    &&& r == Err::<(), Error>(Error::NotFound)
                    &&& final(self)@ == old(self)@
                    &&& final(store)@ == old(store)@
                },
            },
    {
        let mut presets = self.take_all();
        let ghost before = preset_views(presets@);
        let found = Self::position(&presets, name);
        let r = match found {
            Some(i) => {
                presets[i].disable(store);
                proof {
                    let edited = PresetView { enabled: false, ..before[i as int] };
                    lemma_lookup_at(before, i as int, edited);
                    assert(preset_views(presets@) =~= before.update(i as int, edited));
                }
                Ok(())
            },
            None => Err(Error::NotFound),
        };
        self.put_all(presets);
        r
    }

    /// Adds each of `ids` in turn to the preset called `name`, unless the
    /// preset claims it already; `NotFound`, and no change, where none is
    /// recorded.
    pub fn add_mods(&mut self, name: &str, ids: &Vec<String>) -> (r: Result<(), Error>)
        ensures
            match lookup(old(self)@, name@) {
                Some(preset) => r is Ok && final(self)@ == stored(
                    old(self)@,
                    PresetView { mods: with_mods(preset.mods, views(ids@)), ..preset },
                ),
                None => r == Err::<(), Error>(Error::NotFound) && final(self)@ == old(self)@,
            },
    {
        let mut presets = self.take_all();
        let ghost before = preset_views(presets@);
        let found = Self::position(&presets, name);
        let r = match found {
            Some(i) => {
                presets[i].add_mods(ids);
                proof {
                    let edited = PresetView {
                        mods: with_mods(before[i as int].mods, views(ids@)),
                        ..before[i as int]
                    };
                    lemma_lookup_at(before, i as int, edited);
                    assert(preset_views(presets@) =~= before.update(i as int, edited));
                }
                Ok(())
            },
            None => Err(Error::NotFound),
        };
        self.put_all(presets);
        r
    }

    /// Removes each of `ids` from the preset called `name`; `NotFound`, and
    /// no change, where none is recorded. The mod store is not touched.
    pub fn remove_mods(&mut self, name: &str, ids: &Vec<String>) -> (r: Result<(), Error>)
        ensures
            match lookup(old(self)@, name@) {
                Some(preset) => r is Ok && final(self)@ == stored(
                    old(self)@,
                    PresetView {
                        mods: without_mods(preset.mods, views(ids@).to_set()),
                        ..preset
                    },
                ),
                None => r == Err::<(), Error>(Error::NotFound) && final(self)@ == old(self)@,
            },
    {
        let mut presets = self.take_all();
        let ghost before = preset_views(presets@);
        let found = Self::position(&presets, name);
        let r = match found {
            Some(i) => {
                presets[i].remove_mods(ids);
                proof {
                    let edited = PresetView {
                        mods: without_mods(before[i as int].mods, views(ids@).to_set()),
                        ..before[i as int]
                    };
                    lemma_lookup_at(before, i as int, edited);
                    assert(preset_views(presets@) =~= before.update(i as int, edited));
                }
                Ok(())
            },
            None => Err(Error::NotFound),
        };
        self.put_all(presets);
        r
    }

    /// Re-derives the activation state from the enabled presets: every
    /// claimed mod that the store knows becomes active, and no other mod is
    /// touched. Claimed mods that the store does not know are passed over.
    pub fn reconcile(&self, store: &mut ModStore)
        ensures
            final(store)@ == reconciled(old(store)@, self@),
    {
        let mut i: usize = 0;
        assert(claimed(self@.take(0)) =~= Set::<Seq<char>>::empty());
        assert(store@ =~= reconciled(old(store)@, self@.take(0)));
        while i < self.presets.len()
            invariant
                i <= self.presets.len(),
                store@ == reconciled(old(store)@, self@.take(i as int)),
            decreases self.presets.len() - i,
        {
            if self.presets[i].is_enabled() {
                store.set_all(self.presets[i].get_mods(), true);
            }
            proof {
                let done = self@.take(i as int);
                assert(self@.take(i + 1) =~= done.push(self@[i as int]));
                lemma_claimed_push(done, self@[i as int]);
                assert(store@ =~= reconciled(old(store)@, self@.take(i + 1)));
            }
            i = i + 1;
        }
        assert(self@.take(i as int) =~= self@);
    }
}

impl Preset {
    /// Records a copy of the preset in `destination` under its name, in
    /// place of the preset of that name where there is one.
    pub fn save(&self, destination: &mut PresetRegistry)
        ensures
            final(destination)@ == stored(old(destination)@, self@),
    {
        destination.put(self.clone());
    }

    /// A copy of the preset that `source` records under `name`; `NotFound`
    /// where it records none.
    pub fn load(name: &str, source: &PresetRegistry) -> (r: Result<Preset, Error>)
        ensures
            match lookup(source@, name@) {
                Some(preset) => r is Ok && r->Ok_0@ == preset,
                None => r is Err && r->Err_0 == Error::NotFound,
            },
    {
        match source.get(name) {
            Ok(preset) => Ok(preset.clone()),
            Err(e) => Err(e),
        }
    }

    /// Removes the preset that `source` records under `name`; `NotFound`,
    /// and no change, where it records none. The mod store is not touched:
    /// the mods that the preset claimed stay as they are.
    pub fn delete(name: &str, source: &mut PresetRegistry) -> (r: Result<(), Error>)
        ensures
            final(source)@ == removed(old(source)@, name@),
            r == if lookup(old(source)@, name@) is Some {
                Ok::<(), Error>(())
            } else {
                Err::<(), Error>(Error::NotFound)
            },
    {
        match source.remove(name) {
            Ok(_) => Ok(()),
            Err(e) => Err(e),
        }
    }
}

} // verus!
