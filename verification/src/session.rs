//! The state that the presentation layer works on, and the entry points
//! through which it changes that state.
//!
//! A `Session` owns the mod store, the preset registry, the list of mods
//! staged for batch actions and the preset that is being edited. Each entry
//! point takes the state to the next one and says what has to be persisted.

use vstd::prelude::*;
use crate::error::Error;
use crate::ident::lemma_ascending_unique;
use crate::ident::same_id;
use crate::ident::views;
use crate::mod_store::all_known;
use crate::mod_store::forced;
use crate::mod_store::listing;
use crate::mod_store::lists;
use crate::mod_store::Flags;
use crate::mod_store::ModStore;
use crate::preset::with_mods;
use crate::preset::without_mods;
use crate::preset::PresetView;
use crate::registry::creation;
use crate::registry::lookup;
use crate::registry::preset_names;
use crate::registry::reconciled;
use crate::registry::removed;
use crate::registry::reserved_name;
use crate::registry::stored;
use crate::registry::PresetRegistry;

verus! {

/// A mod as listed for batch actions, with its selection mark.
#[derive(Debug)]
pub struct StagedMod {
    /// The mod's identifier.
    pub mod_name: String,
    /// Whether the mod is selected.
    pub selected: bool,
}

/// What has to be written to storage after an entry point has run.
#[derive(Debug)]
pub struct Persist {
    /// The mod store changed: write it.
    pub mods: bool,
    /// The preset of this name changed: write it.
    pub preset: Option<String>,
    /// The preset of this name is gone: remove its record.
    pub deleted: Option<String>,
}

/// The view of a [`Persist`].
pub struct PersistView {
    pub mods: bool,
    pub preset: Option<Seq<char>>,
    pub deleted: Option<Seq<char>>,
}

/// The view of an optional string.
pub open spec fn name_view(name: Option<String>) -> Option<Seq<char>> {
    match name {
        Some(n) => Some(n@),
        None => None,
    }
}

impl View for Persist {
    type V = PersistView;

    open spec fn view(&self) -> PersistView {
        PersistView {
            mods: self.mods,
            preset: name_view(self.preset),
            deleted: name_view(self.deleted),
        }
    }
}

/// The view of what an entry point returns.
pub open spec fn outcome(r: Result<Persist, Error>) -> Result<PersistView, Error> {
    match r {
        Ok(p) => Ok(p@),
        Err(e) => Err(e),
    }
}

/// Nothing to write.
pub open spec fn nothing() -> PersistView {
    PersistView { mods: false, preset: None, deleted: None }
}

/// Only the mod store to write.
pub open spec fn mods_only() -> PersistView {
    PersistView { mods: true, preset: None, deleted: None }
}

/// What a session is: the mod store, the presets, the staged mods with
/// their selection marks, and the name of the preset that is being edited.
pub struct SessionView {
    pub store: Flags,
    pub presets: Seq<PresetView>,
    pub staged: Seq<(Seq<char>, bool)>,
    pub current: Option<Seq<char>>,
}

/// The views of a sequence of staged mods.
pub open spec fn staged_views(staged: Seq<StagedMod>) -> Seq<(Seq<char>, bool)> {
    Seq::new(staged.len(), |i: int| (staged[i].mod_name@, staged[i].selected))
}

/// The staged mods, each unselected, for identifiers in listing order.
pub open spec fn unselected(ids: Seq<Seq<char>>) -> Seq<(Seq<char>, bool)> {
    Seq::new(ids.len(), |i: int| (ids[i], false))
}

/// The staged mods with every selection mark set to `value`.
pub open spec fn all_marked(staged: Seq<(Seq<char>, bool)>, value: bool) -> Seq<(Seq<char>, bool)> {
    Seq::new(staged.len(), |i: int| (staged[i].0, value))
}

/// The staged mods with the selection mark of `name` set to `value`.
pub open spec fn marked(staged: Seq<(Seq<char>, bool)>, name: Seq<char>, value: bool) -> Seq<
    (Seq<char>, bool),
> {
    Seq::new(staged.len(), |i: int| if staged[i].0 == name { (name, value) } else { staged[i] })
}

/// Whether `name` is among the staged mods.
pub open spec fn is_staged(staged: Seq<(Seq<char>, bool)>, name: Seq<char>) -> bool {
    exists|i: int| 0 <= i < staged.len() && (#[trigger] staged[i]).0 == name
}

/// The names of the selected staged mods, in the staged order.
pub open spec fn chosen(staged: Seq<(Seq<char>, bool)>) -> Seq<Seq<char>>
    decreases staged.len(),
{
    if staged.len() == 0 {
        Seq::empty()
    } else if staged.last().1 {
        chosen(staged.drop_last()).push(staged.last().0)
    } else {
        chosen(staged.drop_last())
    }
}

/// What to write after the preset `name` has changed, and the mod store
/// with it where `mods` holds.
pub open spec fn preset_written(name: Seq<char>, mods: bool) -> PersistView {
    PersistView { mods, preset: Some(name), deleted: None }
}

/// The names of the staged mods, in the staged order.
pub open spec fn staged_names(staged: Seq<(Seq<char>, bool)>) -> Seq<Seq<char>> {
    Seq::new(staged.len(), |i: int| staged[i].0)
}

/// Whether some selected staged mod is one that the store does not know.
pub open spec fn selects_unknown(s: SessionView) -> bool {
    exists|i: int|
        0 <= i < s.staged.len() && (#[trigger] s.staged[i]).1 && !s.store.contains_key(
            s.staged[i].0,
        )
}

/// The names of the selected staged mods are the names of the staged mods
/// that are selected.
pub proof fn lemma_chosen(staged: Seq<(Seq<char>, bool)>, name: Seq<char>)
    ensures
        chosen(staged).contains(name) <==> exists|i: int|
            0 <= i < staged.len() && (#[trigger] staged[i]).1 && staged[i].0 == name,
    decreases staged.len(),
{
    broadcast use vstd::seq_lib::lemma_seq_contains_after_push;

    if staged.len() > 0 {
        let head = staged.drop_last();
        lemma_chosen(head, name);
        if chosen(staged).contains(name) {
            if staged.last().1 && staged.last().0 == name {
                assert(staged[staged.len() - 1].1);
            } else {
                let i = choose|i: int|
                    0 <= i < head.len() && (#[trigger] head[i]).1 && head[i].0 == name;
                assert(staged[i] == head[i]);
            }
        }
        if exists|i: int| 0 <= i < staged.len() && (#[trigger] staged[i]).1 && staged[i].0 == name {
            let i = choose|i: int|
                0 <= i < staged.len() && (#[trigger] staged[i]).1 && staged[i].0 == name;
            if i < head.len() {
                assert(head[i] == staged[i]);
            }
        }
    }
}

/// The store knows every selected staged mod exactly if no selected staged
/// mod is unknown to it.
pub proof fn lemma_selects_unknown(s: SessionView)
    ensures
        selects_unknown(s) <==> !all_known(s.store, chosen(s.staged)),
{
    let names = chosen(s.staged);
    if selects_unknown(s) {
        let i = choose|i: int|
            0 <= i < s.staged.len() && (#[trigger] s.staged[i]).1 && !s.store.contains_key(
                s.staged[i].0,
            );
        lemma_chosen(s.staged, s.staged[i].0);
        let k = names.index_of(s.staged[i].0);
        assert(!s.store.contains_key(names[k]));
    }
    if !all_known(s.store, names) {
        let k = choose|k: int| 0 <= k < names.len() && !s.store.contains_key(#[trigger] names[k]);
        lemma_chosen(s.staged, names[k]);
    }
}

/// Toggling the mod `id` by hand: its flag flips and nothing else changes;
/// `UnknownMod` where the store does not know it. No reconciliation
/// follows, so a claimed mod can be switched off until the next one.
pub open spec fn after_toggle_mod(s: SessionView, id: Seq<char>) -> (
    SessionView,
    Result<PersistView, Error>,
) {
    if s.store.contains_key(id) {
        (SessionView { store: s.store.insert(id, !s.store[id]), ..s }, Ok(mods_only()))
    } else {
        (s, Err(Error::UnknownMod))
    }
}

/// Setting every selected mod to `value`, all or none: `UnknownMod`, and
/// no change, where the store does not know one of them. After a
/// deactivation the store is reconciled, so that a selected mod which an
/// enabled preset claims ends active.
pub open spec fn after_set_selected(s: SessionView, value: bool) -> (
    SessionView,
    Result<PersistView, Error>,
) {
    if selects_unknown(s) {
        (s, Err(Error::UnknownMod))
    } else {
        let set = forced(s.store, chosen(s.staged).to_set(), value);
        let store = if value {
            set
        } else {
            reconciled(set, s.presets)
        };
        (SessionView { store, ..s }, Ok(mods_only()))
    }
}

/// Adding the selected mods to the preset that is being edited, then
/// reconciling. Nothing happens where no preset is being edited; `NotFound`
/// where the one that is named is not recorded.
pub open spec fn after_add_selected(s: SessionView) -> (SessionView, Result<PersistView, Error>) {
    match s.current {
        None => (s, Ok(nothing())),
        Some(name) => match lookup(s.presets, name) {
            None => (s, Err(Error::NotFound)),
            Some(preset) => {
                let presets = stored(
                    s.presets,
                    PresetView { mods: with_mods(preset.mods, chosen(s.staged)), ..preset },
                );
                (
                    SessionView { store: reconciled(s.store, presets), presets, ..s },
                    Ok(preset_written(name, true)),
                )
            },
        },
    }
}

/// Removing `ids` from the preset that is being edited. The mod store is
/// not touched. Nothing happens where no preset is being edited; `NotFound`
/// where the one that is named is not recorded.
pub open spec fn after_remove_from_current(s: SessionView, ids: Seq<Seq<char>>) -> (
    SessionView,
    Result<PersistView, Error>,
) {
    match s.current {
        None => (s, Ok(nothing())),
        Some(name) => match lookup(s.presets, name) {
            None => (s, Err(Error::NotFound)),
            Some(preset) => (
                SessionView {
                    presets: stored(
                        s.presets,
                        PresetView { mods: without_mods(preset.mods, ids.to_set()), ..preset },
                    ),
                    ..s
                },
                Ok(preset_written(name, false)),
            ),
        },
    }
}

/// Switching the preset `name`: an enabled one is disabled, which
/// deactivates its mods, a disabled one is enabled; then the store is
/// reconciled. `NotFound` where no such preset is recorded.
pub open spec fn after_toggle_preset(s: SessionView, name: Seq<char>) -> (
    SessionView,
    Result<PersistView, Error>,
) {
    match lookup(s.presets, name) {
        None => (s, Err(Error::NotFound)),
        Some(preset) => {
            let presets = stored(s.presets, PresetView { enabled: !preset.enabled, ..preset });
            let store = if preset.enabled {
                forced(s.store, preset.mods.to_set(), false)
            } else {
                s.store
            };
            (
                SessionView { store: reconciled(store, presets), presets, ..s },
                Ok(preset_written(name, true)),
            )
        },
    }
}

/// Choosing the preset to edit by its label: the reserved name chooses no
/// preset, any other label the preset of that name; `NotFound` where no
/// such preset is recorded.
pub open spec fn after_choose(s: SessionView, label: Seq<char>) -> (
    SessionView,
    Result<PersistView, Error>,
) {
    if label == reserved_name() || lookup(s.presets, label) is Some {
        (SessionView { current: chosen_by(label), ..s }, Ok(nothing()))
    } else {
        (s, Err(Error::NotFound))
    }
}

/// What choosing by the label `label` makes the preset that is being
/// edited: none for the reserved label, else the preset of that name.
pub open spec fn chosen_by(label: Seq<char>) -> Option<Seq<char>> {
    if label == reserved_name() {
        None
    } else {
        Some(label)
    }
}

/// Creating the preset `name`, empty and disabled, and choosing it for
/// editing by its name as a label; `InvalidName` where `name` is empty,
/// `AlreadyExists` where a preset of that name is recorded.
pub open spec fn after_create(s: SessionView, name: Seq<char>) -> (
    SessionView,
    Result<PersistView, Error>,
) {
    match creation(preset_names(s.presets), name) {
        Ok(_) => (
            SessionView {
                presets: s.presets.push(
                    PresetView { name, mods: Seq::empty(), enabled: false },
                ),
                current: chosen_by(name),
                ..s
            },
            Ok(preset_written(name, false)),
        ),
        Err(e) => (s, Err(e)),
    }
}

/// Deleting the preset that is being edited: where it is enabled its mods
/// are deactivated first, then its record is removed and the store is
/// reconciled, and no preset is being edited any more. Nothing happens
/// where no preset is being edited; `NotFound` where the one that is named
/// is not recorded.
pub open spec fn after_delete_current(s: SessionView) -> (SessionView, Result<PersistView, Error>) {
    match s.current {
        None => (s, Ok(nothing())),
        Some(name) => match lookup(s.presets, name) {
            None => (s, Err(Error::NotFound)),
            Some(preset) => {
                let presets = removed(s.presets, name);
                let store = if preset.enabled {
                    forced(s.store, preset.mods.to_set(), false)
                } else {
                    s.store
                };
                (
                    SessionView {
                        store: reconciled(store, presets),
                        presets,
                        current: None,
                        ..s
                    },
                    Ok(PersistView { mods: true, preset: None, deleted: Some(name) }),
                )
            },
        },
    }
}

/// What the presentation layer asks for.
#[derive(Debug)]
pub enum Event {
    /// Select every staged mod.
    SelectAll,
    /// Deselect every staged mod.
    DeselectAll,
    /// Set the selection mark of one staged mod.
    Select { name: String, selected: bool },
    /// Toggle one mod by hand.
    ToggleMod(String),
    /// Activate the selected mods.
    EnableSelected,
    /// Deactivate the selected mods.
    DisableSelected,
    /// Add the selected mods to the preset that is being edited.
    AddSelected,
    /// Switch a preset between enabled and disabled.
    TogglePreset(String),
    /// Choose the preset to edit by its label.
    ChoosePreset(String),
    /// Create a preset and choose it for editing.
    CreatePreset(String),
    /// Remove mods from the preset that is being edited.
    RemoveMods(Vec<String>),
    /// Delete the preset that is being edited.
    DeletePreset,
}

/// Setting the selection mark of every staged mod to `value`.
pub open spec fn after_select_all(s: SessionView, value: bool) -> (
    SessionView,
    Result<PersistView, Error>,
) {
    (SessionView { staged: all_marked(s.staged, value), ..s }, Ok(nothing()))
}

/// Setting the selection mark of the staged mod `name` to `value`;
/// `UnknownMod` where `name` is not staged.
pub open spec fn after_select(s: SessionView, name: Seq<char>, value: bool) -> (
    SessionView,
    Result<PersistView, Error>,
) {
    if is_staged(s.staged, name) {
        (SessionView { staged: marked(s.staged, name, value), ..s }, Ok(nothing()))
    } else {
        (s, Err(Error::UnknownMod))
    }
}

/// The state after `event`, and what has to be written or the failure.
pub open spec fn step(s: SessionView, event: Event) -> (SessionView, Result<PersistView, Error>) {
    match event {
        Event::SelectAll => after_select_all(s, true),
        Event::DeselectAll => after_select_all(s, false),
        Event::Select { name, selected } => after_select(s, name@, selected),
        Event::ToggleMod(id) => after_toggle_mod(s, id@),
        Event::EnableSelected => after_set_selected(s, true),
        Event::DisableSelected => after_set_selected(s, false),
        Event::AddSelected => after_add_selected(s),
        Event::TogglePreset(name) => after_toggle_preset(s, name@),
        Event::ChoosePreset(label) => after_choose(s, label@),
        Event::CreatePreset(name) => after_create(s, name@),
        Event::RemoveMods(ids) => after_remove_from_current(s, views(ids@)),
        Event::DeletePreset => after_delete_current(s),
    }
}

/// The state that the presentation layer shows and changes.
///
/// The staged mods are the mods that the store knows, each once and in
/// listing order.
#[derive(Debug)]
pub struct Session {
    store: ModStore,
    registry: PresetRegistry,
    staged: Vec<StagedMod>,
    current: Option<String>,
}

impl View for Session {
    type V = SessionView;

    closed spec fn view(&self) -> SessionView {
        SessionView {
            store: self.store@,
            presets: self.registry@,
            staged: staged_views(self.staged@),
            current: name_view(self.current),
        }
    }
}

/// A session taken apart, so that its pieces can be changed one by one.
struct Parts {
    store: ModStore,
    registry: PresetRegistry,
    staged: Vec<StagedMod>,
    current: Option<String>,
}

impl Parts {
    /// What the session is that these parts make.
    spec fn view(&self) -> SessionView {
        SessionView {
            store: self.store@,
            presets: self.registry@,
            staged: staged_views(self.staged@),
            current: name_view(self.current),
        }
    }

    /// The parts make a session: the staged mods are the listing of the
    /// store.
    spec fn fit(&self) -> bool {
        lists(staged_names(staged_views(self.staged@)), self.store@)
    }
}

/// The names of the selected among `staged`, in the staged order.
fn selected_names(staged: &Vec<StagedMod>) -> (names: Vec<String>)
    ensures
        views(names@) == chosen(staged_views(staged@)),
{
    let mut names: Vec<String> = Vec::new();
    let mut i: usize = 0;
    assert(staged_views(staged@).take(0) =~= Seq::<(Seq<char>, bool)>::empty());
    assert(views(names@) =~= chosen(staged_views(staged@).take(0)));
    while i < staged.len()
        invariant
            i <= staged.len(),
            views(names@) == chosen(staged_views(staged@).take(i as int)),
        decreases staged.len() - i,
    {
        let ghost before = views(names@);
        if staged[i].selected {
            names.push(staged[i].mod_name.clone());
            assert(views(names@) =~= before.push(staged[i as int].mod_name@));
        }
        proof {
            let all = staged_views(staged@);
            assert(all.take(i + 1).drop_last() =~= all.take(i as int));
            assert(all.take(i + 1).last() == all[i as int]);
        }
        i = i + 1;
    }
    assert(staged_views(staged@).take(i as int) =~= staged_views(staged@));
    names
}

impl Parts {
    fn select_all(&mut self, value: bool) -> (r: Result<Persist, Error>)
        requires
            old(self).fit(),
        ensures
            final(self).fit(),
            (final(self).view(), outcome(r)) == after_select_all(old(self).view(), value),
    {
        let ghost before = self.view().staged;
        let mut i: usize = 0;
        while i < self.staged.len()
            invariant
                i <= self.staged.len(),
                self.staged.len() == before.len(),
                self.store == old(self).store,
                self.registry == old(self).registry,
                self.current == old(self).current,
                forall|j: int|
                    0 <= j < before.len() ==> (#[trigger] self.staged[j]).mod_name@ == before[j].0
                        && self.staged[j].selected == (j < i && value || j >= i && before[j].1),
            decreases self.staged.len() - i,
        {
            self.staged[i].selected = value;
            i = i + 1;
        }
        assert(staged_views(self.staged@) =~= all_marked(before, value));
        assert(staged_names(staged_views(self.staged@)) =~= staged_names(before));
        Ok(Persist { mods: false, preset: None, deleted: None })
    }

    fn select(&mut self, name: &str, value: bool) -> (r: Result<Persist, Error>)
        requires
            old(self).fit(),
        ensures
            final(self).fit(),
            (final(self).view(), outcome(r)) == after_select(old(self).view(), name@, value),
    {
        let ghost before = self.view().staged;
        let mut found = false;
        let mut i: usize = 0;
        while i < self.staged.len()
            invariant
                i <= self.staged.len(),
                self.staged.len() == before.len(),
                self.store == old(self).store,
                self.registry == old(self).registry,
                self.current == old(self).current,
                forall|j: int|
                    0 <= j < before.len() ==> (#[trigger] self.staged[j]).mod_name@ == before[j].0
                        && self.staged[j].selected == if j < i && before[j].0 == name@ {
                        value
                    } else {
                        before[j].1
                    },
                found == exists|j: int| 0 <= j < i && (#[trigger] before[j]).0 == name@,
            decreases self.staged.len() - i,
        {
            if same_id(self.staged[i].mod_name.as_str(), name) {
                assert(before[i as int].0 == name@);
                self.staged[i].selected = value;
                found = true;
            }
            i = i + 1;
        }
        assert(staged_views(self.staged@) =~= marked(before, name@, value));
        assert(staged_names(staged_views(self.staged@)) =~= staged_names(before));
        if found {
            Ok(Persist { mods: false, preset: None, deleted: None })
        } else {
            assert(staged_views(self.staged@) =~= before);
            Err(Error::UnknownMod)
        }
    }

    fn toggle_mod(&mut self, id: &str) -> (r: Result<Persist, Error>)
        requires
            old(self).fit(),
        ensures
            final(self).fit(),
            (final(self).view(), outcome(r)) == after_toggle_mod(old(self).view(), id@),
    {
        match self.store.is_active(id) {
            Ok(active) => {
                let _ = self.store.set_active(id, !active);
                assert(self.store@.dom() =~= old(self).store@.dom());
                Ok(Persist { mods: true, preset: None, deleted: None })
            },
            Err(e) => Err(e),
        }
    }

    fn set_selected(&mut self, value: bool) -> (r: Result<Persist, Error>)
        requires
            old(self).fit(),
        ensures
            final(self).fit(),
            (final(self).view(), outcome(r)) == after_set_selected(old(self).view(), value),
    {
        proof {
            lemma_selects_unknown(self.view());
        }
        let names = selected_names(&self.staged);
        match self.store.set_many(&names, value) {
            Ok(_) => {
                if !value {
                    self.registry.reconcile(&mut self.store);
                }
                assert(self.store@.dom() =~= old(self).store@.dom());
                Ok(Persist { mods: true, preset: None, deleted: None })
            },
            Err(e) => Err(e),
        }
    }

    fn add_selected(&mut self) -> (r: Result<Persist, Error>)
        requires
            old(self).fit(),
        ensures
            final(self).fit(),
            (final(self).view(), outcome(r)) == after_add_selected(old(self).view()),
    {
        let name = match &self.current {
            Some(name) => name.clone(),
            None => {
                return Ok(Persist { mods: false, preset: None, deleted: None });
            },
        };
        let names = selected_names(&self.staged);
        match self.registry.add_mods(name.as_str(), &names) {
            Ok(_) => {
                self.registry.reconcile(&mut self.store);
                assert(self.store@.dom() =~= old(self).store@.dom());
                Ok(Persist { mods: true, preset: Some(name), deleted: None })
            },
            Err(e) => Err(e),
        }
    }

    fn remove_from_current(&mut self, ids: &Vec<String>) -> (r: Result<Persist, Error>)
        requires
            old(self).fit(),
        ensures
            final(self).fit(),
            (final(self).view(), outcome(r)) == after_remove_from_current(
                old(self).view(),
                views(ids@),
            ),
    {
        let name = match &self.current {
            Some(name) => name.clone(),
            None => {
                return Ok(Persist { mods: false, preset: None, deleted: None });
            },
        };
        match self.registry.remove_mods(name.as_str(), ids) {
            Ok(_) => Ok(Persist { mods: false, preset: Some(name), deleted: None }),
            Err(e) => Err(e),
        }
    }

    fn toggle_preset(&mut self, name: &str) -> (r: Result<Persist, Error>)
        requires
            old(self).fit(),
        ensures
            final(self).fit(),
            (final(self).view(), outcome(r)) == after_toggle_preset(old(self).view(), name@),
    {
        let enabled = match self.registry.get(name) {
            Ok(preset) => preset.is_enabled(),
            Err(e) => {
                return Err(e);
            },
        };
        if enabled {
            let _ = self.registry.disable(name, &mut self.store);
        } else {
            let _ = self.registry.enable(name);
        }
        self.registry.reconcile(&mut self.store);
        assert(self.store@.dom() =~= old(self).store@.dom());
        Ok(Persist { mods: true, preset: Some(name.to_owned()), deleted: None })
    }

    fn choose_preset(&mut self, label: &str) -> (r: Result<Persist, Error>)
        requires
            old(self).fit(),
        ensures
            final(self).fit(),
            (final(self).view(), outcome(r)) == after_choose(old(self).view(), label@),
    {
        if same_id(label, "None") {
            self.current = None;
            Ok(Persist { mods: false, preset: None, deleted: None })
        } else if self.registry.contains(label) {
            self.current = Some(label.to_owned());
            Ok(Persist { mods: false, preset: None, deleted: None })
        } else {
            Err(Error::NotFound)
        }
    }

    fn create(&mut self, name: &str) -> (r: Result<Persist, Error>)
        requires
            old(self).fit(),
        ensures
            final(self).fit(),
            (final(self).view(), outcome(r)) == after_create(old(self).view(), name@),
    {
        match self.registry.create(name.to_owned()) {
            Ok(_) => {
                self.current = if same_id(name, "None") {
                    None
                } else {
                    Some(name.to_owned())
                };
                Ok(Persist { mods: false, preset: Some(name.to_owned()), deleted: None })
            },
            Err(e) => Err(e),
        }
    }

    fn delete_current(&mut self) -> (r: Result<Persist, Error>)
        requires
            old(self).fit(),
        ensures
            final(self).fit(),
            (final(self).view(), outcome(r)) == after_delete_current(old(self).view()),
    {
        let name = match &self.current {
            Some(name) => name.clone(),
            None => {
                return Ok(Persist { mods: false, preset: None, deleted: None });
            },
        };
        match self.registry.remove(name.as_str()) {
            Ok(mut preset) => {
                if preset.is_enabled() {
                    preset.disable(&mut self.store);
                }
                self.registry.reconcile(&mut self.store);
                self.current = None;
                assert(self.store@.dom() =~= old(self).store@.dom());
                Ok(Persist { mods: true, preset: None, deleted: Some(name) })
            },
            Err(e) => Err(e),
        }
    }
}

impl Session {
    /// The staged mods are the listing of the store: every known mod once,
    /// in ascending order.
    #[verifier::type_invariant]
    closed spec fn wf(&self) -> bool {
        lists(staged_names(staged_views(self.staged@)), self.store@)
    }

    /// A session on `store` and `registry`: every known mod is staged, in
    /// listing order and unselected, and no preset is being edited.
    pub fn new(store: ModStore, registry: PresetRegistry) -> (r: Session)
        ensures
            r@.store == store@,
            r@.presets == registry@,
            r@.current == None::<Seq<char>>,
            r@.staged == unselected(listing(store@)),
    {
        let ids = store.identifiers();
        let mut staged: Vec<StagedMod> = Vec::new();
        let mut i: usize = 0;
        while i < ids.len()
            invariant
                i <= ids.len(),
                staged.len() == i,
                forall|j: int|
                    0 <= j < i ==> (#[trigger] staged[j]).mod_name@ == ids[j]@
                        && !staged[j].selected,
            decreases ids.len() - i,
        {
            staged.push(StagedMod { mod_name: ids[i].clone(), selected: false });
            i = i + 1;
        }
        assert(staged_views(staged@) =~= unselected(views(ids@)));
        assert(staged_names(staged_views(staged@)) =~= views(ids@));
        Session { store, registry, staged, current: None }
    }

    /// Takes the session apart and leaves an empty one in its place.
    fn take(&mut self) -> (parts: Parts)
        ensures
            parts.fit(),
            parts.view() == old(self)@,
    {
        proof {
            use_type_invariant(&*self);
        }
        let store = ModStore::new();
        let staged: Vec<StagedMod> = Vec::new();
        proof {
            let names = staged_names(staged_views(staged@));
            assert(names =~= Seq::<Seq<char>>::empty());
            assert(names.to_set() =~= store@.dom());
        }
        let mut taken = Session { store, registry: PresetRegistry::new(), staged, current: None };
        core::mem::swap(self, &mut taken);
        let Session { store, registry, staged, current } = taken;
        Parts { store, registry, staged, current }
    }

    /// Puts the session together again from its parts.
    fn put(&mut self, parts: Parts)
        requires
            parts.fit(),
        ensures
            final(self)@ == parts.view(),
    {
        *self = Session {
            store: parts.store,
            registry: parts.registry,
            staged: parts.staged,
            current: parts.current,
        };
    }

    /// The mod store.
    pub fn store(&self) -> (r: &ModStore)
        ensures
            r@ == self@.store,
    {
        &self.store
    }

    /// The preset registry.
    pub fn registry(&self) -> (r: &PresetRegistry)
        ensures
            r@ == self@.presets,
    {
        &self.registry
    }

    /// The staged mods with their selection marks: the mods that the store
    /// knows, each once and in listing order.
    pub fn staged(&self) -> (r: &Vec<StagedMod>)
        ensures
            staged_views(r@) == self@.staged,
            staged_names(self@.staged) == listing(self@.store),
            lists(staged_names(self@.staged), self@.store),
    {
        proof {
            use_type_invariant(self);
            let names = staged_names(self@.staged);
            assert(lists(listing(self@.store), self@.store));
            lemma_ascending_unique(names, listing(self@.store));
        }
        &self.staged
    }

    /// The name of the preset that is being edited, if there is one.
    pub fn current(&self) -> (r: &Option<String>)
        ensures
            name_view(*r) == self@.current,
    {
        &self.current
    }

    /// The names of the selected staged mods, in the staged order.
    pub fn selection(&self) -> (names: Vec<String>)
        ensures
            views(names@) == chosen(self@.staged),
    {
        selected_names(&self.staged)
    }

    /// The label of the preset that is being edited: its name, or the
    /// reserved name where none is.
    pub fn label(&self) -> (r: String)
        ensures
            r@ == match self@.current {
                Some(name) => name,
                None => reserved_name(),
            },
    {
        match &self.current {
            Some(name) => name.clone(),
            None => "None".to_owned(),
        }
    }

    /// Sets the selection mark of every staged mod to `value`.
    pub fn select_all(&mut self, value: bool) -> (r: Result<Persist, Error>)
        ensures
            (final(self)@, outcome(r)) == after_select_all(old(self)@, value),
    {
        let mut parts = self.take();
        let r = parts.select_all(value);
        self.put(parts);
        r
    }

    /// Sets the selection mark of the staged mod `name` to `value`;
    /// `UnknownMod`, and no change, where `name` is not staged.
    pub fn select(&mut self, name: &str, value: bool) -> (r: Result<Persist, Error>)
        ensures
            (final(self)@, outcome(r)) == after_select(old(self)@, name@, value),
    {
        let mut parts = self.take();
        let r = parts.select(name, value);
        self.put(parts);
        r
    }

    /// Toggles the mod `id` by hand.
    pub fn toggle_mod(&mut self, id: &str) -> (r: Result<Persist, Error>)
        ensures
            (final(self)@, outcome(r)) == after_toggle_mod(old(self)@, id@),
    {
        let mut parts = self.take();
        let r = parts.toggle_mod(id);
        self.put(parts);
        r
    }

    /// Sets every selected mod to `value`, all or none, and reconciles
    /// after a deactivation.
    pub fn set_selected(&mut self, value: bool) -> (r: Result<Persist, Error>)
        ensures
            (final(self)@, outcome(r)) == after_set_selected(old(self)@, value),
    {
        let mut parts = self.take();
        let r = parts.set_selected(value);
        self.put(parts);
        r
    }

    /// Adds the selected mods to the preset that is being edited and
    /// reconciles.
    pub fn add_selected(&mut self) -> (r: Result<Persist, Error>)
        ensures
            (final(self)@, outcome(r)) == after_add_selected(old(self)@),
    {
        let mut parts = self.take();
        let r = parts.add_selected();
        self.put(parts);
        r
    }

    /// Removes `ids` from the preset that is being edited.
    pub fn remove_from_current(&mut self, ids: &Vec<String>) -> (r: Result<Persist, Error>)
        ensures
            (final(self)@, outcome(r)) == after_remove_from_current(old(self)@, views(ids@)),
    {
        let mut parts = self.take();
        let r = parts.remove_from_current(ids);
        self.put(parts);
        r
    }

    /// Switches the preset `name` between enabled and disabled and
    /// reconciles.
    pub fn toggle_preset(&mut self, name: &str) -> (r: Result<Persist, Error>)
        ensures
            (final(self)@, outcome(r)) == after_toggle_preset(old(self)@, name@),
    {
        let mut parts = self.take();
        let r = parts.toggle_preset(name);
        self.put(parts);
        r
    }

    /// Chooses the preset to edit by its label.
    pub fn choose_preset(&mut self, label: &str) -> (r: Result<Persist, Error>)
        ensures
            (final(self)@, outcome(r)) == after_choose(old(self)@, label@),
    {
        let mut parts = self.take();
        let r = parts.choose_preset(label);
        self.put(parts);
        r
    }

    /// Creates the preset `name` and chooses it for editing by its name as
    /// a label.
    pub fn create(&mut self, name: &str) -> (r: Result<Persist, Error>)
        ensures
            (final(self)@, outcome(r)) == after_create(old(self)@, name@),
    {
        let mut parts = self.take();
        let r = parts.create(name);
        self.put(parts);
        r
    }

    /// Deletes the preset that is being edited.
    pub fn delete_current(&mut self) -> (r: Result<Persist, Error>)
        ensures
            (final(self)@, outcome(r)) == after_delete_current(old(self)@),
    {
        let mut parts = self.take();
        let r = parts.delete_current();
        self.put(parts);
        r
    }

    /// Takes the session through `event` and says what has to be written.
    /// On a failure nothing has changed.
    pub fn handle(&mut self, event: Event) -> (r: Result<Persist, Error>)
        ensures
            (final(self)@, outcome(r)) == step(old(self)@, event),
    {
        match event {
            Event::SelectAll => self.select_all(true),
            Event::DeselectAll => self.select_all(false),
            Event::Select { name, selected } => self.select(name.as_str(), selected),
            Event::ToggleMod(id) => self.toggle_mod(id.as_str()),
            Event::EnableSelected => self.set_selected(true),
            Event::DisableSelected => self.set_selected(false),
            Event::AddSelected => self.add_selected(),
            Event::TogglePreset(name) => self.toggle_preset(name.as_str()),
            Event::ChoosePreset(label) => self.choose_preset(label.as_str()),
            Event::CreatePreset(name) => self.create(name.as_str()),
            Event::RemoveMods(ids) => self.remove_from_current(&ids),
            Event::DeletePreset => self.delete_current(),
        }
    }
}

} // verus!
