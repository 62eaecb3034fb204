//! What holds of the engine as a whole: laws that relate its operations.

use vstd::prelude::*;
use crate::error::Error;
use crate::ident::lemma_ascending_no_duplicates;
use crate::ident::lemma_ascending_unique;
use crate::mod_store::forced;
use crate::mod_store::listing;
use crate::mod_store::lists;
use crate::mod_store::loads;
use crate::mod_store::record_ids;
use crate::mod_store::saves;
use crate::mod_store::ModRecord;
use crate::mod_store::ModStore;
use crate::preset::Preset;
use crate::preset::PresetView;
use crate::registry::claimed;
use crate::registry::lemma_lookup_at;
use crate::registry::lemma_push_unique;
use crate::registry::lookup;
use crate::registry::preset_names;
use crate::registry::reconciled;
use crate::registry::removed;
use crate::registry::stored;
use crate::registry::PresetRegistry;
use crate::session::after_select;
use crate::session::after_set_selected;
use crate::session::marked;
use crate::session::selects_unknown;
use crate::session::staged_names;
use crate::session::step;
use crate::session::PersistView;
use crate::session::SessionView;
use crate::session::Event;
use crate::session::Session;

verus! {

/// Reconciling twice in a row, with nothing changed in between, gives the
/// same mod store as reconciling once.
pub proof fn law_reconcile_idempotent(store: ModStore, registry: PresetRegistry)
    ensures
        reconciled(reconciled(store@, registry@), registry@) == reconciled(store@, registry@),
{
    assert(reconciled(reconciled(store@, registry@), registry@) =~= reconciled(
        store@,
        registry@,
    ));
}

/// After a reconciliation every known mod that an enabled preset claims is
/// active, every other known mod has the flag it had, and the store knows
/// the same mods as before.
pub proof fn law_reconcile_claims(store: ModStore, registry: PresetRegistry)
    ensures
        reconciled(store@, registry@).dom() == store@.dom(),
        forall|id: Seq<char>|
            store@.contains_key(id) && claimed(registry@).contains(id) ==> #[trigger] reconciled(
                store@,
                registry@,
            )[id],
        forall|id: Seq<char>|
            store@.contains_key(id) && !claimed(registry@).contains(id) ==> #[trigger] reconciled(
                store@,
                registry@,
            )[id] == store@[id],
{
    assert(reconciled(store@, registry@).dom() =~= store@.dom());
}

/// A mod is claimed exactly if some enabled preset of the registry holds it.
pub proof fn law_claimed_is_union(registry: PresetRegistry, id: Seq<char>)
    ensures
        claimed(registry@).contains(id) <==> exists|i: int|
            0 <= i < registry@.len() && (#[trigger] registry@[i]).enabled
                && registry@[i].mods.to_set().contains(id),
{
}

/// Disabling the preset called `name` and then reconciling deactivates
/// exactly those of its mods that no other enabled preset claims: such a
/// mod ends inactive, a mod that another enabled preset claims ends active,
/// and every other mod keeps its flag.
pub proof fn law_disable_then_reconcile(store: ModStore, registry: PresetRegistry, name: Seq<char>)
    requires
        preset_names(registry@).no_duplicates(),
        lookup(registry@, name) is Some,
    ensures
        ({
            let preset = lookup(registry@, name)->Some_0;
            let disabled = stored(registry@, PresetView { enabled: false, ..preset });
            let others = claimed(removed(registry@, name));
            let end = reconciled(forced(store@, preset.mods.to_set(), false), disabled);
            &&& claimed(disabled) == others
            &&& end.dom() == store@.dom()
            &&& forall|id: Seq<char>|
                store@.contains_key(id) ==> #[trigger] end[id] == if others.contains(id) {
                    true
                } else if preset.mods.contains(id) {
                    false
                } else {
                    store@[id]
                }
        }),
{
    let presets = registry@;
    let names = preset_names(presets);
    let at = names.index_of(name);
    let preset = presets[at];
    assert(names[at] == name);
    let off = PresetView { enabled: false, ..preset };
    lemma_lookup_at(presets, at, off);
    let disabled = presets.update(at, off);
    let rest = presets.remove(at);
    assert(removed(presets, name) == rest);
    assert forall|id: Seq<char>| claimed(disabled).contains(id) == claimed(rest).contains(id) by {
        if claimed(disabled).contains(id) {
            let i = choose|i: int|
                0 <= i < disabled.len() && (#[trigger] disabled[i]).enabled
                    && disabled[i].mods.contains(id);
            assert(i != at);
            let j = if i < at { i } else { i - 1 };
            assert(rest[j] == disabled[i]);
        }
        if claimed(rest).contains(id) {
            let j = choose|j: int|
                0 <= j < rest.len() && (#[trigger] rest[j]).enabled && rest[j].mods.contains(id);
            let i = if j < at { j } else { j + 1 };
            assert(disabled[i] == rest[j]);
        }
    }
    assert(claimed(disabled) =~= claimed(rest));
    let end = reconciled(forced(store@, preset.mods.to_set(), false), disabled);
    assert(end.dom() =~= store@.dom());
}

/// A mod that no enabled preset claims keeps the flag that a manual toggle
/// gave it across a reconciliation.
pub proof fn law_manual_toggle_survives(
    store: ModStore,
    registry: PresetRegistry,
    id: Seq<char>,
    value: bool,
)
    requires
        store@.contains_key(id),
        !claimed(registry@).contains(id),
    ensures
        reconciled(store@.insert(id, value), registry@)[id] == value,
{
}

/// Saving a mod store and loading what was saved succeeds and gives a store
/// with the same identifiers and the same flags.
pub proof fn law_mod_store_round_trip(
    store: ModStore,
    records: Seq<ModRecord>,
    outcome: Result<ModStore, Error>,
)
    requires
        saves(store@, records),
        loads(records, outcome),
    ensures
        outcome is Ok,
        outcome->Ok_0@ == store@,
{
    lemma_ascending_no_duplicates(record_ids(records));
}

/// Saving a preset to a registry and loading it by its name gives the same
/// preset: same name, same mods, same flag. The presets of other names are
/// found as before.
pub proof fn law_preset_round_trip(registry: PresetRegistry, preset: Preset, other: Seq<char>)
    requires
        preset_names(registry@).no_duplicates(),
    ensures
        preset_names(stored(registry@, preset@)).no_duplicates(),
        lookup(stored(registry@, preset@), preset@.name) == Some(preset@),
        other != preset@.name ==> lookup(stored(registry@, preset@), other) == lookup(
            registry@,
            other,
        ),
{
    let before = registry@;
    let names = preset_names(before);
    let after = stored(before, preset@);
    let name = preset@.name;
    if names.contains(name) {
        let at = names.index_of(name);
        assert(before[at].name == names[at]);
        lemma_lookup_at(before, at, preset@);
        lemma_lookup_at(after, at, preset@);
        if other != name && names.contains(other) {
            let k = names.index_of(other);
            assert(before[k].name == names[k]);
            lemma_lookup_at(before, k, before[k]);
            lemma_lookup_at(after, k, after[k]);
        }
    } else {
        lemma_push_unique(before, preset@);
        lemma_lookup_at(after, before.len() as int, preset@);
        if other != name {
            if names.contains(other) {
                let k = names.index_of(other);
                assert(before[k].name == names[k]);
                lemma_lookup_at(before, k, before[k]);
                lemma_lookup_at(after, k, after[k]);
            } else if preset_names(after).contains(other) {
                let k = preset_names(after).index_of(other);
                assert(preset_names(after)[k] == other);
                assert(names[k] == other);
            }
        }
    }
}

/// Where the staged mods are the listing of the store, as they are in every
/// session, setting the selection mark of a staged mod changes the mark of
/// that one row and nothing else.
pub proof fn law_select_marks_one_row(session: Session, row: int, value: bool)
    requires
        lists(staged_names(session@.staged), session@.store),
        0 <= row < session@.staged.len(),
    ensures
        ({
            let name = session@.staged[row].0;
            let end = after_select(session@, name, value);
            &&& end.1 is Ok
            &&& end.0 == (SessionView {
                staged: session@.staged.update(row, (name, value)),
                ..session@
            })
        }),
{
    let staged = session@.staged;
    let names = staged_names(staged);
    let name = staged[row].0;
    lemma_ascending_no_duplicates(names);
    assert forall|j: int| 0 <= j < staged.len() && j != row implies staged[j].0 != name by {
        assert(names[j] != names[row]);
    }
    assert(marked(staged, name, value) =~= staged.update(row, (name, value)));
}

/// A batch activation or deactivation that selects a mod which the store
/// does not know fails with `UnknownMod` and changes nothing.
pub proof fn law_batch_reports_unknown(session: Session, value: bool)
    requires
        selects_unknown(session@),
    ensures
        after_set_selected(session@, value) == (
            session@,
            Err::<PersistView, Error>(Error::UnknownMod),
        ),
{
}

/// An entry point of the session that fails has changed nothing.
pub proof fn law_failed_step_changes_nothing(session: Session, event: Event)
    ensures
        step(session@, event).1 is Err ==> step(session@, event).0 == session@,
{
}

/// No entry point of the session adds a mod to the store or takes one from
/// it: the store knows the same mods after every step.
pub proof fn law_step_keeps_known_mods(session: Session, event: Event)
    ensures
        step(session@, event).0.store.dom() == session@.store.dom(),
{
    assert(step(session@, event).0.store.dom() =~= session@.store.dom());
}

/// The listing of a mod store is fixed by what the store knows: whatever
/// lists the mods of the same store lists them alike, so that the order of
/// the identifiers is the same at every call.
pub proof fn law_listing_unique(store: ModStore, a: Seq<Seq<char>>, b: Seq<Seq<char>>)
    requires
        lists(a, store@),
        lists(b, store@),
    ensures
        a == b,
        a == listing(store@),
{
    lemma_ascending_unique(a, b);
    assert(lists(listing(store@), store@));
    lemma_ascending_unique(a, listing(store@));
}

} // verus!
