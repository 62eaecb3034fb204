//! The bridge to the `beammm` crate, which reads and writes the game's mod
//! configuration.
//!
//! The engine works on its own mod store. The functions here turn a loaded
//! configuration into a mod store, and carry the flags of a mod store back
//! into the configuration, which holds more than the flags and is what gets
//! written.

use vstd::prelude::*;
use crate::ident::lemma_ascending_no_duplicates;
use crate::ident::views;
use crate::mod_store::lemma_assoc_at;
use crate::mod_store::lemma_records_map_step;
use crate::mod_store::record_flags;
use crate::mod_store::record_ids;
use crate::mod_store::records_map;
use crate::mod_store::Flags;
use crate::mod_store::ModRecord;
use crate::mod_store::ModStore;

verus! {

/// `beammm::game::ModCfg`: the game's mod configuration as `beammm` loads
/// and writes it. Nothing of its inside is known here but what the items
/// below say.
#[verifier::external_type_specification]
#[verifier::external_body]
pub struct ExModCfg(beammm::game::ModCfg);

/// The mods that a `beammm` mod configuration holds, each with its active
/// flag.
pub uninterp spec fn cfg_flags(cfg: beammm::game::ModCfg) -> Map<Seq<char>, bool>;

/// `beammm::game::ModCfg::get_mods`: the keys of the configuration's map of
/// mods. Each mod comes once; the order is whatever the map gives.
#[verifier::external_body]
fn cfg_mod_names(cfg: &beammm::game::ModCfg) -> (names: Vec<String>)
    ensures
        views(names@).no_duplicates(),
        views(names@).to_set() == cfg_flags(*cfg).dom(),
{
    cfg.get_mods().cloned().collect()
}

/// `beammm::game::ModCfg::is_mod_active`: the flag of the mod, or nothing
/// where the configuration does not hold the mod.
#[verifier::external_body]
fn cfg_is_mod_active(cfg: &beammm::game::ModCfg, id: &str) -> (r: Option<bool>)
    ensures
        r == if cfg_flags(*cfg).contains_key(id@) {
            Some(cfg_flags(*cfg)[id@])
        } else {
            None::<bool>
        },
{
    cfg.is_mod_active(id)
}

/// `beammm::game::ModCfg::set_mod_active`: sets the flag of the mod and of
/// no other; where the configuration does not hold the mod it fails and
/// changes nothing. The result says whether it went through.
#[verifier::external_body]
fn cfg_set_mod_active(cfg: &mut beammm::game::ModCfg, id: &str, active: bool) -> (done: bool)
    ensures
        done == cfg_flags(*old(cfg)).contains_key(id@),
        cfg_flags(*final(cfg)) == if cfg_flags(*old(cfg)).contains_key(id@) {
            cfg_flags(*old(cfg)).insert(id@, active)
        } else {
            cfg_flags(*old(cfg))
        },
{
    cfg.set_mod_active(id, active).is_ok()
}

/// The flags `base` with those of `over` written over them: a mod of `base`
/// that `over` knows has the flag of `over`, every other mod of `base` has
/// its own.
pub open spec fn overlaid(base: Flags, over: Flags) -> Flags {
    Map::new(
        |id: Seq<char>| base.contains_key(id),
        |id: Seq<char>| if over.contains_key(id) { over[id] } else { base[id] },
    )
}

/// The mod store that a loaded mod configuration stands for: the same mods
/// with the same flags.
pub fn store_of(cfg: &beammm::game::ModCfg) -> (store: ModStore)
    ensures
        store@ == cfg_flags(*cfg),
{
    let names = cfg_mod_names(cfg);
    let ghost flags = cfg_flags(*cfg);
    let mut records: Vec<ModRecord> = Vec::new();
    let mut i: usize = 0;
    while i < names.len()
        invariant
            i <= names.len(),
            flags == cfg_flags(*cfg),
            views(names@).no_duplicates(),
            views(names@).to_set() == flags.dom(),
            records.len() == i,
            forall|j: int|
                0 <= j < i ==> (#[trigger] records[j]).id@ == names[j]@ && records[j].active
                    == flags[names[j]@],
        decreases names.len() - i,
    {
        assert(views(names@)[i as int] == names[i as int]@);
        assert(views(names@).to_set().contains(names[i as int]@));
        match cfg_is_mod_active(cfg, names[i].as_str()) {
            Some(active) => {
                records.push(ModRecord { id: names[i].clone(), active });
            },
            None => {
                assert(false);
            },
        }
        i = i + 1;
    }
    let r = ModStore::load(&records);
    proof {
        let ids = record_ids(records@);
        assert(ids =~= views(names@));
        assert forall|id: Seq<char>| #[trigger] flags.contains_key(id) implies records_map(
            records@,
        )[id] == flags[id] by {
            assert(ids.to_set().contains(id));
            let k = ids.index_of(id);
            lemma_assoc_at(ids, record_flags(records@), k);
        }
        assert(records_map(records@) =~= flags);
    }
    r.unwrap()
}

/// Carries the flags of `store` into `cfg`, so that writing `cfg` persists
/// the store. Mods that only one of the two knows are passed over, and
/// whatever else `cfg` holds is not touched.
pub fn write_flags(store: &ModStore, cfg: &mut beammm::game::ModCfg)
    ensures
        cfg_flags(*final(cfg)) == overlaid(cfg_flags(*old(cfg)), store@),
{
    let records = store.save();
    let ghost base = cfg_flags(*cfg);
    let mut i: usize = 0;
    proof {
        lemma_ascending_no_duplicates(record_ids(records@));
        assert(record_ids(records@.take(0)) =~= Seq::<Seq<char>>::empty());
        assert(cfg_flags(*cfg) =~= overlaid(base, records_map(records@.take(0))));
    }
    while i < records.len()
        invariant
            i <= records.len(),
            record_ids(records@).no_duplicates(),
            record_ids(records@.take(i as int)).no_duplicates(),
            cfg_flags(*cfg) == overlaid(base, records_map(records@.take(i as int))),
        decreases records.len() - i,
    {
        let _ = cfg_set_mod_active(cfg, records[i].id.as_str(), records[i].active);
        proof {
            let seen = record_ids(records@.take(i as int));
            let id = records[i as int].id@;
            if seen.contains(id) {
                let k = seen.index_of(id);
                assert(record_ids(records@)[k] == seen[k]);
                assert(record_ids(records@)[i as int] == id);
            }
            lemma_records_map_step(records@, i as int);
            assert(cfg_flags(*cfg) =~= overlaid(base, records_map(records@.take(i + 1))));
        }
        i = i + 1;
    }
    assert(records@.take(i as int) =~= records@);
}

} // verus!
