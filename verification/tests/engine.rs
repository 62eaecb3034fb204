use beammm_gui::error::Error;
use beammm_gui::ident::{rank, same_id, Rank};
use beammm_gui::mod_store::{ModRecord, ModStore};
use beammm_gui::preset::Preset;
use beammm_gui::registry::{PresetRecord, PresetRegistry};

fn record(id: &str, active: bool) -> ModRecord {
    ModRecord { id: id.to_string(), active }
}

fn store_of(entries: &[(&str, bool)]) -> ModStore {
    let records: Vec<ModRecord> = entries.iter().map(|(id, active)| record(id, *active)).collect();
    ModStore::load(&records).unwrap()
}

fn flags(store: &ModStore) -> Vec<(String, bool)> {
    store.save().into_iter().map(|r| (r.id, r.active)).collect()
}

fn strings(ids: &[&str]) -> Vec<String> {
    ids.iter().map(|s| s.to_string()).collect()
}

fn preset_of(name: &str, mods: &[&str], enabled: bool) -> Preset {
    let mut preset = Preset::new(name.to_string(), strings(mods)).unwrap();
    if enabled {
        preset.enable();
    }
    preset
}

fn expect(entries: &[(&str, bool)]) -> Vec<(String, bool)> {
    entries.iter().map(|(id, active)| (id.to_string(), *active)).collect()
}

#[test]
fn rank_follows_the_byte_order_of_strings() {
    let words = ["", "a", "A", "ab", "abc", "b", "B", "mod_10", "mod_2", "Zebra", "éclair", "日本", "z"];
    for a in words {
        for b in words {
            let expected = match a.cmp(b) {
                std::cmp::Ordering::Less => Rank::Before,
                std::cmp::Ordering::Equal => Rank::Same,
                std::cmp::Ordering::Greater => Rank::After,
            };
            assert_eq!(rank(a, b), expected, "{a:?} against {b:?}");
            assert_eq!(same_id(a, b), a == b);
        }
    }
}

#[test]
fn identifiers_are_case_sensitive() {
    let store = store_of(&[("Mod", true), ("mod", false)]);
    assert_eq!(store.is_active("Mod"), Ok(true));
    assert_eq!(store.is_active("mod"), Ok(false));
    assert_eq!(store.is_active("MOD"), Err(Error::UnknownMod));
}

#[test]
fn load_rejects_duplicate_identifiers() {
    let records = vec![record("a", true), record("b", false), record("a", false)];
    assert_eq!(ModStore::load(&records).unwrap_err(), Error::LoadError);
}

#[test]
fn load_of_no_records_gives_an_empty_store() {
    let store = ModStore::load(&Vec::new()).unwrap();
    assert_eq!(store.len(), 0);
    assert!(store.identifiers().is_empty());
    assert!(store.save().is_empty());
}

#[test]
fn identifiers_are_listed_in_ascending_order() {
    let store = store_of(&[("zeta", true), ("alpha", false), ("Beta", true), ("mid", false)]);
    assert_eq!(store.identifiers(), strings(&["Beta", "alpha", "mid", "zeta"]));
    assert_eq!(store.identifiers(), store.identifiers());
    assert_eq!(store.len(), 4);
}

#[test]
fn is_active_and_set_active_report_unknown_mods() {
    let mut store = store_of(&[("a", false)]);
    assert_eq!(store.is_active("missing"), Err(Error::UnknownMod));
    assert_eq!(store.set_active("missing", true), Err(Error::UnknownMod));
    assert_eq!(flags(&store), expect(&[("a", false)]));
    assert!(store.contains("a"));
    assert!(!store.contains("missing"));
}

#[test]
fn set_active_changes_one_flag_only() {
    let mut store = store_of(&[("a", false), ("b", false), ("c", true)]);
    assert_eq!(store.set_active("b", true), Ok(()));
    assert_eq!(flags(&store), expect(&[("a", false), ("b", true), ("c", true)]));
    assert_eq!(store.set_active("c", false), Ok(()));
    assert_eq!(flags(&store), expect(&[("a", false), ("b", true), ("c", false)]));
}

#[test]
fn set_all_passes_over_unknown_mods() {
    let mut store = store_of(&[("a", false), ("b", false), ("c", false)]);
    store.set_all(&strings(&["c", "ghost", "a", "c"]), true);
    assert_eq!(flags(&store), expect(&[("a", true), ("b", false), ("c", true)]));
}

#[test]
fn mod_store_round_trip() {
    let store = store_of(&[("b", true), ("a", false), ("c", true)]);
    let saved = store.save();
    let loaded = ModStore::load(&saved).unwrap();
    assert_eq!(flags(&loaded), flags(&store));
    assert_eq!(loaded.identifiers(), store.identifiers());
    assert_eq!(flags(&loaded), expect(&[("a", false), ("b", true), ("c", true)]));
}

#[test]
fn new_preset_is_disabled_and_holds_each_mod_once() {
    let preset = Preset::new("race".to_string(), strings(&["a", "b", "a", "c", "b"])).unwrap();
    assert_eq!(preset.name(), "race");
    assert!(!preset.is_enabled());
    assert_eq!(preset.get_mods(), &strings(&["a", "b", "c"]));
}

#[test]
fn new_preset_rejects_an_empty_name() {
    assert_eq!(Preset::new(String::new(), strings(&["a"])).unwrap_err(), Error::InvalidName);
}

#[test]
fn add_mod_is_idempotent() {
    let mut preset = preset_of("p", &["a"], false);
    preset.add_mod("b");
    preset.add_mod("b");
    preset.add_mod("a");
    assert_eq!(preset.get_mods(), &strings(&["a", "b"]));
    assert!(preset.contains("b"));
    assert!(!preset.contains("c"));
}

#[test]
fn remove_mods_is_idempotent_and_ignores_absent_mods() {
    let mut preset = preset_of("p", &["a", "b", "c", "d"], false);
    preset.remove_mods(&strings(&["b", "x", "d", "b"]));
    assert_eq!(preset.get_mods(), &strings(&["a", "c"]));
    preset.remove_mods(&strings(&["b", "x", "d", "b"]));
    assert_eq!(preset.get_mods(), &strings(&["a", "c"]));
}

#[test]
fn enable_does_not_touch_the_store() {
    let store = store_of(&[("a", false)]);
    let mut preset = preset_of("p", &["a"], false);
    preset.enable();
    assert!(preset.is_enabled());
    assert_eq!(store.is_active("a"), Ok(false));
}

#[test]
fn disable_deactivates_every_member_even_if_claimed_elsewhere() {
    let mut store = store_of(&[("a", true), ("b", true), ("c", true)]);
    let mut race = preset_of("race", &["a", "b", "gone"], true);
    race.disable(&mut store);
    assert!(!race.is_enabled());
    assert_eq!(flags(&store), expect(&[("a", false), ("b", false), ("c", true)]));
}

#[test]
fn remove_mods_leaves_the_store_alone() {
    let mut store = store_of(&[("a", false), ("b", false)]);
    let mut registry = PresetRegistry::new();
    registry.put(preset_of("p", &["a", "b"], true));
    registry.reconcile(&mut store);
    registry.remove_mods("p", &strings(&["a"])).unwrap();
    registry.reconcile(&mut store);
    assert_eq!(flags(&store), expect(&[("a", true), ("b", true)]));
}

#[test]
fn preset_round_trip_through_the_registry() {
    let mut registry = PresetRegistry::new();
    let preset = preset_of("sim", &["b", "c"], true);
    preset.save(&mut registry);
    let loaded = Preset::load("sim", &registry).unwrap();
    assert_eq!(loaded.name(), "sim");
    assert_eq!(loaded.get_mods(), &strings(&["b", "c"]));
    assert!(loaded.is_enabled());
    assert_eq!(registry.list(), strings(&["sim"]));
}

#[test]
fn saving_again_overwrites_in_place() {
    let mut registry = PresetRegistry::new();
    preset_of("one", &["a"], false).save(&mut registry);
    preset_of("two", &["b"], false).save(&mut registry);
    preset_of("one", &["c"], true).save(&mut registry);
    assert_eq!(registry.list(), strings(&["one", "two"]));
    let one = registry.get("one").unwrap();
    assert_eq!(one.get_mods(), &strings(&["c"]));
    assert!(one.is_enabled());
    assert_eq!(registry.len(), 2);
}

#[test]
fn load_and_delete_report_missing_presets() {
    let mut registry = PresetRegistry::new();
    preset_of("one", &["a"], false).save(&mut registry);
    assert_eq!(Preset::load("two", &registry).unwrap_err(), Error::NotFound);
    assert_eq!(Preset::delete("two", &mut registry), Err(Error::NotFound));
    assert_eq!(registry.list(), strings(&["one"]));
    assert_eq!(Preset::delete("one", &mut registry), Ok(()));
    assert!(registry.list().is_empty());
    assert_eq!(Preset::delete("one", &mut registry), Err(Error::NotFound));
    assert_eq!(registry.get("one").unwrap_err(), Error::NotFound);
    assert_eq!(registry.remove("one").unwrap_err(), Error::NotFound);
}

#[test]
fn list_keeps_the_order_of_recording() {
    let mut registry = PresetRegistry::new();
    for name in ["zulu", "alpha", "mike"] {
        registry.create(name.to_string()).unwrap();
    }
    assert_eq!(registry.list(), strings(&["zulu", "alpha", "mike"]));
    registry.remove("alpha").unwrap();
    assert_eq!(registry.list(), strings(&["zulu", "mike"]));
    assert!(registry.contains("mike"));
    assert!(!registry.contains("alpha"));
}

#[test]
fn create_rejects_a_name_in_use() {
    let mut registry = PresetRegistry::new();
    assert_eq!(registry.create("race".to_string()), Ok(()));
    registry.add_mods("race", &strings(&["a"])).unwrap();
    assert_eq!(registry.create("race".to_string()), Err(Error::AlreadyExists));
    assert_eq!(registry.list(), strings(&["race"]));
    assert_eq!(registry.get("race").unwrap().get_mods(), &strings(&["a"]));
}

#[test]
fn create_rejects_an_empty_name() {
    let mut registry = PresetRegistry::new();
    assert_eq!(registry.create(String::new()), Err(Error::InvalidName));
    assert_eq!(registry.len(), 0);
}

#[test]
fn edits_by_name_report_missing_presets() {
    let mut registry = PresetRegistry::new();
    let mut store = store_of(&[("a", true)]);
    assert_eq!(registry.enable("p"), Err(Error::NotFound));
    assert_eq!(registry.disable("p", &mut store), Err(Error::NotFound));
    assert_eq!(registry.add_mods("p", &strings(&["a"])), Err(Error::NotFound));
    assert_eq!(registry.remove_mods("p", &strings(&["a"])), Err(Error::NotFound));
    assert_eq!(flags(&store), expect(&[("a", true)]));
}

#[test]
fn reconcile_is_idempotent() {
    let mut store = store_of(&[("a", false), ("b", true), ("c", false), ("d", false)]);
    let mut registry = PresetRegistry::new();
    registry.put(preset_of("on", &["a", "c"], true));
    registry.put(preset_of("off", &["d"], false));
    registry.reconcile(&mut store);
    let once = flags(&store);
    registry.reconcile(&mut store);
    assert_eq!(flags(&store), once);
    assert_eq!(once, expect(&[("a", true), ("b", true), ("c", true), ("d", false)]));
}

#[test]
fn reconcile_activates_claimed_mods_and_never_deactivates() {
    let mut store = store_of(&[("a", false), ("b", true), ("c", false), ("d", true)]);
    let mut registry = PresetRegistry::new();
    registry.put(preset_of("one", &["a"], true));
    registry.put(preset_of("two", &["a", "c"], true));
    registry.put(preset_of("three", &["b", "d"], false));
    registry.reconcile(&mut store);
    assert_eq!(flags(&store), expect(&[("a", true), ("b", true), ("c", true), ("d", true)]));
}

#[test]
fn reconcile_tolerates_dangling_references() {
    let mut store = store_of(&[("a", false), ("b", false)]);
    let mut registry = PresetRegistry::new();
    registry.put(preset_of("p", &["ghost", "a"], true));
    registry.reconcile(&mut store);
    assert_eq!(flags(&store), expect(&[("a", true), ("b", false)]));
    assert_eq!(store.is_active("ghost"), Err(Error::UnknownMod));
}

#[test]
fn reconcile_with_no_enabled_preset_changes_nothing() {
    let mut store = store_of(&[("a", false), ("b", true)]);
    let mut registry = PresetRegistry::new();
    registry.put(preset_of("p", &["a"], false));
    registry.reconcile(&mut store);
    assert_eq!(flags(&store), expect(&[("a", false), ("b", true)]));
}

#[test]
fn disable_then_reconcile_keeps_mods_shared_with_enabled_presets() {
    let mut store = store_of(&[("a", true), ("b", true), ("c", true), ("d", true)]);
    let mut registry = PresetRegistry::new();
    registry.put(preset_of("race", &["a", "b"], true));
    registry.put(preset_of("sim", &["b", "c"], true));
    registry.put(preset_of("idle", &["a"], false));
    registry.disable("race", &mut store).unwrap();
    assert_eq!(flags(&store), expect(&[("a", false), ("b", false), ("c", true), ("d", true)]));
    registry.reconcile(&mut store);
    assert_eq!(flags(&store), expect(&[("a", false), ("b", true), ("c", true), ("d", true)]));
    assert!(!registry.get("race").unwrap().is_enabled());
}

#[test]
fn race_and_sim_scenario() {
    let mut store = store_of(&[("A", false), ("B", false), ("C", false)]);
    let mut registry = PresetRegistry::new();
    registry.put(preset_of("race", &["A", "B"], false));
    registry.put(preset_of("sim", &["B", "C"], false));

    registry.enable("race").unwrap();
    registry.reconcile(&mut store);
    assert_eq!(flags(&store), expect(&[("A", true), ("B", true), ("C", false)]));

    registry.enable("sim").unwrap();
    registry.reconcile(&mut store);
    assert_eq!(flags(&store), expect(&[("A", true), ("B", true), ("C", true)]));

    registry.disable("race", &mut store).unwrap();
    registry.reconcile(&mut store);
    assert_eq!(flags(&store), expect(&[("A", false), ("B", true), ("C", true)]));
}

#[test]
fn manual_toggle_of_an_unowned_mod_survives_reconciliation() {
    let mut store = store_of(&[("free", false), ("owned", false)]);
    let mut registry = PresetRegistry::new();
    registry.put(preset_of("p", &["owned"], true));
    store.set_active("free", true).unwrap();
    registry.reconcile(&mut store);
    assert_eq!(store.is_active("free"), Ok(true));
    store.set_active("free", false).unwrap();
    registry.reconcile(&mut store);
    assert_eq!(store.is_active("free"), Ok(false));
    assert_eq!(store.is_active("owned"), Ok(true));
}

#[test]
fn cloned_preset_is_the_same_preset() {
    let preset = preset_of("p", &["a", "b"], true);
    let copy = preset.clone();
    assert_eq!(copy.name(), preset.name());
    assert_eq!(copy.get_mods(), preset.get_mods());
    assert_eq!(copy.is_enabled(), preset.is_enabled());
}

#[test]
fn new_store_knows_no_mod() {
    let store = ModStore::new();
    assert_eq!(store.len(), 0);
    assert!(store.identifiers().is_empty());
    assert_eq!(store.is_active("a"), Err(Error::UnknownMod));
}

#[test]
fn set_many_sets_every_listed_mod() {
    let mut store = store_of(&[("a", false), ("b", false), ("c", true)]);
    assert_eq!(store.set_many(&strings(&["c", "a", "a"]), true), Ok(()));
    assert_eq!(flags(&store), expect(&[("a", true), ("b", false), ("c", true)]));
    assert_eq!(store.set_many(&strings(&["b", "c"]), false), Ok(()));
    assert_eq!(flags(&store), expect(&[("a", true), ("b", false), ("c", false)]));
    assert_eq!(store.set_many(&Vec::new(), true), Ok(()));
    assert_eq!(flags(&store), expect(&[("a", true), ("b", false), ("c", false)]));
}

#[test]
fn set_many_reports_an_unknown_mod_and_changes_nothing() {
    let mut store = store_of(&[("a", false), ("b", false)]);
    assert_eq!(store.set_many(&strings(&["a", "ghost", "b"]), true), Err(Error::UnknownMod));
    assert_eq!(flags(&store), expect(&[("a", false), ("b", false)]));
    assert_eq!(store.set_many(&strings(&["ghost"]), false), Err(Error::UnknownMod));
    assert!(!store.contains("ghost"));
}

fn preset_record(name: &str, mods: &[&str], enabled: bool) -> PresetRecord {
    PresetRecord { name: name.to_string(), mods: strings(mods), enabled }
}

#[test]
fn registry_load_keeps_the_records_in_order() {
    let records = vec![
        preset_record("sim", &["b", "c", "b"], true),
        preset_record("race", &["a"], false),
        preset_record("None", &[], false),
    ];
    let registry = PresetRegistry::load(&records).unwrap();
    assert_eq!(registry.list(), strings(&["sim", "race", "None"]));
    let sim = registry.get("sim").unwrap();
    assert_eq!(sim.get_mods(), &strings(&["b", "c"]));
    assert!(sim.is_enabled());
    assert!(!registry.get("race").unwrap().is_enabled());
    assert_eq!(PresetRegistry::load(&Vec::new()).unwrap().len(), 0);
}

#[test]
fn registry_load_rejects_a_repeated_name() {
    let records = vec![
        preset_record("sim", &["b"], true),
        preset_record("race", &["a"], false),
        preset_record("sim", &["c"], false),
    ];
    assert_eq!(PresetRegistry::load(&records).unwrap_err(), Error::LoadError);
}

#[test]
fn registry_load_rejects_a_record_without_a_name() {
    let records = vec![preset_record("sim", &["b"], true), preset_record("", &["a"], false)];
    assert_eq!(PresetRegistry::load(&records).unwrap_err(), Error::LoadError);
}

#[test]
fn create_takes_any_name_that_is_not_empty() {
    let mut registry = PresetRegistry::new();
    assert_eq!(registry.create("None".to_string()), Ok(()));
    assert_eq!(registry.create("none".to_string()), Ok(()));
    assert_eq!(registry.create(" ".to_string()), Ok(()));
    assert_eq!(registry.list(), strings(&["None", "none", " "]));
    let preset = registry.get("None").unwrap();
    assert!(preset.get_mods().is_empty());
    assert!(!preset.is_enabled());
    assert_eq!(registry.create("None".to_string()), Err(Error::AlreadyExists));
}
