use beammm::game::ModCfg;
use beammm_gui::adapter::{store_of, write_flags};
use beammm_gui::error::Error;
use beammm_gui::mod_store::{ModRecord, ModStore};
use beammm_gui::preset::Preset;
use beammm_gui::registry::PresetRegistry;

const DB: &str = r#"{
    "header": { "version": 1.1 },
    "mods": {
        "zeta": { "active": true, "filename": "zeta.zip" },
        "alpha": { "active": false },
        "Mid": { "active": true, "stat": { "filesize": 12 } }
    }
}"#;

fn cfg_of(json: &str) -> ModCfg {
    ModCfg::load(json.as_bytes()).unwrap()
}

fn flags(store: &ModStore) -> Vec<(String, bool)> {
    store.save().into_iter().map(|r| (r.id, r.active)).collect()
}

fn expect(entries: &[(&str, bool)]) -> Vec<(String, bool)> {
    entries.iter().map(|(id, active)| (id.to_string(), *active)).collect()
}

#[test]
fn store_of_holds_the_mods_of_the_configuration() {
    let cfg = cfg_of(DB);
    let store = store_of(&cfg);
    assert_eq!(flags(&store), expect(&[("Mid", true), ("alpha", false), ("zeta", true)]));
    assert_eq!(store.is_active("missing"), Err(Error::UnknownMod));
}

#[test]
fn store_of_an_empty_configuration_is_empty() {
    let cfg = cfg_of(r#"{ "mods": {} }"#);
    assert_eq!(store_of(&cfg).len(), 0);
}

#[test]
fn write_flags_carries_the_store_into_the_configuration() {
    let mut cfg = cfg_of(DB);
    let mut store = store_of(&cfg);
    store.set_active("alpha", true).unwrap();
    store.set_active("zeta", false).unwrap();
    write_flags(&store, &mut cfg);
    assert_eq!(cfg.is_mod_active("alpha"), Some(true));
    assert_eq!(cfg.is_mod_active("zeta"), Some(false));
    assert_eq!(cfg.is_mod_active("Mid"), Some(true));
    assert_eq!(cfg.is_mod_active("missing"), None);
}

#[test]
fn write_flags_passes_over_mods_that_only_one_side_knows() {
    let mut cfg = cfg_of(DB);
    let records = vec![
        ModRecord { id: "alpha".to_string(), active: true },
        ModRecord { id: "stranger".to_string(), active: true },
    ];
    let store = ModStore::load(&records).unwrap();
    write_flags(&store, &mut cfg);
    assert_eq!(cfg.is_mod_active("alpha"), Some(true));
    assert_eq!(cfg.is_mod_active("stranger"), None);
    assert_eq!(cfg.is_mod_active("zeta"), Some(true));
    assert_eq!(cfg.get_mods().count(), 3);
}

#[test]
fn written_configuration_loads_to_the_same_store_and_keeps_other_data() {
    let mut cfg = cfg_of(DB);
    let mut store = store_of(&cfg);
    let mut registry = PresetRegistry::new();
    let mut preset = Preset::new("p".to_string(), vec!["alpha".to_string()]).unwrap();
    preset.enable();
    registry.put(preset);
    registry.reconcile(&mut store);
    write_flags(&store, &mut cfg);

    let mut bytes: Vec<u8> = Vec::new();
    cfg.save(&mut bytes).unwrap();
    let text = String::from_utf8(bytes.clone()).unwrap();
    assert!(text.contains("\"filename\": \"zeta.zip\""));
    assert!(text.contains("\"header\""));

    let reloaded = store_of(&ModCfg::load(bytes.as_slice()).unwrap());
    assert_eq!(flags(&reloaded), flags(&store));
    assert_eq!(flags(&reloaded), expect(&[("Mid", true), ("alpha", true), ("zeta", true)]));
}
