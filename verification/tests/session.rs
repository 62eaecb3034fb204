use beammm_gui::error::Error;
use beammm_gui::mod_store::{ModRecord, ModStore};
use beammm_gui::preset::Preset;
use beammm_gui::registry::PresetRegistry;
use beammm_gui::session::{Event, Persist, Session};

fn session_of(mods: &[(&str, bool)], presets: &[(&str, &[&str], bool)]) -> Session {
    let records: Vec<ModRecord> =
        mods.iter().map(|(id, active)| ModRecord { id: id.to_string(), active: *active }).collect();
    let store = ModStore::load(&records).unwrap();
    let mut registry = PresetRegistry::new();
    for (name, members, enabled) in presets {
        let mut preset =
            Preset::new(name.to_string(), members.iter().map(|m| m.to_string()).collect()).unwrap();
        if *enabled {
            preset.enable();
        }
        registry.put(preset);
    }
    Session::new(store, registry)
}

fn flags(session: &Session) -> Vec<(String, bool)> {
    session.store().save().into_iter().map(|r| (r.id, r.active)).collect()
}

fn expect(entries: &[(&str, bool)]) -> Vec<(String, bool)> {
    entries.iter().map(|(id, active)| (id.to_string(), *active)).collect()
}

fn staged(session: &Session) -> Vec<(String, bool)> {
    session.staged().iter().map(|m| (m.mod_name.clone(), m.selected)).collect()
}

fn members(session: &Session, name: &str) -> Vec<String> {
    session.registry().get(name).unwrap().get_mods().clone()
}

fn written(persist: &Persist) -> (bool, Option<&str>, Option<&str>) {
    (persist.mods, persist.preset.as_deref(), persist.deleted.as_deref())
}

#[test]
fn new_session_stages_every_mod_sorted_and_unselected() {
    let session = session_of(&[("zeta", true), ("alpha", false), ("mid", true)], &[]);
    assert_eq!(staged(&session), expect(&[("alpha", false), ("mid", false), ("zeta", false)]));
    assert_eq!(session.current(), &None);
    assert_eq!(session.label(), "None");
    assert!(session.selection().is_empty());
}

#[test]
fn select_all_and_deselect_all() {
    let mut session = session_of(&[("a", false), ("b", false)], &[]);
    let persist = session.handle(Event::SelectAll).unwrap();
    assert_eq!(written(&persist), (false, None, None));
    assert_eq!(staged(&session), expect(&[("a", true), ("b", true)]));
    assert_eq!(session.selection(), vec!["a".to_string(), "b".to_string()]);
    session.handle(Event::DeselectAll).unwrap();
    assert_eq!(staged(&session), expect(&[("a", false), ("b", false)]));
}

#[test]
fn select_marks_one_mod() {
    let mut session = session_of(&[("a", false), ("b", false), ("c", false)], &[]);
    session.handle(Event::Select { name: "b".to_string(), selected: true }).unwrap();
    assert_eq!(staged(&session), expect(&[("a", false), ("b", true), ("c", false)]));
    assert_eq!(
        session.handle(Event::Select { name: "x".to_string(), selected: true }).unwrap_err(),
        Error::UnknownMod
    );
    let persist = session.select("b", false).unwrap();
    assert_eq!(written(&persist), (false, None, None));
    assert_eq!(session.select("x", false).unwrap_err(), Error::UnknownMod);
    assert_eq!(staged(&session), expect(&[("a", false), ("b", false), ("c", false)]));
}

#[test]
fn toggle_mod_flips_one_flag_without_reconciling() {
    let mut session = session_of(&[("a", true), ("b", false)], &[("p", &["a"], true)]);
    let persist = session.handle(Event::ToggleMod("a".to_string())).unwrap();
    assert_eq!(written(&persist), (true, None, None));
    assert_eq!(flags(&session), expect(&[("a", false), ("b", false)]));
    session.toggle_mod("b").unwrap();
    assert_eq!(flags(&session), expect(&[("a", false), ("b", true)]));
    assert_eq!(session.toggle_mod("x").unwrap_err(), Error::UnknownMod);
    assert_eq!(flags(&session), expect(&[("a", false), ("b", true)]));
}

#[test]
fn enable_selected_activates_the_selection() {
    let mut session = session_of(&[("a", false), ("b", false), ("c", false)], &[]);
    session.select("a", true).unwrap();
    session.select("c", true).unwrap();
    let persist = session.handle(Event::EnableSelected).unwrap();
    assert_eq!(written(&persist), (true, None, None));
    assert_eq!(flags(&session), expect(&[("a", true), ("b", false), ("c", true)]));
}

#[test]
fn disable_selected_reconciles_afterwards() {
    let mut session =
        session_of(&[("a", true), ("b", true), ("c", true)], &[("p", &["b"], true)]);
    session.select_all(true).unwrap();
    let persist = session.handle(Event::DisableSelected).unwrap();
    assert_eq!(written(&persist), (true, None, None));
    assert_eq!(flags(&session), expect(&[("a", false), ("b", true), ("c", false)]));
}

#[test]
fn choose_preset_by_label() {
    let mut session = session_of(&[], &[("race", &[], false)]);
    session.handle(Event::ChoosePreset("race".to_string())).unwrap();
    assert_eq!(session.current(), &Some("race".to_string()));
    assert_eq!(session.label(), "race");
    assert_eq!(
        session.handle(Event::ChoosePreset("sim".to_string())).unwrap_err(),
        Error::NotFound
    );
    assert_eq!(session.current(), &Some("race".to_string()));
    session.handle(Event::ChoosePreset("None".to_string())).unwrap();
    assert_eq!(session.current(), &None);
}

#[test]
fn create_preset_records_and_chooses_it() {
    let mut session = session_of(&[("a", false)], &[]);
    let persist = session.handle(Event::CreatePreset("race".to_string())).unwrap();
    assert_eq!(written(&persist), (false, Some("race"), None));
    assert_eq!(session.registry().list(), vec!["race".to_string()]);
    assert_eq!(session.current(), &Some("race".to_string()));
    assert!(members(&session, "race").is_empty());
    assert!(!session.registry().get("race").unwrap().is_enabled());
}

#[test]
fn create_preset_fails_on_a_name_in_use_or_empty() {
    let mut session = session_of(&[], &[("race", &["a"], true)]);
    assert_eq!(
        session.handle(Event::CreatePreset("race".to_string())).unwrap_err(),
        Error::AlreadyExists
    );
    assert_eq!(session.handle(Event::CreatePreset(String::new())).unwrap_err(), Error::InvalidName);
    assert_eq!(session.registry().list(), vec!["race".to_string()]);
    assert_eq!(members(&session, "race"), vec!["a".to_string()]);
    assert_eq!(session.current(), &None);
}

#[test]
fn add_selected_adds_to_the_current_preset_and_reconciles() {
    let mut session =
        session_of(&[("a", false), ("b", false), ("c", false)], &[("p", &["c"], true)]);
    session.choose_preset("p").unwrap();
    session.select("a", true).unwrap();
    let persist = session.handle(Event::AddSelected).unwrap();
    assert_eq!(written(&persist), (true, Some("p"), None));
    assert_eq!(members(&session, "p"), vec!["c".to_string(), "a".to_string()]);
    assert_eq!(flags(&session), expect(&[("a", true), ("b", false), ("c", true)]));
}

#[test]
fn add_selected_without_a_current_preset_does_nothing() {
    let mut session = session_of(&[("a", false)], &[("p", &[], true)]);
    session.select_all(true).unwrap();
    let persist = session.handle(Event::AddSelected).unwrap();
    assert_eq!(written(&persist), (false, None, None));
    assert!(members(&session, "p").is_empty());
    assert_eq!(flags(&session), expect(&[("a", false)]));
}

#[test]
fn remove_mods_edits_the_current_preset_only() {
    let mut session =
        session_of(&[("a", true), ("b", true)], &[("p", &["a", "b"], true), ("q", &["a"], true)]);
    session.choose_preset("p").unwrap();
    let persist = session.handle(Event::RemoveMods(vec!["a".to_string()])).unwrap();
    assert_eq!(written(&persist), (false, Some("p"), None));
    assert_eq!(members(&session, "p"), vec!["b".to_string()]);
    assert_eq!(members(&session, "q"), vec!["a".to_string()]);
    assert_eq!(flags(&session), expect(&[("a", true), ("b", true)]));
}

#[test]
fn toggle_preset_runs_the_scenario() {
    let mut session = session_of(
        &[("A", false), ("B", false), ("C", false)],
        &[("race", &["A", "B"], false), ("sim", &["B", "C"], false)],
    );
    let persist = session.handle(Event::TogglePreset("race".to_string())).unwrap();
    assert_eq!(written(&persist), (true, Some("race"), None));
    assert_eq!(flags(&session), expect(&[("A", true), ("B", true), ("C", false)]));
    session.handle(Event::TogglePreset("sim".to_string())).unwrap();
    assert_eq!(flags(&session), expect(&[("A", true), ("B", true), ("C", true)]));
    session.handle(Event::TogglePreset("race".to_string())).unwrap();
    assert_eq!(flags(&session), expect(&[("A", false), ("B", true), ("C", true)]));
    assert!(!session.registry().get("race").unwrap().is_enabled());
    assert!(session.registry().get("sim").unwrap().is_enabled());
    assert_eq!(
        session.handle(Event::TogglePreset("drift".to_string())).unwrap_err(),
        Error::NotFound
    );
}

#[test]
fn delete_preset_disables_removes_and_reconciles() {
    let mut session = session_of(
        &[("A", true), ("B", true), ("C", true)],
        &[("race", &["A", "B"], true), ("sim", &["B", "C"], true)],
    );
    session.choose_preset("race").unwrap();
    let persist = session.handle(Event::DeletePreset).unwrap();
    assert_eq!(written(&persist), (true, None, Some("race")));
    assert_eq!(session.registry().list(), vec!["sim".to_string()]);
    assert_eq!(session.current(), &None);
    assert_eq!(flags(&session), expect(&[("A", false), ("B", true), ("C", true)]));
    let persist = session.handle(Event::DeletePreset).unwrap();
    assert_eq!(written(&persist), (false, None, None));
}

#[test]
fn delete_of_a_disabled_preset_leaves_its_mods() {
    let mut session = session_of(&[("A", true)], &[("race", &["A"], false)]);
    session.choose_preset("race").unwrap();
    session.delete_current().unwrap();
    assert_eq!(flags(&session), expect(&[("A", true)]));
    assert!(session.registry().list().is_empty());
}

#[test]
fn create_preset_under_the_label_of_no_preset() {
    let mut session = session_of(&[("a", true)], &[("race", &["a"], true)]);
    session.choose_preset("race").unwrap();
    let persist = session.handle(Event::CreatePreset("None".to_string())).unwrap();
    assert_eq!(written(&persist), (false, Some("None"), None));
    assert_eq!(session.registry().list(), vec!["race".to_string(), "None".to_string()]);
    let created = session.registry().get("None").unwrap();
    assert!(created.get_mods().is_empty());
    assert!(!created.is_enabled());
    assert_eq!(session.current(), &None);
    assert_eq!(session.label(), "None");
    assert_eq!(members(&session, "race"), vec!["a".to_string()]);
    assert_eq!(flags(&session), expect(&[("a", true)]));
    assert_eq!(
        session.handle(Event::CreatePreset("None".to_string())).unwrap_err(),
        Error::AlreadyExists
    );
}

#[test]
fn staged_mods_are_the_known_mods_each_once() {
    let mut session = session_of(&[("b", true), ("a", false), ("c", true)], &[("p", &["a"], true)]);
    session.select("b", true).unwrap();
    session.handle(Event::DisableSelected).unwrap();
    session.handle(Event::TogglePreset("p".to_string())).unwrap();
    let names: Vec<String> = session.staged().iter().map(|m| m.mod_name.clone()).collect();
    assert_eq!(names, session.store().identifiers());
    assert_eq!(names, vec!["a".to_string(), "b".to_string(), "c".to_string()]);
    assert_eq!(staged(&session), expect(&[("a", false), ("b", true), ("c", false)]));
}

#[test]
fn enable_selected_with_nothing_selected_changes_nothing() {
    let mut session = session_of(&[("a", false), ("b", true)], &[]);
    let persist = session.handle(Event::EnableSelected).unwrap();
    assert_eq!(written(&persist), (true, None, None));
    assert_eq!(flags(&session), expect(&[("a", false), ("b", true)]));
}
