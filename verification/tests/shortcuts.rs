use custom_shortcuts::binding::{Action, Binding, Modifiers};
use custom_shortcuts::config::Shortcuts;
use custom_shortcuts::draft::{AddShortcut, RowFocus};
use custom_shortcuts::model::bindings;
use custom_shortcuts::page::{Effect, Message, Page, ShortcutMessage, StoreChange};

fn logo() -> Modifiers {
    Modifiers { ctrl: false, alt: false, shift: false, logo: true }
}

fn super_l() -> Binding {
    Binding::new(logo(), None, Some(0x6c))
}

fn super_k() -> Binding {
    Binding::new(logo(), None, Some(0x6b))
}

fn spawn(command: &str) -> Action {
    Action::Spawn(command.to_string())
}

fn is_spawn(action: &Option<Action>, command: &str) -> bool {
    match action {
        Some(found) => found.same(&spawn(command)),
        None => false,
    }
}

fn lock_draft(page: &mut Page) {
    page.update(Message::ShortcutContext, None);
    page.update(Message::NameInput("Lock".to_string()), None);
    page.update(Message::TaskInput("loginctl lock-session".to_string()), None);
    page.update(Message::KeyInput(0, "Super+L".to_string()), Some(super_l()));
}

#[test]
fn submit_commits_a_free_binding() {
    let mut page = Page::new(Shortcuts::new());
    lock_draft(&mut page);
    assert!(page.config.contains_binding(&super_l()).is_none());
    page.update(Message::AddShortcut, None);
    assert_eq!(page.config.len(), 1);
    assert!(is_spawn(&page.config.contains_binding(&super_l()), "loginctl lock-session"));
    assert_eq!(page.config.binding_at(0).description, Some("Lock".to_string()));
    assert!(page.replace_dialog.is_empty());
    assert!(!page.add_shortcut.active);
    assert_eq!(page.shortcut_models.len(), 1);
    assert!(page.shortcut_models[0].action.same(&spawn("loginctl lock-session")));
    assert_eq!(page.shortcut_models[0].bindings.len(), 1);
    assert!(page.shortcut_models[0].bindings[0].same_combo(&super_l()));
    assert_eq!(page.shortcut_models[0].description, "Lock");
}

#[test]
fn submit_queues_an_owned_binding_and_apply_replaces() {
    let mut config = Shortcuts::new();
    assert!(config.add_binding(Action::BuiltIn("Lock screen".to_string()), super_l()));
    let mut page = Page::new(config);
    lock_draft(&mut page);
    assert!(page.submit());
    assert_eq!(page.config.len(), 1);
    let owner = page.config.contains_binding(&super_l());
    assert!(owner.unwrap().same(&Action::BuiltIn("Lock screen".to_string())));
    assert_eq!(page.replace_dialog.len(), 1);
    assert!(page.replace_dialog[0].0.same_combo(&super_l()));
    assert!(page.replace_dialog[0].1.same(&Action::BuiltIn("Lock screen".to_string())));
    assert_eq!(page.replace_dialog[0].2, "Lock screen");
    assert!(page.add_shortcut.active);

    page.update(Message::ReplaceApply, None);
    assert!(page.replace_dialog.is_empty());
    assert_eq!(page.config.len(), 1);
    assert!(is_spawn(&page.config.contains_binding(&super_l()), "loginctl lock-session"));
    assert_eq!(page.config.binding_at(0).description, Some("Lock".to_string()));
    assert!(!page.add_shortcut.active);
    assert_eq!(page.shortcut_models.len(), 1);
}

#[test]
fn submit_skips_a_blank_row() {
    let mut page = Page::new(Shortcuts::new());
    lock_draft(&mut page);
    let effect = page.update(Message::AddKeybinding, None);
    assert!(matches!(effect, Effect::FocusAndSelectRow(1)));
    assert_eq!(page.add_shortcut.keys.len(), 2);
    assert_eq!(page.add_shortcut.keys[1].text, "");
    assert!(page.submit());
    assert_eq!(page.config.len(), 1);
    assert!(is_spawn(&page.config.contains_binding(&super_l()), "loginctl lock-session"));
}

#[test]
fn submit_commits_nothing_when_a_row_fails_to_parse() {
    let mut page = Page::new(Shortcuts::new());
    lock_draft(&mut page);
    page.update(Message::AddKeybinding, None);
    page.update(Message::KeyInput(0, String::new()), None);
    page.update(Message::KeyInput(1, "garbage".to_string()), None);
    assert!(!page.submit());
    assert_eq!(page.config.len(), 0);
    assert!(page.replace_dialog.is_empty());
    assert!(page.add_shortcut.active);
    assert_eq!(page.add_shortcut.keys.len(), 2);
    assert_eq!(page.add_shortcut.keys[1].text, "garbage");
}

#[test]
fn submit_is_all_or_nothing() {
    let mut config = Shortcuts::new();
    config.add_binding(Action::BuiltIn("Terminal".to_string()), super_k());
    let mut page = Page::new(config);
    lock_draft(&mut page);
    page.update(Message::AddKeybinding, None);
    page.update(Message::KeyInput(1, "Super+K".to_string()), Some(super_k()));
    page.update(Message::AddKeybinding, None);
    page.update(Message::KeyInput(2, "Super".to_string()), Some(Binding::new(logo(), None, None)));
    assert!(!page.submit());
    assert_eq!(page.config.len(), 1);
    assert!(page.replace_dialog.is_empty());
    assert!(page.config.contains_binding(&super_l()).is_none());
}

#[test]
fn submit_needs_a_name_and_a_command() {
    let mut page = Page::new(Shortcuts::new());
    lock_draft(&mut page);
    page.update(Message::NameInput("   ".to_string()), None);
    assert!(!page.submit());
    assert_eq!(page.config.len(), 0);
    page.update(Message::NameInput("Lock".to_string()), None);
    page.update(Message::TaskInput("\t\n".to_string()), None);
    assert!(!page.submit());
    assert_eq!(page.config.len(), 0);
    assert!(!page.submit_with(&String::new(), &"x".to_string()));
    assert!(!page.submit_with(&"x".to_string(), &String::new()));
    assert!(page.add_shortcut.active);
}

#[test]
fn submit_trims_name_and_command() {
    let mut page = Page::new(Shortcuts::new());
    lock_draft(&mut page);
    page.update(Message::NameInput("  Lock \n".to_string()), None);
    page.update(Message::TaskInput(" loginctl lock-session  ".to_string()), None);
    assert!(page.submit());
    assert!(is_spawn(&page.config.contains_binding(&super_l()), "loginctl lock-session"));
    assert_eq!(page.config.binding_at(0).description, Some("Lock".to_string()));
}

#[test]
fn free_bindings_stay_when_a_sibling_is_cancelled() {
    let mut config = Shortcuts::new();
    config.add_binding(Action::BuiltIn("Terminal".to_string()), super_k());
    let mut page = Page::new(config);
    lock_draft(&mut page);
    page.update(Message::AddKeybinding, None);
    page.update(Message::KeyInput(1, "Super+K".to_string()), Some(super_k()));
    assert!(page.submit());
    assert_eq!(page.replace_dialog.len(), 1);
    assert_eq!(page.config.len(), 2);
    assert!(is_spawn(&page.config.contains_binding(&super_l()), "loginctl lock-session"));
    assert!(page.add_shortcut.active);

    page.update(Message::ReplaceCancel, None);
    assert!(page.replace_dialog.is_empty());
    assert_eq!(page.config.len(), 2);
    let owner = page.config.contains_binding(&super_k()).unwrap();
    assert!(owner.same(&Action::BuiltIn("Terminal".to_string())));
    assert!(is_spawn(&page.config.contains_binding(&super_l()), "loginctl lock-session"));
}

#[test]
fn queue_is_drained_last_in_first_out() {
    let mut config = Shortcuts::new();
    config.add_binding(Action::BuiltIn("Lock screen".to_string()), super_l());
    config.add_binding(Action::BuiltIn("Terminal".to_string()), super_k());
    let mut page = Page::new(config);
    lock_draft(&mut page);
    page.update(Message::AddKeybinding, None);
    page.update(Message::KeyInput(1, "Super+K".to_string()), Some(super_k()));
    assert!(page.submit());
    assert_eq!(page.replace_dialog.len(), 2);
    assert!(page.replace_dialog[0].0.same_combo(&super_l()));
    assert!(page.replace_dialog[1].0.same_combo(&super_k()));

    assert!(page.replace_apply());
    assert_eq!(page.replace_dialog.len(), 1);
    assert!(is_spawn(&page.config.contains_binding(&super_k()), "loginctl lock-session"));
    assert!(!is_spawn(&page.config.contains_binding(&super_l()), "loginctl lock-session"));
    assert!(page.add_shortcut.active);

    assert!(page.replace_cancel());
    assert_eq!(page.replace_dialog.len(), 0);
    assert!(!is_spawn(&page.config.contains_binding(&super_l()), "loginctl lock-session"));
}

#[test]
fn deciding_with_an_empty_queue_changes_nothing() {
    let mut config = Shortcuts::new();
    config.add_binding(spawn("foot"), super_k());
    let mut page = Page::new(config);
    assert!(!page.replace_apply());
    assert!(!page.replace_cancel());
    assert!(!page.replace_apply_with(&"a".to_string(), &"b".to_string()));
    assert_eq!(page.config.len(), 1);
    assert!(is_spawn(&page.config.contains_binding(&super_k()), "foot"));
    assert!(page.replace_dialog.is_empty());
    assert_eq!(page.shortcut_models.len(), 1);
}

#[test]
fn at_most_one_row_is_without_a_binding() {
    let mut draft = AddShortcut::new();
    draft.enable();
    assert_eq!(draft.keys.len(), 1);
    assert!(matches!(draft.add_keybinding(), RowFocus::Reused(0)));
    assert!(matches!(draft.add_keybinding(), RowFocus::Reused(0)));
    assert_eq!(draft.keys.len(), 1);
    draft.set_key(0, "Super+L".to_string(), Some(super_l()));
    assert!(matches!(draft.add_keybinding(), RowFocus::Added(1)));
    assert_eq!(draft.editing, Some(1));
    assert!(matches!(draft.add_keybinding(), RowFocus::Reused(1)));
    assert_eq!(draft.keys.len(), 2);
    draft.set_key(1, "garbage".to_string(), None);
    assert!(matches!(draft.add_keybinding(), RowFocus::Reused(1)));
    assert_eq!(draft.keys[1].text, "");
    assert_eq!(draft.keys[0].text, "Super+L");
    assert_eq!(draft.keys.len(), 2);
}

#[test]
fn an_empty_text_never_has_a_binding() {
    let mut draft = AddShortcut::new();
    draft.enable();
    draft.set_key(0, String::new(), Some(super_l()));
    assert!(draft.keys[0].binding.is_none());
    assert!(matches!(draft.add_keybinding(), RowFocus::Reused(0)));
}

#[test]
fn enable_collapses_the_rows_to_one_blank_row() {
    let mut draft = AddShortcut::new();
    assert!(!draft.active);
    assert_eq!(draft.keys.len(), 0);
    assert_eq!(draft.first_row(), None);
    draft.enable();
    draft.name = "Lock".to_string();
    draft.task = "loginctl".to_string();
    draft.set_key(0, "Super+L".to_string(), Some(super_l()));
    draft.add_keybinding();
    draft.set_key(1, "Super+K".to_string(), Some(super_k()));
    draft.add_keybinding();
    assert_eq!(draft.keys.len(), 3);
    assert!(draft.has_row(2));
    assert!(!draft.has_row(3));
    draft.enable();
    assert!(draft.active);
    assert_eq!(draft.editing, None);
    assert_eq!(draft.name, "");
    assert_eq!(draft.task, "");
    assert_eq!(draft.keys.len(), 1);
    assert_eq!(draft.first_row(), Some(0));
    assert_eq!(draft.keys[0].text, "");
    assert!(draft.keys[0].binding.is_none());
}

#[test]
fn candidates_come_in_row_order() {
    let mut draft = AddShortcut::new();
    draft.enable();
    draft.set_key(0, "Super+L".to_string(), Some(super_l()));
    draft.add_keybinding();
    draft.set_key(1, "Super+K".to_string(), Some(super_k()));
    draft.add_keybinding();
    let found = draft.candidates().unwrap();
    assert_eq!(found.len(), 2);
    assert!(found[0].same_combo(&super_l()));
    assert!(found[1].same_combo(&super_k()));
    draft.set_key(2, "Super".to_string(), Some(Binding::new(logo(), None, None)));
    assert!(draft.candidates().is_none());
    draft.set_key(2, "x".to_string(), None);
    assert!(draft.candidates().is_none());
}

#[test]
fn key_editing_readies_a_row_when_it_ends() {
    let mut page = Page::new(Shortcuts::new());
    page.update(Message::ShortcutContext, None);
    let effect = page.update(Message::KeyEditing(0, true), None);
    assert!(matches!(effect, Effect::Nothing));
    assert_eq!(page.add_shortcut.editing, Some(0));
    let effect = page.update(Message::KeyEditing(5, false), None);
    assert!(matches!(effect, Effect::Nothing));
    assert_eq!(page.add_shortcut.editing, Some(0));
    page.update(Message::KeyInput(0, "Super+L".to_string()), Some(super_l()));
    let effect = page.update(Message::KeyEditing(0, false), None);
    assert!(matches!(effect, Effect::FocusAndSelectRow(1)));
    assert_eq!(page.add_shortcut.editing, None);
    assert_eq!(page.add_shortcut.keys.len(), 2);
    page.update(Message::KeyEditing(1, true), None);
    let effect = page.update(Message::KeyEditing(1, false), None);
    assert!(matches!(effect, Effect::FocusRow(1)));
    assert_eq!(page.add_shortcut.keys.len(), 2);
    page.update(Message::KeyEditing(0, true), None);
    let effect = page.update(Message::KeyEditing(0, false), None);
    assert!(matches!(effect, Effect::Nothing));
    assert_eq!(page.add_shortcut.editing, None);
    assert_eq!(page.add_shortcut.keys.len(), 2);
    assert_eq!(page.add_shortcut.keys[0].text, "Super+L");
}

#[test]
fn ending_an_edit_empties_a_row_that_does_not_parse() {
    let mut draft = AddShortcut::new();
    draft.enable();
    draft.set_key(0, "Super+L".to_string(), Some(super_l()));
    draft.add_keybinding();
    draft.set_key(1, "Super+K".to_string(), Some(super_k()));
    draft.set_key(0, "garbage".to_string(), None);
    draft.editing = Some(0);
    assert!(matches!(draft.end_edit(0), Some(RowFocus::Reused(0))));
    assert_eq!(draft.editing, None);
    assert_eq!(draft.keys[0].text, "");
    assert_eq!(draft.keys[1].text, "Super+K");
    assert!(matches!(draft.end_edit(1), Some(RowFocus::Reused(0))));
    draft.set_key(0, "Super+L".to_string(), Some(super_l()));
    assert!(draft.end_edit(0).is_none());
    assert!(matches!(draft.end_edit(1), Some(RowFocus::Added(2))));
    assert_eq!(draft.editing, None);
    assert_eq!(draft.keys.len(), 3);
}

#[test]
fn messages_ask_for_the_focus() {
    let mut page = Page::new(Shortcuts::new());
    let effect = page.update(Message::EditCombination, None);
    assert!(matches!(effect, Effect::Nothing));
    let effect = page.update(Message::ShortcutContext, None);
    assert!(matches!(effect, Effect::OpenDrawerAndFocusName));
    assert!(page.add_shortcut.active);
    let effect = page.update(Message::NameSubmit, None);
    assert!(matches!(effect, Effect::Nothing));
    page.update(Message::NameInput(" Lock".to_string()), None);
    let effect = page.update(Message::NameSubmit, None);
    assert!(matches!(effect, Effect::FocusTask));
    let effect = page.update(Message::EditCombination, None);
    assert!(matches!(effect, Effect::FocusAndSelectRow(0)));
    assert_eq!(page.add_shortcut.editing, Some(0));
    let effect = page.update(Message::Shortcut(ShortcutMessage::ShowShortcut(3)), None);
    assert!(matches!(effect, Effect::Forward(ShortcutMessage::ShowShortcut(3))));
    assert!(!page.add_shortcut.active);
}

#[test]
fn leaving_the_page_closes_the_form() {
    let mut page = Page::new(Shortcuts::new());
    page.update(Message::ShortcutContext, None);
    page.update(Message::KeyEditing(0, true), None);
    page.on_context_drawer_close();
    assert!(!page.add_shortcut.active);
    assert_eq!(page.add_shortcut.editing, Some(0));
    page.update(Message::ShortcutContext, None);
    page.update(Message::KeyEditing(0, true), None);
    page.on_leave();
    assert!(!page.add_shortcut.active);
    assert_eq!(page.add_shortcut.editing, None);
}

#[test]
fn leaving_the_page_clears_the_draft_and_the_queue() {
    let mut config = Shortcuts::new();
    config.add_binding(Action::BuiltIn("Lock screen".to_string()), super_l());
    let mut page = Page::new(config);
    lock_draft(&mut page);
    page.update(Message::AddKeybinding, None);
    page.update(Message::KeyInput(1, "Super+K".to_string()), Some(super_k()));
    assert!(page.submit());
    assert_eq!(page.replace_dialog.len(), 1);
    assert_eq!(page.changes.len(), 1);
    page.on_leave();
    assert!(!page.add_shortcut.active);
    assert_eq!(page.add_shortcut.editing, None);
    assert_eq!(page.add_shortcut.name, "");
    assert_eq!(page.add_shortcut.task, "");
    assert_eq!(page.add_shortcut.keys.len(), 1);
    assert_eq!(page.add_shortcut.keys[0].text, "");
    assert!(page.add_shortcut.keys[0].binding.is_none());
    assert!(page.replace_dialog.is_empty());
    assert_eq!(page.config.len(), 2);
    let owner = page.config.contains_binding(&super_l()).unwrap();
    assert!(owner.same(&Action::BuiltIn("Lock screen".to_string())));
    assert!(is_spawn(&page.config.contains_binding(&super_k()), "loginctl lock-session"));
    assert_eq!(page.changes.len(), 1);
    assert_eq!(page.shortcut_models.len(), 1);
}

#[test]
fn a_new_page_has_an_empty_closed_draft() {
    let page = Page::new(Shortcuts::new());
    assert!(!page.add_shortcut.active);
    assert_eq!(page.add_shortcut.editing, None);
    assert_eq!(page.add_shortcut.name, "");
    assert_eq!(page.add_shortcut.task, "");
    assert_eq!(page.add_shortcut.keys.len(), 0);
    assert!(page.replace_dialog.is_empty());
    assert!(page.changes.is_empty());
    assert!(page.shortcut_models.is_empty());
    assert_eq!(page.config.len(), 0);
}

#[test]
fn a_row_of_modifiers_alone_is_used_again() {
    let mut draft = AddShortcut::new();
    draft.enable();
    draft.set_key(0, "Super".to_string(), Some(Binding::new(logo(), None, None)));
    assert!(!draft.keys[0].is_parsed());
    assert!(matches!(draft.add_keybinding(), RowFocus::Reused(0)));
    assert_eq!(draft.keys.len(), 1);
    assert_eq!(draft.keys[0].text, "");
    assert!(draft.keys[0].binding.is_none());

    draft.set_key(0, "Super+L".to_string(), Some(super_l()));
    assert!(draft.keys[0].is_parsed());
    assert!(matches!(draft.add_keybinding(), RowFocus::Added(1)));
    draft.set_key(1, "Ctrl+Shift".to_string(), Some(Binding::new(logo(), None, None)));
    assert!(matches!(draft.add_keybinding(), RowFocus::Reused(1)));
    assert_eq!(draft.keys.len(), 2);
    assert_eq!(draft.keys[1].text, "");
    draft.set_key(1, "Super".to_string(), Some(Binding::new(logo(), None, None)));
    draft.editing = Some(1);
    assert!(matches!(draft.end_edit(1), Some(RowFocus::Reused(1))));
    assert_eq!(draft.keys.len(), 2);
    assert_eq!(draft.keys[1].text, "");
    assert_eq!(draft.keys[0].text, "Super+L");
}

#[test]
fn configuration_owns_each_combination_once() {
    let mut config = Shortcuts::new();
    assert!(config.add_binding(spawn("foot"), super_k()));
    assert!(!config.add_binding(spawn("alacritty"), super_k().described(&"other".to_string())));
    assert_eq!(config.len(), 1);
    assert!(is_spawn(&config.contains_binding(&super_k()), "foot"));
    assert!(config.contains_binding(&super_l()).is_none());
    assert!(!config.remove_binding(&super_l()));
    assert!(config.remove_binding(&super_k().described(&"any".to_string())));
    assert_eq!(config.len(), 0);
    assert!(config.contains_binding(&super_k()).is_none());
}

#[test]
fn bindings_differ_by_keys_not_by_description() {
    let plain = super_l();
    let described = plain.described(&"Lock".to_string());
    assert_eq!(described.description, Some("Lock".to_string()));
    assert!(plain.same_combo(&described));
    assert!(!plain.same_combo(&super_k()));
    let by_code = Binding::new(logo(), Some(46), None);
    assert!(!plain.same_combo(&by_code));
    assert!(by_code.is_set());
    assert!(plain.is_set());
    assert!(!Binding::new(logo(), None, None).is_set());
    let control = Modifiers { ctrl: true, alt: false, shift: false, logo: false };
    assert!(!plain.same_combo(&Binding::new(control, None, Some(0x6c))));
    let copy = described.duplicate();
    assert!(copy.same_combo(&described));
    assert_eq!(copy.description, Some("Lock".to_string()));
}

#[test]
fn actions_compare_by_kind_and_text() {
    assert!(spawn("foot").same(&spawn("foot")));
    assert!(!spawn("foot").same(&spawn("kitty")));
    assert!(!spawn("foot").same(&Action::BuiltIn("foot".to_string())));
    assert_eq!(spawn("foot").label(), "foot");
    assert_eq!(Action::BuiltIn("Terminal".to_string()).label(), "Terminal");
    assert!(spawn("foot").duplicate().same(&spawn("foot")));
}

#[test]
fn list_groups_bindings_by_command() {
    let mut config = Shortcuts::new();
    config.add_binding(spawn("foot"), super_k().described(&"Terminal".to_string()));
    config.add_binding(Action::BuiltIn("Lock screen".to_string()), super_l());
    config.add_binding(spawn("firefox"), Binding::new(logo(), None, Some(0x62)));
    config.add_binding(spawn("foot"), Binding::new(logo(), None, Some(0x74)).described(&"Term".to_string()));
    let models = bindings(&Shortcuts::new(), &config);
    assert_eq!(models.len(), 2);
    assert!(models.contains(0) && models.contains(1) && !models.contains(2));
    assert_eq!(models.vacant_key(), 2);
    assert!(models[0].action.same(&spawn("foot")));
    assert_eq!(models[0].description, "Term");
    assert_eq!(models[0].bindings.len(), 2);
    assert!(models[0].bindings[0].same_combo(&super_k()));
    assert!(models[0].bindings[1].same_combo(&Binding::new(logo(), None, Some(0x74))));
    assert_eq!(models[0].modified, 0);
    assert!(models[1].action.same(&spawn("firefox")));
    assert_eq!(models[1].description, "firefox");
    assert_eq!(models[1].bindings.len(), 1);
    assert!(bindings(&config, &Shortcuts::new()).is_empty());
}

#[test]
fn entering_the_page_builds_the_list_anew() {
    let mut page = Page::new(Shortcuts::new());
    assert!(page.shortcut_models.is_empty());
    page.config.add_binding(spawn("foot"), super_k());
    assert!(page.shortcut_models.is_empty());
    page.on_enter();
    assert_eq!(page.shortcut_models.len(), 1);
}

#[test]
fn a_combination_typed_twice_is_added_once() {
    let mut page = Page::new(Shortcuts::new());
    lock_draft(&mut page);
    page.update(Message::AddKeybinding, None);
    page.update(Message::KeyInput(1, "Super+l".to_string()), Some(super_l()));
    assert!(page.submit());
    assert_eq!(page.config.len(), 1);
    assert!(page.replace_dialog.is_empty());
    assert!(is_spawn(&page.config.contains_binding(&super_l()), "loginctl lock-session"));
}

#[test]
fn search_finds_a_section_by_title_or_description() {
    let mut descriptions = slab::Slab::new();
    descriptions.insert("Launch a command".to_string());
    descriptions.insert("Replace a binding".to_string());
    let section = custom_shortcuts::section::Section::default()
        .title("Custom shortcuts".to_string())
        .descriptions(descriptions);
    assert!(section.search_matches(&regex::Regex::new("^Custom").unwrap()));
    assert!(section.search_matches(&regex::Regex::new("bind").unwrap()));
    assert!(section.search_matches(&regex::Regex::new("a c[a-z]+$").unwrap()));
    assert!(!section.search_matches(&regex::Regex::new("mouse").unwrap()));
    let hidden = section.search_ignore();
    assert!(hidden.search_ignore);
    assert!(!hidden.search_matches(&regex::Regex::new("^Custom").unwrap()));
}

#[test]
fn search_finds_nothing_in_an_empty_section() {
    let section = custom_shortcuts::section::Section::default();
    assert_eq!(section.title, "");
    assert!(section.descriptions.is_empty());
    assert!(!section.search_ignore);
    assert!(!section.search_matches(&regex::Regex::new("x").unwrap()));
    assert!(section.search_matches(&regex::Regex::new("").unwrap()));
}

#[test]
fn changes_are_noted_for_the_stored_copy() {
    let mut config = Shortcuts::new();
    config.add_binding(Action::BuiltIn("Terminal".to_string()), super_k());
    let mut page = Page::new(config);
    assert!(page.take_changes().is_empty());
    lock_draft(&mut page);
    page.update(Message::AddKeybinding, None);
    page.update(Message::KeyInput(1, "Super+K".to_string()), Some(super_k()));
    assert!(page.submit());
    let taken = page.take_changes();
    assert_eq!(taken.len(), 1);
    match &taken[0] {
        StoreChange::Add(action, binding) => {
            assert!(action.same(&spawn("loginctl lock-session")));
            assert!(binding.same_combo(&super_l()));
            assert_eq!(binding.description, Some("Lock".to_string()));
        }
        StoreChange::Remove(_) => panic!("nothing was removed"),
    }
    assert!(page.changes.is_empty());

    assert!(page.replace_apply());
    let taken = page.take_changes();
    assert_eq!(taken.len(), 2);
    assert!(matches!(&taken[0], StoreChange::Remove(binding) if binding.same_combo(&super_k())));
    match &taken[1] {
        StoreChange::Add(action, binding) => {
            assert!(action.same(&spawn("loginctl lock-session")));
            assert!(binding.same_combo(&super_k()));
            assert_eq!(binding.description, Some("Lock".to_string()));
        }
        StoreChange::Remove(_) => panic!("the binding was to be added"),
    }
    assert!(!page.replace_cancel());
    assert!(page.take_changes().is_empty());
}
