use win_make_ro::launch::{helper_arguments, launch, Launch};
use win_make_ro::menu::{
    chosen_item, command_string, menu_entries, plan, verb_source, Item, LockState, Selection, Verb,
    VerbSource, CMF_DEFAULTONLY, CMIC_MASK_UNICODE, GCS_HELPTEXTW, GCS_VERBW,
};

fn sel(u: bool, e: bool, i: bool) -> Selection {
    Selection { any_unlocked: u, any_explicit: e, any_inherited: i }
}

fn w(s: &str) -> Vec<u16> {
    s.encode_utf16().collect()
}

#[test]
fn unlocked_only_offers_make() {
    assert_eq!(plan(&sel(true, false, false)), vec![Item::MakeReadOnly]);
}

#[test]
fn explicit_only_offers_remove() {
    assert_eq!(plan(&sel(false, true, false)), vec![Item::RemoveReadOnly]);
}

#[test]
fn mixed_offers_both_in_order() {
    assert_eq!(plan(&sel(true, true, true)), vec![Item::MakeReadOnly, Item::RemoveReadOnly]);
}

#[test]
fn inherited_only_shows_disabled_info() {
    let items = plan(&sel(false, false, true));
    assert_eq!(items, vec![Item::InheritedInfo]);
    assert!(!items[0].enabled());
    assert_eq!(items[0].command(), None);
}

#[test]
fn inherited_plus_unlocked_hides_info() {
    assert_eq!(plan(&sel(true, false, true)), vec![Item::MakeReadOnly]);
}

#[test]
fn empty_selection_yields_nothing() {
    assert!(plan(&Selection::default()).is_empty());
}

#[test]
fn items_say_what_they_do() {
    assert_eq!(Item::MakeReadOnly.text(), "Make read only");
    assert_eq!(Item::RemoveReadOnly.text(), "Remove read only");
    assert_eq!(Item::InheritedInfo.text(), "Read only (inherited from parent folder)");
    assert_eq!(Item::MakeReadOnly.verb(), "makereadonly");
    assert_eq!(Item::RemoveReadOnly.verb(), "removereadonly");
    assert_eq!(Item::MakeReadOnly.command(), Some("lock"));
    assert_eq!(Item::RemoveReadOnly.command(), Some("unlock"));
    assert_eq!(Item::InheritedInfo.help(), "Unlock the parent folder to make this writable");
}

#[test]
fn unreadable_items_count_as_unlocked_and_large_selections_are_not_probed() {
    let states = vec![None, Some(LockState::Inherited)];
    assert_eq!(Selection::inspect(2, &states), sel(true, false, true));
    let states = vec![Some(LockState::Explicit), Some(LockState::Inherited)];
    assert_eq!(Selection::inspect(2, &states), sel(false, true, true));
    assert!(!Selection::wants_probe(65));
    assert_eq!(Selection::inspect(65, &Vec::new()), sel(true, true, false));
}

#[test]
fn the_menu_stays_inside_its_id_range() {
    let items = vec![Item::MakeReadOnly, Item::RemoveReadOnly];
    let all = menu_entries(0, 3, 1000, 2000, &items).unwrap();
    assert_eq!(all.len(), 2, "both items fit in a wide range");
    assert_eq!((all[1].position, all[1].id), (4, 1001));
    let one = menu_entries(0, 0, 1000, 1000, &items).unwrap();
    assert_eq!(one.len(), 1, "only one id was offered");
    assert_eq!(one[0].id, 1000);
    assert!(menu_entries(0, 0, 1000, 999, &items).unwrap().is_empty(), "no room at all");
    assert!(menu_entries(CMF_DEFAULTONLY, 0, 1000, 2000, &items).is_none());
    let info = menu_entries(0, 0, 1, 9, &vec![Item::InheritedInfo]).unwrap();
    assert!(info[0].grayed);
}

#[test]
fn a_numeric_id_is_read_from_the_narrow_field_even_under_the_unicode_mask() {
    // The wide field is null for a numeric id.
    assert_eq!(verb_source(CMIC_MASK_UNICODE, 64, 40, 0, 1), VerbSource::Offset(1));
    assert_eq!(verb_source(CMIC_MASK_UNICODE, 64, 40, 0x1_0000, 1), VerbSource::Wide);
    assert_eq!(verb_source(CMIC_MASK_UNICODE, 32, 40, 0x1_0000, 1), VerbSource::Offset(1));
    assert_eq!(verb_source(0, 64, 40, 0x1_0000, 0x2_0000), VerbSource::Narrow);
}

#[test]
fn a_verb_selects_the_command_it_names() {
    let items = vec![Item::MakeReadOnly, Item::RemoveReadOnly];
    assert_eq!(chosen_item(&items, &Verb::Named("removereadonly".to_string())), Some(Item::RemoveReadOnly));
    assert_eq!(chosen_item(&items, &Verb::Offset(1)), Some(Item::RemoveReadOnly));
    assert_eq!(chosen_item(&items, &Verb::Offset(2)), None);
    assert_eq!(chosen_item(&items, &Verb::Named("frob".to_string())), None);
    let info = vec![Item::InheritedInfo];
    assert_eq!(chosen_item(&info, &Verb::Offset(0)), None, "the note runs nothing");
}

#[test]
fn a_zero_sized_buffer_gets_nothing() {
    let items = vec![Item::MakeReadOnly];
    assert_eq!(command_string(&items, 0, GCS_VERBW, 0), None);
    assert_eq!(command_string(&items, 0, GCS_VERBW, 5), Some(vec![109, 97, 107, 101, 0]));
    let full = command_string(&items, 0, GCS_VERBW, 100).unwrap();
    assert_eq!(full, w("makereadonly\0"));
    assert!(command_string(&items, 0, GCS_HELPTEXTW, 100).is_some());
    assert_eq!(command_string(&items, 1, GCS_VERBW, 100), None);
    assert_eq!(command_string(&items, 0, 9, 100), None);
}

#[test]
fn the_helper_is_handed_the_selection() {
    let paths = vec![w(r"C:\a b"), w(r"C:\c")];
    let args = helper_arguments(Item::MakeReadOnly, &paths, None).unwrap();
    assert_eq!(args, vec![w("lock"), w("--gui"), w("--"), w(r"C:\a b"), w(r"C:\c")]);
    let file = w(r"C:\t\sel.paths");
    let args = helper_arguments(Item::RemoveReadOnly, &paths, Some(&file)).unwrap();
    assert_eq!(args, vec![w("unlock"), w("--gui"), w("--consume-paths-from"), file]);
    assert_eq!(helper_arguments(Item::InheritedInfo, &paths, None), None);
}

#[test]
fn a_selection_too_large_for_a_command_line_goes_through_a_list() {
    let helper = w(r"C:\tools\win-make-ro.exe");
    let small = vec![w(r"C:\a")];
    assert!(matches!(launch(&helper, Item::MakeReadOnly, &small), Some(Launch::Direct(_))));
    let name = "x".repeat(160);
    let many: Vec<Vec<u16>> = (0..200).map(|i| w(&format!(r"C:\{name}-{i:03}.txt"))).collect();
    assert_eq!(launch(&helper, Item::MakeReadOnly, &many), Some(Launch::ThroughList));
    assert_eq!(launch(&helper, Item::InheritedInfo, &small), None);
}
