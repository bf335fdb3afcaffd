use win_make_ro::com::{ClassFactory, MenuExt, MenuIcon, Module};
use win_make_ro::menu::{menu_entries, Item, Verb, GCS_VERBW};

fn w(s: &str) -> Vec<u16> {
    s.encode_utf16().collect()
}

#[test]
fn unload_is_refused_while_the_factory_or_a_server_lock_is_held() {
    let mut m = Module::new();
    assert!(m.can_unload(), "nothing held yet");
    let _factory = ClassFactory::new(&mut m);
    assert!(!m.can_unload(), "factory is still alive");
    m.object_dropped();
    assert!(m.can_unload(), "factory released");
    let _factory = ClassFactory::new(&mut m);
    m.set_server_lock(true);
    m.object_dropped();
    assert!(!m.can_unload(), "server lock outlives the factory");
    let _factory = ClassFactory::new(&mut m);
    m.set_server_lock(false);
    m.object_dropped();
    assert!(m.can_unload(), "lock released");
}

#[test]
fn an_extra_unlock_does_not_go_below_zero() {
    let mut m = Module::new();
    m.set_server_lock(false);
    assert!(m.can_unload());
    m.set_server_lock(true);
    assert!(!m.can_unload(), "one lock is one lock, however many unlocks came before");
}

#[test]
fn initialize_without_selection_fails() {
    let mut m = Module::new();
    let mut ext = MenuExt::new(&mut m);
    // A data object with no files in it gives no paths.
    assert!(!ext.initialize(Vec::new()));
}

#[test]
fn a_menu_object_counts_and_keeps_its_selection() {
    let mut m = Module::new();
    let mut ext = MenuExt::new(&mut m);
    assert!(!m.can_unload(), "object alive");
    assert!(!ext.initialize(Vec::new()), "an empty selection is refused");
    assert!(ext.initialize(vec![w(r"C:\f.txt")]));
    assert_eq!(ext.lock_paths(), vec![w(r"C:\f.txt")]);
    let entries = menu_entries(0, 0, 100, 200, &vec![Item::MakeReadOnly]).unwrap();
    ext.remember(&entries);
    assert_eq!(ext.lock_items(), vec![Item::MakeReadOnly]);
    assert_eq!(ext.invoked(&Verb::Offset(0)), Some(Item::MakeReadOnly));
    assert_eq!(ext.command_string(0, GCS_VERBW, 0), None);
    m.object_dropped();
    assert!(m.can_unload(), "object released");
}

#[test]
fn the_icon_is_built_once_and_handed_back_for_freeing() {
    let mut m = Module::new();
    let mut ext = MenuExt::new(&mut m);
    assert_eq!(ext.bitmap(|| None), None, "a failed build leaves no icon");
    assert_eq!(ext.bitmap(|| Some(42)), Some(42));
    assert_eq!(ext.bitmap(|| Some(7)), Some(42), "built at most once");
    let icon = ext.take_icon().unwrap();
    assert_eq!(icon.bitmap(), 42);
    assert!(ext.take_icon().is_none());
    assert!(MenuIcon::new(None).is_none());
}

#[test]
fn the_helper_is_found_next_to_the_dll() {
    assert_eq!(
        Module::helper_path(Some(&w(r"C:\tools\ro_shellext.dll"))),
        Some(w(r"C:\tools\win-make-ro.exe"))
    );
    assert_eq!(Module::helper_path(None), None);
    let mut m = Module::new();
    m.set_handle(0x1000);
    assert_eq!(m.handle(), 0x1000);
}

#[test]
fn the_helper_replaces_the_last_component() {
    assert_eq!(Module::helper_path(Some(&w(r"C:\dir\"))), Some(w(r"C:\win-make-ro.exe")));
    assert_eq!(Module::helper_path(Some(&w(r"C:\"))), Some(w(r"C:\win-make-ro.exe")));
    assert_eq!(Module::helper_path(Some(&w("C:"))), Some(w("C:win-make-ro.exe")));
    assert_eq!(
        Module::helper_path(Some(&w(r"\\?\C:\tools\ro_shellext.dll"))),
        Some(w(r"\\?\C:\tools\win-make-ro.exe"))
    );
    assert_eq!(Module::helper_path(Some(&w(r"a\.."))), Some(w(r"a\..\win-make-ro.exe")));
}
