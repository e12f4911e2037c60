use tes3map::plugins::{is_plugin_extension, plugin_load_order, PluginViewModel};

#[test]
fn from_path_hashes_the_path() {
    let path = "Data Files/Morrowind.esm".to_string();
    let vm = PluginViewModel::from_path(path.clone());
    assert_eq!(vm.hash, seahash::hash(path.as_bytes()));
    assert_ne!(vm.hash, 0);
    assert_eq!(vm.path, path);
    assert!(!vm.enabled);
    let other = PluginViewModel::from_path("Data Files/Tribunal.esm".to_string());
    assert_ne!(vm.hash, other.hash);
}

#[test]
fn name_is_the_file_name() {
    let vm = PluginViewModel::from_path("Data Files/Bloodmoon.esm".to_string());
    assert_eq!(vm.get_name(), Some("Bloodmoon.esm".to_string()));
    let bare = PluginViewModel::from_path("Tribunal.esm".to_string());
    assert_eq!(bare.get_name(), Some("Tribunal.esm".to_string()));
    let up = PluginViewModel::from_path("Data Files/..".to_string());
    assert_eq!(up.get_name(), None);
}

#[test]
fn name_of_an_absolute_path_is_its_last_part() {
    let vm = PluginViewModel::from_path("/games/Morrowind/Data Files/Morrowind.esm".to_string());
    assert_eq!(vm.get_name(), Some("Morrowind.esm".to_string()));
    let dotted = PluginViewModel::from_path("mods/.hidden.esp".to_string());
    assert_eq!(dotted.get_name(), Some(".hidden.esp".to_string()));
}

#[test]
fn plugin_extensions() {
    assert!(is_plugin_extension("esm", false));
    assert!(is_plugin_extension("ESP", false));
    assert!(is_plugin_extension("eSm", true));
    assert!(!is_plugin_extension("omwaddon", false));
    assert!(is_plugin_extension("omwaddon", true));
    assert!(is_plugin_extension("OMWScripts", true));
    assert!(!is_plugin_extension("txt", true));
    assert!(!is_plugin_extension("es", true));
    assert!(!is_plugin_extension("esmm", true));
    assert!(!is_plugin_extension("", true));
}

#[test]
fn load_order_is_by_time_and_stable() {
    let times: Vec<i128> = vec![30, 10, 20, 10, -5, 30];
    let order = plugin_load_order(&times);
    assert_eq!(order, vec![4, 1, 3, 2, 0, 5]);
    assert_eq!(plugin_load_order(&vec![]), Vec::<usize>::new());
    assert_eq!(plugin_load_order(&vec![7, 7, 7]), vec![0, 1, 2]);
}
