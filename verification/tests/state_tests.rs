use devbar::state::{
    config_dirs, dedup_strings, dirs_or_empty, home_relative, watch_dirs_from, saved_watch_dirs, theme_config, theme_from_config,
    theme_or_default, watch_dirs_config, AppState,
};

fn strings(v: &[&str]) -> Vec<String> {
    v.iter().map(|s| s.to_string()).collect()
}

#[test]
fn watch_dirs_get_and_set() {
    let mut st = AppState::new(strings(&["C:\\projects"]));
    assert_eq!(st.get_watch_dirs(), strings(&["C:\\projects"]));
    assert!(st.notified_keys.is_empty());
    let r = st.set_watch_dirs(strings(&["/a", "/b"]));
    assert_eq!(r, strings(&["/a", "/b"]));
    assert_eq!(st.get_watch_dirs(), strings(&["/a", "/b"]));
}

#[test]
fn saved_watch_dirs_win_over_defaults() {
    let saved = strings(&["/y", "/z", "/y"]);
    let d = watch_dirs_from(&strings(&["/x", "/y"]), Some(&saved));
    assert_eq!(d, strings(&["/y", "/z"]));
    // a default removed in the settings stays removed
    let d2 = watch_dirs_from(&strings(&["/x"]), Some(&strings(&["/y"])));
    assert_eq!(d2, strings(&["/y"]));
    let d3 = watch_dirs_from(&strings(&["/x", "/x", "/w"]), None);
    assert_eq!(d3, strings(&["/x", "/w"]));
    assert_eq!(watch_dirs_from(&strings(&["/x"]), Some(&Vec::new())), Vec::<String>::new());
    assert_eq!(saved_watch_dirs("[\"/a\"]"), Some(strings(&["/a"])));
    assert_eq!(saved_watch_dirs("nope"), None);
    assert_eq!(dedup_strings(&strings(&[])), Vec::<String>::new());
    assert_eq!(dedup_strings(&strings(&["a", "a", "b", "a"])), strings(&["a", "b"]));
}

#[test]
fn home_relative_paths() {
    assert_eq!(home_relative("~").as_deref(), Some(""));
    assert_eq!(home_relative("~/code").as_deref(), Some("code"));
    assert_eq!(home_relative("~/~/x").as_deref(), Some("x"));
    assert_eq!(home_relative("~/~~y").as_deref(), Some("y"));
    assert_eq!(home_relative("~x"), None);
    assert_eq!(home_relative("/home/u"), None);
    assert_eq!(home_relative(""), None);
}

#[test]
fn watch_dir_config_round_trip() {
    let dirs = strings(&["C:\\projects", "/home/u/\"q\""]);
    let text = watch_dirs_config(&dirs).unwrap();
    assert_eq!(config_dirs(&text), dirs);
    assert_eq!(config_dirs("not json"), Vec::<String>::new());
    assert_eq!(config_dirs("{\"a\":1}"), Vec::<String>::new());
    assert_eq!(config_dirs("[\"a\",\"b\"]"), strings(&["a", "b"]));
    assert_eq!(watch_dirs_config(&strings(&[])).as_deref(), Some("[]"));
}

#[test]
fn theme_round_trip_and_default() {
    let t = theme_config("light").unwrap();
    assert_eq!(t, "\"light\"");
    assert_eq!(theme_from_config(Some(&t)), "light");
    assert_eq!(theme_from_config(None), "dark");
    assert_eq!(theme_from_config(Some("light")), "dark");
    assert_eq!(theme_from_config(Some("42")), "dark");
}

#[test]
fn choices_from_what_was_read() {
    assert_eq!(theme_or_default(Some("midnight".to_string())), "midnight");
    assert_eq!(theme_or_default(None), "dark");
    assert_eq!(dirs_or_empty(Some(strings(&["/a"]))), strings(&["/a"]));
    assert_eq!(dirs_or_empty(None), Vec::<String>::new());
}

#[test]
fn an_empty_saved_list_comes_back_empty() {
    let text = watch_dirs_config(&Vec::new()).unwrap();
    assert_eq!(saved_watch_dirs(&text), Some(Vec::new()));
    // removing every folder keeps none, whatever the defaults are
    let saved = saved_watch_dirs(&text).unwrap();
    assert_eq!(watch_dirs_from(&strings(&["/home/u/dev"]), Some(&saved)), Vec::<String>::new());
    let dirs = strings(&["/a", "/b"]);
    let back = saved_watch_dirs(&watch_dirs_config(&dirs).unwrap()).unwrap();
    assert_eq!(watch_dirs_from(&strings(&["/x"]), Some(&back)), dirs);
}
