use clip::{base_name, clip_text, get_store_path, join, listing, store_lines, store_path_in};

#[test]
fn join_puts_one_separator_between() {
    assert_eq!(join("/tmp", "a.txt"), "/tmp/a.txt");
    assert_eq!(join("/tmp/", "a.txt"), "/tmp/a.txt");
    assert_eq!(join("/", "a"), "/a");
    assert_eq!(join("", "a"), "a");
    assert_eq!(join("/tmp", "/etc"), "/etc");
}

#[test]
fn base_name_is_the_last_component() {
    assert_eq!(base_name("/tmp/a.txt"), Some("a.txt".to_string()));
    assert_eq!(base_name("/tmp/dir/"), Some("dir".to_string()));
    assert_eq!(base_name("plain"), Some("plain".to_string()));
    assert_eq!(base_name("/"), None);
    assert_eq!(base_name(""), None);
    assert_eq!(base_name("/tmp/.."), None);
    assert_eq!(base_name("/tmp/."), None);
}

#[test]
fn store_lives_in_the_home_directory() {
    assert_eq!(store_path_in("/home/ann"), "/home/ann/.clip_store");
    assert_eq!(store_path_in("/root/"), "/root/.clip_store");
}

#[test]
fn current_store_path_names_the_store_file() {
    if let Some(p) = get_store_path() {
        assert!(p.ends_with("/.clip_store") || p == ".clip_store");
    }
}

#[test]
fn store_lines_splits_like_str_lines() {
    assert_eq!(store_lines("/a\n/b\n"), vec!["/a".to_string(), "/b".to_string()]);
    assert_eq!(store_lines("/a\n/b"), vec!["/a".to_string(), "/b".to_string()]);
    assert_eq!(store_lines("/a\r\n/b\r"), vec!["/a".to_string(), "/b\r".to_string()]);
    assert_eq!(store_lines("\n\n"), vec![String::new(), String::new()]);
    assert_eq!(store_lines(""), Vec::<String>::new());
}

#[test]
fn clip_then_list_shows_the_canonical_path() {
    let text = clip_text(&[Some("/tmp/a.txt".to_string())]);
    assert_eq!(text, "/tmp/a.txt\n");
    assert_eq!(listing(Some(&text)), vec!["/tmp/a.txt".to_string()]);
}

#[test]
fn clip_of_missing_path_adds_nothing() {
    let text = clip_text(&[None]);
    assert_eq!(text, "");
    assert_eq!(listing(Some(&text)), Vec::<String>::new());
}

#[test]
fn clip_appends_after_existing_entries_without_dedup() {
    let mut store = "/x\n".to_string();
    store.push_str(&clip_text(&[
        Some("/a".to_string()),
        None,
        Some("/b".to_string()),
        Some("/a".to_string()),
    ]));
    assert_eq!(store, "/x\n/a\n/b\n/a\n");
    assert_eq!(
        listing(Some(&store)),
        vec!["/x".to_string(), "/a".to_string(), "/b".to_string(), "/a".to_string()]
    );
}

#[test]
fn listing_an_erased_store_is_empty() {
    assert_eq!(listing(None), Vec::<String>::new());
}
