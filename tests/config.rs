use hermit_entry::config::{latest_entry, Input, DEFAULT_CONFIG_NAME};

#[test]
fn latest_entry_wins() {
    let entries: Vec<(&[u8], &[u8])> = vec![(b"a", b"1"), (b"b", b"2"), (b"a", b"3")];
    assert_eq!(latest_entry(&entries, b"a"), Some(&b"3"[..]));
    assert_eq!(latest_entry(&entries, b"b"), Some(&b"2"[..]));
    assert_eq!(latest_entry(&entries, b"c"), None);
    assert_eq!(latest_entry(&Vec::new(), b"a"), None);
}

#[test]
fn config_name_and_input() {
    assert_eq!(DEFAULT_CONFIG_NAME, "hermit.toml");
    let i = Input { kernel_args: vec![], app_args: vec!["x".to_string()], env_vars: vec![] };
    assert_eq!(i.app_args.len(), 1);
}
