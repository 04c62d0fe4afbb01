use acp_tap::{base_name, default_label, default_socket, epoch_millis, exit_code, now_ms, truncate};

#[test]
fn truncate_respects_char_boundaries() {
    assert_eq!(truncate("héllo", 3), "hél…");
    assert_eq!(truncate("hi", 10), "hi");
}

#[test]
fn truncate_at_the_edges() {
    assert_eq!(truncate("", 0), "");
    assert_eq!(truncate("abc", 0), "…");
    assert_eq!(truncate("abc", 3), "abc");
    assert_eq!(truncate("abcd", 3), "abc…");
    assert_eq!(truncate("日本語テキスト", 2), "日本…");
}

#[test]
fn truncating_again_changes_nothing() {
    let once = truncate("a long enough text", 6);
    assert_eq!(once, "a long…");
    assert_eq!(truncate(&once, 6), once);
}

#[test]
fn clock_readings_become_timestamps() {
    assert_eq!(epoch_millis(None), 0);
    assert_eq!(epoch_millis(Some(1_700_000_000_123)), 1_700_000_000_123);
    assert_eq!(epoch_millis(Some(u64::MAX as u128)), u64::MAX);
    assert_eq!(epoch_millis(Some(u64::MAX as u128 + 6)), 5);
}

#[test]
fn the_clock_stands_after_the_epoch() {
    let first = now_ms();
    assert!(first > 1_600_000_000_000);
    assert!(first < 100_000_000_000_000);
}

#[test]
fn socket_path_follows_the_runtime_dir() {
    assert_eq!(
        default_socket(Some("/run/user/1000".to_string())),
        "/run/user/1000/acp-tap.sock"
    );
    assert_eq!(default_socket(Some(String::new())), "/tmp/acp-tap.sock");
    assert_eq!(default_socket(None), "/tmp/acp-tap.sock");
}

#[test]
fn label_is_the_directory_name() {
    assert_eq!(default_label(Some("/home/me/project".to_string())), "project");
    assert_eq!(default_label(Some("/".to_string())), "agent");
    assert_eq!(default_label(Some(String::new())), "agent");
    assert_eq!(default_label(None), "agent");
}

#[test]
fn base_names_are_those_of_std() {
    let paths = [
        "", "/", "//", ".", "..", "/..", "a", "a/", "a//", "/a", "/a/b", "a/.", "a/./", "./a",
        "a/..", "a/../b", "./.", "/.", "..a", "/x/...", "/héllo/wörld/", ".hidden", "a b/c d",
    ];
    for path in paths {
        let expected = std::path::Path::new(path)
            .file_name()
            .map(|n| n.to_string_lossy().to_string());
        assert_eq!(base_name(path), expected, "{}", path);
    }
}

#[test]
fn exit_code_is_the_agents() {
    assert_eq!(exit_code(Some(3)), 3);
    assert_eq!(exit_code(Some(-1)), -1);
    assert_eq!(exit_code(None), 0);
}
