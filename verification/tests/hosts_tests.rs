use bastion::hosts::{
    clear_blocked_websites, generate_block_entries, get_bastion_section, get_hosts_path,
    update_blocked_websites, Platform, BASTION_MARKER_END, BASTION_MARKER_START,
};

fn names(list: &[&str]) -> Vec<String> {
    list.iter().map(|s| s.to_string()).collect()
}

const TWITTER_BLOCK: &str = "# === BASTION BLOCK START ===\n127.0.0.1 twitter.com\n127.0.0.1 www.twitter.com\n::1 twitter.com\n::1 www.twitter.com\n# === BASTION BLOCK END ===";

#[test]
fn test_generate_block_entries() {
    let domains = vec!["twitter.com".to_string(), "reddit.com".to_string()];
    let entries = generate_block_entries(&domains);

    assert!(entries.contains(BASTION_MARKER_START));
    assert!(entries.contains(BASTION_MARKER_END));
    assert!(entries.contains("127.0.0.1 twitter.com"));
    assert!(entries.contains("127.0.0.1 www.twitter.com"));
}

#[test]
fn block_entries_have_the_exact_format() {
    assert_eq!(generate_block_entries(&names(&["twitter.com"])), TWITTER_BLOCK);
}

#[test]
fn block_entries_keep_the_order_of_the_domains() {
    let entries = generate_block_entries(&names(&["b.org", "a.org"]));
    let expected = "# === BASTION BLOCK START ===\n\
        127.0.0.1 b.org\n127.0.0.1 www.b.org\n::1 b.org\n::1 www.b.org\n\
        127.0.0.1 a.org\n127.0.0.1 www.a.org\n::1 a.org\n::1 www.a.org\n\
        # === BASTION BLOCK END ===";
    assert_eq!(entries, expected);
}

#[test]
fn block_entries_of_no_domain_are_the_two_markers() {
    assert_eq!(
        generate_block_entries(&[]),
        "# === BASTION BLOCK START ===\n# === BASTION BLOCK END ==="
    );
}

#[test]
fn sync_appends_exactly_one_fenced_block() {
    let before = "127.0.0.1 localhost\n";
    let after = update_blocked_websites(before, &names(&["twitter.com"]));
    assert_eq!(after, format!("127.0.0.1 localhost\n\n\n{}\n", TWITTER_BLOCK));
    assert_eq!(after.matches(BASTION_MARKER_START).count(), 1);
    assert_eq!(after.matches(BASTION_MARKER_END).count(), 1);
    let fenced: Vec<&str> = after
        .lines()
        .skip_while(|l| *l != BASTION_MARKER_START)
        .skip(1)
        .take_while(|l| *l != BASTION_MARKER_END)
        .collect();
    assert_eq!(
        fenced,
        vec![
            "127.0.0.1 twitter.com",
            "127.0.0.1 www.twitter.com",
            "::1 twitter.com",
            "::1 www.twitter.com"
        ]
    );
}

#[test]
fn sync_twice_gives_the_same_text() {
    let domains = names(&["a.com", "b.com"]);
    let once = update_blocked_websites("127.0.0.1 localhost\n::1 localhost\n", &domains);
    let twice = update_blocked_websites(&once, &domains);
    assert_eq!(once, twice);
    let thrice = update_blocked_websites(&twice, &domains);
    assert_eq!(once, thrice);
}

#[test]
fn sync_twice_gives_the_same_text_without_final_newline() {
    let domains = names(&["a.com"]);
    let once = update_blocked_websites("127.0.0.1 localhost", &domains);
    assert_eq!(update_blocked_websites(&once, &domains), once);
}

#[test]
fn sync_with_no_domains_restores_the_text() {
    for before in ["127.0.0.1 localhost\n", "127.0.0.1 localhost", "", "a\n\n", "\n"] {
        let fenced = update_blocked_websites(before, &names(&["a.com", "b.com"]));
        assert_ne!(fenced, before);
        assert_eq!(update_blocked_websites(&fenced, &[]), before);
    }
}

#[test]
fn sync_with_no_domains_leaves_a_text_without_fence_alone() {
    assert_eq!(update_blocked_websites("127.0.0.1 localhost\n", &[]), "127.0.0.1 localhost\n");
    assert_eq!(update_blocked_websites("", &[]), "");
}

#[test]
fn sync_replaces_an_old_fence_and_keeps_what_surrounds_it() {
    let old = update_blocked_websites("top\n", &names(&["old.com"]));
    let edited = format!("{}tail\n", old);
    let new = update_blocked_websites(&edited, &names(&["new.com"]));
    let block = generate_block_entries(&names(&["new.com"]));
    assert_eq!(new, format!("top\ntail\n\n\n{}\n", block));
    assert!(!new.contains("old.com"));
}

#[test]
fn sync_keeps_what_stands_before_and_after_a_bare_section_apart() {
    let text = format!("a{}b", TWITTER_BLOCK);
    assert_eq!(update_blocked_websites(&text, &[]), "a\nb");
    let text = format!("{}b", TWITTER_BLOCK);
    assert_eq!(update_blocked_websites(&text, &[]), "b");
    let text = format!("a{}", TWITTER_BLOCK);
    assert_eq!(update_blocked_websites(&text, &[]), "a");
}

#[test]
fn sync_does_not_join_the_lines_around_a_fence() {
    let text = format!("a\n\n{}\nb\n", TWITTER_BLOCK);
    assert_eq!(update_blocked_websites(&text, &[]), "a\nb\n");
    let text = format!("a\n\n\n{}\nb\n", TWITTER_BLOCK);
    assert_eq!(update_blocked_websites(&text, &[]), "a\nb\n");
    let text = format!("\n\n{}\nb", TWITTER_BLOCK);
    assert_eq!(update_blocked_websites(&text, &[]), "b");
    let text = format!("a\n\n{}\n", TWITTER_BLOCK);
    assert_eq!(update_blocked_websites(&text, &[]), "a");
}

#[test]
fn sync_leaves_no_marker_wherever_the_section_stands() {
    for before in ["", "a", "a\n", "a\n\n", "a\n\n\n", "\n\n", "x y\nz"] {
        for after in ["", "\n", "b", "\nb", "\n\nb\n", "b\n"] {
            let text = format!("{}{}{}", before, TWITTER_BLOCK, after);
            let cut = update_blocked_websites(&text, &[]);
            assert!(!cut.contains(BASTION_MARKER_START), "{:?}", text);
            assert!(!cut.contains(BASTION_MARKER_END), "{:?}", text);
            assert!(!cut.contains("twitter.com"));
            let head = before.strip_suffix("\n\n").unwrap_or(before);
            let tail = after.strip_prefix("\n").unwrap_or(after);
            let joint = if !head.is_empty() && !head.ends_with('\n') && !tail.is_empty() {
                "\n"
            } else {
                ""
            };
            assert_eq!(cut, format!("{}{}{}", head, joint, tail));
        }
    }
}

#[test]
fn sync_keeps_every_line_before_and_after_a_written_fence() {
    for before in ["127.0.0.1 localhost", "127.0.0.1 localhost\n", "one\ntwo", ""] {
        for after in ["10.0.0.1 router\n", "10.0.0.1 router", "x\ny\n"] {
            let fenced = update_blocked_websites(before, &names(&["a.com", "b.com"]));
            let edited = format!("{}{}", fenced, after);
            let cut = update_blocked_websites(&edited, &[]);
            assert!(!cut.contains(BASTION_MARKER_START));
            assert!(!cut.contains(BASTION_MARKER_END));
            assert!(!cut.contains("a.com"));
            let mut lines: Vec<&str> = before.lines().collect();
            lines.extend(after.lines());
            assert_eq!(cut.lines().collect::<Vec<&str>>(), lines);
            assert!(cut.starts_with(before));
            assert!(cut.ends_with(after));
        }
    }
}

#[test]
fn sync_counts_characters_not_bytes() {
    let before = "# h\u{00f4}tes \u{4e2d}\u{6587}\n";
    let fenced = update_blocked_websites(before, &names(&["a.com"]));
    assert!(fenced.starts_with(before));
    assert_eq!(update_blocked_websites(&fenced, &[]), before);
}

#[test]
fn section_is_found_with_its_positions() {
    let text = format!("ab\n{}\nrest", TWITTER_BLOCK);
    let (section, start, end) = get_bastion_section(&text).unwrap();
    assert_eq!(section, TWITTER_BLOCK);
    assert_eq!(start, 3);
    assert_eq!(end, 3 + TWITTER_BLOCK.chars().count());
}

#[test]
fn section_needs_both_markers_in_order() {
    assert!(get_bastion_section("127.0.0.1 localhost\n").is_none());
    assert!(get_bastion_section("# === BASTION BLOCK START ===\nx\n").is_none());
    assert!(get_bastion_section("# === BASTION BLOCK END ===\nx\n").is_none());
    let reversed = "# === BASTION BLOCK END ===\n# === BASTION BLOCK START ===\n";
    assert!(get_bastion_section(reversed).is_none());
    assert_eq!(update_blocked_websites(reversed, &[]), reversed);
}

#[test]
fn section_ends_at_the_first_end_marker_after_the_start() {
    let text = "# === BASTION BLOCK END ===# === BASTION BLOCK START ===x# === BASTION BLOCK END ===y# === BASTION BLOCK END ===";
    let (section, start, _) = get_bastion_section(text).unwrap();
    assert_eq!(start, 27);
    assert_eq!(section, "# === BASTION BLOCK START ===x# === BASTION BLOCK END ===");
}

#[test]
fn clear_removes_the_section_and_the_space_before_it() {
    let fenced = update_blocked_websites("127.0.0.1 localhost\n", &names(&["a.com"]));
    assert_eq!(clear_blocked_websites(&fenced).unwrap(), "127.0.0.1 localhost\n");
    let text = format!("x \t\u{00a0}\n{}tail", TWITTER_BLOCK);
    assert_eq!(clear_blocked_websites(&text).unwrap(), "xtail");
}

#[test]
fn clear_has_nothing_to_do_without_a_section() {
    assert!(clear_blocked_websites("127.0.0.1 localhost\n").is_none());
    assert!(clear_blocked_websites("").is_none());
}

#[test]
fn hosts_path_by_platform() {
    assert_eq!(get_hosts_path(Platform::Linux), "/etc/hosts");
    assert_eq!(get_hosts_path(Platform::MacOs), "/etc/hosts");
    assert_eq!(
        get_hosts_path(Platform::Windows),
        "C:\\Windows\\System32\\drivers\\etc\\hosts"
    );
}
