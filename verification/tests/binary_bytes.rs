use claude_buddy_changer::binary_patch::{
    apply_binary, dedupe_paths, detect_binary_salt, find_all_offsets, find_claude_binary,
    find_prefixed_digits, output_lines, replace_salt_in_binary, resolve_binary_path,
    restore_binary, ApplyResult, BinaryFile, BinaryRead, DetectedSalt, RestoreResult,
};

fn file(path: &str, bytes: &[u8]) -> Option<BinaryFile> {
    Some(BinaryFile { path: path.to_string(), contents: bytes.to_vec() })
}

fn count(haystack: &[u8], needle: &[u8]) -> usize {
    haystack.windows(needle.len()).filter(|w| *w == needle).count()
}

#[test]
fn detects_friend_salt_in_bytes() {
    let detected = detect_binary_salt(&file("tool.bin", b"prefix friend-2026-401 suffix"))
        .expect("salt should be found");
    assert_eq!(
        detected,
        DetectedSalt { salt: "friend-2026-401".to_string(), length: 15, file_path: "tool.bin".to_string() }
    );
}

#[test]
fn friend_salt_wins_over_other_forms() {
    let bytes = b"ccbf-0123456789 lab-01234567890 friend-2026-7";
    let detected = detect_binary_salt(&file("b", bytes)).unwrap();
    assert_eq!(detected.salt, "friend-2026-7");
    assert_eq!(detected.length, 13);
    let detected = detect_binary_salt(&file("b", b"x lab-01234567890 ccbf-0123456789")).unwrap();
    assert_eq!(detected.salt, "ccbf-0123456789");
    let detected = detect_binary_salt(&file("b", b"lab-01234567890")).unwrap();
    assert_eq!(detected.salt, "lab-01234567890");
}

#[test]
fn friend_salt_needs_a_dash_and_digits_after_the_year() {
    let detected = detect_binary_salt(&file("b", b"friend-2026- friend-2026x friend-1999-42!")).unwrap();
    assert_eq!(detected.salt, "friend-1999-42");
    assert_eq!(detect_binary_salt(&file("b", b"friend-2026-")), None);
    assert_eq!(detect_binary_salt(&file("b", b"nothing to see")), None);
    assert_eq!(detect_binary_salt(&None), None);
}

#[test]
fn prefixed_digits_report_the_span() {
    assert_eq!(find_prefixed_digits(b"..ab123..", b"ab", 3, false), Some((2, 7)));
    assert_eq!(find_prefixed_digits(b"ab12", b"ab", 3, false), None);
    assert_eq!(find_prefixed_digits(b"ab1-234x", b"ab", 1, true), Some((0, 7)));
    assert_eq!(find_prefixed_digits(b"", b"ab", 1, false), None);
}

#[test]
fn replace_salt_updates_every_offset() {
    let bytes = b"friend-2026-401 and friend-2026-401 and friend-2026-401".to_vec();
    let (updated, patch_count) =
        replace_salt_in_binary("friend-2026-401", "friend-2026-999", BinaryRead::Read(bytes), "acme", "Acme Code").unwrap();
    assert_eq!(patch_count, 3);
    assert_eq!(count(&updated, b"friend-2026-401"), 0);
    assert_eq!(count(&updated, b"friend-2026-999"), 3);
    assert_eq!(updated, b"friend-2026-999 and friend-2026-999 and friend-2026-999".to_vec());
}

#[test]
fn replace_salt_reports_each_error() {
    assert_eq!(
        replace_salt_in_binary("friend-2026-401", "lab-1", BinaryRead::Read(b"friend-2026-401".to_vec()), "acme", "Acme Code"),
        Err("Salt length mismatch: \"friend-2026-401\" is 15, \"lab-1\" is 5.".to_string())
    );
    assert_eq!(
        replace_salt_in_binary("friend-2026-401", "friend-2026-402", BinaryRead::Read(b"no salt".to_vec()), "acme", "Acme Code"),
        Err("Could not find \"friend-2026-401\" in binary bytes.".to_string())
    );
    assert_eq!(
        replace_salt_in_binary("friend-2026-401", "friend-2026-402", BinaryRead::Failed("permission denied".to_string()), "acme", "Acme Code"),
        Err("permission denied".to_string())
    );
    assert_eq!(
        replace_salt_in_binary("é", "ab", BinaryRead::Read("é".as_bytes().to_vec()), "acme", "Acme Code"),
        Ok((b"ab".to_vec(), 1))
    );
}

#[test]
fn missing_binary_is_reported_before_salt_lengths() {
    assert_eq!(
        replace_salt_in_binary("friend-2026-401", "lab-1", BinaryRead::Missing, "acme", "Acme Code"),
        Err("Could not find acme binary. Use a valid binary path or install Acme Code first.".to_string())
    );
    assert_eq!(
        replace_salt_in_binary("friend-2026-401", "lab-1", BinaryRead::Failed("denied".to_string()), "acme", "Acme Code"),
        Err("Salt length mismatch: \"friend-2026-401\" is 15, \"lab-1\" is 5.".to_string())
    );
}

#[test]
fn offsets_include_overlaps() {
    assert_eq!(find_all_offsets(b"aaaa", b"aa"), vec![0, 1, 2]);
    assert_eq!(find_all_offsets(b"abcabc", b"bc"), vec![1, 4]);
    assert_eq!(find_all_offsets(b"ab", b"abc"), Vec::<usize>::new());
}

#[test]
fn apply_then_restore_gives_back_the_bytes() {
    let original = b"head friend-2026-401 mid friend-2026-401 tail".to_vec();
    let (applied, patched) =
        apply_binary("friend-2026-999", file("/bin/acme", &original), "Acme Code").unwrap();
    assert_eq!(
        applied,
        ApplyResult {
            file_path: "/bin/acme".to_string(),
            patch_count: 2,
            old_salt: "friend-2026-401".to_string(),
            new_salt: "friend-2026-999".to_string(),
        }
    );
    assert_eq!(patched, b"head friend-2026-999 mid friend-2026-999 tail".to_vec());
    let (restored, bytes) = restore_binary("friend-2026-401", file("/bin/acme", &patched), "Acme Code").unwrap();
    assert_eq!(
        restored,
        RestoreResult {
            file_path: "/bin/acme".to_string(),
            patch_count: 2,
            previous_salt: "friend-2026-999".to_string(),
            restored_salt: "friend-2026-401".to_string(),
        }
    );
    assert_eq!(bytes, Some(original));
}

#[test]
fn restore_of_current_salt_writes_nothing() {
    let (restored, bytes) =
        restore_binary("friend-2026-401", file("/bin/acme", b"x friend-2026-401 y"), "Acme Code").unwrap();
    assert_eq!(restored.patch_count, 0);
    assert_eq!(restored.previous_salt, "friend-2026-401");
    assert_eq!(bytes, None);
}

#[test]
fn apply_and_restore_need_a_detected_salt() {
    let message = "Could not detect the current salt in the Acme Code binary.".to_string();
    assert_eq!(apply_binary("friend-2026-999", None, "Acme Code"), Err(message.clone()));
    assert_eq!(apply_binary("friend-2026-999", file("b", b"nothing"), "Acme Code"), Err(message.clone()));
    assert_eq!(restore_binary("friend-2026-401", None, "Acme Code"), Err(message));
    assert_eq!(
        apply_binary("lab-1", file("b", b"friend-2026-401"), "Acme Code"),
        Err("Salt length mismatch: \"friend-2026-401\" is 15, \"lab-1\" is 5.".to_string())
    );
}

#[test]
fn dedupe_keeps_first_occurrences() {
    let paths = vec!["a", "b", "a", "c", "b"].into_iter().map(String::from).collect();
    assert_eq!(dedupe_paths(paths), vec!["a".to_string(), "b".to_string(), "c".to_string()]);
}

#[test]
fn binary_choice_prefers_one_with_a_salt() {
    let cands = vec![("/a".to_string(), false), ("/b".to_string(), true), ("/c".to_string(), true)];
    assert_eq!(find_claude_binary(&cands), Some("/b".to_string()));
    let cands = vec![("/a".to_string(), false), ("/b".to_string(), false)];
    assert_eq!(find_claude_binary(&cands), Some("/a".to_string()));
    assert_eq!(find_claude_binary(&Vec::new()), None);
    assert_eq!(resolve_binary_path(Some("/given".to_string()), &cands), Some("/given".to_string()));
    assert_eq!(resolve_binary_path(None, &cands), Some("/a".to_string()));
}

#[test]
fn command_output_lines_are_trimmed() {
    assert_eq!(
        output_lines("  /usr/bin/acme \r\n/opt/acme\n\n"),
        vec!["/usr/bin/acme".to_string(), "/opt/acme".to_string(), String::new()]
    );
    assert_eq!(output_lines(""), Vec::<String>::new());
}
