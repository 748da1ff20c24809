use os_detect::{
    check_release_line,
    detect_linux, detect_macos, detect_os_from_path, detect_windows, find_linux_parts,
    fstab_entry, parse_plist, parse_plist_lines, resolve_source, RootFiles, OS,
};

const MAC_PLIST: &str = r#"<?xml version="1.0" encoding="UTF-8"?>
<!DOCTYPE plist PUBLIC "Apple Stuff">
<plist version="1.0">
<dict>
    <key>ProductBuildVersion</key>
    <string>10C540</string>
    <key>ProductName</key>
    <string>Mac OS X</string>
    <key>ProductUserVisibleVersion</key>
    <string>10.6.2</string>
    <key>ProductVersion</key>
    <string>10.6.2</string>
</dict>
</plist>"#;

fn lines(text: &str) -> Vec<String> {
    text.lines().map(String::from).collect()
}

#[test]
fn mac_plist_parsing() {
    assert_eq!(parse_plist(MAC_PLIST), Some("Mac OS X (10.6.2)".into()));
}

#[test]
fn plist_version_before_name() {
    let text = "<key>ProductUserVisibleVersion</key>\n  <string>11.1</string>\n<key>ProductName</key>\n\t<string>macOS</string>\n";
    assert_eq!(parse_plist(text), Some("macOS (11.1)".to_string()));
}

#[test]
fn plist_short_value_is_corrupt() {
    let text = "<key>ProductName</key>\n<s>x</s>\n<key>ProductUserVisibleVersion</key>\n<string>10.6.2</string>\n";
    assert_eq!(parse_plist(text), None);
}

#[test]
fn plist_value_of_ten_characters_is_empty() {
    let v = vec![
        "<key>ProductName</key>".to_string(),
        "0123456789".to_string(),
        "<key>ProductUserVisibleVersion</key>".to_string(),
        "<string>1</string>".to_string(),
    ];
    assert_eq!(parse_plist_lines(&v), Some(" (1)".to_string()));
}

#[test]
fn plist_missing_version() {
    let text = "<key>ProductName</key>\n<string>Mac OS X</string>\n";
    assert_eq!(parse_plist(text), None);
    assert_eq!(parse_plist(""), None);
}

#[test]
fn fstab_comment_line() {
    assert_eq!(fstab_entry("# /dev/sda1 /home ext4 defaults 0 2"), None);
    assert_eq!(fstab_entry("   #UUID=1 /home ext4"), None);
}

#[test]
fn fstab_entry_fields() {
    assert_eq!(
        fstab_entry("  UUID=abcd-1234\t/boot/efi  vfat umask=0077 0 1 "),
        Some(("UUID=abcd-1234".to_string(), "/boot/efi".to_string()))
    );
    assert_eq!(fstab_entry("/dev/sda1"), None);
    assert_eq!(fstab_entry("   "), None);
}

#[test]
fn resolve_uuid_source() {
    assert_eq!(resolve_source("UUID=abcd-1234", None), Some("abcd-1234".to_string()));
    assert_eq!(resolve_source("UUID", None), None);
}

#[test]
fn resolve_device_and_other_sources() {
    assert_eq!(resolve_source("/dev/sda1", Some("u-1".to_string())), Some("u-1".to_string()));
    assert_eq!(resolve_source("/dev/sda1", None), None);
    assert_eq!(resolve_source("LABEL=root", Some("u-1".to_string())), None);
}

#[test]
fn first_home_line_wins() {
    let table = lines("UUID=first /home ext4 defaults 0 2\nUUID=second /home ext4 defaults 0 2\n");
    let (home, efi, recovery) = find_linux_parts(&table);
    assert_eq!(home, Some("first".to_string()));
    assert_eq!(efi, None);
    assert_eq!(recovery, None);
}

#[test]
fn all_three_parts() {
    let table = lines(
        "# comment\nUUID=root-id / ext4 defaults 0 1\nUUID=efi-id /boot/efi vfat umask=0077 0 1\nLABEL=x /home ext4 0 0\nUUID=home-id /home ext4 0 0\nUUID=rec-id /recovery vfat 0 0\n",
    );
    let (home, efi, recovery) = find_linux_parts(&table);
    assert_eq!(home, None);
    assert_eq!(efi, Some("efi-id".to_string()));
    assert_eq!(recovery, Some("rec-id".to_string()));
}

#[test]
fn windows_found_by_marker() {
    let root = RootFiles { os_release: None, fstab: None, has_ntoskrnl: true };
    match detect_os_from_path(&root) {
        Some(OS::Windows(label)) => assert_eq!(label, "Windows"),
        other => panic!("unexpected {:?}", other),
    }
    assert!(detect_windows(false).is_none());
}

#[test]
fn nothing_found() {
    let root = RootFiles { os_release: None, fstab: Some("UUID=a /home ext4".to_string()), has_ntoskrnl: false };
    assert!(detect_os_from_path(&root).is_none());
}

#[test]
fn linux_without_fstab() {
    let release = "NAME=\"Pop!_OS\"\nVERSION_ID=\"22.04\"\nID=pop\n";
    match detect_linux(Some(release), None) {
        Some(OS::Linux { info, efi, home, recovery }) => {
            assert_eq!(info.name, "Pop!_OS");
            assert_eq!(info.id, "pop");
            assert_eq!(efi, None);
            assert_eq!(home, None);
            assert_eq!(recovery, None);
        }
        other => panic!("unexpected {:?}", other),
    }
    assert!(detect_linux(None, None).is_none());
}

#[test]
fn linux_before_windows() {
    let root = RootFiles {
        os_release: Some("ID=debian\n".to_string()),
        fstab: Some("UUID=h /home ext4\n".to_string()),
        has_ntoskrnl: true,
    };
    match detect_os_from_path(&root) {
        Some(OS::Linux { home, .. }) => assert_eq!(home, Some("h".to_string())),
        other => panic!("unexpected {:?}", other),
    }
}

#[test]
fn macos_labels() {
    match detect_macos(Some(MAC_PLIST)) {
        Some(OS::MacOs(label)) => assert_eq!(label, "Mac OS X (10.6.2)"),
        other => panic!("unexpected {:?}", other),
    }
    match detect_macos(Some("not a property list")) {
        Some(OS::MacOs(label)) => assert_eq!(label, "Mac OS (Unknown)"),
        other => panic!("unexpected {:?}", other),
    }
    assert!(detect_macos(None).is_none());
}

#[test]
fn unresolvable_first_line_keeps_slot_empty() {
    let table = lines("LABEL=x /home ext4 0 0\nUUID=y /home ext4 0 0\n");
    assert_eq!(find_linux_parts(&table).0, None);
    let table = lines("UUID /home ext4 defaults 0 2\nUUID=y /home ext4 0 0\nUUID=r /recovery vfat 0 0\n");
    let (home, efi, recovery) = find_linux_parts(&table);
    assert_eq!(home, None);
    assert_eq!(efi, None);
    assert_eq!(recovery, Some("r".to_string()));
}

#[test]
fn uuid_separator_is_consumed() {
    let table = lines("UUIDXx /boot/efi vfat 0 1\nUUID=z /boot/efi vfat 0 1\n");
    assert_eq!(find_linux_parts(&table).1, Some("x".to_string()));
}

#[test]
fn comment_lines_change_nothing() {
    let plain = lines("UUID=a /home ext4 0 0\nUUID=b /recovery vfat 0 0\n");
    let commented = lines("   # UUID=x /home ext4\nUUID=a /home ext4 0 0\n#/dev/sdb1 /recovery\nUUID=b /recovery vfat 0 0\n");
    assert_eq!(find_linux_parts(&plain), find_linux_parts(&commented));
}

#[test]
fn release_with_lone_quote_is_not_linux() {
    assert!(detect_linux(Some("NAME=\""), None).is_none());
    assert!(detect_linux(Some("ID=debian\nVERSION_ID= ' \n"), None).is_none());
    assert!(detect_linux(Some("NAME=\"\"\nOTHER=\"\n"), None).is_some());
    let root = RootFiles { os_release: Some("NAME=\"".to_string()), fstab: None, has_ntoskrnl: false };
    match detect_os_from_path(&root) {
        Some(OS::MacOs(label)) => assert_eq!(label, "Mac OS (Unknown)"),
        other => panic!("unexpected {:?}", other),
    }
    let root = RootFiles { os_release: Some("NAME=\"".to_string()), fstab: None, has_ntoskrnl: true };
    assert!(matches!(detect_os_from_path(&root), Some(OS::Windows(_))));
}

#[test]
fn release_line_check() {
    assert!(!check_release_line("  PRETTY_NAME=  \"  "));
    assert!(check_release_line("PRETTY_NAME=\"Pop\""));
    assert!(check_release_line("NAME"));
    assert!(check_release_line("X=\""));
}
