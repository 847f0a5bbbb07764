use anigit::uninstall::{detect_package_manager, is_confirmed, package_manager_for};

#[test]
fn cellar_paths_detect_as_homebrew() {
    for path in [
        "/usr/local/Cellar/anigit/1.4.6/bin/anigit",
        "/opt/homebrew/Cellar/anigit/1.4.6/bin/anigit",
        "/home/linuxbrew/.linuxbrew/Cellar/anigit/1.4.6/bin/anigit",
    ] {
        let manager = detect_package_manager(path)
            .unwrap_or_else(|| panic!("{path} should detect as Homebrew"));
        assert_eq!(manager.name, "Homebrew");
        assert_eq!(manager.uninstall_command, "brew uninstall anigit");
    }
}

#[test]
fn manual_install_paths_are_not_flagged() {
    for path in [
        "/usr/local/bin/anigit",
        "/opt/homebrew/bin/anigit",
        "/home/user/.cargo/bin/anigit",
        "/home/user/CellarDoor/anigit",
    ] {
        assert!(
            detect_package_manager(path).is_none(),
            "{path} should NOT be flagged as a package-manager install"
        );
    }
}

#[test]
fn only_literal_lowercase_y_confirms() {
    assert!(is_confirmed("y\n"));
    assert!(is_confirmed("y\r\n"));
    assert!(is_confirmed("y"));
}

#[test]
fn everything_else_cancels() {
    assert!(!is_confirmed("Y\n"));
    assert!(!is_confirmed("yes\n"));
    assert!(!is_confirmed("\n"));
    assert!(!is_confirmed(""));
    assert!(!is_confirmed(" y\n"));
    assert!(!is_confirmed("y \n"));
    assert!(!is_confirmed("n\n"));
    assert!(!is_confirmed("anything else\n"));
}

#[test]
fn cellar_as_the_last_segment_counts_and_a_prefix_does_not() {
    assert!(detect_package_manager("/usr/local/Cellar").is_some());
    assert!(detect_package_manager("Cellar/anigit").is_some());
    assert!(detect_package_manager("/usr/local/Cellars/anigit").is_none());
    assert!(detect_package_manager("/usr/local/MyCellar/anigit").is_none());
    assert!(detect_package_manager("").is_none());
}

#[test]
fn several_line_endings_are_all_stripped() {
    assert!(is_confirmed("y\n\n"));
    assert!(is_confirmed("y\r\n\r\n"));
    assert!(!is_confirmed("\ny"));
}

#[test]
fn backslash_paths_split_only_where_backslash_separates() {
    let windows_style = "C:\\Homebrew\\Cellar\\anigit\\anigit.exe";
    assert!(package_manager_for(windows_style, true).is_some());
    assert!(package_manager_for(windows_style, false).is_none());
    assert!(package_manager_for("/usr/local/Cellar/anigit", false).is_some());
    assert!(package_manager_for("C:\\Users\\me\\CellarDoor\\anigit.exe", true).is_none());
}
