use ldraw::paths::{copy_command_lines, normalize_ldraw_path, CopyShell};

#[test]
fn ldraw_paths_split_on_both_separators() {
    assert_eq!(normalize_ldraw_path("s\\3001s01.dat"), vec!["s", "3001s01.dat"]);
    assert_eq!(normalize_ldraw_path("p/48/4-4cyli.dat"), vec!["p", "48", "4-4cyli.dat"]);
    assert_eq!(normalize_ldraw_path("a\\b/c"), vec!["a", "b", "c"]);
}

#[test]
fn empty_path_components_are_dropped() {
    assert_eq!(normalize_ldraw_path("//a\\\\b//"), vec!["a", "b"]);
    assert_eq!(normalize_ldraw_path("3001.dat"), vec!["3001.dat"]);
    assert!(normalize_ldraw_path("").is_empty());
    assert!(normalize_ldraw_path("/\\/").is_empty());
}

#[test]
fn copy_commands_for_unix() {
    let lines = copy_command_lines("s/3001s01.dat", "/old", "/new", CopyShell::Unix);
    assert_eq!(
        lines,
        vec![
            "  # Try these locations:",
            "  cp /old/parts/s/3001s01.dat /new/parts/",
            "  cp /old/parts/s/s/3001s01.dat /new/parts/s/",
            "  cp /old/p/s/3001s01.dat /new/p/",
        ]
    );
}

#[test]
fn copy_commands_for_windows() {
    let lines = copy_command_lines("stud.dat", "C:\\old", "D:\\new", CopyShell::Windows);
    assert_eq!(
        lines,
        vec![
            "  REM Try these locations:",
            "  copy \"C:\\old\\parts\\stud.dat\" \"D:\\new\\parts\\\"",
            "  copy \"C:\\old\\parts\\s\\stud.dat\" \"D:\\new\\parts\\s\\\"",
            "  copy \"C:\\old\\p\\stud.dat\" \"D:\\new\\p\\\"",
        ]
    );
}

#[test]
fn copy_commands_elsewhere_describe_the_copy() {
    let lines = copy_command_lines("stud.dat", "old", "new", CopyShell::Other);
    assert_eq!(
        lines,
        vec!["  # Copy stud.dat from old to new", "  # Check: parts/, parts/s/, or p/ subdirectories"]
    );
}
