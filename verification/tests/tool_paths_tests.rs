use scrcpy_gui::tool_paths::{
    command_program, is_blank_str, launch_spec, normalize_path, LaunchSpec, Tool, ToolPaths,
};

#[test]
fn tools_have_names_keys_and_file_names() {
    assert_eq!(Tool::Adb.name(), "adb");
    assert_eq!(Tool::Scrcpy.name(), "scrcpy");
    assert_eq!(Tool::Adb.env_key(), "ADB_PATH");
    assert_eq!(Tool::Scrcpy.env_key(), "SCRCPY_PATH");
    assert_eq!(Tool::Adb.env_key(), format!("{}_PATH", "adb".to_uppercase()));
    assert_eq!(Tool::Scrcpy.env_key(), format!("{}_PATH", "scrcpy".to_uppercase()));
    assert_eq!(Tool::Adb.file_name(false), "adb");
    assert_eq!(Tool::Adb.file_name(true), "adb.exe");
    assert_eq!(Tool::Scrcpy.file_name(false), "scrcpy");
    assert_eq!(Tool::Scrcpy.file_name(true), "scrcpy.exe");
}

#[test]
fn paths_are_trimmed_and_blank_ones_dropped() {
    assert_eq!(normalize_path(None), None);
    assert_eq!(normalize_path(Some("")), None);
    assert_eq!(normalize_path(Some(" \t\n")), None);
    assert_eq!(normalize_path(Some("  /usr/bin/adb \n")), Some("/usr/bin/adb".to_string()));
    assert_eq!(normalize_path(Some("C:\\Program Files\\adb.exe")), Some("C:\\Program Files\\adb.exe".to_string()));
}

#[test]
fn blank_means_white_space_only() {
    assert!(is_blank_str(""));
    assert!(is_blank_str(" \u{a0}\t"));
    assert!(!is_blank_str(" a "));
}

#[test]
fn configured_program_wins_unless_blank() {
    assert_eq!(command_program(Tool::Scrcpy, None, false), "scrcpy");
    assert_eq!(command_program(Tool::Scrcpy, None, true), "scrcpy.exe");
    assert_eq!(command_program(Tool::Adb, Some("   "), false), "adb");
    assert_eq!(command_program(Tool::Adb, Some(""), true), "adb.exe");
    assert_eq!(command_program(Tool::Adb, Some(" /opt/adb "), true), " /opt/adb ");
    assert_eq!(command_program(Tool::Scrcpy, Some("/opt/scrcpy"), false), "/opt/scrcpy");
}

#[test]
fn setting_a_path_normalizes_it() {
    let mut paths = ToolPaths::new();
    assert_eq!(paths, ToolPaths { adb_path: None, scrcpy_path: None });
    paths.set(Tool::Adb, Some(" /a "));
    paths.set(Tool::Scrcpy, Some("/s"));
    assert_eq!(paths.get(Tool::Adb), Some("/a".to_string()));
    assert_eq!(paths.get(Tool::Scrcpy), Some("/s".to_string()));
    paths.set(Tool::Adb, Some("  "));
    assert_eq!(paths.get(Tool::Adb), None);
    assert!(paths.is_missing(Tool::Adb));
    assert!(!paths.is_missing(Tool::Scrcpy));
    paths.set(Tool::Scrcpy, None);
    assert_eq!(paths, ToolPaths::new());
}

#[test]
fn filling_keeps_what_is_known() {
    let mut paths = ToolPaths::new();
    assert_eq!(paths.fill(Tool::Adb, None), None);
    assert_eq!(paths.fill(Tool::Adb, Some("/env/adb".to_string())), Some("/env/adb".to_string()));
    assert_eq!(paths.fill(Tool::Adb, Some("/other".to_string())), Some("/env/adb".to_string()));
    assert_eq!(paths.fill(Tool::Adb, None), Some("/env/adb".to_string()));
    assert_eq!(paths.scrcpy_path, None);
    assert_eq!(paths.fill(Tool::Scrcpy, Some("/s".to_string())), Some("/s".to_string()));
}

#[test]
fn saved_paths_are_adopted_where_none_is_known() {
    let mut paths = ToolPaths::new();
    paths.set(Tool::Adb, Some("/mine"));
    paths.adopt(ToolPaths { adb_path: Some("/saved/adb".to_string()), scrcpy_path: Some("/saved/scrcpy".to_string()) });
    assert_eq!(
        paths,
        ToolPaths { adb_path: Some("/mine".to_string()), scrcpy_path: Some("/saved/scrcpy".to_string()) }
    );
    paths.adopt(ToolPaths::new());
    assert_eq!(paths.get(Tool::Scrcpy), Some("/saved/scrcpy".to_string()));
}

#[test]
fn launch_uses_configured_paths() {
    let args = vec!["-s".to_string(), "dev".to_string()];
    let none = launch_spec(&ToolPaths::new(), args.clone(), false);
    assert_eq!(none, LaunchSpec { program: "scrcpy".to_string(), adb_env: None, args: args.clone() });
    let windows = launch_spec(&ToolPaths::new(), vec![], true);
    assert_eq!(windows, LaunchSpec { program: "scrcpy.exe".to_string(), adb_env: None, args: vec![] });
    let paths = ToolPaths { adb_path: Some("/a/adb".to_string()), scrcpy_path: Some("/s/scrcpy".to_string()) };
    let both = launch_spec(&paths, args.clone(), true);
    assert_eq!(
        both,
        LaunchSpec { program: "/s/scrcpy".to_string(), adb_env: Some("/a/adb".to_string()), args }
    );
    let blank = ToolPaths { adb_path: Some(" ".to_string()), scrcpy_path: Some("".to_string()) };
    let fallback = launch_spec(&blank, vec![], false);
    assert_eq!(fallback, LaunchSpec { program: "scrcpy".to_string(), adb_env: None, args: vec![] });
}

#[test]
fn installed_paths_are_kept_as_they_stand() {
    let mut paths = ToolPaths::new();
    paths.set(Tool::Adb, Some("/old"));
    paths.put(Tool::Adb, " /new path/adb ".to_string());
    paths.put(Tool::Scrcpy, "/new/scrcpy".to_string());
    assert_eq!(
        paths,
        ToolPaths { adb_path: Some(" /new path/adb ".to_string()), scrcpy_path: Some("/new/scrcpy".to_string()) }
    );
}
