use which::search::{format_path_output, join_path_str, search_dirs_of, search_plan, select_results, should_skip_directory};
use which::{check_option, which_all_fs, which_fs, HostEntry, NativeFileSystem, Options, VirtualFileSystem, WhichError};

#[test]
fn test_check_option() {
    let mut options = Options::new();
    options.insert("all".to_string(), true);

    assert!(check_option(&options, vec!["all", "-a"], true));
    assert!(!check_option(&options, vec!["all", "-a"], false));
    assert!(!check_option(&options, vec!["other"], true));
}

#[test]
fn test_virtual_filesystem_which() {
    let mut vfs = VirtualFileSystem::new();
    vfs.add_files(vec![
        ("/usr/bin/ls", true),
        ("/usr/bin/cat", true),
        ("/usr/bin/not-executable", false),
    ]);

    let options = Options::new();
    let path_var = "/usr/bin";

    let result = which_fs("ls", &options, &vfs, path_var);
    assert!(result.is_ok());
    let path = result.unwrap();
    assert!(path.contains("ls"));
}

#[test]
fn test_virtual_filesystem_which_all() {
    let mut vfs = VirtualFileSystem::new();
    vfs.add_files(vec![("/usr/bin/test", true), ("/bin/test", true)]);

    let mut options = Options::new();
    options.insert("all".to_string(), true);
    let path_var = "/usr/bin:/bin";

    let result = which_all_fs("test", &options, &vfs, path_var);
    assert!(result.is_ok());
    let paths = result.unwrap();
    assert_eq!(paths.len(), 2);
}

#[test]
fn test_virtual_filesystem_non_executable() {
    let mut vfs = VirtualFileSystem::new();
    vfs.add_file("/usr/bin/not-exec", false);

    let options = Options::new();
    let path_var = "/usr/bin";

    let result = which_fs("not-exec", &options, &vfs, path_var);
    assert!(result.is_err());
}

#[test]
fn test_virtual_filesystem_with_path() {
    let mut vfs = VirtualFileSystem::new();
    vfs.add_file("/usr/bin/ls", true);

    let options = Options::new();
    let path_var = "/usr/bin";

    let result = which_all_fs("/usr/bin/ls", &options, &vfs, path_var);
    assert!(result.is_ok());
}

#[test]
fn test_concurrent_need_all_false_consistency() {
    let mut vfs = VirtualFileSystem::new();
    vfs.add_files(vec![
        ("/bin/app", true),
        ("/usr/bin/app", true),
        ("/usr/local/bin/app", true),
        ("/opt/bin/app", true),
    ]);

    let options = Options::new();
    let path_var = "/usr/bin:/bin:/usr/local/bin:/opt/bin";

    let mut first_result: Option<String> = None;
    for _ in 0..100 {
        let result = which_all_fs("app", &options, &vfs, path_var);
        assert!(result.is_ok());
        let paths = result.unwrap();
        assert_eq!(paths.len(), 1, "should return exactly one path");

        let path_str = paths[0].clone();

        if let Some(ref first) = first_result {
            assert_eq!(path_str, *first, "concurrent results should be consistent");
        } else {
            first_result = Some(path_str);
        }
    }

    assert_eq!(first_result.unwrap(), "/usr/bin/app");
}

#[test]
fn test_concurrent_need_all_true_consistency() {
    let mut vfs = VirtualFileSystem::new();
    vfs.add_files(vec![
        ("/bin/app", true),
        ("/usr/bin/app", true),
        ("/usr/local/bin/app", true),
        ("/opt/bin/app", true),
    ]);

    let mut options = Options::new();
    options.insert("all".to_string(), true);
    let path_var = "/usr/bin:/bin:/usr/local/bin:/opt/bin";

    let mut first_result: Option<Vec<String>> = None;
    for _ in 0..100 {
        let result = which_all_fs("app", &options, &vfs, path_var);
        assert!(result.is_ok());
        let paths = result.unwrap();
        assert_eq!(paths.len(), 4, "should return all 4 paths");

        if let Some(ref first) = first_result {
            assert_eq!(paths, *first, "consecutive results should be consistent");
        } else {
            first_result = Some(paths);
        }
    }

    let expected_paths = vec!["/usr/bin/app", "/bin/app", "/usr/local/bin/app", "/opt/bin/app"];
    assert_eq!(first_result.unwrap(), expected_paths);
}

#[test]
fn test_concurrent_complex_scenario() {
    let mut vfs = VirtualFileSystem::new();
    vfs.add_files(vec![
        ("/bin/tool1", true),
        ("/bin/tool2", true),
        ("/usr/bin/tool1", true),
        ("/usr/bin/tool3", true),
        ("/usr/local/bin/tool2", true),
        ("/usr/local/bin/tool4", true),
    ]);

    let path_var = "/usr/bin:/bin:/usr/local/bin:/opt/bin";

    let options_no_all = Options::new();
    let mut first_result_tool1: Option<String> = None;
    for _ in 0..50 {
        let result = which_all_fs("tool1", &options_no_all, &vfs, path_var);
        assert!(result.is_ok());
        let paths = result.unwrap();
        assert_eq!(paths.len(), 1);
        let path_str = paths[0].clone();

        if let Some(ref first) = first_result_tool1 {
            assert_eq!(path_str, *first);
        } else {
            first_result_tool1 = Some(path_str);
        }
    }
    assert_eq!(first_result_tool1.unwrap(), "/usr/bin/tool1");

    let mut options_all = Options::new();
    options_all.insert("all".to_string(), true);
    let mut first_result_all: Option<Vec<String>> = None;
    for _ in 0..50 {
        let result = which_all_fs("tool1", &options_all, &vfs, path_var);
        assert!(result.is_ok());
        let paths = result.unwrap();
        assert_eq!(paths.len(), 2);

        if let Some(ref first) = first_result_all {
            assert_eq!(paths, *first);
        } else {
            first_result_all = Some(paths);
        }
    }
    assert_eq!(first_result_all.unwrap(), vec!["/usr/bin/tool1", "/bin/tool1"]);
}

#[test]
fn test_concurrent_performance() {
    let mut vfs = VirtualFileSystem::new();

    for i in 0..100 {
        let dir = format!("/usr/local/bin{:02}", i);
        vfs.add_file(&format!("{}/app", dir), true);
    }

    let mut path_dirs = Vec::new();
    for i in 0..100 {
        path_dirs.push(format!("/usr/local/bin{:02}", i));
    }
    let path_var = path_dirs.join(":");

    let options = Options::new();

    for _ in 0..10 {
        let result = which_all_fs("app", &options, &vfs, &path_var);
        assert!(result.is_ok());
    }

    for _ in 0..10 {
        let result = which_all_fs("app", &options, &vfs, &path_var);
        assert!(result.is_ok());
        let paths = result.unwrap();
        assert_eq!(paths.len(), 1);
        assert_eq!(paths[0], "/usr/local/bin00/app");
    }
}

#[test]
fn test_skip_dot_option() {
    let mut vfs = VirtualFileSystem::new();
    let mut options = Options::new();
    options.insert("skip_dot".to_string(), true);

    vfs.add_files(vec![
        ("/usr/bin/mycmd", true),
        ("/opt/bin/mycmd", true),
        ("/home/user/.local/bin/mycmd", true),
    ]);

    let all_paths = vfs.get_all_paths();
    println!("All paths in VFS: {:?}", all_paths);

    let path_var = "/usr/bin:/home/user/.local/bin:/opt/bin";

    options.insert("all".to_string(), true);
    let result = which_all_fs("mycmd", &options, &vfs, path_var);

    if let Err(e) = &result {
        println!("Error: {:?}", e);
    }

    assert!(result.is_ok());
    let paths = result.unwrap();
    println!("Found paths: {:?}", paths);
    assert!(!paths.iter().any(|p| p.contains(".local")));
    assert_eq!(paths.len(), 2);
}

#[test]
fn test_skip_tilde_option() {
    let mut vfs = VirtualFileSystem::new();
    let mut options = Options::new();
    options.insert("skip_tilde".to_string(), true);

    vfs.add_files(vec![
        ("/usr/bin/mycmd", true),
        ("/opt/bin/mycmd", true),
        ("/home/user/bin/mycmd", true),
        ("~/bin/mycmd", true),
    ]);

    let all_paths = vfs.get_all_paths();
    println!("All paths in VFS: {:?}", all_paths);

    let path_var = "/usr/bin:/home/user/bin:~/bin:/opt/bin";

    options.insert("all".to_string(), true);
    let result = which_all_fs("mycmd", &options, &vfs, path_var);

    if let Err(e) = &result {
        println!("Error: {:?}", e);
    }

    assert!(result.is_ok());
    let paths = result.unwrap();
    println!("Found paths: {:?}", paths);
    assert!(paths.iter().any(|p| !p.contains("~")));
}

#[test]
fn test_should_skip_directory() {
    let mut options = Options::new();

    options.insert("skip_dot".to_string(), true);
    assert!(should_skip_directory(".local/bin", &options));
    assert!(should_skip_directory("/home/.local/bin", &options));
    assert!(!should_skip_directory("/usr/bin", &options));

    options.clear();
    options.insert("skip_tilde".to_string(), true);
    assert!(should_skip_directory("~/.local/bin", &options));
    assert!(should_skip_directory("~/bin", &options));
    assert!(!should_skip_directory("/usr/bin", &options));

    options.insert("skip_dot".to_string(), true);
    assert!(should_skip_directory("~/bin", &options));
    assert!(should_skip_directory(".local/bin", &options));
}

#[test]
fn test_format_path_output() {
    let mut options = Options::new();

    let path = "/usr/bin/ls";
    let result = format_path_output(path, &options);
    assert_eq!(result, "/usr/bin/ls");

    options.insert("show_dot".to_string(), true);
    let result = format_path_output(path, &options);
    assert_eq!(result, "/usr/bin/ls");

    options.set_home(Some("/home/user".to_string()));
    options.clear();
    options.insert("show_tilde".to_string(), true);
    let path = "/home/user/bin/ls";
    let result = format_path_output(path, &options);
    assert_eq!(result, "~/bin/ls");

    let path = "/home/user";
    let result = format_path_output(path, &options);
    assert_eq!(result, "~");
}

#[test]
fn test_regex_option() {
    // The host as a search of /usr/bin and /bin sees it: `rlink` is a link
    // to /usr/bin/ls, `rdoc` is not executable.
    let mut fs = NativeFileSystem::new();
    fs.record_listing(
        "/usr/bin".to_string(),
        vec!["rm".to_string(), "ls".to_string(), "rlink".to_string(), "rdoc".to_string()],
    );
    fs.record_listing("/bin".to_string(), vec!["cat".to_string(), "rmdir".to_string()]);
    for (path, exec, canonical) in [
        ("/usr/bin/rm", true, "/usr/bin/rm"),
        ("/usr/bin/ls", true, "/usr/bin/ls"),
        ("/usr/bin/rlink", true, "/usr/bin/ls"),
        ("/usr/bin/rdoc", false, "/usr/bin/rdoc"),
        ("/bin/cat", true, "/bin/cat"),
        ("/bin/rmdir", true, "/bin/rmdir"),
    ] {
        fs.record_entry(
            path.to_string(),
            HostEntry { present: true, is_file: true, is_executable: exec, canonical: Ok(canonical.to_string()) },
        );
    }
    let mut options = Options::new();
    options.insert("regex".to_string(), true);
    options.insert("all".to_string(), true);

    let path_var = "/usr/bin:/bin";

    let result = which_all_fs("^r", &options, &fs, path_var);
    if result.is_ok() {
        let paths = result.unwrap();
        println!("Found {} commands matching '^r'", paths.len());
        for path in &paths {
            let file_name = path.rsplit('/').next().unwrap();
            assert!(file_name.starts_with('r') || file_name.starts_with('R'));
        }
    } else {
        assert!(result.unwrap_err().message().contains("not found"));
    }
}

#[test]
fn regex_reports_matching_entries_by_their_own_path() {
    let mut fs = NativeFileSystem::new();
    fs.record_listing(
        "/usr/bin".to_string(),
        vec!["rm".to_string(), "ls".to_string(), "rlink".to_string(), "rdoc".to_string()],
    );
    fs.record_listing("/bin".to_string(), vec!["cat".to_string(), "rmdir".to_string()]);
    for (path, exec, canonical) in [
        ("/usr/bin/rm", true, "/usr/bin/rm"),
        ("/usr/bin/ls", true, "/usr/bin/ls"),
        ("/usr/bin/rlink", true, "/usr/bin/ls"),
        ("/usr/bin/rdoc", false, "/usr/bin/rdoc"),
        ("/bin/cat", true, "/bin/cat"),
        ("/bin/rmdir", true, "/bin/rmdir"),
    ] {
        fs.record_entry(
            path.to_string(),
            HostEntry { present: true, is_file: true, is_executable: exec, canonical: Ok(canonical.to_string()) },
        );
    }
    let mut options = Options::new();
    options.insert("regex".to_string(), true);
    options.insert("all".to_string(), true);
    assert_eq!(
        which_all_fs("^r", &options, &fs, "/usr/bin:/bin").unwrap(),
        vec!["/usr/bin/rm".to_string(), "/usr/bin/rlink".to_string(), "/bin/rmdir".to_string()]
    );
    options.insert("all".to_string(), false);
    assert_eq!(which_all_fs("^r", &options, &fs, "/usr/bin:/bin").unwrap(), vec!["/usr/bin/rm".to_string()]);
    assert_eq!(
        which_all_fs("^zz", &options, &fs, "/usr/bin:/bin").unwrap_err().message(),
        "^zz not found"
    );
}

#[test]
fn windows_search_tries_each_extension_in_order() {
    let mut vfs = VirtualFileSystem::new();
    vfs.add_files(vec![
        ("/win/tools/python.EXE", true),
        ("/win/tools/python.COM", true),
        ("/win/bin/python.BAT", true),
        ("/win/bin/python", true),
    ]);
    let mut options = Options::new();
    options.set_path_separator(';');
    options.set_extensions(Some(vec![".COM".to_string(), ".EXE".to_string(), ".BAT".to_string()]));
    assert_eq!(options.path_separator(), ';');
    assert_eq!(options.extensions().unwrap().len(), 3);
    let path_var = "/nowhere;/win/tools;/win/bin";

    assert_eq!(which_all_fs("python", &options, &vfs, path_var).unwrap(), vec!["/win/tools/python.COM".to_string()]);
    options.insert("all".to_string(), true);
    assert_eq!(
        which_all_fs("python", &options, &vfs, path_var).unwrap(),
        vec![
            "/win/tools/python.COM".to_string(),
            "/win/tools/python.EXE".to_string(),
            "/win/bin/python.BAT".to_string(),
        ]
    );
    // `:` does not separate entries here.
    assert!(which_all_fs("python", &options, &vfs, "/win/tools:/win/bin").is_err());

    let plan = search_plan("python", &options, "/a;/b");
    assert_eq!(
        plan.paths,
        vec![
            "/a/python.COM".to_string(),
            "/a/python.EXE".to_string(),
            "/a/python.BAT".to_string(),
            "/b/python.COM".to_string(),
            "/b/python.EXE".to_string(),
            "/b/python.BAT".to_string(),
        ]
    );
    assert_eq!(search_dirs_of("/a;;/b:/c", &options), vec!["/a".to_string(), "/b:/c".to_string()]);
}

#[test]
fn dropping_skipped_and_empty_entries_changes_nothing() {
    let mut vfs = VirtualFileSystem::new();
    vfs.add_files(vec![("/usr/bin/app", true), ("./bin/app", true), ("/bin/app", true)]);
    let mut options = Options::new();
    options.insert("all".to_string(), true);
    options.insert("skip_dot".to_string(), true);
    let full = which_all_fs("app", &options, &vfs, ":./bin::/usr/bin:/x/.hidden:/bin:").unwrap();
    let filtered = which_all_fs("app", &options, &vfs, "/usr/bin:/bin").unwrap();
    assert_eq!(full, filtered);
    assert_eq!(full, vec!["/usr/bin/app".to_string(), "/bin/app".to_string()]);
}

#[test]
fn test_regex_invalid_pattern() {
    let fs = NativeFileSystem::new();
    let mut options = Options::new();
    options.insert("regex".to_string(), true);

    let path_var = "/usr/bin:/bin";

    let result = which_all_fs("[invalid", &options, &fs, path_var);
    assert!(result.is_err());
    assert!(result.unwrap_err().message().contains("Invalid regex pattern"));
}

#[test]
fn test_check_option_with_multiple_keys() {
    let mut options = Options::new();
    options.insert("all".to_string(), true);

    assert!(check_option(&options, vec!["all", "-a"], true));
    assert!(!check_option(&options, vec!["all", "-a"], false));

    assert!(!check_option(&options, vec!["nonexistent"], true));
}

#[test]
fn empty_command_is_not_found() {
    let mut vfs = VirtualFileSystem::new();
    vfs.add_file("/usr/bin/ls", true);
    let options = Options::new();
    let result = which_all_fs("", &options, &vfs, "/usr/bin:/bin");
    assert!(result.is_err());
}

#[test]
fn unknown_command_is_not_found() {
    let mut vfs = VirtualFileSystem::new();
    vfs.add_file("/usr/bin/ls", true);
    let options = Options::new();
    let result = which_all_fs("nonexistent_command_xyz123", &options, &vfs, "/usr/bin:/bin");
    assert_eq!(result.unwrap_err().message(), "nonexistent_command_xyz123 not found");
}

#[test]
fn check_option_first_present_key_decides() {
    let mut options = Options::new();
    options.insert("-a".to_string(), true);
    options.insert("all".to_string(), false);
    assert!(!check_option(&options, vec!["all", "-a"], true));
    assert!(check_option(&options, vec!["all", "-a"], false));
    assert!(check_option(&options, vec!["-a", "all"], true));
    assert!(!check_option(&options, vec![], true));
}

#[test]
fn dash_a_asks_for_every_match() {
    let mut vfs = VirtualFileSystem::new();
    vfs.add_files(vec![("/a/x", true), ("/b/x", true)]);
    let mut options = Options::new();
    options.insert("-a".to_string(), true);
    assert_eq!(which_all_fs("x", &options, &vfs, "/a:/b").unwrap(), vec!["/a/x", "/b/x"]);
}

#[test]
fn first_match_is_the_first_of_all_matches() {
    let mut vfs = VirtualFileSystem::new();
    vfs.add_files(vec![("/c/x", true), ("/b/x", false), ("/a/x", true)]);
    let path_var = "/b:/a:/c";
    let one = which_all_fs("x", &Options::new(), &vfs, path_var).unwrap();
    let mut all = Options::new();
    all.insert("all".to_string(), true);
    let every = which_all_fs("x", &all, &vfs, path_var).unwrap();
    assert_eq!(every, vec!["/a/x", "/c/x"]);
    assert_eq!(one, vec![every[0].clone()]);
    assert_eq!(which_fs("x", &Options::new(), &vfs, path_var).unwrap(), "/a/x");
}

#[test]
fn repeated_directories_give_one_path() {
    let mut vfs = VirtualFileSystem::new();
    vfs.add_file("/a/x", true);
    let mut all = Options::new();
    all.insert("all".to_string(), true);
    let every = which_all_fs("x", &all, &vfs, "/a:/a/:/b:/a").unwrap();
    assert_eq!(every, vec!["/a/x"]);
}

#[test]
fn command_with_separator_is_checked_directly() {
    let mut vfs = VirtualFileSystem::new();
    vfs.add_files(vec![("/usr/bin/ls", true), ("/usr/bin/notes", false)]);
    let options = Options::new();
    assert_eq!(which_all_fs("/usr/bin/ls", &options, &vfs, "").unwrap(), vec!["/usr/bin/ls"]);
    let missing = which_all_fs("/usr/bin/cat", &options, &vfs, "/usr/bin").unwrap_err();
    assert_eq!(missing.message(), "/usr/bin/cat not found");
    let plain = which_all_fs("/usr/bin/notes", &options, &vfs, "/usr/bin").unwrap_err();
    assert_eq!(plain.message(), "/usr/bin/notes is not executable");
    assert!(matches!(plain, WhichError::NotExecutable(_)));
    vfs.set_current_dir("/usr");
    assert_eq!(which_all_fs("bin\\ls", &options, &vfs, "").unwrap(), vec!["/usr/bin/ls"]);
}

#[test]
fn direct_check_keeps_the_path_unformatted() {
    let mut vfs = VirtualFileSystem::new();
    vfs.add_file("/home/me/bin/tool", true);
    let mut options = Options::new();
    options.set_home(Some("/home/me".to_string()));
    options.insert("show_tilde".to_string(), true);
    assert_eq!(which_all_fs("/home/me/bin/tool", &options, &vfs, "").unwrap(), vec!["/home/me/bin/tool"]);
    assert_eq!(which_all_fs("tool", &options, &vfs, "/home/me/bin").unwrap(), vec!["~/bin/tool"]);
}

#[test]
fn relative_search_path_entries_use_the_current_directory() {
    let mut vfs = VirtualFileSystem::new();
    vfs.set_current_dir("/home/user");
    vfs.add_file("/home/user/myscript", true);
    // "./myscript" resolves to "/home/user/./myscript", which is not the added path.
    assert!(which_fs("myscript", &Options::new(), &vfs, ".").is_err());
    assert_eq!(which_fs("myscript", &Options::new(), &vfs, "/home/user").unwrap(), "/home/user/myscript");
}

#[test]
fn regex_search_over_virtual_directories() {
    let mut vfs = VirtualFileSystem::new();
    vfs.add_files(vec![
        ("/usr/bin/python3", true),
        ("/usr/bin/perl", true),
        ("/usr/bin/pydoc", false),
        ("/bin/python3", true),
        ("/bin/ls", true),
    ]);
    let mut options = Options::new();
    options.insert("regex".to_string(), true);
    options.insert("all".to_string(), true);
    assert_eq!(which_all_fs("^py", &options, &vfs, "/usr/bin:/bin").unwrap(), vec!["/usr/bin/python3", "/bin/python3"]);
    let mut first = Options::new();
    first.insert("regex".to_string(), true);
    assert_eq!(which_all_fs("^p", &first, &vfs, "/usr/bin:/bin").unwrap(), vec!["/usr/bin/python3"]);
    let err = which_all_fs("(", &first, &vfs, "/usr/bin").unwrap_err();
    assert!(err.message().starts_with("Invalid regex pattern '(': "));
}

#[test]
fn skip_switches_trim_and_look_after_separators() {
    let mut options = Options::new();
    options.insert("skip_dot".to_string(), true);
    assert!(should_skip_directory("  .cargo/bin", &options));
    assert!(should_skip_directory("C:\\Users\\.tools", &options));
    assert!(!should_skip_directory("/usr/bin.d", &options));
    options.insert("skip_dot".to_string(), false);
    assert!(!should_skip_directory(".local/bin", &options));
    options.insert("skip_tilde".to_string(), true);
    assert!(should_skip_directory("/x/~y", &options));
    assert!(should_skip_directory("a\\~b", &options));
    assert!(!should_skip_directory("/x~y", &options));
}

#[test]
fn show_tilde_needs_a_separator_after_home() {
    let mut options = Options::new();
    options.insert("show_tilde".to_string(), true);
    assert_eq!(format_path_output("/home/user/bin/ls", &options), "/home/user/bin/ls");
    options.set_home(Some("/home/user".to_string()));
    assert_eq!(format_path_output("/home/username/ls", &options), "/home/username/ls");
    assert_eq!(format_path_output("/opt/ls", &options), "/opt/ls");
    options.insert("show_dot".to_string(), true);
    assert_eq!(format_path_output("/home/user/ls", &options), "/home/user/ls");
}

#[test]
fn joining_paths() {
    assert_eq!(join_path_str("/usr/bin", "ls"), "/usr/bin/ls");
    assert_eq!(join_path_str("/usr/bin/", "ls"), "/usr/bin/ls");
    assert_eq!(join_path_str("/usr/bin", "/ls"), "/ls");
    assert_eq!(join_path_str("", "ls"), "ls");
    assert_eq!(join_path_str("/usr/bin", ""), "/usr/bin/");
}

#[test]
fn search_directories_in_order() {
    let mut options = Options::new();
    options.insert("skip_dot".to_string(), true);
    assert_eq!(
        search_dirs_of("/usr/bin::.hidden: /opt/bin :/bin", &options),
        vec!["/usr/bin", " /opt/bin ", "/bin"]
    );
}

#[test]
fn selecting_results_from_hits() {
    let hits = vec!["/b/x".to_string(), "/a/x".to_string(), "/b/x".to_string()];
    let mut all = Options::new();
    all.insert("all".to_string(), true);
    assert_eq!(select_results("x", &hits, &all).unwrap(), vec!["/b/x", "/a/x"]);
    assert_eq!(select_results("x", &hits, &Options::new()).unwrap(), vec!["/b/x"]);
    let none: Vec<String> = Vec::new();
    assert_eq!(select_results("x", &none, &all).unwrap_err().message(), "x not found");
}

#[test]
fn options_read_back_what_was_set() {
    let mut options = Options::new();
    assert_eq!(options.get("all"), None);
    options.insert("all".to_string(), true);
    assert_eq!(options.get("all"), Some(true));
    options.insert("all".to_string(), false);
    assert_eq!(options.get("all"), Some(false));
    options.set_home(Some("/root".to_string()));
    options.clear();
    assert_eq!(options.get("all"), None);
    assert_eq!(options.home(), Some("/root"));
}

#[test]
fn native_records_drive_a_search() {
    let mut fs = NativeFileSystem::new();
    fs.record_entry(
        "/usr/local/bin/python".to_string(),
        which::HostEntry { present: true, is_file: true, is_executable: true, canonical: Ok("/opt/py/bin/python".to_string()) },
    );
    fs.record_entry(
        "/usr/bin/python".to_string(),
        which::HostEntry { present: true, is_file: true, is_executable: false, canonical: Ok("/usr/bin/python".to_string()) },
    );
    let mut all = Options::new();
    all.insert("all".to_string(), true);
    assert_eq!(which_all_fs("python", &all, &fs, "/usr/bin:/usr/local/bin").unwrap(), vec!["/opt/py/bin/python"]);
}

#[test]
fn canonicalization_failure_is_reported() {
    let mut fs = NativeFileSystem::new();
    fs.record_entry(
        "./tool".to_string(),
        which::HostEntry { present: true, is_file: true, is_executable: true, canonical: Err("permission denied".to_string()) },
    );
    let err = which_all_fs("./tool", &Options::new(), &fs, "").unwrap_err();
    assert!(matches!(err, WhichError::Fs(_)));
    assert_eq!(err.message(), "permission denied");
    // In a search along the path, such a file is passed over.
    fs.record_entry(
        "/bin/tool".to_string(),
        which::HostEntry { present: true, is_file: true, is_executable: true, canonical: Err("permission denied".to_string()) },
    );
    assert_eq!(which_all_fs("tool", &Options::new(), &fs, "/bin").unwrap_err().message(), "tool not found");
}

#[test]
fn plan_names_what_a_search_reads() {
    let mut options = Options::new();
    let plan = search_plan("ls", &options, "/usr/bin::/bin/");
    assert_eq!(plan.paths, vec!["/usr/bin/ls", "/bin/ls"]);
    assert!(plan.dirs.is_empty());
    let direct = search_plan("./ls", &options, "/usr/bin");
    assert_eq!(direct.paths, vec!["./ls"]);
    assert!(direct.dirs.is_empty());
    options.insert("regex".to_string(), true);
    let listed = search_plan("^l", &options, "/usr/bin:/bin");
    assert!(listed.paths.is_empty());
    assert_eq!(listed.dirs, vec!["/usr/bin", "/bin"]);
}
