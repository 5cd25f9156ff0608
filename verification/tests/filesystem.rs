use std::path::Path;
use which::{
    executable_extensions, mode_is_executable, FileSystem, HostEntry, NativeFileSystem, VirtualFileSystem,
    WasmFileSystem,
};

#[test]
fn test_virtual_filesystem_add_file() {
    let mut vfs = VirtualFileSystem::new();
    vfs.add_file("/usr/bin/test", true);

    assert!(vfs.path_exists("/usr/bin/test"));
    assert!(vfs.is_file("/usr/bin/test"));
    assert!(vfs.is_executable("/usr/bin/test"));
}

#[test]
fn test_virtual_filesystem_add_files() {
    let mut vfs = VirtualFileSystem::new();
    vfs.add_files(vec![("/bin/ls", true), ("/bin/cat", true), ("/bin/sh", true)]);

    assert!(vfs.path_exists("/bin/ls"));
    assert!(vfs.path_exists("/bin/cat"));
    assert!(vfs.path_exists("/bin/sh"));
}

#[test]
fn test_virtual_filesystem_nonexistent() {
    let vfs = VirtualFileSystem::new();
    assert!(!vfs.path_exists("/nonexistent"));
}

#[test]
fn test_virtual_filesystem_canonicalize() {
    let mut vfs = VirtualFileSystem::new();
    vfs.add_file("/usr/bin/test", true);

    let result = vfs.canonicalize("/usr/bin/test");
    assert!(result.is_ok());
    assert_eq!(result.unwrap(), "/usr/bin/test".to_string());
}

#[test]
fn test_virtual_filesystem_relative_path() {
    let mut vfs = VirtualFileSystem::new();
    vfs.set_current_dir("/home/user");
    vfs.add_file("/home/user/script.sh", true);

    assert!(vfs.path_exists("script.sh"));
    assert!(vfs.is_executable("script.sh"));
}

#[test]
fn test_native_filesystem() {
    let mut fs = NativeFileSystem::new();
    let host = Path::new("/bin");
    fs.record_entry(
        "/bin".to_string(),
        HostEntry {
            present: host.exists(),
            is_file: host.is_file(),
            is_executable: false,
            canonical: Err("not asked".to_string()),
        },
    );
    if host.exists() {
        assert!(fs.path_exists("/bin"));
    }
}

#[test]
fn virtual_filesystem_updates_an_added_file() {
    let mut vfs = VirtualFileSystem::new();
    vfs.add_file("/usr/bin/tool", true);
    vfs.add_file("/usr/bin/tool", false);
    assert!(vfs.is_file("/usr/bin/tool"));
    assert!(!vfs.is_executable("/usr/bin/tool"));
    assert_eq!(vfs.get_all_paths(), vec!["/usr/bin/tool".to_string()]);
}

#[test]
fn virtual_filesystem_reads_back_slashes_as_slashes() {
    let mut vfs = VirtualFileSystem::new();
    vfs.add_file("\\opt\\bin\\tool", true);
    assert!(vfs.path_exists("/opt/bin/tool"));
    // Not absolute, so resolved from "/": the same file.
    assert!(vfs.path_exists("\\opt\\bin\\tool"));
    vfs.set_current_dir("\\opt\\bin\\");
    assert!(vfs.path_exists("tool"));
    assert_eq!(vfs.canonicalize("tool").unwrap(), "/opt/bin/tool".to_string());
}

#[test]
fn virtual_filesystem_metadata() {
    let mut vfs = VirtualFileSystem::new();
    vfs.add_file("/bin/a", true);
    vfs.add_file("/bin/b", false);
    let a = vfs.metadata("/bin/a").unwrap();
    assert!(a.is_file && a.is_executable);
    let b = vfs.metadata("/bin/b").unwrap();
    assert!(b.is_file && !b.is_executable);
    let missing = vfs.metadata("/bin/c");
    assert_eq!(missing.unwrap_err().message, "File not found".to_string());
}

#[test]
fn virtual_filesystem_lists_a_directory() {
    let mut vfs = VirtualFileSystem::new();
    vfs.add_files(vec![
        ("/usr/bin/ls", true),
        ("/usr/bin/sub/x", true),
        ("/usr/binary", true),
        ("/usr/bin/cat", false),
    ]);
    assert_eq!(vfs.read_dir("/usr/bin").unwrap(), vec!["ls".to_string(), "cat".to_string()]);
    assert_eq!(vfs.read_dir("/usr/bin/").unwrap(), vec!["ls".to_string(), "cat".to_string()]);
    assert_eq!(vfs.read_dir("/nowhere").unwrap(), Vec::<String>::new());
}

#[test]
fn native_filesystem_answers_from_records() {
    let mut fs = NativeFileSystem::new();
    fs.record_entry(
        "/usr/bin/python".to_string(),
        HostEntry {
            present: true,
            is_file: true,
            is_executable: true,
            canonical: Ok("/usr/bin/python3.12".to_string()),
        },
    );
    fs.record_listing("/usr/bin".to_string(), vec!["python".to_string()]);
    assert!(fs.path_exists("/usr/bin/python"));
    assert!(fs.is_executable("/usr/bin/python"));
    assert_eq!(fs.canonicalize("/usr/bin/python").unwrap(), "/usr/bin/python3.12".to_string());
    assert!(!fs.path_exists("/usr/bin/ruby"));
    assert_eq!(
        fs.canonicalize("/usr/bin/ruby").unwrap_err().message,
        "No such file or directory".to_string()
    );
    let m = fs.metadata("/usr/bin/ruby").unwrap();
    assert!(!m.is_file && !m.is_executable);
    assert_eq!(fs.read_dir("/usr/bin").unwrap(), vec!["python".to_string()]);
    assert!(fs.read_dir("/bin").is_none());
}

#[test]
fn wasm_filesystem_is_empty() {
    let fs = WasmFileSystem::new();
    assert!(!fs.path_exists("/bin/ls"));
    assert!(!fs.is_file("/bin/ls"));
    assert!(!fs.is_executable("/bin/ls"));
    assert_eq!(fs.canonicalize("a/b").unwrap(), "a/b".to_string());
    let m = fs.metadata("/bin/ls").unwrap();
    assert!(!m.is_file && !m.is_executable);
    assert!(fs.read_dir("/bin").is_none());
}

#[test]
fn defaults_are_empty() {
    let vfs = VirtualFileSystem::default();
    assert!(vfs.get_all_paths().is_empty());
    assert_eq!(vfs.canonicalize("x").unwrap(), "/x".to_string());
    let native = NativeFileSystem::default();
    assert!(!native.path_exists("/bin"));
    let wasm = WasmFileSystem::default();
    assert!(!wasm.path_exists("/bin"));
}

#[test]
fn executable_extensions_are_split_and_upper_cased() {
    assert_eq!(executable_extensions(Some(".exe;.Bat;.cmd")), vec![".EXE", ".BAT", ".CMD"]);
    assert_eq!(executable_extensions(Some("")), vec![""]);
    assert_eq!(
        executable_extensions(None),
        vec![".COM", ".EXE", ".BAT", ".CMD", ".VBS", ".VBE", ".JS", ".JSE", ".WSF", ".WSH", ".MSC"]
    );
}

#[test]
fn execute_bits_decide_executability() {
    assert!(mode_is_executable(0o100755));
    assert!(mode_is_executable(0o100001));
    assert!(mode_is_executable(0o010));
    assert!(!mode_is_executable(0o100644));
    assert!(!mode_is_executable(0));
}
