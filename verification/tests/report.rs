use std::time::Duration;
use which::report::{
    exit_status, format_duration, format_xml, parse_format, report_outcome, text_lines, Line, OutputFormat, Report,
    VersionInfo, WhichResult,
};
use which::{WhichError, VERSION};

#[test]
fn test_version() {
    assert!(!VERSION.is_empty());
}

#[test]
fn test_version_info_display() {
    let version = VersionInfo::new("which".to_string(), VERSION.to_string(), None, None, None);
    let display = version.display();
    assert!(display.contains("which"));
}

#[test]
fn test_which_result_new() {
    let result = WhichResult::new_with_time(
        "test",
        vec!["/usr/bin/test".to_string(), "/bin/test".to_string()],
        None,
    );
    assert_eq!(result.command, "test");
    assert_eq!(result.paths.len(), 2);
    assert!(result.found);
}

#[test]
fn test_which_result_not_found() {
    let result = WhichResult::new_with_time("nonexistent", vec![], None);
    assert_eq!(result.command, "nonexistent");
    assert_eq!(result.paths.len(), 0);
    assert!(!result.found);
}

#[test]
fn test_format_duration_microseconds() {
    let duration = Duration::from_micros(500);
    let formatted = format_duration(duration.as_micros());
    assert_eq!(formatted, "500μs");
}

#[test]
fn test_format_duration_milliseconds() {
    let duration = Duration::from_millis(500);
    let formatted = format_duration(duration.as_micros());
    assert_eq!(formatted, "500ms");
}

#[test]
fn test_format_duration_seconds() {
    let duration = Duration::from_secs(5);
    let formatted = format_duration(duration.as_micros());
    assert_eq!(formatted, "5s");
}

#[test]
fn test_format_duration_seconds_with_ms() {
    let duration = Duration::from_millis(5500);
    let formatted = format_duration(duration.as_micros());
    assert_eq!(formatted, "5s 500ms");
}

#[test]
fn test_format_duration_minutes() {
    let duration = Duration::from_secs(300);
    let formatted = format_duration(duration.as_micros());
    assert_eq!(formatted, "5min");
}

#[test]
fn test_format_duration_minutes_with_seconds() {
    let duration = Duration::from_secs(330);
    let formatted = format_duration(duration.as_micros());
    assert_eq!(formatted, "5min 30s");
}

#[test]
fn test_format_duration_hours() {
    let duration = Duration::from_secs(7200);
    let formatted = format_duration(duration.as_micros());
    assert_eq!(formatted, "2h");
}

#[test]
fn test_format_duration_hours_with_minutes() {
    let duration = Duration::from_secs(7500);
    let formatted = format_duration(duration.as_micros());
    assert_eq!(formatted, "2h 5min");
}

#[test]
fn test_which_result_with_time() {
    let result = WhichResult::new_with_time("test", vec!["/usr/bin/test".to_string()], Some("10ms".to_string()));
    assert_eq!(result.command, "test");
    assert_eq!(result.paths.len(), 1);
    assert!(result.found);
    assert_eq!(result.elapsed_time, Some("10ms".to_string()));
}

#[test]
fn test_format_xml_simple() {
    let xml = "<WhichResult><command>test</command><found>true</found></WhichResult>";
    let formatted = format_xml(xml, 0);
    assert!(formatted.contains("<command>"));
    assert!(formatted.contains("test"));
    assert!(formatted.contains("</command>"));
}

#[test]
fn format_xml_exact_layout() {
    let xml = "<WhichResult><command>test</command><found>true</found></WhichResult>";
    assert_eq!(
        format_xml(xml, 0),
        "<WhichResult>\n  <command>test</command>\n  <found>true</found>\n</WhichResult>"
    );
    assert_eq!(format_xml("<a/>", 2), "  <a/>");
    assert_eq!(format_xml("<?xml v?><r></r>", 0), "<?xml v?>\n<r></r>");
    assert_eq!(format_xml("", 4), "");
    assert_eq!(format_xml("<a><b>  </b></a>", 2), "  <a>\n    <b></b>\n  </a>");
    assert_eq!(format_xml("<a><b><c>x</c></b><d/></a>", 0), "<a>\n  <b>\n    <c>x</c>\n  </b>\n  <d/>\n</a>");
    assert_eq!(format_xml("<a>lead<b>x</b>tail</a>", 0), "<a>\n  lead\n  <b>x</b>\n  tail\n</a>");
}

#[test]
fn format_xml_matches_documented_output() {
    let xml = "<WhichResult><command>python</command><paths>/usr/bin/python</paths><found>true</found></WhichResult>";
    assert_eq!(
        format_xml(xml, 0),
        "<WhichResult>\n  <command>python</command>\n  <paths>/usr/bin/python</paths>\n  <found>true</found>\n</WhichResult>"
    );
    assert_eq!(
        format_xml(xml, 2),
        "  <WhichResult>\n    <command>python</command>\n    <paths>/usr/bin/python</paths>\n    <found>true</found>\n  </WhichResult>"
    );
}

#[test]
fn format_duration_edges() {
    assert_eq!(format_duration(0), "0μs");
    assert_eq!(format_duration(999), "999μs");
    assert_eq!(format_duration(1_000), "1ms");
    assert_eq!(format_duration(59_999_999), "59s 999ms");
    assert_eq!(format_duration(60_000_000), "1min");
    assert_eq!(format_duration(3_599_000_000), "59min 59s");
    assert_eq!(format_duration(3_600_000_000), "1h");
    assert_eq!(format_duration(Duration::from_nanos(1_500).as_micros()), "1μs");
    assert_eq!(format_duration(u128::MAX), "94522879700260684295381835397h 42min");
}

#[test]
fn version_line_lists_known_details() {
    let v = VersionInfo::new(
        "which".to_string(),
        "0.1.0".to_string(),
        Some("abc123".to_string()),
        None,
        Some("2024-01-01".to_string()),
    );
    assert_eq!(v.display(), "which 0.1.0 (commit: abc123) (built: 2024-01-01)");
    let full = VersionInfo::new(
        "w".to_string(),
        "1".to_string(),
        Some("c".to_string()),
        Some("main".to_string()),
        Some("d".to_string()),
    );
    assert_eq!(full.display(), "w 1 (commit: c) (branch: main) (built: d)");
}

#[test]
fn which_result_drops_verbatim_prefix() {
    let r = WhichResult::new_with_time("cmd", vec!["\\\\?\\C:\\Windows\\cmd.exe".to_string()], None);
    assert_eq!(r.paths, vec!["C:\\Windows\\cmd.exe".to_string()]);
    assert!(r.found);
}

#[test]
fn output_formats() {
    assert_eq!(parse_format("text"), Ok(OutputFormat::Text));
    assert_eq!(parse_format("json"), Ok(OutputFormat::Json));
    assert_eq!(parse_format("xml"), Ok(OutputFormat::Xml));
    assert_eq!(
        parse_format("yaml"),
        Err("unsupported format: yaml. Use 'text', 'json', or 'xml'".to_string())
    );
}

#[test]
fn outcomes_by_format() {
    let found = report_outcome("ls", Ok(vec!["/bin/ls".to_string()]), true, false, None);
    assert!(matches!(found, Report::Record(ref w) if w.found && w.paths == vec!["/bin/ls".to_string()]));
    let missing = || Err(WhichError::NotFound("zz".to_string()));
    assert!(matches!(report_outcome("zz", missing(), false, false, None), Report::Record(ref w) if !w.found && w.paths.is_empty()));
    assert!(matches!(report_outcome("zz", missing(), true, false, None), Report::Complain(ref m) if m == "zz: zz not found"));
    assert!(matches!(report_outcome("zz", missing(), true, true, Some("1ms".to_string())), Report::Quiet));
}

#[test]
fn text_lines_for_results() {
    let results = vec![
        WhichResult::new_with_time("ls", vec!["/bin/ls".to_string(), "/usr/bin/ls".to_string()], Some("2ms".to_string())),
        WhichResult::new_with_time("zz", vec![], Some("1ms".to_string())),
    ];
    let lines = text_lines(&results, true);
    let shown: Vec<(bool, String)> = lines
        .into_iter()
        .map(|l| match l {
            Line::Stdout(s) => (true, s),
            Line::Stderr(s) => (false, s),
        })
        .collect();
    assert_eq!(
        shown,
        vec![
            (true, "/bin/ls".to_string()),
            (true, "/usr/bin/ls".to_string()),
            (true, "Time: 2ms".to_string()),
            (false, "zz not found (Time: 1ms)".to_string()),
        ]
    );
    assert_eq!(text_lines(&results, false).len(), 2);
}

#[test]
fn exit_status_is_nonzero_when_a_command_is_missing() {
    assert_eq!(exit_status(&vec![]), 0);
    assert_eq!(exit_status(&vec![true, true]), 0);
    assert_eq!(exit_status(&vec![true, false, true]), 1);
    assert_eq!(exit_status(&vec![false]), 1);
}
