use resbook::progress::{trim_ws, str_eq, ProgressListener, ProgressParser};

#[test]
fn trims_stream_whitespace() {
    assert_eq!(trim_ws("  end \r\n"), "end");
    assert_eq!(trim_ws("end"), "end");
    assert_eq!(trim_ws("   \t\n"), "");
    assert_eq!(trim_ws(""), "");
    assert_eq!(trim_ws(" a b "), "a b");
    // The whole Unicode White_Space set is trimmed, as str::trim does.
    assert_eq!(trim_ws("\u{a0}end\u{3000}"), "end");
    assert_eq!(trim_ws("\u{2009}\u{85}x\u{2028}"), "x");
}

#[test]
fn string_equality_by_characters() {
    assert!(str_eq("progress", "progress"));
    assert!(!str_eq("progress", "progres"));
    assert!(!str_eq("a", "b"));
    assert!(str_eq("", ""));
}

#[test]
fn accumulates_pairs_until_progress_line() {
    let mut p = ProgressParser::new();
    assert!(p.push_line("frame=10").is_none());
    assert!(p.push_line("fps= 25.0 ").is_none());
    assert!(p.push_line("no equals sign here").is_none());
    let (done, info) = p.push_line("progress=continue").unwrap();
    assert!(!done);
    assert_eq!(
        info,
        vec![
            ("frame".to_string(), "10".to_string()),
            ("fps".to_string(), "25.0".to_string())
        ]
    );
    // The pending report starts over after each progress line.
    assert!(p.push_line("frame=20").is_none());
    let (done, info) = p.push_line("progress=end\u{a0}").unwrap();
    assert!(done);
    assert_eq!(info, vec![("frame".to_string(), "20".to_string())]);
}

#[test]
fn progress_line_with_empty_report() {
    let mut p = ProgressParser::new();
    let (done, info) = p.push_line("progress=end").unwrap();
    assert!(done);
    assert!(info.is_empty());
}

#[test]
fn null_listener_accepts_reports() {
    let mut l = resbook::progress::NullProgressListener;
    l.on_progress(false, vec![("k".to_string(), "v".to_string())]);
    l.on_progress(true, Vec::new());
}
