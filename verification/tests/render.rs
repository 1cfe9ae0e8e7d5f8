use radar_core::jsonl::{event_file_symbol, event_records};
use radar_core::render::{render_text, severity_bar, TextRow};

#[test]
fn render_text_reports_no_alerts() {
    assert_eq!(render_text(&vec![], 3), "no alerts (3 scanned)");
}

#[test]
fn render_text_lists_rows() {
    let rows = vec![TextRow {
        symbol: "AAA".to_string(),
        severity: "1.0000".to_string(),
        filled: 10,
        top_factor: "funding_flip(0.0005)=1.0000".to_string(),
    }];
    let text = render_text(&rows, 1);
    assert_eq!(
        text,
        "symbol  severity              signal\n\
         AAA       1.0000 [##########]  funding_flip(0.0005)=1.0000\n\
         1 alert(s), 1 scanned"
    );
    assert!(text.contains("AAA"));
    assert!(text.contains("funding_flip(0.0005)"));
    assert!(text.contains("1 alert(s), 1 scanned"));
}

#[test]
fn render_text_widens_for_long_symbols() {
    let row = |s: &str, f: usize| TextRow {
        symbol: s.to_string(),
        severity: "0.5000".to_string(),
        filled: f,
        top_factor: String::new(),
    };
    let text = render_text(&vec![row("BTCUSDTPERP", 5), row("X", 0)], 4);
    let lines: Vec<&str> = text.lines().collect();
    assert_eq!(lines[0], "symbol       severity              signal");
    assert_eq!(lines[1], "BTCUSDTPERP    0.5000 [#####     ]  ");
    assert_eq!(lines[2], "X              0.5000 [          ]  ");
    assert_eq!(lines[3], "2 alert(s), 4 scanned");
}

#[test]
fn severity_bar_fills_cells() {
    assert_eq!(severity_bar(6), "[######    ]");
    assert_eq!(severity_bar(0), "[          ]");
    assert_eq!(severity_bar(10), "[##########]");
}

#[test]
fn event_records_are_trimmed_nonblank_lines() {
    let text = "{\"a\":1}\n\n  {\"b\":2} \r\n\t\n{\"c\":3}\n";
    assert_eq!(event_records(text), vec!["{\"a\":1}", "{\"b\":2}", "{\"c\":3}"]);
    assert!(event_records("").is_empty());
    assert_eq!(event_records("x"), vec!["x"]);
}

#[test]
fn event_files_are_named_by_symbol() {
    assert_eq!(event_file_symbol("AAA.jsonl"), Some("AAA".to_string()));
    assert_eq!(event_file_symbol("a.b.jsonl"), Some("a.b".to_string()));
    assert_eq!(event_file_symbol("AAA.json"), None);
    assert_eq!(event_file_symbol(".jsonl"), None);
    assert_eq!(event_file_symbol("jsonl"), None);
    assert_eq!(event_file_symbol("AAA.jsonl.bak"), None);
    assert_eq!(event_file_symbol("ÉTÉ.jsonl"), Some("ÉTÉ".to_string()));
}
