use clefview::app::{detail_rows, level_button_label, template_chip, App, DetailKind, LoadOutcome, SortOrder, Tab};
use clefview::filter::{json_to_evalexpr, pair_test, EvalValue, PropertyFilter, TextTest};
use clefview::json::{value_to_display, value_to_display_quoted, JsonNode, JsonValue};
use clefview::level::{Level, LevelStats, ALL_LEVELS};
use clefview::record::{build_template_summary, parse_clef_line, parse_clef_text, records_of, split_lines, LogRecord};
use clefview::template::{render_template, template_segments};
use clefview::text::decimal_text;
use clefview::time::{fmt_local, parse_utc, CalendarDate, DateFilter, LocalDateTime, UtcInstant};

fn lib_value(v: &serde_json::Value) -> JsonValue {
    let node = match v {
        serde_json::Value::Null => JsonNode::Null,
        serde_json::Value::Bool(b) => JsonNode::Bool(*b),
        serde_json::Value::Number(n) => JsonNode::Number { integer: n.as_i64(), float_bits: n.as_f64().map(f64::to_bits) },
        serde_json::Value::String(s) => JsonNode::String(s.clone()),
        serde_json::Value::Array(a) => JsonNode::Array(a.iter().map(lib_value).collect()),
        serde_json::Value::Object(m) => JsonNode::Object(m.iter().map(|(k, v)| (k.clone(), lib_value(v))).collect()),
    };
    JsonValue { node, text: v.to_string() }
}

fn json(text: &str) -> JsonValue {
    lib_value(&serde_json::from_str::<serde_json::Value>(text).unwrap())
}

fn members(text: &str) -> Vec<(String, JsonValue)> {
    match json(text).node {
        JsonNode::Object(m) => m,
        _ => panic!("not an object"),
    }
}

fn record(text: &str, line_no: usize) -> LogRecord {
    parse_clef_text(text, line_no).unwrap()
}

#[test]
fn level_names_are_read_without_regard_to_case() {
    assert_eq!(Level::from_str("verbose"), Level::Verbose);
    assert_eq!(Level::from_str("V"), Level::Verbose);
    assert_eq!(Level::from_str("DEBUG"), Level::Debug);
    assert_eq!(Level::from_str("Information"), Level::Info);
    assert_eq!(Level::from_str("info"), Level::Info);
    assert_eq!(Level::from_str("I"), Level::Info);
    assert_eq!(Level::from_str("Warn"), Level::Warning);
    assert_eq!(Level::from_str("warning"), Level::Warning);
    assert_eq!(Level::from_str("e"), Level::Error);
    assert_eq!(Level::from_str("FATAL"), Level::Fatal);
    assert_eq!(Level::from_str("critical"), Level::Unknown);
    assert_eq!(Level::from_str(""), Level::Unknown);
    assert_eq!(Level::from_lowercase("INFO"), Level::Unknown);
}

#[test]
fn level_labels_and_abbreviations() {
    assert_eq!(Level::Info.label(), "Information");
    assert_eq!(Level::Unknown.label(), "Unknown");
    assert_eq!(Level::Warning.short(), "WRN");
    assert_eq!(Level::Unknown.short(), "???");
    assert_eq!(ALL_LEVELS.len(), 6);
    assert_eq!(ALL_LEVELS[5], Level::Fatal);
    assert_eq!(Level::Fatal.index(), 5);
    for l in ALL_LEVELS {
        assert_eq!(Level::from_str(l.label()), l);
    }
}

#[test]
fn display_of_scalars() {
    assert_eq!(value_to_display(&json("\"plain\"")), "plain");
    assert_eq!(value_to_display(&json("null")), "null");
    assert_eq!(value_to_display(&json("true")), "true");
    assert_eq!(value_to_display(&json("false")), "false");
    assert_eq!(value_to_display(&json("42")), "42");
    assert_eq!(value_to_display(&json("1.5")), "1.5");
    assert_eq!(value_to_display(&json("-7")), "-7");
}

#[test]
fn display_of_arrays_quotes_and_escapes_strings() {
    assert_eq!(value_to_display(&json(r#"[1, "a\"b", "c\\d", null]"#)), r#"[1, "a\"b", "c\\d", null]"#);
    assert_eq!(value_to_display(&json("[]")), "[]");
    assert_eq!(value_to_display(&json("[[1,2],[]]")), "[[1, 2], []]");
    assert_eq!(value_to_display_quoted(&json("\"x\"")), "\"x\"");
}

#[test]
fn display_of_objects_skips_type_tag() {
    assert_eq!(value_to_display(&json(r#"{"$type":"Point","X":1,"Y":"two"}"#)), r#"{X:1, Y:"two"}"#);
    assert_eq!(value_to_display(&json(r#"{"$type":"Empty"}"#)), "Empty");
    assert_eq!(value_to_display(&json(r#"{"$type":3}"#)), "");
    assert_eq!(value_to_display(&json("{}")), "");
    assert_eq!(value_to_display(&json(r#"{"a":{"b":[true]}}"#)), "{a:{b:[true]}}");
}

#[test]
fn render_fills_holes_and_keeps_braces() {
    let obj = members(r#"{"Name":"World","Obj":{"$type":"T"},"Count":5,"Items":[1,2]}"#);
    assert_eq!(render_template("Hello {Name}!", &obj), "Hello World!");
    assert_eq!(render_template("{{x}} and }}", &obj), "{x} and }");
    assert_eq!(render_template("{@Obj} {Count:000} {Items}", &obj), "T 5 [1, 2]");
    assert_eq!(render_template("{Missing} stays", &obj), "{Missing} stays");
    assert_eq!(render_template("open {Name", &obj), "open {Name");
    assert_eq!(render_template("a } b", &obj), "a } b");
    assert_eq!(render_template("", &obj), "");
    assert_eq!(render_template("{@@Name:fmt:x}", &obj), "World");
    assert_eq!(render_template("{}", &obj), "{}");
}

#[test]
fn segments_split_fixed_and_dynamic_text() {
    let obj = members(r#"{"Name":"World","Empty":""}"#);
    let segs = template_segments("Hello {Name}!", &obj);
    assert_eq!(segs, vec![("Hello ".to_string(), false), ("World".to_string(), true), ("!".to_string(), false)]);
    let segs = template_segments("{Name}{Empty}{{x}}", &obj);
    assert_eq!(segs, vec![("World".to_string(), true), ("".to_string(), true), ("{x}".to_string(), false)]);
    assert!(template_segments("", &obj).is_empty());
}

#[test]
fn segments_concatenate_to_the_rendering() {
    let obj = members(r#"{"A":1,"B":"b","C":[1,"x"]}"#);
    for t in ["", "plain", "{A}", "x{A}y{B}z", "{{{A}}}", "{ unclosed", "}} {C} {D}", "{A}{B}{C}"] {
        let joined: String = template_segments(t, &obj).into_iter().map(|(s, _)| s).collect();
        assert_eq!(joined, render_template(t, &obj), "template {:?}", t);
        let segs = template_segments(t, &obj);
        for w in segs.windows(2) {
            assert!(w[0].1 || w[1].1);
        }
        for s in &segs {
            assert!(s.1 || !s.0.is_empty());
        }
    }
}

#[test]
fn timestamps_parse_in_several_forms() {
    let expected = UtcInstant { secs: 1704164645, nanos: 0 };
    assert_eq!(parse_utc("2024-01-02T03:04:05Z"), Some(expected));
    assert_eq!(parse_utc("2024-01-02T05:04:05+02:00"), Some(expected));
    assert_eq!(parse_utc("2024-01-02T03:04:05"), Some(expected));
    assert_eq!(parse_utc("2024-01-02 03:04:05"), Some(expected));
    assert_eq!(parse_utc("2024-01-02T03:04:05.250"), Some(UtcInstant { secs: 1704164645, nanos: 250_000_000 }));
    assert_eq!(parse_utc("2024-01-02T03:04:05.5Z"), Some(UtcInstant { secs: 1704164645, nanos: 500_000_000 }));
    assert_eq!(parse_utc("yesterday"), None);
    assert_eq!(parse_utc(""), None);
}

#[test]
fn date_filter_ends() {
    let d = DateFilter::empty();
    assert!(!d.enabled);
    assert_eq!((d.hour, d.minute, d.second), (0, 0, 0));
    assert_eq!(d.to_utc(), None);
    let f = DateFilter::from_local_dt(LocalDateTime {
        date: CalendarDate { year: 2024, month: 1, day: 2 },
        hour: 3,
        minute: 4,
        second: 5,
    });
    assert!(!f.enabled);
    assert_eq!(f.to_utc(), None);
    let mut on = f;
    on.enabled = true;
    assert!(on.to_utc().is_some());
    on.hour = 24;
    assert_eq!(on.to_utc(), None);
    on.hour = 3;
    on.date.month = 13;
    assert_eq!(on.to_utc(), None);
    let back = DateFilter::from_instant(&UtcInstant { secs: 1704164645, nanos: 0 }).unwrap();
    assert!(!back.enabled && back.hour < 24);
}

#[test]
fn local_clock_text_and_readings() {
    let i = UtcInstant { secs: 1704164645, nanos: 0 };
    let t = fmt_local(&i);
    let f = DateFilter::from_instant(&i).unwrap();
    assert_eq!(
        t,
        format!("{:04}-{:02}-{:02} {:02}:{:02}:{:02}", f.date.year, f.date.month, f.date.day, f.hour, f.minute, f.second)
    );
    let mut on = f;
    on.enabled = true;
    if let Some(u) = on.to_utc() {
        assert_eq!(u.nanos, 0);
        assert!((u.secs - i.secs).abs() < 86400);
    }
    let leap = UtcInstant { secs: 1704164699, nanos: 1_500_000_000 };
    let lt = fmt_local(&leap);
    let lf = DateFilter::from_instant(&leap).unwrap();
    assert_eq!(lt[17..].to_string(), format!("{:02}", lf.second + 1));
    assert!(fmt_local(&UtcInstant { secs: -62_200_000_000, nanos: 0 }).starts_with('-'));
    assert!(DateFilter::from_instant(&UtcInstant { secs: 8_100_000_000_000, nanos: 0 }).is_some());
    assert!(!fmt_local(&UtcInstant { secs: 8_100_000_000_000, nanos: 0 }).is_empty());
    let far = UtcInstant { secs: i64::MAX, nanos: 0 };
    assert_eq!(fmt_local(&far), "");
    assert!(DateFilter::from_instant(&far).is_none());
}

#[test]
fn clef_events_become_records() {
    let r = record(r#"{"@t":"2024-01-02T03:04:05Z","@l":"Warning","@mt":"User {Name} in","Name":"ann"}"#, 3);
    assert_eq!(r.timestamp_utc, "2024-01-02T03:04:05Z");
    assert_eq!(r.dt_utc, Some(UtcInstant { secs: 1704164645, nanos: 0 }));
    assert_eq!(r.level, Level::Warning);
    assert_eq!(r.template, "User {Name} in");
    assert_eq!(r.message, "User ann in");
    assert_eq!(r.exception, "");
    assert_eq!(r.line_no, 3);
    assert!(!r.timestamp_local.is_empty());

    let r = record(r#"{"@t":"soon","@m":"given","@mt":"ignored {X}","@x":"boom","X":1}"#, 1);
    assert_eq!(r.message, "given");
    assert_eq!(r.level, Level::Info);
    assert_eq!(r.dt_utc, None);
    assert_eq!(r.timestamp_local, "soon");
    assert_eq!(r.exception, "boom");

    let r = record(r#"{"@l":7,"@m":""}"#, 2);
    assert_eq!(r.level, Level::Info);
    assert_eq!(r.message, "");
    assert_eq!(r.timestamp_utc, "");

    assert!(parse_clef_line(json("[1,2]"), 1).is_none());
    assert!(parse_clef_line(json("\"text\""), 1).is_none());
}

#[test]
fn level_stats_count_the_selection() {
    let records = vec![
        record(r#"{"@l":"Error","@m":"a"}"#, 1),
        record(r#"{"@l":"Error","@m":"b"}"#, 2),
        record(r#"{"@m":"c"}"#, 3),
        record(r#"{"@l":"Nope","@m":"d"}"#, 4),
    ];
    let stats = LevelStats::from_filtered(&records, &[0, 1, 2, 3, 0]);
    assert_eq!(stats.count(Level::Error), 3);
    assert_eq!(stats.count(Level::Info), 1);
    assert_eq!(stats.count(Level::Unknown), 1);
    assert_eq!(stats.count(Level::Fatal), 0);
    assert_eq!(stats.total(), 5);
    let none = LevelStats::from_filtered(&records, &[]);
    assert_eq!(none.total(), 0);
}

#[test]
fn template_summary_groups_counts_and_orders() {
    let long = "m".repeat(100);
    let records = vec![
        record(r#"{"@mt":"Disk {D} full","@l":"Error","D":"c"}"#, 1),
        record(r#"{"@mt":"User {N} in","@l":"Warning","N":"a"}"#, 2),
        record(r#"{"@mt":"User {N} in","N":"b"}"#, 3),
        record(&format!(r#"{{"@m":"{}"}}"#, long), 4),
        record(r#"{"@mt":"User {N} in","@l":"Warning","N":"c"}"#, 5),
        record(&format!(r#"{{"@m":"{}x"}}"#, long), 6),
    ];
    let all: Vec<usize> = (0..records.len()).collect();
    let s = build_template_summary(&records, &all);
    assert_eq!(s.len(), 3);
    assert_eq!(s[0].template, "User {N} in");
    assert_eq!(s[0].count, 3);
    assert_eq!(s[0].level, Level::Warning);
    assert_eq!(s[1].template, "m".repeat(80));
    assert_eq!(s[1].count, 2);
    assert_eq!(s[1].level, Level::Info);
    assert_eq!(s[2].template, "Disk {D} full");
    assert_eq!(s[2].count, 1);
    assert_eq!(s[2].level, Level::Error);
    let s = build_template_summary(&records, &[0, 1, 2]);
    assert_eq!(s.len(), 2);
    assert_eq!(s[0].template, "User {N} in");
    assert_eq!(s[0].level, Level::Info);
    assert_eq!(s[1].template, "Disk {D} full");
    assert!(build_template_summary(&records, &[]).is_empty());
}

#[test]
fn template_summary_counts_add_up_to_the_selection() {
    let records = vec![
        record(r#"{"@mt":"A {X}","X":1}"#, 1),
        record(r#"{"@mt":"B"}"#, 2),
        record(r#"{"@mt":"A {X}","X":2}"#, 3),
        record(r#"{"@m":"plain"}"#, 4),
        record(r#"{"@mt":"B","@l":"Debug"}"#, 5),
    ];
    for sel in [vec![0, 1, 2, 3, 4], vec![4, 2, 0], vec![3], vec![1, 1, 4]] {
        let s = build_template_summary(&records, &sel);
        let total: usize = s.iter().map(|t| t.count).sum();
        assert_eq!(total, sel.len());
    }
}

#[test]
fn property_filters_compile_and_match() {
    let ev = json(r#"{"@t":"x","@l":"Error","@x":"boom","Duration":150,"SourceContext":"MyApp.Api","Ratio":0.5,"Tags":["a"]}"#);
    let pf = PropertyFilter::compile("Duration > 100").ok().unwrap();
    assert!(pf.matches(&ev));
    let pf = PropertyFilter::compile("Duration > 200").ok().unwrap();
    assert!(!pf.matches(&ev));
    let pf = PropertyFilter::compile(r#"Contains(SourceContext, "Api") && Duration > 100"#).ok().unwrap();
    assert!(pf.matches(&ev));
    let pf = PropertyFilter::compile(r#"StartsWith(SourceContext, "MyApp")"#).ok().unwrap();
    assert!(pf.matches(&ev));
    let pf = PropertyFilter::compile(r#"EndsWith(SourceContext, "MyApp")"#).ok().unwrap();
    assert!(!pf.matches(&ev));
    let pf = PropertyFilter::compile(r#"Has("Duration") && !Has("Missing")"#).ok().unwrap();
    assert!(pf.matches(&ev));
    let pf = PropertyFilter::compile(r#"Has("Exception") && Exception == "boom""#).ok().unwrap();
    assert!(pf.matches(&ev));
    let pf = PropertyFilter::compile(r#"Has("@t")"#).ok().unwrap();
    assert!(!pf.matches(&ev));
    let pf = PropertyFilter::compile("Ratio < 1.0").ok().unwrap();
    assert!(pf.matches(&ev));
    let pf = PropertyFilter::compile(r#"Tags == "[\"a\"]""#).ok().unwrap();
    assert!(pf.matches(&ev));
    let pf = PropertyFilter::compile("Duration + 1").ok().unwrap();
    assert!(!pf.matches(&ev));
    let pf = PropertyFilter::compile("Unknown > 1").ok().unwrap();
    assert!(!pf.matches(&ev));
    assert!(!pf.matches(&json("[1]")));
    let pf = PropertyFilter::compile("Duration >").ok().unwrap();
    assert!(!pf.matches(&ev));
    match PropertyFilter::compile("(Duration > 100") {
        Err(e) => assert!(!e.message.is_empty()),
        Ok(_) => panic!("expected a compile error"),
    }
}

#[test]
fn filters_with_guarded_builtins_and_bad_arity() {
    let ev = json(r#"{"Message":"é","Name":"Alice","N":1,"M":-3,"Big":-9223372036854775808}"#);
    let m = |e: &str| PropertyFilter::compile(e).ok().unwrap().matches(&ev);
    assert!(m(r#"Contains(Message, "shl") || Has("N")"#));
    assert!(m(r#"str::substring(Name, 0, 1) == "A""#));
    assert!(m(r#"str::substring(Name, 3) == "ce""#));
    assert!(!m(r#"str::substring(Message, 0, 1) == "x""#));
    assert!(!m(r#"!(str::substring(Message, 0, 1) == "x")"#));
    assert!(m(r#"str::substring(Message, 0, 2) == "é""#));
    assert!(!m(r#"str::substring(Name, 3, 9) == "ce""#));
    assert!(m("shl(N, 3) == 8"));
    assert!(m("shr(M, 1) == -2"));
    assert!(!m("shl(N, 70) > 0"));
    assert!(!m("!(shr(N, 64) == 0)"));
    assert!(m("math::abs(M) == 3"));
    assert!(m("math::abs(-2.5) == 2.5"));
    assert!(!m("math::abs(Big) > 0"));
    assert!(!m("!(math::abs(Big) > 0)"));
    assert!(PropertyFilter::compile(r#"Contains(Message, "shl")"#).is_ok());
    assert!(PropertyFilter::compile("Marshland > 1").is_ok());
    let with_x = json(r#"{"@t":"t","@x":"boom","Exception":"e","A":1}"#);
    assert!(PropertyFilter::compile(r#"Has("Exception")"#).ok().unwrap().matches(&with_x));
    assert!(!PropertyFilter::compile(r#"Has("@x")"#).ok().unwrap().matches(&with_x));
    assert!(!PropertyFilter::compile(r#"Has("@t")"#).ok().unwrap().matches(&with_x));
    assert!(PropertyFilter::compile(r#"Has("A")"#).ok().unwrap().matches(&with_x));
    assert!(!PropertyFilter::compile(r#"Has("A")"#).ok().unwrap().matches(&json("[1]")));
    let pf = PropertyFilter::compile(r#"!Contains(Message, "é", "x")"#).ok().unwrap();
    assert!(!pf.matches(&ev));
    let pf = PropertyFilter::compile(r#"!Contains(Message, "x")"#).ok().unwrap();
    assert!(pf.matches(&ev));
}

#[test]
fn clef_text_is_split_into_numbered_records() {
    assert_eq!(split_lines("a\r\nb\n\nc\r"), vec![vec!['a'], vec!['b'], vec![], vec!['c', '\r']]);
    assert_eq!(split_lines("x\n"), vec![vec!['x']]);
    assert!(split_lines("").is_empty());
    let text = "{\"@mt\":\"A\"}\r\n\n   \nnot json\n[1,2]\n  {\"@m\":\"B\",\"@l\":\"Error\"}  \n";
    let rs = records_of(text);
    assert_eq!(rs.len(), 2);
    assert_eq!((rs[0].line_no, rs[0].message.as_str()), (1, "A"));
    assert_eq!((rs[1].line_no, rs[1].message.as_str(), rs[1].level), (6, "B", Level::Error));
    assert!(parse_clef_text("  [1] ", 1).is_none());
    assert!(parse_clef_text("{", 1).is_none());
    assert_eq!(parse_clef_text(" {\"@mt\":\"x\"} ", 9).unwrap().line_no, 9);
}

#[test]
fn level_colours() {
    assert_eq!(Level::Verbose.color(), (108, 117, 125));
    assert_eq!(Level::Fatal.color(), (220, 53, 69));
    assert_eq!(Level::Warning.bg_color(), (80, 60, 2));
    assert_eq!(Level::Unknown.bg_color(), (44, 47, 51));
}

#[test]
fn filter_values_and_text_tests() {
    assert!(matches!(json_to_evalexpr(&json("\"s\"")), EvalValue::Str(s) if s == "s"));
    assert!(matches!(json_to_evalexpr(&json("12")), EvalValue::Int(12)));
    assert!(matches!(json_to_evalexpr(&json("2.5")), EvalValue::Float(b) if b == 2.5f64.to_bits()));
    assert!(matches!(json_to_evalexpr(&json("true")), EvalValue::Bool(true)));
    assert!(matches!(json_to_evalexpr(&json("null")), EvalValue::Empty));
    assert!(matches!(json_to_evalexpr(&json("[1, 2]")), EvalValue::Str(s) if s == "[1,2]"));
    let pair = vec![Some("hello".to_string()), Some("ell".to_string())];
    assert_eq!(pair_test(TextTest::Contains, &pair), Some(true));
    assert_eq!(pair_test(TextTest::StartsWith, &pair), Some(false));
    assert_eq!(pair_test(TextTest::EndsWith, &pair), Some(false));
    assert_eq!(pair_test(TextTest::EndsWith, &vec![Some("hello".to_string()), Some("llo".to_string())]), Some(true));
    assert_eq!(pair_test(TextTest::Contains, &vec![Some("hello".to_string()), None]), Some(false));
    assert_eq!(pair_test(TextTest::Contains, &vec![Some("hello".to_string())]), None);
    let three = vec![Some("a".to_string()), Some("a".to_string()), Some("a".to_string())];
    assert_eq!(pair_test(TextTest::Contains, &three), None);
}

fn loaded(lines: &[&str]) -> App {
    let mut app = App::default();
    let records: Vec<LogRecord> = lines.iter().enumerate().map(|(i, l)| record(l, i + 1)).collect();
    app.begin_load(std::path::PathBuf::from("x.clef"));
    assert_eq!(app.status, "Loading…");
    app.finish_load(LoadOutcome::Received(records));
    app
}

const EVENTS: [&str; 5] = [
    r#"{"@t":"2024-01-01T00:00:00Z","@mt":"Start {App}","App":"api"}"#,
    r#"{"@t":"2024-01-01T00:00:01Z","@l":"Error","@mt":"Failed {Op}","Op":"save","@x":"Disk error"}"#,
    r#"{"@t":"2024-01-01T00:00:02Z","@l":"Debug","@mt":"Tick"}"#,
    r#"{"@t":"2024-01-01T00:00:03Z","@l":"Error","@mt":"Failed {Op}","Op":"load","Duration":300}"#,
    r#"{"@t":"2024-01-01T00:00:04Z","@l":"Fatal","@m":"Crash"}"#,
];

#[test]
fn loading_applies_the_filters() {
    let app = loaded(&EVENTS);
    assert_eq!(app.status, "Loaded 5 records");
    assert_eq!(app.filtered, vec![0, 1, 2, 3, 4]);
    assert_eq!(app.file_path, Some(std::path::PathBuf::from("x.clef")));
    assert!(app.pending_path.is_none());
    assert_eq!(app.stats.total(), 5);
    assert_eq!(app.error_summary(), (3, true));
    assert_eq!(app.template_summary[0].template, "Failed {Op}");
    assert_eq!(app.template_summary[0].count, 2);
    assert!(!app.time_from.enabled && !app.time_to.enabled);

    let mut failed = App::default();
    failed.begin_load(std::path::PathBuf::from("y"));
    failed.finish_load(LoadOutcome::Pending);
    assert_eq!(failed.status, "Loading…");
    failed.finish_load(LoadOutcome::Disconnected);
    assert_eq!(failed.status, "Load failed.");
    assert!(failed.pending_path.is_none());
}

#[test]
fn filtering_by_level_search_template_and_property() {
    let mut app = loaded(&EVENTS);
    app.toggle_level(Level::Error.index());
    app.restart_filter();
    assert_eq!(app.filtered, vec![0, 2, 4]);
    app.toggle_level(Level::Error.index());
    app.search = "DISK".to_string();
    app.restart_filter();
    assert_eq!(app.filtered, vec![1]);
    app.search = "\"load\"".to_string();
    app.restart_filter();
    assert_eq!(app.filtered, vec![3]);
    app.clear_search();
    assert_eq!(app.filtered, vec![0, 1, 2, 3, 4]);
    let pos = app.template_summary.iter().position(|t| t.template == "Failed {Op}").unwrap();
    app.tab = Tab::Templates;
    app.select_template(pos);
    assert_eq!(app.tab, Tab::Logs);
    assert_eq!(app.template_filter.as_deref(), Some("Failed {Op}"));
    assert_eq!(app.filtered, vec![1, 3]);
    let pos = app.template_summary.iter().position(|t| t.template == "Failed {Op}").unwrap();
    app.select_template(pos);
    assert!(app.template_filter.is_none());
    assert_eq!(app.filtered.len(), 5);
    app.property_filter = "  Duration >= 300 ".to_string();
    app.property_filter_changed();
    assert!(app.pf_error.is_none());
    assert_eq!(app.filtered, vec![3]);
    app.property_filter = "(Duration >= 1".to_string();
    app.property_filter_changed();
    assert!(app.pf_error.is_some() && app.compiled_pf.is_none());
    assert_eq!(app.filtered.len(), 5);
    app.clear_property_filter();
    assert_eq!(app.filtered.len(), 5);
    app.sort_order = SortOrder::Desc;
    app.restart_filter();
    assert_eq!(app.filtered, vec![4, 3, 2, 1, 0]);
}

#[test]
fn filtering_by_time_range() {
    let mut app = loaded(&EVENTS);
    let from = Some(UtcInstant { secs: 1704067201, nanos: 0 });
    let to = Some(UtcInstant { secs: 1704067203, nanos: 0 });
    app.filter_with_bounds(from, to);
    assert_eq!(app.filtered, vec![1, 2, 3]);
    app.filter_with_bounds(Some(UtcInstant { secs: 1704067203, nanos: 1 }), None);
    assert_eq!(app.filtered, vec![4]);
    app.filter_with_bounds(None, None);
    assert_eq!(app.filtered.len(), 5);
}

#[test]
fn paging() {
    let lines: Vec<String> = (0..23).map(|i| format!(r#"{{"@m":"event {}"}}"#, i)).collect();
    let refs: Vec<&str> = lines.iter().map(|s| s.as_str()).collect();
    let mut app = loaded(&refs);
    app.set_page_size(10);
    assert_eq!(app.total_pages(), 3);
    assert_eq!(app.page_records(), &[0, 1, 2, 3, 4, 5, 6, 7, 8, 9]);
    app.next_page();
    app.next_page();
    assert_eq!(app.page, 2);
    assert_eq!(app.page_records(), &[20, 21, 22]);
    app.next_page();
    assert_eq!(app.page, 2);
    assert_eq!(app.page_window(), (0, 3));
    app.search = "event 2".to_string();
    app.apply_filter();
    assert_eq!(app.filtered, vec![2, 20, 21, 22]);
    assert_eq!(app.page, 0);
    app.prev_page();
    assert_eq!(app.page, 0);
    app.go_to_page(7);
    assert_eq!(app.page_records(), &[] as &[usize]);
    app.toggle_expanded(3);
    assert_eq!(app.expanded, Some(3));
    app.toggle_expanded(3);
    assert_eq!(app.expanded, None);
    let mut empty = App::default();
    assert_eq!(empty.total_pages(), 1);
    empty.apply_filter();
    assert_eq!(empty.page, 0);
}

#[test]
fn template_view_search_and_close() {
    let mut app = loaded(&EVENTS);
    app.template_search = "FAIL".to_string();
    let shown = app.visible_templates();
    assert_eq!(shown.len(), 1);
    assert_eq!(app.template_summary[shown[0]].template, "Failed {Op}");
    app.template_search.clear();
    assert_eq!(app.visible_templates().len(), app.template_summary.len());
    app.close_file();
    assert!(app.records.is_empty() && app.filtered.is_empty());
    assert_eq!(app.status, "No file loaded.");
    assert!(app.file_path.is_none());
    assert_eq!(app.stats.total(), 0);
}

#[test]
fn labels_chips_and_detail_rows() {
    assert_eq!(level_button_label(Level::Error, 12), "ERR (12)");
    assert_eq!(level_button_label(Level::Verbose, 0), "VRB (0)");
    assert_eq!(decimal_text(0), "0");
    assert_eq!(decimal_text(1234567890), "1234567890");
    assert_eq!(template_chip("short"), "short");
    assert_eq!(template_chip(&"é".repeat(60)), "é".repeat(50));
    let r = record(&format!(r#"{{"@t":"now","@l":"Info","@mt":"m","@x":"boom","A":"x\ny","B":1,"C":"{}","D":"ok"}}"#, "b".repeat(121)), 1);
    let rows = detail_rows(&r);
    let keys: Vec<&str> = rows.iter().map(|d| d.key.as_str()).collect();
    assert_eq!(keys, vec!["@mt", "@x", "A", "B", "C", "D"]);
    assert!(rows[0].is_meta && !rows[2].is_meta);
    assert_eq!(rows[1].kind, DetailKind::ExceptionNote);
    assert_eq!(rows[2].kind, DetailKind::Multiline);
    assert_eq!(rows[3].value, "1");
    assert_eq!(rows[3].kind, DetailKind::Single);
    assert_eq!(rows[4].kind, DetailKind::Multiline);
    assert_eq!(rows[5].kind, DetailKind::Single);
}
