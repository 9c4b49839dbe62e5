use acf_parser::errors::{AcfError, IOError, ParseError, Span};
use acf_parser::parser::{parse_acf, Acf};

const SIMPLE: &str = "\"AppState\"\n{\n\t\"appid\"\t\t\"730\"\n\t\"name\"\t\t\"Counter-Strike 2\"\n}\n";

const FULL: &str = "\"AppState\"
{
\t\"appid\"\t\t\"730\"
\t\"universe\"\t\t\"1\"
\t\"LauncherPath\"\t\t\"C:\\\\Program Files (x86)\\\\Steam\\\\steam.exe\"
\t\"name\"\t\t\"Counter-Strike 2\"
\t\"StateFlags\"\t\t\"4\"
\t\"installdir\"\t\t\"Counter-Strike Global Offensive\"
\t\"SizeOnDisk\"\t\t\"37417434346\"
\t\"buildid\"\t\t\"14083977\"
\t\"InstalledDepots\"
\t{
\t\t\"2347771\"
\t\t{
\t\t\t\"manifest\"\t\t\"734713717924880044\"
\t\t\t\"size\"\t\t\"53003220\"
\t\t}
\t\t\"2347770\"
\t\t{
\t\t\t\"manifest\"\t\t\"1546180734431049446\"
\t\t\t\"size\"\t\t\"37321532524\"
\t\t}
\t}
\t\"UserConfig\"
\t{
\t\t\"language\"\t\t\"english\"
\t}
}
";

fn value(acf: &Acf, key: &str) -> String {
    acf.entries[0].get(key).unwrap().clone()
}

#[test]
fn does_run() {
    let result = parse_acf(SIMPLE);
    assert!(result.is_ok());
}

#[test]
fn simple() {
    let result = parse_acf(SIMPLE);
    assert!(result.is_ok());
    let result = result.unwrap();
    let root_entry = &result.entries[0];
    assert_eq!(root_entry.name, "AppState");
    assert_eq!(value(&result, "appid"), "730");
}

#[test]
fn full() {
    let result = parse_acf(FULL);
    assert!(result.is_ok());
    let result = result.unwrap();
    let root_entry = &result.entries[0];
    assert_eq!(root_entry.name, "AppState");
    assert_eq!(value(&result, "appid"), "730");
    assert_eq!(value(&result, "universe"), "1");
    assert_eq!(value(&result, "LauncherPath"), "C:\\\\Program Files (x86)\\\\Steam\\\\steam.exe");
    assert_eq!(value(&result, "name"), "Counter-Strike 2");
    let depots = &root_entry.entries[0];
    assert_eq!(depots.name, "InstalledDepots");
    assert_eq!(depots.entries.len(), 2);
    assert_eq!(depots.entries[0].name, "2347771");
    assert_eq!(depots.entries[1].name, "2347770");
    assert_eq!(depots.entries[1].get("size").unwrap(), "37321532524");
    assert_eq!(root_entry.entries[1].name, "UserConfig");
}

#[test]
fn single_pair_block() {
    let acf = parse_acf("\"AppState\"\n{\n\t\"appid\"\t\t\"730\"\n}\n").unwrap();
    assert_eq!(acf.entries.len(), 1);
    let root = &acf.entries[0];
    assert_eq!(root.name, "AppState");
    assert_eq!(root.expressions, vec![("appid".to_string(), "730".to_string())]);
    assert!(root.entries.is_empty());
}

#[test]
fn duplicate_key_last_wins() {
    let acf = parse_acf("\"AppState\"\n{\n\t\"appid\"\t\t\"1\"\n\t\"appid\"\t\t\"2\"\n}\n").unwrap();
    let root = &acf.entries[0];
    assert_eq!(root.expressions, vec![("appid".to_string(), "2".to_string())]);
    assert_eq!(root.get("appid").unwrap(), "2");
}

#[test]
fn duplicate_keys_count_distinct() {
    let acf = parse_acf("\"A\" { \"x\" \"1\" \"y\" \"2\" \"x\" \"3\" \"z\" \"4\" \"y\" \"5\" }").unwrap();
    let root = &acf.entries[0];
    assert_eq!(root.expressions.len(), 3);
    assert_eq!(root.get("x").unwrap(), "3");
    assert_eq!(root.get("y").unwrap(), "5");
    assert_eq!(root.get("z").unwrap(), "4");
    assert!(root.get("w").is_none());
}

#[test]
fn missing_closing_brace() {
    let r = parse_acf("\"AppState\"\n{\n\t\"appid\"\t\t\"730\"\n");
    assert_eq!(r, Err(AcfError::Parse(ParseError::ExpectedClosingBrace(Span { start: 11, end: 29 }))));
}

#[test]
fn missing_closing_brace_of_nested_block() {
    let r = parse_acf("\"A\" { \"B\" {");
    assert_eq!(r, Err(AcfError::Parse(ParseError::ExpectedClosingBrace(Span { start: 10, end: 11 }))));
}

#[test]
fn nested_block() {
    let acf = parse_acf("\"AppState\"\n{\n\t\"UserConfig\"\n\t{\n\t\t\"language\"\t\t\"english\"\n\t}\n}\n").unwrap();
    let root = &acf.entries[0];
    assert!(root.expressions.is_empty());
    assert_eq!(root.entries.len(), 1);
    assert_eq!(root.entries[0].name, "UserConfig");
    assert_eq!(root.entries[0].expressions, vec![("language".to_string(), "english".to_string())]);
}

#[test]
fn empty_document() {
    let acf = parse_acf("").unwrap();
    assert!(acf.entries.is_empty());
    let acf = parse_acf(" \n\t ").unwrap();
    assert!(acf.entries.is_empty());
}

#[test]
fn expression_after_child_rejected() {
    let r = parse_acf("\"A\"\n{\n\t\"B\"\n\t{\n\t}\n\t\"k\"\t\"v\"\n}\n");
    assert_eq!(r, Err(AcfError::Parse(ParseError::Unknown)));
}

#[test]
fn children_keep_source_order() {
    let acf = parse_acf("\"R\" { \"c\" { } \"a\" { \"k\" \"v\" } \"b\" { } }").unwrap();
    let names: Vec<&str> = acf.entries[0].entries.iter().map(|e| e.name.as_str()).collect();
    assert_eq!(names, vec!["c", "a", "b"]);
}

#[test]
fn several_top_level_blocks() {
    let acf = parse_acf("\"A\" { } \"B\" { \"k\" \"v\" }").unwrap();
    assert_eq!(acf.entries.len(), 2);
    assert_eq!(acf.entries[0].name, "A");
    assert_eq!(acf.entries[1].name, "B");
}

#[test]
fn parsing_twice_gives_equal_documents() {
    assert_eq!(parse_acf(FULL), parse_acf(FULL));
}

#[test]
fn literal_keeps_backslashes_and_unicode() {
    let acf = parse_acf("\u{3000}\"n\\ä\"\u{a0}{\"k\" \"a\\\"}").unwrap();
    assert_eq!(acf.entries[0].name, "n\\ä");
    assert_eq!(acf.entries[0].get("k").unwrap(), "a\\");
}

#[test]
fn malformed_inputs_are_unknown_errors() {
    for text in ["x", "\"A\"", "\"A\" \"B\"", "\"A\" { \"k\" }", "\"A\" { \"k\" \"v\" { } }", "\"A\" { \"k\" \"v", "\"A\" { } }"] {
        assert_eq!(parse_acf(text), Err(AcfError::Parse(ParseError::Unknown)), "{}", text);
    }
}

#[test]
fn error_messages() {
    assert_eq!(AcfError::Read("a.acf".to_string()).message(), "failed to read 'a.acf'");
    assert_eq!(AcfError::Parse(ParseError::Unknown).message(), "the provided input could not be parsed");
    assert_eq!(AcfError::Unknown.message(), "an unknown error occurred");
    assert_eq!(IOError::Unknown.message(), "an unknown I/O error occurred");
    assert_eq!(AcfError::default(), AcfError::Unknown);
    assert_eq!(ParseError::default(), ParseError::Unknown);
    assert_eq!(IOError::default(), IOError::Unknown);
}

#[test]
fn error_source() {
    let p = ParseError::ExpectedClosingBrace(Span { start: 1, end: 2 });
    assert_eq!(AcfError::Parse(p).source(), Some(p));
    assert_eq!(AcfError::Read("f".to_string()).source(), None);
    assert_eq!(AcfError::Unknown.source(), None);
}

#[test]
fn parse_error_messages() {
    let e = ParseError::ExpectedClosingBrace(Span { start: 11, end: 29 });
    assert_eq!(e.message(), "expected a closing brace within '11..29'");
    let e = ParseError::ExpectedClosingBrace(Span { start: 0, end: 1005 });
    assert_eq!(e.message(), "expected a closing brace within '0..1005'");
    assert_eq!(ParseError::Unknown.message(), "an unknown parsing error occurred");
}

#[test]
fn rendered_root_with_pairs_and_leaves() {
    let acf = parse_acf(" \"R\" { \"k\" \"1\" \"j\" \"2\" \"k\" \"3\" \"c\" { \"x\" \"y\" } \"d\" { } }").unwrap();
    assert_eq!(acf.entries.len(), 1);
    let root = &acf.entries[0];
    assert_eq!(root.name, "R");
    assert_eq!(root.expressions.len(), 2);
    assert_eq!(root.get("k").unwrap(), "3");
    assert_eq!(root.get("j").unwrap(), "2");
    assert_eq!(root.entries.len(), 2);
    assert_eq!(root.entries[0].name, "c");
    assert_eq!(root.entries[0].get("x").unwrap(), "y");
    assert_eq!(root.entries[1].name, "d");
    assert!(root.entries[1].expressions.is_empty());
}

#[test]
fn rendered_unclosed_root() {
    let text = " \"A\" { \"k\" \"v\"";
    let r = parse_acf(text);
    assert_eq!(r, Err(AcfError::Parse(ParseError::ExpectedClosingBrace(Span { start: 5, end: 14 }))));
}

#[test]
fn defaults_are_empty() {
    let acf = Acf::default();
    assert!(acf.entries.is_empty());
    let e = acf_parser::Entry::default();
    assert!(e.name.is_empty() && e.expressions.is_empty() && e.entries.is_empty());
}
