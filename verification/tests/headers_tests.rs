use edge_tts::headers::parse_headers;
use edge_tts::headers::trim_str;

fn pairs(s: &str) -> Vec<(String, String)> {
    parse_headers(s)
}

fn render(ps: &[(String, String)]) -> String {
    let entries: Vec<String> = ps.iter().map(|(k, v)| format!("{}:{}", k, v)).collect();
    entries.join("\r\n")
}

#[test]
fn parse_simple_block() {
    let p = pairs("Path:turn.end\r\nX-RequestId:abc");
    assert_eq!(p.len(), 2);
    assert_eq!(p[0], ("Path".to_string(), "turn.end".to_string()));
    assert_eq!(p[1], ("X-RequestId".to_string(), "abc".to_string()));
}

#[test]
fn parse_empty_block() {
    assert_eq!(pairs("").len(), 0);
}

#[test]
fn parse_drops_empty_entries() {
    let p = pairs("a:1\r\n\r\nb:2\r\n");
    assert_eq!(p.len(), 2);
    assert_eq!(p[0], ("a".to_string(), "1".to_string()));
    assert_eq!(p[1], ("b".to_string(), "2".to_string()));
}

#[test]
fn parse_splits_on_first_colon_only() {
    let p = pairs("Content-Type:application/json; charset=utf-8");
    assert_eq!(p.len(), 1);
    assert_eq!(p[0].0, "Content-Type");
    assert_eq!(p[0].1, "application/json; charset=utf-8");
    let q = pairs("a:b:c");
    assert_eq!(q[0], ("a".to_string(), "b:c".to_string()));
}

#[test]
fn parse_entry_without_colon_keeps_whole_entry_as_key() {
    let p = pairs("noseparator");
    assert_eq!(p.len(), 1);
    assert_eq!(p[0], ("noseparator".to_string(), "".to_string()));
}

#[test]
fn parse_keeps_duplicate_keys_in_order() {
    let p = pairs("k:1\r\nk:2");
    assert_eq!(p.len(), 2);
    assert_eq!(p[0], ("k".to_string(), "1".to_string()));
    assert_eq!(p[1], ("k".to_string(), "2".to_string()));
}

#[test]
fn parse_keeps_value_whitespace() {
    let p = pairs("Path: audio \r\n");
    assert_eq!(p[0], ("Path".to_string(), " audio ".to_string()));
}

#[test]
fn reparsing_split_entries_is_idempotent() {
    for block in [
        "Path:turn.end\r\nX-RequestId: abc ",
        "a:1\r\n\r\nb:2\r\n",
        "noseparator\r\nk:v:w",
        "",
        ":\r\n:empty-key",
    ] {
        let once = pairs(block);
        let again = pairs(&render(&once));
        assert_eq!(once, again);
    }
}

#[test]
fn trim_removes_surrounding_whitespace_only() {
    assert_eq!(trim_str(" \t turn.end \r\n"), "turn.end");
    assert_eq!(trim_str("a b"), "a b");
    assert_eq!(trim_str(""), "");
    assert_eq!(trim_str(" \r\n\t "), "");
}
