use hammerfest_autosplitter::names::named_in;

const MAP: &str = r#"{
  "world": "]=[]8",
  "current" :"(3Bn",
  "setName":	"+8m;",
  "odd": "a\"b"
}"#;

fn name<'a>(map: &'a str, clear: &str) -> Option<&'a str> {
    named_in(map, clear).map(|(start, end)| &map[start..end])
}

#[test]
fn a_name_is_found_under_its_clear_name() {
    assert_eq!(name(MAP, "world"), Some("]=[]8"));
    assert_eq!(name(MAP, "current"), Some("(3Bn"));
    assert_eq!(name(MAP, "setName"), Some("+8m;"));
}

#[test]
fn a_name_the_map_does_not_hold_is_nothing() {
    assert_eq!(name(MAP, "duration"), None);
    assert_eq!(name(MAP, "worl"), None);
    assert_eq!(name("", "world"), None);
}

#[test]
fn a_name_with_an_escape_is_refused() {
    assert_eq!(name(MAP, "odd"), None);
}
