use nameful_cli::errors::AppError;
use nameful_cli::json::JsonNode;

fn num(t: &str) -> JsonNode {
    JsonNode::Num(String::from(t))
}

fn sample_doc() -> JsonNode {
    JsonNode::Obj(vec![
        (String::from("a"), num("1")),
        (
            String::from("b"),
            JsonNode::Arr(vec![num("10"), num("20"), num("30")]),
        ),
    ])
}

#[test]
fn render_compact_document() {
    assert_eq!(sample_doc().render(), "{\"a\":1,\"b\":[10,20,30]}");
    assert_eq!(JsonNode::Null.render(), "null");
    assert_eq!(JsonNode::Bool(true).render(), "true");
    assert_eq!(JsonNode::Bool(false).render(), "false");
    assert_eq!(JsonNode::Arr(vec![]).render(), "[]");
    assert_eq!(JsonNode::Obj(vec![]).render(), "{}");
}

#[test]
fn render_escapes_strings() {
    let t = JsonNode::Text(String::from("a\"b\\c\n"));
    assert_eq!(t.render(), "\"a\\\"b\\\\c\\n\"");
    let ctl = JsonNode::Text(String::from("\u{1}"));
    assert_eq!(ctl.render(), "\"\\u0001\"");
    let tab = JsonNode::Text(String::from("x\ty"));
    assert_eq!(tab.render(), "\"x\\ty\"");
}

#[test]
fn resolve_follows_pointers() {
    let doc = sample_doc();
    let got = doc
        .resolve(&vec![String::from("b"), String::from("1")])
        .unwrap();
    assert_eq!(got.render(), "20");
    let root = doc.resolve(&Vec::new()).unwrap();
    assert_eq!(root.render(), "{\"a\":1,\"b\":[10,20,30]}");
}

#[test]
fn resolve_rejects_missing_or_padded_segments() {
    let doc = sample_doc();
    assert_eq!(
        doc.resolve(&vec![String::from("x")]).unwrap_err(),
        AppError::PointerResolution
    );
    assert_eq!(
        doc.resolve(&vec![String::from("b"), String::from("01")])
            .unwrap_err(),
        AppError::PointerResolution
    );
    assert_eq!(
        doc.resolve(&vec![String::from("b"), String::from("3")])
            .unwrap_err(),
        AppError::PointerResolution
    );
    assert_eq!(
        doc.resolve(&vec![String::from("a"), String::from("x")])
            .unwrap_err(),
        AppError::PointerResolution
    );
}

#[test]
fn view_of_small_array_uses_width_one() {
    let arr = JsonNode::Arr(vec![num("10"), num("20"), num("30")]);
    let entries = arr.view_entries().unwrap();
    let keys: Vec<&str> = entries.iter().map(|e| e.0.as_str()).collect();
    assert_eq!(keys, vec!["0", "1", "2"]);
    assert_eq!(entries[1].1.render(), "20");
}

#[test]
fn view_of_twelve_element_array_uses_width_two() {
    let elems: Vec<JsonNode> = (0..12).map(|i| num(&i.to_string())).collect();
    let arr = JsonNode::Arr(elems);
    let entries = arr.view_entries().unwrap();
    assert_eq!(entries.len(), 12);
    assert_eq!(entries[0].0, "00");
    assert_eq!(entries[1].0, "01");
    assert_eq!(entries[9].0, "09");
    assert_eq!(entries[10].0, "10");
    assert_eq!(entries[11].0, "11");
    let mut keys: Vec<String> = entries.iter().map(|e| e.0.clone()).collect();
    let numeric = keys.clone();
    keys.sort();
    assert_eq!(keys, numeric);
}

#[test]
fn view_of_object_keeps_stored_order() {
    let doc = sample_doc();
    let entries = doc.view_entries().unwrap();
    assert_eq!(entries[0].0, "a");
    assert_eq!(entries[1].0, "b");
}

#[test]
fn view_of_scalar_is_a_type_mismatch() {
    assert_eq!(num("1").view_entries().unwrap_err(), AppError::TypeMismatch);
    assert_eq!(
        JsonNode::Null.view_entries().unwrap_err(),
        AppError::TypeMismatch
    );
}

#[test]
fn container_check() {
    assert!(sample_doc().is_container());
    assert!(JsonNode::Arr(vec![]).is_container());
    assert!(!num("1").is_container());
    assert!(!JsonNode::Text(String::new()).is_container());
}
