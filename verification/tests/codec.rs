use miso::codec;
use miso::errors::Error;
use miso::index::LabelIndex;

fn s(text: &str) -> String {
    text.to_string()
}

#[test]
fn missing_file_loads_as_empty_index() {
    let loaded = codec::load_index(None).expect("no content is the first run");
    assert_eq!(loaded.to_labels(), Vec::<String>::new());
}

#[test]
fn save_then_load_round_trips_the_labels() {
    let mut index = LabelIndex::new();
    index.append(&s("github"));
    index.append(&s("gitlab"));
    index.append(&s("aws"));
    let text = codec::index_to_json(&index);
    let loaded = codec::load_index(Some(&text)).expect("saved text parses back");
    assert_eq!(loaded.to_labels(), vec![s("github"), s("gitlab"), s("aws")]);
}

#[test]
fn saved_text_is_a_pretty_printed_json_array() {
    let mut index = LabelIndex::new();
    index.append(&s("github"));
    index.append(&s("gitlab"));
    let text = codec::index_to_json(&index);
    assert_eq!(text, "[\n  \"github\",\n  \"gitlab\"\n]");
}

#[test]
fn plain_json_array_text_loads() {
    let text = s("[\"github\", \"gitlab\"]");
    let loaded = codec::load_index(Some(&text)).expect("an array of strings parses");
    assert_eq!(loaded.to_labels(), vec![s("github"), s("gitlab")]);
}

#[test]
fn unparsable_content_is_index_corrupt() {
    let text = s("not json at all");
    assert!(matches!(codec::load_index(Some(&text)), Err(Error::IndexCorrupt)));
    let wrong_shape = s("{\"github\": 1}");
    assert!(matches!(codec::load_index(Some(&wrong_shape)), Err(Error::IndexCorrupt)));
}

#[test]
fn empty_array_loads_as_empty_index() {
    let text = s("[]");
    let loaded = codec::load_index(Some(&text)).expect("the empty array parses");
    assert_eq!(loaded.to_labels(), Vec::<String>::new());
}
