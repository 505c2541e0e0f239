use keybind_docs::keybinding::Keybinding;
use keybind_docs::resolver::DocCache;
use keybind_docs::resolver::is_query_path;
use keybind_docs::resolver::lookup_keymap;

fn binding(root: &str, keymap: &str, command: &str) -> Keybinding {
    Keybinding {
        root: root.to_string(),
        keymap: keymap.to_string(),
        command: command.to_string(),
        doc: None,
    }
}

const DOC_JSON: &str =
    "{\"a\": {\"do_b\": {\"description\": \"Does B\", \"examples\": [\"press b\"]}}}";

#[test]
fn root_is_read_exactly_once() {
    let mut cache = DocCache::new(vec![("plug".to_string(), "/defs/plug.json".to_string())]);
    // First reference: the cache asks for the file.
    assert_eq!(cache.needs_load("plug"), Some("/defs/plug.json".to_string()));
    cache.load_root("plug", Some(DOC_JSON.to_string()));
    // Second reference: loaded, no further read.
    assert_eq!(cache.needs_load("plug"), None);
    // A repeated load call changes nothing and asks for nothing.
    cache.load_root("plug", Some(DOC_JSON.to_string()));
    assert_eq!(cache.needs_load("plug"), None);
}

#[test]
fn invalid_json_marks_root_unresolvable_without_crashing() {
    let mut cache = DocCache::new(vec![("bad".to_string(), "/defs/bad.json".to_string())]);
    cache.load_root("bad", Some("{ not json at all".to_string()));
    // Unresolvable: no re-read, and lookups attach nothing.
    assert_eq!(cache.needs_load("bad"), None);
    let mut b = binding("bad", "k", "a.do_b");
    let attached = cache.attach_doc(&mut b);
    assert!(!attached);
    assert!(b.doc.is_none());
}

#[test]
fn unreadable_file_marks_root_unresolvable() {
    let mut cache = DocCache::new(vec![("gone".to_string(), "/defs/gone.json".to_string())]);
    cache.load_root("gone", None);
    assert_eq!(cache.needs_load("gone"), None);
    let mut b = binding("gone", "k", "a.do_b");
    assert!(!cache.attach_doc(&mut b));
    assert!(b.doc.is_none());
}

#[test]
fn loaded_root_attaches_matching_doc() {
    let mut cache = DocCache::new(vec![("plug".to_string(), "p".to_string())]);
    cache.load_root("plug", Some(DOC_JSON.to_string()));
    let mut b = binding("plug", "b", "a.do_b");
    let attached = cache.attach_doc(&mut b);
    assert!(attached);
    let doc = b.doc.as_ref().unwrap();
    assert_eq!(doc.description, "Does B");
    assert_eq!(doc.examples.as_ref().unwrap(), &vec!["press b".to_string()]);
}

#[test]
fn missing_node_leaves_doc_absent() {
    let mut cache = DocCache::new(vec![("plug".to_string(), "p".to_string())]);
    cache.load_root("plug", Some(DOC_JSON.to_string()));
    let mut b = binding("plug", "b", "a.no_such");
    assert!(!cache.attach_doc(&mut b));
    assert!(b.doc.is_none());
}

#[test]
fn shape_mismatch_leaves_doc_absent() {
    let mut cache = DocCache::new(vec![("plug".to_string(), "p".to_string())]);
    // The addressed node has no string description.
    cache.load_root(
        "plug",
        Some("{\"a\": {\"do_b\": {\"description\": 5}}}".to_string()),
    );
    let mut b = binding("plug", "b", "a.do_b");
    assert!(!cache.attach_doc(&mut b));
    assert!(b.doc.is_none());
}

#[test]
fn examples_may_be_missing_or_null() {
    let mut cache = DocCache::new(vec![("p".to_string(), "p".to_string())]);
    cache.load_root(
        "p",
        Some(
            "{\"a\": {\"description\": \"A\"}, \"b\": {\"description\": \"B\", \"examples\": null}}"
                .to_string(),
        ),
    );
    let mut ba = binding("p", "k", "a");
    assert!(cache.attach_doc(&mut ba));
    assert_eq!(ba.doc.as_ref().unwrap().description, "A");
    assert!(ba.doc.as_ref().unwrap().examples.is_none());
    let mut bb = binding("p", "k", "b");
    assert!(cache.attach_doc(&mut bb));
    assert!(bb.doc.as_ref().unwrap().examples.is_none());
}

#[test]
fn present_doc_is_never_replaced() {
    let mut cache = DocCache::new(vec![("plug".to_string(), "p".to_string())]);
    cache.load_root("plug", Some(DOC_JSON.to_string()));
    let mut b = binding("plug", "b", "a.do_b");
    b.doc = Some(keybind_docs::keybinding::KeybindingDoc {
        description: "already here".to_string(),
        examples: None,
    });
    assert!(!cache.attach_doc(&mut b));
    assert_eq!(b.doc.as_ref().unwrap().description, "already here");
}

#[test]
fn unknown_root_is_skipped() {
    let cache = DocCache::new(vec![]);
    let mut b = binding("", "x", ":Next<CR>");
    assert!(!cache.attach_doc(&mut b));
    assert!(b.doc.is_none());
}

#[test]
fn query_path_discriminator() {
    assert!(is_query_path("a.do_b"));
    assert!(is_query_path("plain"));
    assert!(!is_query_path(""));
    assert!(!is_query_path(".leading"));
    assert!(!is_query_path("trailing."));
    assert!(!is_query_path("a..b"));
}

#[test]
fn non_path_command_is_not_queried() {
    let mut cache = DocCache::new(vec![("plug".to_string(), "p".to_string())]);
    cache.load_root("plug", Some(DOC_JSON.to_string()));
    let mut b = binding("plug", "b", ".a.do_b");
    assert!(!cache.attach_doc(&mut b));
    assert!(b.doc.is_none());
}

#[test]
fn lookup_keymap_works_on_a_parsed_document() {
    let doc: serde_json::Value = serde_json::from_str(DOC_JSON).unwrap();
    let mut b = binding("any", "b", "a.do_b");
    assert!(lookup_keymap(&mut b, &doc));
    assert_eq!(b.doc.as_ref().unwrap().description, "Does B");
}

#[test]
fn later_path_wins_for_a_repeated_root() {
    let cache = DocCache::new(vec![
        ("p".to_string(), "first".to_string()),
        ("p".to_string(), "second".to_string()),
    ]);
    assert_eq!(cache.needs_load("p"), Some("second".to_string()));
}

#[test]
fn second_resolution_pass_changes_nothing() {
    let mut cache = DocCache::new(vec![("plug".to_string(), "p".to_string())]);
    cache.load_root("plug", Some(DOC_JSON.to_string()));
    let mut b = binding("plug", "b", "a.do_b");
    assert!(cache.attach_doc(&mut b));
    let desc = b.doc.as_ref().unwrap().description.clone();
    // Second pass: the documented binding is skipped, nothing changes.
    assert!(!cache.attach_doc(&mut b));
    assert_eq!(b.doc.as_ref().unwrap().description, desc);
    // A binding that resolved to nothing stays undocumented against a
    // fresh cache loaded from the same text.
    let mut cache2 = DocCache::new(vec![("plug".to_string(), "p".to_string())]);
    cache2.load_root("plug", Some(DOC_JSON.to_string()));
    let mut miss = binding("plug", "k", "a.no_such");
    assert!(!cache2.attach_doc(&mut miss));
    assert!(miss.doc.is_none());
}
