use keybind_docs::lua::TableField;
use keybind_docs::lua::TableKey;
use keybind_docs::lua::TableLit;
use keybind_docs::lua::TableValue;
use keybind_docs::lua::walk_fields;
use keybind_docs::parser::parse;

fn lines(src: &[&str]) -> Vec<String> {
    src.iter().map(|s| s.to_string()).collect()
}

fn record(key: TableKey, value: TableValue) -> TableField {
    TableField::Record { key, value }
}

fn quoted(s: &str) -> String {
    format!("\"{}\"", s)
}

#[test]
fn walker_flattens_nested_table() {
    // The table of `X("root").setup({a = {b = "do_b"}})`.
    let inner = TableLit {
        fields: vec![record(
            TableKey::Ident("b".to_string()),
            TableValue::Quoted(quoted("do_b")),
        )],
    };
    let fields = vec![record(
        TableKey::Ident("a".to_string()),
        TableValue::Table(inner),
    )];
    let out = walk_fields("root", &fields);
    assert_eq!(out.len(), 1);
    assert_eq!(out[0].root, "root");
    assert_eq!(out[0].keymap, "b");
    assert_eq!(out[0].command, "a.do_b");
    assert!(out[0].doc.is_none());
}

#[test]
fn walker_through_embedded_block() {
    let out = parse(&lines(&[
        "lua <<EOF",
        "X(\"root\").setup({a = {b = \"do_b\"}})",
        "EOF",
    ]))
    .unwrap();
    assert_eq!(out.len(), 1);
    assert_eq!(out[0].root, "root");
    assert_eq!(out[0].keymap, "b");
    assert_eq!(out[0].command, "a.do_b");
    assert!(out[0].doc.is_none());
}

#[test]
fn leaf_value_dots_become_underscores() {
    let fields = vec![record(
        TableKey::Quoted(quoted("gd")),
        TableValue::Quoted(quoted("go.to.definition")),
    )];
    let out = walk_fields("lsp", &fields);
    assert_eq!(out.len(), 1);
    assert_eq!(out[0].keymap, "gd");
    assert_eq!(out[0].command, "go_to_definition");
}

#[test]
fn dots_replaced_before_prefixing_not_after() {
    // The nested prefix keeps its dot; only the leaf value's dots turn
    // into underscores.
    let inner = TableLit {
        fields: vec![record(
            TableKey::Quoted(quoted("k")),
            TableValue::Quoted(quoted("a.b")),
        )],
    };
    let fields = vec![record(
        TableKey::Ident("maps".to_string()),
        TableValue::Table(inner),
    )];
    let out = walk_fields("m", &fields);
    assert_eq!(out.len(), 1);
    assert_eq!(out[0].command, "maps.a_b");
}

#[test]
fn positional_and_exotic_fields_contribute_nothing() {
    let fields = vec![
        TableField::Positional,
        record(TableKey::Other, TableValue::Quoted(quoted("x"))),
        record(TableKey::Ident("a".to_string()), TableValue::Other),
    ];
    let out = walk_fields("r", &fields);
    assert!(out.is_empty());
}

#[test]
fn keyless_table_drops_its_children() {
    let inner = TableLit {
        fields: vec![record(
            TableKey::Ident("b".to_string()),
            TableValue::Quoted(quoted("c")),
        )],
    };
    let fields = vec![record(TableKey::Other, TableValue::Table(inner))];
    let out = walk_fields("r", &fields);
    assert!(out.is_empty());
}

#[test]
fn empty_leaf_parts_are_not_emitted() {
    let fields = vec![
        record(TableKey::Quoted(quoted("")), TableValue::Quoted(quoted("x"))),
        record(TableKey::Quoted(quoted("k")), TableValue::Quoted(quoted(""))),
    ];
    let out = walk_fields("r", &fields);
    assert!(out.is_empty());
}

#[test]
fn sibling_order_is_preserved() {
    let fields = vec![
        record(TableKey::Ident("k1".to_string()), TableValue::Quoted(quoted("c1"))),
        record(TableKey::Ident("k2".to_string()), TableValue::Quoted(quoted("c2"))),
        record(TableKey::Ident("k3".to_string()), TableValue::Quoted(quoted("c3"))),
    ];
    let out = walk_fields("r", &fields);
    let keymaps: Vec<&str> = out.iter().map(|b| b.keymap.as_str()).collect();
    assert_eq!(keymaps, vec!["k1", "k2", "k3"]);
    let commands: Vec<&str> = out.iter().map(|b| b.command.as_str()).collect();
    assert_eq!(commands, vec!["c1", "c2", "c3"]);
}

#[test]
fn navigator_ignores_other_call_shapes() {
    let out = parse(&lines(&[
        "lua <<EOF",
        "setup({a = \"b\"})",
        "EOF",
    ]))
    .unwrap();
    assert!(out.is_empty());
}

#[test]
fn navigator_accepts_bare_table_argument() {
    // `setup` takes its table without parentheses.
    let out = parse(&lines(&[
        "lua <<EOF",
        "require(\"mod\").setup{[\"k\"] = \"c\"}",
        "EOF",
    ]))
    .unwrap();
    assert_eq!(out.len(), 1);
    assert_eq!(out[0].root, "mod");
    assert_eq!(out[0].keymap, "k");
    assert_eq!(out[0].command, "c");
}

#[test]
fn quoted_string_keys_make_leaves() {
    let out = parse(&lines(&[
        "lua <<EOF",
        "require(\"tree\").setup({[\"<C-n>\"] = \"toggle\"})",
        "EOF",
    ]))
    .unwrap();
    assert_eq!(out.len(), 1);
    assert_eq!(out[0].root, "tree");
    assert_eq!(out[0].keymap, "<C-n>");
    assert_eq!(out[0].command, "toggle");
}

#[test]
fn navigator_accepts_bare_string_argument() {
    // `require"mod"` passes its argument without parentheses.
    let out = parse(&lines(&[
        "lua <<EOF",
        "require\"mod\".setup({[\"k\"] = \"c\"})",
        "EOF",
    ]))
    .unwrap();
    assert_eq!(out.len(), 1);
    assert_eq!(out[0].root, "mod");
    assert_eq!(out[0].keymap, "k");
    assert_eq!(out[0].command, "c");
}

#[test]
fn deeply_nested_tables_compose_prefixes() {
    let out = parse(&lines(&[
        "lua <<EOF",
        "require(\"m\").setup({a = {b = {c = \"cmd\"}}})",
        "EOF",
    ]))
    .unwrap();
    assert_eq!(out.len(), 1);
    assert_eq!(out[0].keymap, "c");
    assert_eq!(out[0].command, "a.b.cmd");
}
