use keybind_docs::parser::ParseError;
use keybind_docs::parser::parse;

fn lines(src: &[&str]) -> Vec<String> {
    src.iter().map(|s| s.to_string()).collect()
}

#[test]
fn binding_line_captures_keymap_and_command() {
    let out = parse(&lines(&["nnoremap <silent> gj :Next<CR>"])).unwrap();
    assert_eq!(out.len(), 1);
    assert_eq!(out[0].keymap, "gj");
    assert_eq!(out[0].command, ":Next<CR>");
    assert_eq!(out[0].root, "");
    assert!(out[0].doc.is_none());
}

#[test]
fn binding_heads_all_match() {
    let out = parse(&lines(&[
        "map a b",
        "noremap c d",
        "vmap e f",
        "tnoremap g h",
        "inoremap i j",
    ]))
    .unwrap();
    assert_eq!(out.len(), 5);
    assert_eq!(out[0].keymap, "a");
    assert_eq!(out[1].keymap, "c");
    assert_eq!(out[2].keymap, "e");
    assert_eq!(out[3].keymap, "g");
    assert_eq!(out[4].keymap, "i");
    assert_eq!(out[4].command, "j");
}

#[test]
fn command_keeps_internal_spaces() {
    let out = parse(&lines(&["nmap x :echo hello world<CR>"])).unwrap();
    assert_eq!(out.len(), 1);
    assert_eq!(out[0].keymap, "x");
    assert_eq!(out[0].command, ":echo hello world<CR>");
}

#[test]
fn non_binding_lines_yield_nothing() {
    let out = parse(&lines(&[
        "set number",
        "mapx y z",
        "map onlyshortcut",
        "  ",
        "\" a stray comment",
    ]))
    .unwrap();
    assert!(out.is_empty());
}

#[test]
fn binding_line_is_trimmed_first() {
    let out = parse(&lines(&["   vnoremap x y   "])).unwrap();
    assert_eq!(out.len(), 1);
    assert_eq!(out[0].keymap, "x");
    assert_eq!(out[0].command, "y");
}

#[test]
fn comment_block_attaches_joined_doc() {
    let out = parse(&lines(&["\"first part", "\"second part", "map x y"])).unwrap();
    assert_eq!(out.len(), 1);
    let doc = out[0].doc.as_ref().unwrap();
    assert_eq!(doc.description, "first part second part");
    assert!(doc.examples.is_none());
}

#[test]
fn blank_line_detaches_comment() {
    let out = parse(&lines(&["\"orphan comment", "", "map x y"])).unwrap();
    assert_eq!(out.len(), 1);
    assert!(out[0].doc.is_none());
}

#[test]
fn other_line_detaches_comment() {
    let out = parse(&lines(&["\"comment", "set number", "map x y"])).unwrap();
    assert_eq!(out.len(), 1);
    assert!(out[0].doc.is_none());
}

#[test]
fn end_to_end_two_bindings() {
    // The comment standing directly above the second binding attaches to
    // it under the scanner's rules, its marker stripped and its leading
    // space kept.
    let out = parse(&lines(&[
        "\"Jump to next",
        "nnoremap <silent> gj :Next<CR>",
        "",
        "\" not attached",
        "vnoremap x y",
    ]))
    .unwrap();
    assert_eq!(out.len(), 2);
    assert_eq!(out[0].keymap, "gj");
    assert_eq!(out[0].command, ":Next<CR>");
    assert_eq!(out[0].doc.as_ref().unwrap().description, "Jump to next");
    assert_eq!(out[1].keymap, "x");
    assert_eq!(out[1].command, "y");
    assert_eq!(out[1].doc.as_ref().unwrap().description, " not attached");
}

#[test]
fn unmatched_terminator_is_fatal_with_line_number() {
    let r = parse(&lines(&["map a b", "EOF"]));
    assert_eq!(r.unwrap_err(), ParseError::UnmatchedEOF(2));
}

#[test]
fn malformed_opener_is_fatal_with_line_number() {
    let r = parse(&lines(&["lua print(1)"]));
    assert_eq!(r.unwrap_err(), ParseError::InvalidLuaBlock(1));
}

#[test]
fn unterminated_block_is_fatal_with_opener_line() {
    let r = parse(&lines(&["map a b", "lua <<EOF", "print(1)"]));
    assert_eq!(r.unwrap_err(), ParseError::UnterminatedBlock(2));
}

#[test]
fn parse_error_line_accessor() {
    assert_eq!(ParseError::InvalidLuaBlock(7).line(), 7);
    assert_eq!(ParseError::UnmatchedEOF(9).line(), 9);
    assert_eq!(ParseError::UnterminatedBlock(4).line(), 4);
}

#[test]
fn empty_input_yields_nothing() {
    let out = parse(&lines(&[])).unwrap();
    assert!(out.is_empty());
}

#[test]
fn block_with_unrecognised_statement_yields_nothing() {
    let out = parse(&lines(&["lua <<EOF", "print('hello')", "EOF", "map x y"])).unwrap();
    assert_eq!(out.len(), 1);
    assert_eq!(out[0].keymap, "x");
}

#[test]
fn opener_detection_strips_all_whitespace() {
    let out = parse(&lines(&[
        "lua << EOF",
        "X(\"m\").setup({[\"k\"] = \"c\"})",
        "EOF",
    ]))
    .unwrap();
    assert_eq!(out.len(), 1);
    assert_eq!(out[0].root, "m");
    assert_eq!(out[0].keymap, "k");
    assert_eq!(out[0].command, "c");
}

#[test]
fn whitespace_runs_between_grammar_parts_are_allowed() {
    let out = parse(&lines(&["map   x   y"])).unwrap();
    assert_eq!(out.len(), 1);
    assert_eq!(out[0].keymap, "x");
    assert_eq!(out[0].command, "y");
}

#[test]
fn silent_token_must_be_followed_by_whitespace() {
    // Without trailing whitespace the token is part of the shortcut.
    let out = parse(&lines(&["map <silent>x y"])).unwrap();
    assert_eq!(out.len(), 1);
    assert_eq!(out[0].keymap, "<silent>x");
    assert_eq!(out[0].command, "y");
}
