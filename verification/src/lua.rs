//! The library's own image of a secondary-language table literal, and the
//! walker that flattens one into qualified bindings.
//!
//! A table is a list of fields.  A record field pairs a key (a bare
//! identifier, a quoted literal kept verbatim with its quotes, or any other
//! expression) with a value (a quoted literal, a nested table, or any other
//! expression).  Positional fields contribute nothing.  Quote stripping is
//! positional — the first and last character go — not a semantic unescaping;
//! literals containing escaped quotes keep this known limitation.

use vstd::prelude::*;

use crate::keybinding::Keybinding;
use crate::keybinding::KeybindingView;
use crate::keybinding::kb_views;
use crate::text::dots_to_underscores;
use crate::text::replace_dots;

verus! {

/// The key of a record field.
pub enum TableKey {
    /// A bare identifier.
    Ident(String),
    /// A quoted literal, kept verbatim with its quotes.
    Quoted(String),
    /// Any other key expression.
    Other,
}

/// The value of a record field.
pub enum TableValue {
    /// A quoted literal, kept verbatim with its quotes.
    Quoted(String),
    /// A nested table.
    Table(TableLit),
    /// Any other value expression.
    Other,
}

/// One field of a table literal.
pub enum TableField {
    Record { key: TableKey, value: TableValue },
    Positional,
}

/// A table literal: its fields in declaration order.
pub struct TableLit {
    pub fields: Vec<TableField>,
}

/// One item of a call's parenthesised argument list, as the navigator
/// reads it: a string literal (quotes kept), a table constructor, or
/// anything else — a comma token of the list counts as anything else.
pub enum ExprModel {
    Str(String),
    Table(TableLit),
    Other,
}

/// A call's arguments, as the navigator reads them: a bare string literal
/// (quotes kept), a bare table constructor, or a parenthesised list of
/// items.
pub enum ArgsModel {
    Str(String),
    Table(TableLit),
    List(Vec<ExprModel>),
}

/// A block's first statement, as the navigator reads it: a call expression
/// whose callee is a property read from an inner call — with whether the
/// inner callee is a simple identifier, and both calls' arguments — or any
/// other statement shape.
pub enum StmtModel {
    CallOnCallResult { inner_callee_is_name: bool, inner_args: ArgsModel, outer_args: ArgsModel },
    Other,
}

/// One layer of quoting removed: the first and the last character.  A
/// literal shorter than its two quotes strips to nothing.
pub open spec fn strip_quotes(s: Seq<char>) -> Seq<char> {
    if s.len() < 2 {
        Seq::empty()
    } else {
        s.subrange(1, s.len() - 1)
    }
}

/// Strips one layer of quoting from a literal.
pub fn strip_quotes_str(s: &str) -> (r: String)
    ensures
        r@ == strip_quotes(s@),
{
    let n = s.unicode_len();
    if n < 2 {
        String::new()
    } else {
        String::from_str(s.substring_char(1, n - 1))
    }
}

/// The text a key contributes to the output: an identifier as it stands, a
/// quoted literal with its quotes stripped, nothing for any other key.
pub open spec fn key_text(k: TableKey) -> Option<Seq<char>> {
    match k {
        TableKey::Ident(s) => Some(s@),
        TableKey::Quoted(raw) => Some(strip_quotes(raw@)),
        TableKey::Other => None,
    }
}

/// Every binding of `bs` with `p` put in front of its command.
pub open spec fn prefix_with(p: Seq<char>, bs: Seq<KeybindingView>) -> Seq<KeybindingView> {
    bs.map_values(
        |b: KeybindingView|
            (KeybindingView {
                root: b.root,
                keymap: b.keymap,
                command: p + b.command,
                doc: b.doc,
            }),
    )
}

/// The flat, depth-first, declaration-ordered image of a field list.
///
/// A record whose key contributes text and whose value is a quoted literal
/// becomes a leaf: the keymap is the key's text, the command the value with
/// its quotes stripped and every `'.'` turned into `'_'`; a leaf is emitted
/// only with both parts non-empty.  A record whose value is a nested table
/// recurses, and every binding surfacing from the recursion gets the key's
/// text and a dot put in front of its command; a keyless table contributes
/// nothing.  Everything else contributes nothing.
pub open spec fn walk_fields_spec(root: Seq<char>, fields: Seq<TableField>) -> Seq<KeybindingView>
    decreases fields,
{
    if fields.len() == 0 {
        Seq::empty()
    } else {
        let head = match fields[0] {
            TableField::Record { key, value } => match value {
                TableValue::Quoted(raw) => match key_text(key) {
                    Some(k) => {
                        let cmd = dots_to_underscores(strip_quotes(raw@));
                        if k.len() > 0 && cmd.len() > 0 {
                            seq![
                                KeybindingView { root: root, keymap: k, command: cmd, doc: None },
                            ]
                        } else {
                            Seq::empty()
                        }
                    },
                    None => Seq::empty(),
                },
                TableValue::Table(sub) => match key_text(key) {
                    Some(k) => prefix_with(k + seq!['.'], walk_fields_spec(root, sub.fields@)),
                    None => Seq::empty(),
                },
                TableValue::Other => Seq::empty(),
            },
            TableField::Positional => Seq::empty(),
        };
        head + walk_fields_spec(root, fields.drop_first())
    }
}

/// Walking a list extended by one field appends that field's own image.
pub proof fn lemma_walk_fields_push(root: Seq<char>, fields: Seq<TableField>, f: TableField)
    ensures
        walk_fields_spec(root, fields.push(f)) == walk_fields_spec(root, fields)
            + walk_fields_spec(root, seq![f]),
    decreases fields.len(),
{
    let single = seq![f];
    assert(single.drop_first() =~= Seq::<TableField>::empty());
    if fields.len() == 0 {
        assert(fields.push(f) =~= single);
        assert(walk_fields_spec(root, fields) + walk_fields_spec(root, single)
            =~= walk_fields_spec(root, single));
    } else {
        assert(fields.push(f).drop_first() =~= fields.drop_first().push(f));
        assert(fields.push(f)[0] == fields[0]);
        lemma_walk_fields_push(root, fields.drop_first(), f);
        assert(walk_fields_spec(root, fields.push(f)) =~= walk_fields_spec(root, fields)
            + walk_fields_spec(root, single));
    }
}

/// Every binding the walker yields carries the given root, a non-empty
/// keymap, a non-empty command, and no documentation yet.
pub proof fn lemma_walk_fields_wf(root: Seq<char>, fields: Seq<TableField>)
    ensures
        forall|i: int|
            0 <= i < walk_fields_spec(root, fields).len() ==> {
                let b = #[trigger] walk_fields_spec(root, fields)[i];
                b.root == root && b.wf() && b.doc is None
            },
    decreases fields,
{
    if fields.len() > 0 {
        lemma_walk_fields_wf(root, fields.drop_first());
        match fields[0] {
            TableField::Record { key, value } => match value {
                TableValue::Table(sub) => {
                    lemma_walk_fields_wf(root, sub.fields@);
                },
                _ => {},
            },
            _ => {},
        }
    }
}

/// Executable form of [`key_text`].
fn key_text_exec(k: &TableKey) -> (r: Option<String>)
    ensures
        match r {
            Some(s) => key_text(*k) == Some(s@),
            None => key_text(*k) is None,
        },
{
    match k {
        TableKey::Ident(s) => Some(s.clone()),
        TableKey::Quoted(raw) => Some(strip_quotes_str(raw.as_str())),
        TableKey::Other => None,
    }
}

/// Pushes every binding of `children` onto `out` in order, each command
/// prefixed by `pathname`.
fn append_prefixed(out: &mut Vec<Keybinding>, pathname: &str, children: Vec<Keybinding>)
    ensures
        kb_views(final(out)@) == kb_views(old(out)@) + prefix_with(
            pathname@,
            kb_views(children@),
        ),
{
    let mut rest = children;
    let ghost orig = kb_views(rest@);
    let ghost base = kb_views(out@);
    proof {
        assert(prefix_with(pathname@, orig.subrange(0, 0)) =~= Seq::<KeybindingView>::empty());
        assert(base + prefix_with(pathname@, orig.subrange(0, 0)) =~= base);
    }
    while rest.len() > 0
        invariant
            rest@.len() <= orig.len(),
            kb_views(rest@) =~= orig.subrange(
                orig.len() - rest@.len(),
                orig.len() as int,
            ),
            kb_views(out@) == base + prefix_with(
                pathname@,
                orig.subrange(0, orig.len() - rest@.len()),
            ),
        decreases rest@.len(),
    {
        let ghost done = orig.len() - rest@.len();
        let ghost pre = rest@;
        let c = rest.remove(0);
        proof {
            assert(kb_views(pre)[0] == pre[0]@);
            assert(c@ == orig[done]);
            assert forall|j: int| 0 <= j < rest@.len() implies kb_views(rest@)[j] == orig[done + 1
                + j] by {
                assert(rest@[j] == pre[j + 1]);
                assert(kb_views(pre)[j + 1] == pre[j + 1]@);
                assert(kb_views(rest@)[j] == rest@[j]@);
            }
            assert(kb_views(rest@) =~= orig.subrange(done + 1, orig.len() as int));
        }
        let mut cmd = String::from_str(pathname);
        cmd.append(c.command.as_str());
        let nb = Keybinding { root: c.root, keymap: c.keymap, command: cmd, doc: c.doc };
        proof {
            assert(nb@ == (KeybindingView {
                root: orig[done].root,
                keymap: orig[done].keymap,
                command: pathname@ + orig[done].command,
                doc: orig[done].doc,
            }));
        }
        let ghost nbv = nb@;
        let ghost outp = out@;
        out.push(nb);
        proof {
            assert(kb_views(out@) =~= kb_views(outp).push(nbv));
            assert(prefix_with(pathname@, orig.subrange(0, done + 1)) =~= prefix_with(
                pathname@,
                orig.subrange(0, done),
            ).push(nbv));
            assert(kb_views(out@) =~= base + prefix_with(
                pathname@,
                orig.subrange(0, done + 1),
            ));
        }
    }
    proof {
        assert(orig.subrange(0, orig.len() as int) =~= orig);
    }
}

/// Walks a field list, flattening it into root-tagged bindings.
pub fn walk_fields(root: &str, fields: &Vec<TableField>) -> (r: Vec<Keybinding>)
    ensures
        kb_views(r@) == walk_fields_spec(root@, fields@),
    decreases fields@,
{
    let mut out: Vec<Keybinding> = Vec::new();
    assert(kb_views(out@) =~= walk_fields_spec(root@, fields@.subrange(0, 0)));
    let n = fields.len();
    let mut i: usize = 0;
    while i < n
        invariant
            0 <= i <= n,
            n == fields@.len(),
            kb_views(out@) == walk_fields_spec(root@, fields@.subrange(0, i as int)),
        decreases n - i,
    {
        let ghost fv = fields@[i as int];
        let ghost out0 = kb_views(out@);
        proof {
            assert(seq![fv][0] == fv);
            assert(seq![fv].drop_first() =~= Seq::<TableField>::empty());
            assert(walk_fields_spec(root@, Seq::<TableField>::empty())
                == Seq::<KeybindingView>::empty());
        }
        match &fields[i] {
            TableField::Record { key, value } => match value {
                TableValue::Quoted(raw) => {
                    proof {
                        assert(fv == (TableField::Record {
                            key: *key,
                            value: TableValue::Quoted(*raw),
                        }));
                    }
                    if let Some(k) = key_text_exec(key) {
                        let cmd = replace_dots(strip_quotes_str(raw.as_str()).as_str());
                        if k.as_str().unicode_len() > 0 && cmd.as_str().unicode_len() > 0 {
                            let nb = Keybinding {
                                root: String::from_str(root),
                                keymap: k,
                                command: cmd,
                                doc: None,
                            };
                            let ghost nbv = nb@;
                            out.push(nb);
                            proof {
                                assert(kb_views(out@) =~= out0.push(nbv));
                                assert(walk_fields_spec(root@, seq![fv]) =~= seq![nbv]);
                                assert(out0.push(nbv) =~= out0 + seq![nbv]);
                            }
                        } else {
                            proof {
                                assert(walk_fields_spec(root@, seq![fv])
                                    =~= Seq::<KeybindingView>::empty());
                            }
                        }
                    } else {
                        proof {
                            assert(walk_fields_spec(root@, seq![fv])
                                =~= Seq::<KeybindingView>::empty());
                        }
                    }
                },
                TableValue::Table(sub) => {
                    proof {
                        assert(fv == (TableField::Record {
                            key: *key,
                            value: TableValue::Table(*sub),
                        }));
                        assert(decreases_to!(fields@ => fv));
                        assert(decreases_to!(fv => sub.fields@));
                    }
                    let children = walk_fields(root, &sub.fields);
                    if let Some(k) = key_text_exec(key) {
                        let ghost kv = k@;
                        let mut pathname = k;
                        pathname.append(".");
                        proof {
                            reveal_strlit(".");
                            assert("."@ =~= seq!['.']);
                            assert(pathname@ == kv + seq!['.']);
                        }
                        append_prefixed(&mut out, pathname.as_str(), children);
                        proof {
                            assert(walk_fields_spec(root@, seq![fv]) =~= prefix_with(
                                kv + seq!['.'],
                                walk_fields_spec(root@, sub.fields@),
                            ));
                        }
                    } else {
                        proof {
                            assert(walk_fields_spec(root@, seq![fv])
                                =~= Seq::<KeybindingView>::empty());
                        }
                    }
                },
                TableValue::Other => {
                    proof {
                        assert(fv == (TableField::Record {
                            key: *key,
                            value: TableValue::Other,
                        }));
                        assert(walk_fields_spec(root@, seq![fv])
                            =~= Seq::<KeybindingView>::empty());
                    }
                },
            },
            TableField::Positional => {
                proof {
                    assert(fv == TableField::Positional);
                    assert(walk_fields_spec(root@, seq![fv]) =~= Seq::<KeybindingView>::empty());
                }
            },
        }
        proof {
            let pre = fields@.subrange(0, i as int);
            lemma_walk_fields_push(root@, pre, fv);
            assert(pre.push(fv) =~= fields@.subrange(0, i as int + 1));
            assert(kb_views(out@) =~= out0 + walk_fields_spec(root@, seq![fv]));
            assert(kb_views(out@) =~= walk_fields_spec(root@, fields@.subrange(0, i as int + 1)));
        }
        i = i + 1;
    }
    proof {
        assert(fields@.subrange(0, n as int) =~= fields@);
    }
    out
}

} // verus!
