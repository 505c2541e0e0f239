//! The navigator: recognises the one call shape the library mines from an
//! embedded block — a statement that calls a property read from an inner
//! call, the inner callee a simple identifier, its sole argument a string
//! literal, the outer arguments a single table literal — and hands the
//! table to the walker under the root the string names.
//!
//! The recognition works on the library's statement model; the outside
//! parser only produces that model.  A block whose statement has any other
//! shape, or does not parse, yields no bindings; neither is an error.

use vstd::prelude::*;

use crate::analisar_api::stmt_model;
use crate::analisar_api::stmt_model_of;
use crate::keybinding::Keybinding;
use crate::keybinding::KeybindingView;
use crate::keybinding::kb_views;
use crate::lua::ArgsModel;
use crate::lua::ExprModel;
use crate::lua::StmtModel;
use crate::lua::TableField;
use crate::lua::TableLit;
use crate::lua::lemma_walk_fields_wf;
use crate::lua::strip_quotes;
use crate::lua::strip_quotes_str;
use crate::lua::walk_fields;
use crate::lua::walk_fields_spec;

verus! {

/// The string literal a call's arguments reduce to: a bare literal, or
/// the single item of an argument list when that item is a literal.  The
/// quotes are kept.
pub open spec fn args_lit_spec(a: ArgsModel) -> Option<Seq<char>> {
    match a {
        ArgsModel::Str(s) => Some(s@),
        ArgsModel::List(items) => if items@.len() == 1 {
            match items@[0] {
                ExprModel::Str(s) => Some(s@),
                _ => None,
            }
        } else {
            None
        },
        ArgsModel::Table(t) => None,
    }
}

/// The table literal a call's arguments reduce to: a bare table, or the
/// single item of an argument list when that item is a table.
pub open spec fn args_table_spec(a: ArgsModel) -> Option<Seq<TableField>> {
    match a {
        ArgsModel::Table(t) => Some(t.fields@),
        ArgsModel::List(items) => if items@.len() == 1 {
            match items@[0] {
                ExprModel::Table(t) => Some(t.fields@),
                _ => None,
            }
        } else {
            None
        },
        ArgsModel::Str(s) => None,
    }
}

/// What a statement yields under the recognised call shape: the root
/// literal (quotes kept) and the table's fields, exactly when the inner
/// callee is a simple identifier, its arguments reduce to a string
/// literal, and the outer arguments reduce to a table literal.
pub open spec fn recognize_spec(m: StmtModel) -> Option<(Seq<char>, Seq<TableField>)> {
    match m {
        StmtModel::CallOnCallResult { inner_callee_is_name, inner_args, outer_args } => {
            if inner_callee_is_name && args_lit_spec(inner_args) is Some && args_table_spec(
                outer_args,
            ) is Some {
                Some((args_lit_spec(inner_args).unwrap(), args_table_spec(outer_args).unwrap()))
            } else {
                None
            }
        },
        StmtModel::Other => None,
    }
}

/// What a block reduces to: its statement model under the recognition, or
/// nothing when the block does not parse or matches no recognised shape.
pub open spec fn block_model(code: Seq<char>) -> Option<(Seq<char>, Seq<TableField>)> {
    match stmt_model_of(code) {
        Some(m) => recognize_spec(m),
        None => None,
    }
}

/// The bindings one block contributes: the walker's image of its model,
/// under the root literal with its quotes stripped; nothing for a block
/// without the recognised shape.
pub open spec fn block_expansion(code: Seq<char>) -> Seq<KeybindingView> {
    match block_model(code) {
        Some(m) => walk_fields_spec(strip_quotes(m.0), m.1),
        None => Seq::empty(),
    }
}

/// Whatever a block contributes is well formed: every binding of its
/// expansion keeps a non-empty keymap and a non-empty command, and carries
/// no documentation yet.
pub proof fn lemma_block_expansion_wf(code: Seq<char>)
    ensures
        forall|i: int|
            0 <= i < block_expansion(code).len() ==> (#[trigger] block_expansion(code)[i]).wf()
                && block_expansion(code)[i].doc is None,
{
    match block_model(code) {
        Some(m) => {
            lemma_walk_fields_wf(strip_quotes(m.0), m.1);
        },
        None => {},
    }
}

/// Reduces a call's arguments to a single string literal, quotes kept.
pub fn args_to_lit_string(a: &ArgsModel) -> (r: Option<String>)
    ensures
        match r {
            Some(s) => args_lit_spec(*a) == Some(s@),
            None => args_lit_spec(*a) is None,
        },
{
    match a {
        ArgsModel::Str(s) => Some(s.clone()),
        ArgsModel::List(items) => if items.len() == 1 {
            match &items[0] {
                ExprModel::Str(s) => Some(s.clone()),
                _ => None,
            }
        } else {
            None
        },
        ArgsModel::Table(_) => None,
    }
}

/// Reduces a call's arguments to a single table literal.
pub fn args_to_table<'a>(a: &'a ArgsModel) -> (r: Option<&'a TableLit>)
    ensures
        match r {
            Some(t) => args_table_spec(*a) == Some(t.fields@),
            None => args_table_spec(*a) is None,
        },
{
    match a {
        ArgsModel::Table(t) => Some(t),
        ArgsModel::List(items) => if items.len() == 1 {
            match &items[0] {
                ExprModel::Table(t) => Some(t),
                _ => None,
            }
        } else {
            None
        },
        ArgsModel::Str(_) => None,
    }
}

/// Builds the bindings of one recognised call: the root is the string
/// literal with its one layer of quoting stripped, and the table's model
/// is flattened by the walker.
pub fn create_map(root_lit: &str, table: &TableLit) -> (r: Vec<Keybinding>)
    ensures
        kb_views(r@) == walk_fields_spec(strip_quotes(root_lit@), table.fields@),
{
    let root = strip_quotes_str(root_lit);
    walk_fields(root.as_str(), &table.fields)
}

/// Mines one embedded block: reads its statement model, recognises the
/// call shape, and yields the flattened bindings — exactly the block's
/// expansion — or nothing when no binding-bearing shape stands there.
/// The outside parser recurses with the block's nesting, so a
/// pathologically nested block can exhaust the stack.
pub fn parse_lua(code: &str) -> (r: Option<Vec<Keybinding>>)
    ensures
        r is Some <==> block_model(code@) is Some,
        match r {
            Some(v) => kb_views(v@) == block_expansion(code@),
            None => true,
        },
{
    let m = match stmt_model(code) {
        Some(m) => m,
        None => {
            return None;
        },
    };
    match m {
        StmtModel::CallOnCallResult { inner_callee_is_name, inner_args, outer_args } => {
            if !inner_callee_is_name {
                return None;
            }
            let root_lit = match args_to_lit_string(&inner_args) {
                Some(s) => s,
                None => {
                    return None;
                },
            };
            let table = match args_to_table(&outer_args) {
                Some(t) => t,
                None => {
                    return None;
                },
            };
            Some(create_map(root_lit.as_str(), table))
        },
        StmtModel::Other => None,
    }
}

} // verus!
