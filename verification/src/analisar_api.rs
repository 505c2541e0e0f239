//! Trusted declarations for the secondary-language parser (the `analisar`
//! crate, in its context-aware form).
//!
//! One trusted entry, [`stmt_model`], reads a block: it parses the first
//! statement and moves it — variant for variant, field for field, through
//! the small helpers below — into the library's own statement model.  The
//! result is a function of the block's text alone, which the name
//! [`stmt_model_of`] records in both directions.  What the model means —
//! which call shapes yield bindings, and which table the walker flattens —
//! is decided by verified code in the navigator.

use vstd::prelude::*;

use analisar::aware::Parser;
use analisar::aware::ast::Args;
use analisar::aware::ast::ExpListItem;
use analisar::aware::ast::Expression;
use analisar::aware::ast::Field;
use analisar::aware::ast::FunctionCall;
use analisar::aware::ast::LiteralString;
use analisar::aware::ast::Statement;
use analisar::aware::ast::Table;

use crate::lua::ArgsModel;
use crate::lua::ExprModel;
use crate::lua::StmtModel;
use crate::lua::TableField;
use crate::lua::TableKey;
use crate::lua::TableLit;
use crate::lua::TableValue;

verus! {

#[verifier::external_type_specification]
#[verifier::external_body]
pub struct ExTable<'a>(Table<'a>);

#[verifier::external_type_specification]
#[verifier::external_body]
pub struct ExExpression<'a>(Expression<'a>);

#[verifier::external_type_specification]
#[verifier::external_body]
pub struct ExLiteralString<'a>(LiteralString<'a>);

#[verifier::external_type_specification]
#[verifier::external_body]
pub struct ExArgs<'a>(Args<'a>);

#[verifier::external_type_specification]
#[verifier::external_body]
pub struct ExFunctionCall<'a>(FunctionCall<'a>);

#[verifier::external_type_specification]
#[verifier::external_body]
pub struct ExExpListItem<'a>(ExpListItem<'a>);

/// What the block's text parses to, read into the library's statement
/// model: nothing when the block holds no statement or does not parse.
/// The parse depends on the characters alone.
pub uninterp spec fn stmt_model_of(s: Seq<char>) -> Option<StmtModel>;

/// Relies on `LiteralString` (aware/ast): the literal's text, quotes kept,
/// bytes read lossily as UTF-8.  Serves [`stmt_model`].
#[verifier::external_body]
fn lit_text(ls: &LiteralString<'_>) -> String {
    String::from_utf8_lossy(&ls.value).into_owned()
}

/// Relies on `Expression` (aware/ast): a record key's model — a bare
/// identifier keeps its name, a string literal its quoted text, anything
/// else is opaque.  Serves [`stmt_model`].
#[verifier::external_body]
fn key_model(e: &Expression<'_>) -> TableKey {
    match e {
        Expression::Name(n) => TableKey::Ident(n.name.to_string()),
        Expression::LiteralString(ls) => TableKey::Quoted(lit_text(ls)),
        _ => TableKey::Other,
    }
}

/// Relies on `Expression` (aware/ast): a record value's model — a string
/// literal keeps its quoted text, a table constructor recurses, anything
/// else is opaque.  Serves [`stmt_model`].
#[verifier::external_body]
fn value_model(e: &Expression<'_>) -> TableValue {
    match e {
        Expression::LiteralString(ls) => TableValue::Quoted(lit_text(ls)),
        Expression::TableCtor(sub) => TableValue::Table(table_model(sub)),
        _ => TableValue::Other,
    }
}

/// Relies on `Table` and `Field` (aware/ast): moves a parsed table into
/// the library's model, field for field and in order; list fields become
/// positional.  Serves [`stmt_model`].
#[verifier::external_body]
fn table_model(t: &Table<'_>) -> TableLit {
    let mut fields: Vec<TableField> = Vec::new();
    for field in &t.field_list {
        match field {
            Field::Record { name, eq: _, value, sep: _ } => {
                fields.push(
                    TableField::Record { key: key_model(&name.expr), value: value_model(value) },
                );
            },
            Field::List { value: _, sep: _ } => fields.push(TableField::Positional),
        }
    }
    TableLit { fields }
}

/// Relies on `ExpListItem` (aware/ast): one argument-list item's model — a
/// string literal, a table constructor, or anything else (a comma token of
/// the list included).  Serves [`stmt_model`].
#[verifier::external_body]
fn item_model(it: &ExpListItem<'_>) -> ExprModel {
    match it {
        ExpListItem::Expr(Expression::LiteralString(ls)) => ExprModel::Str(lit_text(ls)),
        ExpListItem::Expr(Expression::TableCtor(t)) => ExprModel::Table(table_model(t)),
        _ => ExprModel::Other,
    }
}

/// Relies on `Args` (aware/ast): a call's arguments, moved variant for
/// variant — a bare string, a bare table, or the item list as it stands.
/// Serves [`stmt_model`].
#[verifier::external_body]
fn args_model(a: Args<'_>) -> ArgsModel {
    match a {
        Args::String(ls) => ArgsModel::Str(lit_text(&ls)),
        Args::Table(t) => ArgsModel::Table(table_model(&t)),
        Args::ExpList { open_paren: _, exprs, close_paren: _ } => {
            let mut items: Vec<ExprModel> = Vec::new();
            for it in &exprs {
                items.push(item_model(it));
            }
            ArgsModel::List(items)
        },
    }
}

/// Relies on `FunctionCall` and `Suffixed` (aware/ast): a call
/// expression's model — when the callee is a property read from an inner
/// call, the model records whether the inner callee is a simple identifier
/// and carries both calls' arguments; any other callee shape is opaque.
/// Serves [`stmt_model`].
#[verifier::external_body]
fn call_model(f: FunctionCall<'_>) -> StmtModel {
    let FunctionCall { prefix, args } = f;
    let suffixed = match *prefix {
        Expression::Suffixed(s) => s,
        _ => return StmtModel::Other,
    };
    let inner = match suffixed.subject {
        Expression::FuncCall(c) => c,
        _ => return StmtModel::Other,
    };
    StmtModel::CallOnCallResult {
        inner_callee_is_name: matches!(*inner.prefix, Expression::Name(_)),
        inner_args: args_model(inner.args),
        outer_args: args_model(args),
    }
}

/// Relies on `analisar::aware::Parser` and the `aware::ast` shapes, read
/// through the helpers above: parses the block's first statement into the
/// library's model.  A block without a statement, or with a syntax error,
/// yields nothing; a statement that is not a call expression is opaque;
/// and the result depends on the text alone.  The parser descends
/// recursively with no depth limit, so a pathologically nested block can
/// exhaust the stack.
#[verifier::external_body]
pub(crate) fn stmt_model(code: &str) -> (r: Option<StmtModel>)
    ensures
        r == stmt_model_of(code@),
{
    let swc = match Parser::new(code.as_bytes()).next() {
        Some(Ok(swc)) => swc,
        _ => return None,
    };
    match swc.statement {
        Statement::Expression(Expression::FuncCall(f)) => Some(call_model(f)),
        _ => Some(StmtModel::Other),
    }
}

} // verus!
