//! The parse tree of a Terraform file, as the checks read it.
//!
//! `parse` hands the source to the `hcl` crate and reads its tree into these plain types. An
//! expression that the checks never look into (a variable, a traversal, a template, a function
//! call, ...) is kept as `Expr::Other`.

use vstd::prelude::*;

use crate::text::int_text;

verus! {

/// A number as `hcl` holds it: its value as an `i64` where it has one, the bits of its value as
/// a 64-bit float, the text that `hcl` renders it as, and the text that `Display` of that float
/// gives.
#[derive(Debug)]
pub struct Num {
    pub int: Option<i64>,
    pub float_bits: u64,
    pub text: String,
    pub float_text: String,
}

/// A key of an object expression.
#[derive(Debug)]
pub enum ExprKey {
    Identifier(String),
    Expression(Expr),
}

/// An expression of the HCL expression language.
#[derive(Debug)]
pub enum Expr {
    Null,
    Bool(bool),
    Number(Num),
    Str(String),
    Array(Vec<Expr>),
    Object(Vec<(ExprKey, Expr)>),
    /// Any other expression: templates, variables, traversals, calls, operations, ...
    Other,
}

/// `key = expr`
#[derive(Debug)]
pub struct TfAttribute {
    pub key: String,
    pub expr: Expr,
}

/// `identifier "label" ... { body }`
#[derive(Debug)]
pub struct TfBlock {
    pub identifier: String,
    pub labels: Vec<String>,
    pub body: TfBody,
}

/// One item of a body.
#[derive(Debug)]
pub enum TfItem {
    Attribute(TfAttribute),
    Block(TfBlock),
}

/// The attributes and blocks of a file or of a block, in source order.
#[derive(Debug)]
pub struct TfBody {
    pub structures: Vec<TfItem>,
}

/// A number as `hcl` makes one: where it has a value as an `i64` (it is an integer), its text
/// is that integer's decimal digits, as `Display` writes them.
pub open spec fn num_well_formed(n: Num) -> bool {
    n.int matches Some(i) ==> n.text@ == int_text(i as int)
}

/// Every number in `e` is `num_well_formed`.
pub open spec fn expr_well_formed(e: Expr) -> bool
    decreases e,
{
    match e {
        Expr::Number(n) => num_well_formed(n),
        Expr::Array(items) => exprs_well_formed(items@),
        Expr::Object(entries) => entries_well_formed(entries@),
        _ => true,
    }
}

/// Each of a list of expressions is `expr_well_formed`.
pub open spec fn exprs_well_formed(items: Seq<Expr>) -> bool
    decreases items,
{
    items.len() == 0 || (exprs_well_formed(items.drop_last()) && expr_well_formed(items.last()))
}

/// Each key and value of a list of object entries is well formed.
pub open spec fn entries_well_formed(entries: Seq<(ExprKey, Expr)>) -> bool
    decreases entries,
{
    entries.len() == 0 || (entries_well_formed(entries.drop_last()) && key_well_formed(
        entries.last().0,
    ) && expr_well_formed(entries.last().1))
}

/// An object key whose expression, if it has one, is well formed.
pub open spec fn key_well_formed(k: ExprKey) -> bool
    decreases k,
{
    match k {
        ExprKey::Identifier(_) => true,
        ExprKey::Expression(e) => expr_well_formed(e),
    }
}

/// Every number in a body, at any depth, is `num_well_formed`.
pub open spec fn body_well_formed(b: TfBody) -> bool
    decreases b,
{
    items_well_formed(b.structures@)
}

/// Each of a list of items is well formed.
pub open spec fn items_well_formed(items: Seq<TfItem>) -> bool
    decreases items,
{
    items.len() == 0 || (items_well_formed(items.drop_last()) && item_well_formed(items.last()))
}

/// An attribute whose expression, or a block whose body, is well formed.
pub open spec fn item_well_formed(item: TfItem) -> bool
    decreases item,
{
    match item {
        TfItem::Attribute(a) => expr_well_formed(a.expr),
        TfItem::Block(b) => body_well_formed(b.body),
    }
}

/// `items_well_formed` holds exactly when each item is well formed.
pub proof fn lemma_items_well_formed(items: Seq<TfItem>)
    ensures
        items_well_formed(items) <==> forall|k: int|
            0 <= k < items.len() ==> item_well_formed(#[trigger] items[k]),
    decreases items.len(),
{
    if items.len() > 0 {
        lemma_items_well_formed(items.drop_last());
        assert(forall|k: int| 0 <= k < items.len() - 1 ==> items.drop_last()[k] == items[k]);
    }
}

/// `entries_well_formed` holds exactly when each key and each value is well formed.
pub proof fn lemma_entries_well_formed(entries: Seq<(ExprKey, Expr)>)
    ensures
        entries_well_formed(entries) <==> forall|k: int|
            0 <= k < entries.len() ==> key_well_formed((#[trigger] entries[k]).0)
                && expr_well_formed(entries[k].1),
    decreases entries.len(),
{
    if entries.len() > 0 {
        lemma_entries_well_formed(entries.drop_last());
        assert(forall|k: int|
            0 <= k < entries.len() - 1 ==> entries.drop_last()[k] == entries[k]);
    }
}

/// What `hcl::parse` gives back for a source text, read into this model; `None` where it
/// reports an error.
pub uninterp spec fn hcl_parse_body(text: Seq<char>) -> Option<TfBody>;

/// The text of the error that `hcl::parse` reports for a source text.
pub uninterp spec fn hcl_parse_error(text: Seq<char>) -> Seq<char>;

/// Parses Terraform source with `hcl::parse`.
///
/// Trusted: the result is what `hcl::parse` returns on `text`, read into this model, and the
/// error is the text of its error. Nothing is claimed of which texts `hcl` accepts. Every
/// number in the tree is well formed: `hcl` writes an integer with `itoa`, as its decimal
/// digits, and one with a value as an `i64` is an integer.
#[verifier::external_body]
pub fn parse(text: &str) -> (res: Result<TfBody, String>)
    ensures
        match res {
            Ok(body) => hcl_parse_body(text@) == Some(body) && body_well_formed(body),
            Err(message) => hcl_parse_body(text@) is None && message@ == hcl_parse_error(text@),
        },
{
    hcl::parse(text).map(|b| body_from_hcl(&b)).map_err(|e| e.to_string())
}

/// `hcl`'s parse tree and its parts, carried only inside the steps of `parse`.
#[verifier::external_type_specification]
#[verifier::external_body]
pub struct ExHclBody(hcl::Body);

#[verifier::external_type_specification]
#[verifier::external_body]
pub struct ExHclStructure(hcl::Structure);

#[verifier::external_type_specification]
#[verifier::external_body]
pub struct ExHclExpression(hcl::Expression);

#[verifier::external_type_specification]
#[verifier::external_body]
pub struct ExHclObjectKey(hcl::ObjectKey);

#[verifier::external_type_specification]
#[verifier::external_body]
pub struct ExHclNumber(hcl::Number);

/// Reads an `hcl::Body` into the model, item by item, in order. A step of `parse`, which
/// carries the contract; it claims nothing itself.
#[verifier::external_body]
fn body_from_hcl(b: &hcl::Body) -> TfBody {
    TfBody { structures: b.iter().map(structure_from_hcl).collect() }
}

/// A step of `parse`: reads an `hcl::Structure` into the model: its key and expression, or its identifier, labels
/// (as `BlockLabel::as_str` gives them) and body.
#[verifier::external_body]
fn structure_from_hcl(s: &hcl::Structure) -> TfItem {
    match s {
        hcl::Structure::Attribute(a) => TfItem::Attribute(
            TfAttribute { key: a.key().to_string(), expr: expr_from_hcl(a.expr()) },
        ),
        hcl::Structure::Block(b) => TfItem::Block(TfBlock {
            identifier: b.identifier().to_string(),
            labels: b.labels().iter().map(|l| l.as_str().to_string()).collect(),
            body: body_from_hcl(b.body()),
        }),
    }
}

/// A step of `parse`: reads an `hcl::Expression` into the model, one arm per variant that the
/// model keeps.
#[verifier::external_body]
fn expr_from_hcl(e: &hcl::Expression) -> Expr {
    match e {
        hcl::Expression::Null => Expr::Null,
        hcl::Expression::Bool(b) => Expr::Bool(*b),
        hcl::Expression::Number(n) => Expr::Number(number_from_hcl(n)),
        hcl::Expression::String(s) => Expr::Str(s.clone()),
        hcl::Expression::Array(items) => Expr::Array(items.iter().map(expr_from_hcl).collect()),
        hcl::Expression::Object(o) => Expr::Object(
            o.iter().map(|(k, v)| (key_from_hcl(k), expr_from_hcl(v))).collect(),
        ),
        _ => Expr::Other,
    }
}

/// A step of `parse`: reads an `hcl::ObjectKey` into the model.
#[verifier::external_body]
fn key_from_hcl(k: &hcl::ObjectKey) -> ExprKey {
    match k {
        hcl::ObjectKey::Identifier(id) => ExprKey::Identifier(id.as_str().to_string()),
        hcl::ObjectKey::Expression(e) => ExprKey::Expression(expr_from_hcl(e)),
        _ => ExprKey::Expression(Expr::Other),
    }
}

/// A step of `parse`: reads an `hcl::Number` into the model: `as_i64`, the bits of `as_f64`, its `Display`, and
/// the `Display` of `as_f64`. `as_i64` has a value only for an integer, which `Display` writes
/// with `itoa`.
#[verifier::external_body]
fn number_from_hcl(n: &hcl::Number) -> (r: Num)
    ensures
        num_well_formed(r),
{
    Num {
        int: n.as_i64(),
        float_bits: n.as_f64().map_or(0, |x| x.to_bits()),
        text: n.to_string(),
        float_text: n.as_f64().map_or(String::new(), |x| x.to_string()),
    }
}

} // verus!
