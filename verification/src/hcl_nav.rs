//! Lookups over the parse tree, and the comparison and rendering of literal values.
//!
//! Each lookup takes the first match in source order, as the iterator searches of the tree do.

use vstd::prelude::*;
use vstd::string::*;

use crate::syntax::{
    body_well_formed, entries_well_formed, expr_well_formed, item_well_formed, items_well_formed,
    lemma_entries_well_formed, lemma_items_well_formed, Expr, ExprKey, TfBlock, TfBody, TfItem,
};
use crate::text::{bool_str, bool_text, i64_text, int_text, join, lemma_join_push, str_eq};
use crate::value::{lemma_array_spec, float_eq, toml_eq, toml_seq_eq, FloatText, TomlSpec, TomlValue};

verus! {

/// The blocks among `items` whose identifier is `ident`, in order.
pub open spec fn blocks_named(items: Seq<TfItem>, ident: Seq<char>) -> Seq<TfBlock>
    decreases items.len(),
{
    if items.len() == 0 {
        Seq::empty()
    } else {
        let rest = blocks_named(items.drop_last(), ident);
        match items.last() {
            TfItem::Block(b) => if b.identifier@ == ident {
                rest.push(b)
            } else {
                rest
            },
            TfItem::Attribute(_) => rest,
        }
    }
}

/// The top-level blocks of `body` whose identifier is `ident`, in order.
pub open spec fn spec_top_blocks(body: TfBody, ident: Seq<char>) -> Seq<TfBlock> {
    blocks_named(body.structures@, ident)
}

/// The blocks that a list of references points at.
pub open spec fn derefs(v: Seq<&TfBlock>) -> Seq<TfBlock> {
    v.map_values(|b: &TfBlock| *b)
}

/// Top-level blocks of `body` whose identifier matches `ident` (e.g. `terraform`), in order.
pub fn top_blocks<'a>(body: &'a TfBody, ident: &str) -> (r: Vec<&'a TfBlock>)
    ensures
        derefs(r@) == spec_top_blocks(*body, ident@),
{
    let items = &body.structures;
    let mut out: Vec<&'a TfBlock> = Vec::new();
    let mut i: usize = 0;
    while i < items.len()
        invariant
            i <= items@.len(),
            items@ == body.structures@,
            derefs(out@) == blocks_named(items@.take(i as int), ident@),
        decreases items@.len() - i,
    {
        assert(items@.take(i + 1).drop_last() =~= items@.take(i as int));
        match &items[i] {
            TfItem::Block(b) => {
                if str_eq(b.identifier.as_str(), ident) {
                    out.push(b);
                }
            },
            TfItem::Attribute(_) => {},
        }
        assert(derefs(out@) =~= blocks_named(items@.take(i + 1), ident@));
        i = i + 1;
    }
    assert(items@.take(items@.len() as int) =~= items@);
    out
}


/// A block with identifier `ident` and, where `label` is given, that first label.
pub open spec fn block_matches(b: TfBlock, ident: Seq<char>, label: Option<Seq<char>>) -> bool {
    &&& b.identifier@ == ident
    &&& match label {
        None => true,
        Some(want) => b.labels@.len() > 0 && b.labels@[0]@ == want,
    }
}

/// The first block among `items` that `block_matches`.
pub open spec fn first_block(items: Seq<TfItem>, ident: Seq<char>, label: Option<Seq<char>>) -> Option<TfBlock>
    decreases items.len(),
{
    if items.len() == 0 {
        None
    } else {
        match items[0] {
            TfItem::Block(b) => if block_matches(b, ident, label) {
                Some(b)
            } else {
                first_block(items.drop_first(), ident, label)
            },
            TfItem::Attribute(_) => first_block(items.drop_first(), ident, label),
        }
    }
}

/// The first child block of `parent` with identifier `ident` and, where `label` is given, that
/// first label.
pub open spec fn spec_child_block(parent: TfBlock, ident: Seq<char>, label: Option<Seq<char>>) -> Option<TfBlock> {
    first_block(parent.body.structures@, ident, label)
}

/// An optional `str`, by its view.
pub open spec fn opt_view(o: Option<&str>) -> Option<Seq<char>> {
    match o {
        Some(s) => Some(s@),
        None => None,
    }
}

/// Whether `b` is named `ident` and, when `label` is `Some`, has that first label.
fn block_is(b: &TfBlock, ident: &str, label: Option<&str>) -> (r: bool)
    ensures
        r == block_matches(*b, ident@, opt_view(label)),
{
    if !str_eq(b.identifier.as_str(), ident) {
        return false;
    }
    match label {
        None => true,
        Some(want) => b.labels.len() > 0 && str_eq(b.labels[0].as_str(), want),
    }
}

/// The first child block of `parent` with the given `ident` and, when `label` is `Some`, a
/// matching first label. Used for `required_providers` (no label) and `backend "s3"` (label).
pub fn child_block<'a>(parent: &'a TfBlock, ident: &str, label: Option<&str>) -> (r: Option<&'a TfBlock>)
    ensures
        match r {
            Some(b) => spec_child_block(*parent, ident@, opt_view(label)) == Some(*b),
            None => spec_child_block(*parent, ident@, opt_view(label)) is None,
        },
{
    let items = &parent.body.structures;
    let mut i: usize = 0;
    assert(items@.skip(0) =~= items@);
    while i < items.len()
        invariant
            i <= items@.len(),
            items@ == parent.body.structures@,
            first_block(items@, ident@, opt_view(label)) == first_block(items@.skip(i as int), ident@, opt_view(label)),
        decreases items@.len() - i,
    {
        assert(items@.skip(i as int).drop_first() =~= items@.skip(i + 1));
        assert(items@.skip(i as int)[0] == items@[i as int]);
        match &items[i] {
            TfItem::Block(b) => {
                if block_is(b, ident, label) {
                    return Some(b);
                }
            },
            TfItem::Attribute(_) => {},
        }
        i = i + 1;
    }
    None
}

/// The expression of the first attribute among `items` whose key is `key`.
pub open spec fn first_attr(items: Seq<TfItem>, key: Seq<char>) -> Option<Expr>
    decreases items.len(),
{
    if items.len() == 0 {
        None
    } else {
        match items[0] {
            TfItem::Attribute(a) => if a.key@ == key {
                Some(a.expr)
            } else {
                first_attr(items.drop_first(), key)
            },
            TfItem::Block(_) => first_attr(items.drop_first(), key),
        }
    }
}

/// The expression of the attribute `key` of `body`: the first with that key.
pub open spec fn spec_attr(body: TfBody, key: Seq<char>) -> Option<Expr> {
    first_attr(body.structures@, key)
}

/// Read an attribute expression by key from a block body.
pub fn attr<'a>(body: &'a TfBody, key: &str) -> (r: Option<&'a Expr>)
    ensures
        match r {
            Some(e) => spec_attr(*body, key@) == Some(*e),
            None => spec_attr(*body, key@) is None,
        },
{
    let items = &body.structures;
    let mut i: usize = 0;
    assert(items@.skip(0) =~= items@);
    while i < items.len()
        invariant
            i <= items@.len(),
            items@ == body.structures@,
            first_attr(items@, key@) == first_attr(items@.skip(i as int), key@),
        decreases items@.len() - i,
    {
        assert(items@.skip(i as int).drop_first() =~= items@.skip(i + 1));
        assert(items@.skip(i as int)[0] == items@[i as int]);
        match &items[i] {
            TfItem::Attribute(a) => {
                if str_eq(a.key.as_str(), key) {
                    return Some(&a.expr);
                }
            },
            TfItem::Block(_) => {},
        }
        i = i + 1;
    }
    None
}

/// The attribute `key` of `body`, where it is a literal string.
pub open spec fn spec_attr_str(body: TfBody, key: Seq<char>) -> Option<Seq<char>> {
    match spec_attr(body, key) {
        Some(Expr::Str(s)) => Some(s@),
        _ => None,
    }
}

/// Read an attribute as a plain string, if it is a literal string.
pub fn attr_str<'a>(body: &'a TfBody, key: &str) -> (r: Option<&'a str>)
    ensures
        opt_view(r) == spec_attr_str(*body, key@),
{
    match attr(body, key) {
        Some(Expr::Str(s)) => Some(s.as_str()),
        _ => None,
    }
}

/// Whether an object key names `key`: an identifier, or a literal string expression.
pub open spec fn key_names(k: ExprKey, key: Seq<char>) -> bool {
    match k {
        ExprKey::Identifier(id) => id@ == key,
        ExprKey::Expression(Expr::Str(s)) => s@ == key,
        _ => false,
    }
}

/// The value of the first entry among `entries` whose key names `key`.
pub open spec fn first_entry(entries: Seq<(ExprKey, Expr)>, key: Seq<char>) -> Option<Expr>
    decreases entries.len(),
{
    if entries.len() == 0 {
        None
    } else if key_names(entries[0].0, key) {
        Some(entries[0].1)
    } else {
        first_entry(entries.drop_first(), key)
    }
}

/// The value under `key` of an object expression; `None` for any other expression.
pub open spec fn spec_object_get(e: Expr, key: Seq<char>) -> Option<Expr> {
    match e {
        Expr::Object(entries) => first_entry(entries@, key),
        _ => None,
    }
}

/// Look up a key inside an object expression (e.g. the `version` of a `required_providers`
/// entry).
pub fn object_get<'a>(expr: &'a Expr, key: &str) -> (r: Option<&'a Expr>)
    ensures
        match r {
            Some(e) => spec_object_get(*expr, key@) == Some(*e),
            None => spec_object_get(*expr, key@) is None,
        },
{
    let entries = match expr {
        Expr::Object(entries) => entries,
        _ => {
            return None;
        },
    };
    let mut i: usize = 0;
    assert(entries@.skip(0) =~= entries@);
    while i < entries.len()
        invariant
            i <= entries@.len(),
            spec_object_get(*expr, key@) == first_entry(entries@, key@),
            first_entry(entries@, key@) == first_entry(entries@.skip(i as int), key@),
        decreases entries@.len() - i,
    {
        assert(entries@.skip(i as int).drop_first() =~= entries@.skip(i + 1));
        assert(entries@.skip(i as int)[0] == entries@[i as int]);
        let names = match &entries[i].0 {
            ExprKey::Identifier(id) => str_eq(id.as_str(), key),
            ExprKey::Expression(Expr::Str(s)) => str_eq(s.as_str(), key),
            _ => false,
        };
        if names {
            return Some(&entries[i].1);
        }
        i = i + 1;
    }
    None
}

/// A parsed file's numbers stay well formed in what the checks read of it: each top-level
/// block named `ident` has a well-formed body.
pub proof fn lemma_blocks_named_well_formed(items: Seq<TfItem>, ident: Seq<char>)
    requires
        items_well_formed(items),
    ensures
        forall|k: int|
            0 <= k < blocks_named(items, ident).len() ==> body_well_formed(
                (#[trigger] blocks_named(items, ident)[k]).body,
            ),
    decreases items.len(),
{
    if items.len() > 0 {
        let rest = blocks_named(items.drop_last(), ident);
        lemma_blocks_named_well_formed(items.drop_last(), ident);
        assert(item_well_formed(items.last()));
        assert(forall|k: int| 0 <= k < rest.len() ==> blocks_named(items, ident)[k] == rest[k]);
        if let TfItem::Block(b) = items.last() {
            if b.identifier@ == ident {
                assert(blocks_named(items, ident)[rest.len() as int] == b);
            }
        }
    }
}

/// The first block among well-formed items that `block_matches` has a well-formed body.
pub proof fn lemma_first_block_well_formed(
    items: Seq<TfItem>,
    ident: Seq<char>,
    label: Option<Seq<char>>,
)
    requires
        items_well_formed(items),
    ensures
        first_block(items, ident, label) matches Some(b) ==> body_well_formed(b.body),
    decreases items.len(),
{
    lemma_items_well_formed(items);
    if items.len() > 0 {
        assert(item_well_formed(items[0]));
        lemma_items_well_formed(items.drop_first());
        assert(forall|k: int| 0 <= k < items.drop_first().len() ==> items.drop_first()[k] == items[k + 1]);
        lemma_first_block_well_formed(items.drop_first(), ident, label);
    }
}

/// The first attribute among well-formed items with a given key has a well-formed expression.
pub proof fn lemma_first_attr_well_formed(items: Seq<TfItem>, key: Seq<char>)
    requires
        items_well_formed(items),
    ensures
        first_attr(items, key) matches Some(e) ==> expr_well_formed(e),
    decreases items.len(),
{
    lemma_items_well_formed(items);
    if items.len() > 0 {
        assert(item_well_formed(items[0]));
        lemma_items_well_formed(items.drop_first());
        assert(forall|k: int| 0 <= k < items.drop_first().len() ==> items.drop_first()[k] == items[k + 1]);
        lemma_first_attr_well_formed(items.drop_first(), key);
    }
}

/// The value of the first entry with a given key among well-formed entries is well formed.
pub proof fn lemma_first_entry_well_formed(entries: Seq<(ExprKey, Expr)>, key: Seq<char>)
    requires
        entries_well_formed(entries),
    ensures
        first_entry(entries, key) matches Some(e) ==> expr_well_formed(e),
    decreases entries.len(),
{
    lemma_entries_well_formed(entries);
    if entries.len() > 0 {
        assert(expr_well_formed(entries[0].1));
        lemma_entries_well_formed(entries.drop_first());
        assert(forall|k: int| 0 <= k < entries.drop_first().len() ==> entries.drop_first()[k] == entries[k + 1]);
        lemma_first_entry_well_formed(entries.drop_first(), key);
    }
}

/// Every value that the checks read out of a parsed file (a top-level block, a child block,
/// an attribute, an object entry) keeps its numbers well formed, so that what `parse` promises
/// of the whole tree holds of each value compared.
pub proof fn lemma_read_well_formed(
    body: TfBody,
    parent: TfBlock,
    e: Expr,
    ident: Seq<char>,
    label: Option<Seq<char>>,
    key: Seq<char>,
)
    requires
        body_well_formed(body),
        body_well_formed(parent.body),
        expr_well_formed(e),
    ensures
        forall|k: int|
            0 <= k < spec_top_blocks(body, ident).len() ==> body_well_formed(
                (#[trigger] spec_top_blocks(body, ident)[k]).body,
            ),
        spec_child_block(parent, ident, label) matches Some(b) ==> body_well_formed(b.body),
        spec_attr(body, key) matches Some(a) ==> expr_well_formed(a),
        spec_object_get(e, key) matches Some(v) ==> expr_well_formed(v),
{
    lemma_blocks_named_well_formed(body.structures@, ident);
    lemma_first_block_well_formed(parent.body.structures@, ident, label);
    lemma_first_attr_well_formed(body.structures@, key);
    if let Expr::Object(entries) = e {
        lemma_first_entry_well_formed(entries@, key);
    }
}


/// The TOML value that a literal expression stands for: strings, booleans, numbers (an integer
/// where `hcl` gives an `i64`, else a float), and arrays of these. Anything else has none.
pub open spec fn spec_expr_to_toml(e: Expr) -> Option<TomlSpec>
    decreases e,
{
    match e {
        Expr::Str(s) => Some(TomlSpec::Str(s@)),
        Expr::Bool(b) => Some(TomlSpec::Boolean(b)),
        Expr::Number(n) => match n.int {
            Some(i) => Some(TomlSpec::Integer(i)),
            None => Some(TomlSpec::Float(n.float_bits, n.float_text@)),
        },
        Expr::Array(items) => match items_to_toml(items@) {
            Some(values) => Some(TomlSpec::Array(values)),
            None => None,
        },
        _ => None,
    }
}

/// The TOML values of a list of expressions, where each has one.
pub open spec fn items_to_toml(items: Seq<Expr>) -> Option<Seq<TomlSpec>>
    decreases items,
{
    if items.len() == 0 {
        Some(Seq::empty())
    } else {
        match (items_to_toml(items.drop_last()), spec_expr_to_toml(items.last())) {
            (Some(values), Some(v)) => Some(values.push(v)),
            _ => None,
        }
    }
}

/// Where a prefix has no TOML values, neither has the whole list.
proof fn lemma_items_none_extends(items: Seq<Expr>, k: int)
    requires
        0 <= k <= items.len(),
        items_to_toml(items.take(k)) is None,
    ensures
        items_to_toml(items) is None,
    decreases items.len(),
{
    if items.len() == k {
        assert(items.take(k) =~= items);
    } else {
        assert(items.drop_last().take(k) =~= items.take(k));
        lemma_items_none_extends(items.drop_last(), k);
    }
}

/// Convert a literal HCL expression into the equivalent TOML value so it can be compared
/// directly against a configured expected value. Returns `None` for non-literal expressions
/// (variables, traversals, function calls, interpolated templates, ...).
pub fn expr_to_toml(expr: &Expr) -> (r: Option<TomlValue>)
    ensures
        match r {
            Some(v) => spec_expr_to_toml(*expr) == Some(v@),
            None => spec_expr_to_toml(*expr) is None,
        },
    decreases expr,
{
    match expr {
        Expr::Str(s) => Some(TomlValue::Str(s.clone())),
        Expr::Bool(b) => Some(TomlValue::Boolean(*b)),
        Expr::Number(n) => match n.int {
            Some(i) => Some(TomlValue::Integer(i)),
            None => Some(TomlValue::Float(FloatText { bits: n.float_bits, text: n.float_text.clone() })),
        },
        Expr::Array(items) => {
            let mut out: Vec<TomlValue> = Vec::new();
            let mut i: usize = 0;
            while i < items.len()
                invariant
                    *expr == Expr::Array(*items),
                    i <= items@.len(),
                    items_to_toml(items@.take(i as int)) == Some(out@.map_values(|v: TomlValue| v@)),
                decreases items@.len() - i,
            {
                assert(decreases_to!(*expr => items@[i as int]));
                assert(items@.take(i + 1).drop_last() =~= items@.take(i as int));
                match expr_to_toml(&items[i]) {
                    Some(v) => {
                        out.push(v);
                        assert(out@.map_values(|v: TomlValue| v@) =~= items_to_toml(items@.take(i + 1)).unwrap());
                    },
                    None => {
                        assert(items_to_toml(items@.take(i + 1)) is None);
                        proof {
                            lemma_items_none_extends(items@, i + 1);
                        }
                        return None;
                    },
                }
                i = i + 1;
            }
            assert(items@.take(items@.len() as int) =~= items@);
            let r = TomlValue::Array(out);
            proof {
                lemma_array_spec(out);
            }
            assert(r@->Array_0 =~= out@.map_values(|v: TomlValue| v@));
            Some(r)
        },
        _ => None,
    }
}

/// `toml_eq`, computed: `==` of two TOML values.
pub fn toml_values_equal(a: &TomlValue, b: &TomlValue) -> (r: bool)
    ensures
        r == toml_eq(a@, b@),
    decreases a,
{
    match (a, b) {
        (TomlValue::Str(x), TomlValue::Str(y)) => str_eq(x.as_str(), y.as_str()),
        (TomlValue::Integer(x), TomlValue::Integer(y)) => *x == *y,
        (TomlValue::Float(x), TomlValue::Float(y)) => float_eq(x.bits, y.bits),
        (TomlValue::Boolean(x), TomlValue::Boolean(y)) => *x == *y,
        (TomlValue::Array(xs), TomlValue::Array(ys)) => {
            proof {
                lemma_array_spec(*xs);
                lemma_array_spec(*ys);
            }
            let ghost xv = a@->Array_0;
            let ghost yv = b@->Array_0;
            if xs.len() != ys.len() {
                return false;
            }
            let mut i: usize = 0;
            while i < xs.len()
                invariant
                    *a == TomlValue::Array(*xs),
                    *b == TomlValue::Array(*ys),
                    xv == a@->Array_0,
                    yv == b@->Array_0,
                    xv.len() == xs@.len(),
                    yv.len() == ys@.len(),
                    xs@.len() == ys@.len(),
                    forall|j: int| 0 <= j < xs@.len() ==> #[trigger] xv[j] == xs@[j]@,
                    forall|j: int| 0 <= j < ys@.len() ==> #[trigger] yv[j] == ys@[j]@,
                    i <= xs@.len(),
                    toml_seq_eq(xv.take(i as int), yv.take(i as int)),
                decreases xs@.len() - i,
            {
                assert(decreases_to!(*a => xs@[i as int]));
                assert(xv.take(i + 1).drop_last() =~= xv.take(i as int));
                assert(yv.take(i + 1).drop_last() =~= yv.take(i as int));
                if !toml_values_equal(&xs[i], &ys[i]) {
                    assert(!toml_seq_eq(xv.take(i + 1), yv.take(i + 1)));
                    proof {
                        lemma_seq_eq_prefix(xv, yv, i + 1);
                    }
                    return false;
                }
                i = i + 1;
            }
            assert(xv.take(xv.len() as int) =~= xv);
            assert(yv.take(yv.len() as int) =~= yv);
            true
        },
        (TomlValue::Other(x), TomlValue::Other(y)) => str_eq(x.as_str(), y.as_str()),
        _ => false,
    }
}

/// Lists equal item by item are equal on each prefix.
proof fn lemma_seq_eq_prefix(xs: Seq<TomlSpec>, ys: Seq<TomlSpec>, k: int)
    requires
        0 <= k <= xs.len(),
        xs.len() == ys.len(),
        !toml_seq_eq(xs.take(k), ys.take(k)),
    ensures
        !toml_seq_eq(xs, ys),
    decreases xs.len(),
{
    if xs.len() == k {
        assert(xs.take(k) =~= xs);
        assert(ys.take(k) =~= ys);
    } else {
        assert(xs.drop_last().take(k) =~= xs.take(k));
        assert(ys.drop_last().take(k) =~= ys.take(k));
        lemma_seq_eq_prefix(xs.drop_last(), ys.drop_last(), k);
    }
}

/// Whether a parsed expression is the literal for an expected TOML value.
pub open spec fn spec_expr_matches(e: Expr, expected: TomlSpec) -> bool {
    match spec_expr_to_toml(e) {
        Some(v) => toml_eq(v, expected),
        None => false,
    }
}

/// Compare a parsed expression against an expected config value.
pub fn expr_matches(expr: &Expr, expected: &TomlValue) -> (r: bool)
    ensures
        r == spec_expr_matches(*expr, expected@),
{
    match expr_to_toml(expr) {
        Some(v) => toml_values_equal(&v, expected),
        None => false,
    }
}


/// How a parsed expression is shown in a violation message.
pub open spec fn spec_expr_display(e: Expr) -> Seq<char>
    decreases e,
{
    match e {
        Expr::Str(s) => s@,
        Expr::Bool(b) => bool_text(b),
        Expr::Number(n) => n.text@,
        Expr::Array(items) => "["@ + join(expr_displays(items@), ", "@) + "]"@,
        Expr::Null => "null"@,
        _ => "<expression>"@,
    }
}

/// How each of a list of expressions is shown.
pub open spec fn expr_displays(items: Seq<Expr>) -> Seq<Seq<char>>
    decreases items,
{
    if items.len() == 0 {
        Seq::empty()
    } else {
        expr_displays(items.drop_last()).push(spec_expr_display(items.last()))
    }
}

/// Render an expression for use in a human-readable violation message.
pub fn expr_display(expr: &Expr) -> (r: String)
    ensures
        r@ == spec_expr_display(*expr),
    decreases expr,
{
    match expr {
        Expr::Str(s) => s.clone(),
        Expr::Bool(b) => String::from_str(bool_str(*b)),
        Expr::Number(n) => n.text.clone(),
        Expr::Array(items) => {
            let mut out = String::from_str("[");
            let mut i: usize = 0;
            while i < items.len()
                invariant
                    *expr == Expr::Array(*items),
                    i <= items@.len(),
                    out@ == "["@ + join(expr_displays(items@.take(i as int)), ", "@),
                decreases items@.len() - i,
            {
                assert(decreases_to!(*expr => expr->Array_0));
                assert(decreases_to!(*items => items@));
                assert(decreases_to!(items@ => items@[i as int]));
                assert(decreases_to!(*expr => items@[i as int]));
                assert(items@.take(i + 1).drop_last() =~= items@.take(i as int));
                proof {
                    lemma_join_push(
                        expr_displays(items@.take(i as int)),
                        spec_expr_display(items@[i as int]),
                        ", "@,
                    );
                }
                if i > 0 {
                    out.append(", ");
                }
                let shown = expr_display(&items[i]);
                out.append(shown.as_str());
                i = i + 1;
            }
            assert(items@.take(items@.len() as int) =~= items@);
            out.append("]");
            out
        },
        Expr::Null => String::from_str("null"),
        _ => String::from_str("<expression>"),
    }
}

/// How a configured value is shown in a violation message, in the same style as
/// `spec_expr_display`.
pub open spec fn spec_toml_display(v: TomlSpec) -> Seq<char>
    decreases v,
{
    match v {
        TomlSpec::Str(s) => s,
        TomlSpec::Boolean(b) => bool_text(b),
        TomlSpec::Integer(i) => int_text(i as int),
        TomlSpec::Float(_, text) => text,
        TomlSpec::Array(items) => "["@ + join(toml_displays(items), ", "@) + "]"@,
        TomlSpec::Other(text) => text,
    }
}

/// How each of a list of values is shown.
pub open spec fn toml_displays(items: Seq<TomlSpec>) -> Seq<Seq<char>>
    decreases items,
{
    if items.len() == 0 {
        Seq::empty()
    } else {
        toml_displays(items.drop_last()).push(spec_toml_display(items.last()))
    }
}

/// Render a configured expected value in the same style as `expr_display`, so found-vs-expected
/// messages line up.
pub fn toml_display(value: &TomlValue) -> (r: String)
    ensures
        r@ == spec_toml_display(value@),
    decreases value,
{
    match value {
        TomlValue::Str(s) => s.clone(),
        TomlValue::Boolean(b) => String::from_str(bool_str(*b)),
        TomlValue::Integer(i) => i64_text(*i),
        TomlValue::Float(f) => f.text.clone(),
        TomlValue::Array(items) => {
            proof {
                lemma_array_spec(*items);
            }
            let ghost iv = value@->Array_0;
            let mut out = String::from_str("[");
            let mut i: usize = 0;
            while i < items.len()
                invariant
                    *value == TomlValue::Array(*items),
                    iv == value@->Array_0,
                    iv.len() == items@.len(),
                    forall|j: int| 0 <= j < items@.len() ==> #[trigger] iv[j] == items@[j]@,
                    i <= items@.len(),
                    out@ == "["@ + join(toml_displays(iv.take(i as int)), ", "@),
                decreases items@.len() - i,
            {
                assert(decreases_to!(*value => items@[i as int]));
                assert(iv.take(i + 1).drop_last() =~= iv.take(i as int));
                proof {
                    lemma_join_push(
                        toml_displays(iv.take(i as int)),
                        spec_toml_display(iv[i as int]),
                        ", "@,
                    );
                }
                if i > 0 {
                    out.append(", ");
                }
                let shown = toml_display(&items[i]);
                out.append(shown.as_str());
                i = i + 1;
            }
            assert(iv.take(iv.len() as int) =~= iv);
            out.append("]");
            out
        },
        TomlValue::Other(s) => s.clone(),
    }
}

} // verus!
