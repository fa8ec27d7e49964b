//! The configured values that a backend attribute is compared with, as TOML gives them.

use vstd::prelude::*;

verus! {

/// A TOML float: the bits of its `f64` value, and the text that it is shown as.
#[derive(Debug)]
pub struct FloatText {
    pub bits: u64,
    pub text: String,
}

/// A TOML value. Datetimes and tables are never produced from a Terraform literal, so they are
/// carried only by the text that they are shown as.
#[derive(Debug)]
pub enum TomlValue {
    Str(String),
    Integer(i64),
    Float(FloatText),
    Boolean(bool),
    Array(Vec<TomlValue>),
    Other(String),
}

/// The mathematical form of a `TomlValue`.
pub enum TomlSpec {
    Str(Seq<char>),
    Integer(i64),
    Float(u64, Seq<char>),
    Boolean(bool),
    Array(Seq<TomlSpec>),
    Other(Seq<char>),
}

impl TomlValue {
    pub open spec fn spec_of(self) -> TomlSpec
        decreases self,
    {
        match self {
            TomlValue::Str(s) => TomlSpec::Str(s@),
            TomlValue::Integer(i) => TomlSpec::Integer(i),
            TomlValue::Float(f) => TomlSpec::Float(f.bits, f.text@),
            TomlValue::Boolean(b) => TomlSpec::Boolean(b),
            TomlValue::Array(items) => TomlSpec::Array(
                Seq::new(
                    items.len() as nat,
                    |i: int|
                        if 0 <= i < items.len() {
                            items@[i].spec_of()
                        } else {
                            TomlSpec::Other(Seq::empty())
                        },
                ),
            ),
            TomlValue::Other(s) => TomlSpec::Other(s@),
        }
    }
}

impl View for TomlValue {
    type V = TomlSpec;

    open spec fn view(&self) -> TomlSpec {
        self.spec_of()
    }
}

/// The view of an array is the views of its items.
pub proof fn lemma_array_spec(items: Vec<TomlValue>)
    ensures
        TomlValue::Array(items)@ is Array,
        TomlValue::Array(items)@->Array_0.len() == items@.len(),
        forall|i: int|
            0 <= i < items@.len() ==> #[trigger] TomlValue::Array(items)@->Array_0[i] == items@[i]@,
{
}

/// The bits of a NaN.
pub open spec fn is_nan_bits(x: u64) -> bool {
    (x & 0x7ff0_0000_0000_0000u64) == 0x7ff0_0000_0000_0000u64 && (x & 0x000f_ffff_ffff_ffffu64)
        != 0
}

/// The bits of a zero of either sign.
pub open spec fn is_zero_bits(x: u64) -> bool {
    (x & 0x7fff_ffff_ffff_ffffu64) == 0
}

/// `==` of two `f64`s, given by their bits: NaN equals nothing, and the two zeros are equal.
pub open spec fn float_bits_eq(a: u64, b: u64) -> bool {
    !is_nan_bits(a) && !is_nan_bits(b) && (a == b || (is_zero_bits(a) && is_zero_bits(b)))
}

/// `==` of two TOML values, as `toml::Value` compares them.
pub open spec fn toml_eq(a: TomlSpec, b: TomlSpec) -> bool
    decreases a,
{
    match a {
        TomlSpec::Str(x) => b matches TomlSpec::Str(y) && x == y,
        TomlSpec::Integer(x) => b matches TomlSpec::Integer(y) && x == y,
        TomlSpec::Float(x, _) => b matches TomlSpec::Float(y, _) && float_bits_eq(x, y),
        TomlSpec::Boolean(x) => b matches TomlSpec::Boolean(y) && x == y,
        TomlSpec::Array(xs) => b matches TomlSpec::Array(ys) && toml_seq_eq(xs, ys),
        TomlSpec::Other(x) => b matches TomlSpec::Other(y) && x == y,
    }
}

/// Two lists of TOML values of the same length, equal item by item.
pub open spec fn toml_seq_eq(xs: Seq<TomlSpec>, ys: Seq<TomlSpec>) -> bool
    decreases xs,
{
    if xs.len() != ys.len() {
        false
    } else if xs.len() == 0 {
        true
    } else {
        toml_seq_eq(xs.drop_last(), ys.drop_last()) && toml_eq(xs.last(), ys.last())
    }
}

/// `float_bits_eq`, computed.
pub fn float_eq(a: u64, b: u64) -> (r: bool)
    ensures
        r == float_bits_eq(a, b),
{
    let a_nan = (a & 0x7ff0_0000_0000_0000u64) == 0x7ff0_0000_0000_0000u64 && (a
        & 0x000f_ffff_ffff_ffffu64) != 0;
    let b_nan = (b & 0x7ff0_0000_0000_0000u64) == 0x7ff0_0000_0000_0000u64 && (b
        & 0x000f_ffff_ffff_ffffu64) != 0;
    let zeros = (a & 0x7fff_ffff_ffff_ffffu64) == 0 && (b & 0x7fff_ffff_ffff_ffffu64) == 0;
    !a_nan && !b_nan && (a == b || zeros)
}

} // verus!
