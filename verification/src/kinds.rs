//! The primitive value kinds inferred for leaf text, their optionality
//! wrapper, and the text each one renders to in an emitted declaration.

use vstd::prelude::*;
use vstd::string::StringExecFns;

verus! {

/// Which fixed timestamp layout a text value matched during classification.
#[derive(Debug, Clone, Copy, PartialEq, Eq, Structural)]
pub enum TsKind {
    Naive,
    Rfc3339,
    Rfc2822,
}

/// The primitive kind inferred for a leaf's text. `Unset` marks a leaf that
/// never carried a text run.
#[derive(Debug, Clone, Copy, PartialEq, Eq, Structural)]
pub enum ValueKind {
    Unset,
    Text,
    Integer,
    Float,
    Url,
    Timestamp(TsKind),
}

/// A value kind tagged with whether the field is guaranteed present
/// (`Required`) or may be absent across observed siblings (`Optional`).
#[derive(Debug, Clone, Copy, PartialEq, Eq, Structural)]
pub enum ValueTypeOption {
    Optional(ValueKind),
    Required(ValueKind),
}

/// The same kind, with the optionality tag forced to `Optional`.
pub open spec fn make_optional(v: ValueTypeOption) -> ValueTypeOption {
    match v {
        ValueTypeOption::Optional(k) => ValueTypeOption::Optional(k),
        ValueTypeOption::Required(k) => ValueTypeOption::Optional(k),
    }
}

/// The inner kind, with the optionality tag dropped.
pub open spec fn kind_of(v: ValueTypeOption) -> ValueKind {
    match v {
        ValueTypeOption::Optional(k) => k,
        ValueTypeOption::Required(k) => k,
    }
}

impl ValueTypeOption {
    /// Forces the optionality tag to `Optional`, keeping the kind.
    pub fn optional(&mut self)
        ensures
            *final(self) == make_optional(*old(self)),
    {
        *self = match *self {
            ValueTypeOption::Optional(k) => ValueTypeOption::Optional(k),
            ValueTypeOption::Required(k) => ValueTypeOption::Optional(k),
        };
    }

    /// The type text this tagged kind renders to.
    pub fn render(&self) -> (r: String)
        ensures
            r@ == spec_render_vto(*self),
    {
        match *self {
            ValueTypeOption::Optional(ValueKind::Unset) => ValueKind::Unset.render().to_owned(),
            ValueTypeOption::Optional(k) => {
                let mut s = String::new();
                s.append("Option<");
                s.append(k.render());
                s.append(">");
                s
            },
            ValueTypeOption::Required(k) => k.render().to_owned(),
        }
    }
}

/// The type text a bare kind renders to in an emitted declaration.
pub open spec fn spec_render_kind(k: ValueKind) -> Seq<char> {
    match k {
        ValueKind::Text => "String"@,
        ValueKind::Unset => "Option<String>"@,
        ValueKind::Integer => "u64"@,
        ValueKind::Float => "f64"@,
        ValueKind::Url => "url::Url"@,
        ValueKind::Timestamp(TsKind::Naive) => "NaiveDateTime"@,
        ValueKind::Timestamp(TsKind::Rfc3339) => "DateTime<FixedOffset>"@,
        ValueKind::Timestamp(TsKind::Rfc2822) => "DateTime<FixedOffset>"@,
    }
}

/// The type text an optionality-tagged kind renders to: `Optional` wraps the
/// kind in `Option<..>`, except that an optional `Unset` already reads
/// `Option<String>` and is left bare.
pub open spec fn spec_render_vto(v: ValueTypeOption) -> Seq<char> {
    match v {
        ValueTypeOption::Optional(ValueKind::Unset) => spec_render_kind(ValueKind::Unset),
        ValueTypeOption::Optional(k) => "Option<"@ + spec_render_kind(k) + ">"@,
        ValueTypeOption::Required(k) => spec_render_kind(k),
    }
}

impl ValueKind {
    /// The type text this kind renders to.
    pub fn render(&self) -> (r: &'static str)
        ensures
            r@ == spec_render_kind(*self),
    {
        match *self {
            ValueKind::Text => "String",
            ValueKind::Unset => "Option<String>",
            ValueKind::Integer => "u64",
            ValueKind::Float => "f64",
            ValueKind::Url => "url::Url",
            ValueKind::Timestamp(TsKind::Naive) => "NaiveDateTime",
            ValueKind::Timestamp(TsKind::Rfc3339) => "DateTime<FixedOffset>",
            ValueKind::Timestamp(TsKind::Rfc2822) => "DateTime<FixedOffset>",
        }
    }
}

} // verus!
