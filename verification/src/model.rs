//! The value model: a discovered variable with its name, its declared type
//! text, the semantic kind that text classifies into, and its current value.

use crate::tokens::str_eq;
use vstd::prelude::*;

verus! {

/// The closed set of semantic kinds a declared type classifies into.
#[derive(Clone, Copy, PartialEq, Eq, Structural, Debug)]
pub enum SemanticType {
    Integer,
    Float,
    Boolean,
    Text,
    Unsupported,
}

/// The current value of a discovered variable. A float is carried as its
/// decimal digit text, which is rendered back verbatim.
#[derive(Debug, PartialEq)]
pub enum VariableValue {
    IntVal(i64),
    FloatVal(String),
    BoolVal(bool),
    TextVal(String),
    Unset,
}

/// The mathematical value of a `VariableValue`.
pub enum ValueView {
    IntVal(i64),
    FloatVal(Seq<char>),
    BoolVal(bool),
    TextVal(Seq<char>),
    Unset,
}

impl View for VariableValue {
    type V = ValueView;

    open spec fn view(&self) -> ValueView {
        match self {
            VariableValue::IntVal(i) => ValueView::IntVal(*i),
            VariableValue::FloatVal(s) => ValueView::FloatVal(s@),
            VariableValue::BoolVal(b) => ValueView::BoolVal(*b),
            VariableValue::TextVal(s) => ValueView::TextVal(s@),
            VariableValue::Unset => ValueView::Unset,
        }
    }
}

/// A typed local variable found by one discovery pass.
#[derive(Debug, PartialEq)]
pub struct Variable {
    pub name: String,
    pub type_text: String,
    pub semantic_type: SemanticType,
    pub value: VariableValue,
}

/// The mathematical value of a `Variable`.
pub struct VariableView {
    pub name: Seq<char>,
    pub type_text: Seq<char>,
    pub semantic_type: SemanticType,
    pub value: ValueView,
}

impl View for Variable {
    type V = VariableView;

    open spec fn view(&self) -> VariableView {
        VariableView {
            name: self.name@,
            type_text: self.type_text@,
            semantic_type: self.semantic_type,
            value: self.value@,
        }
    }
}

/// The value of a variable sequence: each variable by its view.
pub open spec fn vars_view(vs: Seq<Variable>) -> Seq<VariableView> {
    vs.map_values(|v: Variable| v@)
}

/// The closed classification table from declared type text to semantic kind.
pub open spec fn classify_spec(ty: Seq<char>) -> SemanticType {
    if ty == "i32"@ || ty == "i64"@ {
        SemanticType::Integer
    } else if ty == "f32"@ || ty == "f64"@ {
        SemanticType::Float
    } else if ty == "bool"@ {
        SemanticType::Boolean
    } else if ty == "&str"@ || ty == "String"@ {
        SemanticType::Text
    } else {
        SemanticType::Unsupported
    }
}

/// Classifies a declared type's text into its semantic kind.
pub fn classify(ty: &str) -> (r: SemanticType)
    ensures
        r == classify_spec(ty@),
{
    if str_eq(ty, "i32") || str_eq(ty, "i64") {
        SemanticType::Integer
    } else if str_eq(ty, "f32") || str_eq(ty, "f64") {
        SemanticType::Float
    } else if str_eq(ty, "bool") {
        SemanticType::Boolean
    } else if str_eq(ty, "&str") || str_eq(ty, "String") {
        SemanticType::Text
    } else {
        SemanticType::Unsupported
    }
}

/// The documented default value of each semantic kind.
pub open spec fn default_value_spec(t: SemanticType) -> ValueView {
    match t {
        SemanticType::Integer => ValueView::IntVal(0),
        SemanticType::Float => ValueView::FloatVal("0.0"@),
        SemanticType::Boolean => ValueView::BoolVal(false),
        SemanticType::Text => ValueView::TextVal(Seq::empty()),
        SemanticType::Unsupported => ValueView::Unset,
    }
}

/// The default value for a semantic kind: zero, `0.0`, `false`, the empty
/// text, or unset for an unsupported type.
pub fn default_value(t: SemanticType) -> (r: VariableValue)
    ensures
        r@ == default_value_spec(t),
{
    match t {
        SemanticType::Integer => VariableValue::IntVal(0),
        SemanticType::Float => VariableValue::FloatVal(String::from_str("0.0")),
        SemanticType::Boolean => VariableValue::BoolVal(false),
        SemanticType::Text => VariableValue::TextVal(String::new()),
        SemanticType::Unsupported => VariableValue::Unset,
    }
}

/// Whether a value carries the variant its semantic kind calls for:
/// an unsupported variable never holds a concrete value.
pub open spec fn value_fits(t: SemanticType, v: ValueView) -> bool {
    match t {
        SemanticType::Integer => v is IntVal,
        SemanticType::Float => v is FloatVal,
        SemanticType::Boolean => v is BoolVal,
        SemanticType::Text => v is TextVal,
        SemanticType::Unsupported => v is Unset,
    }
}

/// Well-formedness of a discovered variable: its semantic kind is the
/// classification of its declared type text, and its value fits that kind.
pub open spec fn var_wf(v: VariableView) -> bool {
    &&& v.semantic_type == classify_spec(v.type_text)
    &&& value_fits(v.semantic_type, v.value)
}

} // verus!
