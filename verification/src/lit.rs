//! Reading literal tokens: classification of a literal's text and extraction
//! of its value are delegated to the outside parser behind one trusted
//! wrapper.

use vstd::prelude::*;

verus! {

/// What a literal token holds, as far as discovery reads it.
#[derive(Debug)]
pub enum LitInfo {
    /// An integer literal: its base-ten value, or nothing on `i64` overflow.
    IntLit(Option<i64>),
    /// A floating-point literal: its base-ten digit text, without suffix.
    FloatLit(String),
    /// A quoted text literal: its unescaped contents.
    StrLit(String),
    /// A boolean literal.
    BoolLit(bool),
    /// Any other literal form.
    OtherLit,
}

/// The mathematical value of a `LitInfo`.
pub enum LitInfoView {
    IntLit(Option<i64>),
    FloatLit(Seq<char>),
    StrLit(Seq<char>),
    BoolLit(bool),
    OtherLit,
}

impl View for LitInfo {
    type V = LitInfoView;

    open spec fn view(&self) -> LitInfoView {
        match self {
            LitInfo::IntLit(o) => LitInfoView::IntLit(*o),
            LitInfo::FloatLit(s) => LitInfoView::FloatLit(s@),
            LitInfo::StrLit(s) => LitInfoView::StrLit(s@),
            LitInfo::BoolLit(b) => LitInfoView::BoolLit(*b),
            LitInfo::OtherLit => LitInfoView::OtherLit,
        }
    }
}

/// What the literal reader returns for a literal token's text.
pub uninterp spec fn lit_info_of(s: Seq<char>) -> LitInfoView;

/// Relies on `syn::parse_str::<syn::Lit>` and on `syn::Lit`'s accessors
/// (`LitInt::base10_parse`, `LitFloat::base10_digits`, `LitStr::value`,
/// `LitBool::value`): classifies a literal token's text and extracts its
/// value, as a function of that text alone.
#[verifier::external_body]
pub fn lit_info(text: &str) -> (r: LitInfo)
    ensures
        r@ == lit_info_of(text@),
{
    match syn::parse_str::<syn::Lit>(text) {
        Ok(syn::Lit::Int(l)) => LitInfo::IntLit(l.base10_parse::<i64>().ok()),
        Ok(syn::Lit::Float(l)) => LitInfo::FloatLit(l.base10_digits().to_string()),
        Ok(syn::Lit::Str(l)) => LitInfo::StrLit(l.value()),
        Ok(syn::Lit::Bool(l)) => LitInfo::BoolLit(l.value),
        _ => LitInfo::OtherLit,
    }
}

} // verus!
