//! Errors that abort a template expansion.

use vstd::prelude::*;

verus! {

/// Why a template could not be expanded.
#[derive(Debug, Clone, Copy, PartialEq, Eq, Structural)]
pub enum TemplateError {
    /// An opening variable delimiter has no closing delimiter after it.
    UnclosedExpression,
    /// The identifier in an expression holds a character other than a letter, a digit or `_`.
    InvalidIdentifier,
    /// No value is bound to an identifier and capture of local variables is off.
    MissingBinding,
    /// A self-closing element carries attributes on its (absent) closing tag.
    SelfClosingWithCloseAttrs,
    /// A self-closing element has children.
    SelfClosingWithChildren,
    /// A `virtual` element carries attributes that would be emitted.
    VirtualWithAttributes,
    /// The value of `present-if` is not a single variable.
    PresentIfNotVariable,
    /// A closing tag matches no open element, at the given line.
    UnexpectedClosingTag { line: usize },
    /// A component tag lacks its `name` attribute, at the given line.
    MissingComponentName { line: usize },
    /// The tokenizer reported malformed markup, at the given line.
    MalformedMarkup { line: usize },
    /// The template ended while an element was still open.
    UnclosedElement,
    /// A translation catalog could not be read.
    CatalogLoadError,
    /// The configuration holds a helper that does not parse.
    InvalidConfig,
}

} // verus!
