//! Errors of parsing and validation.

use vstd::prelude::*;
use crate::text::{append, decimal, decimal_string, join, join_strings, owned, push_char};

verus! {

/// Main error type for Meteor operations
#[derive(Debug, Clone, PartialEq)]
pub enum MeteorError {
    /// Parse error with position and description
    ParseError { position: usize, message: String },
    /// Invalid token format
    InvalidToken { token: String, reason: String },
    /// Context violation (attempting cross-context access)
    ContextViolation { from_context: String, to_context: String, message: String },
    /// Namespace depth exceeded limits
    NamespaceTooDeep { namespace: String, depth: usize, max_depth: usize },
    /// Invalid bracket notation
    InvalidBracketNotation { key: String, reason: String },
    /// Invalid character in key or value
    InvalidCharacter { found: char, position: usize, context: String },
    /// Empty input or component
    EmptyInput { component: String },
    /// Empty token list when creating a meteor
    EmptyTokens,
    /// A token's namespace differs from its meteor's
    TokenNamespaceMismatch { meteor_namespace: String, token_namespace: String, token_key: String },
    /// Tokens of several namespaces other than the meteor's
    MixedTokenNamespaces { meteor_namespace: String, conflicting_namespaces: Vec<String> },
    /// Generic error for other cases
    Other(String),
}

/// The text of an error, as its display shows it.
pub open spec fn error_text(e: MeteorError) -> Seq<char> {
    match e {
        MeteorError::ParseError { position, message } => "Parse error at position "@ + decimal(
            position as nat,
        ) + ": "@ + message@,
        MeteorError::InvalidToken { token, reason } => "Invalid token '"@ + token@ + "': "@
            + reason@,
        MeteorError::ContextViolation { from_context, to_context, message } =>
            "Context violation from '"@ + from_context@ + "' to '"@ + to_context@ + "': "@
            + message@,
        MeteorError::NamespaceTooDeep { namespace, depth, max_depth } => "Namespace '"@
            + namespace@ + "' too deep ("@ + decimal(depth as nat) + " levels, max "@ + decimal(
            max_depth as nat,
        ) + ")"@,
        MeteorError::InvalidBracketNotation { key, reason } => "Invalid bracket notation in '"@
            + key@ + "': "@ + reason@,
        MeteorError::InvalidCharacter { found, position, context } => "Invalid character '"@
            + seq![found] + "' at position "@ + decimal(position as nat) + " in "@ + context@,
        MeteorError::EmptyInput { component } => "Empty input for "@ + component@,
        MeteorError::EmptyTokens => "Cannot create meteor with empty token list"@,
        MeteorError::TokenNamespaceMismatch { meteor_namespace, token_namespace, token_key } =>
            "Token '"@ + token_key@ + "' has namespace '"@ + token_namespace@
            + "' but meteor requires namespace '"@ + meteor_namespace@ + "'"@,
        MeteorError::MixedTokenNamespaces { meteor_namespace, conflicting_namespaces } =>
            "Meteor with namespace '"@ + meteor_namespace@
            + "' cannot contain tokens from namespaces: "@ + join(
            conflicting_namespaces@.map_values(|p: String| p@),
            ", "@,
        ),
        MeteorError::Other(message) => message@,
    }
}

impl MeteorError {
    /// Create a parse error
    pub fn parse(position: usize, message: &str) -> (e: Self)
        ensures
            e matches MeteorError::ParseError { position: p, message: m } && p == position && m@
                == message@,
    {
        MeteorError::ParseError { position, message: owned(message) }
    }

    /// Create an invalid token error
    pub fn invalid_token(token: &str, reason: &str) -> (e: Self)
        ensures
            e matches MeteorError::InvalidToken { token: t, reason: r } && t@ == token@ && r@
                == reason@,
    {
        MeteorError::InvalidToken { token: owned(token), reason: owned(reason) }
    }

    /// Create a context violation error
    pub fn context_violation(from: &str, to: &str, message: &str) -> (e: Self)
        ensures
            e matches MeteorError::ContextViolation { from_context: f, to_context: t, message: m }
                && f@ == from@ && t@ == to@ && m@ == message@,
    {
        MeteorError::ContextViolation {
            from_context: owned(from),
            to_context: owned(to),
            message: owned(message),
        }
    }

    /// Create a namespace depth error (the maximum recorded is 3)
    pub fn namespace_too_deep(namespace: &str, depth: usize) -> (e: Self)
        ensures
            e matches MeteorError::NamespaceTooDeep { namespace: n, depth: d, max_depth: m } && n@
                == namespace@ && d == depth && m == 3,
    {
        MeteorError::NamespaceTooDeep { namespace: owned(namespace), depth, max_depth: 3 }
    }

    /// Create a bracket notation error
    pub fn invalid_bracket(key: &str, reason: &str) -> (e: Self)
        ensures
            e matches MeteorError::InvalidBracketNotation { key: k, reason: r } && k@ == key@ && r@
                == reason@,
    {
        MeteorError::InvalidBracketNotation { key: owned(key), reason: owned(reason) }
    }

    /// Create an invalid character error
    pub fn invalid_char(found: char, position: usize, context: &str) -> (e: Self)
        ensures
            e matches MeteorError::InvalidCharacter { found: f, position: p, context: c } && f
                == found && p == position && c@ == context@,
    {
        MeteorError::InvalidCharacter { found, position, context: owned(context) }
    }

    /// Create an empty input error
    pub fn empty(component: &str) -> (e: Self)
        ensures
            e matches MeteorError::EmptyInput { component: c } && c@ == component@,
    {
        MeteorError::EmptyInput { component: owned(component) }
    }

    /// Create a generic error
    pub fn other(message: &str) -> (e: Self)
        ensures
            e matches MeteorError::Other(m) && m@ == message@,
    {
        MeteorError::Other(owned(message))
    }

    /// Create an empty tokens error
    pub fn empty_tokens() -> (e: Self)
        ensures
            e is EmptyTokens,
    {
        MeteorError::EmptyTokens
    }

    /// Create a token namespace mismatch error
    pub fn token_namespace_mismatch(meteor_namespace: &str, token_namespace: &str, token_key: &str) -> (e: Self)
        ensures
            e matches MeteorError::TokenNamespaceMismatch {
                meteor_namespace: m,
                token_namespace: t,
                token_key: k,
            } && m@ == meteor_namespace@ && t@ == token_namespace@ && k@ == token_key@,
    {
        MeteorError::TokenNamespaceMismatch {
            meteor_namespace: owned(meteor_namespace),
            token_namespace: owned(token_namespace),
            token_key: owned(token_key),
        }
    }

    /// Create a mixed token namespaces error
    pub fn mixed_token_namespaces(meteor_namespace: &str, conflicting_namespaces: Vec<String>) -> (e: Self)
        ensures
            e matches MeteorError::MixedTokenNamespaces {
                meteor_namespace: m,
                conflicting_namespaces: c,
            } && m@ == meteor_namespace@ && c == conflicting_namespaces,
    {
        MeteorError::MixedTokenNamespaces {
            meteor_namespace: owned(meteor_namespace),
            conflicting_namespaces,
        }
    }

    /// The error's text, as its display shows it.
    pub fn to_string(&self) -> (r: String)
        ensures
            r@ == error_text(*self),
    {
        match self {
            MeteorError::ParseError { position, message } => {
                let mut s = owned("Parse error at position ");
                append(&mut s, decimal_string(*position as u64).as_str());
                append(&mut s, ": ");
                append(&mut s, message.as_str());
                s
            },
            MeteorError::InvalidToken { token, reason } => {
                let mut s = owned("Invalid token '");
                append(&mut s, token.as_str());
                append(&mut s, "': ");
                append(&mut s, reason.as_str());
                s
            },
            MeteorError::ContextViolation { from_context, to_context, message } => {
                let mut s = owned("Context violation from '");
                append(&mut s, from_context.as_str());
                append(&mut s, "' to '");
                append(&mut s, to_context.as_str());
                append(&mut s, "': ");
                append(&mut s, message.as_str());
                s
            },
            MeteorError::NamespaceTooDeep { namespace, depth, max_depth } => {
                let mut s = owned("Namespace '");
                append(&mut s, namespace.as_str());
                append(&mut s, "' too deep (");
                append(&mut s, decimal_string(*depth as u64).as_str());
                append(&mut s, " levels, max ");
                append(&mut s, decimal_string(*max_depth as u64).as_str());
                append(&mut s, ")");
                s
            },
            MeteorError::InvalidBracketNotation { key, reason } => {
                let mut s = owned("Invalid bracket notation in '");
                append(&mut s, key.as_str());
                append(&mut s, "': ");
                append(&mut s, reason.as_str());
                s
            },
            MeteorError::InvalidCharacter { found, position, context } => {
                let mut s = owned("Invalid character '");
                push_char(&mut s, *found);
                append(&mut s, "' at position ");
                append(&mut s, decimal_string(*position as u64).as_str());
                append(&mut s, " in ");
                append(&mut s, context.as_str());
                assert(s@ =~= error_text(*self));
                s
            },
            MeteorError::EmptyInput { component } => {
                let mut s = owned("Empty input for ");
                append(&mut s, component.as_str());
                s
            },
            MeteorError::EmptyTokens => owned("Cannot create meteor with empty token list"),
            MeteorError::TokenNamespaceMismatch { meteor_namespace, token_namespace, token_key } => {
                let mut s = owned("Token '");
                append(&mut s, token_key.as_str());
                append(&mut s, "' has namespace '");
                append(&mut s, token_namespace.as_str());
                append(&mut s, "' but meteor requires namespace '");
                append(&mut s, meteor_namespace.as_str());
                append(&mut s, "'");
                s
            },
            MeteorError::MixedTokenNamespaces { meteor_namespace, conflicting_namespaces } => {
                let mut s = owned("Meteor with namespace '");
                append(&mut s, meteor_namespace.as_str());
                append(&mut s, "' cannot contain tokens from namespaces: ");
                append(&mut s, join_strings(conflicting_namespaces, ", ").as_str());
                s
            },
            MeteorError::Other(message) => owned(message.as_str()),
        }
    }
}

} // verus!
