//! Limit profile of the library.
//!
//! The limits are those of the `default` profile: balanced values for
//! general use.  Security switches are all on.

use vstd::prelude::*;
use crate::text::{append, decimal, decimal_string, owned};

verus! {

/// Maximum length of one namespace part, in bytes.
pub const MAX_NAMESPACE_PART_LENGTH: usize = 64;

/// Namespaces this deep produce a warning but are accepted.
pub const NAMESPACE_WARNING_DEPTH: usize = 5;

/// Namespaces this deep are refused.
pub const NAMESPACE_ERROR_DEPTH: usize = 6;

/// Maximum meteors per shower collection.
pub const MAX_METEORS_PER_SHOWER: usize = 1000;

/// Maximum entries of an engine's command history.
pub const MAX_COMMAND_HISTORY: usize = 1000;

/// Maximum contexts in one storage.
pub const MAX_CONTEXTS: usize = 100;

/// Maximum key length of a token.
pub const MAX_TOKEN_KEY_LENGTH: usize = 128;

/// Maximum value length of a token.
pub const MAX_TOKEN_VALUE_LENGTH: usize = 2048;

/// The name of the active configuration profile.
pub fn config_profile() -> (r: &'static str)
    ensures
        r@ == "default"@,
{
    "default"
}

/// Whether runtime tampering prevention is on.
pub fn prevent_runtime_tampering() -> (r: bool)
    ensures
        r,
{
    true
}

/// Whether namespace characters are validated.
pub fn validate_namespace_characters() -> (r: bool)
    ensures
        r,
{
    true
}

/// Whether reserved words are refused.
pub fn enforce_reserved_words() -> (r: bool)
    ensures
        r,
{
    true
}

/// Whether control commands are recorded in an audit trail.
pub fn enable_command_audit_trail() -> (r: bool)
    ensures
        r,
{
    true
}

/// The text of `config_summary`.
pub open spec fn summary_text() -> Seq<char> {
    "Meteor Configuration Profile: default (from meteor.toml)\n- Max namespace part length: "@
        + decimal(64) + "\n- Namespace warning depth: "@ + decimal(5)
        + "\n- Namespace error depth: "@ + decimal(6) + "\n- Max meteors per shower: "@
        + decimal(1000) + "\n- Max command history: "@ + decimal(1000) + "\n- Max contexts: "@
        + decimal(100) + "\n- Max token key length: "@ + decimal(128)
        + "\n- Max token value length: "@ + decimal(2048)
        + "\n- Runtime tampering prevention: true\n- Namespace character validation: true\n- Reserved word enforcement: true\n- Command audit trail: true"@
}

/// A description of the active profile and its limits.
pub fn config_summary() -> (r: String)
    ensures
        r@ == summary_text(),
{
    let mut s = owned("Meteor Configuration Profile: default (from meteor.toml)\n- Max namespace part length: ");
    append(&mut s, decimal_string(64).as_str());
    append(&mut s, "\n- Namespace warning depth: ");
    append(&mut s, decimal_string(5).as_str());
    append(&mut s, "\n- Namespace error depth: ");
    append(&mut s, decimal_string(6).as_str());
    append(&mut s, "\n- Max meteors per shower: ");
    append(&mut s, decimal_string(1000).as_str());
    append(&mut s, "\n- Max command history: ");
    append(&mut s, decimal_string(1000).as_str());
    append(&mut s, "\n- Max contexts: ");
    append(&mut s, decimal_string(100).as_str());
    append(&mut s, "\n- Max token key length: ");
    append(&mut s, decimal_string(128).as_str());
    append(&mut s, "\n- Max token value length: ");
    append(&mut s, decimal_string(2048).as_str());
    append(
        &mut s,
        "\n- Runtime tampering prevention: true\n- Namespace character validation: true\n- Reserved word enforcement: true\n- Command audit trail: true",
    );
    s
}

} // verus!
