//! Meteor: a string-biased token data transport library.

pub mod text;
pub mod assoc;
pub mod escape;
pub mod split;
pub mod error;
pub mod bracket;
pub mod context;
pub mod config;
pub mod namespace;
pub mod key;
pub mod token;
pub mod meteor;
pub mod shower;
pub mod storage;
pub mod workspace;
pub mod export;
pub mod engine;
pub mod validators;
pub mod validation;
pub mod stream;
pub mod token_stream;
pub mod meteor_stream;
pub mod primary;
pub mod bucket;
pub mod transform;
pub mod organize;
pub mod parse;
pub mod console;
pub mod shell;

use vstd::prelude::*;
use crate::shower::{parse_shower_spec, MeteorShower};

verus! {

/// A named, versioned module of the library.
pub trait Module {
    /// The module's name.
    fn name(&self) -> &'static str;

    /// The module's version.
    fn version(&self) -> (r: &'static str)
        default_ensures
            r@ == "0.1.0"@,
    {
        "0.1.0"
    }
}

/// The meteor module.
pub struct MeteorModule;

impl Module for MeteorModule {
    fn name(&self) -> (r: &'static str)
        ensures
            r@ == "meteor"@,
    {
        "meteor"
    }
}

/// Parses `;`-separated fully addressed meteors into a shower.
pub fn parse_shower(input: &str) -> (r: Result<MeteorShower, String>)
    ensures
        match parse_shower_spec(input@) {
            Ok(v) => r matches Ok(s) && s@ == v,
            Err(m) => r matches Err(e) && e@ == m,
        },
{
    MeteorShower::parse(input)
}

} // verus!
