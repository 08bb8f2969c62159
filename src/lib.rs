//! Public Suffix List matching: split a host name into prefix, second-level
//! label, registrable domain and public suffix.
use vstd::prelude::*;

pub mod engine;
pub mod laws;
pub mod errors;
pub mod loader;
pub mod options;
pub mod rules;
mod text;

pub use engine::{
    normalized, parts_opt_view, rfind_dot, sld_of, split_of, str_opt_view, tld_of, Parts,
    PartsView,
};
pub use errors::{Error, Result, RuleSyntax, Warning};
pub use loader::{error_matches, load_text, Loaded};
pub use options::{CommentPolicy, LoadOpts, MatchOpts, Normalizer, SectionPolicy};
pub use rules::{Leaf, Type, TypeFilter};

use rules::{NodeView, RuleSet};

verus! {

/// A compiled Public Suffix List and matcher.
///
/// Owns the parsed rule trie and answers:
/// - `tld`: the public suffix,
/// - `sld`: the registrable domain (eTLD+1),
/// - `split`: prefix / second-level label / registrable domain / suffix.
pub struct List {
    rules: RuleSet,
}

impl View for List {
    type V = Seq<NodeView>;

    closed spec fn view(&self) -> Seq<NodeView> {
        self.rules@
    }
}

impl Clone for List {
    /// A list with the same rules.
    fn clone(&self) -> (r: List)
        ensures
            r@ == self@,
    {
        proof {
            use_type_invariant(self);
        }
        List { rules: self.rules.clone() }
    }
}

impl core::str::FromStr for List {
    type Err = Error;

    /// Parses a list text with `LoadOpts::default()`.
    fn from_str(s: &str) -> core::result::Result<Self, Self::Err> {
        Self::parse(s)
    }
}

impl List {
    #[verifier::type_invariant]
    spec fn inv(&self) -> bool {
        self.rules.wf()
    }

    /// Parse a list text using `LoadOpts::default()`.
    pub fn parse(text: &str) -> (r: Result<Self>)
        ensures
            match r {
                Ok(l) => load_text(text@, LoadOpts::default_spec()) == Loaded::Rules(l@),
                Err(e) => error_matches(e, load_text(text@, LoadOpts::default_spec())),
            },
    {
        Self::parse_with(text, LoadOpts::default())
    }

    /// Parse a list text using explicit `LoadOpts`.
    ///
    /// Load options affect only parsing (handling of ICANN/PRIVATE sections,
    /// comment styles, strictness), not match-time behavior.
    pub fn parse_with(text: &str, opts: LoadOpts) -> (r: Result<Self>)
        ensures
            match r {
                Ok(l) => load_text(text@, opts) == Loaded::Rules(l@),
                Err(e) => error_matches(e, load_text(text@, opts)),
            },
    {
        match loader::load(text, opts) {
            Ok(rules) => Ok(List { rules }),
            Err(e) => Err(e),
        }
    }

    /// Registrable domain (eTLD+1) of `host`.
    ///
    /// Returns `None` when the normalized host is empty or malformed, or when
    /// `strict` is set and no rule matches. Without any rule (and not strict)
    /// the last label is the suffix.
    pub fn sld(&self, host: &str, opts: MatchOpts) -> (r: Option<String>)
        ensures
            str_opt_view(r) == sld_of(self@, normalized(host@, opts), opts),
    {
        proof {
            use_type_invariant(self);
        }
        self.rules.sld(host, opts)
    }

    /// Public suffix of `host`.
    ///
    /// Returns `None` only when the normalized host is empty or malformed, or
    /// when `strict` is set and no rule matches.
    pub fn tld(&self, host: &str, opts: MatchOpts) -> (r: Option<String>)
        ensures
            str_opt_view(r) == tld_of(self@, normalized(host@, opts), opts),
    {
        proof {
            use_type_invariant(self);
        }
        self.rules.tld(host, opts)
    }

    /// Split `host` into prefix / second-level label / registrable domain /
    /// public suffix.
    pub fn split(&self, host: &str, opts: MatchOpts) -> (r: Option<Parts>)
        ensures
            parts_opt_view(r) == split_of(self@, normalized(host@, opts), opts),
    {
        proof {
            use_type_invariant(self);
        }
        self.rules.split(host, opts)
    }
}

} // verus!
