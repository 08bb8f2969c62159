use vstd::prelude::*;

use crate::rules::TypeFilter;

verus! {

/// Parse-time options for loading a Public Suffix List into a rule set.
///
/// These affect parsing only; they do not change how lookups behave (see
/// `MatchOpts` for that).
#[derive(Clone, Copy)]
pub struct LoadOpts {
    /// How to handle PSL section markers (ICANN/PRIVATE) during parsing.
    pub sections: SectionPolicy,
    /// Which kinds of comment lines to accept while parsing.
    pub comments: CommentPolicy,
    /// If true, reject malformed rules with an error instead of skipping them.
    pub strict_rules: bool,
    /// If true, collect non-fatal parser warnings (e.g., duplicated rules).
    pub collect_warnings: bool,
}

impl LoadOpts {
    /// The value of `LoadOpts::default()`.
    pub open spec fn default_spec() -> LoadOpts {
        LoadOpts {
            sections: SectionPolicy::Auto,
            comments: CommentPolicy::Common,
            strict_rules: false,
            collect_warnings: false,
        }
    }
}

impl Default for LoadOpts {
    /// Honor section markers when present, accept the common comment styles,
    /// parse on a best-effort basis and collect no warning.
    fn default() -> (r: Self)
        ensures
            r == LoadOpts::default_spec(),
    {
        LoadOpts {
            sections: SectionPolicy::Auto,
            comments: CommentPolicy::Common,
            strict_rules: false,
            collect_warnings: false,
        }
    }
}

/// Policy for handling PSL section markers (ICANN / PRIVATE) during parsing.
#[derive(Clone, Copy, Debug, PartialEq, Eq, Structural)]
pub enum SectionPolicy {
    /// Honor section markers when present; tolerate files without markers.
    Auto,
    /// Ignore section markers; treat all rules as unclassified.
    Ignore,
    /// Require well-formed section markers; error if missing.
    Require,
}

/// Which comment syntaxes are accepted when parsing a PSL file.
#[derive(Clone, Copy, Debug, PartialEq, Eq, Structural)]
pub enum CommentPolicy {
    /// Accept the official `// ...` and the commonly seen `# ...` or `; ...` comments.
    Common,
    /// Accept only the official PSL `// ...` comments.
    OfficialOnly,
}

/// Normalization applied to the input host before matching.
///
/// - `lowercase`: lowercase ASCII A–Z before matching.
/// - `strip_trailing_dot`: strip a single trailing dot (root label), if present.
/// - `idna_ascii`: convert Unicode labels to IDNA ASCII (A-label) form before matching.
#[derive(Clone, Copy, Debug, PartialEq, Eq, Structural)]
pub struct Normalizer {
    /// Lowercase ASCII A–Z before matching.
    pub lowercase: bool,
    /// Strip a single trailing dot (root label), if present.
    pub strip_trailing_dot: bool,
    /// Convert Unicode labels to IDNA ASCII (A-label) form before matching.
    pub idna_ascii: bool,
}

impl Default for Normalizer {
    /// All normalization switched off.
    fn default() -> (r: Self)
        ensures
            !r.lowercase,
            !r.strip_trailing_dot,
            !r.idna_ascii,
    {
        Normalizer { lowercase: false, strip_trailing_dot: false, idna_ascii: false }
    }
}

impl Normalizer {
    /// The common ecosystem convention: lowercase,
    /// strip the trailing dot and map Unicode labels to ASCII.
    pub fn ps2() -> (r: Self)
        ensures
            r.lowercase,
            r.strip_trailing_dot,
            r.idna_ascii,
    {
        Normalizer { lowercase: true, strip_trailing_dot: true, idna_ascii: true }
    }

    /// A preset that disables all normalization.
    pub fn raw() -> (r: Self)
        ensures
            !r.lowercase,
            !r.strip_trailing_dot,
            !r.idna_ascii,
    {
        Normalizer { lowercase: false, strip_trailing_dot: false, idna_ascii: false }
    }

    /// A preset that only enables lowercasing.
    pub fn lowercase_only() -> (r: Self)
        ensures
            r.lowercase,
            !r.strip_trailing_dot,
            !r.idna_ascii,
    {
        Normalizer { lowercase: true, ..Self::raw() }
    }

    /// A preset that only enables stripping the trailing dot.
    pub fn strip_dot_only() -> (r: Self)
        ensures
            !r.lowercase,
            r.strip_trailing_dot,
            !r.idna_ascii,
    {
        Normalizer { strip_trailing_dot: true, ..Self::raw() }
    }

    /// A preset that only enables IDNA ASCII conversion.
    pub fn idna_only() -> (r: Self)
        ensures
            !r.lowercase,
            !r.strip_trailing_dot,
            r.idna_ascii,
    {
        Normalizer { idna_ascii: true, ..Self::raw() }
    }
}

/// Match-time options for splitting a host into prefix/SLL/SLD/TLD.
///
/// - `wildcard`: honor PSL wildcard rules (e.g., `*.uk`).
/// - `strict`: require a rule-derived suffix; when no rule matches, return
///   `None` instead of falling back to "last label is the suffix".
/// - `types`: which PSL sections are eligible for matching.
/// - `normalizer`: optional normalization applied to the host first.
#[derive(Clone, Copy)]
pub struct MatchOpts<'n> {
    /// Enable PSL wildcard rules (e.g., `*.uk`).
    pub wildcard: bool,
    /// Require a rule-derived suffix.
    pub strict: bool,
    /// Which PSL sections are eligible for matching (ICANN, Private, or Any).
    pub types: TypeFilter,
    /// Optional borrowed normalizer applied to the input host.
    pub normalizer: Option<&'n Normalizer>,
}

impl Default for MatchOpts<'_> {
    /// Wildcards on, non-strict, any section, and the `Normalizer::ps2` preset.
    fn default() -> (r: Self)
        ensures
            r.wildcard,
            !r.strict,
            r.types == TypeFilter::Any,
            r.normalizer == Some(&Normalizer::ps2_spec()),
    {
        MatchOpts {
            wildcard: true,
            strict: false,
            types: TypeFilter::Any,
            normalizer: Some(&Normalizer { lowercase: true, strip_trailing_dot: true, idna_ascii: true }),
        }
    }
}

impl Normalizer {
    /// The value of the `ps2` preset.
    pub open spec fn ps2_spec() -> Normalizer {
        Normalizer { lowercase: true, strip_trailing_dot: true, idna_ascii: true }
    }
}

impl<'n> MatchOpts<'n> {
    /// The `ps2` preset options (same as `Default`).
    pub fn ps2() -> (r: Self)
        ensures
            r.wildcard,
            !r.strict,
            r.types == TypeFilter::Any,
            r.normalizer == Some(&Normalizer::ps2_spec()),
    {
        Self::default()
    }

    /// The default options without any normalization.
    pub fn raw() -> (r: Self)
        ensures
            r.wildcard,
            !r.strict,
            r.types == TypeFilter::Any,
            r.normalizer is None,
    {
        MatchOpts { normalizer: None, ..Self::default() }
    }

    /// The default options with a custom normalizer.
    pub fn with_normalizer(n: &'n Normalizer) -> (r: Self)
        ensures
            r.wildcard,
            !r.strict,
            r.types == TypeFilter::Any,
            r.normalizer == Some(n),
    {
        MatchOpts { normalizer: Some(n), ..Self::default() }
    }
}

} // verus!
