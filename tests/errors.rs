use publicsuffix2::errors::{Error, Result as PslResult, RuleSyntax, Warning};

#[test]
fn rule_syntax_is_copy_and_debug() {
    let a = RuleSyntax::ContainsIllegalChar;
    let b = a;
    assert_eq!(format!("{:?}", a), format!("{:?}", b));
}

#[test]
fn warnings_are_cloneable_and_debuggable() {
    let ws = [
        Warning::DuplicateRule { rule: "foo".into() },
        Warning::ShadowedRule { rule: "bar".into() },
        Warning::UnknownMarker {
            line: "?? marker".into(),
        },
        Warning::TrailingDotRule {
            rule: "example.com.".into(),
        },
    ];
    for w in ws {
        let w2 = w.clone();
        assert_eq!(format!("{:?}", w), format!("{:?}", w2));
    }
}

#[test]
fn result_alias_compiles_and_is_ok() {
    let use_result = |r: PslResult<()>| -> PslResult<()> { r };
    let r: PslResult<()> = Ok(());
    let out = use_result(r);
    assert!(out.is_ok());
}

#[test]
fn error_variants_are_debuggable() {
    let variants = [
        Error::EmptyList,
        Error::MissingSections,
        Error::NotUtf8,
        Error::LabelTooLong {
            label: "too-long".into(),
        },
        Error::RuleDepthExceeded { depth: 42 },
        Error::InvalidRule {
            rule: "com..".into(),
            reason: RuleSyntax::HasEmptyLabel,
        },
    ];
    for e in variants {
        assert!(!format!("{:?}", e).is_empty());
    }
}
