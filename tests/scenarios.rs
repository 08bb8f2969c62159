use publicsuffix2::rules::RuleSet;
use publicsuffix2::{List, MatchOpts, Normalizer};

fn uk_rules() -> List {
    List::parse("bar.uk\n*.uk\n!city.uk").expect("rules")
}

#[test]
fn exception_gives_back_one_label() {
    let list = List::parse("*.uk\n!city.uk").expect("rules");
    let p = list.split("foo.city.uk", MatchOpts::default()).expect("parts");
    assert_eq!(p.tld, "uk");
    assert_eq!(p.sld.as_deref(), Some("city.uk"));
    assert_eq!(p.sll.as_deref(), Some("city"));
    assert_eq!(p.prefix.as_deref(), Some("foo"));
}

#[test]
fn listed_rule_survives_wildcard_toggle() {
    let list = uk_rules();
    let on = MatchOpts::default();
    let off = MatchOpts {
        wildcard: false,
        ..MatchOpts::default()
    };
    assert_eq!(list.tld("foo.bar.uk", on).as_deref(), Some("bar.uk"));
    assert_eq!(list.tld("foo.bar.uk", off).as_deref(), Some("bar.uk"));
}

#[test]
fn wildcard_toggle_changes_unlisted_label() {
    let list = uk_rules();
    let on = MatchOpts::default();
    let off = MatchOpts {
        wildcard: false,
        ..MatchOpts::default()
    };
    assert_eq!(list.tld("foo.qux.uk", on).as_deref(), Some("qux.uk"));
    assert_eq!(list.tld("foo.qux.uk", off).as_deref(), Some("uk"));
    let p = list.split("foo.qux.uk", off).expect("parts");
    assert_eq!(p.sld.as_deref(), Some("qux.uk"));
    assert_eq!(p.sll.as_deref(), Some("qux"));
    assert_eq!(p.prefix.as_deref(), Some("foo"));
}

#[test]
fn wildcard_match_splits_foo_qux_uk() {
    let list = uk_rules();
    let p = list.split("foo.qux.uk", MatchOpts::default()).expect("parts");
    assert_eq!(p.tld, "qux.uk");
    assert_eq!(p.sld.as_deref(), Some("foo.qux.uk"));
    assert_eq!(p.sll.as_deref(), Some("foo"));
    assert_eq!(p.prefix, None);
}

#[test]
fn com_rule_splits_www_example_com() {
    let list = List::parse("com").expect("rules");
    let p = list.split("www.example.com", MatchOpts::default()).expect("parts");
    assert_eq!(p.prefix.as_deref(), Some("www"));
    assert_eq!(p.sll.as_deref(), Some("example"));
    assert_eq!(p.sld.as_deref(), Some("example.com"));
    assert_eq!(p.tld, "com");
}

#[test]
fn empty_rules_single_label_host() {
    let rs = RuleSet::default();
    let p = rs.split("localhost", MatchOpts::default()).expect("parts");
    assert_eq!(p.tld, "localhost");
    assert_eq!(p.sll, None);
    assert_eq!(p.prefix, None);
    assert_eq!(p.sld.as_deref(), Some("localhost"));
}

#[test]
fn unlisted_suffix_collapses_and_strict_refuses() {
    let list = List::parse("com").expect("rules");
    let loose = MatchOpts::default();
    let p = list.split("example.org", loose).expect("parts");
    assert_eq!(p.tld, "org");
    assert_eq!(p.sld.as_deref(), Some("org"));
    let strict = MatchOpts {
        strict: true,
        ..MatchOpts::default()
    };
    assert!(list.split("example.org", strict).is_none());
    assert!(list.tld("example.org", strict).is_none());
    assert!(list.sld("example.org", strict).is_none());
}

#[test]
fn trailing_dot_stripped_or_refused() {
    let list = List::parse("com").expect("rules");
    let with = list.split("example.com.", MatchOpts::default());
    let plain = list.split("example.com", MatchOpts::default());
    assert!(with.is_some());
    assert_eq!(with, plain);
    assert!(list.split("example.com.", MatchOpts::raw()).is_none());
}

#[test]
fn strict_result_equals_loose_result() {
    let list = List::parse("com\nco.uk").expect("rules");
    let strict = MatchOpts {
        strict: true,
        ..MatchOpts::default()
    };
    let loose = MatchOpts::default();
    for host in ["www.example.com", "a.b.co.uk", "com", "x.uk"] {
        let s = list.split(host, strict);
        if s.is_some() {
            assert_eq!(s, list.split(host, loose));
        }
        let t = list.tld(host, strict);
        if t.is_some() {
            assert_eq!(t, list.tld(host, loose));
        }
    }
    assert!(list.split("www.example.com", strict).is_some());
    assert!(list.split("www.example.net", strict).is_none());
    assert!(list.split("www.example.net", loose).is_some());
}

#[test]
fn normalized_host_split_raw_matches_normalizing_split() {
    let list = List::parse("com\nco.uk").expect("rules");
    let norm = Normalizer {
        lowercase: true,
        strip_trailing_dot: true,
        idna_ascii: false,
    };
    let with_norm = MatchOpts::with_normalizer(&norm);
    assert_eq!(
        list.split("WWW.Example.CO.UK.", with_norm),
        list.split("www.example.co.uk", MatchOpts::raw())
    );
    assert_eq!(
        list.split("Example.COM", MatchOpts::with_normalizer(&Normalizer::lowercase_only())),
        list.split("example.com", MatchOpts::raw())
    );
    let p = list.split("WWW.Example.CO.UK.", with_norm).expect("parts");
    assert_eq!(p.tld, "co.uk");
    assert_eq!(p.sld.as_deref(), Some("example.co.uk"));
}

#[test]
fn split_shape_sld_is_sll_dot_tld() {
    let list = List::parse("com\nco.uk").expect("rules");
    for host in ["a.b.c.example.co.uk", "example.com", ".x.example.com"] {
        let p = list.split(host, MatchOpts::raw()).expect("parts");
        let sld = p.sld.clone().expect("sld");
        let sll = p.sll.clone().expect("sll");
        assert_eq!(sld, format!("{}.{}", sll, p.tld));
        match p.prefix {
            Some(x) => assert_eq!(host, format!("{}.{}", x, sld)),
            None => assert!(host == sld || host == format!(".{}", sld)),
        }
    }
}

#[test]
fn exception_wins_over_deeper_rule_and_wildcard() {
    let list = List::parse("*.uk\n!city.uk\nx.city.uk").expect("rules");
    let p = list.split("a.x.city.uk", MatchOpts::default()).expect("parts");
    assert_eq!(p.tld, "uk");
    assert_eq!(p.sll.as_deref(), Some("city"));
    assert_eq!(p.sld.as_deref(), Some("city.uk"));
    assert_eq!(p.prefix.as_deref(), Some("a.x"));
}
