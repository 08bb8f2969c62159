use publicsuffix2::{List, LoadOpts, MatchOpts, Normalizer, SectionPolicy, TypeFilter};

const SECTIONED: &str = "// ===BEGIN ICANN DOMAINS===\ncom\nco.uk\n// ===END ICANN DOMAINS===\n// ===BEGIN PRIVATE DOMAINS===\nblogspot.com\n// ===END PRIVATE DOMAINS===\n";

#[test]
fn type_filter_selects_section() {
    let list = List::parse(SECTIONED).expect("rules");
    let any = MatchOpts::default();
    let icann = MatchOpts {
        types: TypeFilter::Icann,
        ..MatchOpts::default()
    };
    let private = MatchOpts {
        types: TypeFilter::Private,
        ..MatchOpts::default()
    };
    assert_eq!(list.tld("foo.blogspot.com", any).as_deref(), Some("blogspot.com"));
    assert_eq!(list.tld("foo.blogspot.com", icann).as_deref(), Some("com"));
    assert_eq!(list.tld("foo.blogspot.com", private).as_deref(), Some("blogspot.com"));
    assert_eq!(list.sld("foo.blogspot.com", icann).as_deref(), Some("blogspot.com"));
}

#[test]
fn interior_node_is_a_match_only_without_filter() {
    let list = List::parse(SECTIONED).expect("rules");
    let any = MatchOpts::default();
    let icann_strict = MatchOpts {
        types: TypeFilter::Icann,
        strict: true,
        ..MatchOpts::default()
    };
    assert_eq!(list.tld("foo.uk", any).as_deref(), Some("uk"));
    assert!(list.tld("foo.uk", icann_strict).is_none());
    assert_eq!(list.tld("a.foo.co.uk", icann_strict).as_deref(), Some("co.uk"));
}

#[test]
fn ignore_policy_leaves_rules_unclassified() {
    let opts = LoadOpts {
        sections: SectionPolicy::Ignore,
        ..LoadOpts::default()
    };
    let list = List::parse_with(SECTIONED, opts).expect("rules");
    let private_strict = MatchOpts {
        types: TypeFilter::Private,
        strict: true,
        ..MatchOpts::default()
    };
    assert!(list.tld("foo.blogspot.com", private_strict).is_none());
    assert_eq!(
        list.tld("foo.blogspot.com", MatchOpts::default()).as_deref(),
        Some("blogspot.com")
    );
}

#[test]
fn malformed_hosts_give_no_result() {
    let list = List::parse("com").expect("rules");
    let m = MatchOpts::default();
    assert!(list.split("", m).is_none());
    assert!(list.split("a..com", m).is_none());
    assert!(list.tld("a..com", m).is_none());
    assert!(list.split(".", m).is_none());
    assert!(list.split("example.com..", m).is_none());
    assert!(list.split("example.com.", MatchOpts::raw()).is_none());
}

#[test]
fn leading_dots_with_raw_options() {
    let list = List::parse("com").expect("rules");
    let p = list.split(".com", MatchOpts::raw()).expect("parts");
    assert_eq!(p.tld, "com");
    assert_eq!(p.sld.as_deref(), Some("com"));
    assert_eq!(p.sll, None);
    assert_eq!(p.prefix, None);

    let q = list.split(".example.com", MatchOpts::raw()).expect("parts");
    assert_eq!(q.sll.as_deref(), Some("example"));
    assert_eq!(q.sld.as_deref(), Some("example.com"));
    assert_eq!(q.prefix, None);

    assert!(list.split("..com", MatchOpts::default()).is_none());
    assert!(list.tld("..com", MatchOpts::default()).is_none());
    assert!(list.sld("..example.com.", MatchOpts::default()).is_none());
    assert!(list.split("..com", MatchOpts::raw()).is_none());
}

#[test]
fn lowercase_is_ascii_only_and_optional() {
    let list = List::parse("com").expect("rules");
    let p = list.split("WWW.Example.COM", MatchOpts::default()).expect("parts");
    assert_eq!(p.prefix.as_deref(), Some("www"));
    assert_eq!(p.sld.as_deref(), Some("example.com"));
    let raw = list.split("Example.COM", MatchOpts::raw()).expect("parts");
    assert_eq!(raw.tld, "COM");
    assert_eq!(raw.sld.as_deref(), Some("COM"));
}

#[test]
fn exception_at_top_level_keeps_whole_host() {
    let list = List::parse("!uk\ncom").expect("rules");
    let p = list.split("foo.uk", MatchOpts::default()).expect("parts");
    assert_eq!(p.tld, "foo.uk");
    assert_eq!(p.sld.as_deref(), Some("foo.uk"));
}

#[test]
fn deep_wildcard_reverts_to_last_match() {
    let list = List::parse("*.kawasaki.jp\njp").expect("rules");
    let m = MatchOpts::default();
    assert_eq!(list.tld("a.b.kawasaki.jp", m).as_deref(), Some("b.kawasaki.jp"));
    assert_eq!(list.tld("kawasaki.jp", m).as_deref(), Some("kawasaki.jp"));
    assert_eq!(list.tld("a.jp", m).as_deref(), Some("jp"));
    assert_eq!(list.sld("a.b.kawasaki.jp", m).as_deref(), Some("a.b.kawasaki.jp"));
}

#[test]
fn idna_maps_unicode_host_before_matching() {
    let list = List::parse("xn--55qx5d.cn\ncn").expect("rules");
    let m = MatchOpts::default();
    assert_eq!(
        list.tld("食狮.公司.cn", m).as_deref(),
        Some("xn--55qx5d.cn")
    );
    assert_eq!(
        list.sld("www.食狮.公司.cn", m).as_deref(),
        Some("xn--85x722f.xn--55qx5d.cn")
    );
    let no_idna = Normalizer {
        lowercase: true,
        strip_trailing_dot: true,
        idna_ascii: false,
    };
    assert_eq!(
        list.tld("食狮.公司.cn", MatchOpts::with_normalizer(&no_idna)).as_deref(),
        Some("cn")
    );
}

#[test]
fn tld_and_sld_agree_with_split() {
    let list = List::parse("com\n*.uk\n!city.uk").expect("rules");
    for host in ["a.b.example.com", "foo.city.uk", "x.y.uk", "uk", "org"] {
        let m = MatchOpts::default();
        let p = list.split(host, m).expect("parts");
        assert_eq!(list.tld(host, m), Some(p.tld.clone()));
        assert_eq!(list.sld(host, m), p.sld.clone());
    }
}

#[test]
fn list_clone_and_parts_into_owned() {
    let list = List::parse("com").expect("rules");
    let copy = list.clone();
    let p = list.split("a.b.com", MatchOpts::default()).expect("parts");
    let q = copy.split("a.b.com", MatchOpts::default()).expect("parts");
    assert_eq!(p, q);
    let owned = p.clone().into_owned();
    assert_eq!(owned, p);
}
