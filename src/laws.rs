use vstd::prelude::*;

use crate::engine::{
    last_dot_before, lemma_first_dot_from, lemma_last_dot_before, normalized,
    split_of, starts_with_two_dots, suffix_start, tld_of, unlisted_label, walk, well_formed_host,
};
use crate::options::{MatchOpts, Normalizer};
use crate::engine::{accepts, child, first_dot_from, lemma_last_dot_before_any, PartsView};
use crate::rules::{trie_wf, Leaf, NodeView, TypeFilter};

verus! {

/// `b` is a label boundary of `s`: its start, or the position right after a dot.
pub open spec fn boundary(s: Seq<char>, b: int) -> bool {
    b == 0 || (0 < b <= s.len() && s[b - 1] == '.')
}

proof fn lemma_walk_boundary(
    t: Seq<NodeView>,
    s: Seq<char>,
    wildcard: bool,
    types: TypeFilter,
    n: int,
    e: int,
    best: Option<int>,
)
    requires
        well_formed_host(s),
        e <= s.len(),
        best matches Some(b) ==> boundary(s, b) && b < s.len(),
    ensures
        walk(t, s, wildcard, types, n, e, best) matches Some(b) ==> boundary(s, b) && b < s.len(),
    decreases e + 1,
{
    if e >= 0 {
        lemma_last_dot_before(s, e);
        let d = last_dot_before(s, e);
        lemma_first_dot_from(s, d + 1);
        lemma_walk_boundary(t, s, wildcard, types, n, d, Some(d + 1));
        lemma_walk_boundary(t, s, wildcard, types, n, d, best);
        let lbl = s.subrange(d + 1, e);
        match crate::engine::child(t, n, lbl, wildcard) {
            None => {},
            Some(c) => {
                lemma_walk_boundary(t, s, wildcard, types, c as int, d, Some(d + 1));
                lemma_walk_boundary(t, s, wildcard, types, c as int, d, best);
            },
        }
    }
}

/// Every public suffix is non-empty and starts on a label boundary of the host.
pub proof fn lemma_suffix_on_boundary(t: Seq<NodeView>, s: Seq<char>, o: MatchOpts)
    ensures
        suffix_start(t, s, o) matches Some(st) ==> boundary(s, st) && st < s.len(),
{
    if well_formed_host(s) {
        lemma_walk_boundary(t, s, o.wildcard, o.types, 0, s.len() as int, None);
        lemma_last_dot_before(s, s.len() as int);
    }
}

/// Shape of a split: either the suffix is the whole (normalized) host and
/// neither a second-level label nor a prefix is present, or the registrable
/// domain is the second-level label, a dot and the suffix, and the host is
/// the prefix, a dot and the registrable domain (without a prefix, the
/// registrable domain itself, behind at most one leading dot).
///
/// Left out are the two shapes that collapse the registrable domain onto a
/// suffix shorter than the host: an unlisted single-label suffix, and a host
/// that is the suffix behind a lone leading dot.
pub proof fn lemma_split_shape(t: Seq<NodeView>, host: Seq<char>, o: MatchOpts)
    requires
        split_of(t, host, o) is Some,
        split_of(t, host, o)->0.tld != host ==> !unlisted_label(t, split_of(t, host, o)->0.tld)
            && host != seq!['.'] + split_of(t, host, o)->0.tld,
    ensures
        ({
            let p = split_of(t, host, o)->0;
            ||| (p.tld == host && p.sll is None && p.prefix is None && p.sld == Some(host))
            ||| (p.sll is Some && p.sld is Some && p.sld->0 == p.sll->0 + seq!['.'] + p.tld
                && match p.prefix {
                Some(x) => host == x + seq!['.'] + p.sld->0,
                None => host == p.sld->0 || host == seq!['.'] + p.sld->0,
            })
        }),
{
    let s = host;
    lemma_suffix_on_boundary(t, s, o);
    let st = suffix_start(t, s, o)->0;
    let p = split_of(t, s, o)->0;
    let tld = s.subrange(st, s.len() as int);
    if st == 0 {
        assert(tld =~= s);
    } else if !unlisted_label(t, tld) {
        let sld_end = st - 1;
        lemma_last_dot_before(s, sld_end);
        let idx = last_dot_before(s, sld_end);
        let start = if idx >= 0 {
            idx + 1
        } else if s[0] == '.' {
            1
        } else {
            0
        };
        assert(s[sld_end] == '.');
        if start >= sld_end {
            if idx >= 0 {
                assert(s[idx] == '.' && s[idx + 1] == '.');
            } else if sld_end == 1 {
                assert(s[0] == '.' && s[1] == '.');
            } else {
                assert(sld_end == 0);
                assert(s =~= seq!['.'] + tld);
            }
        }
        assert(start < sld_end);
        assert(p.sll == Some(s.subrange(start, sld_end)));
        assert(s.subrange(start, s.len() as int) =~= s.subrange(start, sld_end) + seq!['.'] + tld);
        if idx > 0 {
            assert(s =~= s.subrange(0, idx) + seq!['.'] + s.subrange(start, s.len() as int));
        } else if idx == 0 {
            assert(s =~= seq!['.'] + s.subrange(start, s.len() as int));
        } else if start == 1 {
            assert(s =~= seq!['.'] + s.subrange(start, s.len() as int));
        } else {
            assert(s =~= s.subrange(start, s.len() as int));
        }
    }
}

/// Strict mode yields a subset of non-strict results: whenever strict mode
/// finds a public suffix or a split for a host, non-strict mode, with the
/// same rules and otherwise the same options, finds the identical one.
pub proof fn lemma_strict_within_loose(t: Seq<NodeView>, host: Seq<char>, o: MatchOpts)
    ensures
        ({
            let strict = MatchOpts { strict: true, ..o };
            let loose = MatchOpts { strict: false, ..o };
            &&& tld_of(t, normalized(host, strict), strict) is Some ==> tld_of(
                t,
                normalized(host, loose),
                loose,
            ) == tld_of(t, normalized(host, strict), strict)
            &&& split_of(t, normalized(host, strict), strict) is Some ==> split_of(
                t,
                normalized(host, loose),
                loose,
            ) == split_of(t, normalized(host, strict), strict)
        }),
{
}

/// Normalizing first and then splitting without normalization gives the
/// parts that splitting with the normalization gives, for the normalizers
/// that strip the trailing dot and lowercase (no IDNA mapping).
pub proof fn lemma_normalize_round_trip(
    t: Seq<NodeView>,
    host: Seq<char>,
    o: MatchOpts,
    n: Normalizer,
)
    requires
        !n.idna_ascii,
        o.normalizer == Some(&n),
    ensures
        ({
            let raw = MatchOpts { normalizer: None, ..o };
            &&& split_of(t, normalized(normalized(host, o), raw), raw) == split_of(
                t,
                normalized(host, o),
                o,
            )
            &&& tld_of(t, normalized(normalized(host, o), raw), raw) == tld_of(
                t,
                normalized(host, o),
                o,
            )
        }),
{
}

/// With a normalizer, a host that starts with two dots has an empty label
/// that normalization does not resolve: it has no public suffix and no split.
pub proof fn lemma_double_leading_dot_refused(t: Seq<NodeView>, host: Seq<char>, o: MatchOpts)
    requires
        o.normalizer is Some,
        starts_with_two_dots(host),
    ensures
        tld_of(t, normalized(host, o), o) is None,
        split_of(t, normalized(host, o), o) is None,
{
    assert(!well_formed_host(host)) by {
        if host.len() > 2 {
            assert(host[0] == '.' && host[1] == '.');
        }
    }
}

/// Reading the labels of `rule` right to left from node `n` (the label
/// ending, exclusively, at `e` first) through exact child links, the node
/// reached at the last label, provided no node passed before it is an
/// exception rule eligible under `types`.
pub open spec fn exception_path(t: Seq<NodeView>, n: int, rule: Seq<char>, e: int, types: TypeFilter) -> Option<int>
    decreases e + 1,
    via exception_path_decreases
{
    if e < 0 {
        Some(n)
    } else {
        let d = last_dot_before(rule, e);
        let lbl = rule.subrange(d + 1, e);
        if !t[n].kids.contains_key(lbl) {
            None
        } else {
            let c = t[n].kids[lbl] as int;
            if d >= 0 && t[c].leaf == Leaf::Negative && accepts(t[c].typ, types) {
                None
            } else {
                exception_path(t, c, rule, d, types)
            }
        }
    }
}

#[via_fn]
proof fn exception_path_decreases(t: Seq<NodeView>, n: int, rule: Seq<char>, e: int, types: TypeFilter) {
    if e >= 0 {
        lemma_last_dot_before_any(rule, e);
    }
}

proof fn lemma_last_dot_in_tail(s: Seq<char>, q: int, e: int)
    requires
        boundary(s, q),
        0 <= q <= e <= s.len(),
    ensures
        last_dot_before(s, e) == q + last_dot_before(s.subrange(q, s.len() as int), e - q),
    decreases e - q,
{
    let tail = s.subrange(q, s.len() as int);
    if e > q {
        assert(tail[e - q - 1] == s[e - 1]);
        if s[e - 1] != '.' {
            lemma_last_dot_in_tail(s, q, e - 1);
        }
    }
}

proof fn lemma_walk_exception(
    t: Seq<NodeView>,
    s: Seq<char>,
    q: int,
    wildcard: bool,
    types: TypeFilter,
    n: int,
    e: int,
    best: Option<int>,
)
    requires
        boundary(s, q),
        q < s.len(),
        q <= e <= s.len(),
        exception_path(t, n, s.subrange(q, s.len() as int), e - q, types) matches Some(m)
            && t[m].leaf == Leaf::Negative && accepts(t[m].typ, types),
    ensures
        walk(t, s, wildcard, types, n, e, best) == Some(first_dot_from(s, q) + 1),
    decreases e + 1,
{
    let tail = s.subrange(q, s.len() as int);
    lemma_last_dot_in_tail(s, q, e);
    lemma_last_dot_before_any(tail, e - q);
    lemma_last_dot_before_any(s, e);
    let d = last_dot_before(s, e);
    let dt = last_dot_before(tail, e - q);
    assert(s.subrange(d + 1, e) =~= tail.subrange(dt + 1, e - q));
    let lbl = s.subrange(d + 1, e);
    let c = t[n].kids[lbl] as int;
    assert(child(t, n, lbl, wildcard) == Some(t[n].kids[lbl]));
    if dt >= 0 {
        lemma_walk_exception(t, s, q, wildcard, types, c, d, Some(d + 1));
        lemma_walk_exception(t, s, q, wildcard, types, c, d, best);
    } else {
        assert(d + 1 == q);
    }
}

/// An exception rule gives back exactly one label. Say the normalized host
/// `s` ends, from label boundary `q` on, with `l0.R`, where `l0` is one label
/// and `R` one or more; say `l0.R` is an exception rule: its labels, read
/// from the root through exact child links, reach an exception node eligible
/// under the type filter, and no eligible exception is passed on the way.
/// Then the public suffix is `R`, the second-level label is `l0` and the
/// registrable domain is `l0.R`, whatever wildcard or deeper rule would also
/// match; the prefix is what lies left of `l0.R`, if anything.
pub proof fn lemma_exception_gives_back_one_label(
    t: Seq<NodeView>,
    s: Seq<char>,
    o: MatchOpts,
    q: int,
)
    requires
        trie_wf(t),
        well_formed_host(s),
        0 <= q < s.len(),
        boundary(s, q),
        first_dot_from(s, q) > q,
        exception_path(t, 0, s.subrange(q, s.len() as int), s.len() - q, o.types) matches Some(m)
            && t[m].leaf == Leaf::Negative && accepts(t[m].typ, o.types),
    ensures
        ({
            let j = first_dot_from(s, q);
            split_of(t, s, o) == Some(
                PartsView {
                    prefix: if q > 1 {
                        Some(s.subrange(0, q - 1))
                    } else {
                        None
                    },
                    sll: Some(s.subrange(q, j)),
                    sld: Some(s.subrange(q, s.len() as int)),
                    tld: s.subrange(j + 1, s.len() as int),
                },
            )
        }),
{
    let len = s.len() as int;
    let tail = s.subrange(q, len);
    lemma_walk_exception(t, s, q, o.wildcard, o.types, 0, len, None);
    lemma_first_dot_from(s, q);
    let j = first_dot_from(s, q);
    let st = j + 1;
    assert(suffix_start(t, s, o) == Some(st));
    let tld = s.subrange(st, len);
    if !tld.contains('.') {
        // The first label read from the root is the whole suffix.
        lemma_last_dot_before(tail, len - q);
        let dt = last_dot_before(tail, len - q);
        assert(tail[j - q] == '.');
        if dt > j - q {
            assert(tld[dt + q - st] == tail[dt]);
        }
        assert(dt == j - q);
        assert(tail.subrange(dt + 1, len - q) =~= tld);
        assert(t[0].kids.contains_key(tld));
    }
    assert(!unlisted_label(t, tld));
    lemma_last_dot_before(s, j);
    let idx = last_dot_before(s, j);
    if q > 0 {
        assert(idx == q - 1);
    } else {
        assert(idx == -1);
        assert(s[0] != '.');
    }
}

} // verus!
