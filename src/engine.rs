use vstd::prelude::*;

use crate::options::{MatchOpts, Normalizer};
use crate::rules::{Leaf, Node, NodeView, RuleSet, Type, TypeFilter};
use crate::text::{chars_of, chars_range, string_from_chars, substring};

verus! {

/// The constituent parts of a domain name, separated according to the
/// Public Suffix List rules.
#[derive(Debug, PartialEq, Eq, Clone)]
pub struct Parts {
    /// The part of the host left of the registrable domain, if any.
    /// For `www.example.com`, this is `www`.
    pub prefix: Option<String>,
    /// The second-level label: the label immediately left of the public suffix.
    /// For `www.example.com`, this is `example`.
    pub sll: Option<String>,
    /// The registrable domain (eTLD+1).
    /// For `www.example.com`, this is `example.com`.
    pub sld: Option<String>,
    /// The public suffix (eTLD).
    /// For `www.example.com`, this is `com`; for `www.example.co.uk`, `co.uk`.
    pub tld: String,
}

/// Mathematical model of `Parts`.
pub struct PartsView {
    pub prefix: Option<Seq<char>>,
    pub sll: Option<Seq<char>>,
    pub sld: Option<Seq<char>>,
    pub tld: Seq<char>,
}

pub open spec fn str_opt_view(o: Option<String>) -> Option<Seq<char>> {
    match o {
        Some(s) => Some(s@),
        None => None,
    }
}

impl View for Parts {
    type V = PartsView;

    open spec fn view(&self) -> PartsView {
        PartsView {
            prefix: str_opt_view(self.prefix),
            sll: str_opt_view(self.sll),
            sld: str_opt_view(self.sld),
            tld: self.tld@,
        }
    }
}

pub open spec fn parts_opt_view(o: Option<Parts>) -> Option<PartsView> {
    match o {
        Some(p) => Some(p@),
        None => None,
    }
}

impl Parts {
    /// The same parts, owning their text (they always do).
    pub fn into_owned(self) -> (r: Parts)
        ensures
            r@ == self@,
    {
        self
    }
}

/// Index of the last `.` strictly before position `e`, or -1 when there is none.
pub open spec fn last_dot_before(s: Seq<char>, e: int) -> int
    decreases e,
{
    if e <= 0 {
        -1
    } else if s[e - 1] == '.' {
        e - 1
    } else {
        last_dot_before(s, e - 1)
    }
}

/// Index of the first `.` at or after position `p`, or -1 when there is none.
pub open spec fn first_dot_from(s: Seq<char>, p: int) -> int
    decreases s.len() - p,
{
    if p < 0 || p >= s.len() {
        -1
    } else if s[p] == '.' {
        p
    } else {
        first_dot_from(s, p + 1)
    }
}

/// A host the matcher accepts: non-empty, no trailing dot, no empty label
/// between two dots.
pub open spec fn well_formed_host(s: Seq<char>) -> bool {
    &&& s.len() > 0
    &&& s.last() != '.'
    &&& forall|i: int| 0 <= i < s.len() - 1 && #[trigger] s[i] == '.' ==> s[i + 1] != '.'
}

/// Whether a rule of section `typ` is eligible under filter `f`.
pub open spec fn accepts(typ: Option<Type>, f: TypeFilter) -> bool {
    match f {
        TypeFilter::Any => true,
        TypeFilter::Icann => typ == Some(Type::Icann),
        TypeFilter::Private => typ == Some(Type::Private),
    }
}

/// The key under which wildcard children are stored.
pub open spec fn wildcard_key() -> Seq<char> {
    seq!['*']
}

/// Child of node `n` for label `lbl`: the exact label first, then, when
/// wildcards are honored, the wildcard child.
pub open spec fn child(t: Seq<NodeView>, n: int, lbl: Seq<char>, wildcard: bool) -> Option<usize> {
    if t[n].kids.contains_key(lbl) {
        Some(t[n].kids[lbl])
    } else if wildcard && t[n].kids.contains_key(wildcard_key()) {
        Some(t[n].kids[wildcard_key()])
    } else {
        None
    }
}

pub proof fn lemma_last_dot_before(s: Seq<char>, e: int)
    requires
        0 <= e <= s.len(),
    ensures
        -1 <= last_dot_before(s, e) < e,
        last_dot_before(s, e) >= 0 ==> s[last_dot_before(s, e)] == '.',
        forall|j: int| last_dot_before(s, e) < j < e ==> s[j] != '.',
    decreases e,
{
    if e > 0 && s[e - 1] != '.' {
        lemma_last_dot_before(s, e - 1);
    }
}

pub proof fn lemma_first_dot_from(s: Seq<char>, p: int)
    requires
        0 <= p <= s.len(),
    ensures
        first_dot_from(s, p) == -1 || p <= first_dot_from(s, p) < s.len(),
        first_dot_from(s, p) >= 0 ==> s[first_dot_from(s, p)] == '.',
        first_dot_from(s, p) == -1 ==> forall|j: int| p <= j < s.len() ==> s[j] != '.',
        first_dot_from(s, p) >= 0 ==> forall|j: int| p <= j < first_dot_from(s, p) ==> s[j] != '.',
    decreases s.len() - p,
{
    if p < s.len() && s[p] != '.' {
        lemma_first_dot_from(s, p + 1);
    }
}

#[via_fn]
proof fn walk_decreases(
    t: Seq<NodeView>,
    s: Seq<char>,
    wildcard: bool,
    types: TypeFilter,
    n: int,
    e: int,
    best: Option<int>,
) {
    if e >= 0 {
        lemma_last_dot_before_any(s, e);
    }
}

pub(crate) proof fn lemma_last_dot_before_any(s: Seq<char>, e: int)
    requires
        e >= 0,
    ensures
        -1 <= last_dot_before(s, e) < e,
    decreases e,
{
    if e > 0 && s[e - 1] != '.' {
        lemma_last_dot_before_any(s, e - 1);
    }
}

/// The matcher's walk: labels are read right to left, the label ending
/// (exclusively) at `e` first; `e < 0` means every label has been read.
/// Returns where the public suffix starts: the start of the deepest accepted
/// rule, or, at an accepted exception (which ends the walk), the label right
/// of the exception.
pub open spec fn walk(
    t: Seq<NodeView>,
    s: Seq<char>,
    wildcard: bool,
    types: TypeFilter,
    n: int,
    e: int,
    best: Option<int>,
) -> Option<int>
    decreases e + 1,
    via walk_decreases
{
    if e < 0 {
        best
    } else {
        let d = last_dot_before(s, e);
        match child(t, n, s.subrange(d + 1, e), wildcard) {
            None => best,
            Some(c) => if accepts(t[c as int].typ, types) {
                if t[c as int].leaf == Leaf::Negative {
                    Some(first_dot_from(s, d + 1) + 1)
                } else {
                    walk(t, s, wildcard, types, c as int, d, Some(d + 1))
                }
            } else {
                walk(t, s, wildcard, types, c as int, d, best)
            },
        }
    }
}

/// Where the public suffix of host `s` starts, if it has one: the rule
/// match, or in non-strict mode the last label when no rule applies.
pub open spec fn suffix_start(t: Seq<NodeView>, s: Seq<char>, o: MatchOpts) -> Option<int> {
    if !well_formed_host(s) {
        None
    } else {
        match walk(t, s, o.wildcard, o.types, 0, s.len() as int, None) {
            Some(st) => Some(st),
            None => if o.strict {
                None
            } else {
                Some(last_dot_before(s, s.len() as int) + 1)
            },
        }
    }
}

/// The public suffix of an already normalized host.
pub open spec fn tld_of(t: Seq<NodeView>, s: Seq<char>, o: MatchOpts) -> Option<Seq<char>> {
    match suffix_start(t, s, o) {
        Some(st) => Some(s.subrange(st, s.len() as int)),
        None => None,
    }
}

/// A single label that names no top-level rule of the trie.
pub open spec fn unlisted_label(t: Seq<NodeView>, tld: Seq<char>) -> bool {
    !tld.contains('.') && !t[0].kids.contains_key(tld)
}

/// All four parts of an already normalized host. A suffix covering the
/// whole host is also its registrable domain; an unlisted single-label
/// suffix collapses the registrable domain onto itself; otherwise the label
/// left of the suffix is the second-level label, the registrable domain runs
/// from it to the end, and what lies left of it is the prefix (a lone
/// leading dot is no prefix).
pub open spec fn split_of(t: Seq<NodeView>, s: Seq<char>, o: MatchOpts) -> Option<PartsView> {
    match suffix_start(t, s, o) {
        None => None,
        Some(st) => {
            let tld = s.subrange(st, s.len() as int);
            if st == 0 {
                Some(PartsView { prefix: None, sll: None, sld: Some(s), tld })
            } else if unlisted_label(t, tld) {
                Some(PartsView { prefix: None, sll: None, sld: Some(tld), tld })
            } else {
                let sld_end = st - 1;
                let idx = last_dot_before(s, sld_end);
                let start = if idx >= 0 {
                    idx + 1
                } else if s[0] == '.' {
                    1
                } else {
                    0
                };
                Some(
                    PartsView {
                        prefix: if idx > 0 {
                            Some(s.subrange(0, idx))
                        } else {
                            None
                        },
                        sll: if start < sld_end {
                            Some(s.subrange(start, sld_end))
                        } else {
                            None
                        },
                        sld: Some(s.subrange(start, s.len() as int)),
                        tld,
                    },
                )
            }
        },
    }
}

/// The registrable domain of an already normalized host.
pub open spec fn sld_of(t: Seq<NodeView>, s: Seq<char>, o: MatchOpts) -> Option<Seq<char>> {
    match split_of(t, s, o) {
        Some(p) => p.sld,
        None => None,
    }
}

/// Index of the last `.` in `s` strictly before position `end`, or -1.
/// Positions count characters.
pub fn rfind_dot(s: &str, end: isize) -> (r: isize)
    requires
        0 <= end <= s@.len(),
    ensures
        r == last_dot_before(s@, end as int),
{
    let cs = chars_of(s);
    match last_dot(&cs, end as usize) {
        Some(i) => i as isize,
        None => -1,
    }
}

pub(crate) fn last_dot(cs: &Vec<char>, end: usize) -> (r: Option<usize>)
    requires
        end <= cs@.len(),
    ensures
        match r {
            Some(i) => last_dot_before(cs@, end as int) == i && i < end,
            None => last_dot_before(cs@, end as int) == -1,
        },
{
    let mut i: usize = end;
    while i > 0
        invariant
            i <= end <= cs@.len(),
            last_dot_before(cs@, i as int) == last_dot_before(cs@, end as int),
        decreases i,
    {
        if cs[i - 1] == '.' {
            return Some(i - 1);
        }
        i = i - 1;
    }
    None
}

fn first_dot(cs: &Vec<char>, p: usize) -> (r: Option<usize>)
    requires
        p <= cs@.len(),
    ensures
        match r {
            Some(i) => first_dot_from(cs@, p as int) == i,
            None => first_dot_from(cs@, p as int) == -1,
        },
{
    let mut i: usize = p;
    while i < cs.len()
        invariant
            p <= i <= cs@.len(),
            first_dot_from(cs@, i as int) == first_dot_from(cs@, p as int),
        decreases cs@.len() - i,
    {
        if cs[i] == '.' {
            return Some(i);
        }
        i = i + 1;
    }
    None
}

fn has_dot(cs: &Vec<char>, lo: usize, hi: usize) -> (r: bool)
    requires
        lo <= hi <= cs@.len(),
    ensures
        r == cs@.subrange(lo as int, hi as int).contains('.'),
{
    let ghost sub = cs@.subrange(lo as int, hi as int);
    let mut i: usize = lo;
    while i < hi
        invariant
            lo <= i <= hi <= cs@.len(),
            sub == cs@.subrange(lo as int, hi as int),
            forall|j: int| lo <= j < i ==> cs@[j] != '.',
        decreases hi - i,
    {
        if cs[i] == '.' {
            assert(sub[i - lo] == '.');
            return true;
        }
        i = i + 1;
    }
    assert(!sub.contains('.')) by {
        assert forall|k: int| 0 <= k < sub.len() implies sub[k] != '.' by {
            assert(sub[k] == cs@[k + lo]);
        }
    }
    false
}

fn is_well_formed(cs: &Vec<char>) -> (r: bool)
    ensures
        r == well_formed_host(cs@),
{
    if cs.len() == 0 {
        return false;
    }
    if cs[cs.len() - 1] == '.' {
        return false;
    }
    let mut i: usize = 0;
    while i < cs.len() - 1
        invariant
            cs@.len() > 0,
            i < cs@.len(),
            forall|j: int| 0 <= j < i && #[trigger] cs@[j] == '.' ==> cs@[j + 1] != '.',
        decreases cs@.len() - i,
    {
        if cs[i] == '.' && cs[i + 1] == '.' {
            return false;
        }
        i = i + 1;
    }
    true
}

fn accept_type(n: &Node, filt: TypeFilter) -> (r: bool)
    ensures
        r == accepts(n.typ, filt),
{
    match (filt, n.typ) {
        (TypeFilter::Any, _) => true,
        (TypeFilter::Icann, Some(Type::Icann)) => true,
        (TypeFilter::Private, Some(Type::Private)) => true,
        _ => false,
    }
}

impl RuleSet {
    /// Where the public suffix of the (already normalized) host starts.
    fn match_tld(&self, cs: &Vec<char>, opts: MatchOpts) -> (r: Option<usize>)
        requires
            self.wf(),
        ensures
            match r {
                Some(i) => suffix_start(self@, cs@, opts) == Some(i as int) && i <= cs@.len(),
                None => suffix_start(self@, cs@, opts) is None,
            },
    {
        if !is_well_formed(cs) {
            return None;
        }
        let len = cs.len();
        let ghost t = self@;
        let ghost s = cs@;
        let ghost target = walk(t, s, opts.wildcard, opts.types, 0, len as int, None);
        let mut node: usize = 0;
        let mut end: usize = len;
        let mut more: bool = true;
        let mut best: Option<usize> = None;
        let star = "*";
        proof {
            reveal_strlit("*");
            assert(star@ == wildcard_key());
        }
        while more
            invariant
                t == self@,
                s == cs@,
                self.wf(),
                well_formed_host(s),
                target == walk(t, s, opts.wildcard, opts.types, 0, len as int, None),
                len == s.len(),
                node < t.len(),
                end <= len,
                star@ == wildcard_key(),
                best matches Some(b) ==> b <= len,
                walk(
                    t,
                    s,
                    opts.wildcard,
                    opts.types,
                    node as int,
                    if more {
                        end as int
                    } else {
                        -1
                    },
                    opt_int(best),
                ) == target,
            decreases (if more {
                end + 1
            } else {
                0
            }),
        {
            let d = last_dot(cs, end);
            proof {
                lemma_last_dot_before(s, end as int);
            }
            let lbl_start: usize = match d {
                Some(i) => i + 1,
                None => 0,
            };
            let lbl = substring(cs, lbl_start, end);
            let mut next = self.nodes[node].kids.get(lbl.as_str());
            if next.is_none() && opts.wildcard {
                next = self.nodes[node].kids.get(star);
            }
            assert(next == child(t, node as int, s.subrange(lbl_start as int, end as int), opts.wildcard));
            match next {
                None => {
                    more = false;
                },
                Some(c) => {
                    assert(c < t.len());
                    assert(t[c as int] == self.nodes@[c as int]@);
                    if accept_type(&self.nodes[c], opts.types) {
                        if self.nodes[c].leaf == Leaf::Negative {
                            let f = first_dot(cs, lbl_start);
                            proof {
                                lemma_first_dot_from(s, lbl_start as int);
                                assert(target == Some(first_dot_from(s, lbl_start as int) + 1));
                            }
                            return match f {
                                Some(i) => Some(i + 1),
                                None => Some(0),
                            };
                        }
                        best = Some(lbl_start);
                    }
                    node = c;
                    match d {
                        Some(i) => {
                            end = i;
                        },
                        None => {
                            more = false;
                        },
                    }
                },
            }
        }
        match best {
            Some(b) => Some(b),
            None => {
                if opts.strict {
                    None
                } else {
                    proof {
                        lemma_last_dot_before(s, len as int);
                    }
                    match last_dot(cs, len) {
                        Some(i) => Some(i + 1),
                        None => Some(0),
                    }
                }
            },
        }
    }
}

/// The ASCII form that IDNA processing gives a domain name, or `None` when
/// the name cannot be mapped.
pub uninterp spec fn domain_ascii_of(s: Seq<char>) -> Option<Seq<char>>;

/// Relies on `idna::domain_to_ascii`: the ASCII (A-label) form of a domain
/// name, or an error when it cannot be mapped; the outcome depends on the
/// name alone.
#[verifier::external_body]
fn domain_to_ascii(s: &str) -> (r: Option<String>)
    ensures
        str_opt_view(r) == domain_ascii_of(s@),
{
    idna::domain_to_ascii(s).ok()
}

/// ASCII lowercasing of one character.
pub open spec fn ascii_lower(c: char) -> char {
    if 'A' <= c <= 'Z' {
        ((c as u32) + 32) as char
    } else {
        c
    }
}

/// Every character is ASCII.
pub open spec fn all_ascii(s: Seq<char>) -> bool {
    forall|i: int| 0 <= i < s.len() ==> #[trigger] s[i] <= '\u{7f}'
}

/// The host as the normalizer of `o` leaves it: without a normalizer the
/// host as given; with one, a host that starts with two dots as given (it
/// stays malformed), any other with a single leading dot dropped, then each enabled
/// step in turn (trailing dot, ASCII lowercase, IDNA ASCII form for a
/// non-ASCII host, kept as it is when IDNA processing fails).
pub open spec fn normalized(s: Seq<char>, o: MatchOpts) -> Seq<char> {
    match o.normalizer {
        None => s,
        Some(n) => normalized_with(s, *n),
    }
}

pub open spec fn normalized_with(s: Seq<char>, n: Normalizer) -> Seq<char> {
    if starts_with_two_dots(s) {
        s
    } else {
        normalized_steps(s, n)
    }
}

/// The host begins with an empty label that dropping one leading dot does
/// not resolve.
pub open spec fn starts_with_two_dots(s: Seq<char>) -> bool {
    s.len() >= 2 && s[0] == '.' && s[1] == '.'
}

pub open spec fn normalized_steps(s: Seq<char>, n: Normalizer) -> Seq<char> {
    let base = if s.len() > 0 && s[0] == '.' {
        s.drop_first()
    } else {
        s
    };
    let trimmed = if n.strip_trailing_dot && base.len() > 0 && base.last() == '.' {
        base.drop_last()
    } else {
        base
    };
    let lowered = if n.lowercase {
        trimmed.map_values(|c: char| ascii_lower(c))
    } else {
        trimmed
    };
    if n.idna_ascii && !all_ascii(lowered) {
        match domain_ascii_of(lowered) {
            Some(a) => a,
            None => lowered,
        }
    } else {
        lowered
    }
}

fn lower_char(c: char) -> (r: char)
    ensures
        r == ascii_lower(c),
{
    if 'A' <= c && c <= 'Z' {
        ((c as u8) + 32) as char
    } else {
        c
    }
}

fn lower_all(cs: &Vec<char>) -> (r: Vec<char>)
    ensures
        r@ == cs@.map_values(|c: char| ascii_lower(c)),
{
    let mut out: Vec<char> = Vec::new();
    let mut i: usize = 0;
    while i < cs.len()
        invariant
            i <= cs@.len(),
            out@ == cs@.subrange(0, i as int).map_values(|c: char| ascii_lower(c)),
        decreases cs@.len() - i,
    {
        out.push(lower_char(cs[i]));
        i = i + 1;
        assert(out@ =~= cs@.subrange(0, i as int).map_values(|c: char| ascii_lower(c)));
    }
    assert(cs@.subrange(0, i as int) =~= cs@);
    out
}

pub(crate) fn is_all_ascii(cs: &Vec<char>) -> (r: bool)
    ensures
        r == all_ascii(cs@),
{
    let mut i: usize = 0;
    while i < cs.len()
        invariant
            i <= cs@.len(),
            forall|j: int| 0 <= j < i ==> #[trigger] cs@[j] <= '\u{7f}',
        decreases cs@.len() - i,
    {
        if cs[i] > '\u{7f}' {
            return false;
        }
        i = i + 1;
    }
    true
}

/// The host after the normalization that `opts` asks for.
fn normalize_view(s: &str, opts: MatchOpts) -> (r: Vec<char>)
    ensures
        r@ == normalized(s@, opts),
{
    let cs = chars_of(s);
    match opts.normalizer {
        None => cs,
        Some(n) => {
            if cs.len() >= 2 && cs[0] == '.' && cs[1] == '.' {
                return cs;
            }
            let mut out = if cs.len() > 0 && cs[0] == '.' {
                let rest = chars_range(&cs, 1, cs.len());
                assert(rest@ =~= cs@.drop_first());
                rest
            } else {
                cs
            };
            if n.strip_trailing_dot && out.len() > 0 && out[out.len() - 1] == '.' {
                out.pop();
            }
            if n.lowercase {
                out = lower_all(&out);
            }
            if n.idna_ascii && !is_all_ascii(&out) {
                let text = string_from_chars(out.as_slice());
                match domain_to_ascii(text.as_str()) {
                    Some(a) => {
                        out = chars_of(a.as_str());
                    },
                    None => {},
                }
            }
            out
        },
    }
}

impl RuleSet {
    /// Splits a host into prefix, second-level label, registrable domain and
    /// public suffix, after the normalization that `opts` asks for.
    pub fn split(&self, host: &str, opts: MatchOpts) -> (r: Option<Parts>)
        requires
            self.wf(),
        ensures
            parts_opt_view(r) == split_of(self@, normalized(host@, opts), opts),
    {
        let cs = normalize_view(host, opts);
        self.split_chars(&cs, opts)
    }

    /// The registrable domain (eTLD+1) of a host.
    pub fn sld(&self, host: &str, opts: MatchOpts) -> (r: Option<String>)
        requires
            self.wf(),
        ensures
            str_opt_view(r) == sld_of(self@, normalized(host@, opts), opts),
    {
        match self.split(host, opts) {
            Some(p) => p.sld,
            None => None,
        }
    }

    /// The public suffix (eTLD) of a host.
    pub fn tld(&self, host: &str, opts: MatchOpts) -> (r: Option<String>)
        requires
            self.wf(),
        ensures
            str_opt_view(r) == tld_of(self@, normalized(host@, opts), opts),
    {
        let cs = normalize_view(host, opts);
        match self.match_tld(&cs, opts) {
            Some(st) => Some(substring(&cs, st, cs.len())),
            None => None,
        }
    }

    fn split_chars(&self, cs: &Vec<char>, opts: MatchOpts) -> (r: Option<Parts>)
        requires
            self.wf(),
        ensures
            parts_opt_view(r) == split_of(self@, cs@, opts),
    {
        let st = match self.match_tld(cs, opts) {
            Some(st) => st,
            None => {
                return None;
            },
        };
        let len = cs.len();
        let tld = substring(cs, st, len);
        if st == 0 {
            assert(cs@.subrange(0, len as int) =~= cs@);
            return Some(Parts { prefix: None, sll: None, sld: Some(substring(cs, 0, len)), tld });
        }
        if !has_dot(cs, st, len) && !self.nodes[0].kids.contains_key(tld.as_str()) {
            let sld = tld.clone();
            return Some(Parts { prefix: None, sll: None, sld: Some(sld), tld });
        }
        let sld_end = st - 1;
        let idx = last_dot(cs, sld_end);
        let start: usize = match idx {
            Some(i) => i + 1,
            None => if cs[0] == '.' {
                1
            } else {
                0
            },
        };
        let prefix = match idx {
            Some(i) => if i > 0 {
                Some(substring(cs, 0, i))
            } else {
                None
            },
            None => None,
        };
        let sll = if start < sld_end {
            Some(substring(cs, start, sld_end))
        } else {
            None
        };
        let sld = substring(cs, start, len);
        Some(Parts { prefix, sll, sld: Some(sld), tld })
    }
}

pub open spec fn opt_int(o: Option<usize>) -> Option<int> {
    match o {
        Some(i) => Some(i as int),
        None => None,
    }
}

} // verus!
