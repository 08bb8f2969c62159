use vstd::prelude::*;

use crate::engine::{
    all_ascii, is_all_ascii, last_dot, last_dot_before, lemma_last_dot_before_any, str_opt_view,
};
use crate::errors::{Error, Result, RuleSyntax};
use crate::options::{CommentPolicy, LoadOpts, SectionPolicy};
use crate::rules::{empty_node, trie_wf, Leaf, Node, NodeView, RuleSet, Type};
use crate::text::{chars_of, chars_range, string_from_chars, substring};

verus! {

/// Whether a character has the Unicode White_Space property (the property
/// that `char::is_whitespace` tests): tab through carriage return, space,
/// next line, no-break space, ogham space mark, en quad through hair space,
/// line and paragraph separators, narrow no-break space, medium mathematical
/// space and ideographic space.
pub open spec fn whitespace(c: char) -> bool {
    ||| '\u{9}' <= c <= '\u{d}'
    ||| c == ' '
    ||| c == '\u{85}'
    ||| c == '\u{a0}'
    ||| c == '\u{1680}'
    ||| '\u{2000}' <= c <= '\u{200a}'
    ||| c == '\u{2028}'
    ||| c == '\u{2029}'
    ||| c == '\u{202f}'
    ||| c == '\u{205f}'
    ||| c == '\u{3000}'
}

fn is_whitespace(c: char) -> (r: bool)
    ensures
        r == whitespace(c),
{
    ('\u{9}' <= c && c <= '\u{d}') || c == ' ' || c == '\u{85}' || c == '\u{a0}' || c
        == '\u{1680}' || ('\u{2000}' <= c && c <= '\u{200a}') || c == '\u{2028}' || c
        == '\u{2029}' || c == '\u{202f}' || c == '\u{205f}' || c == '\u{3000}'
}

/// The ASCII form that IDNA processing with the default configuration gives
/// a rule, or `None` when the rule cannot be mapped.
pub uninterp spec fn rule_ascii_of(s: Seq<char>) -> Option<Seq<char>>;

/// Relies on `idna::Config::to_ascii` with `Config::default()`: the ASCII
/// (A-label) form of a rule, or an error; the outcome depends on the rule
/// alone.
#[verifier::external_body]
#[allow(deprecated)]
fn rule_to_ascii(s: &str) -> (r: Option<String>)
    ensures
        str_opt_view(r) == rule_ascii_of(s@),
{
    idna::Config::default().to_ascii(s).ok()
}

// ---------------------------------------------------------------------
// The text format, stated over characters.
// ---------------------------------------------------------------------

/// Index of the first `c` at or after `p`, or `s.len()` when there is none.
pub open spec fn find_from(s: Seq<char>, c: char, p: int) -> int
    decreases s.len() - p,
{
    if p >= s.len() {
        s.len() as int
    } else if s[p] == c {
        p
    } else {
        find_from(s, c, p + 1)
    }
}

/// First index at or after `i` whose character fails `f` (or `s.len()`).
pub open spec fn skip_front(s: Seq<char>, f: spec_fn(char) -> bool, i: int) -> int
    decreases s.len() - i,
{
    if 0 <= i < s.len() && f(s[i]) {
        skip_front(s, f, i + 1)
    } else {
        i
    }
}

/// Going left from `e`, the end of the span left once characters
/// satisfying `f` are dropped, stopping at `lo`.
pub open spec fn skip_back(s: Seq<char>, f: spec_fn(char) -> bool, lo: int, e: int) -> int
    decreases e - lo,
{
    if lo < e <= s.len() && f(s[e - 1]) {
        skip_back(s, f, lo, e - 1)
    } else {
        e
    }
}

/// `s` without the leading and trailing characters that satisfy `f`.
pub open spec fn trim_by(s: Seq<char>, f: spec_fn(char) -> bool) -> Seq<char> {
    let a = skip_front(s, f, 0);
    s.subrange(a, skip_back(s, f, a, s.len() as int))
}

pub open spec fn ws() -> spec_fn(char) -> bool {
    |c: char| whitespace(c)
}

pub open spec fn not_ws() -> spec_fn(char) -> bool {
    |c: char| !whitespace(c)
}

pub open spec fn dot() -> spec_fn(char) -> bool {
    |c: char| c == '.'
}

/// The first whitespace-free token of a trimmed line.
pub open spec fn first_token(line: Seq<char>) -> Seq<char> {
    line.subrange(0, skip_front(line, not_ws(), 0))
}

pub open spec fn starts_with_slashes(line: Seq<char>) -> bool {
    line.len() >= 2 && line[0] == '/' && line[1] == '/'
}

/// A comment line under the given policy: `//` always, `#` and `;` too
/// under the common policy.
pub open spec fn comment_line(line: Seq<char>, policy: CommentPolicy) -> bool {
    match policy {
        CommentPolicy::Common => starts_with_slashes(line) || (line.len() > 0 && (line[0] == '#'
            || line[0] == ';')),
        CommentPolicy::OfficialOnly => starts_with_slashes(line),
    }
}

/// `pat` occurs in `s`.
pub open spec fn occurs(s: Seq<char>, pat: Seq<char>) -> bool {
    exists|i: int| 0 <= i <= s.len() - pat.len() && #[trigger] s.subrange(i, i + pat.len()) == pat
}

/// Section state after reading a comment line: a `BEGIN` marker opens its
/// section (and counts as a marker seen), an `END` marker closes it.
pub open spec fn after_markers(line: Seq<char>, cur: Option<Type>, saw: bool) -> (Option<Type>, bool) {
    if !starts_with_slashes(line) {
        (cur, saw)
    } else {
        let bi = occurs(line, "BEGIN ICANN DOMAINS"@);
        let c1 = if bi { Some(Type::Icann) } else { cur };
        let c2 = if occurs(line, "END ICANN DOMAINS"@) { None } else { c1 };
        let bp = occurs(line, "BEGIN PRIVATE DOMAINS"@);
        let c3 = if bp { Some(Type::Private) } else { c2 };
        let c4 = if occurs(line, "END PRIVATE DOMAINS"@) { None } else { c3 };
        (c4, saw || bi || bp)
    }
}

/// Inserting a rule: walk its labels right to left from node `n`, the label
/// ending (exclusively) at `e` first, creating missing children; the node
/// reached takes the rule's kind and section.
pub open spec fn insert_from(
    t: Seq<NodeView>,
    n: int,
    rule: Seq<char>,
    e: int,
    leaf: Leaf,
    typ: Option<Type>,
) -> Seq<NodeView>
    decreases e + 1,
    via insert_decreases
{
    if e < 0 {
        t.update(n, NodeView { leaf, typ, kids: t[n].kids })
    } else {
        let d = last_dot_before(rule, e);
        let lbl = rule.subrange(d + 1, e);
        if t[n].kids.contains_key(lbl) {
            insert_from(t, t[n].kids[lbl] as int, rule, d, leaf, typ)
        } else {
            let c = t.len();
            let t2 = t.update(
                n,
                NodeView { leaf: t[n].leaf, typ: t[n].typ, kids: t[n].kids.insert(lbl, c as usize) },
            ).push(empty_node());
            insert_from(t2, c as int, rule, d, leaf, typ)
        }
    }
}

#[via_fn]
proof fn insert_decreases(
    t: Seq<NodeView>,
    n: int,
    rule: Seq<char>,
    e: int,
    leaf: Leaf,
    typ: Option<Type>,
) {
    if e >= 0 {
        lemma_last_dot_before_any(rule, e);
    }
}

/// The trie after inserting `rule` with the given kind and section.
pub open spec fn insert_rule(t: Seq<NodeView>, rule: Seq<char>, leaf: Leaf, typ: Option<Type>) -> Seq<NodeView> {
    insert_from(t, 0, rule, rule.len() as int, leaf, typ)
}

/// The node reached from `n` by reading the labels of `rule` right to left,
/// the label ending (exclusively) at `e` first, through exact child links.
pub open spec fn follow(t: Seq<NodeView>, n: int, rule: Seq<char>, e: int) -> Option<int>
    decreases e + 1,
    via follow_decreases
{
    if e < 0 {
        Some(n)
    } else {
        let d = last_dot_before(rule, e);
        let lbl = rule.subrange(d + 1, e);
        if t[n].kids.contains_key(lbl) {
            follow(t, t[n].kids[lbl] as int, rule, d)
        } else {
            None
        }
    }
}

#[via_fn]
proof fn follow_decreases(t: Seq<NodeView>, n: int, rule: Seq<char>, e: int) {
    if e >= 0 {
        lemma_last_dot_before_any(rule, e);
    }
}

/// Every child link of `t` is a child link of `t2`.
pub open spec fn links_kept(t: Seq<NodeView>, t2: Seq<NodeView>) -> bool {
    &&& t.len() <= t2.len()
    &&& forall|i: int, k: Seq<char>|
        0 <= i < t.len() && #[trigger] t[i].kids.contains_key(k) ==> t2[i].kids.contains_key(k)
            && t2[i].kids[k] == t[i].kids[k]
}

proof fn lemma_insert_from(
    t: Seq<NodeView>,
    n: int,
    rule: Seq<char>,
    e: int,
    leaf: Leaf,
    typ: Option<Type>,
)
    requires
        trie_wf(t),
        0 <= n < t.len(),
        e >= 0 || n > 0,
        -1 <= e <= rule.len(),
        t.len() + e + 1 <= usize::MAX,
    ensures
        ({
            let t2 = insert_from(t, n, rule, e, leaf, typ);
            &&& trie_wf(t2)
            &&& links_kept(t, t2)
            &&& follow(t2, n, rule, e) matches Some(m) && 0 <= m < t2.len() && t2[m].leaf == leaf
                && t2[m].typ == typ
        }),
    decreases e + 1,
{
    if e >= 0 {
        lemma_last_dot_before_any(rule, e);
        let d = last_dot_before(rule, e);
        let lbl = rule.subrange(d + 1, e);
        if t[n].kids.contains_key(lbl) {
            let c = t[n].kids[lbl] as int;
            lemma_insert_from(t, c, rule, d, leaf, typ);
        } else {
            let c = t.len();
            let t1 = t.update(
                n,
                NodeView { leaf: t[n].leaf, typ: t[n].typ, kids: t[n].kids.insert(lbl, c as usize) },
            ).push(empty_node());
            assert(trie_wf(t1)) by {
                assert forall|i: int, k: Seq<char>|
                    0 <= i < t1.len() && #[trigger] t1[i].kids.contains_key(k) implies 0
                    < t1[i].kids[k] < t1.len() by {
                    if i != n && i < t.len() {
                        assert(t1[i] == t[i]);
                    }
                }
            }
            lemma_insert_from(t1, c as int, rule, d, leaf, typ);
            let t2 = insert_from(t1, c as int, rule, d, leaf, typ);
            assert(links_kept(t, t2)) by {
                assert forall|i: int, k: Seq<char>|
                    0 <= i < t.len() && #[trigger] t[i].kids.contains_key(k) implies t2[i].kids.contains_key(k)
                    && t2[i].kids[k] == t[i].kids[k] by {
                    assert(t1[i].kids.contains_key(k) && t1[i].kids[k] == t[i].kids[k]);
                }
            }
            assert(t1[n].kids.contains_key(lbl));
        }
    } else {
        let t2 = insert_from(t, n, rule, e, leaf, typ);
        assert(links_kept(t, t2)) by {
            assert forall|i: int, k: Seq<char>|
                0 <= i < t.len() && #[trigger] t[i].kids.contains_key(k) implies t2[i].kids.contains_key(k)
                && t2[i].kids[k] == t[i].kids[k] by {
                if i != n {
                    assert(t2[i] == t[i]);
                }
            }
        }
    }
}

/// Inserting a rule into a well-formed trie keeps it well formed and keeps
/// every child link; afterwards the rule's labels, read right to left from
/// the root through exact child links, lead to a node that carries the
/// rule's kind and section.
pub proof fn lemma_insert_rule_found(t: Seq<NodeView>, rule: Seq<char>, leaf: Leaf, typ: Option<Type>)
    requires
        trie_wf(t),
        t.len() + rule.len() + 1 <= usize::MAX,
    ensures
        ({
            let t2 = insert_rule(t, rule, leaf, typ);
            &&& trie_wf(t2)
            &&& links_kept(t, t2)
            &&& follow(t2, 0, rule, rule.len() as int) matches Some(m) && t2[m].leaf == leaf
                && t2[m].typ == typ
        }),
{
    lemma_insert_from(t, 0, rule, rule.len() as int, leaf, typ);
}

/// What the loader knows between lines.
pub struct LoadState {
    pub trie: Seq<NodeView>,
    pub cur: Option<Type>,
    pub saw: bool,
}

/// Outcome of reading lines: the state reached, or the (empty) rule that
/// strict parsing rejects.
pub enum Progress {
    Next(LoadState),
    Invalid(Seq<char>),
}

/// Section recorded for a rule read in state `st`.
pub open spec fn section_of(opts: LoadOpts, st: LoadState) -> Option<Type> {
    match opts.sections {
        SectionPolicy::Auto => if st.saw {
            st.cur
        } else {
            None
        },
        SectionPolicy::Ignore => None,
        SectionPolicy::Require => st.cur,
    }
}

/// Reading one line. Blank and comment lines only move the section state.
/// Otherwise the first token is the rule: a leading `!` marks an exception,
/// dots around it are dropped; an empty rule is skipped, or rejected under
/// strict parsing; a rule outside any section is skipped when sections are
/// required. A non-ASCII rule is inserted a second time in its IDNA ASCII
/// form, when that form exists and differs.
pub open spec fn load_line(st: LoadState, raw: Seq<char>, opts: LoadOpts) -> Progress {
    let line = trim_by(raw, ws());
    if line.len() == 0 || comment_line(line, opts.comments) {
        let (cur, saw) = after_markers(line, st.cur, st.saw);
        Progress::Next(LoadState { trie: st.trie, cur, saw })
    } else {
        let tok = first_token(line);
        let neg = tok.len() > 0 && tok[0] == '!';
        let raw_rule = if neg {
            tok.drop_first()
        } else {
            tok
        };
        let rule = trim_by(raw_rule, dot());
        if rule.len() == 0 {
            if opts.strict_rules {
                Progress::Invalid(raw_rule)
            } else {
                Progress::Next(st)
            }
        } else {
            let typ = section_of(opts, st);
            if opts.sections == SectionPolicy::Require && typ is None {
                Progress::Next(st)
            } else {
                let leaf = if neg {
                    Leaf::Negative
                } else {
                    Leaf::Positive
                };
                let t1 = insert_rule(st.trie, rule, leaf, typ);
                let t2 = if !all_ascii(rule) {
                    match rule_ascii_of(rule) {
                        Some(a) => if a != rule {
                            insert_rule(t1, a, leaf, typ)
                        } else {
                            t1
                        },
                        None => t1,
                    }
                } else {
                    t1
                };
                Progress::Next(LoadState { trie: t2, cur: st.cur, saw: st.saw })
            }
        }
    }
}

/// Reading the lines of `s` that start at or after position `p` (lines are
/// separated by `\n`).
pub open spec fn load_from(s: Seq<char>, opts: LoadOpts, p: int, st: LoadState) -> Progress
    decreases s.len() + 1 - p,
    via load_decreases
{
    if p >= s.len() {
        Progress::Next(st)
    } else {
        let e = find_from(s, '\n', p);
        match load_line(st, s.subrange(p, e), opts) {
            Progress::Invalid(r) => Progress::Invalid(r),
            Progress::Next(st2) => load_from(s, opts, e + 1, st2),
        }
    }
}

#[via_fn]
proof fn load_decreases(s: Seq<char>, opts: LoadOpts, p: int, st: LoadState) {
    if p < s.len() {
        lemma_find_from(s, '\n', p);
    }
}

proof fn lemma_find_from(s: Seq<char>, c: char, p: int)
    requires
        p <= s.len(),
    ensures
        p <= find_from(s, c, p) <= s.len(),
    decreases s.len() - p,
{
    if p < s.len() && s[p] != c {
        lemma_find_from(s, c, p + 1);
    }
}

/// A trie holding only its root.
pub open spec fn root_only() -> Seq<NodeView> {
    seq![empty_node()]
}

/// What loading a list text gives.
pub enum Loaded {
    Rules(Seq<NodeView>),
    InvalidRule(Seq<char>),
    MissingSections,
    EmptyList,
}

/// The meaning of a list text under the given options.
pub open spec fn load_text(s: Seq<char>, opts: LoadOpts) -> Loaded {
    match load_from(s, opts, 0, LoadState { trie: root_only(), cur: None, saw: false }) {
        Progress::Invalid(r) => Loaded::InvalidRule(r),
        Progress::Next(st) => if opts.sections == SectionPolicy::Require && !st.saw {
            Loaded::MissingSections
        } else if st.trie[0].kids.dom() == Set::<Seq<char>>::empty() {
            Loaded::EmptyList
        } else {
            Loaded::Rules(st.trie)
        },
    }
}

/// `e` is the error that the outcome `l` of loading calls for.
pub open spec fn error_matches(e: Error, l: Loaded) -> bool {
    match e {
        Error::InvalidRule { rule, reason } => reason == RuleSyntax::Empty && l == Loaded::InvalidRule(
            rule@,
        ),
        Error::MissingSections => l == Loaded::MissingSections,
        Error::EmptyList => l == Loaded::EmptyList,
        _ => false,
    }
}

// ---------------------------------------------------------------------
// The loader.
// ---------------------------------------------------------------------

fn find_char(cs: &Vec<char>, c: char, p: usize) -> (r: usize)
    requires
        p <= cs@.len(),
    ensures
        r == find_from(cs@, c, p as int),
        p <= r <= cs@.len(),
{
    let mut i: usize = p;
    while i < cs.len()
        invariant
            p <= i <= cs@.len(),
            find_from(cs@, c, i as int) == find_from(cs@, c, p as int),
        decreases cs@.len() - i,
    {
        if cs[i] == c {
            return i;
        }
        i = i + 1;
    }
    i
}

/// The line without leading and trailing whitespace.
fn trim_ws(cs: &Vec<char>) -> (r: Vec<char>)
    ensures
        r@ == trim_by(cs@, ws()),
{
    let mut a: usize = 0;
    while a < cs.len() && is_whitespace(cs[a])
        invariant
            a <= cs@.len(),
            skip_front(cs@, ws(), a as int) == skip_front(cs@, ws(), 0),
        decreases cs@.len() - a,
    {
        a = a + 1;
    }
    let mut b: usize = cs.len();
    while b > a && is_whitespace(cs[b - 1])
        invariant
            a <= b <= cs@.len(),
            skip_front(cs@, ws(), 0) == a,
            skip_back(cs@, ws(), a as int, b as int) == skip_back(cs@, ws(), a as int, cs@.len() as int),
        decreases b,
    {
        b = b - 1;
    }
    chars_range(cs, a, b)
}

/// The rule without leading and trailing dots.
fn trim_dots(cs: &Vec<char>) -> (r: Vec<char>)
    ensures
        r@ == trim_by(cs@, dot()),
{
    let mut a: usize = 0;
    while a < cs.len() && cs[a] == '.'
        invariant
            a <= cs@.len(),
            skip_front(cs@, dot(), a as int) == skip_front(cs@, dot(), 0),
        decreases cs@.len() - a,
    {
        a = a + 1;
    }
    let mut b: usize = cs.len();
    while b > a && cs[b - 1] == '.'
        invariant
            a <= b <= cs@.len(),
            skip_front(cs@, dot(), 0) == a,
            skip_back(cs@, dot(), a as int, b as int) == skip_back(cs@, dot(), a as int, cs@.len() as int),
        decreases b,
    {
        b = b - 1;
    }
    chars_range(cs, a, b)
}

/// The first token of a line: its characters up to the first whitespace.
fn token(line: &Vec<char>) -> (r: Vec<char>)
    ensures
        r@ == first_token(line@),
{
    let mut e: usize = 0;
    while e < line.len() && !is_whitespace(line[e])
        invariant
            e <= line@.len(),
            skip_front(line@, not_ws(), e as int) == skip_front(line@, not_ws(), 0),
        decreases line@.len() - e,
    {
        e = e + 1;
    }
    chars_range(line, 0, e)
}

fn is_comment(s: &Vec<char>, policy: CommentPolicy) -> (r: bool)
    ensures
        r == comment_line(s@, policy),
{
    let slashes = s.len() >= 2 && s[0] == '/' && s[1] == '/';
    match policy {
        CommentPolicy::Common => slashes || (s.len() > 0 && (s[0] == '#' || s[0] == ';')),
        CommentPolicy::OfficialOnly => slashes,
    }
}

fn matches_at(s: &Vec<char>, pat: &Vec<char>, i: usize) -> (r: bool)
    requires
        i + pat@.len() <= s@.len(),
    ensures
        r == (s@.subrange(i as int, i + pat@.len()) == pat@),
{
    let n = s.len();
    let mut k: usize = 0;
    while k < pat.len()
        invariant
            k <= pat@.len(),
            n == s@.len(),
            i + pat@.len() <= n,
            forall|j: int| 0 <= j < k ==> s@[i + j] == pat@[j],
        decreases pat@.len() - k,
    {
        if s[i + k] != pat[k] {
            assert(s@.subrange(i as int, i + pat@.len())[k as int] != pat@[k as int]);
            return false;
        }
        k = k + 1;
    }
    assert(s@.subrange(i as int, i + pat@.len()) =~= pat@);
    true
}

fn occurs_in(s: &Vec<char>, pat: &Vec<char>) -> (r: bool)
    ensures
        r == occurs(s@, pat@),
{
    if pat.len() > s.len() {
        return false;
    }
    if pat.len() == 0 {
        assert(s@.subrange(0, 0 + pat@.len() as int) =~= pat@);
        return true;
    }
    let n = s.len();
    let last = n - pat.len();
    let mut i: usize = 0;
    while i < last + 1
        invariant
            n == s@.len(),
            last == n - pat@.len(),
            last < n,
            i <= last + 1,
            forall|j: int| 0 <= j < i ==> #[trigger] s@.subrange(j, j + pat@.len()) != pat@,
        decreases last + 1 - i,
    {
        if matches_at(s, pat, i) {
            return true;
        }
        i = i + 1;
    }
    false
}

/// Updates the section state from a comment line.
fn handle_markers(line: &Vec<char>, cur: &mut Option<Type>, saw: &mut bool)
    ensures
        (*final(cur), *final(saw)) == after_markers(line@, *old(cur), *old(saw)),
{
    if !(line.len() >= 2 && line[0] == '/' && line[1] == '/') {
        return;
    }
    if occurs_in(line, &chars_of("BEGIN ICANN DOMAINS")) {
        *cur = Some(Type::Icann);
        *saw = true;
    }
    if occurs_in(line, &chars_of("END ICANN DOMAINS")) {
        *cur = None;
    }
    if occurs_in(line, &chars_of("BEGIN PRIVATE DOMAINS")) {
        *cur = Some(Type::Private);
        *saw = true;
    }
    if occurs_in(line, &chars_of("END PRIVATE DOMAINS")) {
        *cur = None;
    }
}

/// Inserts a rule into the trie, creating the nodes its labels need.
fn insert(rules: &mut RuleSet, rule: &Vec<char>, typ: Option<Type>, neg: bool)
    requires
        old(rules).wf(),
    ensures
        final(rules).wf(),
        final(rules)@ == insert_rule(
            old(rules)@,
            rule@,
            if neg {
                Leaf::Negative
            } else {
                Leaf::Positive
            },
            typ,
        ),
{
    let leaf = if neg {
        Leaf::Negative
    } else {
        Leaf::Positive
    };
    let ghost target = insert_rule(rules@, rule@, leaf, typ);
    let mut cur: usize = 0;
    let mut end: usize = rule.len();
    let mut more: bool = true;
    while more
        invariant
            rules.wf(),
            cur < rules@.len(),
            more || cur > 0,
            end <= rule@.len(),
            insert_from(
                rules@,
                cur as int,
                rule@,
                if more {
                    end as int
                } else {
                    -1
                },
                leaf,
                typ,
            ) == target,
        decreases (if more {
            end + 1
        } else {
            0
        }),
    {
        let d = last_dot(rule, end);
        let lbl_start: usize = match d {
            Some(i) => i + 1,
            None => 0,
        };
        let lbl = substring(rule, lbl_start, end);
        let ghost t = rules@;
        match rules.nodes[cur].kids.get(lbl.as_str()) {
            Some(c) => {
                assert(t[cur as int].kids.contains_key(lbl@));
                cur = c;
            },
            None => {
                let c = rules.nodes.len();
                rules.nodes[cur].kids.insert(lbl, c);
                rules.nodes.push(Node::default());
                assert(rules@ =~= t.update(
                    cur as int,
                    NodeView {
                        leaf: t[cur as int].leaf,
                        typ: t[cur as int].typ,
                        kids: t[cur as int].kids.insert(lbl@, c),
                    },
                ).push(empty_node()));
                cur = c;
            },
        }
        match d {
            Some(i) => {
                end = i;
            },
            None => {
                more = false;
            },
        }
    }
    let ghost t = rules@;
    rules.nodes[cur].leaf = leaf;
    rules.nodes[cur].typ = typ;
    assert(rules@ =~= t.update(cur as int, NodeView { leaf, typ, kids: t[cur as int].kids }));
}

/// Loads a rule set from the text of a Public Suffix List.
///
/// Lines are read one by one: blank lines and comments (which may carry
/// section markers) are skipped, every other line holds a rule as its first
/// token. Fails when strict parsing meets an empty rule, when sections are
/// required and no marker was seen, and when no rule was loaded.
pub fn load(text: &str, opts: LoadOpts) -> (r: Result<RuleSet>)
    ensures
        match r {
            Ok(rs) => rs.wf() && load_text(text@, opts) == Loaded::Rules(rs@),
            Err(e) => error_matches(e, load_text(text@, opts)),
        },
{
    let cs = chars_of(text);
    let mut rules = RuleSet::new();
    let mut cur_type: Option<Type> = None;
    let mut saw_marker: bool = false;
    let ghost target = load_from(
        cs@,
        opts,
        0,
        LoadState { trie: root_only(), cur: None, saw: false },
    );
    let mut p: usize = 0;
    while p < cs.len()
        invariant
            rules.wf(),
            p <= cs@.len(),
            cs@ == text@,
            target == load_from(text@, opts, 0, LoadState { trie: root_only(), cur: None, saw: false }),
            load_from(cs@, opts, p as int, LoadState { trie: rules@, cur: cur_type, saw: saw_marker })
                == target,
        decreases cs@.len() - p,
    {
        let ghost st = LoadState { trie: rules@, cur: cur_type, saw: saw_marker };
        let e = find_char(&cs, '\n', p);
        let raw = chars_range(&cs, p, e);
        let line = trim_ws(&raw);
        if line.len() == 0 || is_comment(&line, opts.comments) {
            handle_markers(&line, &mut cur_type, &mut saw_marker);
        } else {
            let tok = token(&line);
            let neg = tok.len() > 0 && tok[0] == '!';
            let raw_rule = if neg {
                let rest = chars_range(&tok, 1, tok.len());
                assert(rest@ =~= tok@.drop_first());
                rest
            } else {
                tok
            };
            let rule = trim_dots(&raw_rule);
            if rule.len() == 0 {
                if opts.strict_rules {
                    return Err(
                        Error::InvalidRule {
                            rule: string_from_chars(raw_rule.as_slice()),
                            reason: RuleSyntax::Empty,
                        },
                    );
                }
            } else {
                let typ = match opts.sections {
                    SectionPolicy::Auto => if saw_marker {
                        cur_type
                    } else {
                        None
                    },
                    SectionPolicy::Ignore => None,
                    SectionPolicy::Require => cur_type,
                };
                if !(opts.sections == SectionPolicy::Require && typ.is_none()) {
                    insert(&mut rules, &rule, typ, neg);
                    if !is_all_ascii(&rule) {
                        let rule_text = string_from_chars(rule.as_slice());
                        match rule_to_ascii(rule_text.as_str()) {
                            Some(a) => {
                                if !(a == rule_text) {
                                    let ascii = chars_of(a.as_str());
                                    insert(&mut rules, &ascii, typ, neg);
                                }
                            },
                            None => {},
                        }
                    }
                }
            }
        }
        let ghost st2 = LoadState { trie: rules@, cur: cur_type, saw: saw_marker };
        assert(load_line(st, cs@.subrange(p as int, e as int), opts) == Progress::Next(st2));
        assert(load_from(cs@, opts, p as int, st) == load_from(cs@, opts, e + 1, st2));
        assert(load_from(cs@, opts, cs@.len() as int, st2) == load_from(cs@, opts, (cs@.len() + 1) as int, st2));
        p = if e < cs.len() {
            e + 1
        } else {
            cs.len()
        };
    }
    if opts.sections == SectionPolicy::Require && !saw_marker {
        return Err(Error::MissingSections);
    }
    if rules.is_empty() {
        return Err(Error::EmptyList);
    }
    Ok(rules)
}

} // verus!
