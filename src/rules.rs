use vstd::prelude::*;

verus! {

/// PSL rule section classification.
#[derive(Clone, Copy, Debug, PartialEq, Eq, Structural)]
pub enum Type {
    /// Rules curated by ICANN.
    Icann,
    /// Rules contributed by private orgs and service providers.
    Private,
}

/// Filter applied at match time to restrict which sections are eligible.
#[derive(Clone, Copy, Debug, PartialEq, Eq, Structural)]
pub enum TypeFilter {
    /// Allow rules from any section (ICANN and Private).
    Any,
    /// Allow only ICANN rules.
    Icann,
    /// Allow only Private rules.
    Private,
}

/// Marker placed on a trie node indicating how the label path acts as a rule.
#[derive(Clone, Copy, Debug, PartialEq, Eq, Structural)]
pub enum Leaf {
    /// This path is not a rule; traversal may continue to children.
    NoRule,
    /// Positive rule: this label path is a public suffix.
    Positive,
    /// Exception rule (PSL `!`): cancels a broader rule one label deeper.
    Negative,
}

impl Default for Leaf {
    fn default() -> (r: Leaf)
        ensures
            r == Leaf::NoRule,
    {
        Leaf::NoRule
    }
}

/// Child table of a trie node: each label (as written in the list, `*` for a
/// wildcard) mapped to the arena index of the child node.
#[verifier::external_body]
pub struct Kids {
    map: hashbrown::HashMap<String, usize>,
}

/// What a child table holds: label text to child index.
pub uninterp spec fn kids_contents(k: Kids) -> Map<Seq<char>, usize>;

impl View for Kids {
    type V = Map<Seq<char>, usize>;

    open spec fn view(&self) -> Map<Seq<char>, usize> {
        kids_contents(*self)
    }
}

impl Kids {
    /// Relies on `hashbrown::HashMap::new`: a new map holds no entry.
    #[verifier::external_body]
    pub fn new() -> (r: Kids)
        ensures
            kids_contents(r).dom() == Set::<Seq<char>>::empty(),
    {
        Kids { map: hashbrown::HashMap::new() }
    }

    /// Relies on `hashbrown::HashMap::get`: the value stored under an equal key, if any.
    #[verifier::external_body]
    pub fn get(&self, label: &str) -> (r: Option<usize>)
        ensures
            r == (if kids_contents(*self).contains_key(label@) {
                Some(kids_contents(*self)[label@])
            } else {
                None::<usize>
            }),
    {
        self.map.get(label).copied()
    }

    /// Relies on `hashbrown::HashMap::insert`: afterwards the key maps to the
    /// value and every other entry is kept.
    #[verifier::external_body]
    pub fn insert(&mut self, label: String, child: usize)
        ensures
            kids_contents(*final(self)) == kids_contents(*old(self)).insert(label@, child),
    {
        self.map.insert(label, child);
    }

    /// Relies on `hashbrown::HashMap::is_empty`: true exactly when the map has no entry.
    #[verifier::external_body]
    pub fn is_empty(&self) -> (r: bool)
        ensures
            r == (kids_contents(*self).dom() == Set::<Seq<char>>::empty()),
    {
        self.map.is_empty()
    }

    /// Whether a child is stored under `label`.
    pub fn contains_key(&self, label: &str) -> (r: bool)
        ensures
            r == self@.contains_key(label@),
    {
        self.get(label).is_some()
    }
}

impl Clone for Kids {
    /// Relies on `hashbrown::HashMap::clone`: the copy holds the same entries.
    #[verifier::external_body]
    fn clone(&self) -> (r: Kids)
        ensures
            kids_contents(r) == kids_contents(*self),
    {
        Kids { map: self.map.clone() }
    }
}

/// Node of the reverse-label trie. Nodes live in the arena of a `RuleSet`
/// and refer to their children by index.
pub struct Node {
    /// Whether this node represents a rule and of what kind.
    pub leaf: Leaf,
    /// Optional section classification for this node's rule.
    pub typ: Option<Type>,
    /// Child labels reachable from this node.
    pub kids: Kids,
}

/// Mathematical model of a trie node.
pub struct NodeView {
    pub leaf: Leaf,
    pub typ: Option<Type>,
    pub kids: Map<Seq<char>, usize>,
}

impl View for Node {
    type V = NodeView;

    open spec fn view(&self) -> NodeView {
        NodeView { leaf: self.leaf, typ: self.typ, kids: self.kids@ }
    }
}

/// A node without rule, section or child.
pub open spec fn empty_node() -> NodeView {
    NodeView { leaf: Leaf::NoRule, typ: None, kids: Map::empty() }
}

impl Default for Node {
    fn default() -> (r: Node)
        ensures
            r@ == empty_node(),
    {
        let r = Node { leaf: Leaf::NoRule, typ: None, kids: Kids::new() };
        assert(r.kids@ =~= Map::<Seq<char>, usize>::empty());
        r
    }
}

/// A trie is well formed when it has a root without a rule at index 0 and
/// every child index points into the arena, never back to the root.
pub open spec fn trie_wf(t: Seq<NodeView>) -> bool {
    &&& t.len() >= 1
    &&& t[0].leaf == Leaf::NoRule
    &&& forall|i: int, k: Seq<char>|
        0 <= i < t.len() && #[trigger] t[i].kids.contains_key(k) ==> 0 < t[i].kids[k] < t.len()
}

impl Clone for Node {
    fn clone(&self) -> (r: Node)
        ensures
            r@ == self@,
    {
        Node { leaf: self.leaf, typ: self.typ, kids: self.kids.clone() }
    }
}

/// Top-level container for the rule trie: an arena of nodes whose first
/// element is the root.
pub struct RuleSet {
    pub nodes: Vec<Node>,
}

impl View for RuleSet {
    type V = Seq<NodeView>;

    open spec fn view(&self) -> Seq<NodeView> {
        self.nodes@.map_values(|n: Node| n@)
    }
}

impl RuleSet {
    pub open spec fn wf(&self) -> bool {
        trie_wf(self@)
    }

    /// A rule set holding only the root.
    pub fn new() -> (r: RuleSet)
        ensures
            r.wf(),
            r@ == seq![empty_node()],
    {
        let mut nodes: Vec<Node> = Vec::new();
        nodes.push(Node::default());
        let r = RuleSet { nodes };
        assert(r@ =~= seq![empty_node()]);
        r
    }

    /// Whether the trie holds no rule at all.
    pub fn is_empty(&self) -> (r: bool)
        requires
            self.wf(),
        ensures
            r == (self@[0].kids.dom() == Set::<Seq<char>>::empty()),
    {
        self.nodes[0].kids.is_empty()
    }
}

impl Clone for RuleSet {
    fn clone(&self) -> (r: RuleSet)
        ensures
            r@ == self@,
    {
        let mut nodes: Vec<Node> = Vec::new();
        let mut i: usize = 0;
        while i < self.nodes.len()
            invariant
                i <= self.nodes@.len(),
                nodes@.len() == i,
                forall|j: int| 0 <= j < i ==> #[trigger] nodes@[j]@ == self.nodes@[j]@,
            decreases self.nodes@.len() - i,
        {
            nodes.push(self.nodes[i].clone());
            i = i + 1;
        }
        let r = RuleSet { nodes };
        assert(r@ =~= self@);
        r
    }
}

impl Default for RuleSet {
    fn default() -> (r: RuleSet)
        ensures
            r.wf(),
            r@ == seq![empty_node()],
    {
        RuleSet::new()
    }
}

} // verus!
