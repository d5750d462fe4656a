//! The output tree: a named node carrying either a direct text value or a
//! sequence of child nodes, plus a mapping of attribute names to values,
//! and the merge operation used to combine an array-descriptor node with a
//! per-instance node.

use vstd::prelude::*;

use crate::strutil::str_eq;

verus! {

broadcast use vstd::std_specs::vec::group_vec_axioms;

/// A node of the produced document tree.
///
/// Leaf nodes are built with a text value and no children, composite nodes
/// with children and no text. Attribute keys are unique.
pub struct Node {
    /// The node's label.
    pub name: String,
    /// The direct text value of a leaf node.
    pub text: Option<String>,
    /// The ordered child nodes of a composite node.
    pub children: Vec<Node>,
    /// Attribute name/value pairs; keys are unique.
    pub attributes: Vec<(String, String)>,
}

/// The mathematical shape of a node: the same tree over sequences of
/// characters.
#[verifier::ext_equal]
pub ghost struct NodeView {
    pub name: Seq<char>,
    pub text: Option<Seq<char>>,
    pub children: Seq<NodeView>,
    pub attributes: Seq<(Seq<char>, Seq<char>)>,
}

/// The shape of one node.
pub open spec fn node_view(n: Node) -> NodeView
    decreases n,
{
    NodeView {
        name: n.name@,
        text: match n.text {
            Some(t) => Some(t@),
            None => None,
        },
        children: node_views(n.children@),
        attributes: attr_views(n.attributes@),
    }
}

/// The shapes of a sequence of nodes, element by element.
pub open spec fn node_views(s: Seq<Node>) -> Seq<NodeView>
    decreases s,
{
    if s.len() == 0 {
        Seq::empty()
    } else {
        seq![node_view(s[0])] + node_views(s.drop_first())
    }
}

/// The view of an attribute list: each name/value pair as character
/// sequences.
pub open spec fn attr_views(s: Seq<(String, String)>) -> Seq<(Seq<char>, Seq<char>)> {
    s.map_values(|kv: (String, String)| (kv.0@, kv.1@))
}

impl View for Node {
    type V = NodeView;

    open spec fn view(&self) -> NodeView {
        node_view(*self)
    }
}

pub broadcast proof fn lemma_node_views_len(s: Seq<Node>)
    ensures
        #[trigger] node_views(s).len() == s.len(),
    decreases s,
{
    if s.len() != 0 {
        lemma_node_views_len(s.drop_first());
    }
}

pub broadcast proof fn lemma_node_views_index(s: Seq<Node>, i: int)
    requires
        0 <= i < s.len(),
    ensures
        node_views(s).len() == s.len(),
        #[trigger] node_views(s)[i] == node_view(s[i]),
    decreases s,
{
    lemma_node_views_len(s);
    if i > 0 {
        lemma_node_views_index(s.drop_first(), i - 1);
    }
}

pub broadcast proof fn lemma_node_views_push(s: Seq<Node>, x: Node)
    ensures
        #[trigger] node_views(s.push(x)) == node_views(s).push(node_view(x)),
    decreases s,
{
    lemma_node_views_len(s);
    if s.len() == 0 {
        assert(s.push(x).drop_first() =~= s);
        assert(node_views(s.push(x)) =~= node_views(s).push(node_view(x)));
    } else {
        assert(s.push(x).drop_first() =~= s.drop_first().push(x));
        lemma_node_views_push(s.drop_first(), x);
        assert(node_views(s.push(x)) =~= node_views(s).push(node_view(x)));
    }
}

pub broadcast proof fn lemma_node_views_concat(a: Seq<Node>, b: Seq<Node>)
    ensures
        #[trigger] node_views(a + b) == node_views(a) + node_views(b),
    decreases a,
{
    if a.len() == 0 {
        assert(a + b =~= b);
        assert(node_views(a) + node_views(b) =~= node_views(b));
    } else {
        assert((a + b).len() != 0);
        assert((a + b)[0] == a[0]);
        assert((a + b).drop_first() =~= a.drop_first() + b);
        lemma_node_views_concat(a.drop_first(), b);
        assert(node_views(a + b) =~= node_views(a) + node_views(b));
    }
}

/// The key of the pair at one position of an attribute list.
pub open spec fn attr_key_at(attrs: Seq<(Seq<char>, Seq<char>)>, i: int) -> Seq<char> {
    attrs[i].0
}

/// Whether an attribute list holds a pair with the given key.
pub open spec fn attrs_contain_key(attrs: Seq<(Seq<char>, Seq<char>)>, key: Seq<char>) -> bool {
    exists|i: int| 0 <= i < attrs.len() && #[trigger] attr_key_at(attrs, i) == key
}

/// The value paired with a key in an attribute list (the first match).
pub open spec fn attrs_value_of(attrs: Seq<(Seq<char>, Seq<char>)>, key: Seq<char>) -> Seq<
    char,
> {
    attrs[choose|i: int| 0 <= i < attrs.len() && #[trigger] attr_key_at(attrs, i) == key].1
}

/// Whether an attribute list has pairwise distinct keys.
pub open spec fn attrs_keys_unique(attrs: Seq<(Seq<char>, Seq<char>)>) -> bool {
    forall|i: int, j: int|
        0 <= i < attrs.len() && 0 <= j < attrs.len() && i != j ==> #[trigger] attr_key_at(
            attrs,
            i,
        ) != #[trigger] attr_key_at(attrs, j)
}

/// `base` with the value of every key that `overlay` also holds replaced
/// by the overlay's value; positions and keys unchanged.
pub open spec fn overridden_attrs(
    base: Seq<(Seq<char>, Seq<char>)>,
    overlay: Seq<(Seq<char>, Seq<char>)>,
) -> Seq<(Seq<char>, Seq<char>)> {
    base.map_values(
        |kv: (Seq<char>, Seq<char>)|
            if attrs_contain_key(overlay, kv.0) {
                (kv.0, attrs_value_of(overlay, kv.0))
            } else {
                kv
            },
    )
}

/// The overlay pairs whose keys `base` does not hold, in the overlay's
/// order.
pub open spec fn appended_attrs(
    base: Seq<(Seq<char>, Seq<char>)>,
    overlay: Seq<(Seq<char>, Seq<char>)>,
) -> Seq<(Seq<char>, Seq<char>)> {
    overlay.filter(|kv: (Seq<char>, Seq<char>)| !attrs_contain_key(base, kv.0))
}

/// The attribute list that results from laying `overlay` over `base`: keys
/// present in both keep their position in `base` but take the overlay's
/// value; keys only in the overlay are appended, in the overlay's order.
pub open spec fn merged_attrs(
    base: Seq<(Seq<char>, Seq<char>)>,
    overlay: Seq<(Seq<char>, Seq<char>)>,
) -> Seq<(Seq<char>, Seq<char>)> {
    overridden_attrs(base, overlay) + appended_attrs(base, overlay)
}

impl Node {
    /// A node's well-formedness: attribute keys are unique, and a direct
    /// text value excludes children.
    pub open spec fn wf(self) -> bool {
        &&& attrs_keys_unique(attr_views(self.attributes@))
        &&& (self.text is Some ==> self.children@.len() == 0)
    }

    /// A fresh composite node with the given label and no content.
    pub fn empty(name: &str) -> (r: Node)
        ensures
            r@.name == name@,
            r@.text is None,
            r@.children == Seq::<NodeView>::empty(),
            r@.attributes == Seq::<(Seq<char>, Seq<char>)>::empty(),
            r.wf(),
    {
        let r = Node {
            name: String::from_str(name),
            text: None,
            children: Vec::new(),
            attributes: Vec::new(),
        };
        proof {
            assert(r@.children =~= Seq::<NodeView>::empty());
            assert(r@.attributes =~= Seq::<(Seq<char>, Seq<char>)>::empty());
        }
        r
    }
}

/// The position of the pair with the given key in an attribute list, if
/// any pair has it.
fn find_attr(attrs: &Vec<(String, String)>, key: &str) -> (r: Option<usize>)
    ensures
        match r {
            Some(j) => j < attrs@.len() && attr_views(attrs@)[j as int].0 == key@,
            None => !attrs_contain_key(attr_views(attrs@), key@),
        },
{
    let n = attrs.len();
    let mut j: usize = 0;
    while j < n
        invariant
            j <= n,
            n == attrs@.len(),
            forall|t: int| 0 <= t < j ==> attr_views(attrs@)[t].0 != key@,
        decreases n - j,
    {
        if str_eq(attrs[j].0.as_str(), key) {
            return Some(j);
        }
        j += 1;
    }
    None
}

/// Laying an overlay over a node with no attributes yields exactly the
/// overlay's attribute list.
#[verifier::rlimit(50)]
pub proof fn lemma_merged_attrs_empty(a: Seq<(Seq<char>, Seq<char>)>)
    ensures
        merged_attrs(Seq::empty(), a) == a,
    decreases a.len(),
{
    reveal(Seq::filter);
    assert(overridden_attrs(Seq::empty(), a) =~= Seq::empty());
    assert forall|key: Seq<char>| !attrs_contain_key(Seq::empty(), key) by {}
    if a.len() == 0 {
        assert(merged_attrs(Seq::empty(), a) =~= a);
    } else {
        lemma_merged_attrs_empty(a.drop_last());
        assert(appended_attrs(Seq::empty(), a.drop_last()) =~= a.drop_last());
        assert(appended_attrs(Seq::empty(), a) =~= a.drop_last().push(a.last()));
        assert(a.drop_last().push(a.last()) =~= a);
        assert(merged_attrs(Seq::empty(), a) =~= a);
    }
}

/// The keys of `cur` are exactly the keys of `base` together with those of
/// the first `j` overlay pairs.
spec fn keys_are_base_or_taken(
    cur: Seq<(Seq<char>, Seq<char>)>,
    base: Seq<(Seq<char>, Seq<char>)>,
    over: Seq<(Seq<char>, Seq<char>)>,
    j: int,
) -> bool {
    forall|key: Seq<char>|
        attrs_contain_key(cur, key) <==> (attrs_contain_key(base, key) || attrs_contain_key(
            over.take(j),
            key,
        ))
}

/// One step of laying overlay pair `j` over `cur`: the key set gains
/// exactly that pair's key, whether the pair was appended (its key was
/// new) or dropped (its key was already in the base).
proof fn lemma_keys_step(
    cur: Seq<(Seq<char>, Seq<char>)>,
    new_cur: Seq<(Seq<char>, Seq<char>)>,
    base: Seq<(Seq<char>, Seq<char>)>,
    over: Seq<(Seq<char>, Seq<char>)>,
    j: int,
    pushed: bool,
)
    requires
        0 <= j < over.len(),
        keys_are_base_or_taken(cur, base, over, j),
        pushed ==> new_cur == cur.push(over[j]),
        !pushed ==> new_cur == cur && attrs_contain_key(base, over[j].0),
    ensures
        keys_are_base_or_taken(new_cur, base, over, j + 1),
{
    assert forall|key: Seq<char>|
        attrs_contain_key(new_cur, key) <==> (attrs_contain_key(base, key)
            || attrs_contain_key(over.take(j + 1), key)) by {
        lemma_take_contains_step(over, j, key);
        if pushed {
            lemma_push_contains(cur, over[j], key);
        }
        assert(attrs_contain_key(cur, key) <==> (attrs_contain_key(base, key)
            || attrs_contain_key(over.take(j), key)));
    }
}

proof fn lemma_take_contains_step(attrs: Seq<(Seq<char>, Seq<char>)>, j: int, key: Seq<char>)
    requires
        0 <= j < attrs.len(),
    ensures
        attrs_contain_key(attrs.take(j + 1), key) <==> (attrs_contain_key(attrs.take(j), key)
            || attr_key_at(attrs, j) == key),
{
    if attrs_contain_key(attrs.take(j + 1), key) {
        let t = choose|t: int|
            0 <= t < attrs.take(j + 1).len() && #[trigger] attr_key_at(attrs.take(j + 1), t)
                == key;
        if t < j {
            assert(attr_key_at(attrs.take(j), t) == key);
        } else {
            assert(attr_key_at(attrs, j) == key);
        }
    }
    if attrs_contain_key(attrs.take(j), key) {
        let t = choose|t: int|
            0 <= t < attrs.take(j).len() && #[trigger] attr_key_at(attrs.take(j), t) == key;
        assert(attr_key_at(attrs.take(j + 1), t) == key);
    }
    if attr_key_at(attrs, j) == key {
        assert(attr_key_at(attrs.take(j + 1), j) == key);
    }
}

proof fn lemma_push_contains(
    attrs: Seq<(Seq<char>, Seq<char>)>,
    kv: (Seq<char>, Seq<char>),
    key: Seq<char>,
)
    ensures
        attrs_contain_key(attrs.push(kv), key) <==> (attrs_contain_key(attrs, key) || kv.0
            == key),
{
    if attrs_contain_key(attrs.push(kv), key) {
        let t = choose|t: int|
            0 <= t < attrs.push(kv).len() && #[trigger] attr_key_at(attrs.push(kv), t) == key;
        if t < attrs.len() {
            assert(attr_key_at(attrs, t) == key);
        } else {
            assert(kv.0 == key);
        }
    }
    if attrs_contain_key(attrs, key) {
        let t = choose|t: int|
            0 <= t < attrs.len() && #[trigger] attr_key_at(attrs, t) == key;
        assert(attr_key_at(attrs.push(kv), t) == key);
    }
    if kv.0 == key {
        assert(attr_key_at(attrs.push(kv), attrs.len() as int) == key);
    }
}

proof fn lemma_push_unique(attrs: Seq<(Seq<char>, Seq<char>)>, kv: (Seq<char>, Seq<char>))
    requires
        attrs_keys_unique(attrs),
        !attrs_contain_key(attrs, kv.0),
    ensures
        attrs_keys_unique(attrs.push(kv)),
{
    let p = attrs.push(kv);
    assert forall|i: int, j: int|
        0 <= i < p.len() && 0 <= j < p.len() && i != j implies #[trigger] attr_key_at(p, i)
        != #[trigger] attr_key_at(p, j) by {
        if i < attrs.len() && j < attrs.len() {
            assert(attr_key_at(attrs, i) != attr_key_at(attrs, j));
        } else if i < attrs.len() {
            if attr_key_at(p, i) == kv.0 {
                assert(attr_key_at(attrs, i) == kv.0);
            }
        } else {
            if attr_key_at(p, j) == kv.0 {
                assert(attr_key_at(attrs, j) == kv.0);
            }
        }
    }
}

impl Node {
    /// Lays `overlay` over this node: an attribute key present in both
    /// keeps its position here but takes the overlay's value; an attribute
    /// key only in the overlay is appended; the overlay's children are
    /// appended after this node's children, both orders preserved verbatim.
    pub fn merge(&mut self, overlay: Node)
        requires
            old(self).wf(),
            overlay.wf(),
            old(self).text is None,
        ensures
            final(self).wf(),
            final(self).text is None,
            final(self)@.name == old(self)@.name,
            final(self)@.children == old(self)@.children + overlay@.children,
            final(self)@.attributes == merged_attrs(old(self)@.attributes, overlay@.attributes),
    {
        let ghost base_views = attr_views(old(self).attributes@);
        let ghost over_views = attr_views(overlay.attributes@);
        let mut overlay = overlay;

        // Overwrite the values of keys present in both.
        let n = self.attributes.len();
        let mut i: usize = 0;
        while i < n
            invariant
                i <= n,
                n == self.attributes@.len(),
                n == old(self).attributes@.len(),
                self.name == old(self).name,
                self.text == old(self).text,
                self.children == old(self).children,
                overlay.wf(),
                base_views == attr_views(old(self).attributes@),
                over_views == attr_views(overlay.attributes@),
                forall|k: int|
                    0 <= k < i ==> attr_views(self.attributes@)[k] == overridden_attrs(
                        base_views,
                        over_views,
                    )[k],
                forall|k: int|
                    i <= k < n ==> self.attributes@[k] == old(self).attributes@[k],
            decreases n - i,
        {
            match find_attr(&overlay.attributes, self.attributes[i].0.as_str()) {
                Some(j) => {
                    let ghost key = base_views[i as int].0;
                    let v = overlay.attributes[j].1.clone();
                    self.attributes[i].1 = v;
                    proof {
                        assert(attr_key_at(over_views, j as int) == key);
                        assert(attrs_contain_key(over_views, key));
                        let ci = choose|t: int|
                            0 <= t < over_views.len() && #[trigger] attr_key_at(over_views, t)
                                == key;
                        assert(ci == j as int);
                        assert(attr_views(self.attributes@)[i as int] == overridden_attrs(
                            base_views,
                            over_views,
                        )[i as int]);
                    }
                },
                None => {
                    proof {
                        assert(attr_views(self.attributes@)[i as int] == overridden_attrs(
                            base_views,
                            over_views,
                        )[i as int]);
                    }
                },
            }
            i += 1;
        }
        let ghost mapped = overridden_attrs(base_views, over_views);
        proof {
            assert(attr_views(self.attributes@) =~= mapped);
            assert forall|t: int| 0 <= t < mapped.len() implies #[trigger] attr_key_at(
                mapped,
                t,
            ) == attr_key_at(base_views, t) by {}
            assert forall|key: Seq<char>|
                attrs_contain_key(mapped, key) == attrs_contain_key(base_views, key) by {
                if attrs_contain_key(mapped, key) {
                    let t = choose|t: int|
                        0 <= t < mapped.len() && #[trigger] attr_key_at(mapped, t) == key;
                    assert(attr_key_at(base_views, t) == key);
                }
                if attrs_contain_key(base_views, key) {
                    let t = choose|t: int|
                        0 <= t < base_views.len() && #[trigger] attr_key_at(base_views, t)
                            == key;
                    assert(attr_key_at(mapped, t) == key);
                }
            }
            assert(attrs_keys_unique(mapped));
        }

        // Append the overlay's attributes whose keys are new.
        let m = overlay.attributes.len();
        let mut j: usize = 0;
        proof {
            assert(over_views.take(0) =~= Seq::empty());
            reveal(Seq::filter);
            assert(attr_views(self.attributes@) =~= mapped + appended_attrs(
                base_views,
                over_views.take(0),
            ));
            assert(keys_are_base_or_taken(
                attr_views(self.attributes@),
                base_views,
                over_views,
                0,
            ));
        }
        while j < m
            invariant
                j <= m,
                m == overlay.attributes@.len(),
                self.name == old(self).name,
                self.text == old(self).text,
                self.children == old(self).children,
                overlay.wf(),
                base_views == attr_views(old(self).attributes@),
                over_views == attr_views(overlay.attributes@),
                mapped == overridden_attrs(base_views, over_views),
                attrs_keys_unique(attr_views(self.attributes@)),
                attr_views(self.attributes@) == mapped + appended_attrs(
                    base_views,
                    over_views.take(j as int),
                ),
                keys_are_base_or_taken(
                    attr_views(self.attributes@),
                    base_views,
                    over_views,
                    j as int,
                ),
            decreases m - j,
        {
            let ghost cur_views = attr_views(self.attributes@);
            let ghost kv = over_views[j as int];
            proof {
                assert(over_views.take(j + 1).drop_last() =~= over_views.take(j as int));
                assert(over_views.take(j + 1).last() == kv);
                reveal(Seq::filter);
            }
            match find_attr(&self.attributes, overlay.attributes[j].0.as_str()) {
                Some(w) => {
                    proof {
                        // The key is already present; by uniqueness of the
                        // overlay's keys it can only come from the base.
                        assert(attr_key_at(cur_views, w as int) == kv.0);
                        assert(attrs_contain_key(cur_views, kv.0));
                        if !attrs_contain_key(base_views, kv.0) {
                            let t = choose|t: int|
                                0 <= t < over_views.take(j as int).len() && #[trigger] attr_key_at(
                                    over_views.take(j as int),
                                    t,
                                ) == kv.0;
                            assert(attr_key_at(over_views, t) == attr_key_at(
                                over_views,
                                j as int,
                            ));
                            assert(false);
                        }
                        assert(attrs_contain_key(base_views, kv.0));
                        assert(appended_attrs(base_views, over_views.take(j + 1))
                            =~= appended_attrs(base_views, over_views.take(j as int)));
                        assert(attr_views(self.attributes@) =~= mapped + appended_attrs(
                            base_views,
                            over_views.take(j + 1),
                        ));
                        lemma_keys_step(
                            cur_views,
                            attr_views(self.attributes@),
                            base_views,
                            over_views,
                            j as int,
                            false,
                        );
                    }
                },
                None => {
                    let k = overlay.attributes[j].0.clone();
                    let v = overlay.attributes[j].1.clone();
                    self.attributes.push((k, v));
                    proof {
                        assert(!attrs_contain_key(cur_views, kv.0));
                        if attrs_contain_key(base_views, kv.0) {
                            let t = choose|t: int|
                                0 <= t < base_views.len() && #[trigger] attr_key_at(
                                    base_views,
                                    t,
                                ) == kv.0;
                            assert(attr_key_at(cur_views, t) == kv.0);
                            assert(false);
                        }
                        assert(!attrs_contain_key(base_views, kv.0));
                        assert(attr_views(self.attributes@) =~= cur_views.push(kv));
                        assert(appended_attrs(base_views, over_views.take(j + 1))
                            =~= appended_attrs(base_views, over_views.take(j as int)).push(
                            kv,
                        ));
                        assert(attr_views(self.attributes@) =~= mapped + appended_attrs(
                            base_views,
                            over_views.take(j + 1),
                        ));
                        lemma_push_unique(cur_views, kv);
                        lemma_keys_step(
                            cur_views,
                            attr_views(self.attributes@),
                            base_views,
                            over_views,
                            j as int,
                            true,
                        );
                    }
                },
            }
            j += 1;
        }
        proof {
            assert(over_views.take(m as int) =~= over_views);
        }

        // Append the overlay's children after this node's own.
        let ghost self_children = self.children@;
        let ghost over_children = overlay.children@;
        self.children.append(&mut overlay.children);
        proof {
            lemma_node_views_concat(self_children, over_children);
        }
    }
}

/// A leaf node with the given label and direct text value.
pub fn new_node(name: &str, text: String) -> (r: Node)
    ensures
        r@.name == name@,
        r@.text == Some(text@),
        r@.children == Seq::<NodeView>::empty(),
        r@.attributes == Seq::<(Seq<char>, Seq<char>)>::empty(),
        r.wf(),
{
    let r = Node {
        name: String::from_str(name),
        text: Some(text),
        children: Vec::new(),
        attributes: Vec::new(),
    };
    proof {
        assert(r@.children =~= Seq::<NodeView>::empty());
        assert(r@.attributes =~= Seq::<(Seq<char>, Seq<char>)>::empty());
    }
    r
}

} // verus!
