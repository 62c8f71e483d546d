//! Hierarchical elements of a target document, and their conversion into
//! minidom elements for serialization.

use vstd::prelude::*;
use minidom::Element;

verus! {

#[verifier::external_type_specification]
#[verifier::external_body]
pub struct ExElement(Element);

/// A child of an element: an element or a text node.
pub enum XmlNode {
    Element(XmlElement),
    Text(String),
}

/// An element: a name, attributes in order, and children in order.
pub struct XmlElement {
    pub name: String,
    pub attributes: Vec<(String, String)>,
    pub children: Vec<XmlNode>,
}

/// An element or text as plain values; `Cut` stands below the depth read.
pub enum Tree {
    Elem { name: Seq<char>, attrs: Seq<(Seq<char>, Seq<char>)>, children: Seq<Tree> },
    Text(Seq<char>),
    Cut,
}

/// The node `n` read `depth` levels deep.
pub open spec fn node_tree(n: XmlNode, depth: nat) -> Tree
    decreases depth, 1nat,
{
    match n {
        XmlNode::Element(e) => element_tree(e, depth),
        XmlNode::Text(t) => Tree::Text(t@),
    }
}

/// The element `e` read `depth` levels deep: its children are read one
/// level less deep.
pub open spec fn element_tree(e: XmlElement, depth: nat) -> Tree
    decreases depth, 0nat,
{
    if depth == 0 {
        Tree::Cut
    } else {
        Tree::Elem {
            name: e.name@,
            attrs: attrs_view(e.attributes@),
            children: Seq::new(
                e.children@.len(),
                |i: int| node_tree(e.children@[i], (depth - 1) as nat),
            ),
        }
    }
}

/// Two elements read alike when their names, attributes and children, read
/// one level less deep, are alike.
pub proof fn lemma_element_tree_congruent(a: XmlElement, b: XmlElement, depth: nat)
    requires
        depth > 0,
        a.name@ == b.name@,
        attrs_view(a.attributes@) == attrs_view(b.attributes@),
        a.children@.len() == b.children@.len(),
        forall|i: int|
            0 <= i < a.children@.len() ==> node_tree(#[trigger] a.children@[i], (depth - 1) as nat)
                == node_tree(b.children@[i], (depth - 1) as nat),
    ensures
        element_tree(a, depth) == element_tree(b, depth),
{
    assert(element_tree(a, depth)->children =~= element_tree(b, depth)->children);
}

/// The attributes as plain values.
pub open spec fn attrs_view(a: Seq<(String, String)>) -> Seq<(Seq<char>, Seq<char>)> {
    a.map_values(|p: (String, String)| (p.0@, p.1@))
}

/// `e` is an element named `name` with no attributes and `children` as
/// children.
pub open spec fn is_container(e: XmlElement, name: Seq<char>, children: Seq<XmlElement>) -> bool {
    &&& e.name@ == name
    &&& e.attributes@.len() == 0
    &&& e.children@.len() == children.len()
    &&& forall|i: int|
        0 <= i < children.len() ==> (#[trigger] e.children@[i]) == XmlNode::Element(children[i])
}

/// Builds the `members` container that lists `members` in order.
pub fn create_members(members: Vec<XmlElement>) -> (r: XmlElement)
    ensures
        is_container(r, "members"@, members@),
{
    let mut children: Vec<XmlNode> = Vec::new();
    let mut rest = members;
    let ghost all = rest@;
    while rest.len() > 0
        invariant
            children@.len() + rest@.len() == all.len(),
            forall|i: int|
                0 <= i < children@.len() ==> (#[trigger] children@[i]) == XmlNode::Element(
                    all[i],
                ),
            rest@ == all.subrange(children@.len() as int, all.len() as int),
        decreases rest@.len(),
    {
        let e = rest.remove(0);
        children.push(XmlNode::Element(e));
    }
    proof {
        reveal_strlit("members");
    }
    XmlElement { name: String::from_str("members"), attributes: Vec::new(), children }
}

/// Relies on `minidom::Element::bare`: a new element with this name and
/// nothing else.
#[verifier::external_body]
fn bare_element(name: &str) -> Element {
    Element::bare(name)
}

/// Relies on `minidom::Element::set_attr`, given a present value, which
/// never panics.
#[verifier::external_body]
fn set_attribute(e: &mut Element, name: &str, value: &str) {
    e.set_attr(name, value.to_string())
}

/// Relies on `minidom::Element::append_child`.
#[verifier::external_body]
fn append_element(e: &mut Element, child: Element) {
    e.append_child(child);
}

/// Relies on `minidom::Element::append_text_node`.
#[verifier::external_body]
fn append_text(e: &mut Element, text: &str) {
    e.append_text_node(text.to_string())
}

impl XmlElement {
    /// The same element as a minidom element: name, attributes in order,
    /// then children in order.
    pub fn to_minidom(&self) -> Element
        decreases self,
    {
        let mut out = bare_element(self.name.as_str());
        let mut i: usize = 0;
        while i < self.attributes.len()
            invariant
                i <= self.attributes@.len(),
            decreases self.attributes@.len() - i,
        {
            let (k, v) = &self.attributes[i];
            set_attribute(&mut out, k.as_str(), v.as_str());
            i = i + 1;
        }
        let mut j: usize = 0;
        while j < self.children.len()
            invariant
                j <= self.children@.len(),
            decreases self.children@.len() - j,
        {
            match &self.children[j] {
                XmlNode::Element(c) => {
                    assert(decreases_to!(self => self.children));
                    assert(decreases_to!(self.children => self.children[j as int]));
                    let child = c.to_minidom();
                    append_element(&mut out, child);
                },
                XmlNode::Text(t) => append_text(&mut out, t.as_str()),
            }
            j = j + 1;
        }
        out
    }
}

} // verus!
