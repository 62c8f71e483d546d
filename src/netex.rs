//! Projection of networks into the NeTEx France schema: one `Network`
//! element per network, carrying its canonical id, its name and the
//! references of its lines.

use vstd::prelude::*;
use vstd::string::StringExecFns;
use minidom::Element;
use crate::collection::Collection;
use crate::ident::{canonical_id, colons_replaced};
use crate::model::{Line, Model, Network};
use crate::xml::{Tree, XmlElement, XmlNode, attrs_view, create_members, element_tree, lemma_element_tree_congruent, node_tree};

verus! {

/// The schema id of the network `id`: `FR:network:{id}:`, with each `:` of
/// `id` replaced by `_`.
pub open spec fn network_ref(id: Seq<char>) -> Seq<char> {
    "FR:network:"@ + colons_replaced(id) + ":"@
}

/// The schema id of the line `id`: `FR:line:{id}`, with each `:` of `id`
/// replaced by `_`.
pub open spec fn line_ref(id: Seq<char>) -> Seq<char> {
    "FR:line:"@ + colons_replaced(id)
}

/// The references of the lines of network `nid`, in the lines' order.
pub open spec fn member_refs(lines: Seq<Line>, nid: Seq<char>) -> Seq<Seq<char>>
    decreases lines.len(),
{
    if lines.len() == 0 {
        Seq::empty()
    } else {
        let prev = member_refs(lines.drop_last(), nid);
        if lines.last().network_id@ == nid {
            prev.push(line_ref(lines.last().id@))
        } else {
            prev
        }
    }
}

/// `e` is `<LineRef ref="{r}"/>`.
pub open spec fn is_line_ref(e: XmlElement, r: Seq<char>) -> bool {
    &&& e.name@ == "LineRef"@
    &&& attrs_view(e.attributes@) == seq![("ref"@, r)]
    &&& e.children@.len() == 0
}

/// `e` is `<Name>{text}</Name>`.
pub open spec fn is_name(e: XmlElement, text: Seq<char>) -> bool {
    &&& e.name@ == "Name"@
    &&& e.attributes@.len() == 0
    &&& e.children@.len() == 1
    &&& e.children@[0] matches XmlNode::Text(t) && t@ == text
}

/// `e` is `<members>` holding one line reference for each of `refs`, in order.
pub open spec fn is_members(e: XmlElement, refs: Seq<Seq<char>>) -> bool {
    &&& e.name@ == "members"@
    &&& e.attributes@.len() == 0
    &&& e.children@.len() == refs.len()
    &&& forall|i: int|
        0 <= i < refs.len() ==> (#[trigger] e.children@[i] matches XmlNode::Element(c)
            && is_line_ref(c, refs[i]))
}

/// `e` is the element of network `n` among `lines`.
pub open spec fn is_network_element(e: XmlElement, n: Network, lines: Seq<Line>) -> bool {
    &&& e.name@ == "Network"@
    &&& attrs_view(e.attributes@) == seq![("id"@, network_ref(n.id@)), ("version"@, "any"@)]
    &&& e.children@.len() == 2
    &&& e.children@[0] matches XmlNode::Element(c) && is_name(c, n.name@)
    &&& e.children@[1] matches XmlNode::Element(c) && is_members(c, member_refs(lines, n.id@))
}

/// `r` holds the element of each network of `m`, in the networks' order.
pub open spec fn is_export_of(r: Seq<XmlElement>, m: Model) -> bool {
    &&& r.len() == m.networks.view().len()
    &&& forall|i: int|
        0 <= i < r.len() ==> is_network_element(
            #[trigger] r[i],
            m.networks.view()[i],
            m.lines.view(),
        )
}

proof fn lemma_network_element_determined(a: XmlElement, b: XmlElement, n: Network, lines: Seq<Line>)
    requires
        is_network_element(a, n, lines),
        is_network_element(b, n, lines),
    ensures
        element_tree(a, 3) == element_tree(b, 3),
{
    let na = a.children@[0]->Element_0;
    let nb = b.children@[0]->Element_0;
    let ma = a.children@[1]->Element_0;
    let mb = b.children@[1]->Element_0;
    assert(attrs_view(na.attributes@) =~= attrs_view(nb.attributes@));
    lemma_element_tree_congruent(na, nb, 2);
    let refs = member_refs(lines, n.id@);
    assert forall|i: int| 0 <= i < ma.children@.len() implies node_tree(
        #[trigger] ma.children@[i],
        1,
    ) == node_tree(mb.children@[i], 1) by {
        assert(ma.children@[i] matches XmlNode::Element(c) && is_line_ref(c, refs[i]));
        assert(mb.children@[i] matches XmlNode::Element(c) && is_line_ref(c, refs[i]));
        lemma_element_tree_congruent(ma.children@[i]->Element_0, mb.children@[i]->Element_0, 1);
    }
    assert(attrs_view(ma.attributes@) =~= attrs_view(mb.attributes@));
    lemma_element_tree_congruent(ma, mb, 2);
    assert forall|i: int| 0 <= i < a.children@.len() implies node_tree(
        #[trigger] a.children@[i],
        2,
    ) == node_tree(b.children@[i], 2) by {}
    lemma_element_tree_congruent(a, b, 3);
}

/// Exporting one graph twice gives the same document: the same number of
/// elements, and each element the same, read to the three levels that a
/// network element has.
pub proof fn lemma_export_stable(m: Model, r1: Seq<XmlElement>, r2: Seq<XmlElement>)
    requires
        is_export_of(r1, m),
        is_export_of(r2, m),
    ensures
        r1.len() == r2.len(),
        forall|i: int| 0 <= i < r1.len() ==> element_tree(#[trigger] r1[i], 3) == element_tree(r2[i], 3),
{
    assert forall|i: int| 0 <= i < r1.len() implies element_tree(#[trigger] r1[i], 3) == element_tree(
        r2[i],
        3,
    ) by {
        lemma_network_element_determined(r1[i], r2[i], m.networks.view()[i], m.lines.view());
    }
}

/// Exports the networks of a graph.
pub struct NetworkExporter<'a> {
    model: &'a Model,
}

impl<'a> NetworkExporter<'a> {
    /// The graph that is exported.
    pub closed spec fn graph(&self) -> Model {
        *self.model
    }

    pub fn new(model: &'a Model) -> (r: Self)
        ensures
            r.graph() == *model,
    {
        NetworkExporter { model }
    }

    /// The element of each network, in the graph's order.
    pub fn export_elements(&self) -> (r: Vec<XmlElement>)
        ensures
            is_export_of(r@, self.graph()),
    {
        let networks: &Collection<Network> = &self.model.networks;
        let mut out: Vec<XmlElement> = Vec::new();
        let mut i: usize = 0;
        while i < networks.len()
            invariant
                networks == &self.model.networks,
                i <= networks.view().len(),
                out@.len() == i,
                forall|k: int|
                    0 <= k < i ==> is_network_element(
                        #[trigger] out@[k],
                        networks.view()[k],
                        self.model.lines.view(),
                    ),
            decreases networks.view().len() - i,
        {
            let e = self.export_network(networks.at(i));
            out.push(e);
            i = i + 1;
        }
        out
    }

    /// The element of each network, as minidom elements.
    pub fn export(&self) -> (r: Vec<Element>)
        ensures
            r@.len() == self.graph().networks.view().len(),
    {
        let elements = self.export_elements();
        let mut out: Vec<Element> = Vec::new();
        let mut i: usize = 0;
        while i < elements.len()
            invariant
                i <= elements@.len(),
                out@.len() == i,
            decreases elements@.len() - i,
        {
            out.push(elements[i].to_minidom());
            i = i + 1;
        }
        out
    }

    fn export_network(&self, network: &Network) -> (r: XmlElement)
        ensures
            is_network_element(r, *network, self.graph().lines.view()),
    {
        let mut attributes: Vec<(String, String)> = Vec::new();
        attributes.push((String::from_str("id"), self.generate_id(network)));
        attributes.push((String::from_str("version"), String::from_str("any")));
        let mut children: Vec<XmlNode> = Vec::new();
        children.push(XmlNode::Element(self.generate_name(network)));
        let lines: &Collection<Line> = &self.model.lines;
        let mut refs: Vec<XmlElement> = Vec::new();
        let mut i: usize = 0;
        while i < lines.len()
            invariant
                lines == &self.model.lines,
                i <= lines.view().len(),
                refs@.len() == member_refs(lines.view().subrange(0, i as int), network.id@).len(),
                forall|k: int|
                    0 <= k < refs@.len() ==> is_line_ref(
                        #[trigger] refs@[k],
                        member_refs(lines.view().subrange(0, i as int), network.id@)[k],
                    ),
            decreases lines.view().len() - i,
        {
            let line = lines.at(i);
            assert(lines.view().subrange(0, i + 1).drop_last() =~= lines.view().subrange(
                0,
                i as int,
            ));
            if line.network_id == network.id {
                refs.push(self.generate_line_ref(line));
            }
            i = i + 1;
        }
        assert(lines.view().subrange(0, i as int) =~= lines.view());
        let members = create_members(refs);
        children.push(XmlNode::Element(members));
        proof {
            reveal_strlit("id");
            reveal_strlit("version");
            reveal_strlit("any");
            reveal_strlit("Network");
            assert(attrs_view(attributes@) =~= seq![
                ("id"@, network_ref(network.id@)),
                ("version"@, "any"@),
            ]);
        }
        XmlElement { name: String::from_str("Network"), attributes, children }
    }

    /// The schema id of `network`: `FR:network:{id}:`, with `:` in the id
    /// replaced by `_`.
    pub fn generate_id(&self, network: &Network) -> (r: String)
        ensures
            r@ == network_ref(network.id@),
    {
        let id = canonical_id(network.id.as_str());
        let mut r = String::from_str("FR:network:");
        r.append(id.as_str());
        r.append(":");
        r
    }

    fn generate_name(&self, network: &Network) -> (r: XmlElement)
        ensures
            is_name(r, network.name@),
    {
        let mut children: Vec<XmlNode> = Vec::new();
        children.push(XmlNode::Text(network.name.clone()));
        proof {
            reveal_strlit("Name");
        }
        XmlElement { name: String::from_str("Name"), attributes: Vec::new(), children }
    }

    fn generate_line_ref(&self, line: &Line) -> (r: XmlElement)
        ensures
            is_line_ref(r, line_ref(line.id@)),
    {
        let id = canonical_id(line.id.as_str());
        let mut target = String::from_str("FR:line:");
        target.append(id.as_str());
        let mut attributes: Vec<(String, String)> = Vec::new();
        attributes.push((String::from_str("ref"), target));
        proof {
            reveal_strlit("ref");
            reveal_strlit("LineRef");
            assert(attrs_view(attributes@) =~= seq![("ref"@, line_ref(line.id@))]);
        }
        XmlElement { name: String::from_str("LineRef"), attributes, children: Vec::new() }
    }
}

} // verus!
