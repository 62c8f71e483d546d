use navitia_model::collection::Collection;
use navitia_model::model::{Line, Model, Network};
use navitia_model::netex::NetworkExporter;
use navitia_model::xml::{create_members, XmlElement, XmlNode};

fn sample() -> Model {
    let mut m = Model {
        networks: Collection::new(),
        lines: Collection::new(),
        routes: Collection::new(),
        stop_areas: Collection::new(),
        stop_points: Collection::new(),
    };
    m.networks.push(Network { id: "src:n1".to_string(), name: "First".to_string() }).unwrap();
    m.networks.push(Network { id: "n2".to_string(), name: "Second".to_string() }).unwrap();
    for (id, nid) in [("src:l1", "src:n1"), ("l2", "n2"), ("l3", "src:n1")] {
        m.lines
            .push(Line { id: id.to_string(), name: id.to_string(), network_id: nid.to_string() })
            .unwrap();
    }
    m
}

fn attr<'a>(e: &'a XmlElement, name: &str) -> Option<&'a str> {
    e.attributes.iter().find(|(k, _)| k == name).map(|(_, v)| v.as_str())
}

fn child(e: &XmlElement, i: usize) -> &XmlElement {
    match &e.children[i] {
        XmlNode::Element(c) => c,
        XmlNode::Text(_) => panic!("expected an element"),
    }
}

#[test]
fn network_elements_carry_canonical_ids_names_and_lines() {
    let m = sample();
    let elements = NetworkExporter::new(&m).export_elements();
    assert_eq!(elements.len(), 2);
    let first = &elements[0];
    assert_eq!(first.name, "Network");
    assert_eq!(attr(first, "id"), Some("FR:network:src_n1:"));
    assert_eq!(attr(first, "version"), Some("any"));
    let name = child(first, 0);
    assert_eq!(name.name, "Name");
    match &name.children[0] {
        XmlNode::Text(t) => assert_eq!(t, "First"),
        _ => panic!("expected text"),
    }
    let members = child(first, 1);
    assert_eq!(members.name, "members");
    assert_eq!(members.children.len(), 2);
    assert_eq!(child(members, 0).name, "LineRef");
    assert_eq!(attr(child(members, 0), "ref"), Some("FR:line:src_l1"));
    assert_eq!(attr(child(members, 1), "ref"), Some("FR:line:l3"));
    let second = &elements[1];
    assert_eq!(attr(second, "id"), Some("FR:network:n2:"));
    assert_eq!(child(second, 1).children.len(), 1);
}

#[test]
fn exporting_twice_gives_the_same_elements() {
    let m = sample();
    let a = NetworkExporter::new(&m).export();
    let b = NetworkExporter::new(&m).export();
    assert_eq!(a.len(), 2);
    assert_eq!(a, b);
    let mut out_a: Vec<u8> = Vec::new();
    let mut out_b: Vec<u8> = Vec::new();
    a[0].write_to(&mut out_a).unwrap();
    b[0].write_to(&mut out_b).unwrap();
    assert_eq!(out_a, out_b);
}

#[test]
fn minidom_elements_match_the_document() {
    let m = sample();
    let elements = NetworkExporter::new(&m).export();
    let first = &elements[0];
    assert_eq!(first.name(), "Network");
    assert_eq!(first.attr("id"), Some("FR:network:src_n1:"));
    assert_eq!(first.attr("version"), Some("any"));
    let children: Vec<_> = first.children().collect();
    assert_eq!(children.len(), 2);
    assert_eq!(children[0].name(), "Name");
    assert_eq!(children[0].text(), "First");
    let refs: Vec<_> = children[1].children().map(|c| c.attr("ref").unwrap().to_string()).collect();
    assert_eq!(refs, vec!["FR:line:src_l1".to_string(), "FR:line:l3".to_string()]);
}

#[test]
fn members_container_lists_children_in_order() {
    let mk = |n: &str| XmlElement { name: n.to_string(), attributes: vec![], children: vec![] };
    let c = create_members(vec![mk("a"), mk("b")]);
    assert_eq!(c.name, "members");
    assert!(c.attributes.is_empty());
    assert_eq!(child(&c, 0).name, "a");
    assert_eq!(child(&c, 1).name, "b");
}

#[test]
fn graph_without_networks_exports_nothing() {
    let m = Model {
        networks: Collection::new(),
        lines: Collection::new(),
        routes: Collection::new(),
        stop_areas: Collection::new(),
        stop_points: Collection::new(),
    };
    assert!(NetworkExporter::new(&m).export().is_empty());
}

#[test]
fn generate_id_canonicalizes_network_id() {
    let m = sample();
    let exporter = NetworkExporter::new(&m);
    let n = Network { id: "a:b:c".to_string(), name: "x".to_string() };
    assert_eq!(exporter.generate_id(&n), "FR:network:a_b_c:");
}
