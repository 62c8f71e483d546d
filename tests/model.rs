use navitia_model::collection::Collection;
use navitia_model::ident::{canonical_id, prefix_id};
use navitia_model::model::{DanglingReference, EntityKind, Line, Model, Network, Route, StopArea, StopPoint};
use navitia_model::reader::{read, Config, ReadError, Records};

fn network(id: &str, name: &str) -> Network {
    Network { id: id.to_string(), name: name.to_string() }
}

fn line(id: &str, network_id: &str) -> Line {
    Line { id: id.to_string(), name: format!("Line {}", id), network_id: network_id.to_string() }
}

fn route(id: &str, line_id: &str) -> Route {
    Route { id: id.to_string(), name: id.to_string(), line_id: line_id.to_string() }
}

fn area(id: &str) -> StopArea {
    StopArea { id: id.to_string(), name: id.to_string() }
}

fn point(id: &str, parent: Option<&str>) -> StopPoint {
    StopPoint { id: id.to_string(), name: id.to_string(), stop_area_id: parent.map(|p| p.to_string()) }
}

fn graph(networks: Vec<Network>, lines: Vec<Line>, areas: Vec<StopArea>, points: Vec<StopPoint>) -> Model {
    let mut m = Model {
        networks: Collection::new(),
        lines: Collection::new(),
        routes: Collection::new(),
        stop_areas: Collection::new(),
        stop_points: Collection::new(),
    };
    for n in networks {
        m.networks.push(n).unwrap();
    }
    for l in lines {
        m.lines.push(l).unwrap();
    }
    for a in areas {
        m.stop_areas.push(a).unwrap();
    }
    for p in points {
        m.stop_points.push(p).unwrap();
    }
    m
}

#[test]
fn canonical_id_replaces_every_colon() {
    assert_eq!(canonical_id("a:b::c"), "a_b__c");
    assert_eq!(canonical_id("plain"), "plain");
    assert_eq!(canonical_id(""), "");
}

#[test]
fn prefix_id_puts_id_in_namespace() {
    assert_eq!(prefix_id("TGC", "network1"), "TGC:network1");
    assert_eq!(prefix_id("", "x"), ":x");
}

#[test]
fn collection_refuses_duplicate_id_and_keeps_order() {
    let mut c = Collection::new();
    assert!(c.push(network("n1", "One")).is_ok());
    assert!(c.push(network("n2", "Two")).is_ok());
    let err = c.push(network("n1", "Again")).unwrap_err();
    assert_eq!(err.id, "n1");
    assert_eq!(c.len(), 2);
    assert_eq!(c.at(0).name, "One");
    assert_eq!(c.at(1).name, "Two");
    assert_eq!(c.get(&"n2".to_string()).map(|n| n.name.clone()), Some("Two".to_string()));
    assert!(c.get(&"n3".to_string()).is_none());
    assert_eq!(c.position(&"n2".to_string()), Some(1));
    assert!(!c.contains_id(&"zz".to_string()));
}

#[test]
fn validate_accepts_closed_graph() {
    let m = graph(
        vec![network("n1", "One")],
        vec![line("l1", "n1")],
        vec![area("sa1")],
        vec![point("sp1", Some("sa1")), point("zone", None)],
    );
    assert!(m.validate().is_ok());
}

#[test]
fn validate_reports_every_dangling_reference() {
    let m = graph(
        vec![network("n1", "One")],
        vec![line("l1", "missing1"), line("l2", "n1"), line("l3", "missing2")],
        vec![area("sa1")],
        vec![point("sp1", Some("nowhere")), point("sp2", Some("sa1"))],
    );
    let errors = m.validate().unwrap_err();
    assert_eq!(
        errors,
        vec![
            DanglingReference {
                from_kind: EntityKind::Line,
                from_id: "l1".to_string(),
                to_kind: EntityKind::Network,
                to_id: "missing1".to_string(),
            },
            DanglingReference {
                from_kind: EntityKind::Line,
                from_id: "l3".to_string(),
                to_kind: EntityKind::Network,
                to_id: "missing2".to_string(),
            },
            DanglingReference {
                from_kind: EntityKind::StopPoint,
                from_id: "sp1".to_string(),
                to_kind: EntityKind::StopArea,
                to_id: "nowhere".to_string(),
            },
        ]
    );
}

fn source() -> Records {
    Records {
        networks: vec![network("n1", "One")],
        lines: vec![line("l1", "n1")],
        routes: vec![route("r1", "l1")],
        stop_areas: vec![area("sa1")],
        stop_points: vec![point("sp1", Some("sa1"))],
    }
}

fn config(contributor: &str) -> Option<Config> {
    Some(Config { contributor_id: contributor.to_string(), dataset_id: "ds".to_string(), prefix: true })
}

#[test]
fn read_without_config_keeps_ids() {
    let m = read(source(), None).ok().unwrap();
    assert_eq!(m.networks.at(0).id, "n1");
    assert_eq!(m.lines.at(0).network_id, "n1");
}

#[test]
fn read_prefixes_ids_and_references() {
    let m = read(source(), config("c1")).ok().unwrap();
    assert_eq!(m.networks.at(0).id, "c1:n1");
    assert_eq!(m.lines.at(0).id, "c1:l1");
    assert_eq!(m.lines.at(0).network_id, "c1:n1");
    assert_eq!(m.routes.at(0).id, "c1:r1");
    assert_eq!(m.routes.at(0).line_id, "c1:l1");
    assert_eq!(m.stop_points.at(0).stop_area_id, Some("c1:sa1".to_string()));
    assert!(m.validate().is_ok());
}

#[test]
fn read_with_prefix_off_keeps_ids() {
    let cfg = Some(Config { contributor_id: "c1".to_string(), dataset_id: "ds".to_string(), prefix: false });
    let m = read(source(), cfg).ok().unwrap();
    assert_eq!(m.networks.at(0).id, "n1");
}

#[test]
fn two_sources_with_same_ids_do_not_collide_under_distinct_contributors() {
    let a = read(source(), config("c1")).ok().unwrap();
    let b = read(source(), config("c2")).ok().unwrap();
    let mut networks = Collection::new();
    assert!(networks.push(network(&a.networks.at(0).id, "A")).is_ok());
    assert!(networks.push(network(&b.networks.at(0).id, "B")).is_ok());
    assert_eq!(networks.len(), 2);
    assert_eq!(b.lines.at(0).network_id, b.networks.at(0).id);
}

#[test]
fn read_refuses_duplicate_ids() {
    let mut r = source();
    r.lines.push(line("l1", "n1"));
    match read(r, config("c1")) {
        Err(ReadError::DuplicateId { kind, id }) => {
            assert_eq!(kind, EntityKind::Line);
            assert_eq!(id, "c1:l1");
        }
        _ => panic!("expected a duplicate id"),
    }
}

#[test]
fn read_reports_dangling_references() {
    let mut r = source();
    r.lines.push(line("l2", "n9"));
    r.stop_points.push(point("sp2", Some("sa9")));
    match read(r, None) {
        Err(ReadError::DanglingReferences(e)) => assert_eq!(e.len(), 2),
        _ => panic!("expected dangling references"),
    }
}

#[test]
fn stop_zones_are_removed_and_platforms_kept() {
    let mut m = graph(
        vec![network("n1", "One")],
        vec![line("l1", "n1")],
        vec![area("sa1")],
        vec![point("zone1", None), point("sp1", Some("sa1")), point("zone2", None), point("sp2", Some("sa1"))],
    );
    m.remove_stop_zones();
    assert_eq!(m.stop_points.len(), 2);
    assert_eq!(m.stop_points.at(0).id, "sp1");
    assert_eq!(m.stop_points.at(1).id, "sp2");
    assert_eq!(m.networks.len(), 1);
    assert_eq!(m.lines.len(), 1);
    assert_eq!(m.stop_areas.len(), 1);
    assert!(m.validate().is_ok());
}

#[test]
fn retain_keeps_matching_entities() {
    let mut c = Collection::new();
    for id in ["a1", "b1", "a2"] {
        c.push(network(id, id)).unwrap();
    }
    c.retain(|n: &Network| n.id.starts_with('a'));
    assert_eq!(c.len(), 2);
    assert!(c.contains_id(&"a1".to_string()));
    assert!(c.contains_id(&"a2".to_string()));
    assert!(!c.contains_id(&"b1".to_string()));
    assert!(c.push(network("b1", "again")).is_ok());
}

#[test]
fn validate_reports_route_with_missing_line() {
    let mut m = graph(vec![network("n1", "One")], vec![line("l1", "n1")], vec![], vec![]);
    m.routes.push(route("r1", "l1")).unwrap();
    m.routes.push(route("r2", "l9")).unwrap();
    let errors = m.validate().unwrap_err();
    assert_eq!(
        errors,
        vec![DanglingReference {
            from_kind: EntityKind::Route,
            from_id: "r2".to_string(),
            to_kind: EntityKind::Line,
            to_id: "l9".to_string(),
        }]
    );
}

#[test]
fn read_reports_dangling_references_in_namespace() {
    let mut r = source();
    r.routes.push(route("r2", "l9"));
    match read(r, config("c1")) {
        Err(ReadError::DanglingReferences(e)) => {
            assert_eq!(e.len(), 1);
            assert_eq!(e[0].from_kind, EntityKind::Route);
            assert_eq!(e[0].from_id, "c1:r2");
            assert_eq!(e[0].to_id, "c1:l9");
        }
        _ => panic!("expected dangling references"),
    }
}

#[test]
fn new_graph_is_empty_and_valid() {
    let m = Model::new();
    assert_eq!(m.networks.len(), 0);
    assert_eq!(m.stop_points.values().len(), 0);
    assert!(m.validate().is_ok());
}

#[test]
fn values_iterate_in_insertion_order() {
    let mut c = Collection::new();
    for id in ["z", "a", "m"] {
        c.push(network(id, id)).unwrap();
    }
    let ids: Vec<&str> = c.values().iter().map(|n| n.id.as_str()).collect();
    assert_eq!(ids, vec!["z", "a", "m"]);
}
