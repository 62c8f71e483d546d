//! A read pass: entities decoded from a source are put in a namespace when a
//! contributor is configured, inserted into the graph, and validated.

use vstd::prelude::*;
use crate::collection::{Collection, DuplicateId, Identified, has_key, keys_unique};
use crate::ident::{prefix_id, prefixed};
use crate::model::{
    DanglingReference, DanglingView, EntityKind, Line, Model, Network, Route, StopArea, StopPoint,
    line_dangles, line_errors, point_dangles, point_errors, route_dangles, route_errors, views_of,
    lemma_validated_graph_is_closed,
};

verus! {

/// The configuration of a read pass.
pub struct Config {
    pub contributor_id: String,
    pub dataset_id: String,
    pub prefix: bool,
}

/// The entities decoded from one source, before any wiring.
pub struct Records {
    pub networks: Vec<Network>,
    pub lines: Vec<Line>,
    pub routes: Vec<Route>,
    pub stop_areas: Vec<StopArea>,
    pub stop_points: Vec<StopPoint>,
}

pub enum ReadError {
    DuplicateId { kind: EntityKind, id: String },
    DanglingReferences(Vec<DanglingReference>),
}

/// The namespace that a configuration asks for, if any.
pub open spec fn namespace_of(config: Option<Config>) -> Option<Seq<char>> {
    match config {
        Some(c) => if c.prefix {
            Some(c.contributor_id@)
        } else {
            None
        },
        None => None,
    }
}

/// `id` in namespace `ns`.
pub open spec fn in_namespace(ns: Option<Seq<char>>, id: Seq<char>) -> Seq<char> {
    match ns {
        Some(c) => prefixed(c, id),
        None => id,
    }
}

pub open spec fn opt_view(s: Option<String>) -> Option<Seq<char>> {
    match s {
        Some(v) => Some(v@),
        None => None,
    }
}

fn namespaced(ns: &Option<String>, id: &String) -> (r: String)
    ensures
        r@ == in_namespace(opt_view(*ns), id@),
{
    match ns {
        Some(c) => prefix_id(c.as_str(), id.as_str()),
        None => id.clone(),
    }
}

proof fn lemma_in_namespace_injective(ns: Option<Seq<char>>, a: Seq<char>, b: Seq<char>)
    ensures
        in_namespace(ns, a) == in_namespace(ns, b) <==> a == b,
{
    if let Some(c) = ns {
        if prefixed(c, a) == prefixed(c, b) {
            assert(a =~= prefixed(c, a).subrange(c.len() + 1int, prefixed(c, a).len() as int));
            assert(b =~= prefixed(c, b).subrange(c.len() + 1int, prefixed(c, b).len() as int));
        }
    }
}

/// The keys of `r` are those of `v` put in namespace `ns`, one for one.
pub open spec fn keys_moved<T: Identified>(r: Seq<T>, v: Seq<T>, ns: Option<Seq<char>>) -> bool {
    &&& r.len() == v.len()
    &&& forall|i: int| 0 <= i < r.len() ==> (#[trigger] r[i]).key() == in_namespace(ns, v[i].key())
}

/// `r` is `v` with every id and reference put in namespace `ns`.
pub open spec fn networks_moved(r: Seq<Network>, v: Seq<Network>, ns: Option<Seq<char>>) -> bool {
    &&& keys_moved(r, v, ns)
    &&& forall|i: int| 0 <= i < r.len() ==> (#[trigger] r[i]).name@ == v[i].name@
}

pub open spec fn lines_moved(r: Seq<Line>, v: Seq<Line>, ns: Option<Seq<char>>) -> bool {
    &&& keys_moved(r, v, ns)
    &&& forall|i: int|
        0 <= i < r.len() ==> (#[trigger] r[i]).name@ == v[i].name@ && r[i].network_id@
            == in_namespace(ns, v[i].network_id@)
}

pub open spec fn routes_moved(r: Seq<Route>, v: Seq<Route>, ns: Option<Seq<char>>) -> bool {
    &&& keys_moved(r, v, ns)
    &&& forall|i: int|
        0 <= i < r.len() ==> (#[trigger] r[i]).name@ == v[i].name@ && r[i].line_id@ == in_namespace(
            ns,
            v[i].line_id@,
        )
}

pub open spec fn areas_moved(r: Seq<StopArea>, v: Seq<StopArea>, ns: Option<Seq<char>>) -> bool {
    &&& keys_moved(r, v, ns)
    &&& forall|i: int| 0 <= i < r.len() ==> (#[trigger] r[i]).name@ == v[i].name@
}

pub open spec fn points_moved(r: Seq<StopPoint>, v: Seq<StopPoint>, ns: Option<Seq<char>>) -> bool {
    &&& keys_moved(r, v, ns)
    &&& forall|i: int|
        0 <= i < r.len() ==> (#[trigger] r[i]).name@ == v[i].name@ && (r[i].stop_area_id is Some
            <==> v[i].stop_area_id is Some) && (r[i].stop_area_id is Some ==> r[i].stop_area_id->0@
            == in_namespace(ns, v[i].stop_area_id->0@))
}

/// Every line's network is among `networks`.
pub open spec fn lines_resolve(lines: Seq<Line>, networks: Seq<Network>) -> bool {
    forall|i: int| 0 <= i < lines.len() ==> !line_dangles(#[trigger] lines[i], networks)
}

/// Every route's line is among `lines`.
pub open spec fn routes_resolve(routes: Seq<Route>, lines: Seq<Line>) -> bool {
    forall|i: int| 0 <= i < routes.len() ==> !route_dangles(#[trigger] routes[i], lines)
}

/// Every stop point's parent area, if any, is among `areas`.
pub open spec fn points_resolve(points: Seq<StopPoint>, areas: Seq<StopArea>) -> bool {
    forall|i: int| 0 <= i < points.len() ==> !point_dangles(#[trigger] points[i], areas)
}

/// The records' ids are unique within each kind.
pub open spec fn records_unique(r: &Records) -> bool {
    &&& keys_unique(r.networks@)
    &&& keys_unique(r.lines@)
    &&& keys_unique(r.routes@)
    &&& keys_unique(r.stop_areas@)
    &&& keys_unique(r.stop_points@)
}

/// Moving keys into one namespace keeps them unique exactly when they were.
proof fn lemma_keys_moved_unique<T: Identified>(r: Seq<T>, v: Seq<T>, ns: Option<Seq<char>>)
    requires
        keys_moved(r, v, ns),
    ensures
        keys_unique(r) <==> keys_unique(v),
{
    assert forall|i: int, j: int| 0 <= i < r.len() && 0 <= j < r.len() implies (r[i].key() == r[j].key()
        <==> v[i].key() == v[j].key()) by {
        lemma_in_namespace_injective(ns, v[i].key(), v[j].key());
    }
}

/// Within one namespace, a key resolves exactly when it resolved before.
proof fn lemma_keys_moved_resolve<T: Identified>(
    r: Seq<T>,
    v: Seq<T>,
    ns: Option<Seq<char>>,
    k: Seq<char>,
)
    requires
        keys_moved(r, v, ns),
    ensures
        has_key(r, in_namespace(ns, k)) <==> has_key(v, k),
{
    if has_key(r, in_namespace(ns, k)) {
        let i = choose|i: int| 0 <= i < r.len() && (#[trigger] r[i]).key() == in_namespace(ns, k);
        lemma_in_namespace_injective(ns, v[i].key(), k);
    }
    if has_key(v, k) {
        let i = choose|i: int| 0 <= i < v.len() && (#[trigger] v[i]).key() == k;
        assert(r[i].key() == in_namespace(ns, k));
    }
}

/// Sources read under distinct contributors keep, each in its own namespace,
/// the references that resolved in it: a line resolves after the move
/// exactly when it resolved before.
pub proof fn lemma_namespaced_lines_resolve(
    rl: Seq<Line>,
    l: Seq<Line>,
    rn: Seq<Network>,
    n: Seq<Network>,
    ns: Option<Seq<char>>,
)
    requires
        lines_moved(rl, l, ns),
        networks_moved(rn, n, ns),
    ensures
        lines_resolve(rl, rn) <==> lines_resolve(l, n),
{
    assert forall|i: int| 0 <= i < rl.len() implies (line_dangles(#[trigger] rl[i], rn) <==> line_dangles(l[i], n)) by {
        lemma_keys_moved_resolve(rn, n, ns, l[i].network_id@);
    }
    if lines_resolve(l, n) {
        assert forall|i: int| 0 <= i < rl.len() implies !line_dangles(#[trigger] rl[i], rn) by {
            assert(!line_dangles(l[i], n));
        }
    }
    if lines_resolve(rl, rn) {
        assert forall|i: int| 0 <= i < l.len() implies !line_dangles(#[trigger] l[i], n) by {
            assert(!line_dangles(rl[i], rn));
        }
    }
}

proof fn lemma_namespaced_routes_resolve(
    rl: Seq<Route>,
    l: Seq<Route>,
    rn: Seq<Line>,
    n: Seq<Line>,
    ns: Option<Seq<char>>,
)
    requires
        routes_moved(rl, l, ns),
        lines_moved(rn, n, ns),
    ensures
        routes_resolve(rl, rn) <==> routes_resolve(l, n),
{
    assert forall|i: int| 0 <= i < rl.len() implies (route_dangles(#[trigger] rl[i], rn) <==> route_dangles(l[i], n)) by {
        lemma_keys_moved_resolve(rn, n, ns, l[i].line_id@);
    }
    if routes_resolve(l, n) {
        assert forall|i: int| 0 <= i < rl.len() implies !route_dangles(#[trigger] rl[i], rn) by {
            assert(!route_dangles(l[i], n));
        }
    }
    if routes_resolve(rl, rn) {
        assert forall|i: int| 0 <= i < l.len() implies !route_dangles(#[trigger] l[i], n) by {
            assert(!route_dangles(rl[i], rn));
        }
    }
}

proof fn lemma_namespaced_points_resolve(
    rp: Seq<StopPoint>,
    p: Seq<StopPoint>,
    ra: Seq<StopArea>,
    a: Seq<StopArea>,
    ns: Option<Seq<char>>,
)
    requires
        points_moved(rp, p, ns),
        areas_moved(ra, a, ns),
    ensures
        points_resolve(rp, ra) <==> points_resolve(p, a),
{
    assert forall|i: int| 0 <= i < rp.len() implies (point_dangles(#[trigger] rp[i], ra) <==> point_dangles(p[i], a)) by {
        if p[i].stop_area_id is Some {
            lemma_keys_moved_resolve(ra, a, ns, p[i].stop_area_id->0@);
        }
    }
    if points_resolve(p, a) {
        assert forall|i: int| 0 <= i < rp.len() implies !point_dangles(#[trigger] rp[i], ra) by {
            assert(!point_dangles(p[i], a));
        }
    }
    if points_resolve(rp, ra) {
        assert forall|i: int| 0 <= i < p.len() implies !point_dangles(#[trigger] p[i], a) by {
            assert(!point_dangles(rp[i], ra));
        }
    }
}

/// Inserts `items` in order, stopping at the first identifier taken twice.
pub fn fill<T: Identified>(items: Vec<T>) -> (r: Result<Collection<T>, DuplicateId>)
    ensures
        r is Ok <==> keys_unique(items@),
        r matches Ok(c) ==> c.wf() && c.view() == items@,
{
    let ghost all = items@;
    let mut rest = items;
    let mut c: Collection<T> = Collection::new();
    while rest.len() > 0
        invariant
            c.wf(),
            all == items@,
            c.view().len() + rest@.len() == all.len(),
            c.view() == all.subrange(0, c.view().len() as int),
            rest@ == all.subrange(c.view().len() as int, all.len() as int),
        decreases rest@.len(),
    {
        let ghost k = c.view().len() as int;
        assert(rest@[0] == all[k]);
        let e = rest.remove(0);
        match c.push(e) {
            Ok(()) => {
                assert(c.view() =~= all.subrange(0, k + 1));
            },
            Err(d) => {
                proof {
                    let j = choose|j: int| 0 <= j < k && (#[trigger] c.view()[j]).key() == all[k].key();
                    assert(c.view()[j] == all[j]);
                    assert(all[j].key() == all[k].key());
                    assert(!keys_unique(all));
                }
                return Err(d);
            },
        }
    }
    assert(c.view() =~= all);
    Ok(c)
}

/// A dangling reference with both ids put in namespace `ns`.
pub open spec fn moved_error(d: DanglingView, ns: Option<Seq<char>>) -> DanglingView {
    (d.0, in_namespace(ns, d.1), d.2, in_namespace(ns, d.3))
}

pub open spec fn moved_errors(s: Seq<DanglingView>, ns: Option<Seq<char>>) -> Seq<DanglingView> {
    s.map_values(|d: DanglingView| moved_error(d, ns))
}

proof fn lemma_line_errors_moved(
    rl: Seq<Line>,
    l: Seq<Line>,
    rn: Seq<Network>,
    n: Seq<Network>,
    ns: Option<Seq<char>>,
)
    requires
        lines_moved(rl, l, ns),
        networks_moved(rn, n, ns),
    ensures
        line_errors(rl, rn) == moved_errors(line_errors(l, n), ns),
    decreases l.len(),
{
    if l.len() > 0 {
        let (rp, lp) = (rl.drop_last(), l.drop_last());
        assert forall|i: int| 0 <= i < rp.len() implies (#[trigger] rp[i]).key() == in_namespace(ns, lp[i].key())
            && rp[i].name@ == lp[i].name@ && rp[i].network_id@ == in_namespace(ns, lp[i].network_id@) by {
            assert(rp[i] == rl[i] && lp[i] == l[i]);
        }
        lemma_line_errors_moved(rp, lp, rn, n, ns);
        lemma_keys_moved_resolve(rn, n, ns, l.last().network_id@);
        let prev = line_errors(lp, n);
        let last = (EntityKind::Line, l.last().id@, EntityKind::Network, l.last().network_id@);
        assert(moved_errors(prev.push(last), ns) =~= moved_errors(prev, ns).push(moved_error(last, ns)));
    } else {
        assert(moved_errors(line_errors(l, n), ns) =~= Seq::<DanglingView>::empty());
    }
}

proof fn lemma_route_errors_moved(
    rl: Seq<Route>,
    l: Seq<Route>,
    rn: Seq<Line>,
    n: Seq<Line>,
    ns: Option<Seq<char>>,
)
    requires
        routes_moved(rl, l, ns),
        lines_moved(rn, n, ns),
    ensures
        route_errors(rl, rn) == moved_errors(route_errors(l, n), ns),
    decreases l.len(),
{
    if l.len() > 0 {
        let (rp, lp) = (rl.drop_last(), l.drop_last());
        assert forall|i: int| 0 <= i < rp.len() implies (#[trigger] rp[i]).key() == in_namespace(ns, lp[i].key())
            && rp[i].name@ == lp[i].name@ && rp[i].line_id@ == in_namespace(ns, lp[i].line_id@) by {
            assert(rp[i] == rl[i] && lp[i] == l[i]);
        }
        lemma_route_errors_moved(rp, lp, rn, n, ns);
        lemma_keys_moved_resolve(rn, n, ns, l.last().line_id@);
        let prev = route_errors(lp, n);
        let last = (EntityKind::Route, l.last().id@, EntityKind::Line, l.last().line_id@);
        assert(moved_errors(prev.push(last), ns) =~= moved_errors(prev, ns).push(moved_error(last, ns)));
    } else {
        assert(moved_errors(route_errors(l, n), ns) =~= Seq::<DanglingView>::empty());
    }
}

proof fn lemma_point_errors_moved(
    rp: Seq<StopPoint>,
    p: Seq<StopPoint>,
    ra: Seq<StopArea>,
    a: Seq<StopArea>,
    ns: Option<Seq<char>>,
)
    requires
        points_moved(rp, p, ns),
        areas_moved(ra, a, ns),
    ensures
        point_errors(rp, ra) == moved_errors(point_errors(p, a), ns),
    decreases p.len(),
{
    if p.len() > 0 {
        let (rq, pq) = (rp.drop_last(), p.drop_last());
        assert forall|i: int| 0 <= i < rq.len() implies (#[trigger] rq[i]).key() == in_namespace(ns, pq[i].key())
            && rq[i].name@ == pq[i].name@ && (rq[i].stop_area_id is Some <==> pq[i].stop_area_id is Some)
            && (rq[i].stop_area_id is Some ==> rq[i].stop_area_id->0@ == in_namespace(
            ns,
            pq[i].stop_area_id->0@,
        )) by {
            assert(rq[i] == rp[i] && pq[i] == p[i]);
        }
        lemma_point_errors_moved(rq, pq, ra, a, ns);
        if p.last().stop_area_id is Some {
            lemma_keys_moved_resolve(ra, a, ns, p.last().stop_area_id->0@);
        }
        let prev = point_errors(pq, a);
        let last = (EntityKind::StopPoint, p.last().id@, EntityKind::StopArea, p.last().stop_area_id->0@);
        assert(moved_errors(prev.push(last), ns) =~= moved_errors(prev, ns).push(moved_error(last, ns)));
    } else {
        assert(moved_errors(point_errors(p, a), ns) =~= Seq::<DanglingView>::empty());
    }
}

fn move_networks(v: &Vec<Network>, ns: &Option<String>) -> (r: Vec<Network>)
    ensures
        networks_moved(r@, v@, opt_view(*ns)),
{
    let mut out: Vec<Network> = Vec::new();
    let mut i: usize = 0;
    while i < v.len()
        invariant
            i <= v@.len(),
            out@.len() == i,
            forall|j: int| 0 <= j < i ==> (#[trigger] out@[j]).key() == in_namespace(opt_view(*ns), v@[j].key()),
            forall|j: int| 0 <= j < i ==> (#[trigger] out@[j]).name@ == v@[j].name@,
        decreases v@.len() - i,
    {
        let n = &v[i];
        out.push(Network { id: namespaced(ns, &n.id), name: n.name.clone() });
        i = i + 1;
    }
    out
}

fn move_lines(v: &Vec<Line>, ns: &Option<String>) -> (r: Vec<Line>)
    ensures
        lines_moved(r@, v@, opt_view(*ns)),
{
    let mut out: Vec<Line> = Vec::new();
    let mut i: usize = 0;
    while i < v.len()
        invariant
            i <= v@.len(),
            out@.len() == i,
            forall|j: int| 0 <= j < i ==> (#[trigger] out@[j]).key() == in_namespace(opt_view(*ns), v@[j].key()),
            forall|j: int|
                0 <= j < i ==> (#[trigger] out@[j]).name@ == v@[j].name@ && out@[j].network_id@
                    == in_namespace(opt_view(*ns), v@[j].network_id@),
        decreases v@.len() - i,
    {
        let l = &v[i];
        out.push(
            Line {
                id: namespaced(ns, &l.id),
                name: l.name.clone(),
                network_id: namespaced(ns, &l.network_id),
            },
        );
        i = i + 1;
    }
    out
}

fn move_routes(v: &Vec<Route>, ns: &Option<String>) -> (r: Vec<Route>)
    ensures
        routes_moved(r@, v@, opt_view(*ns)),
{
    let mut out: Vec<Route> = Vec::new();
    let mut i: usize = 0;
    while i < v.len()
        invariant
            i <= v@.len(),
            out@.len() == i,
            forall|j: int| 0 <= j < i ==> (#[trigger] out@[j]).key() == in_namespace(opt_view(*ns), v@[j].key()),
            forall|j: int|
                0 <= j < i ==> (#[trigger] out@[j]).name@ == v@[j].name@ && out@[j].line_id@
                    == in_namespace(opt_view(*ns), v@[j].line_id@),
        decreases v@.len() - i,
    {
        let l = &v[i];
        out.push(
            Route {
                id: namespaced(ns, &l.id),
                name: l.name.clone(),
                line_id: namespaced(ns, &l.line_id),
            },
        );
        i = i + 1;
    }
    out
}

fn move_stop_areas(v: &Vec<StopArea>, ns: &Option<String>) -> (r: Vec<StopArea>)
    ensures
        areas_moved(r@, v@, opt_view(*ns)),
{
    let mut out: Vec<StopArea> = Vec::new();
    let mut i: usize = 0;
    while i < v.len()
        invariant
            i <= v@.len(),
            out@.len() == i,
            forall|j: int| 0 <= j < i ==> (#[trigger] out@[j]).key() == in_namespace(opt_view(*ns), v@[j].key()),
            forall|j: int| 0 <= j < i ==> (#[trigger] out@[j]).name@ == v@[j].name@,
        decreases v@.len() - i,
    {
        let a = &v[i];
        out.push(StopArea { id: namespaced(ns, &a.id), name: a.name.clone() });
        i = i + 1;
    }
    out
}

fn move_stop_points(v: &Vec<StopPoint>, ns: &Option<String>) -> (r: Vec<StopPoint>)
    ensures
        points_moved(r@, v@, opt_view(*ns)),
{
    let mut out: Vec<StopPoint> = Vec::new();
    let mut i: usize = 0;
    while i < v.len()
        invariant
            i <= v@.len(),
            out@.len() == i,
            forall|j: int| 0 <= j < i ==> (#[trigger] out@[j]).key() == in_namespace(opt_view(*ns), v@[j].key()),
            forall|j: int|
                0 <= j < i ==> (#[trigger] out@[j]).name@ == v@[j].name@ && (out@[j].stop_area_id is Some
                    <==> v@[j].stop_area_id is Some) && (out@[j].stop_area_id is Some
                    ==> out@[j].stop_area_id->0@ == in_namespace(opt_view(*ns), v@[j].stop_area_id->0@)),
        decreases v@.len() - i,
    {
        let p = &v[i];
        let parent = match &p.stop_area_id {
            Some(a) => Some(namespaced(ns, a)),
            None => None,
        };
        out.push(StopPoint { id: namespaced(ns, &p.id), name: p.name.clone(), stop_area_id: parent });
        i = i + 1;
    }
    out
}

/// Builds the graph of one source: every id and reference is put in the
/// configured contributor's namespace, every entity is inserted, and the
/// graph is validated. Nothing is returned but a committed graph or an error.
pub fn read(records: Records, config: Option<Config>) -> (r: Result<Model, ReadError>)
    ensures
        r is Ok <==> records_unique(&records) && lines_resolve(records.lines@, records.networks@)
            && routes_resolve(records.routes@, records.lines@) && points_resolve(
            records.stop_points@,
            records.stop_areas@,
        ),
        r matches Err(ReadError::DuplicateId { .. }) <==> !records_unique(&records),
        r matches Err(ReadError::DanglingReferences(e)) ==> e@.len() > 0 && views_of(e@)
            == moved_errors(
            line_errors(records.lines@, records.networks@) + route_errors(
                records.routes@,
                records.lines@,
            ) + point_errors(records.stop_points@, records.stop_areas@),
            namespace_of(config),
        ),
        r matches Ok(m) ==> {
            &&& m.wf()
            &&& networks_moved(m.networks.view(), records.networks@, namespace_of(config))
            &&& lines_moved(m.lines.view(), records.lines@, namespace_of(config))
            &&& routes_moved(m.routes.view(), records.routes@, namespace_of(config))
            &&& areas_moved(m.stop_areas.view(), records.stop_areas@, namespace_of(config))
            &&& points_moved(m.stop_points.view(), records.stop_points@, namespace_of(config))
        },
{
    let ns: Option<String> = match &config {
        Some(c) => if c.prefix {
            Some(c.contributor_id.clone())
        } else {
            None
        },
        None => None,
    };
    let ghost g = opt_view(ns);
    assert(g == namespace_of(config));
    let nets = move_networks(&records.networks, &ns);
    let lines = move_lines(&records.lines, &ns);
    let routes = move_routes(&records.routes, &ns);
    let areas = move_stop_areas(&records.stop_areas, &ns);
    let points = move_stop_points(&records.stop_points, &ns);
    proof {
        lemma_keys_moved_unique(nets@, records.networks@, g);
        lemma_keys_moved_unique(lines@, records.lines@, g);
        lemma_keys_moved_unique(routes@, records.routes@, g);
        lemma_keys_moved_unique(areas@, records.stop_areas@, g);
        lemma_keys_moved_unique(points@, records.stop_points@, g);
        lemma_namespaced_lines_resolve(lines@, records.lines@, nets@, records.networks@, g);
        lemma_namespaced_points_resolve(points@, records.stop_points@, areas@, records.stop_areas@, g);
        lemma_line_errors_moved(lines@, records.lines@, nets@, records.networks@, g);
        lemma_namespaced_routes_resolve(routes@, records.routes@, lines@, records.lines@, g);
        lemma_route_errors_moved(routes@, records.routes@, lines@, records.lines@, g);
        lemma_point_errors_moved(points@, records.stop_points@, areas@, records.stop_areas@, g);
        assert(moved_errors(
            line_errors(records.lines@, records.networks@) + route_errors(
                records.routes@,
                records.lines@,
            ) + point_errors(records.stop_points@, records.stop_areas@),
            g,
        ) =~= moved_errors(line_errors(records.lines@, records.networks@), g) + moved_errors(
            route_errors(records.routes@, records.lines@),
            g,
        ) + moved_errors(point_errors(records.stop_points@, records.stop_areas@), g));
    }
    let networks = match fill(nets) {
        Ok(c) => c,
        Err(d) => {
            return Err(ReadError::DuplicateId { kind: EntityKind::Network, id: d.id });
        },
    };
    let lines = match fill(lines) {
        Ok(c) => c,
        Err(d) => {
            return Err(ReadError::DuplicateId { kind: EntityKind::Line, id: d.id });
        },
    };
    let routes = match fill(routes) {
        Ok(c) => c,
        Err(d) => {
            return Err(ReadError::DuplicateId { kind: EntityKind::Route, id: d.id });
        },
    };
    let stop_areas = match fill(areas) {
        Ok(c) => c,
        Err(d) => {
            return Err(ReadError::DuplicateId { kind: EntityKind::StopArea, id: d.id });
        },
    };
    let stop_points = match fill(points) {
        Ok(c) => c,
        Err(d) => {
            return Err(ReadError::DuplicateId { kind: EntityKind::StopPoint, id: d.id });
        },
    };
    let m = Model { networks, lines, routes, stop_areas, stop_points };
    proof {
        lemma_validated_graph_is_closed(&m);
    }
    match m.validate() {
        Ok(()) => Ok(m),
        Err(e) => Err(ReadError::DanglingReferences(e)),
    }
}

} // verus!
