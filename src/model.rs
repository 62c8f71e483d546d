//! The entity graph: one collection per entity kind, and the validation pass
//! that reports every reference which does not resolve.

use vstd::prelude::*;
use crate::collection::{Collection, Identified, has_key};

verus! {

/// A transit operator's service brand.
pub struct Network {
    pub id: String,
    pub name: String,
}

/// A named service grouping, run under one network.
pub struct Line {
    pub id: String,
    pub name: String,
    pub network_id: String,
}

/// A directional path of a line.
pub struct Route {
    pub id: String,
    pub name: String,
    pub line_id: String,
}

/// A logical station grouping stop points.
pub struct StopArea {
    pub id: String,
    pub name: String,
}

/// A boardable location; one without a parent area is a stop zone.
pub struct StopPoint {
    pub id: String,
    pub name: String,
    pub stop_area_id: Option<String>,
}

impl Identified for Network {
    open spec fn key(&self) -> Seq<char> {
        self.id@
    }

    fn id(&self) -> (r: &String) {
        &self.id
    }
}

impl Identified for Line {
    open spec fn key(&self) -> Seq<char> {
        self.id@
    }

    fn id(&self) -> (r: &String) {
        &self.id
    }
}

impl Identified for Route {
    open spec fn key(&self) -> Seq<char> {
        self.id@
    }

    fn id(&self) -> (r: &String) {
        &self.id
    }
}

impl Identified for StopArea {
    open spec fn key(&self) -> Seq<char> {
        self.id@
    }

    fn id(&self) -> (r: &String) {
        &self.id
    }
}

impl Identified for StopPoint {
    open spec fn key(&self) -> Seq<char> {
        self.id@
    }

    fn id(&self) -> (r: &String) {
        &self.id
    }
}

#[derive(Debug, Clone, Copy, PartialEq, Eq, Structural)]
pub enum EntityKind {
    Network,
    Line,
    Route,
    StopArea,
    StopPoint,
}

/// A foreign key held by `from_id` that names no entity `to_id`.
#[derive(Debug, Clone, PartialEq, Eq)]
pub struct DanglingReference {
    pub from_kind: EntityKind,
    pub from_id: String,
    pub to_kind: EntityKind,
    pub to_id: String,
}

/// A dangling reference as plain values.
pub type DanglingView = (EntityKind, Seq<char>, EntityKind, Seq<char>);

impl View for DanglingReference {
    type V = DanglingView;

    open spec fn view(&self) -> DanglingView {
        (self.from_kind, self.from_id@, self.to_kind, self.to_id@)
    }
}

/// The entity graph.
pub struct Model {
    pub networks: Collection<Network>,
    pub lines: Collection<Line>,
    pub routes: Collection<Route>,
    pub stop_areas: Collection<StopArea>,
    pub stop_points: Collection<StopPoint>,
}

impl Model {
    /// A graph with no entity.
    pub fn new() -> (r: Model)
        ensures
            r.wf(),
            r.networks.view().len() == 0,
            r.lines.view().len() == 0,
            r.routes.view().len() == 0,
            r.stop_areas.view().len() == 0,
            r.stop_points.view().len() == 0,
    {
        Model {
            networks: Collection::new(),
            lines: Collection::new(),
            routes: Collection::new(),
            stop_areas: Collection::new(),
            stop_points: Collection::new(),
        }
    }

    pub open spec fn wf(&self) -> bool {
        &&& self.networks.wf()
        &&& self.lines.wf()
        &&& self.routes.wf()
        &&& self.stop_areas.wf()
        &&& self.stop_points.wf()
    }
}

/// The line's network does not exist.
pub open spec fn line_dangles(l: Line, networks: Seq<Network>) -> bool {
    !has_key(networks, l.network_id@)
}

/// The route's line does not exist.
pub open spec fn route_dangles(r: Route, lines: Seq<Line>) -> bool {
    !has_key(lines, r.line_id@)
}

/// The stop point names a parent area that does not exist.
pub open spec fn point_dangles(p: StopPoint, areas: Seq<StopArea>) -> bool {
    p.stop_area_id matches Some(a) && !has_key(areas, a@)
}

/// The dangling references of `lines`, in order.
pub open spec fn line_errors(lines: Seq<Line>, networks: Seq<Network>) -> Seq<DanglingView>
    decreases lines.len(),
{
    if lines.len() == 0 {
        Seq::empty()
    } else {
        let prev = line_errors(lines.drop_last(), networks);
        let l = lines.last();
        if line_dangles(l, networks) {
            prev.push((EntityKind::Line, l.id@, EntityKind::Network, l.network_id@))
        } else {
            prev
        }
    }
}

/// The dangling references of `routes`, in order.
pub open spec fn route_errors(routes: Seq<Route>, lines: Seq<Line>) -> Seq<DanglingView>
    decreases routes.len(),
{
    if routes.len() == 0 {
        Seq::empty()
    } else {
        let prev = route_errors(routes.drop_last(), lines);
        let r = routes.last();
        if route_dangles(r, lines) {
            prev.push((EntityKind::Route, r.id@, EntityKind::Line, r.line_id@))
        } else {
            prev
        }
    }
}

/// The dangling references of `points`, in order.
pub open spec fn point_errors(points: Seq<StopPoint>, areas: Seq<StopArea>) -> Seq<DanglingView>
    decreases points.len(),
{
    if points.len() == 0 {
        Seq::empty()
    } else {
        let prev = point_errors(points.drop_last(), areas);
        let p = points.last();
        if point_dangles(p, areas) {
            prev.push((EntityKind::StopPoint, p.id@, EntityKind::StopArea, p.stop_area_id->0@))
        } else {
            prev
        }
    }
}

/// Every dangling reference of the graph: those of lines, of routes, then
/// of stop points.
pub open spec fn graph_errors(m: &Model) -> Seq<DanglingView> {
    line_errors(m.lines.view(), m.networks.view()) + route_errors(m.routes.view(), m.lines.view())
        + point_errors(
        m.stop_points.view(),
        m.stop_areas.view(),
    )
}

/// Every foreign key of the graph resolves.
pub open spec fn is_closed(m: &Model) -> bool {
    &&& forall|i: int|
        0 <= i < m.lines.view().len() ==> !line_dangles(
            #[trigger] m.lines.view()[i],
            m.networks.view(),
        )
    &&& forall|i: int|
        0 <= i < m.routes.view().len() ==> !route_dangles(
            #[trigger] m.routes.view()[i],
            m.lines.view(),
        )
    &&& forall|i: int|
        0 <= i < m.stop_points.view().len() ==> !point_dangles(
            #[trigger] m.stop_points.view()[i],
            m.stop_areas.view(),
        )
}

pub open spec fn views_of(v: Seq<DanglingReference>) -> Seq<DanglingView> {
    v.map_values(|d: DanglingReference| d@)
}

fn check_lines(m: &Model, out: &mut Vec<DanglingReference>)
    requires
        m.wf(),
    ensures
        views_of(final(out)@) == views_of(old(out)@) + line_errors(m.lines.view(), m.networks.view()),
{
    let ghost start = views_of(out@);
    let mut i: usize = 0;
    while i < m.lines.len()
        invariant
            m.wf(),
            i <= m.lines.view().len(),
            views_of(out@) == start + line_errors(m.lines.view().subrange(0, i as int), m.networks.view()),
        decreases m.lines.view().len() - i,
    {
        let l = m.lines.at(i);
        let ghost before = out@;
        assert(m.lines.view().subrange(0, i + 1).drop_last() =~= m.lines.view().subrange(0, i as int));
        if !m.networks.contains_id(&l.network_id) {
            out.push(DanglingReference {
                from_kind: EntityKind::Line,
                from_id: l.id.clone(),
                to_kind: EntityKind::Network,
                to_id: l.network_id.clone(),
            });
            assert(views_of(out@) =~= views_of(before).push(out@.last()@));
        }
        i = i + 1;
    }
    assert(m.lines.view().subrange(0, i as int) =~= m.lines.view());
}

fn check_routes(m: &Model, out: &mut Vec<DanglingReference>)
    requires
        m.wf(),
    ensures
        views_of(final(out)@) == views_of(old(out)@) + route_errors(m.routes.view(), m.lines.view()),
{
    let ghost start = views_of(out@);
    let mut i: usize = 0;
    while i < m.routes.len()
        invariant
            m.wf(),
            i <= m.routes.view().len(),
            views_of(out@) == start + route_errors(m.routes.view().subrange(0, i as int), m.lines.view()),
        decreases m.routes.view().len() - i,
    {
        let r = m.routes.at(i);
        let ghost before = out@;
        assert(m.routes.view().subrange(0, i + 1).drop_last() =~= m.routes.view().subrange(0, i as int));
        if !m.lines.contains_id(&r.line_id) {
            out.push(DanglingReference {
                from_kind: EntityKind::Route,
                from_id: r.id.clone(),
                to_kind: EntityKind::Line,
                to_id: r.line_id.clone(),
            });
            assert(views_of(out@) =~= views_of(before).push(out@.last()@));
        }
        i = i + 1;
    }
    assert(m.routes.view().subrange(0, i as int) =~= m.routes.view());
}

fn check_stop_points(m: &Model, out: &mut Vec<DanglingReference>)
    requires
        m.wf(),
    ensures
        views_of(final(out)@) == views_of(old(out)@) + point_errors(
            m.stop_points.view(),
            m.stop_areas.view(),
        ),
{
    let ghost start = views_of(out@);
    let mut i: usize = 0;
    while i < m.stop_points.len()
        invariant
            m.wf(),
            i <= m.stop_points.view().len(),
            views_of(out@) == start + point_errors(
                m.stop_points.view().subrange(0, i as int),
                m.stop_areas.view(),
            ),
        decreases m.stop_points.view().len() - i,
    {
        let p = m.stop_points.at(i);
        let ghost before = out@;
        assert(m.stop_points.view().subrange(0, i + 1).drop_last() =~= m.stop_points.view().subrange(
            0,
            i as int,
        ));
        match &p.stop_area_id {
            Some(a) => {
                if !m.stop_areas.contains_id(a) {
                    out.push(DanglingReference {
                        from_kind: EntityKind::StopPoint,
                        from_id: p.id.clone(),
                        to_kind: EntityKind::StopArea,
                        to_id: a.clone(),
                    });
                    assert(views_of(out@) =~= views_of(before).push(out@.last()@));
                }
            },
            None => {},
        }
        i = i + 1;
    }
    assert(m.stop_points.view().subrange(0, i as int) =~= m.stop_points.view());
}

fn has_parent(p: &StopPoint) -> (r: bool)
    ensures
        r == p.stop_area_id is Some,
{
    p.stop_area_id.is_some()
}

impl Model {
    /// Drops the stop zones, the stop points without a parent area, and
    /// keeps every other entity.
    pub fn remove_stop_zones(&mut self)
        requires
            old(self).wf(),
        ensures
            final(self).wf(),
            final(self).networks == old(self).networks,
            final(self).lines == old(self).lines,
            final(self).stop_areas == old(self).stop_areas,
            forall|i: int|
                0 <= i < final(self).stop_points.view().len() ==> old(self).stop_points.view().contains(
                    #[trigger] final(self).stop_points.view()[i],
                ) && final(self).stop_points.view()[i].stop_area_id is Some,
            forall|i: int|
                0 <= i < old(self).stop_points.view().len() && (
                #[trigger] old(self).stop_points.view()[i]).stop_area_id is Some
                    ==> final(self).stop_points.view().contains(old(self).stop_points.view()[i]),
    {
        self.stop_points.retain(has_parent);
    }

    /// Checks every foreign key of the graph and reports all those that do
    /// not resolve, not only the first.
    pub fn validate(&self) -> (r: Result<(), Vec<DanglingReference>>)
        requires
            self.wf(),
        ensures
            r is Ok <==> graph_errors(self).len() == 0,
            r matches Err(e) ==> views_of(e@) == graph_errors(self),
    {
        let mut out: Vec<DanglingReference> = Vec::new();
        assert(views_of(out@) =~= Seq::<DanglingView>::empty());
        check_lines(self, &mut out);
        check_routes(self, &mut out);
        check_stop_points(self, &mut out);
        assert(views_of(out@).len() == out@.len());
        if out.len() == 0 {
            Ok(())
        } else {
            Err(out)
        }
    }
}

proof fn lemma_line_errors(lines: Seq<Line>, networks: Seq<Network>)
    ensures
        line_errors(lines, networks).len() == 0 <==> forall|i: int|
            0 <= i < lines.len() ==> !line_dangles(#[trigger] lines[i], networks),
        forall|i: int|
            0 <= i < lines.len() && line_dangles(#[trigger] lines[i], networks) ==> line_errors(
                lines,
                networks,
            ).contains((EntityKind::Line, lines[i].id@, EntityKind::Network, lines[i].network_id@)),
    decreases lines.len(),
{
    if lines.len() > 0 {
        let prev = lines.drop_last();
        lemma_line_errors(prev, networks);
        let errs = line_errors(lines, networks);
        let pe = line_errors(prev, networks);
        assert forall|i: int|
            0 <= i < lines.len() && line_dangles(#[trigger] lines[i], networks) implies errs.contains(
            (EntityKind::Line, lines[i].id@, EntityKind::Network, lines[i].network_id@),
        ) by {
            if i < lines.len() - 1 {
                assert(prev[i] == lines[i]);
                let k = choose|k: int|
                    0 <= k < pe.len() && pe[k] == (
                        EntityKind::Line,
                        lines[i].id@,
                        EntityKind::Network,
                        lines[i].network_id@,
                    );
                assert(errs[k] == pe[k]);
            } else {
                assert(errs.last() == (
                    EntityKind::Line,
                    lines[i].id@,
                    EntityKind::Network,
                    lines[i].network_id@,
                ));
            }
        }
        if errs.len() == 0 {
            assert forall|i: int| 0 <= i < lines.len() implies !line_dangles(
                #[trigger] lines[i],
                networks,
            ) by {
                if i < lines.len() - 1 {
                    assert(prev[i] == lines[i]);
                }
            }
        }
        if forall|i: int| 0 <= i < lines.len() ==> !line_dangles(#[trigger] lines[i], networks) {
            assert forall|i: int| 0 <= i < prev.len() implies !line_dangles(
                #[trigger] prev[i],
                networks,
            ) by {
                assert(prev[i] == lines[i]);
            }
            assert(!line_dangles(lines[lines.len() - 1], networks));
        }
    }
}

proof fn lemma_route_errors(routes: Seq<Route>, lines: Seq<Line>)
    ensures
        route_errors(routes, lines).len() == 0 <==> forall|i: int|
            0 <= i < routes.len() ==> !route_dangles(#[trigger] routes[i], lines),
        forall|i: int|
            0 <= i < routes.len() && route_dangles(#[trigger] routes[i], lines) ==> route_errors(
                routes,
                lines,
            ).contains((EntityKind::Route, routes[i].id@, EntityKind::Line, routes[i].line_id@)),
    decreases routes.len(),
{
    if routes.len() > 0 {
        let prev = routes.drop_last();
        lemma_route_errors(prev, lines);
        let errs = route_errors(routes, lines);
        let pe = route_errors(prev, lines);
        assert forall|i: int|
            0 <= i < routes.len() && route_dangles(#[trigger] routes[i], lines) implies errs.contains(
            (EntityKind::Route, routes[i].id@, EntityKind::Line, routes[i].line_id@),
        ) by {
            if i < routes.len() - 1 {
                assert(prev[i] == routes[i]);
                let k = choose|k: int|
                    0 <= k < pe.len() && pe[k] == (
                        EntityKind::Route,
                        routes[i].id@,
                        EntityKind::Line,
                        routes[i].line_id@,
                    );
                assert(errs[k] == pe[k]);
            } else {
                assert(errs.last() == (
                    EntityKind::Route,
                    routes[i].id@,
                    EntityKind::Line,
                    routes[i].line_id@,
                ));
            }
        }
        if errs.len() == 0 {
            assert forall|i: int| 0 <= i < routes.len() implies !route_dangles(
                #[trigger] routes[i],
                lines,
            ) by {
                if i < routes.len() - 1 {
                    assert(prev[i] == routes[i]);
                }
            }
        }
        if forall|i: int| 0 <= i < routes.len() ==> !route_dangles(#[trigger] routes[i], lines) {
            assert forall|i: int| 0 <= i < prev.len() implies !route_dangles(
                #[trigger] prev[i],
                lines,
            ) by {
                assert(prev[i] == routes[i]);
            }
            assert(!route_dangles(routes[routes.len() - 1], lines));
        }
    }
}

proof fn lemma_point_errors(points: Seq<StopPoint>, areas: Seq<StopArea>)
    ensures
        point_errors(points, areas).len() == 0 <==> forall|i: int|
            0 <= i < points.len() ==> !point_dangles(#[trigger] points[i], areas),
        forall|i: int|
            0 <= i < points.len() && point_dangles(#[trigger] points[i], areas) ==> point_errors(
                points,
                areas,
            ).contains(
                (EntityKind::StopPoint, points[i].id@, EntityKind::StopArea, points[i].stop_area_id->0@),
            ),
    decreases points.len(),
{
    if points.len() > 0 {
        let prev = points.drop_last();
        lemma_point_errors(prev, areas);
        let errs = point_errors(points, areas);
        let pe = point_errors(prev, areas);
        assert forall|i: int|
            0 <= i < points.len() && point_dangles(#[trigger] points[i], areas) implies errs.contains(
            (EntityKind::StopPoint, points[i].id@, EntityKind::StopArea, points[i].stop_area_id->0@),
        ) by {
            if i < points.len() - 1 {
                assert(prev[i] == points[i]);
                let k = choose|k: int|
                    0 <= k < pe.len() && pe[k] == (
                        EntityKind::StopPoint,
                        points[i].id@,
                        EntityKind::StopArea,
                        points[i].stop_area_id->0@,
                    );
                assert(errs[k] == pe[k]);
            } else {
                assert(errs.last() == (
                    EntityKind::StopPoint,
                    points[i].id@,
                    EntityKind::StopArea,
                    points[i].stop_area_id->0@,
                ));
            }
        }
        if errs.len() == 0 {
            assert forall|i: int| 0 <= i < points.len() implies !point_dangles(
                #[trigger] points[i],
                areas,
            ) by {
                if i < points.len() - 1 {
                    assert(prev[i] == points[i]);
                }
            }
        }
        if forall|i: int| 0 <= i < points.len() ==> !point_dangles(#[trigger] points[i], areas) {
            assert forall|i: int| 0 <= i < prev.len() implies !point_dangles(
                #[trigger] prev[i],
                areas,
            ) by {
                assert(prev[i] == points[i]);
            }
            assert(!point_dangles(points[points.len() - 1], areas));
        }
    }
}

/// A graph passes validation exactly when every foreign key held by every
/// entity resolves to an entity of the referenced collection.
pub proof fn lemma_validated_graph_is_closed(m: &Model)
    ensures
        graph_errors(m).len() == 0 <==> is_closed(m),
{
    lemma_line_errors(m.lines.view(), m.networks.view());
    lemma_route_errors(m.routes.view(), m.lines.view());
    lemma_point_errors(m.stop_points.view(), m.stop_areas.view());
}

/// Validation reports every dangling reference of the graph, each as its own
/// record, whichever comes first.
pub proof fn lemma_validation_complete(m: &Model)
    ensures
        forall|i: int|
            0 <= i < m.lines.view().len() && line_dangles(#[trigger] m.lines.view()[i], m.networks.view())
                ==> graph_errors(m).contains(
                (
                    EntityKind::Line,
                    m.lines.view()[i].id@,
                    EntityKind::Network,
                    m.lines.view()[i].network_id@,
                ),
            ),
        forall|i: int|
            0 <= i < m.routes.view().len() && route_dangles(#[trigger] m.routes.view()[i], m.lines.view())
                ==> graph_errors(m).contains(
                (
                    EntityKind::Route,
                    m.routes.view()[i].id@,
                    EntityKind::Line,
                    m.routes.view()[i].line_id@,
                ),
            ),
        forall|i: int|
            0 <= i < m.stop_points.view().len() && point_dangles(
                #[trigger] m.stop_points.view()[i],
                m.stop_areas.view(),
            ) ==> graph_errors(m).contains(
                (
                    EntityKind::StopPoint,
                    m.stop_points.view()[i].id@,
                    EntityKind::StopArea,
                    m.stop_points.view()[i].stop_area_id->0@,
                ),
            ),
{
    let le = line_errors(m.lines.view(), m.networks.view());
    let re = route_errors(m.routes.view(), m.lines.view());
    let pe = point_errors(m.stop_points.view(), m.stop_areas.view());
    lemma_line_errors(m.lines.view(), m.networks.view());
    lemma_route_errors(m.routes.view(), m.lines.view());
    lemma_point_errors(m.stop_points.view(), m.stop_areas.view());
    let all = graph_errors(m);
    assert forall|k: int| 0 <= k < le.len() implies all[k] == le[k] by {}
    assert forall|k: int| 0 <= k < re.len() implies all[le.len() + k] == re[k] by {}
    assert forall|k: int| 0 <= k < pe.len() implies all[le.len() + re.len() + k] == pe[k] by {}
}

} // verus!
