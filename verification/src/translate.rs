//! The KISS port translator and the frame router: rewriting the port
//! nibble to move a frame from a source port to a destination port, and
//! picking the destination of a frame among the configured routes.

use vstd::prelude::*;
use crate::kiss::{
    spec_frame_starts, spec_port_of, spec_set_port, extract_kiss_info, modify_kiss_port,
};

verus! {

/// Translates KISS frames from one port to another, between standard and
/// Extended KISS endpoints.
pub struct KissPortTranslator {
    pub source_port: u8,
    pub dest_port: u8,
    pub source_extended: bool,
    pub dest_extended: bool,
}

/// Whether the translator rewrites a frame rather than passing it by:
/// the frame must carry the source port, and the two endpoints must
/// actually differ.
pub open spec fn spec_translates(t: KissPortTranslator, frame: Seq<u8>) -> bool {
    &&& spec_frame_starts(frame)
    &&& spec_port_of(frame[1]) == t.source_port
    &&& !(t.source_port == t.dest_port && t.source_extended == t.dest_extended)
}

impl KissPortTranslator {
    pub fn new(source_port: u8, dest_port: u8, source_extended: bool, dest_extended: bool) -> (r: Self)
        ensures
            r == (KissPortTranslator { source_port, dest_port, source_extended, dest_extended }),
    {
        KissPortTranslator { source_port, dest_port, source_extended, dest_extended }
    }

    /// Translates a frame that carries the source port to the destination
    /// port. Returns nothing when the frame is not for the source port, or
    /// when source and destination are the same kind of endpoint on the
    /// same port, so that no translation is needed.
    pub fn translate(&self, frame: &[u8]) -> (r: Option<Vec<u8>>)
        ensures
            r is Some <==> spec_translates(*self, frame@),
            r is Some ==> r->0@ == spec_set_port(frame@, self.dest_port),
    {
        let info = extract_kiss_info(frame);
        match info {
            None => None,
            Some((current_port, _command, _data_start)) => {
                if current_port != self.source_port {
                    None
                } else if self.source_port == self.dest_port
                    && self.source_extended == self.dest_extended {
                    None
                } else {
                    Some(modify_kiss_port(frame, self.dest_port))
                }
            },
        }
    }

    /// Whether a frame carries this translator's source port.
    pub fn should_route(&self, frame: &[u8]) -> (r: bool)
        ensures
            r == (spec_frame_starts(frame@) && spec_port_of(frame@[1]) == self.source_port),
    {
        let info = extract_kiss_info(frame);
        match info {
            Some((port, _cmd, _idx)) => port == self.source_port,
            None => false,
        }
    }
}

/// One configured route as the contracts see it.
pub ghost struct RouteModel {
    pub source_id: Seq<char>,
    pub source_port: u8,
    pub dest_id: Seq<char>,
    pub dest_port: u8,
    pub translator: Option<KissPortTranslator>,
}

/// A route between two endpoints, with its translator when the ports or
/// the KISS kinds differ.
struct Route {
    source_id: String,
    source_port: u8,
    dest_id: String,
    dest_port: u8,
    translator: Option<KissPortTranslator>,
}

impl View for Route {
    type V = RouteModel;

    closed spec fn view(&self) -> RouteModel {
        RouteModel {
            source_id: self.source_id@,
            source_port: self.source_port,
            dest_id: self.dest_id@,
            dest_port: self.dest_port,
            translator: self.translator,
        }
    }
}

impl DeepView for Route {
    type V = RouteModel;

    open spec fn deep_view(&self) -> RouteModel {
        self.view()
    }
}

/// The translator a route is built with.
pub open spec fn spec_route_translator(
    source_port: u8,
    source_extended: bool,
    dest_port: u8,
    dest_extended: bool,
) -> Option<KissPortTranslator> {
    if source_port != dest_port || source_extended != dest_extended {
        Some(KissPortTranslator { source_port, dest_port, source_extended, dest_extended })
    } else {
        None
    }
}

/// The first route whose source endpoint and port match, if any.
pub open spec fn spec_find_route(routes: Seq<RouteModel>, sid: Seq<char>, port: u8) -> Option<
    RouteModel,
>
    decreases routes.len(),
{
    if routes.len() == 0 {
        None
    } else if routes[0].source_id == sid && routes[0].source_port == port {
        Some(routes[0])
    } else {
        spec_find_route(routes.skip(1), sid, port)
    }
}

/// What a matched route hands to its destination: the translated frame
/// where the route's translator applies, the frame unchanged otherwise.
pub open spec fn spec_route_output(route: RouteModel, frame: Seq<u8>) -> Seq<u8> {
    match route.translator {
        Some(t) => if spec_translates(t, frame) {
            spec_set_port(frame, t.dest_port)
        } else {
            frame
        },
        None => frame,
    }
}

/// A prefix without a match does not change which route is found.
proof fn lemma_find_route_skip(routes: Seq<RouteModel>, sid: Seq<char>, port: u8, i: int)
    requires
        0 <= i <= routes.len(),
        forall|k: int| 0 <= k < i
            ==> !((#[trigger] routes[k]).source_id == sid && routes[k].source_port == port),
    ensures
        spec_find_route(routes, sid, port) == spec_find_route(routes.skip(i), sid, port),
    decreases i,
{
    if i > 0 {
        assert(!(routes[0].source_id == sid && routes[0].source_port == port));
        assert(forall|k: int| 0 <= k < i - 1 ==> routes.skip(1)[k] == routes[k + 1]);
        lemma_find_route_skip(routes.skip(1), sid, port, i - 1);
        assert(routes.skip(1).skip(i - 1) =~= routes.skip(i));
    } else {
        assert(routes.skip(0) =~= routes);
    }
}

/// Routes frames among the configured cross-connects.
pub struct FrameRouter {
    routes: Vec<Route>,
}

impl View for FrameRouter {
    type V = Seq<RouteModel>;

    closed spec fn view(&self) -> Seq<RouteModel> {
        self.routes.deep_view()
    }
}

impl FrameRouter {
    /// A router with no routes.
    pub fn new() -> (r: Self)
        ensures
            r@ == Seq::<RouteModel>::empty(),
    {
        let r = FrameRouter { routes: Vec::new() };
        proof {
            assert(r@ =~= Seq::<RouteModel>::empty());
        }
        r
    }

    /// Adds a route between two endpoints; a translator is attached when
    /// the ports or the KISS kinds differ.
    pub fn add_route(
        &mut self,
        source_id: String,
        source_port: u8,
        source_extended: bool,
        dest_id: String,
        dest_port: u8,
        dest_extended: bool,
    )
        ensures
            final(self)@ == old(self)@.push(RouteModel {
                source_id: source_id@,
                source_port,
                dest_id: dest_id@,
                dest_port,
                translator: spec_route_translator(
                    source_port,
                    source_extended,
                    dest_port,
                    dest_extended,
                ),
            }),
    {
        let translator = if source_port != dest_port || source_extended != dest_extended {
            Some(KissPortTranslator::new(source_port, dest_port, source_extended, dest_extended))
        } else {
            None
        };
        let ghost prev = self@;
        let route = Route { source_id, source_port, dest_id, dest_port, translator };
        let ghost model = route@;
        self.routes.push(route);
        proof {
            assert(self@ =~= prev.push(model));
        }
    }

    /// Finds the destination for a frame coming from a source endpoint:
    /// the first route declared for that endpoint and the frame's port.
    /// The returned frame is translated where the route's translator
    /// applies and unchanged otherwise.
    pub fn route_frame(&self, source_id: &str, frame: &[u8]) -> (r: Option<(String, u8, Vec<u8>)>)
        ensures
            !spec_frame_starts(frame@) ==> r is None,
            spec_frame_starts(frame@) ==> match spec_find_route(
                self@,
                source_id@,
                spec_port_of(frame@[1]),
            ) {
                Some(rt) => r is Some && {
                    let out = r->0;
                    &&& out.0@ == rt.dest_id
                    &&& out.1 == rt.dest_port
                    &&& out.2@ == spec_route_output(rt, frame@)
                },
                None => r is None,
            },
    {
        let info = extract_kiss_info(frame);
        let (frame_port, _cmd, _idx) = match info {
            Some(t) => t,
            None => {
                return None;
            },
        };
        let sid: String = source_id.to_owned();
        let mut i: usize = 0;
        while i < self.routes.len()
            invariant
                i <= self.routes.len(),
                sid@ == source_id@,
                spec_frame_starts(frame@),
                frame_port == spec_port_of(frame@[1]),
                self@ == self.routes.deep_view(),
                self@.len() == self.routes.len(),
                forall|k: int| 0 <= k < i
                    ==> !((#[trigger] self@[k]).source_id == source_id@
                        && self@[k].source_port == frame_port),
            decreases self.routes.len() - i,
        {
            let route = &self.routes[i];
            proof {
                assert(self@[i as int] == route@);
            }
            if route.source_id == sid && route.source_port == frame_port {
                proof {
                    lemma_find_route_skip(self@, source_id@, frame_port, i as int);
                    assert(self@.skip(i as int)[0] == self@[i as int]);
                    assert(spec_find_route(self@, source_id@, frame_port) == Some(route@));
                }
                let translated: Vec<u8> = match &route.translator {
                    Some(translator) => {
                        match translator.translate(frame) {
                            Some(t) => t,
                            None => vstd::slice::slice_to_vec(frame),
                        }
                    },
                    None => vstd::slice::slice_to_vec(frame),
                };
                proof {
                    assert(spec_frame_starts(frame@));
                    assert(frame_port == spec_port_of(frame@[1]));
                    assert(translated@ == spec_route_output(route@, frame@));
                }
                return Some((route.dest_id.clone(), route.dest_port, translated));
            }
            i += 1;
        }
        proof {
            lemma_find_route_skip(self@, source_id@, frame_port, self@.len() as int);
            assert(self@.skip(self@.len() as int) =~= Seq::<RouteModel>::empty());
        }
        None
    }

    /// Every route from a source endpoint, as (source port, destination
    /// endpoint, destination port), in declaration order.
    pub fn get_routes_from(&self, source_id: &str) -> (r: Vec<(u8, String, u8)>)
        ensures
            r.deep_view() == spec_routes_from(self@, source_id@),
    {
        let sid: String = source_id.to_owned();
        let mut out: Vec<(u8, String, u8)> = Vec::new();
        let mut i: usize = 0;
        proof {
            assert(out.deep_view() =~~= Seq::<(u8, Seq<char>, u8)>::empty());
            assert(spec_routes_from(self@.take(0), source_id@)
                =~= Seq::<(u8, Seq<char>, u8)>::empty());
        }
        while i < self.routes.len()
            invariant
                i <= self.routes.len(),
                sid@ == source_id@,
                self@ == self.routes.deep_view(),
                self@.len() == self.routes.len(),
                out.deep_view() == spec_routes_from(self@.take(i as int), source_id@),
            decreases self.routes.len() - i,
        {
            let route = &self.routes[i];
            let ghost pre = out.deep_view();
            proof {
                assert(self@[i as int] == route@);
            }
            if route.source_id == sid {
                out.push((route.source_port, route.dest_id.clone(), route.dest_port));
            }
            proof {
                let ghost taken = self@.take(i as int);
                assert(self@.take(i as int + 1) =~= taken.push(route@));
                lemma_routes_from_push(taken, route@, source_id@);
                if route@.source_id == source_id@ {
                    assert(out.deep_view() =~~= pre.push(
                        (route@.source_port, route@.dest_id, route@.dest_port),
                    ));
                } else {
                    assert(out.deep_view() =~~= pre);
                }
            }
            i += 1;
        }
        proof {
            assert(self@.take(self@.len() as int) =~= self@);
        }
        out
    }
}

/// The (source port, destination endpoint, destination port) triples of
/// the routes declared for a source endpoint, in order.
pub open spec fn spec_routes_from(routes: Seq<RouteModel>, sid: Seq<char>) -> Seq<(u8, Seq<char>, u8)>
    decreases routes.len(),
{
    if routes.len() == 0 {
        Seq::empty()
    } else {
        let rest = spec_routes_from(routes.skip(1), sid);
        if routes[0].source_id == sid {
            seq![(routes[0].source_port, routes[0].dest_id, routes[0].dest_port)] + rest
        } else {
            rest
        }
    }
}

/// Appending one route extends the triples by at most that route's entry.
proof fn lemma_routes_from_push(routes: Seq<RouteModel>, route: RouteModel, sid: Seq<char>)
    ensures
        spec_routes_from(routes.push(route), sid) == if route.source_id == sid {
            spec_routes_from(routes, sid).push((route.source_port, route.dest_id, route.dest_port))
        } else {
            spec_routes_from(routes, sid)
        },
    decreases routes.len(),
{
    if routes.len() == 0 {
        let one = routes.push(route);
        assert(one[0] == route);
        assert(one.skip(1) =~= Seq::<RouteModel>::empty());
        assert(spec_routes_from(Seq::<RouteModel>::empty(), sid)
            =~= Seq::<(u8, Seq<char>, u8)>::empty());
        if route.source_id == sid {
            assert(seq![(route.source_port, route.dest_id, route.dest_port)]
                + Seq::<(u8, Seq<char>, u8)>::empty()
                =~= Seq::<(u8, Seq<char>, u8)>::empty().push(
                (route.source_port, route.dest_id, route.dest_port),
            ));
        }
    } else {
        let pushed = routes.push(route);
        assert(pushed[0] == routes[0]);
        assert(pushed.skip(1) =~= routes.skip(1).push(route));
        lemma_routes_from_push(routes.skip(1), route, sid);
        if route.source_id == sid {
            if routes[0].source_id == sid {
                assert(seq![(routes[0].source_port, routes[0].dest_id, routes[0].dest_port)]
                    + spec_routes_from(routes.skip(1), sid).push(
                    (route.source_port, route.dest_id, route.dest_port),
                )
                    =~= (seq![(routes[0].source_port, routes[0].dest_id, routes[0].dest_port)]
                        + spec_routes_from(routes.skip(1), sid)).push(
                    (route.source_port, route.dest_id, route.dest_port),
                ));
            }
        }
    }
}

} // verus!
