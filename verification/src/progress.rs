//! Routing of MCP progress notifications to the call that is currently
//! running. A call registers its own progress token, may bind a token that
//! the MCP client generated for it, and unregisters when it ends; progress
//! for unknown or stale tokens is dropped.

use vstd::prelude::*;
use vstd::hash_map::StringHashMap;

verus! {

/// Where progress of one call is delivered: the turn's event id and the call id.
pub struct ProgressRoute {
    pub event_id: String,
    pub call_id: String,
}

impl View for ProgressRoute {
    type V = (Seq<char>, Seq<char>);

    open spec fn view(&self) -> (Seq<char>, Seq<char>) {
        (self.event_id@, self.call_id@)
    }
}

impl ProgressRoute {
    pub fn duplicate(&self) -> (r: ProgressRoute)
        ensures
            r@ == self@,
    {
        ProgressRoute { event_id: self.event_id.clone(), call_id: self.call_id.clone() }
    }
}

/// The abstract state of the routing tables.
pub struct RoutesModel {
    /// token -> (event id, call id)
    pub by_token: Map<Seq<char>, (Seq<char>, Seq<char>)>,
    /// registered token -> generated token currently bound to it
    pub bound: Map<Seq<char>, Seq<char>>,
    /// generated token -> registered token that owns it
    pub owners: Map<Seq<char>, Seq<char>>,
}

/// `bound` and `owners` are inverse to each other.
pub open spec fn model_wf(s: RoutesModel) -> bool {
    &&& forall|t: Seq<char>| #[trigger] s.bound.contains_key(t) ==> s.owners.contains_key(s.bound[t]) && s.owners[s.bound[t]] == t
    &&& forall|g: Seq<char>| #[trigger] s.owners.contains_key(g) ==> s.bound.contains_key(s.owners[g]) && s.bound[s.owners[g]] == g
}

pub open spec fn empty_model() -> RoutesModel {
    RoutesModel { by_token: Map::empty(), bound: Map::empty(), owners: Map::empty() }
}

pub open spec fn spec_register(s: RoutesModel, token: Seq<char>, route: (Seq<char>, Seq<char>)) -> RoutesModel {
    RoutesModel { by_token: s.by_token.insert(token, route), bound: s.bound, owners: s.owners }
}

/// Drops the binding of `token` (if any); the generated token it was bound to
/// loses its route and owner only when `token` still owns it.
pub open spec fn spec_release_binding(s: RoutesModel, token: Seq<char>) -> RoutesModel {
    if s.bound.contains_key(token) {
        let g = s.bound[token];
        if s.owners.contains_key(g) && s.owners[g] == token {
            RoutesModel { by_token: s.by_token.remove(g), bound: s.bound.remove(token), owners: s.owners.remove(g) }
        } else {
            RoutesModel { by_token: s.by_token, bound: s.bound.remove(token), owners: s.owners }
        }
    } else {
        s
    }
}

/// Makes `generated` a second name of `token`'s route; `generated` is taken
/// away from any previous owner.
pub open spec fn spec_claim(s: RoutesModel, token: Seq<char>, generated: Seq<char>) -> RoutesModel {
    let bound = if s.owners.contains_key(generated) { s.bound.remove(s.owners[generated]) } else { s.bound };
    RoutesModel { by_token: s.by_token, bound, owners: s.owners.insert(generated, token) }
}

pub open spec fn spec_bind(s: RoutesModel, token: Seq<char>, generated: Seq<char>) -> RoutesModel {
    if !s.by_token.contains_key(token) {
        s
    } else {
        let route = s.by_token[token];
        let s2 = spec_claim(spec_release_binding(s, token), token, generated);
        RoutesModel {
            by_token: s2.by_token.insert(generated, route),
            bound: s2.bound.insert(token, generated),
            owners: s2.owners,
        }
    }
}

pub open spec fn spec_unregister(s: RoutesModel, token: Seq<char>) -> RoutesModel {
    let s1 = RoutesModel { by_token: s.by_token.remove(token), bound: s.bound, owners: s.owners };
    spec_release_binding(s1, token)
}

pub open spec fn spec_route(s: RoutesModel, token: Seq<char>) -> Option<(Seq<char>, Seq<char>)> {
    if s.by_token.contains_key(token) { Some(s.by_token[token]) } else { None }
}

/// The routing tables of progress notifications.
pub struct ProgressRoutes {
    by_token: StringHashMap<ProgressRoute>,
    bound_tokens: StringHashMap<String>,
    token_owners: StringHashMap<String>,
}

impl View for ProgressRoutes {
    type V = RoutesModel;

    closed spec fn view(&self) -> RoutesModel {
        RoutesModel {
            by_token: self.by_token@.map_values(|r: ProgressRoute| r@),
            bound: self.bound_tokens@.map_values(|s: String| s@),
            owners: self.token_owners@.map_values(|s: String| s@),
        }
    }
}

impl ProgressRoutes {
    /// The tables are consistent: bindings and owners are inverse. This is
    /// a precondition and a postcondition of the operations rather than a
    /// type invariant, because `bind` updates the tables one after another
    /// and they are inverse again only once all of them are updated.
    pub open spec fn wf(&self) -> bool {
        model_wf(self@)
    }

    pub fn new() -> (r: ProgressRoutes)
        ensures
            r@ == empty_model(),
            r.wf(),
    {
        let r = ProgressRoutes {
            by_token: StringHashMap::new(),
            bound_tokens: StringHashMap::new(),
            token_owners: StringHashMap::new(),
        };
        assert(r@.by_token =~= Map::empty());
        assert(r@.bound =~= Map::empty());
        assert(r@.owners =~= Map::empty());
        r
    }

    /// Registers (or re-registers) `token` as a route to the given event and call.
    pub fn register(&mut self, token: &str, event_id: &str, call_id: &str)
        requires
            old(self).wf(),
        ensures
            final(self)@ == spec_register(old(self)@, token@, (event_id@, call_id@)),
            final(self).wf(),
    {
        let route = ProgressRoute { event_id: event_id.to_owned(), call_id: call_id.to_owned() };
        self.by_token.insert(token.to_owned(), route);
        assert(self@.by_token =~= old(self)@.by_token.insert(token@, (event_id@, call_id@)));
        assert(self@.bound =~= old(self)@.bound);
        assert(self@.owners =~= old(self)@.owners);
    }

    fn release_binding(&mut self, token: &str)
        ensures
            final(self)@ == spec_release_binding(old(self)@, token@),
    {
        let token_s = token.to_owned();
        let previous = match self.bound_tokens.get(token) {
            Some(g) => Some(g.clone()),
            None => None,
        };
        if let Some(generated) = previous {
            self.bound_tokens.remove(token);
            let owned_by_token = match self.token_owners.get(generated.as_str()) {
                Some(owner) => owner.eq(&token_s),
                None => false,
            };
            if owned_by_token {
                self.token_owners.remove(generated.as_str());
                self.by_token.remove(generated.as_str());
                assert(self@.by_token =~= old(self)@.by_token.remove(generated@));
                assert(self@.owners =~= old(self)@.owners.remove(generated@));
            } else {
                assert(self@.by_token =~= old(self)@.by_token);
                assert(self@.owners =~= old(self)@.owners);
            }
            assert(self@.bound =~= old(self)@.bound.remove(token@));
        }
    }

    fn claim(&mut self, token: &str, generated: &str)
        ensures
            final(self)@ == spec_claim(old(self)@, token@, generated@),
    {
        let previous_owner = match self.token_owners.get(generated) {
            Some(o) => Some(o.clone()),
            None => None,
        };
        self.token_owners.insert(generated.to_owned(), token.to_owned());
        assert(self@.owners =~= old(self)@.owners.insert(generated@, token@));
        if let Some(owner) = previous_owner {
            self.bound_tokens.remove(owner.as_str());
            assert(self@.bound =~= old(self)@.bound.remove(owner@));
        } else {
            assert(self@.bound =~= old(self)@.bound);
        }
        assert(self@.by_token =~= old(self)@.by_token);
    }

    /// Binds `generated_token` (a token the MCP client generated for the call
    /// registered as `token`) to that call's route. Nothing changes when
    /// `token` is not registered.
    pub fn bind(&mut self, token: &str, generated_token: &str)
        requires
            old(self).wf(),
        ensures
            final(self)@ == spec_bind(old(self)@, token@, generated_token@),
            final(self).wf(),
            old(self)@.by_token.contains_key(token@) ==> {
                &&& final(self)@.bound.contains_key(token@)
                &&& final(self)@.bound[token@] == generated_token@
                &&& final(self)@.owners.contains_key(generated_token@)
                &&& final(self)@.owners[generated_token@] == token@
                &&& final(self)@.by_token.contains_key(generated_token@)
                &&& final(self)@.by_token[generated_token@] == old(self)@.by_token[token@]
            },
    {
        let route = match self.by_token.get(token) {
            Some(r) => r.duplicate(),
            None => {
                return;
            },
        };
        let ghost route_view = route@;
        self.release_binding(token);
        self.claim(token, generated_token);
        let ghost mid = self@;
        self.by_token.insert(generated_token.to_owned(), route);
        self.bound_tokens.insert(token.to_owned(), generated_token.to_owned());
        assert(self@.by_token =~= mid.by_token.insert(generated_token@, route_view));
        assert(self@.bound =~= mid.bound.insert(token@, generated_token@));
        assert(self@.owners =~= mid.owners);
        proof {
            lemma_bind_keeps_wf(old(self)@, token@, generated_token@);
            law_bind_records_binding(old(self)@, token@, generated_token@);
        }
    }

    /// Ends the call registered as `token`: its route, and the route of the
    /// generated token it owns, are removed.
    pub fn unregister(&mut self, token: &str)
        requires
            old(self).wf(),
        ensures
            final(self)@ == spec_unregister(old(self)@, token@),
            final(self).wf(),
    {
        self.by_token.remove(token);
        assert(self@.by_token =~= old(self)@.by_token.remove(token@));
        assert(self@.bound =~= old(self)@.bound);
        assert(self@.owners =~= old(self)@.owners);
        self.release_binding(token);
        proof {
            lemma_unregister_keeps_wf(old(self)@, token@);
        }
    }

    /// The route that progress reported under `token` goes to, if any.
    pub fn route(&self, token: &str) -> (r: Option<ProgressRoute>)
        ensures
            match r {
                Some(x) => spec_route(self@, token@) == Some(x@),
                None => spec_route(self@, token@) is None,
            },
    {
        match self.by_token.get(token) {
            Some(r) => Some(r.duplicate()),
            None => None,
        }
    }
}

/// Bridges progress notifications to the event channel `S`. Routes exist only
/// while a call is active; progress for unknown and stale tokens is dropped.
pub struct McpProgressRouter<S> {
    tx_event: Option<S>,
    routes: ProgressRoutes,
}

impl<S> McpProgressRouter<S> {
    pub closed spec fn routes_model(&self) -> RoutesModel {
        self.routes@
    }

    /// The event channel the router was made with.
    pub closed spec fn event_sender(&self) -> Option<S> {
        self.tx_event
    }

    pub open spec fn has_sender(&self) -> bool {
        self.event_sender() is Some
    }

    /// The routing tables are consistent: bindings and owners are inverse.
    pub open spec fn wf(&self) -> bool {
        model_wf(self.routes_model())
    }

    pub fn new(tx_event: Option<S>) -> (r: Self)
        ensures
            r.wf(),
            r.routes_model() == empty_model(),
            r.event_sender() == tx_event,
    {
        McpProgressRouter { tx_event, routes: ProgressRoutes::new() }
    }

    /// Whether a progress callback is handed out: only when there is an event channel.
    pub fn callback_enabled(&self) -> (r: bool)
        ensures
            r == self.has_sender(),
    {
        self.tx_event.is_some()
    }

    /// The event channel, when there is one.
    pub fn sender(&self) -> (r: Option<&S>)
        ensures
            match r {
                Some(s) => self.event_sender() == Some(*s),
                None => self.event_sender() is None,
            },
    {
        self.tx_event.as_ref()
    }

    pub fn register(&mut self, token: &str, event_id: &str, call_id: &str)
        requires
            old(self).wf(),
        ensures
            final(self).wf(),
            final(self).event_sender() == old(self).event_sender(),
            final(self).routes_model() == spec_register(old(self).routes_model(), token@, (event_id@, call_id@)),
    {
        self.routes.register(token, event_id, call_id);
    }

    pub fn bind(&mut self, token: &str, generated_token: &str)
        requires
            old(self).wf(),
        ensures
            final(self).wf(),
            final(self).event_sender() == old(self).event_sender(),
            final(self).routes_model() == spec_bind(old(self).routes_model(), token@, generated_token@),
            old(self).routes_model().by_token.contains_key(token@) ==> {
                &&& final(self).routes_model().bound.contains_key(token@)
                &&& final(self).routes_model().bound[token@] == generated_token@
                &&& final(self).routes_model().owners.contains_key(generated_token@)
                &&& final(self).routes_model().owners[generated_token@] == token@
            },
    {
        self.routes.bind(token, generated_token);
    }

    pub fn unregister(&mut self, token: &str)
        requires
            old(self).wf(),
        ensures
            final(self).wf(),
            final(self).event_sender() == old(self).event_sender(),
            final(self).routes_model() == spec_unregister(old(self).routes_model(), token@),
    {
        self.routes.unregister(token);
    }

    /// Where a progress notification reported under `token` is to be sent:
    /// `None` (the notification is dropped) when the token has no route or
    /// there is no event channel.
    pub fn publish_route(&self, token: &str) -> (r: Option<ProgressRoute>)
        ensures
            match r {
                Some(x) => self.has_sender() && spec_route(self.routes_model(), token@) == Some(x@),
                None => !self.has_sender() || spec_route(self.routes_model(), token@) is None,
            },
    {
        let route = self.routes.route(token);
        match route {
            Some(r) => {
                if self.tx_event.is_some() {
                    Some(r)
                } else {
                    None
                }
            },
            None => None,
        }
    }
}

pub proof fn lemma_release_binding_keeps_wf(s: RoutesModel, token: Seq<char>)
    requires
        model_wf(s),
    ensures
        model_wf(spec_release_binding(s, token)),
        !spec_release_binding(s, token).bound.contains_key(token),
{
}

pub proof fn lemma_bind_keeps_wf(s: RoutesModel, token: Seq<char>, generated: Seq<char>)
    requires
        model_wf(s),
    ensures
        model_wf(spec_bind(s, token, generated)),
{
    if s.by_token.contains_key(token) {
        lemma_release_binding_keeps_wf(s, token);
    }
}

pub proof fn lemma_unregister_keeps_wf(s: RoutesModel, token: Seq<char>)
    requires
        model_wf(s),
    ensures
        model_wf(spec_unregister(s, token)),
{
    let s1 = RoutesModel { by_token: s.by_token.remove(token), bound: s.bound, owners: s.owners };
    lemma_release_binding_keeps_wf(s1, token);
}

/// Once a call is registered and a generated token is bound to it, progress
/// under the generated token goes to that call; so does progress under the
/// call's own token, unless the call was bound to its own token before.
pub proof fn law_bound_token_routes_to_call(
    s: RoutesModel,
    token: Seq<char>,
    generated: Seq<char>,
    route: (Seq<char>, Seq<char>),
)
    requires
        model_wf(s),
    ensures
        spec_route(spec_bind(spec_register(s, token, route), token, generated), generated) == Some(route),
        !(s.bound.contains_key(token) && s.bound[token] == token) ==>
            spec_route(spec_bind(spec_register(s, token, route), token, generated), token) == Some(route),
{
}

/// After a call unregisters, progress under its own token and under the
/// generated token bound to it is dropped.
pub proof fn law_unregister_drops_late_progress(s: RoutesModel, token: Seq<char>)
    requires
        model_wf(s),
    ensures
        spec_route(spec_unregister(s, token), token) is None,
        s.bound.contains_key(token) ==> spec_route(spec_unregister(s, token), s.bound[token]) is None,
        !spec_unregister(s, token).bound.contains_key(token),
{
}

/// Rebinding a registered call to a new generated token makes the previously
/// bound generated token stale.
pub proof fn law_rebind_drops_previous_token(s: RoutesModel, token: Seq<char>, generated: Seq<char>)
    requires
        model_wf(s),
        s.by_token.contains_key(token),
        s.bound.contains_key(token),
        s.bound[token] != generated,
    ensures
        spec_route(spec_bind(s, token, generated), s.bound[token]) is None,
{
}

/// Registering, binding or unregistering one call leaves the routes of every
/// token that is neither that call's token, nor its bound generated token, nor
/// the newly bound token untouched.
pub proof fn law_routes_isolated(
    s: RoutesModel,
    token: Seq<char>,
    generated: Seq<char>,
    route: (Seq<char>, Seq<char>),
    other: Seq<char>,
)
    requires
        model_wf(s),
        other != token,
        other != generated,
        !(s.bound.contains_key(token) && s.bound[token] == other),
    ensures
        spec_route(spec_bind(s, token, generated), other) == spec_route(s, other),
        spec_route(spec_unregister(s, token), other) == spec_route(s, other),
        spec_route(spec_register(s, token, route), other) == spec_route(s, other),
{
}

/// Binding or unregistering one call keeps the binding of every other call,
/// except the call that owned the newly bound token before.
pub proof fn law_bindings_isolated(s: RoutesModel, token: Seq<char>, generated: Seq<char>, other: Seq<char>)
    requires
        model_wf(s),
        other != token,
        !(s.owners.contains_key(generated) && s.owners[generated] == other),
        s.bound.contains_key(other),
    ensures
        spec_bind(s, token, generated).bound.contains_key(other),
        spec_bind(s, token, generated).bound[other] == s.bound[other],
        spec_unregister(s, token).bound.contains_key(other),
        spec_unregister(s, token).bound[other] == s.bound[other],
{
}

/// Binding a registered call to a generated token always records the
/// binding, whether or not the call was bound before: the call is bound to
/// that token, the token is owned by the call and routes where the call does.
pub proof fn law_bind_records_binding(s: RoutesModel, token: Seq<char>, generated: Seq<char>)
    requires
        model_wf(s),
        s.by_token.contains_key(token),
    ensures
        spec_bind(s, token, generated).bound.contains_key(token),
        spec_bind(s, token, generated).bound[token] == generated,
        spec_bind(s, token, generated).owners.contains_key(generated),
        spec_bind(s, token, generated).owners[generated] == token,
        spec_bind(s, token, generated).by_token.contains_key(generated),
        spec_bind(s, token, generated).by_token[generated] == s.by_token[token],
{
}

/// Registering a call, binding it to one generated token and then to
/// another, and unregistering it leaves no route under either generated
/// token or the call's own token: late progress for a finished call is
/// dropped. (A call that was bound to its own token before loses its route
/// on the first rebinding, so the second binding does not happen; that case
/// is left out.)
pub proof fn law_rebound_token_dropped_after_unregister(
    s: RoutesModel,
    token: Seq<char>,
    route: (Seq<char>, Seq<char>),
    first: Seq<char>,
    second: Seq<char>,
)
    requires
        model_wf(s),
        !(s.bound.contains_key(token) && s.bound[token] == token),
    ensures
        ({
            let s1 = spec_register(s, token, route);
            let s2 = spec_bind(s1, token, first);
            let s3 = spec_bind(s2, token, second);
            let s4 = spec_unregister(s3, token);
            &&& spec_route(s4, second) is None
            &&& spec_route(s4, token) is None
            &&& (first != second ==> spec_route(s4, first) is None)
        }),
{
    let s1 = spec_register(s, token, route);
    let s2 = spec_bind(s1, token, first);
    let s3 = spec_bind(s2, token, second);
    lemma_bind_keeps_wf(s1, token, first);
    law_bind_records_binding(s1, token, first);
    law_route_after_one_operation(s1, RouteOp::Bind(token, first), token);
    assert(s2.by_token.contains_key(token));
    lemma_bind_keeps_wf(s2, token, second);
    law_bind_records_binding(s2, token, second);
    law_unregister_drops_late_progress(s3, token);
    law_route_after_one_operation(s2, RouteOp::Bind(token, second), first);
    law_route_after_one_operation(s3, RouteOp::Unregister(token), first);
}

/// One operation on the routing tables.
pub enum RouteOp {
    Register(Seq<char>, (Seq<char>, Seq<char>)),
    Bind(Seq<char>, Seq<char>),
    Unregister(Seq<char>),
}

pub open spec fn spec_apply(s: RoutesModel, op: RouteOp) -> RoutesModel {
    match op {
        RouteOp::Register(t, r) => spec_register(s, t, r),
        RouteOp::Bind(t, g) => spec_bind(s, t, g),
        RouteOp::Unregister(t) => spec_unregister(s, t),
    }
}

/// The tables after the operations `ops`, in order, starting from `s`.
pub open spec fn spec_history(s: RoutesModel, ops: Seq<RouteOp>) -> RoutesModel
    decreases ops.len(),
{
    if ops.len() == 0 {
        s
    } else {
        spec_apply(spec_history(s, ops.drop_last()), ops.last())
    }
}

/// The route that `op`, applied to `s`, gives `token`: registering the token
/// itself, or binding it to a registered call, which gives it that call's route.
pub open spec fn op_sets(s: RoutesModel, op: RouteOp, token: Seq<char>) -> Option<(Seq<char>, Seq<char>)> {
    match op {
        RouteOp::Register(t, r) => if t == token { Some(r) } else { None },
        RouteOp::Bind(t, g) => if g == token && s.by_token.contains_key(t) { Some(s.by_token[t]) } else { None },
        RouteOp::Unregister(_) => None,
    }
}

/// Whether `op`, applied to `s`, removes the route of `token`: unregistering
/// the token, unregistering the call it is bound to, or rebinding that call
/// to another token.
pub open spec fn op_removes(s: RoutesModel, op: RouteOp, token: Seq<char>) -> bool {
    match op {
        RouteOp::Register(_, _) => false,
        RouteOp::Bind(t, g) => s.by_token.contains_key(t) && s.bound.contains_key(t) && s.bound[t] == token && g != token,
        RouteOp::Unregister(t) => t == token || (s.bound.contains_key(t) && s.bound[t] == token),
    }
}

pub proof fn lemma_apply_keeps_wf(s: RoutesModel, op: RouteOp)
    requires
        model_wf(s),
    ensures
        model_wf(spec_apply(s, op)),
{
    match op {
        RouteOp::Register(t, r) => {},
        RouteOp::Bind(t, g) => lemma_bind_keeps_wf(s, t, g),
        RouteOp::Unregister(t) => lemma_unregister_keeps_wf(s, t),
    }
}

pub proof fn lemma_history_keeps_wf(s: RoutesModel, ops: Seq<RouteOp>)
    requires
        model_wf(s),
    ensures
        model_wf(spec_history(s, ops)),
    decreases ops.len(),
{
    if ops.len() > 0 {
        lemma_history_keeps_wf(s, ops.drop_last());
        lemma_apply_keeps_wf(spec_history(s, ops.drop_last()), ops.last());
    }
}

/// One operation decides a token's route when it sets or removes it, and
/// leaves it as it was otherwise.
pub proof fn law_route_after_one_operation(s: RoutesModel, op: RouteOp, token: Seq<char>)
    requires
        model_wf(s),
    ensures
        spec_route(spec_apply(s, op), token) == (match op_sets(s, op, token) {
            Some(r) => Some(r),
            None => if op_removes(s, op, token) { None } else { spec_route(s, token) },
        }),
{
    match op {
        RouteOp::Register(t, r) => {
            assert(spec_register(s, t, r).by_token == s.by_token.insert(t, r));
        },
        RouteOp::Bind(t, g) => {
            if s.by_token.contains_key(t) {
                let released = spec_release_binding(s, t);
                let claimed = spec_claim(released, t, g);
                assert(claimed.by_token == released.by_token);
                assert(spec_bind(s, t, g).by_token == claimed.by_token.insert(g, s.by_token[t]));
                if s.bound.contains_key(t) {
                    assert(s.owners.contains_key(s.bound[t]) && s.owners[s.bound[t]] == t);
                    assert(released.by_token == s.by_token.remove(s.bound[t]));
                } else {
                    assert(released.by_token == s.by_token);
                }
            }
        },
        RouteOp::Unregister(t) => {
            let s1 = RoutesModel { by_token: s.by_token.remove(t), bound: s.bound, owners: s.owners };
            if s.bound.contains_key(t) {
                assert(s.owners.contains_key(s.bound[t]) && s.owners[s.bound[t]] == t);
                assert(spec_release_binding(s1, t).by_token == s1.by_token.remove(s.bound[t]));
            } else {
                assert(spec_release_binding(s1, t).by_token == s1.by_token);
            }
        },
    }
}

/// A token's route is the one the last operation that set it gave it, unless
/// an operation removed it since; a token that no operation set has no route.
pub proof fn law_route_is_last_set(ops: Seq<RouteOp>, token: Seq<char>, route: (Seq<char>, Seq<char>))
    ensures
        spec_route(spec_history(empty_model(), ops), token) == Some(route) <==> exists|i: int|
            0 <= i < ops.len() && op_sets(spec_history(empty_model(), ops.take(i)), #[trigger] ops[i], token) == Some(route)
                && forall|j: int| i < j < ops.len() ==>
                    op_sets(spec_history(empty_model(), ops.take(j)), #[trigger] ops[j], token) is None
                        && !op_removes(spec_history(empty_model(), ops.take(j)), ops[j], token),
    decreases ops.len(),
{
    let e = empty_model();
    if ops.len() == 0 {
        assert(spec_history(e, ops) == e);
    } else {
        let n = ops.len() - 1;
        let p = ops.drop_last();
        let st = spec_history(e, p);
        assert(p =~= ops.take(n));
        assert(ops.last() == ops[n]);
        lemma_history_keeps_wf(e, p);
        law_route_after_one_operation(st, ops[n], token);
        law_route_is_last_set(p, token, route);
        assert forall|j: int| 0 <= j <= n implies #[trigger] p.take(j) =~= ops.take(j) by {}
        assert forall|j: int| 0 <= j < n implies #[trigger] p[j] == ops[j] by {}
        if spec_route(spec_history(e, ops), token) == Some(route) {
            if op_sets(st, ops[n], token) == Some(route) {
                assert(ops.take(n) == p);
            } else {
                let i = choose|i: int|
                    0 <= i < p.len() && op_sets(spec_history(e, p.take(i)), #[trigger] p[i], token) == Some(route)
                        && forall|j: int| i < j < p.len() ==>
                            op_sets(spec_history(e, p.take(j)), #[trigger] p[j], token) is None
                                && !op_removes(spec_history(e, p.take(j)), p[j], token);
                assert(p.take(i) == ops.take(i));
                assert forall|j: int| i < j < ops.len() implies
                    op_sets(spec_history(e, ops.take(j)), #[trigger] ops[j], token) is None
                        && !op_removes(spec_history(e, ops.take(j)), ops[j], token) by {
                    if j < n {
                        assert(p.take(j) == ops.take(j));
                        assert(p[j] == ops[j]);
                    } else {
                        assert(ops.take(j) == p);
                    }
                }
            }
        }
        if exists|i: int|
            0 <= i < ops.len() && op_sets(spec_history(e, ops.take(i)), #[trigger] ops[i], token) == Some(route)
                && forall|j: int| i < j < ops.len() ==>
                    op_sets(spec_history(e, ops.take(j)), #[trigger] ops[j], token) is None
                        && !op_removes(spec_history(e, ops.take(j)), ops[j], token) {
            let i = choose|i: int|
                0 <= i < ops.len() && op_sets(spec_history(e, ops.take(i)), #[trigger] ops[i], token) == Some(route)
                    && forall|j: int| i < j < ops.len() ==>
                        op_sets(spec_history(e, ops.take(j)), #[trigger] ops[j], token) is None
                            && !op_removes(spec_history(e, ops.take(j)), ops[j], token);
            if i < n {
                assert(ops.take(n) == p);
                assert(op_sets(spec_history(e, ops.take(n)), ops[n], token) is None);
                assert(p.take(i) == ops.take(i));
                assert(p[i] == ops[i]);
                assert forall|j: int| i < j < p.len() implies
                    op_sets(spec_history(e, p.take(j)), #[trigger] p[j], token) is None
                        && !op_removes(spec_history(e, p.take(j)), p[j], token) by {
                    assert(p.take(j) == ops.take(j));
                    assert(p[j] == ops[j]);
                    assert(op_sets(spec_history(e, ops.take(j)), ops[j], token) is None);
                }
            } else {
                assert(ops.take(i) == p);
            }
        }
    }
}

} // verus!
