//! Routers and route groups.
use vstd::prelude::*;
use crate::http::HttpMethod;
use crate::routing::builder::RouteBuilder;
use crate::routing::route::{register_route, Route, RouteError};
use crate::utils::{join_path, join_spec, split_path_query};

verus! {

/// Routes registered under a common prefix.
pub struct Router<H> {
    pub prefix: String,
    pub routes: Vec<Route<H>>,
}

/// A group of routes with a longer prefix, registered straight into a router's routes.
pub struct RouteGroup<'a, H> {
    pub prefix: String,
    pub routes: &'a mut Vec<Route<H>>,
}

impl<H> RouteBuilder<H> for Router<H> {
    type Error = RouteError;

    open spec fn route_table(&self) -> Seq<Route<H>> {
        self.routes@
    }

    open spec fn route_prefix(&self) -> Seq<char> {
        self.prefix@
    }

    open spec fn settings_kept(before: Self, after: Self) -> bool {
        true
    }

    fn register(&mut self, path: &str, method: HttpMethod, handler: H) {
        let (stripped_path, _) = split_path_query(path);
        register_route(&mut self.routes, self.prefix.as_str(), stripped_path, method, handler);
    }
}

impl<'a, H> RouteBuilder<H> for RouteGroup<'a, H> {
    type Error = RouteError;

    open spec fn route_table(&self) -> Seq<Route<H>> {
        self.routes@
    }

    open spec fn route_prefix(&self) -> Seq<char> {
        self.prefix@
    }

    open spec fn settings_kept(before: Self, after: Self) -> bool {
        true
    }

    fn register(&mut self, path: &str, method: HttpMethod, handler: H) {
        let (stripped_path, _) = split_path_query(path);
        register_route(self.routes, self.prefix.as_str(), stripped_path, method, handler);
    }
}

impl<H> Router<H> {
    /// A router without routes whose paths start with `prefix`.
    pub fn new(prefix: &str) -> (r: Router<H>)
        ensures
            r.prefix@ == prefix@,
            r.routes@ == Seq::<Route<H>>::empty(),
    {
        Router { prefix: prefix.to_string(), routes: Vec::new() }
    }

    /// Lets `config` register routes under `prefix` joined to this router's prefix: `config`
    /// gets a group with that prefix that borrows this router's routes, and what the group
    /// leaves in them is this router's routes afterwards.
    pub fn group<F: FnOnce(&mut RouteGroup<H>)>(&mut self, prefix: &str, config: F)
        requires
            forall|g: &mut RouteGroup<H>| call_requires(config, (g,)),
        ensures
            final(self).prefix@ == old(self).prefix@,
            exists|g: &mut RouteGroup<H>|
                #[trigger] call_ensures(config, (g,), ()) && g.prefix@ == join_spec(
                    old(self).prefix@,
                    prefix@,
                ) && g.routes@ == old(self).routes@ && final(self).routes@ == (*final(g.routes))@,
    {
        let mut group = RouteGroup { prefix: join_path(self.prefix.as_str(), prefix), routes: &mut self.routes };
        config(&mut group);
    }
}

} // verus!
