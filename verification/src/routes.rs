//! The handlers of an application, by method and path.

use crate::assoc::{
    distinct_keys, entries_map, has_key, index_of_key, lemma_index_of_key, lemma_upsert, upsert,
};
use crate::httprequest::HttpRequest;
use crate::httpresponse::HttpResponse;
use crate::text::same_text;
use vstd::prelude::*;

verus! {

/// A method and a path. Both are matched exactly.
pub type RouteKey = (Seq<char>, Seq<char>);

/// `handler` may be called on every request and every response.
pub open spec fn accepts_all<H: Fn(&mut HttpRequest, &mut HttpResponse)>(handler: H) -> bool {
    forall|req: &mut HttpRequest, res: &mut HttpResponse| #[trigger]
        call_requires(handler, (req, res))
}

struct Route<H> {
    method: String,
    path: String,
    handler: H,
}

/// At most one handler for each method and path.
pub struct RouteTable<H: Fn(&mut HttpRequest, &mut HttpResponse)> {
    routes: Vec<Route<H>>,
}

impl<H: Fn(&mut HttpRequest, &mut HttpResponse)> RouteTable<H> {
    /// What holds of every table: no method and path occur twice, and every
    /// handler may be called on every request and response.
    #[verifier::type_invariant]
    pub closed spec fn well_formed(&self) -> bool {
        &&& distinct_keys(self.entries())
        &&& forall|i: int|
            0 <= i < self.entries().len() ==> accepts_all((#[trigger] self.entries()[i]).1)
    }

    /// The routes in the order in which their keys were first added.
    pub closed spec fn entries(&self) -> Seq<(RouteKey, H)> {
        Seq::new(
            self.routes@.len(),
            |i: int| ((self.routes@[i].method@, self.routes@[i].path@), self.routes@[i].handler),
        )
    }

    /// The handler that stands for each method and path.
    pub closed spec fn view(&self) -> Map<RouteKey, H> {
        entries_map(self.entries())
    }

    /// A table without routes.
    pub fn new() -> (table: Self)
        ensures
            table@ == Map::<RouteKey, H>::empty(),
    {
        let table = RouteTable { routes: Vec::new() };
        assert(table@ =~= Map::<RouteKey, H>::empty());
        table
    }

    fn position(&self, method: &str, path: &str) -> (r: Option<usize>)
        ensures
            match r {
                Some(i) => {
                    &&& i < self.entries().len()
                    &&& self.entries()[i as int].0 == (method@, path@)
                    &&& has_key(self.entries(), (method@, path@))
                    &&& index_of_key(self.entries(), (method@, path@)) == i
                },
                None => !has_key(self.entries(), (method@, path@)),
            },
    {
        proof {
            use_type_invariant(self);
        }
        let mut i: usize = 0;
        while i < self.routes.len()
            invariant
                0 <= i <= self.routes@.len(),
                self.entries().len() == self.routes@.len(),
                distinct_keys(self.entries()),
                forall|j: int| 0 <= j < i ==> (#[trigger] self.entries()[j]).0 != (method@, path@),
            decreases self.routes@.len() - i,
        {
            if same_text(self.routes[i].method.as_str(), method) && same_text(
                self.routes[i].path.as_str(),
                path,
            ) {
                proof {
                    lemma_index_of_key(self.entries(), i as int);
                }
                return Some(i);
            }
            i = i + 1;
        }
        None
    }

    /// Lets `handler` answer the requests for `method` and `path`. A handler
    /// that stood there before is replaced.
    pub fn add_route(&mut self, method: &str, path: &str, handler: H)
        requires
            accepts_all(handler),
        ensures
            final(self)@ == old(self)@.insert((method@, path@), handler),
    {
        proof {
            use_type_invariant(&*self);
            lemma_upsert(self.entries(), (method@, path@), handler);
        }
        let found = self.position(method, path);
        let mut routes: Vec<Route<H>> = Vec::new();
        std::mem::swap(&mut routes, &mut self.routes);
        let route = Route { method: method.to_owned(), path: path.to_owned(), handler };
        match found {
            Some(i) => {
                routes.set(i, route);
            },
            None => {
                routes.push(route);
            },
        }
        proof {
            let after = RouteTable { routes };
            assert(after.entries() =~= upsert(old(self).entries(), (method@, path@), handler));
            assert forall|i: int| 0 <= i < after.entries().len() implies accepts_all(
                (#[trigger] after.entries()[i]).1,
            ) by {
                if i < old(self).entries().len() && found != Some(i as usize) {
                    assert(after.entries()[i].1 == old(self).entries()[i].1);
                }
            }
        }
        self.routes = routes;
    }

    /// Lets `handler` answer the `GET` requests for `path`.
    pub fn add_get(&mut self, path: &str, handler: H)
        requires
            accepts_all(handler),
        ensures
            final(self)@ == old(self)@.insert(("GET"@, path@), handler),
    {
        self.add_route("GET", path, handler);
    }

    /// Lets `handler` answer the `POST` requests for `path`.
    pub fn add_post(&mut self, path: &str, handler: H)
        requires
            accepts_all(handler),
        ensures
            final(self)@ == old(self)@.insert(("POST"@, path@), handler),
    {
        self.add_route("POST", path, handler);
    }

    /// The handler for `method` and `path`, if one was added. It may be
    /// called on every request and response.
    pub fn find(&self, method: &str, path: &str) -> (handler: Option<&H>)
        ensures
            match handler {
                Some(h) => self@.contains_key((method@, path@)) && *h == self@[(method@, path@)]
                    && accepts_all(*h),
                None => !self@.contains_key((method@, path@)),
            },
    {
        proof {
            use_type_invariant(self);
        }
        match self.position(method, path) {
            Some(i) => {
                assert(accepts_all(self.entries()[i as int].1));
                Some(&self.routes[i].handler)
            },
            None => None,
        }
    }
}

} // verus!
