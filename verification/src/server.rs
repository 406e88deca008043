//! What is done with one request: middleware, then a static file, a
//! handler or the answer that nothing was found, then the response on the wire.

use crate::httprequest::{parse_request, HttpRequest, MalformedRequest};
use crate::assoc::{has_key, upsert};
use crate::httpresponse::{default_status, HttpResponse, ResponseView};
use crate::middleware::{called_in_order, MiddlewareChain};
use crate::routes::{accepts_all, RouteKey, RouteTable};
use crate::static_files::{
    serve_static, static_file, static_response, under_prefix, Mapping, StaticRouteTable,
};
use vstd::prelude::*;
use vstd::utf8::*;

verus! {

/// What answers a request.
pub enum Resolution<H> {
    /// The file of this name, or the answer that it is not there.
    File(Seq<char>),
    /// This handler.
    Handler(H),
    /// The answer that nothing was found.
    NotFound,
}

/// What answers a request for `method` and `path`. A path that lies under
/// the prefix of a static directory names a file, whether or not a handler
/// stands for it too. Any other path goes to the handler for the method and
/// the path, and to none where there is none.
pub open spec fn resolution<H>(
    dirs: Seq<Mapping>,
    routes: Map<RouteKey, H>,
    method: Seq<char>,
    path: Seq<char>,
) -> Resolution<H> {
    match static_file(dirs, path) {
        Some(file) => Resolution::File(file),
        None => if routes.contains_key((method, path)) {
            Resolution::Handler(routes[(method, path)])
        } else {
            Resolution::NotFound
        },
    }
}

/// The response that says that nothing was found: the body says so in plain
/// text, and the status line stays as it was.
pub open spec fn not_found_response(before: ResponseView) -> ResponseView {
    before.with_text("404 Not Found"@).with_header("Content-Type"@, "text/plain"@)
}

/// A handler that was added for a method and a path answers the requests
/// for them, and no other handler does, unless the path names a static file.
/// The requests for any other method or path go where they went before.
pub proof fn lemma_added_route_answers<H>(
    dirs: Seq<Mapping>,
    routes: Map<RouteKey, H>,
    method: Seq<char>,
    path: Seq<char>,
    handler: H,
)
    requires
        static_file(dirs, path) is None,
    ensures
        resolution(dirs, routes.insert((method, path), handler), method, path)
            == Resolution::Handler(handler),
        forall|m: Seq<char>, p: Seq<char>|
            (m, p) != (method, path) ==> #[trigger] resolution(
                dirs,
                routes.insert((method, path), handler),
                m,
                p,
            ) == resolution(dirs, routes, m, p),
{
}

/// A path that lies under no static prefix and for which no handler stands
/// is answered by the response that nothing was found. On a response that
/// nobody has touched this leaves the default status line, the body
/// `404 Not Found` and the one header `Content-Type: text/plain`.
pub proof fn lemma_unknown_path_is_not_found<H>(
    dirs: Seq<Mapping>,
    routes: Map<RouteKey, H>,
    method: Seq<char>,
    path: Seq<char>,
)
    requires
        !routes.contains_key((method, path)),
        forall|i: int| 0 <= i < dirs.len() ==> !under_prefix(#[trigger] dirs[i].0, path),
    ensures
        resolution(dirs, routes, method, path) == Resolution::<H>::NotFound,
        not_found_response(ResponseView::fresh()) == (ResponseView {
            status: default_status(),
            headers: seq![("Content-Type"@, "text/plain"@)],
            body: encode_utf8("404 Not Found"@),
        }),
        forall|before: ResponseView| #[trigger]
            not_found_response(before).status == before.status,
{
    let fresh = ResponseView::fresh().with_text("404 Not Found"@);
    assert(!has_key(fresh.headers, "Content-Type"@));
    assert(upsert(fresh.headers, "Content-Type"@, "text/plain"@) =~= seq![
        ("Content-Type"@, "text/plain"@),
    ]);
}

/// Fills in the response that says that nothing was found.
pub fn not_found(res: &mut HttpResponse)
    ensures
        final(res)@ == not_found_response(old(res)@),
{
    res.set_body("404 Not Found");
    res.set_header("Content-Type", "text/plain");
}

/// The bytes that a file reader handed back.
pub open spec fn bytes_of(contents: Option<Vec<u8>>) -> Option<Seq<u8>> {
    match contents {
        Some(bytes) => Some(bytes@),
        None => None,
    }
}

/// `read_file` may be called on every file name.
pub open spec fn reads_all<R: Fn(&str) -> Option<Vec<u8>>>(read_file: R) -> bool {
    forall|name: &str| #[trigger] call_requires(read_file, (name,))
}

/// The routes, the middleware and the static directories of an application.
/// They are set up first and then answer any number of requests.
pub struct Dispatcher<H: Fn(&mut HttpRequest, &mut HttpResponse)> {
    routes: RouteTable<H>,
    middlewares: MiddlewareChain<H>,
    statics: StaticRouteTable,
}

impl<H: Fn(&mut HttpRequest, &mut HttpResponse)> Dispatcher<H> {
    /// The handler for each method and path.
    pub closed spec fn routes(&self) -> Map<RouteKey, H> {
        self.routes@
    }

    /// The middleware, first added first.
    pub closed spec fn middlewares(&self) -> Seq<H> {
        self.middlewares@
    }

    /// The static directories, first added first.
    pub closed spec fn static_dirs(&self) -> Seq<Mapping> {
        self.statics@
    }

    /// A dispatcher that knows no route, no middleware and no directory.
    pub fn new() -> (d: Self)
        ensures
            d.routes() == Map::<RouteKey, H>::empty(),
            d.middlewares() == Seq::<H>::empty(),
            d.static_dirs() == Seq::<Mapping>::empty(),
    {
        Dispatcher {
            routes: RouteTable::new(),
            middlewares: MiddlewareChain::new(),
            statics: StaticRouteTable::new(),
        }
    }

    /// Lets `handler` answer the requests for `method` and `path`. A handler
    /// that stood there before is replaced.
    pub fn add_route(&mut self, method: &str, path: &str, handler: H)
        requires
            accepts_all(handler),
        ensures
            final(self).routes() == old(self).routes().insert((method@, path@), handler),
            final(self).middlewares() == old(self).middlewares(),
            final(self).static_dirs() == old(self).static_dirs(),
    {
        self.routes.add_route(method, path, handler);
    }

    /// Adds `middleware` behind the middleware that is there.
    pub fn add_middleware(&mut self, middleware: H)
        requires
            accepts_all(middleware),
        ensures
            final(self).middlewares() == old(self).middlewares().push(middleware),
            final(self).routes() == old(self).routes(),
            final(self).static_dirs() == old(self).static_dirs(),
    {
        self.middlewares.add_middleware(middleware);
    }

    /// Lets `handler` answer the `GET` requests for `path`.
    pub fn add_get(&mut self, path: &str, handler: H)
        requires
            accepts_all(handler),
        ensures
            final(self).routes() == old(self).routes().insert(("GET"@, path@), handler),
            final(self).middlewares() == old(self).middlewares(),
            final(self).static_dirs() == old(self).static_dirs(),
    {
        self.add_route("GET", path, handler);
    }

    /// Lets `handler` answer the `POST` requests for `path`.
    pub fn add_post(&mut self, path: &str, handler: H)
        requires
            accepts_all(handler),
        ensures
            final(self).routes() == old(self).routes().insert(("POST"@, path@), handler),
            final(self).middlewares() == old(self).middlewares(),
            final(self).static_dirs() == old(self).static_dirs(),
    {
        self.add_route("POST", path, handler);
    }

    /// Serves the files of `dir` under the prefix `path`, behind the
    /// directories that are there.
    pub fn add_static_dir(&mut self, path: &str, dir: &str)
        ensures
            final(self).static_dirs() == old(self).static_dirs().push((path@, dir@)),
            final(self).routes() == old(self).routes(),
            final(self).middlewares() == old(self).middlewares(),
    {
        self.statics.add_static_dir(path, dir);
    }

    /// Answers a request that the middleware has seen.
    ///
    /// Where the path names a static file, `read_file` is asked for it once
    /// and the response is filled in from what it hands back; no handler
    /// runs. Else the handler for the method and the path is called once,
    /// and nothing else touches the request or the response. Where there is
    /// no handler either, the response says that nothing was found.
    pub fn resolve<R: Fn(&str) -> Option<Vec<u8>>>(
        &self,
        req: &mut HttpRequest,
        res: &mut HttpResponse,
        read_file: &R,
    )
        requires
            reads_all(*read_file),
        ensures
            resolution(self.static_dirs(), self.routes(), old(req)@.method, old(req)@.path)
                matches Resolution::File(file) ==> {
                &&& *final(req) == *old(req)
                &&& exists|name: &str, contents: Option<Vec<u8>>|
                    {
                        &&& #[trigger] call_ensures(*read_file, (name,), contents)
                        &&& name@ == file
                        &&& final(res)@ == static_response(old(res)@, file, bytes_of(contents))
                    }
            },
            resolution(self.static_dirs(), self.routes(), old(req)@.method, old(req)@.path)
                is Handler ==> exists|r: &mut HttpRequest, s: &mut HttpResponse|
                {
                    &&& #[trigger] call_ensures(
                        self.routes()[(old(req)@.method, old(req)@.path)],
                        (r, s),
                        (),
                    )
                    &&& *r == *old(req)
                    &&& *s == *old(res)
                    &&& *final(r) == *final(req)
                    &&& *final(s) == *final(res)
                },
            resolution(self.static_dirs(), self.routes(), old(req)@.method, old(req)@.path)
                is NotFound ==> {
                &&& *final(req) == *old(req)
                &&& final(res)@ == not_found_response(old(res)@)
            },
    {
        match self.statics.resolve(req.get_path()) {
            Some(file) => {
                let contents = read_file(file.as_str());
                match &contents {
                    Some(bytes) => serve_static(res, file.as_str(), Some(bytes.as_slice())),
                    None => serve_static(res, file.as_str(), None),
                }
            },
            None => match self.routes.find(req.get_method(), req.get_path()) {
                Some(handler) => handler(req, res),
                None => not_found(res),
            },
        }
    }

    /// Answers the text of one connection: reads the request, lets every
    /// middleware see it, resolves it, and gives the response as it goes on
    /// the wire. A text that is no request is answered by nothing.
    ///
    /// In the contract `reqs`, `ress`, `rs` and `ss` trace the middleware as
    /// in `MiddlewareChain::run`, from the request as it was read and a
    /// fresh response; `out` is the response once the request is resolved,
    /// and its bytes on the wire are what is given back.
    pub fn respond<R: Fn(&str) -> Option<Vec<u8>>>(&self, raw: String, read_file: &R) -> (wire:
        Result<Vec<u8>, MalformedRequest>)
        requires
            reads_all(*read_file),
        ensures
            parse_request(raw@) matches Err(e) ==> wire == Err::<Vec<u8>, MalformedRequest>(e),
            parse_request(raw@) matches Ok(parsed) ==> wire is Ok && exists|
                reqs: Seq<HttpRequest>,
                ress: Seq<HttpResponse>,
                rs: Seq<&mut HttpRequest>,
                ss: Seq<&mut HttpResponse>,
                out: HttpResponse,
            |
                #![trigger called_in_order(self.middlewares(), reqs, ress, rs, ss), out@]
                {
                    &&& called_in_order(self.middlewares(), reqs, ress, rs, ss)
                    &&& forall|i: int|
                        0 <= i < self.middlewares().len() ==> *final(#[trigger] rs[i])
                            == reqs[i + 1] && *final(ss[i]) == ress[i + 1]
                    &&& reqs[0]@ == parsed
                    &&& ress[0]@ == ResponseView::fresh()
                    &&& resolution(
                        self.static_dirs(),
                        self.routes(),
                        reqs.last()@.method,
                        reqs.last()@.path,
                    ) matches Resolution::File(file) ==> exists|
                        name: &str,
                        contents: Option<Vec<u8>>,
                    |
                        {
                            &&& #[trigger] call_ensures(*read_file, (name,), contents)
                            &&& name@ == file
                            &&& out@ == static_response(ress.last()@, file, bytes_of(contents))
                        }
                    &&& resolution(
                        self.static_dirs(),
                        self.routes(),
                        reqs.last()@.method,
                        reqs.last()@.path,
                    ) is Handler ==> exists|r: &mut HttpRequest, s: &mut HttpResponse|
                        {
                            &&& #[trigger] call_ensures(
                                self.routes()[(reqs.last()@.method, reqs.last()@.path)],
                                (r, s),
                                (),
                            )
                            &&& *r == reqs.last()
                            &&& *s == ress.last()
                            &&& *final(s) == out
                        }
                    &&& resolution(
                        self.static_dirs(),
                        self.routes(),
                        reqs.last()@.method,
                        reqs.last()@.path,
                    ) is NotFound ==> out@ == not_found_response(ress.last()@)
                    &&& wire->Ok_0@ == out@.wire()
                },
    {
        let mut req = match HttpRequest::from(raw) {
            Ok(req) => req,
            Err(e) => {
                return Err(e);
            },
        };
        let mut res = HttpResponse::new();
        let ghost req0 = req;
        let ghost res0 = res;
        self.middlewares.run(&mut req, &mut res);
        let ghost req1 = req;
        let ghost res1 = res;
        self.resolve(&mut req, &mut res, read_file);
        let wire = res.serialize();
        proof {
            let (reqs, ress, rs, ss) = choose|
                reqs: Seq<HttpRequest>,
                ress: Seq<HttpResponse>,
                rs: Seq<&mut HttpRequest>,
                ss: Seq<&mut HttpResponse>,
            |
                {
                    &&& #[trigger] called_in_order(self.middlewares(), reqs, ress, rs, ss)
                    &&& forall|i: int|
                        0 <= i < self.middlewares().len() ==> *final(#[trigger] rs[i])
                            == reqs[i + 1] && *final(ss[i]) == ress[i + 1]
                    &&& reqs[0] == req0
                    &&& ress[0] == res0
                    &&& reqs.last() == req1
                    &&& ress.last() == res1
                };
            assert(called_in_order(self.middlewares(), reqs, ress, rs, ss));
        }
        Ok(wire)
    }
}

} // verus!
