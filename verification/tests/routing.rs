use http_server::middleware::MiddlewareChain;
use http_server::routes::RouteTable;
use http_server::{HttpRequest, HttpResponse};
use std::cell::RefCell;
use std::rc::Rc;

type Callback = Box<dyn Fn(&mut HttpRequest, &mut HttpResponse)>;

fn answers(word: &'static str) -> Callback {
    Box::new(move |_req, res| res.set_body(word))
}

fn records(log: &Rc<RefCell<Vec<&'static str>>>, name: &'static str) -> Callback {
    let log = Rc::clone(log);
    Box::new(move |_req, _res| log.borrow_mut().push(name))
}

fn request(text: &str) -> HttpRequest {
    match HttpRequest::from(text.to_string()) {
        Ok(req) => req,
        Err(e) => panic!("not a request: {}", e.message()),
    }
}

fn body_after(handler: &Callback) -> String {
    let mut req = request("GET / HTTP/1.1\r\n\r\n");
    let mut res = HttpResponse::new();
    handler(&mut req, &mut res);
    String::from_utf8(res.serialize()).unwrap()
}

#[test]
fn added_route_is_found_by_method_and_path() {
    let mut table: RouteTable<Callback> = RouteTable::new();
    table.add_route("GET", "/x", answers("x"));
    let found = table.find("GET", "/x");
    assert!(found.is_some());
    assert_eq!(
        body_after(found.unwrap()),
        "HTTP/1.1 200 OK\r\nContent-Length: 1\r\n\r\nx"
    );
}

#[test]
fn route_is_matched_exactly() {
    let mut table: RouteTable<Callback> = RouteTable::new();
    table.add_route("GET", "/x", answers("x"));
    assert!(table.find("POST", "/x").is_none());
    assert!(table.find("get", "/x").is_none());
    assert!(table.find("GET", "/x/").is_none());
    assert!(table.find("GET", "/X").is_none());
    assert!(table.find("GET", "/").is_none());
    assert!(table.find("GET", "/xy").is_none());
    assert!(table.find("GET/", "x").is_none());
}

#[test]
fn empty_table_finds_nothing() {
    let table: RouteTable<Callback> = RouteTable::new();
    assert!(table.find("GET", "/").is_none());
}

#[test]
fn last_registration_wins() {
    let mut table: RouteTable<Callback> = RouteTable::new();
    table.add_route("GET", "/x", answers("first"));
    table.add_route("GET", "/y", answers("other"));
    table.add_route("GET", "/x", answers("second"));
    assert_eq!(
        body_after(table.find("GET", "/x").unwrap()),
        "HTTP/1.1 200 OK\r\nContent-Length: 6\r\n\r\nsecond"
    );
    assert_eq!(
        body_after(table.find("GET", "/y").unwrap()),
        "HTTP/1.1 200 OK\r\nContent-Length: 5\r\n\r\nother"
    );
}

#[test]
fn get_and_post_are_routes_of_their_method() {
    let mut table: RouteTable<Callback> = RouteTable::new();
    table.add_get("/form", answers("show"));
    table.add_post("/form", answers("take"));
    assert_eq!(
        body_after(table.find("GET", "/form").unwrap()),
        "HTTP/1.1 200 OK\r\nContent-Length: 4\r\n\r\nshow"
    );
    assert_eq!(
        body_after(table.find("POST", "/form").unwrap()),
        "HTTP/1.1 200 OK\r\nContent-Length: 4\r\n\r\ntake"
    );
    assert!(table.find("PUT", "/form").is_none());
}

#[test]
fn same_path_under_two_methods_keeps_both() {
    let mut table: RouteTable<Callback> = RouteTable::new();
    table.add_route("GET", "/a", answers("g"));
    table.add_route("DELETE", "/a", answers("d"));
    table.add_route("GET", "/a", answers("g2"));
    assert_eq!(
        body_after(table.find("DELETE", "/a").unwrap()),
        "HTTP/1.1 200 OK\r\nContent-Length: 1\r\n\r\nd"
    );
    assert_eq!(
        body_after(table.find("GET", "/a").unwrap()),
        "HTTP/1.1 200 OK\r\nContent-Length: 2\r\n\r\ng2"
    );
}

#[test]
fn middleware_runs_in_the_order_of_adding() {
    let log = Rc::new(RefCell::new(Vec::new()));
    let mut chain: MiddlewareChain<Callback> = MiddlewareChain::new();
    chain.add_middleware(records(&log, "A"));
    chain.add_middleware(records(&log, "B"));
    chain.add_middleware(records(&log, "C"));
    let mut req = request("GET / HTTP/1.1\r\n\r\n");
    let mut res = HttpResponse::new();
    chain.run(&mut req, &mut res);
    assert_eq!(*log.borrow(), vec!["A", "B", "C"]);
    chain.run(&mut req, &mut res);
    assert_eq!(*log.borrow(), vec!["A", "B", "C", "A", "B", "C"]);
}

#[test]
fn each_middleware_sees_what_the_one_before_left() {
    let mut chain: MiddlewareChain<Callback> = MiddlewareChain::new();
    chain.add_middleware(Box::new(|_req, res| {
        res.set_header("X-First", "A");
        res.set_body("from A");
    }));
    chain.add_middleware(Box::new(|_req, res| {
        res.set_header("X-Second", "B");
        res.set_body("from B");
    }));
    let mut req = request("GET / HTTP/1.1\r\n\r\n");
    let mut res = HttpResponse::new();
    chain.run(&mut req, &mut res);
    assert_eq!(
        String::from_utf8(res.serialize()).unwrap(),
        "HTTP/1.1 200 OK\r\nContent-Length: 6\r\nX-First: A\r\nX-Second: B\r\n\r\nfrom B"
    );
}

#[test]
fn no_middleware_stops_the_chain() {
    let log = Rc::new(RefCell::new(Vec::new()));
    let mut chain: MiddlewareChain<Callback> = MiddlewareChain::new();
    chain.add_middleware(Box::new(|_req, res| {
        res.set_status("HTTP/1.1 403 Forbidden".to_string());
        res.set_body("stop here");
    }));
    chain.add_middleware(records(&log, "after"));
    let mut req = request("GET / HTTP/1.1\r\n\r\n");
    let mut res = HttpResponse::new();
    chain.run(&mut req, &mut res);
    assert_eq!(*log.borrow(), vec!["after"]);
    assert_eq!(
        String::from_utf8(res.serialize()).unwrap(),
        "HTTP/1.1 403 Forbidden\r\nContent-Length: 9\r\n\r\nstop here"
    );
}

#[test]
fn empty_chain_changes_nothing() {
    let chain: MiddlewareChain<Callback> = MiddlewareChain::new();
    let mut req = request("GET /a?b HTTP/1.1\r\n\r\n");
    let mut res = HttpResponse::new();
    res.set_body("kept");
    chain.run(&mut req, &mut res);
    assert_eq!(String::from_utf8(res.serialize()).unwrap(), "HTTP/1.1 200 OK\r\nContent-Length: 4\r\n\r\nkept");
    assert_eq!(req.get_path(), "/a");
    assert_eq!(req.get_params(), "b");
}

#[test]
fn middleware_may_replace_the_request() {
    let mut chain: MiddlewareChain<Callback> = MiddlewareChain::new();
    chain.add_middleware(Box::new(|req, _res| {
        *req = HttpRequest::from("GET /rewritten HTTP/1.1\r\n\r\n".to_string()).unwrap();
    }));
    let mut req = request("GET /first HTTP/1.1\r\n\r\n");
    let mut res = HttpResponse::new();
    chain.run(&mut req, &mut res);
    assert_eq!(req.get_path(), "/rewritten");
}
