use std::cell::RefCell;
use std::rc::Rc;

use quickly::app::{App, Continuation, Middleware};
use quickly::http::{Request, Response};
use quickly::router::Handler;

struct MockHandler;

impl Handler for MockHandler {
    fn handle(&self, _req: &mut Request, _res: Response) -> Response {
        Response::new(200, "Ok")
    }
}

struct NoopMiddleware;

impl Middleware for NoopMiddleware {
    fn call(&self, req: &mut Request, next: &dyn Continuation) -> Response {
        next.invoke(req)
    }
}

struct LogHandler {
    log: Rc<RefCell<Vec<String>>>,
}

impl Handler for LogHandler {
    fn handle(&self, _req: &mut Request, res: Response) -> Response {
        self.log.borrow_mut().push("handler".to_string());
        res.send("done")
    }
}

struct RecordingMiddleware {
    name: &'static str,
    log: Rc<RefCell<Vec<String>>>,
}

impl Middleware for RecordingMiddleware {
    fn call(&self, req: &mut Request, next: &dyn Continuation) -> Response {
        self.log.borrow_mut().push(format!("{}-before", self.name));
        let response = next.invoke(req);
        self.log.borrow_mut().push(format!("{}-after", self.name));
        response
    }
}

struct ShortCircuitMiddleware {
    log: Rc<RefCell<Vec<String>>>,
}

impl Middleware for ShortCircuitMiddleware {
    fn call(&self, _req: &mut Request, _next: &dyn Continuation) -> Response {
        self.log.borrow_mut().push("short".to_string());
        Response::new(403, "Stopped")
    }
}

fn test_route(app: &mut App<MockHandler, NoopMiddleware>, method: &str, path: &str) {
    match method {
        "GET" => app.get(path, MockHandler),
        "POST" => app.post(path, MockHandler),
        "PUT" => app.put(path, MockHandler),
        "DELETE" => app.delete(path, MockHandler),
        "PATCH" => app.patch(path, MockHandler),
        "OPTIONS" => app.options(path, MockHandler),
        "HEAD" => app.head(path, MockHandler),
        _ => panic!("Unsupported method"),
    }
    app.router.add_route(method, path, MockHandler);
}

#[test]
fn test_get_route() {
    let mut app = App::new();
    test_route(&mut app, "GET", "/test");
}

#[test]
fn test_post_route() {
    let mut app = App::new();
    test_route(&mut app, "POST", "/test");
}

#[test]
fn test_put_route() {
    let mut app = App::new();
    test_route(&mut app, "PUT", "/test");
}

#[test]
fn test_delete_route() {
    let mut app = App::new();
    test_route(&mut app, "DELETE", "/test");
}

#[test]
fn test_patch_route() {
    let mut app = App::new();
    test_route(&mut app, "PATCH", "/test");
}

#[test]
fn test_options_route() {
    let mut app = App::new();
    test_route(&mut app, "OPTIONS", "/test");
}

#[test]
fn test_head_route() {
    let mut app = App::new();
    test_route(&mut app, "HEAD", "/test");
}

#[test]
fn test_use_middleware() {
    let mut app: App<MockHandler, NoopMiddleware> = App::new();
    let middleware = NoopMiddleware;
    app.use_middleware(middleware);
    assert_eq!(app.middlewares.len(), 1);
}

#[test]
fn test_middleware_onion_order() {
    let log: Rc<RefCell<Vec<String>>> = Rc::new(RefCell::new(Vec::new()));
    let mut app: App<LogHandler, RecordingMiddleware> = App::new();
    app.get("/json", LogHandler { log: log.clone() });
    app.get("/", LogHandler { log: log.clone() });
    app.use_middleware(RecordingMiddleware { name: "A", log: log.clone() });
    app.work(Some("/json".to_string()), RecordingMiddleware { name: "B", log: log.clone() });

    let mut request = Request::new("GET", "/json");
    app.run_middlewares(&mut request);
    assert_eq!(
        *log.borrow(),
        vec![
            "A-before".to_string(),
            "B-before".to_string(),
            "handler".to_string(),
            "B-after".to_string(),
            "A-after".to_string(),
        ]
    );

    log.borrow_mut().clear();
    let mut root_request = Request::new("GET", "/");
    app.run_middlewares(&mut root_request);
    assert_eq!(
        *log.borrow(),
        vec!["A-before".to_string(), "handler".to_string(), "A-after".to_string()]
    );
}

#[test]
fn test_middleware_short_circuit() {
    let log: Rc<RefCell<Vec<String>>> = Rc::new(RefCell::new(Vec::new()));
    let mut app: App<LogHandler, ShortCircuitMiddleware> = App::new();
    app.get("/", LogHandler { log: log.clone() });
    app.use_middleware(ShortCircuitMiddleware { log: log.clone() });

    let mut request = Request::new("GET", "/");
    let response = app.run_middlewares(&mut request);
    assert_eq!(response.status_code, 403);
    assert_eq!(response.body, "Stopped");
    assert_eq!(*log.borrow(), vec!["short".to_string()]);
}

#[test]
fn test_handle_raw_success() {
    let mut app: App<MockHandler, NoopMiddleware> = App::new();
    app.get("/", MockHandler);
    let out = app.handle_raw("GET / HTTP/1.1\r\nHost: x\r\n\r\n");
    assert_eq!(out, "HTTP/1.1 200 OK\r\nContent-Type: text/plain\r\n\r\nOk");
}

#[test]
fn test_handle_raw_not_found() {
    let mut app: App<MockHandler, NoopMiddleware> = App::new();
    app.get("/", MockHandler);
    let out = app.handle_raw("GET /missing HTTP/1.1\r\n\r\n");
    assert_eq!(out, "HTTP/1.1 404 OK\r\nContent-Type: text/plain\r\n\r\nNot Found");
}

#[test]
fn test_work_appends_prefixed_middleware() {
    let mut app: App<MockHandler, NoopMiddleware> = App::new();
    app.use_middleware(NoopMiddleware);
    app.work(Some("/api".to_string()), NoopMiddleware);
    assert_eq!(app.middlewares.len(), 2);
}

#[test]
fn test_handle_raw_with_path_param() {
    struct UserHandler;

    impl Handler for UserHandler {
        fn handle(&self, req: &mut Request, res: Response) -> Response {
            match req.param("id") {
                Some(id) => {
                    let body = format!("User ID: {}", id);
                    res.send(&body)
                }
                None => res.send("Bad ID"),
            }
        }
    }

    let mut app: App<UserHandler, NoopMiddleware> = App::new();
    app.get("/users/:id", UserHandler);
    let out = app.handle_raw("GET /users/42 HTTP/1.1\r\n\r\n");
    assert_eq!(out, "HTTP/1.1 200 OK\r\nContent-Type: text/plain\r\n\r\nUser ID: 42");
}

#[test]
fn test_handle_raw_bad_request() {
    let app: App<MockHandler, NoopMiddleware> = App::new();
    let out = app.handle_raw("NONSENSE");
    assert_eq!(out, "HTTP/1.1 400 OK\r\nContent-Type: text/plain\r\n\r\nBad Request");
}
