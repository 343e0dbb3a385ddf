use quickly::http::{Request, Response};
use quickly::router::{Handler, Router};

struct TagHandler {
    tag: &'static str,
}

impl Handler for TagHandler {
    fn handle(&self, _req: &mut Request, res: Response) -> Response {
        res.send(self.tag)
    }
}

struct ParamEchoHandler;

impl Handler for ParamEchoHandler {
    fn handle(&self, req: &mut Request, res: Response) -> Response {
        match req.param("id") {
            Some(id) => {
                let body = format!("id={}", id);
                res.send(&body)
            }
            None => res.send("missing"),
        }
    }
}

#[test]
fn test_match_path_binds_params() {
    let router: Router<TagHandler> = Router::new();
    let params = router.match_path("/users/:id", "/users/42").unwrap();
    assert_eq!(params.get("id"), Some(&"42".to_string()));
    assert_eq!(params.len(), 1);
}

#[test]
fn test_match_path_rejects_fewer_segments() {
    let router: Router<TagHandler> = Router::new();
    assert!(router.match_path("/users/:id", "/users").is_none());
}

#[test]
fn test_match_path_rejects_more_segments() {
    let router: Router<TagHandler> = Router::new();
    assert!(router.match_path("/users/:id", "/users/42/x").is_none());
}

#[test]
fn test_match_path_literal_segments() {
    let router: Router<TagHandler> = Router::new();
    assert!(router.match_path("/a/b", "/a/b").is_some());
    assert!(router.match_path("/a/b", "/a/c").is_none());
}

#[test]
fn test_match_path_trailing_slash_is_a_segment() {
    let router: Router<TagHandler> = Router::new();
    assert!(router.match_path("/x", "/x/").is_none());
    assert!(router.match_path("/x/", "/x/").is_some());
}

#[test]
fn test_match_path_empty_pattern() {
    let router: Router<TagHandler> = Router::new();
    assert!(router.match_path("", "").is_some());
    assert!(router.match_path("", "/").is_none());
}

#[test]
fn test_match_path_root() {
    let router: Router<TagHandler> = Router::new();
    let params = router.match_path("/", "/").unwrap();
    assert_eq!(params.len(), 0);
}

#[test]
fn test_match_route_populates_params() {
    let mut router: Router<ParamEchoHandler> = Router::new();
    router.add_route("GET", "/users/:id", ParamEchoHandler);
    let mut request = Request::new("GET", "/users/42");
    assert_eq!(router.match_route(&mut request), Some(0));
    assert_eq!(request.param("id"), Some(&"42".to_string()));
}

#[test]
fn test_handle_request_runs_param_handler() {
    let mut router: Router<ParamEchoHandler> = Router::new();
    router.add_route("GET", "/users/:id", ParamEchoHandler);
    let mut request = Request::new("GET", "/users/42");
    let response = router.handle_request(&mut request);
    assert_eq!(response.status_code, 200);
    assert_eq!(response.body, "id=42");
}

#[test]
fn test_dispatch_picks_matching_method() {
    let mut router: Router<TagHandler> = Router::new();
    router.add_route("GET", "/", TagHandler { tag: "get-root" });
    router.add_route("POST", "/", TagHandler { tag: "post-root" });

    let mut get_request = Request::new("GET", "/");
    let get_response = router.handle_request(&mut get_request);
    assert_eq!(get_response.body, "get-root");

    let mut post_request = Request::new("POST", "/");
    let post_response = router.handle_request(&mut post_request);
    assert_eq!(post_response.body, "post-root");

    let mut delete_request = Request::new("DELETE", "/");
    let delete_response = router.handle_request(&mut delete_request);
    assert_eq!(delete_response.status_code, 404);
    assert_eq!(delete_response.body, "Not Found");
}

#[test]
fn test_first_registered_route_wins() {
    let mut router: Router<TagHandler> = Router::new();
    router.add_route("GET", "/users/me", TagHandler { tag: "literal" });
    router.add_route("GET", "/users/:id", TagHandler { tag: "param" });

    let mut request = Request::new("GET", "/users/me");
    let response = router.handle_request(&mut request);
    assert_eq!(response.body, "literal");

    let mut other = Request::new("GET", "/users/7");
    let other_response = router.handle_request(&mut other);
    assert_eq!(other_response.body, "param");
}

#[test]
fn test_reregistration_replaces_handler_in_place() {
    let mut router: Router<TagHandler> = Router::new();
    router.add_route("GET", "/", TagHandler { tag: "first" });
    router.add_route("GET", "/x", TagHandler { tag: "x" });
    router.add_route("GET", "/", TagHandler { tag: "second" });
    assert_eq!(router.routes.len(), 2);

    let mut request = Request::new("GET", "/");
    let response = router.handle_request(&mut request);
    assert_eq!(response.body, "second");
}
