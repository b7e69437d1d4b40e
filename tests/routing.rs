use highnoon::{shape_of, validate_pattern, App, RouteError, Router, Target, MOUNT_REST, UNNAMED_REST};
use route_recognizer::Params;

fn greeting_router() -> Router {
    let mut r = Router::new();
    r.add("GET", "/greeting", 0).unwrap();
    r.add("GET", "/reverse", 1).unwrap();
    r.add("GET", "/json", 2).unwrap();
    r
}

#[test]
fn test_404() {
    let r = greeting_router();
    let t = r.lookup("GET", "/no_such_route");
    assert_eq!(t.target, Target::NotFound);
    assert_eq!(t.params.iter().count(), 0);
}

#[test]
fn test_method_not_allowed() {
    let r = greeting_router();
    let t = r.lookup("DELETE", "/greeting");
    assert_eq!(t.target, Target::MethodNotAllowed);
    assert_eq!(t.params.iter().count(), 0);
}

#[test]
fn exact_method_match() {
    let r = greeting_router();
    assert_eq!(r.lookup("GET", "/greeting").target, Target::Endpoint(0));
    assert_eq!(r.lookup("GET", "/json").target, Target::Endpoint(2));
}

#[test]
fn method_table_beats_all_table() {
    let mut r = Router::new();
    r.add("GET", "/thing", 1).unwrap();
    r.add_all("/thing", 2).unwrap();
    assert_eq!(r.lookup("GET", "/thing").target, Target::Endpoint(1));
    assert_eq!(r.lookup("POST", "/thing").target, Target::Endpoint(2));
    assert_eq!(r.lookup("PATCH", "/thing").target, Target::Endpoint(2));
}

#[test]
fn all_table_gives_captures() {
    let mut r = Router::new();
    r.add_all("/items/:id", 7).unwrap();
    let t = r.lookup("PUT", "/items/42");
    assert_eq!(t.target, Target::Endpoint(7));
    assert_eq!(t.params.find("id"), Some("42"));
}

#[test]
fn not_allowed_has_no_params() {
    let mut r = Router::new();
    r.add("POST", "/users/:id", 3).unwrap();
    let t = r.lookup("GET", "/users/9");
    assert_eq!(t.target, Target::MethodNotAllowed);
    assert_eq!(t.params.iter().count(), 0);
    assert_eq!(t.params.find("id"), None);
}

#[test]
fn empty_router_finds_nothing() {
    let r = Router::new();
    let t = r.lookup("GET", "/");
    assert_eq!(t.target, Target::NotFound);
}

#[test]
fn named_capture() {
    let mut r = Router::new();
    r.add("GET", "/echo/:name", 0).unwrap();
    let t = r.lookup("GET", "/echo/bob");
    assert_eq!(t.target, Target::Endpoint(0));
    assert_eq!(t.params.find("name"), Some("bob"));
    assert_eq!(t.params.iter().count(), 1);
}

#[test]
fn catch_all_capture() {
    let mut r = Router::new();
    r.add("GET", "/static/*path", 0).unwrap();
    let t = r.lookup("GET", "/static/a/b.txt");
    assert_eq!(t.target, Target::Endpoint(0));
    assert_eq!(t.params.find("path"), Some("a/b.txt"));
}

#[test]
fn capture_needs_one_segment() {
    let mut r = Router::new();
    r.add("GET", "/echo/:name", 0).unwrap();
    assert_eq!(r.lookup("GET", "/echo/bob/extra").target, Target::NotFound);
}

#[test]
fn literal_beats_capture() {
    let mut r = Router::new();
    r.add("GET", "/posts/:id", 0).unwrap();
    r.add("GET", "/posts/new", 1).unwrap();
    assert_eq!(r.lookup("GET", "/posts/new").target, Target::Endpoint(1));
    let t = r.lookup("GET", "/posts/5");
    assert_eq!(t.target, Target::Endpoint(0));
    assert_eq!(t.params.find("id"), Some("5"));
}

#[test]
fn root_catch_all_takes_everything() {
    let mut r = Router::new();
    r.add("GET", "/*", 4).unwrap();
    let t = r.lookup("GET", "/hello");
    assert_eq!(t.target, Target::Endpoint(4));
    assert_eq!(t.params.find(""), Some("hello"));
    assert_eq!(t.params.iter().count(), 1);
}

#[test]
fn bare_catch_all_after_prefix() {
    let mut r = Router::new();
    r.add_all("/files/:kind/*", 1).unwrap();
    let t = r.lookup("GET", "/files/img/a/b.png");
    assert_eq!(t.target, Target::Endpoint(1));
    assert_eq!(t.params.find("kind"), Some("img"));
    assert_eq!(t.params.find(""), Some("a/b.png"));
    assert_eq!(t.params.find(UNNAMED_REST), None);
}

#[test]
fn nul_in_path_is_not_found() {
    let mut r = Router::new();
    r.add("GET", "/*rest", 0).unwrap();
    let t = r.lookup("GET", "/a\0b");
    assert_eq!(t.target, Target::NotFound);
    assert_eq!(t.params.iter().count(), 0);
}

#[test]
fn named_root_catch_all() {
    let mut r = Router::new();
    r.add("GET", "/*rest", 4).unwrap();
    let t = r.lookup("GET", "/hello");
    assert_eq!(t.target, Target::Endpoint(4));
    assert_eq!(t.params.find("rest"), Some("hello"));
}

#[test]
fn duplicate_is_refused() {
    let mut r = Router::new();
    assert_eq!(r.add("GET", "/a/:b", 0), Ok(()));
    assert_eq!(r.add("GET", "/a/:b", 1), Err(RouteError::Duplicate));
    assert_eq!(r.add("POST", "/a/:b", 2), Ok(()));
    assert_eq!(r.lookup("GET", "/a/x").target, Target::Endpoint(0));
    assert_eq!(r.add_all("/a/:b", 3), Ok(()));
    assert_eq!(r.add_all("/a/:b", 4), Err(RouteError::Duplicate));
}

#[test]
fn misplaced_catch_all_is_refused() {
    let mut r = Router::new();
    assert_eq!(r.add("GET", "/a/*rest/b", 0), Err(RouteError::InvalidPattern));
    assert_eq!(r.add("GET", "/a/*rest.txt", 0), Err(RouteError::InvalidPattern));
    assert_eq!(r.lookup("GET", "/a/x/b").target, Target::NotFound);
    assert_eq!(validate_pattern("/a/*rest"), Ok(()));
    assert_eq!(validate_pattern("/a/b*c/d"), Ok(()));
}

#[test]
fn non_ascii_or_nul_is_refused() {
    assert_eq!(validate_pattern("/\u{e9}t\u{e9}"), Err(RouteError::InvalidPattern));
    assert_eq!(validate_pattern("/caf\u{e9}"), Err(RouteError::InvalidPattern));
    assert_eq!(validate_pattern("/a\0b"), Err(RouteError::InvalidPattern));
    let mut r = Router::new();
    assert_eq!(r.add("GET", "/x\0", 0), Err(RouteError::InvalidPattern));
    assert_eq!(validate_pattern("/cafe"), Ok(()));
}

#[test]
fn reserved_name_is_refused() {
    let mut r = Router::new();
    let p = format!("/x/:{}", MOUNT_REST);
    assert_eq!(r.add("GET", &p, 0), Err(RouteError::ReservedName));
    let q = format!("/x/*{}", MOUNT_REST);
    assert_eq!(r.add_all(&q, 0), Err(RouteError::ReservedName));
    let unnamed = format!("/x/*{}", UNNAMED_REST);
    assert_eq!(validate_pattern(&unnamed), Err(RouteError::ReservedName));
    let longer = format!("/x/:{}x", MOUNT_REST);
    assert_eq!(validate_pattern(&longer), Ok(()));
}

fn child_app() -> App<(), &'static str, ()> {
    let mut child: App<(), &'static str, ()> = App::new(());
    child.route("GET", "/user/:name", "user").unwrap();
    child
}

#[test]
fn mount_merges_parameters() {
    let child = child_app();
    let mut outer: App<(), &'static str, ()> = App::new(());
    let id = outer.mount("/api/:version", "adapter").unwrap();
    let t = outer.lookup("GET", "/api/v2/user/bob");
    assert_eq!(t.target, Target::Endpoint(id));
    assert_eq!(outer.endpoint(id), Some(&"adapter"));
    assert_eq!(t.params.find(MOUNT_REST), Some("user/bob"));
    let inner = child.mounted_lookup("GET", t.params).unwrap();
    assert_eq!(inner.target, Target::Endpoint(0));
    assert_eq!(child.endpoint(0), Some(&"user"));
    assert_eq!(inner.params.find("version"), Some("v2"));
    assert_eq!(inner.params.find("name"), Some("bob"));
}

#[test]
fn mount_child_value_wins() {
    let child = child_app();
    let mut outer: App<(), &'static str, ()> = App::new(());
    outer.mount("/api/:name", "adapter").unwrap();
    let t = outer.lookup("GET", "/api/outer/user/inner");
    assert_eq!(t.params.find("name"), Some("outer"));
    let inner = child.mounted_lookup("GET", t.params).unwrap();
    assert_eq!(inner.params.find("name"), Some("inner"));
}

#[test]
fn mounted_not_found_and_not_allowed() {
    let child = child_app();
    let mut outer: App<(), &'static str, ()> = App::new(());
    outer.mount("/api", "adapter").unwrap();
    let t = outer.lookup("DELETE", "/api/user/bob");
    let inner = child.mounted_lookup("DELETE", t.params).unwrap();
    assert_eq!(inner.target, Target::MethodNotAllowed);
    let t = outer.lookup("GET", "/api/nothing/here");
    let inner = child.mounted_lookup("GET", t.params).unwrap();
    assert_eq!(inner.target, Target::NotFound);
}

#[test]
fn mounted_lookup_needs_rest_capture() {
    let child = child_app();
    let mut params = Params::new();
    params.insert("version".to_string(), "v1".to_string());
    assert!(child.mounted_lookup("GET", params).is_none());
}

#[test]
fn mount_refuses_bad_prefix() {
    let mut outer: App<(), &'static str, ()> = App::new(());
    assert_eq!(outer.mount("/a/*x", "adapter"), Err(RouteError::InvalidPattern));
    assert_eq!(outer.mount("/a", "adapter"), Ok(0));
    assert_eq!(outer.mount("/a", "again"), Err(RouteError::Duplicate));
    assert_eq!(outer.endpoint(1), None);
}

#[test]
fn app_registration_numbers_endpoints() {
    let mut app: App<u8, &'static str, &'static str> = App::new(5);
    assert_eq!(*app.state(), 5);
    assert_eq!(app.route("GET", "/a", "a"), Ok(0));
    assert_eq!(app.route("GET", "/a", "dup"), Err(RouteError::Duplicate));
    assert_eq!(app.route_all("/b", "b"), Ok(1));
    assert_eq!(app.endpoint(1), Some(&"b"));
    assert_eq!(app.lookup("POST", "/b").target, Target::Endpoint(1));
    app.with("first");
    app.with("second");
    assert_eq!(app.filter_count(), 2);
    assert_eq!(app.filter(0), Some(&"first"));
    assert_eq!(app.filter(1), Some(&"second"));
    assert_eq!(app.filter(2), None);
}

#[test]
fn same_shape_is_a_duplicate() {
    let mut r = Router::new();
    assert_eq!(r.add("GET", "/users/:id", 0), Ok(()));
    assert_eq!(r.add("GET", "/users/:name", 1), Err(RouteError::Duplicate));
    assert_eq!(r.add("GET", "users/:id", 2), Err(RouteError::Duplicate));
    assert_eq!(r.add("GET", "/users/*rest", 3), Ok(()));
    let t = r.lookup("GET", "/users/7");
    assert_eq!(t.target, Target::Endpoint(0));
    assert_eq!(t.params.find("id"), Some("7"));
}

#[test]
fn shapes_leave_out_capture_names() {
    let s: String = shape_of("/api/:version/file.:ext/*rest").into_iter().collect();
    assert_eq!(s, "api/:/file.:/*");
    let t: String = shape_of("/a/b:c").into_iter().collect();
    assert_eq!(t, "a/b:c");
}

#[test]
fn capture_beats_catch_all() {
    let mut r = Router::new();
    r.add("GET", "/files/*rest", 0).unwrap();
    r.add("GET", "/files/:one", 1).unwrap();
    let t = r.lookup("GET", "/files/a");
    assert_eq!(t.target, Target::Endpoint(1));
    assert_eq!(t.params.find("one"), Some("a"));
    let t = r.lookup("GET", "/files/a/b");
    assert_eq!(t.target, Target::Endpoint(0));
    assert_eq!(t.params.find("rest"), Some("a/b"));
}
