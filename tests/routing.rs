use sozu_core::listener::{strip_port, HttpListener, L7ListenerHandler};
use sozu_core::router::{
    DomainRule, Method, MethodRule, PathRule, Route, Router, RouterError, Rule, RulePosition,
};

fn rule(domain: DomainRule, path: PathRule, method: MethodRule, cluster: &str) -> Rule {
    Rule { domain, path, method, route: Route::ClusterId(cluster.to_string()) }
}

fn cluster_of(r: Result<Route, RouterError>) -> Option<String> {
    match r {
        Ok(Route::ClusterId(id)) => Some(id),
        _ => None,
    }
}

#[test]
fn pre_rule_before_tree_rule() {
    let mut router = Router::new();
    let host = DomainRule::Exact("example.com".to_string());
    router.add_rule(RulePosition::Pre, rule(host.clone(), PathRule::Prefix("/".to_string()), MethodRule::Any, "pre"));
    router.add_rule(RulePosition::Tree, rule(host, PathRule::Prefix("/api".to_string()), MethodRule::Any, "tree"));
    assert_eq!(cluster_of(router.lookup("example.com", "/other", &Method::Get)), Some("pre".to_string()));
    // Pre rules are tried first: the prefix `/` takes `/api/x` as well
    assert_eq!(cluster_of(router.lookup("example.com", "/api/x", &Method::Get)), Some("pre".to_string()));
}

#[test]
fn tree_rules_prefer_longer_prefix() {
    let mut router = Router::new();
    let host = DomainRule::Exact("example.com".to_string());
    router.add_rule(RulePosition::Tree, rule(host.clone(), PathRule::Prefix("/".to_string()), MethodRule::Any, "root"));
    router.add_rule(RulePosition::Tree, rule(host, PathRule::Prefix("/api".to_string()), MethodRule::Any, "api"));
    assert_eq!(cluster_of(router.lookup("example.com", "/api/x", &Method::Get)), Some("api".to_string()));
    assert_eq!(cluster_of(router.lookup("example.com", "/other", &Method::Get)), Some("root".to_string()));
}

#[test]
fn tree_rules_prefer_exact_host_and_exact_path() {
    let mut router = Router::new();
    router.add_rule(RulePosition::Tree, rule(DomainRule::Any, PathRule::Equals("/a".to_string()), MethodRule::Any, "any"));
    router.add_rule(
        RulePosition::Tree,
        rule(DomainRule::Wildcard(".example.com".to_string()), PathRule::Prefix("/".to_string()), MethodRule::Any, "wild"),
    );
    router.add_rule(
        RulePosition::Tree,
        rule(DomainRule::Exact("www.example.com".to_string()), PathRule::Prefix("/".to_string()), MethodRule::Any, "exact"),
    );
    router.add_rule(
        RulePosition::Tree,
        rule(DomainRule::Exact("www.example.com".to_string()), PathRule::Equals("/a".to_string()), MethodRule::Any, "exact-path"),
    );
    assert_eq!(cluster_of(router.lookup("www.example.com", "/a", &Method::Get)), Some("exact-path".to_string()));
    assert_eq!(cluster_of(router.lookup("www.example.com", "/b", &Method::Get)), Some("exact".to_string()));
    assert_eq!(cluster_of(router.lookup("api.example.com", "/a", &Method::Get)), Some("wild".to_string()));
    assert_eq!(cluster_of(router.lookup("other.org", "/a", &Method::Get)), Some("any".to_string()));
    assert_eq!(router.lookup("other.org", "/b", &Method::Get).err(), Some(RouterError::NoMatch));
}

#[test]
fn wildcard_matches_one_label() {
    let mut router = Router::new();
    router.add_rule(
        RulePosition::Post,
        rule(DomainRule::Wildcard(".example.com".to_string()), PathRule::Prefix("".to_string()), MethodRule::Any, "w"),
    );
    assert!(cluster_of(router.lookup("a.example.com", "/", &Method::Get)).is_some());
    assert!(cluster_of(router.lookup("a.b.example.com", "/", &Method::Get)).is_none());
    assert!(cluster_of(router.lookup("example.com", "/", &Method::Get)).is_none());
    assert!(cluster_of(router.lookup(".example.com", "/", &Method::Get)).is_none());
}

#[test]
fn regex_path_rule() {
    let mut router = Router::new();
    router.add_rule(
        RulePosition::Pre,
        rule(DomainRule::Any, PathRule::Regex("^/v[0-9]+/".to_string()), MethodRule::Any, "versioned"),
    );
    router.add_rule(RulePosition::Post, rule(DomainRule::Any, PathRule::Prefix("/".to_string()), MethodRule::Any, "rest"));
    assert_eq!(cluster_of(router.lookup("h", "/v2/items", &Method::Get)), Some("versioned".to_string()));
    assert_eq!(cluster_of(router.lookup("h", "/vx/items", &Method::Get)), Some("rest".to_string()));
    // a pattern that does not compile matches nothing
    let mut bad = Router::new();
    bad.add_rule(RulePosition::Pre, rule(DomainRule::Any, PathRule::Regex("(".to_string()), MethodRule::Any, "bad"));
    assert_eq!(bad.lookup("h", "(", &Method::Get).err(), Some(RouterError::NoMatch));
}

#[test]
fn method_filter() {
    let mut router = Router::new();
    router.add_rule(
        RulePosition::Pre,
        rule(DomainRule::Any, PathRule::Prefix("/".to_string()), MethodRule::Is(Method::Post), "writes"),
    );
    router.add_rule(
        RulePosition::Pre,
        rule(DomainRule::Any, PathRule::Prefix("/".to_string()), MethodRule::Is(Method::Custom("PURGE".to_string())), "purge"),
    );
    router.add_rule(RulePosition::Post, rule(DomainRule::Any, PathRule::Prefix("/".to_string()), MethodRule::Any, "reads"));
    assert_eq!(cluster_of(router.lookup("h", "/x", &Method::Post)), Some("writes".to_string()));
    assert_eq!(cluster_of(router.lookup("h", "/x", &Method::Get)), Some("reads".to_string()));
    assert_eq!(cluster_of(router.lookup("h", "/x", &Method::Custom("PURGE".to_string()))), Some("purge".to_string()));
}

#[test]
fn deny_route_and_rule_removal() {
    let mut router = Router::new();
    let denied = Rule {
        domain: DomainRule::Any,
        path: PathRule::Prefix("/admin".to_string()),
        method: MethodRule::Any,
        route: Route::Deny,
    };
    router.add_rule(RulePosition::Pre, denied.clone());
    router.add_rule(RulePosition::Post, rule(DomainRule::Any, PathRule::Prefix("/".to_string()), MethodRule::Any, "c"));
    assert!(matches!(router.lookup("h", "/admin/x", &Method::Get), Ok(Route::Deny)));
    assert!(router.remove_rule(RulePosition::Pre, &denied));
    assert!(!router.remove_rule(RulePosition::Pre, &denied));
    assert_eq!(cluster_of(router.lookup("h", "/admin/x", &Method::Get)), Some("c".to_string()));
    router.remove_cluster_rules("c");
    assert!(router.post.is_empty());
}

#[test]
fn strip_port_removes_trailing_port() {
    assert_eq!(strip_port("example.com:8080"), "example.com");
    assert_eq!(strip_port("example.com"), "example.com");
    assert_eq!(strip_port("example.com:"), "example.com:");
    assert_eq!(strip_port("example.com:80a"), "example.com:80a");
    assert_eq!(strip_port(":1"), "");
    assert_eq!(strip_port(""), "");
}

#[test]
fn listener_routes_host_without_port() {
    let mut l = HttpListener::new("127.0.0.1:8080".to_string(), "SOZUBALANCEID".to_string(), 3);
    l.router.add_rule(
        RulePosition::Pre,
        rule(DomainRule::Exact("example.com".to_string()), PathRule::Prefix("/".to_string()), MethodRule::Any, "c1"),
    );
    assert_eq!(cluster_of(l.frontend_from_request("example.com:8080", "/", &Method::Get)), Some("c1".to_string()));
    assert_eq!(l.get_sticky_name(), "SOZUBALANCEID");
    assert_eq!(l.get_connect_timeout(), 3);
    assert_eq!(l.frontend_from_request("other.com", "/", &Method::Get).err(), Some(RouterError::NoMatch));
}
