//! The router: from a request's host, path and method to a cluster.
//!
//! Rules stand in three positions. `Pre` rules are tried in insertion order,
//! then the most specific matching `Tree` rule is taken, then `Post` rules
//! are tried in insertion order. The first match wins.
use vstd::prelude::*;
use crate::text::{is_prefix_of, is_suffix_of, starts_with, ends_with, str_eq};

verus! {

/// Whether the regular expression `pattern` compiles and matches somewhere in
/// `text`, as the `regex` crate decides it.
pub uninterp spec fn regex_accepts(pattern: Seq<char>, text: Seq<char>) -> bool;

/// Relies on `regex::Regex::new` and `regex::Regex::is_match`: compiles the
/// pattern and tells whether it matches somewhere in the text; a pattern that
/// does not compile matches nothing. The answer depends on the two strings alone.
#[verifier::external_body]
fn regex_is_match(pattern: &str, text: &str) -> (r: bool)
    ensures
        r == regex_accepts(pattern@, text@),
{
    match regex::Regex::new(pattern) {
        Ok(re) => re.is_match(text),
        Err(_) => false,
    }
}

#[derive(Debug, Clone)]
pub enum Method {
    Get,
    Post,
    Head,
    Options,
    Put,
    Delete,
    Trace,
    Connect,
    Custom(String),
}

pub open spec fn same_method(a: Method, b: Method) -> bool {
    match (a, b) {
        (Method::Get, Method::Get) => true,
        (Method::Post, Method::Post) => true,
        (Method::Head, Method::Head) => true,
        (Method::Options, Method::Options) => true,
        (Method::Put, Method::Put) => true,
        (Method::Delete, Method::Delete) => true,
        (Method::Trace, Method::Trace) => true,
        (Method::Connect, Method::Connect) => true,
        (Method::Custom(x), Method::Custom(y)) => x@ == y@,
        _ => false,
    }
}

impl Method {
    pub fn is_same(&self, other: &Method) -> (r: bool)
        ensures
            r == same_method(*self, *other),
    {
        match (self, other) {
            (Method::Get, Method::Get) => true,
            (Method::Post, Method::Post) => true,
            (Method::Head, Method::Head) => true,
            (Method::Options, Method::Options) => true,
            (Method::Put, Method::Put) => true,
            (Method::Delete, Method::Delete) => true,
            (Method::Trace, Method::Trace) => true,
            (Method::Connect, Method::Connect) => true,
            (Method::Custom(x), Method::Custom(y)) => str_eq(x.as_str(), y.as_str()),
            _ => false,
        }
    }
}

/// Which hosts a rule accepts.
#[derive(Debug, Clone)]
pub enum DomainRule {
    /// every host
    Any,
    /// exactly this host
    Exact(String),
    /// `*.suffix`: one label without dots, then the suffix, which holds its
    /// leading dot (`.example.com`)
    Wildcard(String),
}

/// Which paths a rule accepts.
#[derive(Debug, Clone)]
pub enum PathRule {
    Prefix(String),
    Regex(String),
    Equals(String),
}

/// Which methods a rule accepts.
#[derive(Debug, Clone)]
pub enum MethodRule {
    Any,
    Is(Method),
}

/// Where a matching request goes.
#[derive(Debug, Clone)]
pub enum Route {
    ClusterId(String),
    /// a terminal answer: the request is refused
    Deny,
}

impl Route {
    pub fn duplicate(&self) -> (r: Route)
        ensures
            r == *self,
    {
        match self {
            Route::ClusterId(id) => Route::ClusterId(id.clone()),
            Route::Deny => Route::Deny,
        }
    }
}

#[derive(Debug, Clone, Copy, PartialEq, Eq, Structural)]
pub enum RulePosition {
    Pre,
    Tree,
    Post,
}

#[derive(Debug, Clone, Copy, PartialEq, Eq, Structural)]
pub enum RouterError {
    /// no rule matches: the request gets the default 404 answer
    NoMatch,
}

#[derive(Debug, Clone)]
pub struct Rule {
    pub domain: DomainRule,
    pub path: PathRule,
    pub method: MethodRule,
    pub route: Route,
}

impl Method {
    pub fn duplicate(&self) -> (r: Method)
        ensures
            r == *self,
    {
        match self {
            Method::Get => Method::Get,
            Method::Post => Method::Post,
            Method::Head => Method::Head,
            Method::Options => Method::Options,
            Method::Put => Method::Put,
            Method::Delete => Method::Delete,
            Method::Trace => Method::Trace,
            Method::Connect => Method::Connect,
            Method::Custom(s) => Method::Custom(s.clone()),
        }
    }
}

impl Rule {
    pub fn clone_rule(&self) -> (r: Rule)
        ensures
            r == *self,
    {
        Rule {
            domain: match &self.domain {
                DomainRule::Any => DomainRule::Any,
                DomainRule::Exact(h) => DomainRule::Exact(h.clone()),
                DomainRule::Wildcard(h) => DomainRule::Wildcard(h.clone()),
            },
            path: match &self.path {
                PathRule::Prefix(x) => PathRule::Prefix(x.clone()),
                PathRule::Regex(x) => PathRule::Regex(x.clone()),
                PathRule::Equals(x) => PathRule::Equals(x.clone()),
            },
            method: match &self.method {
                MethodRule::Any => MethodRule::Any,
                MethodRule::Is(m) => MethodRule::Is(m.duplicate()),
            },
            route: self.route.duplicate(),
        }
    }
}

pub open spec fn no_dot(s: Seq<char>) -> bool {
    forall|i: int| 0 <= i < s.len() ==> s[i] != '.'
}

pub open spec fn domain_matches(d: DomainRule, host: Seq<char>) -> bool {
    match d {
        DomainRule::Any => true,
        DomainRule::Exact(h) => host == h@,
        DomainRule::Wildcard(suffix) => {
            &&& is_suffix_of(suffix@, host)
            &&& host.len() > suffix@.len()
            &&& no_dot(host.subrange(0, host.len() - suffix@.len()))
        },
    }
}

pub open spec fn path_matches(p: PathRule, path: Seq<char>) -> bool {
    match p {
        PathRule::Prefix(x) => is_prefix_of(x@, path),
        PathRule::Regex(x) => regex_accepts(x@, path),
        PathRule::Equals(x) => path == x@,
    }
}

pub open spec fn method_matches(m: MethodRule, method: Method) -> bool {
    match m {
        MethodRule::Any => true,
        MethodRule::Is(x) => same_method(x, method),
    }
}

pub open spec fn rule_matches(r: Rule, host: Seq<char>, path: Seq<char>, method: Method) -> bool {
    &&& domain_matches(r.domain, host)
    &&& path_matches(r.path, path)
    &&& method_matches(r.method, method)
}

/// Specificity class of a host rule: exact, then wildcard, then any.
pub open spec fn domain_rank(d: DomainRule) -> int {
    match d {
        DomainRule::Exact(_) => 2,
        DomainRule::Wildcard(_) => 1,
        DomainRule::Any => 0,
    }
}

/// Specificity class of a path rule: exact, then prefix, then regex.
pub open spec fn path_rank(p: PathRule) -> int {
    match p {
        PathRule::Equals(_) => 2,
        PathRule::Prefix(_) => 1,
        PathRule::Regex(_) => 0,
    }
}

/// Length of a prefix rule's prefix; longer prefixes are more specific.
pub open spec fn prefix_len(p: PathRule) -> int {
    match p {
        PathRule::Prefix(x) => x@.len() as int,
        _ => 0,
    }
}

/// `a` is strictly more specific than `b`: by host class, then path class,
/// then prefix length.
pub open spec fn more_specific(a: Rule, b: Rule) -> bool {
    ||| domain_rank(a.domain) > domain_rank(b.domain)
    ||| (domain_rank(a.domain) == domain_rank(b.domain) && path_rank(a.path) > path_rank(b.path))
    ||| (domain_rank(a.domain) == domain_rank(b.domain) && path_rank(a.path) == path_rank(b.path)
        && prefix_len(a.path) > prefix_len(b.path))
}

/// The first rule of `rules` at or after `k` that matches.
pub open spec fn first_match(rules: Seq<Rule>, host: Seq<char>, path: Seq<char>, method: Method, k: int) -> Option<
    int,
>
    decreases rules.len() - k,
{
    if k < 0 || k >= rules.len() {
        None
    } else if rule_matches(rules[k], host, path, method) {
        Some(k)
    } else {
        first_match(rules, host, path, method, k + 1)
    }
}

/// Among the first `k` rules, the earliest matching rule that no matching
/// rule is more specific than.
pub open spec fn best_match(rules: Seq<Rule>, host: Seq<char>, path: Seq<char>, method: Method, k: int) -> Option<
    int,
>
    decreases k,
{
    if k <= 0 || k > rules.len() {
        None
    } else {
        let b = best_match(rules, host, path, method, k - 1);
        if rule_matches(rules[k - 1], host, path, method) && match b {
            None => true,
            Some(i) => more_specific(rules[k - 1], rules[i]),
        } {
            Some(k - 1)
        } else {
            b
        }
    }
}

pub struct Router {
    pub pre: Vec<Rule>,
    pub tree: Vec<Rule>,
    pub post: Vec<Rule>,
}

impl Router {
    /// Where the request goes: the first matching `Pre` rule, else the most
    /// specific matching `Tree` rule, else the first matching `Post` rule.
    pub open spec fn route_for(self, host: Seq<char>, path: Seq<char>, method: Method) -> Result<Route, RouterError> {
        match first_match(self.pre@, host, path, method, 0) {
            Some(i) => Ok(self.pre@[i].route),
            None => match best_match(self.tree@, host, path, method, self.tree@.len() as int) {
                Some(i) => Ok(self.tree@[i].route),
                None => match first_match(self.post@, host, path, method, 0) {
                    Some(i) => Ok(self.post@[i].route),
                    None => Err(RouterError::NoMatch),
                },
            },
        }
    }

    pub open spec fn rules_at(self, position: RulePosition) -> Seq<Rule> {
        match position {
            RulePosition::Pre => self.pre@,
            RulePosition::Tree => self.tree@,
            RulePosition::Post => self.post@,
        }
    }

    pub fn new() -> (r: Router)
        ensures
            r.pre@.len() == 0,
            r.tree@.len() == 0,
            r.post@.len() == 0,
    {
        Router { pre: Vec::new(), tree: Vec::new(), post: Vec::new() }
    }

    /// Appends a rule at `position`.
    pub fn add_rule(&mut self, position: RulePosition, rule: Rule)
        ensures
            final(self).rules_at(position) == old(self).rules_at(position).push(rule),
            forall|p: RulePosition| p != position ==> final(self).rules_at(p) == old(self).rules_at(p),
    {
        match position {
            RulePosition::Pre => self.pre.push(rule),
            RulePosition::Tree => self.tree.push(rule),
            RulePosition::Post => self.post.push(rule),
        }
    }

    /// Removes the first rule at `position` with the same host, path and
    /// method conditions as `rule`; answers whether there was one.
    pub fn remove_rule(&mut self, position: RulePosition, rule: &Rule) -> (r: bool)
        ensures
            forall|p: RulePosition| p != position ==> final(self).rules_at(p) == old(self).rules_at(p),
            removed_first(old(self).rules_at(position), final(self).rules_at(position), *rule, r),
    {
        match position {
            RulePosition::Pre => remove_first(&mut self.pre, rule),
            RulePosition::Tree => remove_first(&mut self.tree, rule),
            RulePosition::Post => remove_first(&mut self.post, rule),
        }
    }

    /// Removes every rule that routes to cluster `cluster_id`.
    pub fn remove_cluster_rules(&mut self, cluster_id: &str)
        ensures
            forall|p: RulePosition| #[trigger] final(self).rules_at(p) == old(self).rules_at(p).filter(
                |r: Rule| !routes_to(r, cluster_id@),
            ),
    {
        let pre = keep_other_routes(&self.pre, cluster_id);
        let tree = keep_other_routes(&self.tree, cluster_id);
        let post = keep_other_routes(&self.post, cluster_id);
        self.pre = pre;
        self.tree = tree;
        self.post = post;
        assert forall|p: RulePosition| #[trigger] self.rules_at(p) == old(self).rules_at(p).filter(
            |r: Rule| !routes_to(r, cluster_id@),
        ) by {
            match p {
                RulePosition::Pre => {},
                RulePosition::Tree => {},
                RulePosition::Post => {},
            }
        }
    }

    /// Where the request goes; see `route_for`.
    pub fn lookup(&self, host: &str, path: &str, method: &Method) -> (r: Result<Route, RouterError>)
        ensures
            r == self.route_for(host@, path@, *method),
    {
        match find_first(&self.pre, host, path, method) {
            Some(i) => {
                return Ok(self.pre[i].route.duplicate());
            },
            None => {},
        }
        match find_best(&self.tree, host, path, method) {
            Some(i) => {
                return Ok(self.tree[i].route.duplicate());
            },
            None => {},
        }
        match find_first(&self.post, host, path, method) {
            Some(i) => Ok(self.post[i].route.duplicate()),
            None => Err(RouterError::NoMatch),
        }
    }
}

pub open spec fn routes_to(r: Rule, cluster_id: Seq<char>) -> bool {
    r.route matches Route::ClusterId(id) && id@ == cluster_id
}

/// `a` and `b` accept the same hosts, paths and methods by the same conditions.
pub open spec fn same_conditions(a: Rule, b: Rule) -> bool {
    &&& match (a.domain, b.domain) {
        (DomainRule::Any, DomainRule::Any) => true,
        (DomainRule::Exact(x), DomainRule::Exact(y)) => x@ == y@,
        (DomainRule::Wildcard(x), DomainRule::Wildcard(y)) => x@ == y@,
        _ => false,
    }
    &&& match (a.path, b.path) {
        (PathRule::Prefix(x), PathRule::Prefix(y)) => x@ == y@,
        (PathRule::Regex(x), PathRule::Regex(y)) => x@ == y@,
        (PathRule::Equals(x), PathRule::Equals(y)) => x@ == y@,
        _ => false,
    }
    &&& match (a.method, b.method) {
        (MethodRule::Any, MethodRule::Any) => true,
        (MethodRule::Is(x), MethodRule::Is(y)) => same_method(x, y),
        _ => false,
    }
}

fn is_same_conditions(a: &Rule, b: &Rule) -> (r: bool)
    ensures
        r == same_conditions(*a, *b),
{
    let d = match (&a.domain, &b.domain) {
        (DomainRule::Any, DomainRule::Any) => true,
        (DomainRule::Exact(x), DomainRule::Exact(y)) => str_eq(x.as_str(), y.as_str()),
        (DomainRule::Wildcard(x), DomainRule::Wildcard(y)) => str_eq(x.as_str(), y.as_str()),
        _ => false,
    };
    let p = match (&a.path, &b.path) {
        (PathRule::Prefix(x), PathRule::Prefix(y)) => str_eq(x.as_str(), y.as_str()),
        (PathRule::Regex(x), PathRule::Regex(y)) => str_eq(x.as_str(), y.as_str()),
        (PathRule::Equals(x), PathRule::Equals(y)) => str_eq(x.as_str(), y.as_str()),
        _ => false,
    };
    let m = match (&a.method, &b.method) {
        (MethodRule::Any, MethodRule::Any) => true,
        (MethodRule::Is(x), MethodRule::Is(y)) => x.is_same(y),
        _ => false,
    };
    d && p && m
}

/// `after` is `before` without its first rule with the conditions of `rule`,
/// when `found`; and `before` unchanged, holding no such rule, otherwise.
pub open spec fn removed_first(before: Seq<Rule>, after: Seq<Rule>, rule: Rule, found: bool) -> bool {
    &&& !found ==> after == before && forall|k: int|
        0 <= k < before.len() ==> !same_conditions(#[trigger] before[k], rule)
    &&& found ==> exists|k: int|
        0 <= k < before.len() && same_conditions(#[trigger] before[k], rule) && (forall|j: int|
            0 <= j < k ==> !same_conditions(#[trigger] before[j], rule)) && after == before.remove(k)
}

fn remove_first(rules: &mut Vec<Rule>, rule: &Rule) -> (r: bool)
    ensures
        removed_first(old(rules)@, final(rules)@, *rule, r),
{
    let mut i: usize = 0;
    while i < rules.len()
        invariant
            *rules == *old(rules),
            i <= rules@.len(),
            forall|j: int| 0 <= j < i ==> !same_conditions(#[trigger] rules@[j], *rule),
        decreases rules.len() - i,
    {
        if is_same_conditions(&rules[i], rule) {
            rules.remove(i);
            assert(same_conditions(old(rules)@[i as int], *rule));
            return true;
        }
        i = i + 1;
    }
    false
}

fn keep_other_routes(rules: &Vec<Rule>, cluster_id: &str) -> (r: Vec<Rule>)
    ensures
        r@ == rules@.filter(|x: Rule| !routes_to(x, cluster_id@)),
{
    let mut out: Vec<Rule> = Vec::new();
    let mut i: usize = 0;
    while i < rules.len()
        invariant
            i <= rules@.len(),
            out@ == rules@.subrange(0, i as int).filter(|x: Rule| !routes_to(x, cluster_id@)),
        decreases rules.len() - i,
    {
        let hit = match &rules[i].route {
            Route::ClusterId(id) => str_eq(id.as_str(), cluster_id),
            Route::Deny => false,
        };
        proof {
            let f = |x: Rule| !routes_to(x, cluster_id@);
            assert(rules@.subrange(0, i + 1) =~= rules@.subrange(0, i as int).push(rules@[i as int]));
            rules@.subrange(0, i as int).lemma_filter_push(rules@[i as int], f);
        }
        if !hit {
            out.push(rules[i].clone_rule());
        }
        i = i + 1;
    }
    assert(rules@.subrange(0, rules@.len() as int) =~= rules@);
    out
}

/// Position of the first rule that accepts the request.
fn find_first(rules: &Vec<Rule>, host: &str, path: &str, method: &Method) -> (r: Option<usize>)
    ensures
        r is None <==> first_match(rules@, host@, path@, *method, 0) is None,
        r matches Some(i) ==> i < rules@.len() && first_match(rules@, host@, path@, *method, 0) == Some(i as int),
{
    let mut i: usize = 0;
    while i < rules.len()
        invariant
            i <= rules@.len(),
            first_match(rules@, host@, path@, *method, 0) == first_match(rules@, host@, path@, *method, i as int),
        decreases rules.len() - i,
    {
        if matches(&rules[i], host, path, method) {
            return Some(i);
        }
        i = i + 1;
    }
    None
}

/// Position of the most specific rule that accepts the request, the earliest
/// among equals.
fn find_best(rules: &Vec<Rule>, host: &str, path: &str, method: &Method) -> (r: Option<usize>)
    ensures
        r is None <==> best_match(rules@, host@, path@, *method, rules@.len() as int) is None,
        r matches Some(i) ==> i < rules@.len() && best_match(rules@, host@, path@, *method, rules@.len() as int) == Some(
            i as int,
        ),
{
    let mut best: Option<usize> = None;
    let mut i: usize = 0;
    while i < rules.len()
        invariant
            i <= rules@.len(),
            best is None <==> best_match(rules@, host@, path@, *method, i as int) is None,
            best matches Some(j) ==> j < i && best_match(rules@, host@, path@, *method, i as int) == Some(j as int),
        decreases rules.len() - i,
    {
        proof {
            lemma_best_match_bound(rules@, host@, path@, *method, i as int);
        }
        if matches(&rules[i], host, path, method) {
            let better = match best {
                None => true,
                Some(b) => is_more_specific(&rules[i], &rules[b]),
            };
            if better {
                best = Some(i);
            }
        }
        i = i + 1;
    }
    best
}

/// The `Tree` rule that the router takes is a matching rule than which no
/// matching rule is more specific, and there is one as soon as any rule matches.
pub proof fn lemma_tree_most_specific(rules: Seq<Rule>, host: Seq<char>, path: Seq<char>, method: Method, k: int)
    requires
        0 <= k <= rules.len(),
    ensures
        best_match(rules, host, path, method, k) is None <==> forall|i: int|
            0 <= i < k ==> !rule_matches(#[trigger] rules[i], host, path, method),
        best_match(rules, host, path, method, k) matches Some(j) ==> {
            &&& 0 <= j < k
            &&& rule_matches(rules[j], host, path, method)
            &&& forall|i: int|
                0 <= i < k && rule_matches(#[trigger] rules[i], host, path, method) ==> !more_specific(
                    rules[i],
                    rules[j],
                )
        },
    decreases k,
{
    if k > 0 {
        lemma_tree_most_specific(rules, host, path, method, k - 1);
    }
}

/// A matching `Pre` rule decides the route: the first one that matches,
/// whatever the `Tree` and `Post` rules say.
pub proof fn lemma_pre_rule_wins(router: Router, host: Seq<char>, path: Seq<char>, method: Method, i: int)
    requires
        0 <= i < router.pre@.len(),
        rule_matches(router.pre@[i], host, path, method),
        forall|j: int| 0 <= j < i ==> !rule_matches(#[trigger] router.pre@[j], host, path, method),
    ensures
        router.route_for(host, path, method) == Ok::<Route, RouterError>(router.pre@[i].route),
{
    lemma_first_match_is(router.pre@, host, path, method, 0, i);
}

proof fn lemma_first_match_is(rules: Seq<Rule>, host: Seq<char>, path: Seq<char>, method: Method, k: int, i: int)
    requires
        0 <= k <= i < rules.len(),
        rule_matches(rules[i], host, path, method),
        forall|j: int| 0 <= j < i ==> !rule_matches(#[trigger] rules[j], host, path, method),
    ensures
        first_match(rules, host, path, method, k) == Some(i),
    decreases i - k,
{
    if k < i {
        lemma_first_match_is(rules, host, path, method, k + 1, i);
    }
}

/// Among `Tree` rules, when no `Pre` rule matches, a request under a longer
/// prefix is never routed by a rule of a shorter prefix for the same host
/// condition, whatever their order: the route is that of a matching rule no
/// less specific than the longer one.
pub proof fn lemma_longer_prefix_wins(router: Router, host: Seq<char>, path: Seq<char>, method: Method, a: int, b: int)
    requires
        first_match(router.pre@, host, path, method, 0) is None,
        0 <= a < router.tree@.len(),
        0 <= b < router.tree@.len(),
        rule_matches(router.tree@[a], host, path, method),
        rule_matches(router.tree@[b], host, path, method),
        router.tree@[a].path is Prefix,
        router.tree@[b].path is Prefix,
        domain_rank(router.tree@[a].domain) == domain_rank(router.tree@[b].domain),
        prefix_len(router.tree@[a].path) > prefix_len(router.tree@[b].path),
    ensures
        best_match(router.tree@, host, path, method, router.tree@.len() as int) matches Some(j) && j != b
            && !more_specific(router.tree@[a], router.tree@[j])
            && router.route_for(host, path, method) == Ok::<Route, RouterError>(router.tree@[j].route),
{
    lemma_tree_most_specific(router.tree@, host, path, method, router.tree@.len() as int);
}

proof fn lemma_best_match_bound(rules: Seq<Rule>, host: Seq<char>, path: Seq<char>, method: Method, k: int)
    ensures
        best_match(rules, host, path, method, k) matches Some(j) ==> 0 <= j < k,
    decreases k,
{
    if k > 0 {
        lemma_best_match_bound(rules, host, path, method, k - 1);
    }
}

fn is_more_specific(a: &Rule, b: &Rule) -> (r: bool)
    ensures
        r == more_specific(*a, *b),
{
    let da: u8 = match &a.domain {
        DomainRule::Exact(_) => 2,
        DomainRule::Wildcard(_) => 1,
        DomainRule::Any => 0,
    };
    let db: u8 = match &b.domain {
        DomainRule::Exact(_) => 2,
        DomainRule::Wildcard(_) => 1,
        DomainRule::Any => 0,
    };
    let pa: u8 = match &a.path {
        PathRule::Equals(_) => 2,
        PathRule::Prefix(_) => 1,
        PathRule::Regex(_) => 0,
    };
    let pb: u8 = match &b.path {
        PathRule::Equals(_) => 2,
        PathRule::Prefix(_) => 1,
        PathRule::Regex(_) => 0,
    };
    let la: usize = match &a.path {
        PathRule::Prefix(x) => x.as_str().unicode_len(),
        _ => 0,
    };
    let lb: usize = match &b.path {
        PathRule::Prefix(x) => x.as_str().unicode_len(),
        _ => 0,
    };
    da > db || (da == db && pa > pb) || (da == db && pa == pb && la > lb)
}

proof fn lemma_no_dot_push(s: Seq<char>, c: char)
    ensures
        no_dot(s.push(c)) == (no_dot(s) && c != '.'),
{
    if no_dot(s.push(c)) {
        assert(s.push(c)[s.len() as int] == c);
        assert forall|j: int| 0 <= j < s.len() implies s[j] != '.' by {
            assert(s.push(c)[j] == s[j]);
        }
    }
}

/// Whether the rule accepts the request.
pub fn matches(rule: &Rule, host: &str, path: &str, method: &Method) -> (r: bool)
    ensures
        r == rule_matches(*rule, host@, path@, *method),
{
    let domain_ok = match &rule.domain {
        DomainRule::Any => true,
        DomainRule::Exact(h) => str_eq(host, h.as_str()),
        DomainRule::Wildcard(suffix) => {
            let n = host.unicode_len();
            let m = suffix.as_str().unicode_len();
            if n > m && ends_with(host, suffix.as_str()) {
                let mut i: usize = 0;
                let mut ok = true;
                while i < n - m
                    invariant
                        n == host@.len(),
                        m == suffix@.len(),
                        n > m,
                        i <= n - m,
                        ok == no_dot(host@.subrange(0, i as int)),
                    decreases n - m - i,
                {
                    if host.get_char(i) == '.' {
                        ok = false;
                    }
                    proof {
                        lemma_no_dot_push(host@.subrange(0, i as int), host@[i as int]);
                        assert(host@.subrange(0, i + 1) =~= host@.subrange(0, i as int).push(host@[i as int]));
                    }
                    i = i + 1;
                }
                ok
            } else {
                false
            }
        },
    };
    if !domain_ok {
        return false;
    }
    let path_ok = match &rule.path {
        PathRule::Prefix(x) => starts_with(path, x.as_str()),
        PathRule::Regex(x) => regex_is_match(x.as_str(), path),
        PathRule::Equals(x) => str_eq(path, x.as_str()),
    };
    if !path_ok {
        return false;
    }
    match &rule.method {
        MethodRule::Any => true,
        MethodRule::Is(m) => m.is_same(method),
    }
}

} // verus!
