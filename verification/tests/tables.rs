use path_router::params::ParamMap;
use path_router::pattern::{Pattern, PatternError};
use path_router::table::{build_router, recognize_with_router, BuildError, MissingFallback, RouteTable};

#[derive(Debug, PartialEq, Eq, Clone, Copy)]
enum Route {
    Home,
    About,
    NewUser,
    User,
    Files,
    NotFound,
}

fn pairs(params: &ParamMap) -> Vec<(String, String)> {
    params
        .entries()
        .iter()
        .map(|p| (p.name.clone(), p.value.clone()))
        .collect()
}

fn pair(name: &str, value: &str) -> (String, String) {
    (name.to_string(), value.to_string())
}

fn found(table: &RouteTable<Route>, path: &str) -> Option<(Route, Vec<(String, String)>)> {
    table.recognize(path).map(|(route, params)| (*route, pairs(&params)))
}

fn site() -> RouteTable<Route> {
    build_router(
        vec![
            ("/", Route::Home),
            ("/about", Route::About),
            ("/user/new", Route::NewUser),
            ("/user/:id", Route::User),
            ("/files/*rest", Route::Files),
        ],
        None,
        Some(Route::NotFound),
    )
    .unwrap()
}

#[test]
fn first_declared_route_wins() {
    let table = build_router(
        vec![("/user/new", Route::NewUser), ("/user/:id", Route::User)],
        None,
        None,
    )
    .unwrap();
    assert_eq!(found(&table, "/user/new"), Some((Route::NewUser, vec![])));
    assert_eq!(found(&table, "/user/7"), Some((Route::User, vec![pair("id", "7")])));
}

#[test]
fn dynamic_route_declared_first_shadows_a_literal_one() {
    let table = build_router(
        vec![("/user/:id", Route::User), ("/user/new", Route::NewUser)],
        None,
        None,
    )
    .unwrap();
    assert_eq!(found(&table, "/user/new"), Some((Route::User, vec![pair("id", "new")])));
}

#[test]
fn first_of_two_equal_patterns_wins() {
    let table = build_router(vec![("/about", Route::About), ("/about/", Route::Home)], None, None)
        .unwrap();
    assert_eq!(found(&table, "/about"), Some((Route::About, vec![])));
}

#[test]
fn base_prefix_is_required_and_taken_off() {
    let table = build_router(vec![("/about", Route::About)], Some("/app".to_string()), None)
        .unwrap();
    assert_eq!(found(&table, "/app/about"), Some((Route::About, vec![])));
    assert_eq!(found(&table, "/about"), None);
    assert_eq!(found(&table, "/app/about/"), Some((Route::About, vec![])));
    assert_eq!(found(&table, "/other/about"), None);
    assert_eq!(found(&table, "/ap"), None);
    assert_eq!(found(&table, ""), None);
}

#[test]
fn base_prefix_alone_is_the_root() {
    let table = build_router(
        vec![("/", Route::Home), ("/about", Route::About)],
        Some("/app".to_string()),
        None,
    )
    .unwrap();
    assert_eq!(found(&table, "/app"), Some((Route::Home, vec![])));
    assert_eq!(found(&table, "/app/"), Some((Route::Home, vec![])));
    assert_eq!(found(&table, "/"), None);
}

#[test]
fn empty_base_prefix_is_carried_by_every_path() {
    let table = build_router(vec![("/about", Route::About)], Some(String::new()), None).unwrap();
    assert_eq!(found(&table, "/about"), Some((Route::About, vec![])));
}

#[test]
fn recognize_normalises_one_trailing_separator() {
    let table = site();
    assert_eq!(found(&table, "/about"), found(&table, "/about/"));
    assert_eq!(found(&table, "/about"), Some((Route::About, vec![])));
    assert_eq!(found(&table, "/about//"), None);
    assert_eq!(found(&table, "/user/7/"), Some((Route::User, vec![pair("id", "7")])));
}

#[test]
fn recognize_returns_nothing_when_no_pattern_accepts() {
    let table = site();
    assert_eq!(found(&table, "/missing"), None);
    assert_eq!(found(&table, "/about/us"), None);
    assert_eq!(found(&table, "/user"), None);
}

#[test]
fn recognize_binds_wildcards() {
    let table = site();
    assert_eq!(
        found(&table, "/files/a/b/c"),
        Some((Route::Files, vec![pair("rest", "a/b/c")]))
    );
    assert_eq!(found(&table, "/files"), Some((Route::Files, vec![pair("rest", "")])));
}

#[test]
fn recognize_twice_gives_the_same_result() {
    let table = site();
    for path in ["/", "/about", "/user/new", "/user/12", "/files/x/y", "/nowhere"] {
        assert_eq!(found(&table, path), found(&table, path));
    }
}

#[test]
fn literal_routes_are_recognised_under_their_own_text() {
    let declared = vec![
        ("/", Route::Home),
        ("/about", Route::About),
        ("/user/new", Route::NewUser),
        ("/user/:id", Route::User),
    ];
    let table = build_router(declared.clone(), None, None).unwrap();
    for (text, route) in declared {
        if !text.contains(':') {
            assert_eq!(found(&table, text), Some((route, vec![])));
        }
    }
}

#[test]
fn literal_routes_are_recognised_behind_the_base_prefix() {
    let table = build_router(
        vec![("/about", Route::About), ("/user/new", Route::NewUser)],
        Some("/app".to_string()),
        None,
    )
    .unwrap();
    assert_eq!(found(&table, "/app/about"), Some((Route::About, vec![])));
    assert_eq!(found(&table, "/app/user/new"), Some((Route::NewUser, vec![])));
}

#[test]
fn build_fails_on_two_wildcards() {
    let built = build_router(vec![("/files/*a/*b", Route::Files)], None, None);
    assert_eq!(
        built.err(),
        Some(BuildError { index: 0, reason: PatternError::MisplacedWildcard })
    );
}

#[test]
fn build_fails_on_the_first_malformed_pattern() {
    let built = build_router(
        vec![
            ("/about", Route::About),
            ("/user/:", Route::User),
            ("/files/*rest/x", Route::Files),
        ],
        None,
        Some(Route::NotFound),
    );
    assert_eq!(built.err(), Some(BuildError { index: 1, reason: PatternError::EmptyName }));
}

#[test]
fn build_fails_on_a_name_bound_twice() {
    let built = build_router(
        vec![("/", Route::Home), ("/about", Route::About), ("/:id/x/:id", Route::User)],
        None,
        None,
    );
    assert_eq!(built.err(), Some(BuildError { index: 2, reason: PatternError::DuplicateName }));
}

#[test]
fn build_keeps_the_declarations_in_order() {
    let table = site();
    assert_eq!(table.len(), 5);
    let (pattern, route) = table.entry(3).unwrap();
    assert_eq!(pattern, &Pattern::parse("/user/:id").unwrap());
    assert_eq!(route, &Route::User);
    let (first, home) = table.entry(0).unwrap();
    assert!(first.segments().is_empty());
    assert_eq!(home, &Route::Home);
    assert!(table.entry(5).is_none());
}

#[test]
fn build_of_no_declaration_recognises_nothing() {
    let table: RouteTable<Route> = build_router(vec![], None, None).unwrap();
    assert_eq!(table.len(), 0);
    assert_eq!(found(&table, "/"), None);
    assert!(table.entry(0).is_none());
}

#[test]
fn table_keeps_base_and_fallback() {
    let table = build_router(
        vec![("/about", Route::About)],
        Some("/app".to_string()),
        Some(Route::NotFound),
    )
    .unwrap();
    assert_eq!(table.base(), Some(&"/app".to_string()));
    assert_eq!(table.fallback(), Some(&Route::NotFound));
    let bare = build_router(vec![("/about", Route::About)], None, None).unwrap();
    assert_eq!(bare.base(), None);
    assert_eq!(bare.fallback(), None);
}

#[test]
fn resolve_returns_the_recognised_route() {
    let table = site();
    let (route, params) = table.resolve_or_fallback("/user/42").unwrap();
    assert_eq!(route, &Route::User);
    assert_eq!(pairs(&params), vec![pair("id", "42")]);
}

#[test]
fn resolve_falls_back_without_bindings() {
    let table = site();
    let (route, params) = table.resolve_or_fallback("/missing/page").unwrap();
    assert_eq!(route, &Route::NotFound);
    assert!(params.is_empty());
}

#[test]
fn resolve_falls_back_when_the_base_prefix_is_missing() {
    let table = build_router(
        vec![("/about", Route::About)],
        Some("/app".to_string()),
        Some(Route::NotFound),
    )
    .unwrap();
    let (route, params) = table.resolve_or_fallback("/about").unwrap();
    assert_eq!(route, &Route::NotFound);
    assert!(params.is_empty());
}

#[test]
fn resolve_without_fallback_is_an_error() {
    let table = build_router(vec![("/about", Route::About)], None, None).unwrap();
    assert_eq!(table.resolve_or_fallback("/missing").err(), Some(MissingFallback));
    let (route, _) = table.resolve_or_fallback("/about").unwrap();
    assert_eq!(route, &Route::About);
}

#[test]
fn recognize_with_router_resolves_or_gives_nothing() {
    let table = site();
    let (route, params) = recognize_with_router(&table, "/user/5/").unwrap();
    assert_eq!(route, &Route::User);
    assert_eq!(pairs(&params), vec![pair("id", "5")]);
    let (fallback, none) = recognize_with_router(&table, "/nowhere").unwrap();
    assert_eq!(fallback, &Route::NotFound);
    assert!(none.is_empty());
    let bare = build_router(vec![("/about", Route::About)], None, None).unwrap();
    assert!(recognize_with_router(&bare, "/nowhere").is_none());
    assert_eq!(recognize_with_router(&bare, "/about").map(|(r, _)| *r), Some(Route::About));
}

#[test]
fn routes_need_no_particular_type() {
    let table = build_router(
        vec![("/a", "first".to_string()), ("/:x", "second".to_string())],
        None,
        None,
    )
    .unwrap();
    let (route, _) = table.recognize("/a").unwrap();
    assert_eq!(route, "first");
    let (route, params) = table.recognize("/b").unwrap();
    assert_eq!(route, "second");
    assert_eq!(params.get("x"), Some(&"b".to_string()));
}
