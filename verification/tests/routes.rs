use cinnog::datalayer::{Component, Datalayer, EntityCommands};
use cinnog::static_routes::{
    build_static_routes_with_world, parse_static_path, resolve_route, resolve_static_routes,
    write_plan, CollisionPolicy, ConcretePath, ParamBinding, RouteProducer, Segment,
    StaticDataMap, StaticParamsMap, WriteFaultPolicy,
};
use cinnog::systems::LabelsForMarker;
use cinnog::{default_bundle_from_path, FileName, FilePath};

fn strings(values: &[&str]) -> Vec<String> {
    values.iter().map(|v| v.to_string()).collect()
}

#[test]
fn parse_pattern_classifies_segments() {
    let segments = parse_static_path("/cat/:category/:slug");
    assert_eq!(segments.len(), 3);
    assert!(matches!(&segments[0], Segment::Literal(s) if s == "cat"));
    assert!(matches!(&segments[1], Segment::Dynamic(s) if s == "category"));
    assert!(matches!(&segments[2], Segment::Dynamic(s) if s == "slug"));
}

#[test]
fn parse_pattern_star_is_dynamic() {
    let segments = parse_static_path("/person/*person");
    assert_eq!(segments.len(), 2);
    assert!(matches!(&segments[0], Segment::Literal(s) if s == "person"));
    assert!(matches!(&segments[1], Segment::Dynamic(s) if s == "person"));
}

#[test]
fn parse_root_pattern_is_empty() {
    assert_eq!(parse_static_path("/").len(), 0);
    assert_eq!(parse_static_path("").len(), 0);
}

#[test]
fn params_map_insert_and_get() {
    let mut params = StaticParamsMap::new();
    params.insert("id".to_string(), strings(&["1", "2"]));
    assert_eq!(params.get("id"), Some(strings(&["1", "2"])));
    assert_eq!(params.get("other"), None);
    params.insert("id".to_string(), strings(&["3"]));
    assert_eq!(params.get("id"), Some(strings(&["3"])));
    assert_eq!(params.len(), 1);
}

#[test]
fn add_params_overrides_per_name() {
    let mut base = StaticParamsMap::new();
    base.insert("a".to_string(), strings(&["1"]));
    base.insert("b".to_string(), strings(&["2"]));
    let mut over = StaticParamsMap::new();
    over.insert("b".to_string(), strings(&["9"]));
    over.insert("c".to_string(), strings(&["3"]));
    base.add_params(&over);
    assert_eq!(base.get("a"), Some(strings(&["1"])));
    assert_eq!(base.get("b"), Some(strings(&["9"])));
    assert_eq!(base.get("c"), Some(strings(&["3"])));
}

#[test]
fn root_without_dynamic_segments_yields_one_path() {
    let data = StaticDataMap::new();
    let paths = resolve_route("/", &data);
    assert_eq!(paths.len(), 1);
    assert_eq!(paths[0].path_string(), "/");
    assert!(paths[0].bindings.is_empty());
}

#[test]
fn three_item_values_yield_three_paths() {
    let mut params = StaticParamsMap::new();
    params.insert("id".to_string(), strings(&["1", "2", "3"]));
    let mut data = StaticDataMap::new();
    data.insert("/item/:id".to_string(), params);
    let paths = resolve_route("/item/:id", &data);
    assert_eq!(paths.len(), 3);
    let rendered: Vec<String> = paths.iter().map(|p| p.path_string()).collect();
    assert_eq!(rendered, strings(&["/item/1", "/item/2", "/item/3"]));
    for (i, expected) in ["1", "2", "3"].iter().enumerate() {
        assert_eq!(paths[i].bindings.len(), 1);
        assert_eq!(paths[i].bindings[0].name, "id");
        assert_eq!(paths[i].bindings[0].value, *expected);
    }
}

#[test]
fn child_inherits_parent_bindings() {
    let mut parent = StaticParamsMap::new();
    parent.insert("category".to_string(), strings(&["a", "b"]));
    let mut child = StaticParamsMap::new();
    child.insert("slug".to_string(), strings(&["x"]));
    let mut data = StaticDataMap::new();
    data.insert("/cat/:category".to_string(), parent);
    data.insert("/cat/:category/:slug".to_string(), child);
    let paths = resolve_route("/cat/:category/:slug", &data);
    let rendered: Vec<String> = paths.iter().map(|p| p.path_string()).collect();
    assert_eq!(rendered, strings(&["/cat/a/x", "/cat/b/x"]));
    assert_eq!(paths[0].bindings.len(), 2);
    assert_eq!(paths[0].bindings[0].name, "category");
    assert_eq!(paths[0].bindings[0].value, "a");
    assert_eq!(paths[0].bindings[1].name, "slug");
    assert_eq!(paths[0].bindings[1].value, "x");
}

#[test]
fn empty_value_set_suppresses_the_whole_subtree() {
    let mut parent = StaticParamsMap::new();
    parent.insert("category".to_string(), strings(&["a", "b"]));
    let mut child = StaticParamsMap::new();
    child.insert("slug".to_string(), strings(&[]));
    let mut data = StaticDataMap::new();
    data.insert("/cat/:category".to_string(), parent);
    data.insert("/cat/:category/:slug".to_string(), child);
    let paths = resolve_route("/cat/:category/:slug", &data);
    assert_eq!(paths.len(), 0);
    // The parent route itself still expands.
    assert_eq!(resolve_route("/cat/:category", &data).len(), 2);
}

#[test]
fn unbound_dynamic_segment_yields_no_paths() {
    let data = StaticDataMap::new();
    assert_eq!(resolve_route("/item/:id", &data).len(), 0);
}

#[test]
fn path_count_is_product_of_cardinalities() {
    let mut params = StaticParamsMap::new();
    params.insert("a".to_string(), strings(&["1", "2", "3"]));
    params.insert("b".to_string(), strings(&["x", "y"]));
    let mut data = StaticDataMap::new();
    data.insert("/m/:a/:b".to_string(), params);
    let paths = resolve_route("/m/:a/:b", &data);
    assert_eq!(paths.len(), 6);
    // Names iterate before values: the first segment varies slowest.
    let rendered: Vec<String> = paths.iter().map(|p| p.path_string()).collect();
    assert_eq!(
        rendered,
        strings(&["/m/1/x", "/m/1/y", "/m/2/x", "/m/2/y", "/m/3/x", "/m/3/y"])
    );
}

#[test]
fn resolve_all_routes_in_route_order() {
    let mut params = StaticParamsMap::new();
    params.insert("id".to_string(), strings(&["1", "2"]));
    let mut data = StaticDataMap::new();
    data.insert("/item/:id".to_string(), params);
    let routes = strings(&["/", "/item/:id"]);
    let paths = resolve_static_routes(&routes, &data);
    let rendered: Vec<String> = paths.iter().map(|p| p.path_string()).collect();
    assert_eq!(rendered, strings(&["/", "/item/1", "/item/2"]));
}

#[test]
fn two_builds_produce_identical_output_sets() {
    let mut params = StaticParamsMap::new();
    params.insert("id".to_string(), strings(&["1", "2"]));
    let mut data = StaticDataMap::new();
    data.insert("/item/:id".to_string(), params);
    let routes = strings(&["/", "/item/:id"]);
    let first: Vec<String> = resolve_static_routes(&routes, &data)
        .iter()
        .map(|p| p.output_file())
        .collect();
    let second: Vec<String> = resolve_static_routes(&routes, &data)
        .iter()
        .map(|p| p.output_file())
        .collect();
    assert_eq!(first, second);
}

#[test]
fn output_files_mirror_paths() {
    let page = ConcretePath { segments: strings(&["item", "1"]), bindings: vec![] };
    assert_eq!(page.path_string(), "/item/1");
    assert_eq!(page.output_file(), "item/1/index.html");

    let root = ConcretePath { segments: vec![], bindings: vec![] };
    assert_eq!(root.path_string(), "/");
    assert_eq!(root.output_file(), "index.html");

    let asset = ConcretePath { segments: strings(&["style.css"]), bindings: vec![] };
    assert_eq!(asset.path_string(), "/style.css");
    assert_eq!(asset.output_file(), "style.css");
}

#[test]
fn producer_labels_expand_person_routes() {
    let mut data = Datalayer::new();
    let mut valentin = EntityCommands::new();
    valentin.insert(Component::Label("valentin".to_string()));
    valentin.insert(Component::Marker(1));
    data.spawn(valentin);
    let mut stephan = EntityCommands::new();
    stephan.insert(Component::Label("stephan".to_string()));
    stephan.insert(Component::Marker(1));
    data.spawn(stephan);
    let mut unmarked = EntityCommands::new();
    unmarked.insert(Component::Label("nobody".to_string()));
    data.spawn(unmarked);

    let routes = strings(&["/", "/person/:person"]);
    let producers = vec![
        RouteProducer { path: "/".to_string(), producer: None },
        RouteProducer {
            path: "/person/:person".to_string(),
            producer: Some(LabelsForMarker { name: "person".to_string(), marker: 1 }),
        },
    ];
    let paths = build_static_routes_with_world(&mut data, &routes, producers);
    let rendered: Vec<String> = paths.iter().map(|p| p.path_string()).collect();
    assert_eq!(rendered, strings(&["/", "/person/valentin", "/person/stephan"]));
}

#[test]
fn default_bundle_strips_last_extension_only() {
    let (name, path) = default_bundle_from_path("content/posts/hello.md");
    let FileName(name) = name;
    let FilePath(path) = path;
    assert_eq!(name, "hello");
    assert_eq!(path, "content/posts/hello.md");

    let (FileName(name), _) = default_bundle_from_path("archive.tar.gz");
    assert_eq!(name, "archive.tar");

    let (FileName(name), _) = default_bundle_from_path("dir/plain");
    assert_eq!(name, "plain");

    let (FileName(name), _) = default_bundle_from_path("/home/.bashrc");
    assert_eq!(name, ".bashrc");
}

#[test]
fn descendant_binding_overrides_ancestor() {
    let mut parent = StaticParamsMap::new();
    parent.insert("x".to_string(), strings(&["parent"]));
    let mut child = StaticParamsMap::new();
    child.insert("x".to_string(), strings(&["child"]));
    let mut data = StaticDataMap::new();
    data.insert("/a".to_string(), parent);
    data.insert("/a/:x".to_string(), child);
    let paths = resolve_route("/a/:x", &data);
    let rendered: Vec<String> = paths.iter().map(|p| p.path_string()).collect();
    assert_eq!(rendered, strings(&["/a/child"]));
}

#[test]
fn colliding_outputs_resolve_by_policy() {
    let first = ConcretePath {
        segments: strings(&["item", "1"]),
        bindings: vec![ParamBinding {
            name: "id".to_string(),
            value: "first".to_string(),
        }],
    };
    let second = ConcretePath {
        segments: strings(&["item", "1"]),
        bindings: vec![ParamBinding {
            name: "id".to_string(),
            value: "second".to_string(),
        }],
    };
    let other = ConcretePath { segments: strings(&["about"]), bindings: vec![] };
    let paths = vec![first, other, second];

    let last_wins = write_plan(&paths, CollisionPolicy::LastWins);
    assert_eq!(last_wins.len(), 2);
    assert_eq!(last_wins[0].output_file(), "item/1/index.html");
    assert_eq!(last_wins[0].bindings[0].value, "second");
    assert_eq!(last_wins[1].output_file(), "about/index.html");

    let first_wins = write_plan(&paths, CollisionPolicy::FirstWins);
    assert_eq!(first_wins.len(), 2);
    assert_eq!(first_wins[0].bindings[0].value, "first");
}

#[test]
fn write_fault_policy_decides_continuation() {
    assert!(!WriteFaultPolicy::AbortOnFirstFault.continues_after_fault());
    assert!(WriteFaultPolicy::ContinueOnFault.continues_after_fault());
}
