use wayfinder::parse;
use wayfinder::{Header, Method, NestedRoutes, Param, PathSegment, Resource, RouteConfig, Routes};

fn res(method: Method, modules: Vec<&str>, name: &str, is_redirect: bool, qps: Vec<Param>) -> Resource {
    Resource {
        method,
        modules: modules.into_iter().map(|m| m.to_string()).collect(),
        name: name.to_string(),
        is_redirect,
        query_parameters: qps,
    }
}

#[test]
fn tests_test_method_parse() {
    let cases = vec![
        (Method::Get, "GET"),
        (Method::Post, "POST"),
        (Method::Put, "PUT"),
        (Method::Delete, "DELETE"),
    ];
    for (expected, text) in cases.into_iter() {
        let (j, m) = parse::method(text.as_bytes(), 0).unwrap();
        assert_eq!(m, expected);
        assert_eq!(j, text.len());
    }
}

#[test]
fn lib_test_method_parse() {
    let cases = vec![(Method::Get, "get"), (Method::Post, "Post"), (Method::Put, "PUT"), (Method::Delete, "delete")];
    for (expected, text) in cases.into_iter() {
        let (j, m) = parse::method(text.as_bytes(), 0).unwrap();
        assert_eq!(m, expected);
        assert_eq!(j, text.len());
    }
}

fn get_param_cases() -> Vec<(Param, &'static str)> {
    vec![
        (Param::new("id", "Uuid"), "id: Uuid"),
        (Param::new("x", "isize"), "x: isize"),
        (Param::new("name", "String"), "name: String"),
    ]
}

#[test]
fn tests_test_param_parse() {
    for (expected, text) in get_param_cases().into_iter() {
        let (j, p) = parse::param(text.as_bytes(), 0).unwrap();
        assert_eq!(p, expected);
        assert_eq!(j, text.len());
    }
}

#[test]
fn lib_test_param_parse() {
    for (expected, text) in get_param_cases().into_iter() {
        let (j, p) = parse::param(text.as_bytes(), 0).unwrap();
        assert_eq!(p, expected);
        assert_eq!(j, text.len());
    }
}

#[test]
fn tests_test_path_segment_static_parse() {
    for (expected, text) in vec![
        (PathSegment::from_static("people"), "people"),
        (PathSegment::from_static("accounts"), "accounts"),
        (PathSegment::from_static("posts"), "posts"),
    ]
    .into_iter()
    {
        let text = format!("  {}", text);
        let (j, s) = parse::path_segment(text.as_bytes(), 0, 1).unwrap();
        assert_eq!(s, expected);
        assert_eq!(j, text.len());
    }
}

#[test]
fn lib_test_path_segment_static_parse() {
    let text = "  people";
    let (j, s) = parse::path_segment(text.as_bytes(), 0, 1).unwrap();
    assert_eq!(s, PathSegment::from_static("people"));
    assert_eq!(j, text.len());
}

#[test]
fn tests_test_path_segment_dynamic_parse() {
    for (param, text) in get_param_cases().into_iter() {
        let text = format!("  {{{}}}", text);
        let expected = PathSegment::from_param(param);
        let (j, s) = parse::path_segment(text.as_bytes(), 0, 1).unwrap();
        assert_eq!(s, expected);
        assert_eq!(j, text.len());
    }
}

#[test]
fn lib_test_path_segment_dynamic_parse() {
    let text = "  {id: Uuid}";
    let (j, s) = parse::path_segment(text.as_bytes(), 0, 1).unwrap();
    assert_eq!(s, PathSegment::from_param(Param::new("id", "Uuid")));
    assert_eq!(j, text.len());
}

#[test]
fn tests_test_query_parameter_parse() {
    for (expected, text) in get_param_cases().into_iter() {
        let text = format!("  [{}]", text);
        let (j, p) = parse::query_parameter(text.as_bytes(), 0, 1).unwrap();
        assert_eq!(p, expected);
        assert_eq!(j, text.len());
    }
}

#[test]
fn lib_test_query_parameter_parse() {
    for (expected, text) in get_param_cases().into_iter() {
        let text = format!("  [{}]", text);
        let (j, p) = parse::query_parameter(text.as_bytes(), 0, 1).unwrap();
        assert_eq!(p, expected);
        assert_eq!(j, text.len());
    }
}

#[test]
fn tests_test_resource_parse() {
    let cases = vec![
        (res(Method::Get, vec![], "person", false, vec![]), "GET person\n"),
        (res(Method::Get, vec![], "person", true, vec![]), "GET -> person\n"),
        (
            res(Method::Get, vec![], "person", false, vec![Param::new("id", "usize")]),
            "GET person\n  [id: usize]\n",
        ),
    ];
    for (expected, text) in cases.into_iter() {
        let text = str::replace(text, "\n", "\n  ");
        let text = format!("  {}", text);
        let (j, r) = parse::resource(text.as_bytes(), 0, 1).unwrap();
        assert_eq!(r, expected);
        assert_eq!(&text[j..], "  ");
    }
}

#[test]
fn lib_test_resource_parse() {
    let cases = vec![
        (res(Method::Get, vec!["person"], "show", false, vec![]), "GET person::show\n"),
        (res(Method::Get, vec!["person"], "show", true, vec![]), "GET -> person::show\n"),
        (
            res(Method::Get, vec!["person"], "show", false, vec![Param::new("id", "usize")]),
            "GET person::show\n  [id: usize]\n",
        ),
        (res(Method::Get, vec![], "index", false, vec![]), "GET index\n"),
        (
            res(Method::Get, vec!["admin", "person"], "show", false, vec![]),
            "GET admin::person::show\n",
        ),
    ];
    for (expected, text) in cases.into_iter() {
        let text = str::replace(text, "\n", "\n  ");
        let text = format!("  {}", text);
        let (j, r) = parse::resource(text.as_bytes(), 0, 1).unwrap();
        assert_eq!(r, expected);
        assert_eq!(&text[j..], "  ");
    }
}

fn get_routes_cases() -> Vec<(Routes, &'static str)> {
    vec![
        (
            Routes {
                resources: vec![
                    res(Method::Get, vec!["People"], "Index", false, vec![]),
                    res(Method::Post, vec!["People"], "New", false, vec![]),
                ],
                routes: vec![],
                query_parameters: vec![],
            },
            "GET People::Index\nPOST People::New\n",
        ),
        (
            Routes {
                resources: vec![res(Method::Get, vec!["People"], "Index", false, vec![])],
                routes: vec![],
                query_parameters: vec![Param::new("lang", "String")],
            },
            "[lang: String]\nGET People::Index\n",
        ),
        (
            Routes {
                resources: vec![res(Method::Get, vec!["People"], "Index", false, vec![])],
                routes: vec![NestedRoutes {
                    path_segment: PathSegment::from_param(Param::new("id", "Uuid")),
                    routes: Routes {
                        resources: vec![res(Method::Get, vec!["People"], "Show", false, vec![])],
                        routes: vec![],
                        query_parameters: vec![],
                    },
                }],
                query_parameters: vec![],
            },
            "GET People::Index\n{id: Uuid}\n  GET People::Show\n",
        ),
    ]
}

#[test]
fn tests_test_routes_parse() {
    for (expected, text) in get_routes_cases().into_iter() {
        let text = str::replace(text, "\n", "\n  ");
        let text = format!("  {}", text);
        let (j, r) = parse::routes(text.as_bytes(), 0, 1).unwrap();
        assert_eq!(r, expected);
        assert_eq!(&text[j..], "  ");
    }
}

#[test]
fn lib_test_routes_parse() {
    for (expected, text) in get_routes_cases().into_iter() {
        let text = str::replace(text, "\n", "\n  ");
        let text = format!("  {}", text);
        let (j, r) = parse::routes(text.as_bytes(), 0, 1).unwrap();
        assert_eq!(r, expected);
        assert_eq!(&text[j..], "  ");
    }
}

fn get_nested_routes_cases() -> Vec<(NestedRoutes, &'static str)> {
    vec![
        (
            NestedRoutes {
                path_segment: PathSegment::from_static("people"),
                routes: Routes {
                    resources: vec![res(Method::Get, vec!["People"], "Index", false, vec![])],
                    routes: vec![],
                    query_parameters: vec![],
                },
            },
            "people\n  GET People::Index\n",
        ),
        (
            NestedRoutes {
                path_segment: PathSegment::from_param(Param::new("id", "Uuid")),
                routes: Routes {
                    resources: vec![
                        res(Method::Get, vec!["People"], "Show", false, vec![]),
                        res(Method::Put, vec!["People"], "Update", false, vec![Param::new(
                            "name", "String",
                        )]),
                    ],
                    routes: vec![],
                    query_parameters: vec![],
                },
            },
            "{id: Uuid}\n  GET People::Show\n  PUT People::Update\n    [name: String]\n",
        ),
    ]
}

#[test]
fn tests_test_nested_routes_parse() {
    for (expected, text) in get_nested_routes_cases().into_iter() {
        let text = str::replace(text, "\n", "\n  ");
        let text = format!("  {}", text);
        let (j, r) = parse::nested_routes(text.as_bytes(), 0, 1).unwrap();
        assert_eq!(r, expected);
        assert_eq!(&text[j..], "  ");
    }
}

#[test]
fn lib_test_nested_routes_parse() {
    for (expected, text) in get_nested_routes_cases().into_iter() {
        let text = str::replace(text, "\n", "\n  ");
        let text = format!("  {}", text);
        let (j, r) = parse::nested_routes(text.as_bytes(), 0, 1).unwrap();
        assert_eq!(r, expected);
        assert_eq!(&text[j..], "  ");
    }
}

#[test]
fn tests_test_route_config_parse() {
    let expected = RouteConfig {
        headers: vec![Header::new("use uuid::Uuid;")],
        routes: Routes {
            resources: vec![],
            routes: vec![NestedRoutes {
                path_segment: PathSegment::from_static("people"),
                routes: Routes {
                    resources: vec![res(Method::Get, vec![], "people", false, vec![])],
                    routes: vec![NestedRoutes {
                        path_segment: PathSegment::from_param(Param::new("id", "Uuid")),
                        routes: Routes {
                            resources: vec![
                                res(Method::Get, vec![], "person", false, vec![]),
                                res(Method::Put, vec![], "person_save", false, vec![Param::new(
                                    "name", "String",
                                )]),
                            ],
                            routes: vec![],
                            query_parameters: vec![],
                        },
                    }],
                    query_parameters: vec![],
                },
            }],
            query_parameters: vec![Param::new("lang", "String")],
        },
    };
    let text = "use uuid::Uuid;\n\n/\n  [lang: String]\n  people\n    GET people\n    {id: Uuid}\n      GET person\n      PUT person_save\n        [name: String]\n";
    let actual = parse::route_config(text).unwrap();
    assert_eq!(actual, expected);
}

#[test]
fn lib_test_route_config_parse() {
    let text = "/\n  one\n    GET One::Show\n    POST One::Make\n  two\n    GET Two::Show\n    POST Two::Make\n";
    let expected = RouteConfig {
        headers: vec![],
        routes: Routes {
            resources: vec![],
            routes: vec![
                NestedRoutes {
                    path_segment: PathSegment::from_static("one"),
                    routes: Routes {
                        resources: vec![
                            res(Method::Get, vec!["One"], "Show", false, vec![]),
                            res(Method::Post, vec!["One"], "Make", false, vec![]),
                        ],
                        routes: vec![],
                        query_parameters: vec![],
                    },
                },
                NestedRoutes {
                    path_segment: PathSegment::from_static("two"),
                    routes: Routes {
                        resources: vec![
                            res(Method::Get, vec!["Two"], "Show", false, vec![]),
                            res(Method::Post, vec!["Two"], "Make", false, vec![]),
                        ],
                        routes: vec![],
                        query_parameters: vec![],
                    },
                },
            ],
            query_parameters: vec![],
        },
    };
    let actual = parse::route_config(text).unwrap();
    assert_eq!(actual, expected);
}

#[test]
fn test_round_trip_stringify_then_parse() {
    let text = "use uuid::Uuid;\n\n/\n  [lang: String]\n  people\n    GET People::Index\n    {id: Uuid}\n      GET People::Show\n      PUT People::Update\n        [name: String]\n";
    let once = parse::route_config(text).unwrap();
    let rendered = once.stringify();
    let twice = parse::route_config(rendered.as_str()).unwrap();
    assert_eq!(once, twice);
}
