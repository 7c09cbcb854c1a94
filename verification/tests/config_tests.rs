use wayfinder::{Header, Method, NestedRoutes, Param, PathSegment, Resource, RouteConfig, Routes};

fn res(method: Method, modules: Vec<&str>, name: &str, is_redirect: bool, qps: Vec<Param>) -> Resource {
    Resource {
        method,
        modules: modules.into_iter().map(|m| m.to_string()).collect(),
        name: name.to_string(),
        is_redirect,
        query_parameters: qps,
    }
}

#[test]
fn tests_test_method_display() {
    let cases = vec![
        (Method::Get, "GET"),
        (Method::Post, "POST"),
        (Method::Put, "PUT"),
        (Method::Delete, "DELETE"),
    ];
    for (method, expected) in cases.into_iter() {
        assert_eq!(method.as_str(), expected);
    }
}

#[test]
fn lib_test_method_display() {
    let cases = vec![
        (Method::Get, "GET"),
        (Method::Post, "POST"),
        (Method::Put, "PUT"),
        (Method::Delete, "DELETE"),
    ];
    for (method, expected) in cases.into_iter() {
        assert_eq!(method.as_str(), expected);
    }
}

fn get_param_cases() -> Vec<(Param, &'static str)> {
    vec![
        (Param::new("id", "Uuid"), "id: Uuid"),
        (Param::new("x", "isize"), "x: isize"),
        (Param::new("name", "String"), "name: String"),
    ]
}

#[test]
fn tests_test_param_display() {
    for (param, expected) in get_param_cases().into_iter() {
        assert_eq!(param.stringify(), expected);
    }
}

#[test]
fn lib_test_param_display() {
    for (param, expected) in get_param_cases().into_iter() {
        assert_eq!(param.stringify(), expected);
    }
}

fn get_path_segment_static_cases() -> Vec<(PathSegment, &'static str)> {
    vec![
        (PathSegment::from_static("people"), "people"),
        (PathSegment::from_static("accounts"), "accounts"),
        (PathSegment::from_static("posts"), "posts"),
    ]
}

#[test]
fn tests_test_path_segment_static_display() {
    for (path_segment, expected) in get_path_segment_static_cases().into_iter() {
        assert_eq!(path_segment.stringify(), expected);
    }
}

#[test]
fn lib_test_path_segment_static_display() {
    for (path_segment, expected) in get_path_segment_static_cases().into_iter() {
        assert_eq!(path_segment.stringify(), expected);
    }
}

#[test]
fn tests_test_path_segment_dynamic_display() {
    for (param, expected) in get_param_cases().into_iter() {
        let path_segment = PathSegment::from_param(param);
        assert_eq!(path_segment.stringify(), expected);
    }
}

#[test]
fn lib_test_path_segment_dynamic_display() {
    for (param, expected) in get_param_cases().into_iter() {
        let path_segment = PathSegment::from_param(param);
        assert_eq!(path_segment.stringify(), expected);
    }
}

#[test]
fn tests_test_resource_stringify() {
    let cases = vec![
        (res(Method::Get, vec![], "person", false, vec![]), "GET person\n"),
        (res(Method::Get, vec![], "person", true, vec![]), "GET -> person\n"),
        (
            res(Method::Get, vec![], "person", false, vec![Param::new("id", "usize")]),
            "GET person\n  [id: usize]\n",
        ),
    ];
    for (resource, expected) in cases.into_iter() {
        assert_eq!(resource.stringify(0), expected);
    }
}

#[test]
fn lib_test_resource_stringify() {
    let cases = vec![
        (res(Method::Get, vec!["person"], "show", false, vec![]), "GET person::show\n"),
        (res(Method::Get, vec!["person"], "show", true, vec![]), "GET -> person::show\n"),
        (
            res(Method::Get, vec!["person"], "show", false, vec![Param::new("id", "usize")]),
            "GET person::show\n  [id: usize]\n",
        ),
        (res(Method::Get, vec![], "index", false, vec![]), "GET index\n"),
        (
            res(Method::Get, vec!["admin", "person"], "show", false, vec![]),
            "GET admin::person::show\n",
        ),
    ];
    for (resource, expected) in cases.into_iter() {
        assert_eq!(resource.stringify(0), expected);
    }
}

#[test]
fn tests_test_routes_stringify() {
    let cases = vec![
        (
            Routes {
                resources: vec![
                    res(Method::Get, vec![], "people", false, vec![]),
                    res(Method::Post, vec![], "people_new", false, vec![]),
                ],
                routes: vec![],
                query_parameters: vec![],
            },
            "GET people\nPOST people_new\n",
        ),
        (
            Routes {
                resources: vec![res(Method::Get, vec![], "people", false, vec![])],
                routes: vec![],
                query_parameters: vec![Param::new("lang", "String")],
            },
            "[lang: String]\nGET people\n",
        ),
        (
            Routes {
                resources: vec![res(Method::Get, vec![], "people", false, vec![])],
                routes: vec![NestedRoutes {
                    path_segment: PathSegment::from_param(Param::new("id", "Uuid")),
                    routes: Routes {
                        resources: vec![res(Method::Get, vec![], "person", false, vec![])],
                        routes: vec![],
                        query_parameters: vec![],
                    },
                }],
                query_parameters: vec![],
            },
            "GET people\n{id: Uuid}\n  GET person\n",
        ),
    ];
    for (routes, expected) in cases.into_iter() {
        assert_eq!(routes.stringify(0), expected);
    }
}

#[test]
fn lib_test_routes_stringify() {
    let cases = vec![
        (
            Routes {
                resources: vec![
                    res(Method::Get, vec!["People"], "Index", false, vec![]),
                    res(Method::Post, vec!["People"], "New", false, vec![]),
                ],
                routes: vec![],
                query_parameters: vec![],
            },
            "GET People::Index\nPOST People::New\n",
        ),
        (
            Routes {
                resources: vec![res(Method::Get, vec!["People"], "Index", false, vec![])],
                routes: vec![],
                query_parameters: vec![Param::new("lang", "String")],
            },
            "[lang: String]\nGET People::Index\n",
        ),
        (
            Routes {
                resources: vec![res(Method::Get, vec!["People"], "Index", false, vec![])],
                routes: vec![NestedRoutes {
                    path_segment: PathSegment::from_param(Param::new("id", "Uuid")),
                    routes: Routes {
                        resources: vec![res(Method::Get, vec!["People"], "Show", false, vec![])],
                        routes: vec![],
                        query_parameters: vec![],
                    },
                }],
                query_parameters: vec![],
            },
            "GET People::Index\n{id: Uuid}\n  GET People::Show\n",
        ),
    ];
    for (routes, expected) in cases.into_iter() {
        assert_eq!(routes.stringify(0), expected);
    }
}

#[test]
fn tests_test_nested_routes_stringify() {
    let cases = vec![
        (
            NestedRoutes {
                path_segment: PathSegment::from_static("people"),
                routes: Routes {
                    resources: vec![res(Method::Get, vec![], "people", false, vec![])],
                    routes: vec![],
                    query_parameters: vec![],
                },
            },
            "people\n  GET people\n",
        ),
        (
            NestedRoutes {
                path_segment: PathSegment::from_param(Param::new("id", "Uuid")),
                routes: Routes {
                    resources: vec![
                        res(Method::Get, vec![], "person", false, vec![]),
                        res(Method::Put, vec![], "person_save", false, vec![Param::new(
                            "name", "String",
                        )]),
                    ],
                    routes: vec![],
                    query_parameters: vec![],
                },
            },
            "{id: Uuid}\n  GET person\n  PUT person_save\n    [name: String]\n",
        ),
    ];
    for (nested_routes, expected) in cases.into_iter() {
        assert_eq!(nested_routes.stringify(0), expected);
    }
}

#[test]
fn lib_test_nested_routes_stringify() {
    let cases = vec![
        (
            NestedRoutes {
                path_segment: PathSegment::from_static("people"),
                routes: Routes {
                    resources: vec![res(Method::Get, vec!["People"], "Index", false, vec![])],
                    routes: vec![],
                    query_parameters: vec![],
                },
            },
            "people\n  GET People::Index\n",
        ),
        (
            NestedRoutes {
                path_segment: PathSegment::from_param(Param::new("id", "Uuid")),
                routes: Routes {
                    resources: vec![
                        res(Method::Get, vec!["People"], "Show", false, vec![]),
                        res(Method::Put, vec!["People"], "Update", false, vec![Param::new(
                            "name", "String",
                        )]),
                    ],
                    routes: vec![],
                    query_parameters: vec![],
                },
            },
            "{id: Uuid}\n  GET People::Show\n  PUT People::Update\n    [name: String]\n",
        ),
    ];
    for (nested_routes, expected) in cases.into_iter() {
        assert_eq!(nested_routes.stringify(0), expected);
    }
}

#[test]
fn tests_test_route_config_stringify() {
    let config = RouteConfig {
        headers: vec![Header::new("use uuid::Uuid;")],
        routes: Routes {
            resources: vec![],
            routes: vec![NestedRoutes {
                path_segment: PathSegment::from_static("people"),
                routes: Routes {
                    resources: vec![res(Method::Get, vec![], "people", false, vec![])],
                    routes: vec![NestedRoutes {
                        path_segment: PathSegment::from_param(Param::new("id", "Uuid")),
                        routes: Routes {
                            resources: vec![
                                res(Method::Get, vec![], "person", false, vec![]),
                                res(Method::Put, vec![], "person_save", false, vec![Param::new(
                                    "name", "String",
                                )]),
                            ],
                            routes: vec![],
                            query_parameters: vec![],
                        },
                    }],
                    query_parameters: vec![],
                },
            }],
            query_parameters: vec![Param::new("lang", "String")],
        },
    };
    let expected = "use uuid::Uuid;\n\n/\n  [lang: String]\n  people\n    GET people\n    {id: Uuid}\n      GET person\n      PUT person_save\n        [name: String]\n";
    assert_eq!(config.stringify(), expected);
}

#[test]
fn lib_test_route_config_stringify() {
    let first = RouteConfig {
        headers: vec![Header::new("use uuid::Uuid;")],
        routes: Routes {
            resources: vec![],
            routes: vec![NestedRoutes {
                path_segment: PathSegment::from_static("people"),
                routes: Routes {
                    resources: vec![res(Method::Get, vec!["People"], "Index", false, vec![])],
                    routes: vec![NestedRoutes {
                        path_segment: PathSegment::from_param(Param::new("id", "Uuid")),
                        routes: Routes {
                            resources: vec![
                                res(Method::Get, vec!["People"], "Show", false, vec![]),
                                res(Method::Put, vec!["People"], "Update", false, vec![
                                    Param::new("name", "String"),
                                ]),
                            ],
                            routes: vec![],
                            query_parameters: vec![],
                        },
                    }],
                    query_parameters: vec![],
                },
            }],
            query_parameters: vec![Param::new("lang", "String")],
        },
    };
    let first_expected = "use uuid::Uuid;\n\n/\n  [lang: String]\n  people\n    GET People::Index\n    {id: Uuid}\n      GET People::Show\n      PUT People::Update\n        [name: String]\n";
    assert_eq!(first.stringify(), first_expected);

    let second = RouteConfig {
        headers: vec![],
        routes: Routes {
            resources: vec![],
            routes: vec![
                NestedRoutes {
                    path_segment: PathSegment::from_static("one"),
                    routes: Routes {
                        resources: vec![
                            res(Method::Get, vec!["One"], "Show", false, vec![]),
                            res(Method::Post, vec!["One"], "Make", false, vec![]),
                        ],
                        routes: vec![],
                        query_parameters: vec![],
                    },
                },
                NestedRoutes {
                    path_segment: PathSegment::from_static("two"),
                    routes: Routes {
                        resources: vec![
                            res(Method::Get, vec!["Two"], "Show", false, vec![]),
                            res(Method::Post, vec!["Two"], "Make", false, vec![]),
                        ],
                        routes: vec![],
                        query_parameters: vec![],
                    },
                },
            ],
            query_parameters: vec![],
        },
    };
    let second_expected = "/\n  one\n    GET One::Show\n    POST One::Make\n  two\n    GET Two::Show\n    POST Two::Make\n";
    assert_eq!(second.stringify(), second_expected);
}

#[test]
fn test_mount_deduplicates_headers() {
    let base = RouteConfig {
        headers: vec![Header::new("use uuid::Uuid;")],
        routes: Routes { resources: vec![], routes: vec![], query_parameters: vec![] },
    };
    let other = RouteConfig {
        headers: vec![Header::new("use uuid::Uuid;"), Header::new("use std::fmt;")],
        routes: Routes {
            resources: vec![res(Method::Get, vec!["People"], "Index", false, vec![])],
            routes: vec![],
            query_parameters: vec![],
        },
    };
    let mounted = base.mount("people", other);
    assert_eq!(mounted.headers.len(), 2);
    assert_eq!(mounted.headers[0].text, "use uuid::Uuid;");
    assert_eq!(mounted.headers[1].text, "use std::fmt;");
    assert_eq!(mounted.routes.routes.len(), 1);
}
