use wayfinder::flat::{FlattenedModules, FlattenedPath, FlattenedRoutes};
use wayfinder::gen::{codegen, to_caps_case, to_snake_case, usize_to_string, CodegenError};
use wayfinder::{Method, NestedRoutes, Param, PathSegment, Resource, RouteConfig, Routes};

fn res(method: Method, modules: Vec<&str>, name: &str, is_redirect: bool, qps: Vec<Param>) -> Resource {
    Resource {
        method,
        modules: modules.into_iter().map(|m| m.to_string()).collect(),
        name: name.to_string(),
        is_redirect,
        query_parameters: qps,
    }
}

fn sample_config() -> RouteConfig {
    RouteConfig {
        headers: vec![],
        routes: Routes {
            resources: vec![],
            routes: vec![NestedRoutes {
                path_segment: PathSegment::from_static("people"),
                routes: Routes {
                    resources: vec![
                        res(Method::Get, vec!["People"], "Index", false, vec![]),
                        res(Method::Post, vec!["People"], "Create", false, vec![]),
                    ],
                    routes: vec![NestedRoutes {
                        path_segment: PathSegment::from_param(Param::new("id", "Uuid")),
                        routes: Routes {
                            resources: vec![res(Method::Get, vec!["People"], "Show", false, vec![])],
                            routes: vec![],
                            query_parameters: vec![],
                        },
                    }],
                    query_parameters: vec![],
                },
            }],
            query_parameters: vec![Param::new("lang", "String")],
        },
    }
}

#[test]
fn test_to_caps_case() {
    assert_eq!(to_caps_case("people"), "People");
    assert_eq!(to_caps_case("as_usual"), "AsUsual");
    assert_eq!(to_caps_case("update"), "Update");
    assert_eq!(to_caps_case(""), "");
    assert_eq!(to_caps_case("already_Caps"), "AlreadyCaps");
}

#[test]
fn test_to_snake_case() {
    assert_eq!(to_snake_case("People"), "people");
    assert_eq!(to_snake_case("AsUsual"), "as_usual");
    assert_eq!(to_snake_case("people"), "people");
    assert_eq!(to_snake_case(""), "");
}

#[test]
fn test_usize_to_string() {
    assert_eq!(usize_to_string(0), "0");
    assert_eq!(usize_to_string(7), "7");
    assert_eq!(usize_to_string(42), "42");
    assert_eq!(usize_to_string(1005), "1005");
}

#[test]
fn test_method_byte_str() {
    assert_eq!(Method::Get.byte_str(), "b\"GET\"");
    assert_eq!(Method::Delete.byte_str(), "b\"DELETE\"");
}

#[test]
fn test_path_charlike_expansion() {
    let path = FlattenedPath {
        segments: vec![
            PathSegment::from_static("people"),
            PathSegment::from_param(Param::new("id", "Uuid")),
        ],
    };
    let symbols = path.iter();
    // One symbol per character of `people`, a separator, the capture, and
    // its separator.
    assert_eq!(symbols.len(), 9);
    let dynamics = path.dynamics();
    assert_eq!(dynamics.len(), 1);
    assert_eq!(dynamics[0].name, "id");
}

#[test]
fn test_flatten_produces_one_record_per_node() {
    let config = sample_config();
    let flattened = FlattenedRoutes::from_routes(&config.routes);
    // The root, `people`, and `people/{id}`.
    assert_eq!(flattened.iter().len(), 3);
    assert!(flattened.to_trie().is_some());
}

#[test]
fn test_modules_group_actions() {
    let config = sample_config();
    let modules = FlattenedModules::from_routes(&config.routes).unwrap();
    assert_eq!(modules.root.name, "routes");
    assert_eq!(modules.root.actions.len(), 0);
    assert_eq!(modules.root.modules.len(), 1);
    let people = &modules.root.modules[0];
    assert_eq!(people.name, "People");
    assert_eq!(people.actions.len(), 3);
    // Actions are sorted by name.
    assert_eq!(people.actions[0].name, "Create");
    assert_eq!(people.actions[1].name, "Index");
    assert_eq!(people.actions[2].name, "Show");
    // Inherited query parameters reach every action.
    assert_eq!(people.actions[0].query_parameters.len(), 1);
    assert_eq!(people.actions[0].query_parameters[0].name, "lang");
}

#[test]
fn test_duplicate_handler_is_rejected() {
    let mut config = sample_config();
    config.routes.routes.push(NestedRoutes {
        path_segment: PathSegment::from_static("aliases"),
        routes: Routes {
            resources: vec![res(Method::Get, vec!["People"], "Show", false, vec![])],
            routes: vec![],
            query_parameters: vec![],
        },
    });
    assert!(FlattenedModules::from_routes(&config.routes).is_err());
    let mut out = String::new();
    match codegen(&mut out, &config) {
        Err(CodegenError::DuplicateHandler(modules, name)) => {
            assert_eq!(modules, vec!["People".to_string()]);
            assert_eq!(name, "Show");
        }
        _ => panic!("expected the duplicate handler error"),
    }
}

#[test]
fn test_codegen_emits_matcher_source() {
    let config = sample_config();
    let mut out = String::new();
    codegen(&mut out, &config).unwrap();
    assert!(out.starts_with("pub mod routes {\n"));
    assert!(out.ends_with("} // mod routes\n"));
    assert!(out.contains("pub mod people {"));
    assert!(out.contains("pub struct Show {"));
    assert!(out.contains("pub id: Uuid,"));
    assert!(out.contains("pub lang: Option<String>,"));
    assert!(out.contains("pub enum Match<T> {"));
    assert!(out.contains("pub fn match_route<P: AsRef<[u8]>, M: AsRef<[u8]>>("));
    assert!(out.contains("match &path[i..i+6] {"));
    assert!(out.contains("b\"people\" => {"));
    assert!(out.contains("let start = i;"));
    assert!(out.contains(".map_err(|e| Error::fail(\"id\", e))?;"));
    assert!(out.contains("//! Route configuration:"));
    assert!(out.contains("//!   [lang: String]"));
}

#[test]
fn test_codegen_emits_dynamic_fallback() {
    // Three prefix-sharing statics and a dynamic fallback at the same node:
    // the attempted static descent must fall through to the capture.
    let config = RouteConfig {
        headers: vec![],
        routes: Routes {
            resources: vec![],
            routes: vec![
                NestedRoutes {
                    path_segment: PathSegment::from_static("foobar"),
                    routes: Routes {
                        resources: vec![res(Method::Get, vec!["Foo"], "Bar", false, vec![])],
                        routes: vec![],
                        query_parameters: vec![],
                    },
                },
                NestedRoutes {
                    path_segment: PathSegment::from_static("fomo"),
                    routes: Routes {
                        resources: vec![res(Method::Get, vec!["Fomo"], "AsUsual", false, vec![])],
                        routes: vec![],
                        query_parameters: vec![],
                    },
                },
                NestedRoutes {
                    path_segment: PathSegment::from_param(Param::new("a", "String")),
                    routes: Routes {
                        resources: vec![res(Method::Get, vec!["Bar"], "Dyn", false, vec![])],
                        routes: vec![],
                        query_parameters: vec![],
                    },
                },
            ],
            query_parameters: vec![],
        },
    };
    let mut out = String::new();
    codegen(&mut out, &config).unwrap();
    assert!(out.contains("'probe: {"));
    assert!(out.contains("break 'probe"));
    assert!(out.contains("match &path[i..i+2] {"));
    assert!(out.contains("b\"fo\" => {"));
    assert!(out.contains("let start = i;"));
    assert!(out.contains(".map_err(|e| Error::fail(\"a\", e))?;"));
    // Inside the attempt every dead end leaves the attempt; the committed
    // form only returns once a whole segment has matched.
    assert!(out.contains("    _ => break 'probe,"));
}

#[test]
fn test_codegen_full_output() {
    // The whole emitted source for a one-route configuration, compared
    // character for character.
    let config = RouteConfig {
        headers: vec![],
        routes: Routes {
            resources: vec![],
            routes: vec![NestedRoutes {
                path_segment: PathSegment::from_static("foo"),
                routes: Routes {
                    resources: vec![res(Method::Get, vec!["Foo"], "Bar", false, vec![])],
                    routes: vec![],
                    query_parameters: vec![],
                },
            }],
            query_parameters: vec![],
        },
    };
    let mut out = String::new();
    codegen(&mut out, &config).unwrap();
    let expected = r##"pub mod routes {

    //! Application route configuration.
    //!
    //! Of note is the function [`match_route`] as well as request structs
    //! specific to each named resource.
    //!
    //! Route configuration:
    //!
    //! ```ignore
    //! /
    //!   foo
    //!     GET Foo::Bar
    //! ```
    //!
    //! [`match_route`]: fn.match_route.html

    #![allow(dead_code)]
    #![allow(unused_imports)]
    #![allow(unused_mut)]
    #![allow(unused_variables)]

    pub mod foo {
        /// Renders for `GET /foo`.
        #[derive(Debug, PartialEq, Eq)]
        pub struct Bar;

        impl Bar {
            /// Make a path to this route with the given parameters.
            pub fn to_path(&self) -> String {
                format!("/foo")
            }
        }

        /// Parameters for requests to the foo controller.
        #[derive(Debug, PartialEq, Eq)]
        pub enum Route {
            Bar(Bar),
        }

        impl Route {
            /// Make a path to this route with the given parameters.
            pub fn to_path(&self) -> String {
                match self {
                    Route::Bar(ref route) => route.to_path(),
                }
            }
        }
    }

    /// An active route in the application -- match against this.
    #[derive(Debug, PartialEq, Eq)]
    pub enum Route {
        Foo(foo::Route),
    }

    impl Route {
        /// Make a path to this route with the given parameters.
        pub fn to_path(&self) -> String {
            match self {
                Route::Foo(ref route) => route.to_path(),
            }
        }
    }

    #[derive(PartialEq, Eq)]
    pub enum Match<T> {
        NotFound,
        NotAllowed,
        Route(T),
        Redirect(T),
    }

    use std::fmt;
    impl<T: fmt::Debug> fmt::Debug for Match<T> {
        fn fmt(&self, f: &mut fmt::Formatter) -> fmt::Result {
            match self {
                Match::NotFound => write!(f, "Match::NotFound"),
                Match::NotAllowed => write!(f, "Match::NotAllowed"),
                Match::Route(t) => write!(f, "Match::Route({:?})", t),
                Match::Redirect(t) => write!(f, "Match::Redirect({:?})", t),
            }
        }
    }

    pub struct Error {
        param: String,
        what: Box<dyn fmt::Debug>,
    }

    impl fmt::Debug for Error {
        fn fmt(&self, f: &mut fmt::Formatter) -> fmt::Result {
            f.debug_struct("wayfinder::Error")
                .field("param", &self.param)
                .field("what", &self.what)
                .finish()
        }
    }

    impl fmt::Display for Error {
        fn fmt(&self, f: &mut fmt::Formatter) -> fmt::Result {
            write!(
                f,
                "Error parsing '{}' parameter {:?}",
                self.param, self.what
            )
        }
    }

    impl std::error::Error for Error {}

    impl Error {
        pub fn fail<S: AsRef<str>, T: fmt::Debug + 'static>(param: S, what: T) -> Error {
            Error {
                param: param.as_ref().to_string(),
                what: Box::new(what),
            }
        }
    }
    /// Match a path and method against this router.
    ///
    /// Accepts an iterator for the characters of the request path,
    /// as well as a [`wayfinder::Method`] for the HTTP verb.
    /// Returns a `Result`, usually `Ok` with the result of the
    /// [`wayfinder::Match`].
    ///
    /// If the match was successful, it will be a `Match::Route` or
    /// `Match::Redirect` with the parameters enclosed.  You can then
    /// match on the [`Route`] to pass control of the request along to
    /// a specific handler.
    ///
    /// If there is no match, this will return `Match::NotFound`
    /// if no path matches (which you could return as `404 Not Found`),
    /// or `Match::NotAllowed` if no method matches (in which case a
    /// `405 Not Allowed` would be appropriate).
    ///
    /// If a route parameter fails to parse correctly, this will return
    /// `Err` with the underlying parsing error.  Usually you'll want
    /// to send back a `400 Bad Request` for that.
    ///
    /// [`wayfinder::Method`]: ../../wayfinder/enum.Method.html
    /// [`wayfinder::Match`]: ../../wayfinder/enum.Match.html
    /// [`Route`]: enum.Route.html
    pub fn match_route<P: AsRef<[u8]>, M: AsRef<[u8]>>(
        path: P,
        method: M,
    ) -> Result<Match<Route>, Error> {
        let method = method.as_ref();
        let path = path.as_ref();
        let len = path.len();
        let mut i = if len > 0 && &path[0..1] == b"/" { 1 } else { 0 };

        if i + 3 > len {
            return Ok(Match::NotFound);
        }
        match &path[i..i+3] {
            b"foo" => {
                i += 3;
            },
            _ => return Ok(Match::NotFound),
        }
        if i == len {
            match method {
                b"GET" => return Ok(Match::Route(Route::Foo(foo::Route::Bar(foo::Bar {
                })))),
                _ => return Ok(Match::NotAllowed),
            }
        }
        match &path[i..i+1] {
            b"/" => {
                i += 1;
            },
            _ => return Ok(Match::NotFound),
        }
        if i == len {
            match method {
                b"GET" => return Ok(Match::Route(Route::Foo(foo::Route::Bar(foo::Bar {
                })))),
                _ => return Ok(Match::NotAllowed),
            }
        }
        return Ok(Match::NotFound);
    }

} // mod routes
"##;
    assert_eq!(out, expected);
}

#[test]
fn test_flatten_twice_yields_identical_structures() {
    let config = sample_config();
    let once = FlattenedRoutes::from_routes(&config.routes);
    let twice = FlattenedRoutes::from_routes(&config.routes);
    assert_eq!(once.iter().len(), twice.iter().len());
    let mut a = String::new();
    let mut b = String::new();
    codegen(&mut a, &config).unwrap();
    codegen(&mut b, &config).unwrap();
    assert_eq!(a, b);
}
