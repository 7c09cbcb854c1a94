use wayfinder::{Method, Param, Resource};

fn handler(parts: Vec<&str>) -> Vec<String> {
    parts.into_iter().map(|p| p.to_string()).collect()
}

fn expected(method: Method, modules: Vec<&str>, name: &str, is_redirect: bool, qps: Vec<Param>) -> Resource {
    Resource {
        method,
        modules: modules.into_iter().map(|m| m.to_string()).collect(),
        name: name.to_string(),
        is_redirect,
        query_parameters: qps,
    }
}

#[test]
fn test_header_macro() {
    let h = wayfinder::Header::new("use uuid::Uuid;");
    assert_eq!(h, wayfinder::Header::new("use uuid::Uuid;"));
    assert_eq!(h.text, "use uuid::Uuid;");
}

#[test]
fn test_param_macro() {
    let p = Param::new("id", "Uuid");
    assert_eq!(p, Param::new("id", "Uuid"));
}

#[test]
fn test_get_macro_basic() {
    let g = Resource::make(Method::Get, handler(vec!["User", "New"]), false, vec![]);
    assert_eq!(g, expected(Method::Get, vec!["User"], "New", false, vec![]));
}

#[test]
fn test_get_macro_redirect() {
    let g = Resource::make(Method::Get, handler(vec!["User", "New"]), true, vec![]);
    assert_eq!(g, expected(Method::Get, vec!["User"], "New", true, vec![]));
}

#[test]
fn test_get_macro_params() {
    let g = Resource::make(Method::Get, handler(vec!["User", "New"]), false, vec![Param::new("name", "String")]);
    assert_eq!(g, expected(Method::Get, vec!["User"], "New", false, vec![Param::new("name", "String")]));
}

#[test]
fn test_get_macro_no_module() {
    let g = Resource::make(Method::Get, handler(vec!["Homepage"]), false, vec![]);
    assert_eq!(g, expected(Method::Get, vec![], "Homepage", false, vec![]));
}

#[test]
fn test_get_macro_several_modules() {
    let g = Resource::make(Method::Get, handler(vec!["admin", "users", "Create"]), false, vec![]);
    assert_eq!(g, expected(Method::Get, vec!["admin", "users"], "Create", false, vec![]));
}

#[test]
fn test_post_macro_basic() {
    let g = Resource::make(Method::Post, handler(vec!["User", "New"]), false, vec![]);
    assert_eq!(g, expected(Method::Post, vec!["User"], "New", false, vec![]));
}

#[test]
fn test_post_macro_redirect() {
    let g = Resource::make(Method::Post, handler(vec!["User", "New"]), true, vec![]);
    assert_eq!(g, expected(Method::Post, vec!["User"], "New", true, vec![]));
}

#[test]
fn test_post_macro_params() {
    let g = Resource::make(Method::Post, handler(vec!["User", "New"]), false, vec![Param::new("name", "String")]);
    assert_eq!(g, expected(Method::Post, vec!["User"], "New", false, vec![Param::new("name", "String")]));
}

#[test]
fn test_post_macro_no_module() {
    let g = Resource::make(Method::Post, handler(vec!["Homepage"]), false, vec![]);
    assert_eq!(g, expected(Method::Post, vec![], "Homepage", false, vec![]));
}

#[test]
fn test_post_macro_several_modules() {
    let g = Resource::make(Method::Post, handler(vec!["admin", "users", "Create"]), false, vec![]);
    assert_eq!(g, expected(Method::Post, vec!["admin", "users"], "Create", false, vec![]));
}

#[test]
fn test_put_macro_basic() {
    let g = Resource::make(Method::Put, handler(vec!["User", "New"]), false, vec![]);
    assert_eq!(g, expected(Method::Put, vec!["User"], "New", false, vec![]));
}

#[test]
fn test_put_macro_redirect() {
    let g = Resource::make(Method::Put, handler(vec!["User", "New"]), true, vec![]);
    assert_eq!(g, expected(Method::Put, vec!["User"], "New", true, vec![]));
}

#[test]
fn test_put_macro_params() {
    let g = Resource::make(Method::Put, handler(vec!["User", "New"]), false, vec![Param::new("name", "String")]);
    assert_eq!(g, expected(Method::Put, vec!["User"], "New", false, vec![Param::new("name", "String")]));
}

#[test]
fn test_put_macro_no_module() {
    let g = Resource::make(Method::Put, handler(vec!["Homepage"]), false, vec![]);
    assert_eq!(g, expected(Method::Put, vec![], "Homepage", false, vec![]));
}

#[test]
fn test_put_macro_several_modules() {
    let g = Resource::make(Method::Put, handler(vec!["admin", "users", "Create"]), false, vec![]);
    assert_eq!(g, expected(Method::Put, vec!["admin", "users"], "Create", false, vec![]));
}

#[test]
fn test_delete_macro_basic() {
    let g = Resource::make(Method::Delete, handler(vec!["User", "New"]), false, vec![]);
    assert_eq!(g, expected(Method::Delete, vec!["User"], "New", false, vec![]));
}

#[test]
fn test_delete_macro_redirect() {
    let g = Resource::make(Method::Delete, handler(vec!["User", "New"]), true, vec![]);
    assert_eq!(g, expected(Method::Delete, vec!["User"], "New", true, vec![]));
}

#[test]
fn test_delete_macro_params() {
    let g = Resource::make(Method::Delete, handler(vec!["User", "New"]), false, vec![Param::new("name", "String")]);
    assert_eq!(g, expected(Method::Delete, vec!["User"], "New", false, vec![Param::new("name", "String")]));
}

#[test]
fn test_delete_macro_no_module() {
    let g = Resource::make(Method::Delete, handler(vec!["Homepage"]), false, vec![]);
    assert_eq!(g, expected(Method::Delete, vec![], "Homepage", false, vec![]));
}

#[test]
fn test_delete_macro_several_modules() {
    let g = Resource::make(Method::Delete, handler(vec!["admin", "users", "Create"]), false, vec![]);
    assert_eq!(g, expected(Method::Delete, vec!["admin", "users"], "Create", false, vec![]));
}
