use wayfinder::{commons, goal, nesting, Match};

const ID: u128 = 0x12345678901234567890123456789012;

#[test]
fn test_people() {
    match goal::match_route(b"/people", b"GET") {
        Ok(Match::Route(goal::Route::People(goal::people::Route::Index(goal::people::Index {
            lang: None,
        })))) => {}
        _ => panic!("route match error"),
    }
}

#[test]
fn test_people2() {
    match goal::match_route(b"/people/", b"GET") {
        Ok(Match::Route(goal::Route::People(goal::people::Route::Index(goal::people::Index {
            lang: None,
        })))) => {}
        _ => panic!("route match error"),
    }
}

#[test]
fn test_users_redirects_to_people_index() {
    match goal::match_route(b"/users", b"GET") {
        Ok(Match::Redirect(goal::Route::People(goal::people::Route::Index(_)))) => {}
        _ => panic!("route match error"),
    }
}

#[test]
fn test_unknown_path_not_found() {
    assert_eq!(goal::match_route(b"/user", b"GET"), Ok(Match::NotFound));
}

#[test]
fn test_people_create() {
    match goal::match_route(b"/people", b"POST") {
        Ok(Match::Route(goal::Route::People(goal::people::Route::Create(_)))) => {}
        _ => panic!("route match error"),
    }
}

#[test]
fn test_people_show() {
    match goal::match_route(b"/people/12345678901234567890123456789012", b"GET") {
        Ok(Match::Route(goal::Route::People(goal::people::Route::Show(goal::people::Show {
            id,
            lang: None,
        })))) => assert_eq!(id, ID),
        _ => panic!("route match error"),
    }
}

#[test]
fn test_people_show_wrong_method_not_allowed() {
    assert_eq!(
        goal::match_route(b"/people/12345678901234567890123456789012", b"POST"),
        Ok(Match::NotAllowed)
    );
}

#[test]
fn test_people_bad_id_is_error() {
    match goal::match_route(b"/people/not-a-uuid", b"GET") {
        Err(e) => assert_eq!(e.param, "id"),
        _ => panic!("expected a parse failure"),
    }
}

#[test]
fn test_new() {
    match goal::match_route(b"/people/12345678901234567890123456789012/edit/", b"GET") {
        Ok(Match::Route(goal::Route::People(goal::people::Route::Edit(goal::people::Edit {
            id,
            lang: None,
        })))) => assert_eq!(id, ID),
        _ => panic!("route match error"),
    }
}

#[test]
fn test_people_update_has_unset_params() {
    match goal::match_route(b"/people/12345678901234567890123456789012", b"PUT") {
        Ok(Match::Route(goal::Route::People(goal::people::Route::Update(u)))) => {
            assert_eq!(u.id, ID);
            assert_eq!(u.lang, None);
            assert_eq!(u.name, None);
        }
        _ => panic!("route match error"),
    }
}

#[test]
fn test_books_destroy() {
    match goal::match_route(b"books/12345678901234567890123456789012", b"DELETE") {
        Ok(Match::Route(goal::Route::Books(goal::books::Route::Destroy(d)))) => {
            assert_eq!(d.id, ID)
        }
        _ => panic!("route match error"),
    }
}

#[test]
fn test_empty_path_not_found() {
    assert_eq!(goal::match_route(b"", b"GET"), Ok(Match::NotFound));
}

#[test]
fn test_leading_slash_optional() {
    assert_eq!(goal::match_route(b"people", b"GET"), goal::match_route(b"/people", b"GET"));
}

#[test]
fn test_goal_to_path_round_trip() {
    let show = goal::people::Show { id: ID, lang: None };
    let path = show.to_path();
    assert_eq!(path, "/people/12345678-9012-3456-7890-123456789012");
    match goal::match_route(path.as_bytes(), b"GET") {
        Ok(Match::Route(goal::Route::People(goal::people::Route::Show(s)))) => {
            assert_eq!(s.id, ID)
        }
        _ => panic!("route match error"),
    }
}

#[test]
fn test_goal_to_path_ignores_query_parameters() {
    let show = goal::people::Show { id: ID, lang: Some("en".to_string()) };
    assert_eq!(show.to_path(), "/people/12345678-9012-3456-7890-123456789012");
    let index = goal::people::Index { lang: Some("en".to_string()) };
    assert_eq!(index.to_path(), "/people");
}

#[test]
fn test_commons_foobar() {
    match commons::match_route(b"/foobar", b"GET") {
        Ok(Match::Route(commons::Route::Foo(commons::foo::Route::Bar(commons::foo::Bar)))) => {}
        _ => panic!("route match error"),
    }
}

#[test]
fn test_commons_fomo() {
    match commons::match_route(b"/fomo", b"GET") {
        Ok(Match::Route(commons::Route::Fomo(commons::fomo::Route::AsUsual(_)))) => {}
        _ => panic!("route match error"),
    }
}

#[test]
fn test_commons_foosh() {
    match commons::match_route(b"/foosh", b"GET") {
        Ok(Match::Route(commons::Route::Foosh(commons::foosh::Route::Ball(_)))) => {}
        _ => panic!("route match error"),
    }
}

#[test]
fn test_commons_dynamic_fallback() {
    match commons::match_route(b"/fozzy", b"GET") {
        Ok(Match::Route(commons::Route::Bar(commons::bar::Route::Dyn(d)))) => {
            assert_eq!(d.a, "fozzy")
        }
        _ => panic!("route match error"),
    }
}

#[test]
fn test_commons_other_dynamic() {
    match commons::match_route(b"/other", b"GET") {
        Ok(Match::Route(commons::Route::Bar(commons::bar::Route::Dyn(d)))) => {
            assert_eq!(d.a, "other")
        }
        _ => panic!("route match error"),
    }
}

#[test]
fn test_commons_invalid_text_is_error() {
    match commons::match_route(&[0x2f, 0xff, 0xfe], b"GET") {
        Err(e) => assert_eq!(e.param, "a"),
        _ => panic!("expected a parse failure"),
    }
}

#[test]
fn test_nesting_root() {
    match nesting::match_route(b"/", b"GET") {
        Ok(Match::Route(nesting::Route::Index(nesting::Index))) => {}
        _ => panic!("route match error"),
    }
}

#[test]
fn test_nesting_root_wrong_method() {
    assert_eq!(nesting::match_route(b"", b"POST"), Ok(Match::NotAllowed));
}

#[test]
fn test_nesting_bad_id_is_error() {
    match nesting::match_route(b"/abc", b"GET") {
        Err(e) => assert_eq!(e.param, "id"),
        _ => panic!("expected a parse failure"),
    }
}

#[test]
fn test_nesting_show() {
    match nesting::match_route(b"/12345678901234567890123456789012", b"GET") {
        Ok(Match::Route(nesting::Route::Admin(nesting::admin::Route::People(
            nesting::admin::people::Route::Show(s),
        )))) => assert_eq!(s.id, ID),
        _ => panic!("route match error"),
    }
}

#[test]
fn test_nesting_dynamic_without_trailing_separator() {
    let show = nesting::admin::people::Show { id: ID };
    let path = show.to_path();
    assert_eq!(path, "/12345678-9012-3456-7890-123456789012");
    match nesting::match_route(path.as_bytes(), b"GET") {
        Ok(Match::Route(nesting::Route::Admin(nesting::admin::Route::People(
            nesting::admin::people::Route::Show(s),
        )))) => assert_eq!(s.id, ID),
        _ => panic!("route match error"),
    }
}
