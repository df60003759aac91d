use shelfarrs::auth::{
    admin_password, basic_auth, check_login, cookie_token, deny_non_admin, exempt, gate,
    hash_password, login, logout_cookie, needs_admin, new_token, new_user, session_cookie,
    split_credentials, token_of, user_add, user_remove, users_page, verify_password, wants_html,
    Gate, LoginForm, StoredUser, UserForm,
};

#[test]
fn hash_roundtrip() {
    let h = hash_password("s3cret").unwrap();
    assert!(verify_password("s3cret", &h));
    assert!(!verify_password("wrong", &h));
    assert!(h.starts_with("$argon2"));
}

#[test]
fn hashes_are_salted_and_junk_matches_nothing() {
    assert_ne!(hash_password("a").unwrap(), hash_password("a").unwrap());
    assert!(!verify_password("a", "a"));
    assert!(!verify_password("", ""));
    assert!(!check_login(&None, "a"));
    let h = hash_password("a").unwrap();
    assert!(check_login(&Some(h.clone()), "a") && !check_login(&Some(h), "b"));
}

#[test]
fn tokens() {
    let t = new_token();
    assert_eq!(t.len(), 64);
    assert!(t.chars().all(|c| c.is_ascii_digit() || ('a'..='f').contains(&c)));
    assert_ne!(t, new_token());
    assert_eq!(token_of(&[1, 0xab]), "01ab");
}

#[test]
fn the_session_cookie() {
    assert_eq!(cookie_token("a=b; session=tok; session=x").as_deref(), Some("tok"));
    assert_eq!(cookie_token("junk;session=a=b").as_deref(), Some("a=b"));
    assert_eq!(cookie_token("session"), None);
    assert_eq!(cookie_token("sessions=1"), None);
    assert_eq!(
        session_cookie("t"),
        "session=t; HttpOnly; Path=/; SameSite=Lax; Max-Age=2592000"
    );
    assert_eq!(logout_cookie(), "session=; HttpOnly; Path=/; Max-Age=0");
    let h = hash_password("pw").unwrap();
    let form = |p: &str| LoginForm { username: "u".into(), password: p.into() };
    assert_eq!(login(&Some(h.clone()), &form("pw"), "t"), Some(session_cookie("t")));
    assert_eq!(login(&Some(h), &form("no"), "t"), None);
    assert_eq!(login(&None, &form("pw"), "t"), None);
}

#[test]
fn basic_credentials() {
    assert_eq!(
        basic_auth("Basic dXNlcjpwYTpzcw=="),
        Some(("user".to_string(), "pa:ss".to_string()))
    );
    assert_eq!(basic_auth("Basic !!"), None);
    assert_eq!(basic_auth("Bearer dXNlcjpwYTpzcw=="), None);
    assert_eq!(basic_auth("Basic dXNlcg=="), None);
    assert_eq!(split_credentials(b"a:".to_vec()), Some(("a".to_string(), String::new())));
    assert_eq!(split_credentials(vec![0xff, b':']), None);
}

#[test]
fn who_is_admitted() {
    let html = Some("text/html,*/*".to_string());
    for path in ["/login", "/healthz", "/assets/style.css"] {
        assert!(exempt(path));
        assert!(matches!(gate(path, None, None, &None), Gate::Pass));
    }
    assert!(!exempt("/") && !exempt("/loginx") && !exempt("/asset"));
    match gate("/", Some("s".into()), Some("b".into()), &None) {
        Gate::PassAs(u) => assert_eq!(u.0, "s"),
        _ => panic!("refused"),
    }
    match gate("/opds", None, Some("b".into()), &None) {
        Gate::PassAs(u) => assert_eq!(u.0, "b"),
        _ => panic!("refused"),
    }
    assert!(matches!(gate("/", None, None, &html), Gate::Redirect(to) if to == "/login"));
    match gate("/opds", None, None, &Some("application/xml".into())) {
        Gate::Refuse(r) => {
            assert_eq!(r.status, 401);
            assert_eq!(r.challenge.as_deref(), Some("Basic realm=\"shelfarrs\""));
            assert_eq!(r.body, "authentication required");
        }
        _ => panic!("admitted"),
    }
    assert!(wants_html(&html) && !wants_html(&None));
}

#[test]
fn users() {
    assert!(needs_admin(0) && !needs_admin(1));
    assert_eq!(admin_password(None), "admin");
    assert_eq!(admin_password(Some("x".into())), "x");
    assert!(deny_non_admin(1).is_none());
    assert_eq!(deny_non_admin(0).unwrap().status, 403);
    let form = |u: &str, p: &str| LoginForm { username: u.into(), password: p.into() };
    assert_eq!(new_user(&form(" jo ", "pw")).as_deref(), Some("jo"));
    assert_eq!(new_user(&form("  ", "pw")), None);
    assert_eq!(new_user(&form("jo", "")), None);
    assert!(user_add(&form("jo", "")).is_none());
    let (name, hash) = user_add(&form(" jo", "pw")).unwrap();
    assert_eq!(name, "jo");
    assert!(verify_password("pw", &hash));
    assert!(user_remove(&UserForm { username: "jo".into() }));
    assert!(!user_remove(&UserForm { username: "admin".into() }));
    let rows = users_page(&vec![
        StoredUser { username: "admin".into(), is_admin: 1 },
        StoredUser { username: "jo".into(), is_admin: 0 },
    ]);
    assert!(rows[0].is_admin && !rows[0].removable);
    assert!(!rows[1].is_admin && rows[1].removable);
}

#[test]
fn a_returned_session_is_known() {
    let t = new_token();
    assert_eq!(cookie_token(&format!("session={t}")), Some(t.clone()));
    assert_eq!(cookie_token(&format!("session={t}; theme=dark")), Some(t.clone()));
    assert_eq!(cookie_token(&session_cookie(&t)), Some(t));
}
