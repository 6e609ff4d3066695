use forecast_judge::api::{
    check_target_date, override_status, CreateSourceRequest, OverrideRequest, Pagination,
    PostMortemRequest, PredictionResponse, SourceItem,
};
use forecast_judge::auth::{
    check_login, prepare_registration, AuthResponse, AuthUser, Claims, LoginRequest,
    RegisterRequest,
};

fn register(name: &str, password: &str, role: Option<&str>) -> RegisterRequest {
    RegisterRequest { name: name.into(), password: password.into(), role: role.map(|r| r.into()) }
}

#[test]
fn registration_checks() {
    assert_eq!(register("", "secret1", None).validate(), Err(400));
    assert_eq!(register("bob", "12345", None).validate(), Err(400));
    assert_eq!(register("bob", "密码", None).validate(), Ok("human_expert".to_string()));
    assert_eq!(register("bob", "123456", Some("admin")).validate(), Ok("admin".to_string()));
    assert_eq!(register("bob", "123456", Some("root")).validate(), Err(400));
}

#[test]
fn registered_password_logs_in() {
    let user = prepare_registration(&register("alice", "s3cret!", None)).unwrap();
    assert_eq!(user.name, "alice");
    assert_eq!(user.role, "human_expert");
    assert!(user.password_hash.starts_with("$2b$12$"));
    assert_ne!(user.password_hash, "s3cret!");
    assert_eq!(check_login("s3cret!", Some(&user.password_hash)), Ok(()));
    assert_eq!(check_login("wrong", Some(&user.password_hash)), Err(401));
    assert_eq!(check_login("s3cret!", None), Err(401));
    assert_eq!(check_login("s3cret!", Some("not a hash")), Err(500));
    assert_eq!(prepare_registration(&register("", "s3cret!", None)).err(), Some(400));
    let login = LoginRequest { name: "alice".into(), password: "s3cret!".into() };
    assert_eq!(login.name, "alice");
}

#[test]
fn claims_expire_a_day_later() {
    let c = Claims::expiring_after(7, "admin", 1_000);
    assert_eq!((c.sub, c.exp, c.role.as_str()), (7, 87_400, "admin"));
    let now = std::time::SystemTime::now().duration_since(std::time::UNIX_EPOCH).unwrap().as_secs() as usize;
    let fresh = Claims::new(3, "human_expert");
    assert!(fresh.exp >= now + 86_400 - 5 && fresh.exp <= now + 86_400 + 5);
    assert_eq!(fresh.role, "human_expert");
}

#[test]
fn auth_user_needs_claims() {
    assert_eq!(AuthUser::from_claims(None).err(), Some(401));
    let u = AuthUser::from_claims(Some(Claims { sub: 9, exp: 0, role: "admin".into() })).unwrap();
    assert_eq!((u.user_id, u.role.as_str()), (9, "admin"));
    let r = AuthResponse { token: "t".into(), user_id: 9, role: "admin".into() };
    assert_eq!(r.user_id, 9);
}

#[test]
fn override_checks_and_statuses() {
    assert_eq!(OverrideRequest { outcome: 1 }.check("admin"), Ok(()));
    assert_eq!(OverrideRequest { outcome: 0 }.check("admin"), Ok(()));
    assert_eq!(OverrideRequest { outcome: 2 }.check("admin"), Err(400));
    assert_eq!(OverrideRequest { outcome: 2 }.check("human_expert"), Err(403));
    assert_eq!(override_status(Some(1)), 200);
    assert_eq!(override_status(Some(0)), 404);
    assert_eq!(override_status(Some(2)), 404);
    assert_eq!(override_status(None), 500);
}

fn source(name: &str, url: &str, feed_type: &str) -> CreateSourceRequest {
    CreateSourceRequest {
        name: name.into(),
        url: url.into(),
        feed_type: feed_type.into(),
        refresh_interval_sec: None,
        enabled: None,
        require_keywords: None,
        exclude_keywords: Some(vec!["ad".into()]),
    }
}

#[test]
fn source_requests() {
    assert_eq!(source("n", "u", "rss").validate(), Ok(()));
    assert_eq!(source("n", "u", "api").validate(), Ok(()));
    assert_eq!(source("", "u", "rss").validate(), Err(400));
    assert_eq!(source("n", "", "rss").validate(), Err(400));
    assert_eq!(source("n", "u", "json").validate(), Err(400));
    let f = source("n", "u", "rss").into_fields();
    assert_eq!((f.refresh_interval_sec, f.enabled), (300, true));
    assert!(f.require_keywords.is_empty());
    assert_eq!(f.exclude_keywords, vec!["ad".to_string()]);
    let item = SourceItem::from_row(4, "n".into(), "u".into(), "rss".into(), Some(60), Some(false), None, Some(vec!["x".into()]));
    assert_eq!((item.id, item.refresh_interval_sec, item.enabled), (4, 60, false));
    assert!(item.require_keywords.is_empty());
    let d = SourceItem::from_row(5, "n".into(), "u".into(), "rss".into(), None, None, None, None);
    assert_eq!((d.refresh_interval_sec, d.enabled), (300, true));
}

#[test]
fn pagination() {
    assert_eq!(Pagination { page: None, per_page: None }.limit_offset(), (20, 0));
    assert_eq!(Pagination { page: Some(3), per_page: Some(10) }.limit_offset(), (10, 20));
    assert_eq!(Pagination { page: Some(2), per_page: Some(500) }.limit_offset(), (100, 100));
}

#[test]
fn post_mortem_needs_text() {
    assert_eq!(PostMortemRequest { post_mortem: " \n\t".into() }.validate(), Err(400));
    assert_eq!(PostMortemRequest { post_mortem: " 教训 ".into() }.validate(), Ok(()));
}

#[test]
fn prediction_answers_and_dates() {
    let r = PredictionResponse::submitted(12);
    assert_eq!((r.id, r.message), (12, "预测提交成功！"));
    assert_eq!(check_target_date(10, 10), Err(400));
    assert_eq!(check_target_date(9, 10), Err(400));
    assert_eq!(check_target_date(11, 10), Ok(()));
}
