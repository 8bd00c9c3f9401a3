use peering_diag::web::args::{
    build_args, command_accepts_db, watch_args, watch_label, watch_target_of, with_db_arg, AppError, ArgValue,
    StartWatchRequest,
};

fn args(entries: Vec<(&str, ArgValue)>) -> Vec<(String, ArgValue)> {
    entries.into_iter().map(|(k, v)| (k.to_string(), v)).collect()
}

fn s(v: &str) -> ArgValue {
    ArgValue::Str(v.to_string())
}

#[test]
fn builds_command_line_in_fixed_order() {
    let a = args(vec![
        ("rounds", ArgValue::Int(5)),
        ("quiet", ArgValue::Bool(true)),
        ("target", s("example.org")),
        ("my_ip", s("1.2.3.4")),
        ("no_speedtest", ArgValue::Bool(false)),
        ("max_hops", ArgValue::Int(-3)),
    ]);
    let cli = build_args("diag", &a).ok().unwrap();
    assert_eq!(
        cli,
        vec!["diag", "example.org", "--quiet", "--rounds", "5", "--max-hops", "-3", "--my-ip", "1.2.3.4"]
    );
}

#[test]
fn values_of_the_wrong_type_are_ignored() {
    let a = args(vec![("rounds", s("5")), ("quiet", ArgValue::Int(1)), ("since", ArgValue::Other)]);
    assert_eq!(build_args("mtr", &a).ok().unwrap(), vec!["mtr"]);
}

#[test]
fn unknown_command_is_refused() {
    match build_args("rm", &Vec::new()) {
        Err(AppError::BadRequest(m)) => assert_eq!(m, "Commande inconnue : rm"),
        _ => panic!("expected a refusal"),
    }
}

#[test]
fn option_like_target_is_refused() {
    let a = args(vec![("target", s("--help"))]);
    match build_args("diag", &a) {
        Err(AppError::BadRequest(m)) => assert_eq!(m, "Cible invalide : ne peut pas commencer par '-'"),
        _ => panic!("expected a refusal"),
    }
}

#[test]
fn long_target_is_refused() {
    let a = args(vec![("target", s(&"a".repeat(254)))]);
    match build_args("diag", &a) {
        Err(AppError::BadRequest(m)) => assert_eq!(m, "Cible trop longue (max 253 caractères)"),
        _ => panic!("expected a refusal"),
    }
    let ok = args(vec![("target", s(&"a".repeat(253)))]);
    assert!(build_args("diag", &ok).is_ok());
    // 127 two-byte characters are 254 bytes.
    let wide = args(vec![("target", s(&"é".repeat(127)))]);
    assert!(build_args("diag", &wide).is_err());
}

#[test]
fn check_env_takes_no_argument() {
    let a = args(vec![("target", s("x")), ("quiet", ArgValue::Bool(true))]);
    assert_eq!(build_args("check-env", &a).ok().unwrap(), vec!["check-env"]);
}

#[test]
fn errors_map_to_http_statuses() {
    assert_eq!(AppError::NotFound.status_code(), 404);
    assert_eq!(AppError::NotFound.message(), "Not found");
    assert_eq!(AppError::BadRequest("x".to_string()).status_code(), 400);
    assert_eq!(AppError::Internal("boom".to_string()).status_code(), 500);
    assert_eq!(AppError::Internal("boom".to_string()).message(), "boom");
}

#[test]
fn db_option_is_added_once() {
    assert!(command_accepts_db("diag"));
    assert!(!command_accepts_db("lg"));
    let v = with_db_arg(vec!["diag".to_string()], Some("/tmp/x.db".to_string()));
    assert_eq!(v, vec!["diag", "--db", "/tmp/x.db"]);
    let v = with_db_arg(vec!["diag".to_string(), "--db".to_string(), "a".to_string()], Some("b".to_string()));
    assert_eq!(v, vec!["diag", "--db", "a"]);
    assert_eq!(with_db_arg(vec!["lg".to_string()], None), vec!["lg"]);
}

#[test]
fn watch_command_line_and_label() {
    assert_eq!(
        watch_args("t.example", None, Some(true), Some("9.9.9.9".to_string())).unwrap(),
        vec!["watch", "t.example", "--interval", "15", "--quiet", "--no-speedtest", "--my-ip", "9.9.9.9"]
    );
    assert_eq!(watch_args("t", Some(5), None, None).unwrap(), vec!["watch", "t", "--interval", "5", "--quiet"]);
    assert_eq!(watch_label("t.example"), "watch:t.example");
    assert_eq!(watch_target_of("watch:t.example").as_deref(), Some("t.example"));
    assert_eq!(watch_target_of("diag"), None);
}

#[test]
fn watch_request_gives_its_command_line_and_label() {
    let req = StartWatchRequest {
        target: "example.org".to_string(),
        interval: None,
        no_speedtest: Some(true),
        my_ip: Some("1.2.3.4".to_string()),
    };
    assert_eq!(
        req.args().unwrap(),
        vec!["watch", "example.org", "--interval", "15", "--quiet", "--no-speedtest", "--my-ip", "1.2.3.4"]
    );
    assert_eq!(req.label(), "watch:example.org");
    let req = StartWatchRequest { target: "t".to_string(), interval: Some(5), no_speedtest: Some(false), my_ip: None };
    assert_eq!(req.args().unwrap(), vec!["watch", "t", "--interval", "5", "--quiet"]);
}

#[test]
fn watch_refuses_targets_read_as_options_or_too_long() {
    let req = StartWatchRequest { target: "-rf".to_string(), interval: None, no_speedtest: None, my_ip: None };
    assert!(matches!(req.args(), Err(AppError::BadRequest(_))));
    assert!(matches!(watch_args(&"a".repeat(254), None, None, None), Err(AppError::BadRequest(_))));
    assert!(watch_args(&"a".repeat(253), None, None, None).is_ok());
}
