use aster_dual::options::{
    elevation_params, elevation_step, elevation_tasks, launch_succeeded, parse_args, ElevationStep,
    Options,
};
use aster_dual::session::{
    api_url, ends_session, login_outcome, LoginEvent, LoginReply, LoginResponse, LoginState,
    Session,
};

fn args(list: &[&str]) -> Vec<String> {
    list.iter().map(|s| s.to_string()).collect()
}

#[test]
fn defaults_of_the_command_line() {
    let o = parse_args(&args(&["dual"]));
    assert_eq!(
        o,
        Options {
            is_worker: false,
            no_elevate: false,
            port: 9090,
            target_ip: "127.0.0.1".to_string()
        }
    );
    assert!(!o.needs_elevation());
}

#[test]
fn command_line_is_read() {
    let o = parse_args(&args(&["dual", "--worker", "--port", "9100", "--target", "10.0.0.2"]));
    assert!(o.is_worker);
    assert_eq!(o.port, 9100);
    assert_eq!(o.target_ip, "10.0.0.2");
    assert!(o.needs_elevation());
    let o = parse_args(&args(&["dual", "--worker", "--no-elevate", "--port", "x", "--target"]));
    assert_eq!(o.port, 9090);
    assert_eq!(o.target_ip, "127.0.0.1");
    assert!(!o.needs_elevation());
    assert_eq!(parse_args(&args(&["--port", "1", "--port", "2"])).port, 1);
    assert_eq!(parse_args(&Vec::new()).port, 9090);
}

#[test]
fn tasks_are_tried_before_the_shell() {
    let task = |name: &str| ElevationStep::RunTask(name.to_string());
    let step = |outcomes: &[bool]| elevation_step("Kim", &outcomes.to_vec());
    assert_eq!(step(&[]), task("DualWindowWorker_Global"));
    assert_eq!(step(&[false]), task("DualWindowWorker_Kim"));
    assert_eq!(step(&[false, false]), ElevationStep::AskShell);
    assert_eq!(step(&[false, false, false]), ElevationStep::Finished { started: false });
    for outcomes in [vec![true], vec![false, true], vec![false, false, true]] {
        assert_eq!(step(&outcomes), ElevationStep::Finished { started: true });
    }
}

#[test]
fn elevated_instance_reads_the_request() {
    let line = elevation_params(&args(&["dual", "--worker", "--port", "1"]));
    let again: Vec<String> = std::iter::once("dual").chain(line.split(' ')).map(String::from).collect();
    assert!(!parse_args(&again).needs_elevation());
    let odd = args(&["dual", "--worker", "--no-elevate-x"]);
    assert_eq!(elevation_params(&odd), "--worker --no-elevate-x");
    assert!(parse_args(&odd).needs_elevation());
}

#[test]
fn elevated_instance_does_not_elevate_again() {
    assert_eq!(elevation_params(&args(&["dual"])), "--no-elevate");
    assert_eq!(elevation_params(&Vec::new()), "--no-elevate");
    assert_eq!(
        elevation_params(&args(&["dual", "--worker", "--port", "1"])),
        "--worker --port 1 --no-elevate"
    );
    assert_eq!(elevation_params(&args(&["dual", "--no-elevate", "x"])), "--no-elevate x");
    assert_eq!(
        elevation_tasks("Kim"),
        vec!["DualWindowWorker_Global".to_string(), "DualWindowWorker_Kim".to_string()]
    );
    assert!(!launch_succeeded(32));
    assert!(launch_succeeded(33));
    assert!(launch_succeeded(-1));
    assert!(!launch_succeeded(0));
}

#[test]
fn login_needs_a_user() {
    let mut s = Session::new();
    assert!(!s.is_open());
    s.login_id_input = " \t ".to_string();
    assert!(s.attempt_login().is_none());
    assert_eq!(s.login_error.as_deref(), Some("아이디를 입력하세요."));
    assert_eq!(s.login_state, LoginState::LoggedOut);
    s.login_id_input = "  kim ".to_string();
    assert_eq!(s.attempt_login().as_deref(), Some("kim"));
    assert!(s.is_waiting());
    assert!(s.login_error.is_none());
}

fn answer(success: bool, date: Option<&str>) -> LoginReply {
    LoginReply::Answered {
        status: "200 OK".to_string(),
        response: Some(LoginResponse {
            success,
            message: "no".to_string(),
            expiry_date: date.map(|d| d.to_string()),
        }),
    }
}

#[test]
fn reply_decides_the_login() {
    assert_eq!(
        login_outcome("kim", &answer(true, Some("2030"))),
        LoginEvent::LoggedIn { user_id: "kim".to_string(), expiry: "2030".to_string() }
    );
    assert_eq!(
        login_outcome("kim", &answer(true, None)),
        LoginEvent::LoggedIn { user_id: "kim".to_string(), expiry: "".to_string() }
    );
    assert_eq!(
        login_outcome("kim", &answer(false, None)),
        LoginEvent::Failed("no".to_string())
    );
    let unread = LoginReply::Answered { status: "500".to_string(), response: None };
    assert_eq!(
        login_outcome("kim", &unread),
        LoginEvent::Failed("서버 응답 파싱 실패 (상태: 500)".to_string())
    );
    assert_eq!(
        login_outcome("kim", &LoginReply::Unreachable("x".to_string())),
        LoginEvent::Failed("서버 연결 실패: x".to_string())
    );
}

#[test]
fn session_opens_fails_and_expires() {
    let mut s = Session::new();
    let e = s.take_events(Some(("kim".to_string(), "2030".to_string())), None, false);
    assert_eq!(e.heartbeat.as_deref(), Some("kim"));
    assert_eq!(e.is_login, Some(true));
    assert!(s.is_open());
    assert_eq!(s.user_to_log_out().as_deref(), Some("kim"));
    let e = s.take_events(None, None, false);
    assert!(e.heartbeat.is_none() && e.is_login.is_none() && s.is_open());
    let e = s.take_events(None, None, true);
    assert_eq!(e.is_login, Some(false));
    assert_eq!(s.login_state, LoginState::LoggedOut);
    assert_eq!(s.login_error.as_deref(), Some("세션이 만료되었습니다."));
    assert!(s.user_to_log_out().is_none());
    s.take_events(None, Some("bad".to_string()), false);
    assert_eq!(s.login_error.as_deref(), Some("bad"));
}

#[test]
fn only_a_denial_ends_the_session() {
    assert!(ends_session(Some(false)));
    assert!(!ends_session(Some(true)));
    assert!(!ends_session(None));
    assert_eq!(api_url("login"), "https://93.127.129.57:8095/api/login");
}

#[test]
fn login_starts_by_entering_or_by_the_button() {
    let mut session = Session::new();
    assert!(session.starts_login(true, false));
    assert!(session.starts_login(false, true));
    assert!(!session.starts_login(false, false));
    session.login_id_input = "kim".to_string();
    session.attempt_login();
    assert!(session.is_waiting());
    assert!(!session.starts_login(false, true));
    assert!(session.starts_login(true, false));
}
