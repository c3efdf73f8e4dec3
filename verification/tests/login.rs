use termy::auth::{AgentStep, login_methods, KeyStep, Login, Method, PasswordStep, Purpose, Reply, Step};
use termy::config::{plan_tab, SshConfig, Tab};

fn config(auth_type: &str, key_path: &str) -> SshConfig {
    SshConfig {
        host: "example.org".to_string(),
        port: 2222,
        username: "u".to_string(),
        auth_type: auth_type.to_string(),
        key_path: key_path.to_string(),
        name: String::new(),
    }
}

fn key(path: &str, interactive: bool) -> Method {
    Method::KeyFile { path: path.to_string(), interactive }
}

fn tried(call: Result<(), String>, authenticated: bool) -> Reply {
    Reply::Tried { call, authenticated }
}

#[test]
fn tabs_are_planned_by_their_type() {
    assert_eq!(plan_tab("local", None), Ok(Tab::Local));
    assert_eq!(plan_tab("local", Some(config("", ""))), Ok(Tab::Local));
    assert_eq!(plan_tab("SSH", None), Ok(Tab::Local));
    assert_eq!(plan_tab("ssh", Some(config("key", ""))), Ok(Tab::Ssh(config("key", ""))));
    assert_eq!(plan_tab("ssh", None), Err("SSH config required".to_string()));
}

#[test]
fn addresses_name_host_and_port() {
    assert_eq!(config("", "").address(), "example.org:2222");
}

#[test]
fn modes_ignore_case() {
    assert!(config("Password", "").is_password_mode());
    assert!(config("KEY", "").is_key_mode());
    assert!(!config("agent", "").is_password_mode());
    assert!(!config("agent", "").is_key_mode());
}

#[test]
fn methods_come_in_order() {
    assert_eq!(
        login_methods(Purpose::Shell, &config("", " ~/k.pem "), "/h"),
        vec![
            Method::Agent,
            key("/h/k.pem", true),
            key("/h/.ssh/id_ed25519", false),
            key("/h/.ssh/id_rsa", false),
            key("/h/.ssh/id_ecdsa", false),
            Method::StoredPassword,
            Method::AskPassword,
        ]
    );
    assert_eq!(
        login_methods(Purpose::Sftp, &config("key", "  "), ""),
        vec![
            Method::Agent,
            key(".ssh/id_ed25519", false),
            key(".ssh/id_rsa", false),
            key(".ssh/id_ecdsa", false),
        ]
    );
}

#[test]
fn password_mode_tries_passwords_only() {
    let c = config("PASSWORD", "~/k");
    assert_eq!(login_methods(Purpose::Shell, &c, "/h"), vec![Method::StoredPassword, Method::AskPassword]);
    assert_eq!(login_methods(Purpose::Sftp, &c, "/h"), vec![Method::StoredPassword]);
}

#[test]
fn an_accepted_method_ends_the_login() {
    let mut login = Login::start(Purpose::Shell, &config("", ""), "/h");
    assert_eq!(login.current(), Some(&Method::Agent));
    assert_eq!(login.report(tried(Ok(()), false)), Step::Proceed);
    assert_eq!(login.current(), Some(&key("/h/.ssh/id_ed25519", false)));
    assert_eq!(login.report(Reply::Skipped), Step::Proceed);
    assert_eq!(login.current(), Some(&key("/h/.ssh/id_rsa", false)));
    assert_eq!(login.finish(false), Err("인증 실패".to_string()));
    assert_eq!(login.report(tried(Ok(()), true)), Step::Proceed);
    assert_eq!(login.current(), None);
    assert_eq!(login.finish(false), Ok(()));
}

#[test]
fn an_asked_password_is_saved_once_accepted() {
    let mut login = Login::start(Purpose::Shell, &config("password", ""), "/h");
    assert_eq!(login.report(tried(Err("no".to_string()), false)), Step::Proceed);
    assert_eq!(login.current(), Some(&Method::AskPassword));
    assert_eq!(login.report(tried(Ok(()), true)), Step::SavePassword);
    assert_eq!(login.finish(true), Ok(()));

    let mut login = Login::start(Purpose::Shell, &config("password", ""), "/h");
    login.report(Reply::Skipped);
    assert_eq!(login.report(tried(Err("rejected".to_string()), false)), Step::Proceed);
    assert_eq!(login.current(), None);
    assert_eq!(login.finish(false), Err("인증 실패".to_string()));

    let mut login = Login::start(Purpose::Shell, &config("password", ""), "/h");
    login.report(Reply::Skipped);
    assert_eq!(login.report(Reply::Skipped), Step::Proceed);
    assert_eq!(login.current(), None);
    assert_eq!(login.finish(true), Err("인증 실패".to_string()));
}

#[test]
fn a_file_session_goes_by_the_session() {
    let login = Login::start(Purpose::Sftp, &config("password", ""), "/h");
    assert_eq!(login.finish(true), Ok(()));
    assert_eq!(login.finish(false), Err("SFTP 인증 실패".to_string()));
}

#[test]
fn replies_are_accepted_only_with_a_session() {
    assert!(tried(Ok(()), true).is_accepted());
    assert!(!tried(Ok(()), false).is_accepted());
    assert!(!tried(Err(String::new()), true).is_accepted());
    assert!(!Reply::Skipped.is_accepted());
}

fn run_key(interactive: bool, answers: &[bool]) -> KeyStep {
    let mut step = KeyStep::first();
    for yes in answers {
        step = step.answer(interactive, *yes);
    }
    step
}

#[test]
fn key_logins_step_by_step() {
    assert_eq!(run_key(true, &[]), KeyStep::CheckFile);
    assert_eq!(run_key(true, &[false]), KeyStep::Done(false));
    assert_eq!(run_key(true, &[true, true]), KeyStep::Done(true));
    assert_eq!(run_key(true, &[true, false]), KeyStep::LookUp);
    assert_eq!(run_key(true, &[true, false, true, true]), KeyStep::Done(true));
    assert_eq!(run_key(true, &[true, false, true, false]), KeyStep::Ask);
    assert_eq!(run_key(true, &[true, false, false]), KeyStep::Ask);
    assert_eq!(run_key(true, &[true, false, false, false]), KeyStep::Done(false));
    assert_eq!(run_key(true, &[true, false, false, true, true]), KeyStep::Save);
    assert_eq!(run_key(true, &[true, false, false, true, true, false]), KeyStep::Done(true));
    assert_eq!(run_key(true, &[true, false, false, true, false]), KeyStep::Done(false));
}

#[test]
fn quiet_key_logins_never_ask() {
    assert_eq!(run_key(false, &[true, false, false]), KeyStep::Done(false));
    assert_eq!(run_key(false, &[true, false, true, false]), KeyStep::Done(false));
    assert_eq!(run_key(false, &[true, false, true, true]), KeyStep::Done(true));
}

#[test]
fn key_logins_end() {
    for bits in 0u32..128 {
        for interactive in [false, true] {
            let answers: Vec<bool> = (0..7).map(|i| bits >> i & 1 == 1).collect();
            assert!(matches!(run_key(interactive, &answers), KeyStep::Done(_)));
        }
    }
}

#[test]
fn a_password_is_asked_for_once_and_only_if_missing() {
    assert_eq!(PasswordStep::first(&config("key", "")), PasswordStep::Connect);
    let step = PasswordStep::first(&config("password", ""));
    assert_eq!(step, PasswordStep::LookUp);
    assert_eq!(step.answer(true), PasswordStep::Connect);
    assert_eq!(step.answer(false), PasswordStep::Ask);
    assert_eq!(step.answer(false).answer(false), PasswordStep::Connect);
    assert_eq!(step.answer(false).answer(true), PasswordStep::Save);
    assert_eq!(step.answer(false).answer(true).answer(false), PasswordStep::Connect);
}

fn run_agent(count: usize, answers: &[bool]) -> AgentStep {
    let mut step = AgentStep::first();
    for yes in answers {
        step = step.answer(count, *yes);
    }
    step
}

#[test]
fn agent_identities_one_by_one() {
    assert_eq!(run_agent(0, &[]), AgentStep::Open);
    assert_eq!(run_agent(0, &[false]), AgentStep::Done(false));
    assert_eq!(run_agent(0, &[true]), AgentStep::Connect);
    assert_eq!(run_agent(0, &[true, true]), AgentStep::Identities);
    assert_eq!(run_agent(0, &[true, true, true]), AgentStep::Done(false));
    assert_eq!(run_agent(2, &[true, true, true]), AgentStep::Try(0));
    assert_eq!(run_agent(2, &[true, true, true, false]), AgentStep::Try(1));
    assert_eq!(run_agent(2, &[true, true, true, false, false]), AgentStep::Done(false));
    assert_eq!(run_agent(2, &[true, true, true, true]), AgentStep::Done(true));
    assert_eq!(run_agent(2, &[true, true, true, true, false]), AgentStep::Done(true));
}
