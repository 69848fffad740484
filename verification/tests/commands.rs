use tomcat_manager::commands::{
    cmd_deploy, cmd_expire_sessions, cmd_gc, cmd_reload, cmd_start, cmd_stop, cmd_undeploy,
    expire_request, info_request, leaks_request, list_request, sessions_request, ssl_request,
    status_request, Step, WarFile,
};
use tomcat_manager::connection::{Connection, Method, Request, TomcatClient};
use tomcat_manager::error::TomcatError;

fn client() -> TomcatClient {
    let conn = Connection {
        url: "http://h".to_string(),
        username: "n".to_string(),
        password: "p".to_string(),
    };
    TomcatClient::new(&conn, "/manager", false, 1, 3)
}

fn check(request: &Request, method: Method, url: &str, query: &[(&str, &str)]) {
    assert_eq!(request.method, method);
    assert_eq!(request.url, url);
    let got: Vec<(&str, &str)> =
        request.query.iter().map(|(k, v)| (k.as_str(), v.as_str())).collect();
    assert_eq!(got, query);
    assert_eq!((request.username.as_str(), request.password.as_str()), ("n", "p"));
}

fn check_step(step: &Step, notice: &str, endpoint: &str, query: &[(&str, &str)]) {
    assert_eq!(step.notice, notice);
    let url = format!("http://h/manager/text{}", endpoint);
    check(&step.request, Method::Get, &url, query);
}

#[test]
fn commands_on_one_application() {
    let c = client();
    let q = [("path", "/a")];
    check_step(&cmd_undeploy(&c, "/a"), "Undeploying /a…\n", "/undeploy", &q);
    check_step(&cmd_start(&c, "/a"), "Starting /a…\n", "/start", &q);
    check_step(&cmd_stop(&c, "/a"), "Stopping /a…\n", "/stop", &q);
    check_step(&cmd_reload(&c, "/a"), "Reloading /a…\n", "/reload", &q);
    check_step(&cmd_gc(&c), "Requesting garbage collection…\n", "/gc", &[]);
}

#[test]
fn requests_for_data() {
    let c = client();
    let text = "http://h/manager/text";
    check(&list_request(&c), Method::Get, &format!("{}/list", text), &[]);
    check(&info_request(&c), Method::Get, &format!("{}/serverinfo", text), &[]);
    check(&status_request(&c), Method::Get, "http://h/manager/status", &[]);
    check(&sessions_request(&c, "/a"), Method::Get, &format!("{}/sessions", text), &[("path", "/a")]);
    check(
        &leaks_request(&c),
        Method::Get,
        &format!("{}/findleaks", text),
        &[("statusLine", "true")],
    );
    check(&ssl_request(&c), Method::Get, &format!("{}/sslConnectorCiphers", text), &[]);
    check(
        &expire_request(&c, "/a", -1),
        Method::Get,
        &format!("{}/expire", text),
        &[("path", "/a"), ("idle", "-1")],
    );
    check(
        &expire_request(&c, "", 60),
        Method::Get,
        &format!("{}/expire", text),
        &[("path", ""), ("idle", "60")],
    );
}

#[test]
fn a_file_is_uploaded() {
    let file = Some(WarFile { name: "a.war".to_string(), size: "1.5 KB".to_string() });
    let url = Some("file:/b.war".to_string());
    let step = cmd_deploy(&client(), "/a", &file, &url, true).unwrap();
    assert_eq!(step.notice, "Deploying /a from file a.war (1.5 KB)…\n");
    check(
        &step.request,
        Method::Put,
        "http://h/manager/text/deploy",
        &[("path", "/a"), ("update", "true")],
    );
}

#[test]
fn a_url_is_handed_to_the_server() {
    let url = Some("file:/b.war".to_string());
    let step = cmd_deploy(&client(), "/a", &None, &url, false).unwrap();
    check_step(
        &step,
        "Deploying /a from URL file:/b.war…\n",
        "/deploy",
        &[("path", "/a"), ("war", "file:/b.war"), ("update", "false")],
    );
}

#[test]
fn a_deployment_needs_a_source() {
    match cmd_deploy(&client(), "/a", &None, &None, true) {
        Err(e) => {
            assert!(matches!(e, TomcatError::NoWarSource));
            assert_eq!(e.message(), "Provide --file or --war-url");
        }
        Ok(_) => panic!("deployed nothing"),
    }
}

#[test]
fn an_expiry_reports_the_first_line() {
    assert_eq!(cmd_expire_sessions(" OK - Expired 3 sessions \nmore"), "OK - Expired 3 sessions\n");
    assert_eq!(cmd_expire_sessions(""), "\n");
}
