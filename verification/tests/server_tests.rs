use wenfox::builder;
use wenfox::host::is_host_address_text;
use wenfox::server::{check_port, PortVerdict, RestartAction, RestartPlan, WenfoxServer, DEFAULT_PORT};
use wenfox::text::{address_string, push_decimal};
use wenfox::web::listen_address;

#[test]
fn builder_defaults() {
    let s = builder::WenfoxServer::new();
    assert_eq!(s.host(), "127.0.0.1");
    assert_eq!(s.port(), 9803);
    assert!(s.web());
    assert!(!s.proxy());
    assert_eq!(s.bind_address(), "127.0.0.1:9803");
}

#[test]
fn builder_setters() {
    let s = builder::WenfoxServer::new().with_port(8080).with_host("0.0.0.0");
    assert_eq!(s.bind_address(), "0.0.0.0:8080");
    let s = s.with_web(false).with_proxy(true);
    assert!(!s.web());
    assert!(s.proxy());
    assert_eq!(s.port(), 8080);
    assert_eq!(s.host(), "0.0.0.0");
}

#[test]
fn decimal_text() {
    let mut s = String::from("n=");
    push_decimal(&mut s, 0);
    assert_eq!(s, "n=0");
    let mut s = String::new();
    push_decimal(&mut s, 1234567890);
    assert_eq!(s, "1234567890");
    assert_eq!(address_string("h", 65535), "h:65535");
    assert_eq!(address_string("", 10), ":10");
}

#[test]
fn web_listen_address() {
    assert_eq!(listen_address(8080), "0.0.0.0:8080");
    assert_eq!(listen_address(0), "0.0.0.0:0");
}

#[test]
fn server_defaults() {
    let s = WenfoxServer::default();
    assert_eq!(s.host(), "127.0.0.1");
    assert_eq!(s.port(), DEFAULT_PORT);
    assert_eq!(s.port(), 47603);
    assert!(!s.is_running());
    assert_eq!(s.bind_address(), "127.0.0.1:47603");
}

#[test]
fn set_host_accepts_addresses() {
    let mut s = WenfoxServer::default();
    s.set_host("192.168.1.20");
    assert_eq!(s.host(), "192.168.1.20");
    s.set_host("localhost");
    assert_eq!(s.host(), "localhost");
    s.set_host("::1");
    assert_eq!(s.host(), "::1");
    s.set_host("fe80::1");
    assert_eq!(s.host(), "fe80::1");
    s.set_host("0.0.0.0");
    assert_eq!(s.bind_address(), "0.0.0.0:47603");
}

#[test]
fn set_host_rejects_other_text() {
    let mut s = WenfoxServer::default();
    s.set_host("example.com");
    assert_eq!(s.host(), "127.0.0.1");
    s.set_host("1.2.3");
    assert_eq!(s.host(), "127.0.0.1");
    s.set_host("1234.1.1.1");
    assert_eq!(s.host(), "127.0.0.1");
    s.set_host("");
    assert_eq!(s.host(), "127.0.0.1");
    s.set_host(" localhost");
    assert_eq!(s.host(), "127.0.0.1");
}

#[test]
fn set_host_chains() {
    let mut s = WenfoxServer::default();
    s.set_host("10.0.0.1").set_port(9000, true);
    assert_eq!(s.bind_address(), "10.0.0.1:9000");
}

#[test]
fn port_verdicts() {
    assert_eq!(check_port(0), PortVerdict::Zero);
    assert_eq!(check_port(1), PortVerdict::Reserved);
    assert_eq!(check_port(1023), PortVerdict::Reserved);
    assert_eq!(check_port(1024), PortVerdict::Acceptable);
    assert_eq!(check_port(65535), PortVerdict::Acceptable);
}

#[test]
fn set_port_rules() {
    let mut s = WenfoxServer::default();
    s.set_port(0, true);
    assert_eq!(s.port(), 47603);
    s.set_port(80, true);
    assert_eq!(s.port(), 47603);
    s.set_port(8080, false);
    assert_eq!(s.port(), 47603);
    s.set_port(8080, true);
    assert_eq!(s.port(), 8080);
    s.set_port(1024, true);
    assert_eq!(s.port(), 1024);
    s.set_port(1023, true);
    assert_eq!(s.port(), 1024);
}

#[test]
fn attach_and_detach_task() {
    let rt = tokio::runtime::Builder::new_current_thread().build().unwrap();
    let mut s = WenfoxServer::default();
    let (none_sender, none_handle) = s.detach_task();
    assert!(none_sender.is_none() && none_handle.is_none());
    let (tx, rx) = tokio::sync::oneshot::channel::<()>();
    let handle = rt.spawn(async move {
        let _ = rx.await;
    });
    s.attach_task(handle, tx);
    assert!(s.is_running());
    let (sender, handle) = s.detach_task();
    assert!(!s.is_running());
    sender.unwrap().send(()).unwrap();
    rt.block_on(handle.unwrap()).unwrap();
    assert_eq!(s.port(), 47603);
}

#[test]
fn restart_plan_default_retries() {
    let mut p = RestartPlan::new(None);
    assert_eq!(p.retries(), 3);
    assert!(p.should_attempt());
    assert_eq!(p.after_attempt(false), RestartAction::RetryAfterDelay);
    assert_eq!(p.after_attempt(false), RestartAction::RetryAfterDelay);
    assert_eq!(p.after_attempt(false), RestartAction::GiveUpAfterDelay);
    assert_eq!(p.attempts(), 3);
    assert!(!p.should_attempt());
    assert_eq!(
        p.failure_message(),
        "经过 3 次尝试后仍无法重启服务器 | Failed to restart after 3 attempts"
    );
}

#[test]
fn restart_plan_success_stops() {
    let mut p = RestartPlan::new(Some(5));
    assert_eq!(p.after_attempt(false), RestartAction::RetryAfterDelay);
    assert_eq!(p.after_attempt(true), RestartAction::Succeeded);
    assert_eq!(p.attempts(), 1);
    assert_eq!(p.retries(), 5);
}

#[test]
fn restart_plan_custom_retries() {
    let p = RestartPlan::new(Some(0));
    assert!(!p.should_attempt());
    assert_eq!(
        p.failure_message(),
        "经过 0 次尝试后仍无法重启服务器 | Failed to restart after 0 attempts"
    );
    let mut p = RestartPlan::new(Some(1));
    assert!(p.should_attempt());
    assert_eq!(p.after_attempt(false), RestartAction::GiveUpAfterDelay);
}

#[test]
fn host_addresses_ipv4() {
    for h in ["0.0.0.0", "127.0.0.1", "192.168.1.20", "255.255.255.255", "10.0.0.1"] {
        assert!(is_host_address_text(h), "{}", h);
    }
    for h in ["999.999.999.999", "256.1.1.1", "1.2.3", "1.2.3.4.5", "01.2.3.4", "1..2.3", "1.2.3.4 ", "١.٢.٣.٤", "1234.1.1.1"] {
        assert!(!is_host_address_text(h), "{}", h);
    }
}

#[test]
fn host_addresses_ipv6() {
    for h in [
        "::",
        "::1",
        "1::",
        "fe80::1",
        "2001:db8::1:2",
        "2001:DB8:0:0:8:800:200C:417A",
        "1:2:3:4:5:6:7:8",
        "1:2:3:4:5:6:7::",
        "::2:3:4:5:6:7:8",
        "::ffff:192.168.1.1",
        "64:ff9b::192.0.2.33",
        "1:2:3:4:5:6:1.2.3.4",
    ] {
        assert!(is_host_address_text(h), "{}", h);
    }
    for h in [
        "1:2:3:4:5:6:7",
        "1:2:3:4:5:6:7:8:9",
        "1:2:3:4:5:6:7:8::",
        "1::2::3",
        ":::",
        "1:::2",
        "12345::1",
        "g::1",
        ":1:2:3:4:5:6:7",
        "1:2:3:4:5:6:7:",
        "::1.2.3.4.5",
        "::ffff:999.1.1.1",
        "fe80::1%eth0",
    ] {
        assert!(!is_host_address_text(h), "{}", h);
    }
}

#[test]
fn host_addresses_names() {
    assert!(is_host_address_text("localhost"));
    assert!(!is_host_address_text("LOCALHOST"));
    assert!(!is_host_address_text("example.com"));
    assert!(!is_host_address_text(""));
}

#[test]
fn set_host_follows_the_address_rules() {
    let mut s = WenfoxServer::default();
    s.set_host("999.999.999.999");
    assert_eq!(s.host(), "127.0.0.1");
    s.set_host("2001:db8::1:2");
    assert_eq!(s.host(), "2001:db8::1:2");
}
