use pixelroxy::config::Configure;
use pixelroxy::server::master::server_address;
use pixelroxy::{get_level_background, get_level_color, LogLevel};

fn args(list: &[&str]) -> Vec<String> {
    list.iter().map(|s| s.to_string()).collect()
}

#[test]
fn defaults() {
    let c = Configure::get(args(&["pixelroxy"]));
    assert_eq!(c.host, "0.0.0.0");
    assert_eq!(c.port, 25565);
}

#[test]
fn host_and_port() {
    let c = Configure::get(args(&["pixelroxy", "-h", "127.0.0.1", "-p", "8080"]));
    assert_eq!(c.host, "127.0.0.1");
    assert_eq!(c.port, 8080);
}

#[test]
fn bad_port_falls_back() {
    assert_eq!(Configure::get(args(&["x", "-p", "abc"])).port, 7100);
    assert_eq!(Configure::get(args(&["x", "-p", "65536"])).port, 7100);
    assert_eq!(Configure::get(args(&["x", "-p", ""])).port, 7100);
    assert_eq!(Configure::get(args(&["x", "-p", "+"])).port, 7100);
    assert_eq!(Configure::get(args(&["x", "-p", "-1"])).port, 7100);
    assert_eq!(Configure::get(args(&["x", "-p", "8O80"])).port, 7100);
}

#[test]
fn port_forms_that_parse() {
    assert_eq!(Configure::get(args(&["x", "-p", "+80"])).port, 80);
    assert_eq!(Configure::get(args(&["x", "-p", "0065535"])).port, 65535);
    assert_eq!(Configure::get(args(&["x", "-p", "0"])).port, 0);
    assert_eq!("+80".parse::<u16>().ok(), Some(80));
    assert_eq!("0065535".parse::<u16>().ok(), Some(65535));
}

#[test]
fn last_flag_wins() {
    let c = Configure::get(args(&["x", "-p", "1", "-h", "a", "-p", "2", "-h", "b"]));
    assert_eq!(c.host, "b");
    assert_eq!(c.port, 2);
}

#[test]
fn flag_as_value() {
    let c = Configure::get(args(&["x", "-h", "-p", "9"]));
    assert_eq!(c.host, "-p");
    assert_eq!(c.port, 9);
}

#[test]
fn address_of_configuration() {
    let c = Configure { host: String::from("127.0.0.1"), port: 8080 };
    assert_eq!(server_address(&c), "127.0.0.1:8080");
    let c = Configure { host: String::from("0.0.0.0"), port: 0 };
    assert_eq!(server_address(&c), "0.0.0.0:0");
}

#[test]
fn level_colors() {
    assert_eq!(get_level_color(LogLevel::Error), 31);
    assert_eq!(get_level_color(LogLevel::Warn), 33);
    assert_eq!(get_level_color(LogLevel::Info), 35);
    assert_eq!(get_level_color(LogLevel::Debug), 31);
    assert_eq!(get_level_color(LogLevel::Trace), 34);
    assert_eq!(get_level_background(LogLevel::Error), 41);
    assert_eq!(get_level_background(LogLevel::Warn), 43);
    assert_eq!(get_level_background(LogLevel::Info), 46);
    assert_eq!(get_level_background(LogLevel::Debug), 40);
    assert_eq!(get_level_background(LogLevel::Trace), 46);
}
