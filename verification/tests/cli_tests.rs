use panopticon::cli::{apply_cli, banner_lines, config_preamble, parse_port, plan_cli, CliError, ConfigSource, Interface};
use panopticon::config::Config;

fn args(v: &[&str]) -> Vec<String> {
    v.iter().map(|x| x.to_string()).collect()
}

#[test]
fn plans() {
    let p = plan_cli(&args(&["8080", "--host"]), None);
    assert!(!p.help && p.public_host && !p.print_config);
    assert_eq!(p.source, ConfigSource::Defaults);
    assert_eq!(p.port.as_deref(), Some("8080"));

    let p = plan_cli(&args(&["--config", "a.toml", "9000"]), Some("1".into()));
    assert_eq!(p.source, ConfigSource::File("a.toml".into()));
    assert_eq!(p.port.as_deref(), Some("9000"));

    let p = plan_cli(&args(&["--config", "a.toml"]), Some("1234".into()));
    assert_eq!(p.port.as_deref(), Some("1234"));

    let p = plan_cli(&args(&["--config"]), None);
    assert_eq!(p.source, ConfigSource::MissingPath);
    assert_eq!(p.port, None);

    let p = plan_cli(&args(&["-h"]), None);
    assert!(p.help);
    let p = plan_cli(&args(&["--print-config", "--weird", "-x"]), None);
    assert!(p.print_config);
    assert_eq!(p.port.as_deref(), Some("-x"));

    let p = plan_cli(&args(&["--config", "--config", "77"]), None);
    assert_eq!(p.source, ConfigSource::File("--config".into()));
    assert_eq!(p.port.as_deref(), Some("77"));
}

#[test]
fn port_numbers() {
    assert_eq!(parse_port("0"), Some(0));
    assert_eq!(parse_port("3000"), Some(3000));
    assert_eq!(parse_port("+80"), Some(80));
    assert_eq!(parse_port("00080"), Some(80));
    assert_eq!(parse_port("65535"), Some(65535));
    assert_eq!(parse_port("65536"), None);
    assert_eq!(parse_port("999999999999"), None);
    assert_eq!(parse_port("99999x"), None);
    assert_eq!(parse_port(""), None);
    assert_eq!(parse_port("+"), None);
    assert_eq!(parse_port("-1"), None);
    assert_eq!(parse_port("8 0"), None);
    assert_eq!(parse_port("++1"), None);
    for n in [0u16, 7, 10, 443, 3000, 65535] {
        assert_eq!(parse_port(&n.to_string()), Some(n));
    }
}

#[test]
fn applying_the_plan() {
    let mut c = Config::default();
    let p = plan_cli(&args(&["--host", "4000"]), None);
    assert_eq!(apply_cli(&mut c, &p), Ok(()));
    assert_eq!(c.server.host, "0.0.0.0");
    assert_eq!(c.server.port, 4000);
    let mut c = Config::default();
    let p = plan_cli(&args(&["abc"]), None);
    assert_eq!(apply_cli(&mut c, &p), Err(CliError::InvalidPort));
    let mut c = Config::default();
    let p = plan_cli(&args(&[]), None);
    assert_eq!(apply_cli(&mut c, &p), Ok(()));
    assert_eq!(c.server.port, 3000);
    assert_eq!(c.server.host, "127.0.0.1");
}

#[test]
fn banner_on_loopback() {
    let c = Config::default();
    assert_eq!(
        banner_lines(&c, &None),
        vec![
            "Listening on http://127.0.0.1:3000".to_string(),
            "\t! private-network upstreams are ALLOWED".to_string(),
            "\t- Access:\t\thttp://127.0.0.1:3000".to_string(),
        ]
    );
}

#[test]
fn banner_on_public_host() {
    let mut c = Config::default();
    c.server.host = "0.0.0.0".into();
    c.server.port = 8080;
    let ifs = vec![
        Interface { name: "lo".into(), address: "127.0.0.1".into(), is_v6: false },
        Interface { name: "eth0".into(), address: "fe80::1".into(), is_v6: true },
    ];
    assert_eq!(
        banner_lines(&c, &Some(ifs)),
        vec![
            "Listening on http://0.0.0.0:8080".to_string(),
            "\t- lo\t\t\thttp://127.0.0.1:8080".to_string(),
            "\t- eth0\t\t\thttp://[fe80::1]:8080".to_string(),
        ]
    );
    assert_eq!(banner_lines(&c, &None), vec!["Listening on http://0.0.0.0:8080".to_string()]);
}

#[test]
fn preamble() {
    let c = Config::default();
    assert_eq!(
        config_preamble(&c),
        "# panopticon 配置。省略的字段使用默认值。\n# [upstream] allow_private_network 未设置时：监听回环地址则为 true，否则为 false。\n# 当前生效值：true\n\n"
    );
}
