use cardamom::config::Config;

fn config(ssl: Option<bool>) -> Config {
    Config {
        host: "dav.example.com".to_string(),
        port: 8443,
        ssl,
        login: "user".to_string(),
        passwd_cmd: "pass show dav".to_string(),
        sync_dir: "/tmp/cards".to_string(),
    }
}

#[test]
fn ssl_defaults_to_true() {
    assert!(config(None).ssl());
    assert!(config(Some(true)).ssl());
    assert!(!config(Some(false)).ssl());
}

#[test]
fn url_joins_scheme_host_port_and_path() {
    assert_eq!(config(None).url("/dav/"), "https://dav.example.com:8443/dav/");
    let mut c = config(Some(false));
    c.port = 0;
    assert_eq!(c.url("/"), "http://dav.example.com:0/");
    c.port = 65535;
    assert_eq!(c.url(""), "http://dav.example.com:65535");
}

#[test]
fn passwd_drops_trailing_newlines() {
    assert_eq!(Config::passwd("secret\n\n"), "secret");
    assert_eq!(Config::passwd("a\nb\n"), "a\nb");
    assert_eq!(Config::passwd(""), "");
}
