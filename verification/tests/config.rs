use dst_admin_rust::config::{bind_addr, AppConfig, AutoUpdateModinfoConfig, BindAddress};

fn config_with_bind(bind_address: &str, port: &str) -> AppConfig {
    AppConfig {
        bind_address: bind_address.to_owned(),
        port: port.to_owned(),
        path: String::new(),
        data_dir: String::new(),
        database: "dst-db".to_owned(),
        steamcmd: String::new(),
        steam_api_key: None,
        flag: String::new(),
        wan_ip: String::new(),
        white_admin_ip: None,
        token: None,
        dst_version_url: String::new(),
        auto_update_modinfo: AutoUpdateModinfoConfig {
            enable: false,
            check_interval: 5,
            update_check_interval: 10,
        },
        dst_cli_port: String::new(),
    }
}

#[test]
fn bind_addr_accepts_ipv6_and_hostname_hosts_like_go_listen() {
    assert!(bind_addr(&config_with_bind("::1", "18082")).is_ok());
    assert!(bind_addr(&config_with_bind("localhost", "18082")).is_ok());
}

#[test]
fn bind_addr_applies_documented_empty_defaults() {
    assert_eq!(
        bind_addr(&config_with_bind("", "")).unwrap(),
        BindAddress {
            host: "0.0.0.0".to_owned(),
            port: 8082,
        }
    );
}
