use marzban_node::config::{env_bool, env_string, env_u16, Settings};

fn vars(list: &[(&str, &str)]) -> Vec<(String, String)> {
    list.iter()
        .map(|(k, v)| ((*k).to_owned(), (*v).to_owned()))
        .collect()
}

#[test]
fn defaults_without_variables() {
    let settings = Settings::from_env(&vars(&[]));
    assert_eq!(settings.service_host, "0.0.0.0");
    assert_eq!(settings.service_port, 62050);
    assert_eq!(settings.xray_api_host, "0.0.0.0");
    assert_eq!(settings.xray_api_port, 62051);
    assert_eq!(settings.xray_executable_path, "/usr/local/bin/xray");
    assert_eq!(settings.xray_assets_path, "/usr/local/share/xray");
    assert_eq!(settings.sing_box_executable_path, "/usr/local/bin/sing-box");
    assert_eq!(settings.ssl_cert_file, "/var/lib/marzban-node/ssl_cert.pem");
    assert_eq!(settings.ssl_key_file, "/var/lib/marzban-node/ssl_key.pem");
    assert_eq!(settings.ssl_client_cert_file, None);
    assert!(!settings.debug);
    assert!(settings.inbounds.is_empty());
}

#[test]
fn inbounds_are_split_and_trimmed() {
    let settings = Settings::from_env(&vars(&[(
        "INBOUNDS",
        "hy2-rn1c1g, Shadowsocks TCP ,,VLESS TCP REALITY",
    )]));
    assert_eq!(
        settings.inbounds,
        vec!["hy2-rn1c1g", "Shadowsocks TCP", "VLESS TCP REALITY"]
    );
}

#[test]
fn blank_client_certificate_counts_as_none() {
    let settings = Settings::from_env(&vars(&[("SSL_CLIENT_CERT_FILE", "  ")]));
    assert_eq!(settings.ssl_client_cert_file, None);
    let settings = Settings::from_env(&vars(&[("SSL_CLIENT_CERT_FILE", "/c.pem")]));
    assert_eq!(settings.ssl_client_cert_file, Some("/c.pem".to_owned()));
}

#[test]
fn ports_outside_the_range_fall_back() {
    let list = vars(&[("A", "65535"), ("B", "65536"), ("C", "+7"), ("D", "x"), ("E", "")]);
    assert_eq!(env_u16(&list, "A", 1), 65535);
    assert_eq!(env_u16(&list, "B", 1), 1);
    assert_eq!(env_u16(&list, "C", 1), 7);
    assert_eq!(env_u16(&list, "D", 1), 1);
    assert_eq!(env_u16(&list, "E", 1), 1);
    assert_eq!(env_u16(&list, "F", 1), 1);
}

#[test]
fn switches_in_any_case() {
    let list = vars(&[("A", "YES"), ("B", "Off"), ("C", "maybe"), ("A", "no")]);
    assert!(env_bool(&list, "A", false));
    assert!(!env_bool(&list, "B", true));
    assert!(env_bool(&list, "C", true));
    assert!(!env_bool(&list, "D", false));
    assert_eq!(env_string(&list, "C", "d"), "maybe");
    assert_eq!(env_string(&list, "D", "d"), "d");
}
