use marzban_node::json::{Json, Object};
use marzban_node::sing_box::{
    build_sing_box_config, inbound_tag, lines_to_pem, parse_host_port, requires_sing_box,
    sing_box_tls, sing_box_transport, translate,
};
use marzban_node::xray_config::{ApiSettings, ConfigError, CoreKind, XrayConfig};
use serde_json::Value;

fn api_settings() -> ApiSettings {
    ApiSettings {
        host: "0.0.0.0".to_owned(),
        port: 62051,
        ssl_cert_file: "/var/lib/marzban-node/ssl_cert.pem".to_owned(),
        ssl_key_file: "/var/lib/marzban-node/ssl_key.pem".to_owned(),
        peer_ip: "203.0.113.10".to_owned(),
        allowed_inbounds: vec![],
    }
}

fn value(json: &Json) -> Value {
    serde_json::from_str(&json.to_text()).unwrap()
}

fn json(text: &str) -> Json {
    marzban_node::json_text::parse(text).unwrap()
}

#[test]
fn injects_xray_api_inbound_and_route() {
    let config = XrayConfig::from_controller_json(
        r#"{"inbounds":[{"tag":"HY2","protocol":"hysteria"}],"outbounds":[]}"#,
        &api_settings(),
    )
    .unwrap()
    .into_value();
    let config = value(&config);

    assert_eq!(config["api"]["tag"], "API");
    assert_eq!(config["inbounds"][0]["tag"], "API_INBOUND");
    assert_eq!(config["inbounds"][0]["port"], 62051);
    assert_eq!(config["routing"]["rules"][0]["outboundTag"], "API");
    assert_eq!(config["routing"]["rules"][0]["source"][1], "203.0.113.10");
}

#[test]
fn replaces_existing_api_inbound_and_route() {
    let config = XrayConfig::from_controller_json(
        r#"{
            "api": {"tag": "OLD_API"},
            "inbounds": [
                {"tag":"API_INBOUND","protocol":"dokodemo-door"},
                {"tag":"HY2","protocol":"hysteria"}
            ],
            "routing": {
                "rules": [
                    {"type":"field","outboundTag":"OLD_API"},
                    {"type":"field","outboundTag":"DIRECT"}
                ]
            }
        }"#,
        &api_settings(),
    )
    .unwrap()
    .into_value();
    let config = value(&config);

    let inbounds = config["inbounds"].as_array().unwrap();
    assert_eq!(inbounds.len(), 2);
    assert_eq!(inbounds[0]["tag"], "API_INBOUND");
    assert_eq!(inbounds[1]["tag"], "HY2");

    let rules = config["routing"]["rules"].as_array().unwrap();
    assert_eq!(rules.len(), 2);
    assert_eq!(rules[0]["outboundTag"], "API");
    assert_eq!(rules[1]["outboundTag"], "DIRECT");
}

#[test]
fn filters_to_selected_inbounds_when_configured() {
    let mut api = api_settings();
    api.allowed_inbounds = vec!["KEEP".to_owned()];

    let config = XrayConfig::from_controller_json(
        r#"{
            "inbounds": [
                {"tag":"KEEP","protocol":"hysteria"},
                {"tag":"DROP","protocol":"vless"}
            ]
        }"#,
        &api,
    )
    .unwrap()
    .into_value();
    let config = value(&config);

    let inbounds = config["inbounds"].as_array().unwrap();
    assert_eq!(inbounds.len(), 2);
    assert_eq!(inbounds[0]["tag"], "API_INBOUND");
    assert_eq!(inbounds[1]["tag"], "KEEP");
}

#[test]
fn converts_hysteria2_inbounds_to_sing_box() {
    let config = XrayConfig::from_controller_json(
        r#"{
            "inbounds": [
                {
                    "tag": "HY2",
                    "listen": "0.0.0.0",
                    "port": 8443,
                    "protocol": "hysteria",
                    "settings": {
                        "version": 2,
                        "users": [
                            {"email": "1.alice", "auth": "alice-secret"},
                            {"email": "2.bob", "auth": "bob-secret"}
                        ]
                    },
                    "streamSettings": {
                        "network": "hysteria",
                        "security": "tls",
                        "tlsSettings": {
                            "alpn": ["h3"],
                            "certificates": [
                                {
                                    "certificateFile": "/etc/cert.pem",
                                    "keyFile": "/etc/key.pem"
                                }
                            ]
                        }
                    }
                }
            ],
            "outbounds": [{"protocol":"freedom","tag":"DIRECT"}]
        }"#,
        &api_settings(),
    )
    .unwrap();

    let xray = value(config.xray_value());
    let xray_inbounds = xray["inbounds"].as_array().unwrap();
    assert!(xray_inbounds.is_empty());
    assert_eq!(config.core_kind(), Some(CoreKind::SingBox));

    let sing_box = config
        .sing_box_value()
        .expect("HY2 should create sing-box config");
    let sing_box = value(sing_box);
    let hy2 = &sing_box["inbounds"][0];
    assert_eq!(hy2["type"], "hysteria2");
    assert_eq!(hy2["tag"], "HY2");
    assert_eq!(hy2["listen_port"], 8443);
    assert_eq!(hy2["users"][0]["name"], "1.alice");
    assert_eq!(hy2["users"][0]["password"], "alice-secret");
    assert_eq!(hy2["tls"]["enabled"], true);
    assert_eq!(hy2["tls"]["certificate_path"], "/etc/cert.pem");
    assert_eq!(hy2["tls"]["key_path"], "/etc/key.pem");
}

#[test]
fn hysteria2_only_config_requires_only_sing_box() {
    let config = XrayConfig::from_controller_json(
        r#"{
            "inbounds": [
                {
                    "tag": "HY2",
                    "port": 8443,
                    "protocol": "hysteria",
                    "settings": {"version": 2, "users": [{"auth": "secret"}]},
                    "streamSettings": {"network": "hysteria"}
                }
            ]
        }"#,
        &api_settings(),
    )
    .unwrap();

    assert!(!config.needs_xray());
    assert!(config.needs_sing_box());
    let xray = value(config.xray_value());
    assert!(xray["api"].is_null());
    assert!(xray["stats"].is_null());
    assert!(xray["inbounds"].as_array().unwrap().is_empty());
}

#[test]
fn xray_only_config_requires_only_xray() {
    let config = XrayConfig::from_controller_json(
        r#"{"inbounds":[{"tag":"VLESS","protocol":"vless","port":443}]}"#,
        &api_settings(),
    )
    .unwrap();

    assert!(config.needs_xray());
    assert!(!config.needs_sing_box());
}

#[test]
fn unknown_inbound_in_sing_box_config_fails_explicitly() {
    let error = XrayConfig::from_controller_json(
        r#"{
            "inbounds": [
                {
                    "tag": "HY2",
                    "port": 8443,
                    "protocol": "hysteria",
                    "settings": {"version": 2, "users": [{"auth": "secret"}]},
                    "streamSettings": {"network": "hysteria"}
                },
                {"tag":"VMess","protocol":"vmess","port":443}
            ]
        }"#,
        &api_settings(),
    )
    .unwrap_err();

    assert_eq!(
        error.message(),
        "Inbound VMess is not supported by the sing-box translator yet"
    );
    assert!(matches!(
        error,
        ConfigError::UnsupportedSingBoxInbound(tag) if tag == "VMess"
    ));
}

#[test]
fn converts_hy2_vless_shadowsocks_and_trojan_to_single_sing_box_config() {
    let config = XrayConfig::from_controller_json(
        r#"{
            "inbounds": [
                {
                    "tag": "HY2",
                    "listen": "0.0.0.0",
                    "port": 8443,
                    "protocol": "hysteria",
                    "settings": {"version": 2, "users": [{"email": "1.hy2", "auth": "hy2-secret"}]},
                    "streamSettings": {"network": "hysteria"}
                },
                {
                    "tag": "VLESS",
                    "listen": "0.0.0.0",
                    "port": 443,
                    "protocol": "vless",
                    "settings": {"clients": [{"email": "2.vless", "id": "11111111-1111-1111-1111-111111111111", "flow": "xtls-rprx-vision"}]},
                    "streamSettings": {
                        "network": "tcp",
                        "security": "reality",
                        "realitySettings": {
                            "serverNames": ["example.com"],
                            "privateKey": "private-key",
                            "shortIds": ["abcd"]
                        }
                    }
                },
                {
                    "tag": "SS",
                    "listen": "0.0.0.0",
                    "port": 8388,
                    "protocol": "shadowsocks",
                    "settings": {
                        "method": "2022-blake3-aes-128-gcm",
                        "password": "server-secret",
                        "clients": [{"email": "3.ss", "password": "user-secret"}]
                    }
                },
                {
                    "tag": "Trojan",
                    "listen": "0.0.0.0",
                    "port": 8444,
                    "protocol": "trojan",
                    "settings": {"clients": [{"email": "4.trojan", "password": "trojan-secret"}]},
                    "streamSettings": {
                        "network": "ws",
                        "security": "tls",
                        "tlsSettings": {
                            "serverName": "trojan.example.com",
                            "alpn": ["h2"],
                            "certificates": [{"certificateFile": "/etc/trojan.crt", "keyFile": "/etc/trojan.key"}]
                        },
                        "wsSettings": {"path": "/trojan"}
                    }
                }
            ]
        }"#,
        &api_settings(),
    )
    .unwrap();

    assert!(!config.needs_xray());
    assert!(config.needs_sing_box());
    assert!(value(config.xray_value())["inbounds"]
        .as_array()
        .unwrap()
        .is_empty());

    let sing_box = value(config.sing_box_value().unwrap());
    let inbounds = sing_box["inbounds"].as_array().unwrap();
    assert_eq!(inbounds.len(), 4);

    assert_eq!(inbounds[0]["type"], "hysteria2");

    let vless = &inbounds[1];
    assert_eq!(vless["type"], "vless");
    assert_eq!(
        vless["users"][0]["uuid"],
        "11111111-1111-1111-1111-111111111111"
    );
    assert_eq!(vless["users"][0]["flow"], "xtls-rprx-vision");
    assert_eq!(vless["tls"]["enabled"], true);
    assert_eq!(vless["tls"]["reality"]["enabled"], true);
    assert_eq!(
        vless["tls"]["reality"]["handshake"]["server"],
        "example.com"
    );
    assert_eq!(vless["tls"]["reality"]["private_key"], "private-key");
    assert_eq!(vless["tls"]["reality"]["short_id"][0], "abcd");

    let shadowsocks = &inbounds[2];
    assert_eq!(shadowsocks["type"], "shadowsocks");
    assert_eq!(shadowsocks["method"], "2022-blake3-aes-128-gcm");
    assert_eq!(shadowsocks["password"], "server-secret");
    assert_eq!(shadowsocks["users"][0]["name"], "3.ss");
    assert_eq!(shadowsocks["users"][0]["password"], "user-secret");

    let trojan = &inbounds[3];
    assert_eq!(trojan["type"], "trojan");
    assert_eq!(trojan["users"][0]["password"], "trojan-secret");
    assert_eq!(trojan["tls"]["enabled"], true);
    assert_eq!(trojan["tls"]["server_name"], "trojan.example.com");
    assert_eq!(trojan["tls"]["certificate_path"], "/etc/trojan.crt");
    assert_eq!(trojan["transport"]["type"], "ws");
    assert_eq!(trojan["transport"]["path"], "/trojan");
}

#[test]
fn invalid_json_is_refused_with_the_reason() {
    let error = XrayConfig::from_controller_json("{", &api_settings()).unwrap_err();
    assert_eq!(
        error.message(),
        "Failed to decode config: EOF while parsing an object at line 1 column 1"
    );
    assert!(matches!(error, ConfigError::InvalidJson(_)));
}

#[test]
fn root_has_to_be_an_object() {
    let error = XrayConfig::from_controller_json("[]", &api_settings()).unwrap_err();
    assert_eq!(error.message(), "Xray config root must be a JSON object");
    let error = XrayConfig::from_value(Json::Null, &api_settings()).unwrap_err();
    assert!(matches!(error, ConfigError::RootIsNotObject));
}

#[test]
fn no_inbounds_need_no_core() {
    let config = XrayConfig::from_controller_json(
        r#"{"api":{"tag":"A"},"stats":{},"routing":{"rules":[{"outboundTag":"A"},{"outboundTag":"B"}]}}"#,
        &api_settings(),
    )
    .unwrap();
    assert_eq!(config.core_kind(), None);
    assert!(!config.needs_xray());
    assert!(!config.needs_sing_box());
    assert!(config.sing_box_json().is_none());
    assert_eq!(
        config.to_json(),
        r#"{"inbounds":[],"routing":{"rules":[{"outboundTag":"B"}]}}"#
    );
}

#[test]
fn inbounds_and_routing_of_other_types_are_replaced() {
    let config = XrayConfig::from_controller_json(
        r#"{"inbounds":7,"routing":"none"}"#,
        &api_settings(),
    )
    .unwrap();
    assert_eq!(config.core_kind(), None);

    let config = XrayConfig::from_controller_json(
        r#"{"inbounds":[{"tag":"A","protocol":"vmess"}],"routing":"none"}"#,
        &api_settings(),
    )
    .unwrap();
    let xray = value(config.xray_value());
    assert_eq!(xray["routing"]["rules"].as_array().unwrap().len(), 1);

    let config = XrayConfig::from_controller_json(
        r#"{"inbounds":[{"tag":"A","protocol":"vmess"}],"routing":{"rules":3,"domainStrategy":"AsIs"}}"#,
        &api_settings(),
    )
    .unwrap();
    let xray = value(config.xray_value());
    assert_eq!(xray["routing"]["rules"].as_array().unwrap().len(), 1);
    assert_eq!(xray["routing"]["domainStrategy"], "AsIs");
}

#[test]
fn anytls_needs_sing_box_and_has_no_translation() {
    assert!(requires_sing_box(&json(r#"{"protocol":"anytls"}"#)));
    let error = XrayConfig::from_controller_json(
        r#"{"inbounds":[{"tag":"ANY","protocol":"anytls","port":443}]}"#,
        &api_settings(),
    )
    .unwrap_err();
    assert!(matches!(
        error,
        ConfigError::UnsupportedSingBoxInbound(tag) if tag == "ANY"
    ));
}

#[test]
fn applying_the_api_again_changes_nothing() {
    let raw = r#"{"inbounds":[{"tag":"A","protocol":"vless","port":443}],"routing":{"rules":[{"outboundTag":"DIRECT"}]}}"#;
    let once = XrayConfig::from_controller_json(raw, &api_settings()).unwrap();
    let twice = XrayConfig::from_controller_json(&once.to_json(), &api_settings()).unwrap();
    assert_eq!(once.to_json(), twice.to_json());
}

#[test]
fn untagged_inbounds_are_dropped_by_a_selection() {
    let mut api = api_settings();
    api.allowed_inbounds = vec!["A".to_owned()];
    let config = XrayConfig::from_controller_json(
        r#"{"inbounds":[{"protocol":"vless"},{"tag":5,"protocol":"vless"},{"tag":"A","protocol":"vless"}]}"#,
        &api,
    )
    .unwrap();
    let xray = value(config.xray_value());
    assert_eq!(xray["inbounds"].as_array().unwrap().len(), 2);
}

#[test]
fn configured_ports_leave_out_the_api_and_bad_ports() {
    let config = XrayConfig::from_controller_json(
        r#"{"inbounds":[
            {"tag":"A","protocol":"vless","port":443,"streamSettings":{"network":"kcp"}},
            {"tag":"B","protocol":"vmess","port":70000},
            {"tag":"C","protocol":"vmess","port":-1},
            {"tag":"D","protocol":9,"port":80,"network":"ws","listen":"127.0.0.1"},
            {"protocol":"vmess","port":81}
        ]}"#,
        &api_settings(),
    )
    .unwrap();
    let ports = config.configured_inbound_ports();
    assert_eq!(ports.len(), 2);
    assert_eq!(ports[0].tag, "A");
    assert_eq!(ports[0].network, "kcp");
    assert_eq!(ports[0].transport, "udp");
    assert_eq!(ports[0].listen, "0.0.0.0");
    assert_eq!(ports[0].port, 443);
    assert_eq!(ports[1].tag, "D");
    assert_eq!(ports[1].protocol, "unknown");
    assert_eq!(ports[1].network, "ws");
    assert_eq!(ports[1].transport, "tcp");
    assert_eq!(ports[1].listen, "127.0.0.1");
}

#[test]
fn configured_ports_of_sing_box_are_reported() {
    let config = XrayConfig::from_controller_json(
        r#"{"inbounds":[{"tag":"HY2","port":8443,"protocol":"hysteria","settings":{"version":2},"streamSettings":{"network":"hysteria"}}]}"#,
        &api_settings(),
    )
    .unwrap();
    let ports = config.configured_inbound_ports();
    assert_eq!(ports.len(), 1);
    assert_eq!(ports[0].protocol, "hysteria2");
    assert_eq!(ports[0].network, "hysteria");
    assert_eq!(ports[0].transport, "udp");
    assert_eq!(ports[0].listen, "::");
    assert_eq!(ports[0].port, 8443);
}

#[test]
fn splits_host_and_port() {
    assert_eq!(
        parse_host_port("example.com:8443", 443),
        ("example.com".to_owned(), 8443)
    );
    assert_eq!(
        parse_host_port("example.com", 443),
        ("example.com".to_owned(), 443)
    );
    assert_eq!(
        parse_host_port("example.com:99999", 443),
        ("example.com:99999".to_owned(), 443)
    );
    assert_eq!(parse_host_port("::1:53", 443), ("::1".to_owned(), 53));
}

#[test]
fn joins_pem_lines() {
    let lines = vec![Json::text("A"), Json::Null, Json::text("B")];
    assert_eq!(lines_to_pem(&lines), "A\nB\n");
    assert_eq!(lines_to_pem(&vec![]), "\n");
}

#[test]
fn reality_handshake_prefers_the_destination() {
    let tls = sing_box_tls(&json(
        r#"{"streamSettings":{"security":"reality","realitySettings":{"dest":"www.example.org:8443","serverNames":["a.example"]}}}"#,
    ))
    .unwrap();
    assert_eq!(
        tls.to_text(),
        r#"{"enabled":true,"reality":{"enabled":true,"handshake":{"server":"www.example.org","server_port":8443}},"server_name":"a.example"}"#
    );
}

#[test]
fn inline_certificates_become_pem() {
    let tls = sing_box_tls(&json(
        r#"{"streamSettings":{"security":"tls","tlsSettings":{"certificates":[{"certificate":["c1","c2"],"key":["k"]}]}}}"#,
    ))
    .unwrap();
    assert_eq!(
        tls.to_text(),
        r#"{"certificate":"c1\nc2\n","enabled":true,"key":"k\n"}"#
    );
    assert!(sing_box_tls(&json(r#"{"streamSettings":{"security":"none"}}"#)).is_none());
}

#[test]
fn hysteria2_falls_back_to_the_node_certificate() {
    let inbound = json(
        r#"{"protocol":"hysteria","settings":{"version":2,"users":[{"auth":"s"},{"email":"x"}]},"streamSettings":{"network":"hysteria"}}"#,
    );
    let translation = translate(&inbound, &api_settings()).unwrap();
    assert_eq!(
        translation.to_text(),
        r#"{"listen":"::","listen_port":443,"tag":"HY2","tls":{"alpn":["h3"],"certificate_path":"/var/lib/marzban-node/ssl_cert.pem","enabled":true,"key_path":"/var/lib/marzban-node/ssl_key.pem"},"type":"hysteria2","users":[{"name":"s","password":"s"}]}"#
    );
    let inbound = json(
        r#"{"protocol":"hysteria","settings":{"version":2},"streamSettings":{"network":"hysteria","tlsSettings":{"alpn":["x"],"certificates":[{"certificate":["c"],"key":["k"]}]}}}"#,
    );
    let translation = translate(&inbound, &api_settings()).unwrap();
    assert_eq!(
        value(&translation)["tls"],
        serde_json::from_str::<Value>(
            r#"{"alpn":["x"],"certificate":"c\n","enabled":true,"key":"k\n"}"#
        )
        .unwrap()
    );
}

#[test]
fn transports_follow_the_network() {
    let ws = sing_box_transport(&json(
        r#"{"streamSettings":{"network":"websocket","wsSettings":{"path":"/p","headers":{"Host":"h"}}}}"#,
    ))
    .unwrap();
    assert_eq!(
        ws.to_text(),
        r#"{"headers":{"Host":"h"},"path":"/p","type":"ws"}"#
    );
    let grpc = sing_box_transport(&json(
        r#"{"streamSettings":{"network":"grpc","grpcSettings":{"serviceName":"s"}}}"#,
    ))
    .unwrap();
    assert_eq!(grpc.to_text(), r#"{"service_name":"s","type":"grpc"}"#);
    let http = sing_box_transport(&json(
        r#"{"streamSettings":{"network":"h2","httpSettings":{"path":"/q","host":["a","b"]}}}"#,
    ))
    .unwrap();
    assert_eq!(
        http.to_text(),
        r#"{"host":["a","b"],"path":"/q","type":"http"}"#
    );
    assert!(sing_box_transport(&json(r#"{"streamSettings":{"network":"tcp"}}"#)).is_none());
}

#[test]
fn shadowsocks_defaults() {
    let translation = translate(&json(r#"{"protocol":"shadowsocks"}"#), &api_settings()).unwrap();
    assert_eq!(
        translation.to_text(),
        r#"{"listen":"::","listen_port":0,"method":"chacha20-ietf-poly1305","password":"","tag":"shadowsocks","type":"shadowsocks"}"#
    );
}

#[test]
fn every_inbound_is_translated_in_order() {
    let inbounds = vec![
        json(r#"{"protocol":"trojan","tag":"T","port":1}"#),
        json(r#"{"protocol":"vless","tag":"V","port":2}"#),
    ];
    let config = value(&build_sing_box_config(&inbounds, &api_settings()).unwrap());
    assert_eq!(config["inbounds"][0]["tag"], "T");
    assert_eq!(config["inbounds"][1]["tag"], "V");
    assert_eq!(config["inbounds"].as_array().unwrap().len(), 2);
    assert_eq!(config["route"]["final"], "DIRECT");
    assert_eq!(config["log"]["level"], "warn");
    assert_eq!(config["outbounds"][1]["type"], "block");
}

#[test]
fn untagged_unsupported_inbound_is_named_so() {
    assert_eq!(inbound_tag(&json("{}")), "<untagged>");
    let inbounds = vec![json(r#"{"protocol":"socks"}"#)];
    let error = build_sing_box_config(&inbounds, &api_settings()).unwrap_err();
    assert_eq!(
        error.message(),
        "Inbound <untagged> is not supported by the sing-box translator yet"
    );
}

#[test]
fn json_numbers_and_members_survive() {
    let text = r#"{"a":[1,-2,2.5,true,null,"x\n"],"b":{"c":18446744073709551615}}"#;
    assert_eq!(json(text).to_text(), text);
    assert_eq!(json(text).get("b").unwrap().get("c").unwrap().as_u64(), Some(u64::MAX));
    assert_eq!(json("-2").as_i64(), Some(-2));
    assert_eq!(json("-2").as_u64(), None);
    assert_eq!(json("2.5").as_i64(), None);
    assert_eq!(json("18446744073709551615").as_i64(), None);
    let mut object = Object::new().with("k", Json::uint(1)).with("k", Json::uint(2));
    assert_eq!(object.get("k").unwrap().as_u64(), Some(2));
    assert_eq!(Json::Object(Object::new().with("k", Json::uint(2))).to_text(), r#"{"k":2}"#);
    assert_eq!(object.take("k").unwrap().as_u64(), Some(2));
    assert!(object.get("k").is_none());
}

#[test]
fn copies_of_a_configuration_are_equal() {
    let config = XrayConfig::from_controller_json(
        r#"{"inbounds":[{"tag":"HY2","port":8443,"protocol":"hysteria","settings":{"version":2},"streamSettings":{"network":"hysteria"}}],"x":[1.5,-3]}"#,
        &api_settings(),
    )
    .unwrap();
    let copy = config.clone();
    assert_eq!(copy.to_json(), config.to_json());
    assert_eq!(copy.sing_box_json(), config.sing_box_json());
    assert_eq!(copy.core_kind(), config.core_kind());
    assert!(copy == config);
}

#[test]
fn values_compare_by_what_they_hold() {
    assert!(json(r#"{"a":1,"b":[2.5,null]}"#) == json(r#"{"b":[2.5,null],"a":1}"#));
    assert!(json("0.0") == json("-0.0"));
    assert!(json("1") != json("1.0"));
    assert!(json("-1") != json("1"));
    assert!(json(r#"{"a":1}"#) != json(r#"{"a":1,"b":2}"#));
    assert!(json(r#"{"a":1,"b":2}"#) != json(r#"{"a":1}"#));
    assert!(json(r#"{"a":1}"#) != json(r#"{"a":2}"#));
    assert!(json("[1,2]") != json("[2,1]"));
    assert!(json("[]") != json("{}"));
    assert!(json("\"x\"") != json("\"y\""));
    assert!(json("true") != json("false"));
    let one = XrayConfig::from_controller_json("{}", &api_settings()).unwrap();
    let other = XrayConfig::from_controller_json(
        r#"{"inbounds":[{"tag":"A","protocol":"vless"}]}"#,
        &api_settings(),
    )
    .unwrap();
    assert!(one != other);
}

#[test]
fn deep_values_read_back_up_to_the_limit() {
    let deep = format!("{}{}", "[".repeat(127), "]".repeat(127));
    assert_eq!(json(&deep).to_text(), deep);
    let deeper = format!("{}{}", "[".repeat(128), "]".repeat(128));
    assert!(marzban_node::json_text::parse(&deeper).is_err());
}

#[test]
fn fed_back_text_gives_the_same_configuration() {
    let raw = r#"{"api":{"tag":"API"},"inbounds":[{"tag":"A","protocol":"vless","port":443}],"routing":{"rules":[{"outboundTag":"API"},{"outboundTag":"DIRECT"}]}}"#;
    let once = XrayConfig::from_controller_json(raw, &api_settings()).unwrap();
    let again = XrayConfig::from_controller_json(&once.to_json(), &api_settings()).unwrap();
    assert!(once == again);
    let value = value(again.xray_value());
    assert_eq!(value["inbounds"].as_array().unwrap().len(), 2);
    assert_eq!(value["routing"]["rules"].as_array().unwrap().len(), 2);

    let deep = format!(
        r#"{{"inbounds":[{{"tag":"A","protocol":"vless"}}],"x":{}{}}}"#,
        "[".repeat(126),
        "]".repeat(126)
    );
    let once = XrayConfig::from_controller_json(&deep, &api_settings()).unwrap();
    let again = XrayConfig::from_controller_json(&once.to_json(), &api_settings()).unwrap();
    assert!(once == again);
}
