//! Translation of controller inbounds into a sing-box configuration.
use vstd::prelude::*;
use vstd::string::*;
use crate::json::{
    Json, JsonView, Object, items_model, opt_array_view, opt_model, opt_str_view, or_view, str_view,
    uint_view, with_opt,
};
use crate::number::{decimal, decimal_round_trip, lemma_decimal_digits, parse_unsigned, unsigned_value};
use crate::text::{join, joined, rsplit_once, split_last, text_eq, texts};
use crate::xray_config::{ApiSettings, ApiView, ConfigError, ConfigErrorView};

verus! {

/// Whether an inbound is a Hysteria2 inbound: protocol `hysteria`, version 2,
/// over the `hysteria` network.
pub open spec fn is_hysteria2(inbound: JsonView) -> bool {
    &&& inbound.str_at("protocol"@) == Some("hysteria"@)
    &&& inbound.field("settings"@).field("version"@).as_i64() == Some(2i64)
    &&& inbound.field("streamSettings"@).str_at("network"@) == Some("hysteria"@)
}

/// Whether an inbound can only run on sing-box.
pub open spec fn needs_sing_box_core(inbound: JsonView) -> bool {
    is_hysteria2(inbound) || inbound.str_at("protocol"@) == Some("anytls"@)
}

/// The protocols that have a sing-box translation.
pub enum Protocol {
    Hysteria2,
    Vless,
    Shadowsocks,
    Trojan,
}

/// The protocol by which an inbound is translated, if there is one.
pub open spec fn protocol_view(inbound: JsonView) -> Option<Protocol> {
    let protocol = inbound.str_at("protocol"@);
    if is_hysteria2(inbound) {
        Some(Protocol::Hysteria2)
    } else if protocol == Some("vless"@) {
        Some(Protocol::Vless)
    } else if protocol == Some("shadowsocks"@) {
        Some(Protocol::Shadowsocks)
    } else if protocol == Some("trojan"@) {
        Some(Protocol::Trojan)
    } else {
        None
    }
}

/// How a user is called: by the e-mail, or else by a fallback.
pub open spec fn user_name_view(user: JsonView, fallback: Seq<char>) -> Seq<char> {
    match user.str_at("email"@) {
        Some(email) => email,
        None => fallback,
    }
}

/// A text, unless it is empty.
pub open spec fn non_empty(s: Option<Seq<char>>) -> Option<Seq<char>> {
    match s {
        Some(t) => if t.len() > 0 {
            Some(t)
        } else {
            None
        },
        None => None,
    }
}

/// The sing-box user of a client; a client without its secret is left out.
pub open spec fn user_view(protocol: Protocol, client: JsonView) -> Option<JsonView> {
    match protocol {
        Protocol::Hysteria2 => match client.str_at("auth"@) {
            Some(secret) => Some(
                JsonView::Object(
                    map![
                        "name"@ => str_view(user_name_view(client, secret)),
                        "password"@ => str_view(secret),
                    ],
                ),
            ),
            None => None,
        },
        Protocol::Vless => match client.str_at("id"@) {
            Some(id) => Some(
                JsonView::Object(
                    with_opt(
                        map![
                            "name"@ => str_view(user_name_view(client, id)),
                            "uuid"@ => str_view(id),
                        ],
                        "flow"@,
                        opt_str_view(non_empty(client.str_at("flow"@))),
                    ),
                ),
            ),
            None => None,
        },
        Protocol::Shadowsocks | Protocol::Trojan => match client.str_at("password"@) {
            Some(secret) => Some(
                JsonView::Object(
                    map![
                        "name"@ => str_view(user_name_view(client, secret)),
                        "password"@ => str_view(secret),
                    ],
                ),
            ),
            None => None,
        },
    }
}

/// The sing-box users of a list of clients, in order.
pub open spec fn users_view(protocol: Protocol, clients: Option<Seq<JsonView>>) -> Seq<JsonView> {
    match clients {
        Some(list) => list.filter_map(|client: JsonView| user_view(protocol, client)),
        None => Seq::empty(),
    }
}

/// The PEM text of an array of lines: each text on a line of its own.
pub open spec fn pem_view(lines: Seq<JsonView>) -> Seq<char> {
    joined(lines.filter_map(|line: JsonView| line.as_str()), "\n"@).push('\n')
}

/// The first item of an array under a key, null where there is none.
pub open spec fn first_at(value: JsonView, key: Seq<char>) -> JsonView {
    match value.array_at(key) {
        Some(items) => if items.len() > 0 {
            items[0]
        } else {
            JsonView::Null
        },
        None => JsonView::Null,
    }
}

/// What is written inline in a certificate entry: the PEM text of its lines,
/// unless the entry names a file.
pub open spec fn inline_view(
    entry: JsonView,
    file_key: Seq<char>,
    lines_key: Seq<char>,
) -> Option<JsonView> {
    if entry.str_at(file_key) is Some {
        None
    } else {
        match entry.array_at(lines_key) {
            Some(lines) => Some(str_view(pem_view(lines))),
            None => None,
        }
    }
}

/// The members of a TLS object with the first certificate of the settings: each
/// of certificate and key by its file, or else inline.
pub open spec fn certificate_view(
    tls: Map<Seq<char>, JsonView>,
    tls_settings: JsonView,
) -> Map<Seq<char>, JsonView> {
    let entry = first_at(tls_settings, "certificates"@);
    with_opt(
        with_opt(
            with_opt(
                with_opt(
                    tls,
                    "certificate_path"@,
                    opt_str_view(entry.str_at("certificateFile"@)),
                ),
                "certificate"@,
                inline_view(entry, "certificateFile"@, "certificate"@),
            ),
            "key_path"@,
            opt_str_view(entry.str_at("keyFile"@)),
        ),
        "key"@,
        inline_view(entry, "keyFile"@, "key"@),
    )
}

/// The file under a key of a certificate entry, or the node's own file where the
/// entry has the material neither in a file nor inline.
pub open spec fn file_or_default(
    entry: JsonView,
    file_key: Seq<char>,
    lines_key: Seq<char>,
    default: Seq<char>,
) -> Option<JsonView> {
    match entry.str_at(file_key) {
        Some(path) => Some(str_view(path)),
        None => if entry.array_at(lines_key) is Some {
            None
        } else {
            Some(str_view(default))
        },
    }
}

/// The TLS object of a Hysteria2 inbound.
pub open spec fn hysteria2_tls_view(tls_settings: JsonView, api: ApiView) -> JsonView {
    let entry = first_at(tls_settings, "certificates"@);
    let base = map!["enabled"@ => JsonView::Bool(true)];
    let certificate = with_opt(
        with_opt(
            base,
            "certificate_path"@,
            file_or_default(entry, "certificateFile"@, "certificate"@, api.ssl_cert_file),
        ),
        "certificate"@,
        inline_view(entry, "certificateFile"@, "certificate"@),
    );
    let key = with_opt(
        with_opt(
            certificate,
            "key_path"@,
            file_or_default(entry, "keyFile"@, "key"@, api.ssl_key_file),
        ),
        "key"@,
        inline_view(entry, "keyFile"@, "key"@),
    );
    JsonView::Object(
        key.insert(
            "alpn"@,
            or_view(
                opt_array_view(tls_settings.array_at("alpn"@)),
                JsonView::Array(seq![str_view("h3"@)]),
            ),
        ),
    )
}

/// The sing-box inbound of a Hysteria2 inbound.
pub open spec fn hysteria2_view(inbound: JsonView, api: ApiView) -> JsonView {
    JsonView::Object(
        map![
            "type"@ => str_view("hysteria2"@),
            "tag"@ => or_view(inbound.get("tag"@), str_view("HY2"@)),
            "listen"@ => or_view(inbound.get("listen"@), str_view("::"@)),
            "listen_port"@ => or_view(inbound.get("port"@), uint_view(443)),
            "users"@ => JsonView::Array(
                users_view(Protocol::Hysteria2, inbound.field("settings"@).array_at("users"@)),
            ),
            "tls"@ => hysteria2_tls_view(
                inbound.field("streamSettings"@).field("tlsSettings"@),
                api,
            ),
        ],
    )
}

/// What every translated inbound other than Hysteria2 has.
pub open spec fn base_view(inbound: JsonView, inbound_type: Seq<char>) -> Map<
    Seq<char>,
    JsonView,
> {
    map![
        "type"@ => str_view(inbound_type),
        "tag"@ => or_view(inbound.get("tag"@), str_view(inbound_type)),
        "listen"@ => or_view(inbound.get("listen"@), str_view("::"@)),
        "listen_port"@ => or_view(inbound.get("port"@), uint_view(0)),
    ]
}

/// The TLS object of plain TLS settings.
pub open spec fn plain_tls_view(tls_settings: JsonView) -> JsonView {
    JsonView::Object(
        certificate_view(
            with_opt(
                with_opt(
                    map!["enabled"@ => JsonView::Bool(true)],
                    "server_name"@,
                    opt_str_view(non_empty(tls_settings.str_at("serverName"@))),
                ),
                "alpn"@,
                opt_array_view(tls_settings.array_at("alpn"@)),
            ),
            tls_settings,
        ),
    )
}

/// Host and port of an address: the port after the last colon, or a default
/// where there is none.
pub open spec fn host_port_view(value: Seq<char>, default_port: u16) -> (Seq<char>, u16) {
    match split_last(value, ':') {
        Some((host, port)) => match unsigned_value(port, u16::MAX as nat) {
            Some(n) => (host, n as u16),
            None => (value, default_port),
        },
        None => (value, default_port),
    }
}

pub open spec fn handshake_object(server: Seq<char>, port: u16) -> JsonView {
    JsonView::Object(
        map!["server"@ => str_view(server), "server_port"@ => uint_view(port as u64)],
    )
}

/// The server that a REALITY inbound poses as: the destination, or else the
/// first server name at port 443.
pub open spec fn handshake_view(reality_settings: JsonView) -> Option<JsonView> {
    match reality_settings.str_at("dest"@) {
        Some(dest) => Some(
            handshake_object(host_port_view(dest, 443).0, host_port_view(dest, 443).1),
        ),
        None => match first_at(reality_settings, "serverNames"@).as_str() {
            Some(name) => Some(handshake_object(name, 443)),
            None => None,
        },
    }
}

/// The TLS object of REALITY settings.
pub open spec fn reality_tls_view(reality_settings: JsonView) -> JsonView {
    let reality = with_opt(
        with_opt(
            with_opt(
                map!["enabled"@ => JsonView::Bool(true)],
                "handshake"@,
                handshake_view(reality_settings),
            ),
            "private_key"@,
            opt_str_view(reality_settings.str_at("privateKey"@)),
        ),
        "short_id"@,
        opt_array_view(reality_settings.array_at("shortIds"@)),
    );
    JsonView::Object(
        with_opt(
            map!["enabled"@ => JsonView::Bool(true), "reality"@ => JsonView::Object(reality)],
            "server_name"@,
            opt_str_view(first_at(reality_settings, "serverNames"@).as_str()),
        ),
    )
}

/// The TLS object of an inbound, if it uses TLS or REALITY.
pub open spec fn tls_view(inbound: JsonView) -> Option<JsonView> {
    let stream = inbound.field("streamSettings"@);
    if stream.str_at("security"@) == Some("tls"@) {
        Some(plain_tls_view(stream.field("tlsSettings"@)))
    } else if stream.str_at("security"@) == Some("reality"@) {
        Some(reality_tls_view(stream.field("realitySettings"@)))
    } else {
        None
    }
}

/// The transport object of an inbound, if its network has one.
pub open spec fn transport_view(inbound: JsonView) -> Option<JsonView> {
    let stream = inbound.field("streamSettings"@);
    let network = stream.str_at("network"@);
    if network == Some("ws"@) || network == Some("websocket"@) {
        let ws = stream.field("wsSettings"@);
        Some(
            JsonView::Object(
                with_opt(
                    with_opt(
                        map!["type"@ => str_view("ws"@)],
                        "path"@,
                        opt_str_view(ws.str_at("path"@)),
                    ),
                    "headers"@,
                    ws.get("headers"@),
                ),
            ),
        )
    } else if network == Some("grpc"@) {
        Some(
            JsonView::Object(
                with_opt(
                    map!["type"@ => str_view("grpc"@)],
                    "service_name"@,
                    opt_str_view(stream.field("grpcSettings"@).str_at("serviceName"@)),
                ),
            ),
        )
    } else if network == Some("http"@) || network == Some("h2"@) {
        let http = stream.field("httpSettings"@);
        Some(
            JsonView::Object(
                with_opt(
                    with_opt(
                        map!["type"@ => str_view("http"@)],
                        "path"@,
                        opt_str_view(http.str_at("path"@)),
                    ),
                    "host"@,
                    opt_array_view(http.array_at("host"@)),
                ),
            ),
        )
    } else {
        None
    }
}

/// An inbound object with TLS and transport, where the inbound has them.
pub open spec fn with_stream_view(
    base: Map<Seq<char>, JsonView>,
    inbound: JsonView,
) -> JsonView {
    JsonView::Object(
        with_opt(
            with_opt(base, "tls"@, tls_view(inbound)),
            "transport"@,
            transport_view(inbound),
        ),
    )
}

/// The sing-box inbound of a VLESS inbound.
pub open spec fn vless_view(inbound: JsonView) -> JsonView {
    with_stream_view(
        base_view(inbound, "vless"@).insert(
            "users"@,
            JsonView::Array(
                users_view(Protocol::Vless, inbound.field("settings"@).array_at("clients"@)),
            ),
        ),
        inbound,
    )
}

/// The sing-box inbound of a Shadowsocks inbound. The users are left out where
/// there are none.
pub open spec fn shadowsocks_view(inbound: JsonView) -> JsonView {
    let settings = inbound.field("settings"@);
    let users = users_view(Protocol::Shadowsocks, settings.array_at("clients"@));
    JsonView::Object(
        with_opt(
            with_opt(
                base_view(inbound, "shadowsocks"@).insert(
                    "method"@,
                    or_view(settings.get("method"@), str_view("chacha20-ietf-poly1305"@)),
                ).insert("password"@, or_view(settings.get("password"@), str_view(""@))),
                "network"@,
                opt_str_view(non_empty(settings.str_at("network"@))),
            ),
            "users"@,
            if users.len() > 0 {
                Some(JsonView::Array(users))
            } else {
                None
            },
        ),
    )
}

/// The sing-box inbound of a Trojan inbound.
pub open spec fn trojan_view(inbound: JsonView) -> JsonView {
    with_stream_view(
        base_view(inbound, "trojan"@).insert(
            "users"@,
            JsonView::Array(
                users_view(Protocol::Trojan, inbound.field("settings"@).array_at("clients"@)),
            ),
        ),
        inbound,
    )
}

/// The sing-box inbound of an inbound, if its protocol has a translation.
pub open spec fn translated(inbound: JsonView, api: ApiView) -> Option<JsonView> {
    match protocol_view(inbound) {
        Some(Protocol::Hysteria2) => Some(hysteria2_view(inbound, api)),
        Some(Protocol::Vless) => Some(vless_view(inbound)),
        Some(Protocol::Shadowsocks) => Some(shadowsocks_view(inbound)),
        Some(Protocol::Trojan) => Some(trojan_view(inbound)),
        None => None,
    }
}

/// How an inbound is called in messages.
pub open spec fn inbound_tag_view(inbound: JsonView) -> Seq<char> {
    match inbound.str_at("tag"@) {
        Some(tag) => tag,
        None => "<untagged>"@,
    }
}

/// The first inbound that has no translation.
pub open spec fn first_unsupported(inbounds: Seq<JsonView>) -> Option<JsonView>
    decreases inbounds.len(),
{
    if inbounds.len() == 0 {
        None
    } else if protocol_view(inbounds[0]) is None {
        Some(inbounds[0])
    } else {
        first_unsupported(inbounds.drop_first())
    }
}

/// The sing-box configuration around a list of translated inbounds.
pub open spec fn config_around(inbounds: Seq<JsonView>) -> JsonView {
    JsonView::Object(
        map![
            "log"@ => JsonView::Object(map!["level"@ => str_view("warn"@)]),
            "inbounds"@ => JsonView::Array(inbounds),
            "outbounds"@ => JsonView::Array(
                seq![
                    JsonView::Object(
                        map!["type"@ => str_view("direct"@), "tag"@ => str_view("DIRECT"@)],
                    ),
                    JsonView::Object(
                        map!["type"@ => str_view("block"@), "tag"@ => str_view("BLOCK"@)],
                    ),
                ],
            ),
            "route"@ => JsonView::Object(map!["final"@ => str_view("DIRECT"@)]),
        ],
    )
}

/// The translations of a list of inbounds, one for one.
pub open spec fn all_translated(inbounds: Seq<JsonView>, api: ApiView) -> Seq<JsonView> {
    inbounds.map_values(|inbound: JsonView| translated(inbound, api)->0)
}

/// The sing-box configuration of a list of inbounds; the first inbound without a
/// translation is an error.
pub open spec fn sing_box_view(inbounds: Seq<JsonView>, api: ApiView) -> Result<
    JsonView,
    ConfigErrorView,
> {
    match first_unsupported(inbounds) {
        Some(inbound) => Err(
            ConfigErrorView::UnsupportedSingBoxInbound(inbound_tag_view(inbound)),
        ),
        None => Ok(config_around(all_translated(inbounds, api))),
    }
}

/// Whether an inbound is a Hysteria2 inbound.
pub fn is_hysteria2_inbound(inbound: &Json) -> (yes: bool)
    ensures
        yes == is_hysteria2(inbound@),
{
    inbound.str_is("protocol", "hysteria") && inbound.field("settings").field("version").as_i64()
        == Some(2i64) && inbound.field("streamSettings").str_is("network", "hysteria")
}

/// Whether an inbound can only run on sing-box.
pub fn requires_sing_box(inbound: &Json) -> (yes: bool)
    ensures
        yes == needs_sing_box_core(inbound@),
{
    is_hysteria2_inbound(inbound) || inbound.str_is("protocol", "anytls")
}

/// The protocol by which an inbound is translated, if there is one.
pub fn protocol_of(inbound: &Json) -> (protocol: Option<Protocol>)
    ensures
        protocol == protocol_view(inbound@),
{
    if is_hysteria2_inbound(inbound) {
        Some(Protocol::Hysteria2)
    } else if inbound.str_is("protocol", "vless") {
        Some(Protocol::Vless)
    } else if inbound.str_is("protocol", "shadowsocks") {
        Some(Protocol::Shadowsocks)
    } else if inbound.str_is("protocol", "trojan") {
        Some(Protocol::Trojan)
    } else {
        None
    }
}

/// How a user is called.
pub fn user_name(user: &Json, fallback: &str) -> (name: String)
    ensures
        name@ == user_name_view(user@, fallback@),
{
    match user.str_at("email") {
        Some(email) => email.to_owned(),
        None => fallback.to_owned(),
    }
}

/// A copy of the text under a key, unless it is empty.
fn non_empty_member(value: &Json, key: &str) -> (member: Option<Json>)
    ensures
        opt_model(member) == opt_str_view(non_empty(value@.str_at(key@))),
{
    match value.str_at(key) {
        Some(s) => {
            let nothing = "";
            proof {
                reveal_strlit("");
            }
            if text_eq(s, nothing) {
                None
            } else {
                assert(s@.len() != 0) by {
                    if s@.len() == 0 {
                        assert(s@ =~= ""@);
                    }
                }
                Some(Json::text(s))
            }
        },
        None => None,
    }
}

/// A user with a name and a password.
fn password_user(client: &Json, secret: &str) -> (user: Json)
    ensures
        user@ == JsonView::Object(
            map![
                "name"@ => str_view(user_name_view(client@, secret@)),
                "password"@ => str_view(secret@),
            ],
        ),
{
    Json::Object(
        Object::new().with("name", Json::Str(user_name(client, secret))).with(
            "password",
            Json::text(secret),
        ),
    )
}

/// The sing-box user of a client.
pub fn sing_box_user(protocol: &Protocol, client: &Json) -> (user: Option<Json>)
    ensures
        opt_model(user) == user_view(*protocol, client@),
{
    match protocol {
        Protocol::Hysteria2 => match client.str_at("auth") {
            Some(secret) => Some(password_user(client, secret)),
            None => None,
        },
        Protocol::Vless => match client.str_at("id") {
            Some(id) => {
                let mut user = Object::new().with("name", Json::Str(user_name(client, id))).with(
                    "uuid",
                    Json::text(id),
                );
                user.set_opt("flow", non_empty_member(client, "flow"));
                Some(Json::Object(user))
            },
            None => None,
        },
        Protocol::Shadowsocks | Protocol::Trojan => match client.str_at("password") {
            Some(secret) => Some(password_user(client, secret)),
            None => None,
        },
    }
}

/// The sing-box users of the clients under a key.
pub fn sing_box_users(protocol: &Protocol, settings: &Json, key: &str) -> (users: Vec<Json>)
    ensures
        items_model(users@) == users_view(*protocol, settings@.array_at(key@)),
{
    let mut users: Vec<Json> = Vec::new();
    match settings.array_at(key) {
        Some(clients) => {
            let ghost models = items_model(clients@);
            let ghost f = |client: JsonView| user_view(*protocol, client);
            let mut i: usize = 0;
            assert(items_model(users@) =~= models.take(0).filter_map(f));
            while i < clients.len()
                invariant
                    i <= clients@.len(),
                    models == items_model(clients@),
                    f == (|client: JsonView| user_view(*protocol, client)),
                    items_model(users@) == models.take(i as int).filter_map(f),
                decreases clients@.len() - i,
            {
                let ghost done = users@;
                proof {
                    models.lemma_filter_map_take_succ(f, i as int);
                }
                match sing_box_user(protocol, &clients[i]) {
                    Some(user) => {
                        users.push(user);
                        assert(items_model(users@) =~= items_model(done).push(user@));
                    },
                    None => {},
                }
                assert(items_model(users@) =~= models.take(i + 1).filter_map(f));
                i = i + 1;
            }
            assert(models.take(i as int) =~= models);
        },
        None => {
            assert(items_model(users@) =~= Seq::empty());
        },
    }
    users
}

/// The PEM text of an array of lines.
pub fn lines_to_pem(lines: &Vec<Json>) -> (pem: String)
    ensures
        pem@ == pem_view(items_model(lines@)),
{
    let ghost models = items_model(lines@);
    let ghost f = |line: JsonView| line.as_str();
    let mut parts: Vec<String> = Vec::new();
    let mut i: usize = 0;
    assert(texts(parts@) =~= models.take(0).filter_map(f));
    while i < lines.len()
        invariant
            i <= lines@.len(),
            models == items_model(lines@),
            f == (|line: JsonView| line.as_str()),
            texts(parts@) == models.take(i as int).filter_map(f),
        decreases lines@.len() - i,
    {
        let ghost done = parts@;
        proof {
            models.lemma_filter_map_take_succ(f, i as int);
        }
        match lines[i].as_str() {
            Some(line) => {
                parts.push(line.to_owned());
                assert(texts(parts@) =~= texts(done).push(line@));
            },
            None => {},
        }
        assert(texts(parts@) =~= models.take(i + 1).filter_map(f));
        i = i + 1;
    }
    assert(models.take(i as int) =~= models);
    let mut pem = join(parts.as_slice(), "\n");
    pem.push('\n');
    pem
}

/// The first item of an array under a key, null where there is none.
fn first_of<'a>(value: &'a Json, key: &str) -> (first: &'a Json)
    ensures
        first@ == first_at(value@, key@),
{
    match value.array_at(key) {
        Some(items) => if items.len() > 0 {
            &items[0]
        } else {
            &Json::Null
        },
        None => &Json::Null,
    }
}

/// What is written inline in a certificate entry.
fn inline_material(entry: &Json, file_key: &str, lines_key: &str) -> (pem: Option<Json>)
    ensures
        opt_model(pem) == inline_view(entry@, file_key@, lines_key@),
{
    if entry.str_at(file_key).is_some() {
        None
    } else {
        match entry.array_at(lines_key) {
            Some(lines) => Some(Json::Str(lines_to_pem(lines))),
            None => None,
        }
    }
}

/// The file under a key of a certificate entry, or a default file.
fn material_file(entry: &Json, file_key: &str, lines_key: &str, default: &str) -> (path: Option<
    Json,
>)
    ensures
        opt_model(path) == file_or_default(entry@, file_key@, lines_key@, default@),
{
    match entry.str_at(file_key) {
        Some(path) => Some(Json::text(path)),
        None => if entry.array_at(lines_key).is_some() {
            None
        } else {
            Some(Json::text(default))
        },
    }
}

/// Adds the first certificate of the settings to a TLS object.
pub fn apply_certificate_settings(tls: &mut Object, tls_settings: &Json)
    ensures
        final(tls)@ == certificate_view(old(tls)@, tls_settings@),
{
    let entry = first_of(tls_settings, "certificates");
    tls.set_opt("certificate_path", entry.text_member("certificateFile"));
    tls.set_opt("certificate", inline_material(entry, "certificateFile", "certificate"));
    tls.set_opt("key_path", entry.text_member("keyFile"));
    tls.set_opt("key", inline_material(entry, "keyFile", "key"));
}

/// The TLS object of a Hysteria2 inbound.
pub fn hysteria2_tls(tls_settings: &Json, api: &ApiSettings) -> (tls: Json)
    ensures
        tls@ == hysteria2_tls_view(tls_settings@, api@),
{
    let entry = first_of(tls_settings, "certificates");
    let mut tls = Object::new().with("enabled", Json::Bool(true));
    tls.set_opt(
        "certificate_path",
        material_file(entry, "certificateFile", "certificate", api.ssl_cert_file.as_str()),
    );
    tls.set_opt("certificate", inline_material(entry, "certificateFile", "certificate"));
    tls.set_opt("key_path", material_file(entry, "keyFile", "key", api.ssl_key_file.as_str()));
    tls.set_opt("key", inline_material(entry, "keyFile", "key"));
    let alpn = match tls_settings.array_member("alpn") {
        Some(alpn) => alpn,
        None => {
            let h3 = vec![Json::text("h3")];
            assert(items_model(h3@) =~= seq![str_view("h3"@)]);
            Json::Array(h3)
        },
    };
    tls.set("alpn", alpn);
    Json::Object(tls)
}

/// The sing-box inbound of a Hysteria2 inbound.
pub fn sing_box_hysteria2_inbound(inbound: &Json, api: &ApiSettings) -> (translation: Json)
    ensures
        translation@ == hysteria2_view(inbound@, api@),
{
    let users = sing_box_users(&Protocol::Hysteria2, inbound.field("settings"), "users");
    let tls = hysteria2_tls(inbound.field("streamSettings").field("tlsSettings"), api);
    Json::Object(
        Object::new().with("type", Json::text("hysteria2")).with(
            "tag",
            inbound.member_or("tag", Json::text("HY2")),
        ).with("listen", inbound.member_or("listen", Json::text("::"))).with(
            "listen_port",
            inbound.member_or("port", Json::uint(443)),
        ).with("users", Json::Array(users)).with("tls", tls),
    )
}

/// What every translated inbound other than Hysteria2 has.
pub fn sing_box_inbound_base(inbound: &Json, inbound_type: &str) -> (base: Object)
    ensures
        base@ == base_view(inbound@, inbound_type@),
{
    Object::new().with("type", Json::text(inbound_type)).with(
        "tag",
        inbound.member_or("tag", Json::text(inbound_type)),
    ).with("listen", inbound.member_or("listen", Json::text("::"))).with(
        "listen_port",
        inbound.member_or("port", Json::uint(0)),
    )
}

/// The TLS object of plain TLS settings.
pub fn sing_box_tls_from_settings(tls_settings: &Json) -> (tls: Json)
    ensures
        tls@ == plain_tls_view(tls_settings@),
{
    let mut tls = Object::new().with("enabled", Json::Bool(true));
    tls.set_opt("server_name", non_empty_member(tls_settings, "serverName"));
    tls.set_opt("alpn", tls_settings.array_member("alpn"));
    apply_certificate_settings(&mut tls, tls_settings);
    Json::Object(tls)
}

/// Splits an address into host and port.
pub fn parse_host_port(value: &str, default_port: u16) -> (address: (String, u16))
    ensures
        (address.0@, address.1) == host_port_view(value@, default_port),
{
    match rsplit_once(value, ':') {
        Some((host, port)) => match parse_unsigned(port.as_str(), u16::MAX as u64) {
            Some(n) => (host, n as u16),
            None => (value.to_owned(), default_port),
        },
        None => (value.to_owned(), default_port),
    }
}

fn handshake_json(server: &str, port: u16) -> (handshake: Json)
    ensures
        handshake@ == handshake_object(server@, port),
{
    Json::Object(
        Object::new().with("server", Json::text(server)).with(
            "server_port",
            Json::uint(port as u64),
        ),
    )
}

/// The server that a REALITY inbound poses as.
pub fn reality_handshake(reality_settings: &Json) -> (handshake: Option<Json>)
    ensures
        opt_model(handshake) == handshake_view(reality_settings@),
{
    match reality_settings.str_at("dest") {
        Some(dest) => {
            let (server, port) = parse_host_port(dest, 443);
            Some(handshake_json(server.as_str(), port))
        },
        None => match first_of(reality_settings, "serverNames").as_str() {
            Some(name) => Some(handshake_json(name, 443)),
            None => None,
        },
    }
}

/// The TLS object of REALITY settings.
pub fn sing_box_reality_tls_from_settings(reality_settings: &Json) -> (tls: Json)
    ensures
        tls@ == reality_tls_view(reality_settings@),
{
    let mut reality = Object::new().with("enabled", Json::Bool(true));
    reality.set_opt("handshake", reality_handshake(reality_settings));
    reality.set_opt("private_key", reality_settings.text_member("privateKey"));
    reality.set_opt("short_id", reality_settings.array_member("shortIds"));
    let mut tls = Object::new().with("enabled", Json::Bool(true)).with(
        "reality",
        Json::Object(reality),
    );
    let name = match first_of(reality_settings, "serverNames").as_str() {
        Some(name) => Some(Json::text(name)),
        None => None,
    };
    tls.set_opt("server_name", name);
    Json::Object(tls)
}

/// The TLS object of an inbound, if it uses TLS or REALITY.
pub fn sing_box_tls(inbound: &Json) -> (tls: Option<Json>)
    ensures
        opt_model(tls) == tls_view(inbound@),
{
    let stream = inbound.field("streamSettings");
    if stream.str_is("security", "tls") {
        Some(sing_box_tls_from_settings(stream.field("tlsSettings")))
    } else if stream.str_is("security", "reality") {
        Some(sing_box_reality_tls_from_settings(stream.field("realitySettings")))
    } else {
        None
    }
}

/// A copy of the member under a key.
fn member(value: &Json, key: &str) -> (copy: Option<Json>)
    ensures
        opt_model(copy) == value@.get(key@),
{
    match value.get(key) {
        Some(v) => Some(v.clone()),
        None => None,
    }
}

/// The transport object of an inbound, if its network has one.
pub fn sing_box_transport(inbound: &Json) -> (transport: Option<Json>)
    ensures
        opt_model(transport) == transport_view(inbound@),
{
    let stream = inbound.field("streamSettings");
    if stream.str_is("network", "ws") || stream.str_is("network", "websocket") {
        let ws = stream.field("wsSettings");
        let mut transport = Object::new().with("type", Json::text("ws"));
        transport.set_opt("path", ws.text_member("path"));
        transport.set_opt("headers", member(ws, "headers"));
        Some(Json::Object(transport))
    } else if stream.str_is("network", "grpc") {
        let mut transport = Object::new().with("type", Json::text("grpc"));
        transport.set_opt("service_name", stream.field("grpcSettings").text_member("serviceName"));
        Some(Json::Object(transport))
    } else if stream.str_is("network", "http") || stream.str_is("network", "h2") {
        let http = stream.field("httpSettings");
        let mut transport = Object::new().with("type", Json::text("http"));
        transport.set_opt("path", http.text_member("path"));
        transport.set_opt("host", http.array_member("host"));
        Some(Json::Object(transport))
    } else {
        None
    }
}

/// An inbound object with TLS and transport, where the inbound has them.
fn with_stream(base: Object, inbound: &Json) -> (translation: Json)
    ensures
        translation@ == with_stream_view(base@, inbound@),
{
    let mut value = base;
    value.set_opt("tls", sing_box_tls(inbound));
    value.set_opt("transport", sing_box_transport(inbound));
    Json::Object(value)
}

/// The sing-box inbound of a VLESS inbound.
pub fn sing_box_vless_inbound(inbound: &Json) -> (translation: Json)
    ensures
        translation@ == vless_view(inbound@),
{
    let users = sing_box_users(&Protocol::Vless, inbound.field("settings"), "clients");
    with_stream(
        sing_box_inbound_base(inbound, "vless").with("users", Json::Array(users)),
        inbound,
    )
}

/// The sing-box inbound of a Shadowsocks inbound.
pub fn sing_box_shadowsocks_inbound(inbound: &Json) -> (translation: Json)
    ensures
        translation@ == shadowsocks_view(inbound@),
{
    let settings = inbound.field("settings");
    let mut value = sing_box_inbound_base(inbound, "shadowsocks").with(
        "method",
        settings.member_or("method", Json::text("chacha20-ietf-poly1305")),
    ).with("password", settings.member_or("password", Json::text("")));
    value.set_opt("network", non_empty_member(settings, "network"));
    let users = sing_box_users(&Protocol::Shadowsocks, settings, "clients");
    if users.len() > 0 {
        value.set("users", Json::Array(users));
    }
    Json::Object(value)
}

/// The sing-box inbound of a Trojan inbound.
pub fn sing_box_trojan_inbound(inbound: &Json) -> (translation: Json)
    ensures
        translation@ == trojan_view(inbound@),
{
    let users = sing_box_users(&Protocol::Trojan, inbound.field("settings"), "clients");
    with_stream(
        sing_box_inbound_base(inbound, "trojan").with("users", Json::Array(users)),
        inbound,
    )
}

/// How an inbound is called in messages.
pub fn inbound_tag(inbound: &Json) -> (tag: String)
    ensures
        tag@ == inbound_tag_view(inbound@),
{
    match inbound.str_at("tag") {
        Some(tag) => tag.to_owned(),
        None => "<untagged>".to_owned(),
    }
}

/// The sing-box inbound of an inbound, if its protocol has a translation.
pub fn translate(inbound: &Json, api: &ApiSettings) -> (translation: Option<Json>)
    ensures
        opt_model(translation) == translated(inbound@, api@),
{
    match protocol_of(inbound) {
        Some(Protocol::Hysteria2) => Some(sing_box_hysteria2_inbound(inbound, api)),
        Some(Protocol::Vless) => Some(sing_box_vless_inbound(inbound)),
        Some(Protocol::Shadowsocks) => Some(sing_box_shadowsocks_inbound(inbound)),
        Some(Protocol::Trojan) => Some(sing_box_trojan_inbound(inbound)),
        None => None,
    }
}

/// The sing-box configuration around a list of translated inbounds.
fn config_json(inbounds: Vec<Json>) -> (config: Json)
    ensures
        config@ == config_around(items_model(inbounds@)),
{
    let direct = Json::Object(
        Object::new().with("type", Json::text("direct")).with("tag", Json::text("DIRECT")),
    );
    let block = Json::Object(
        Object::new().with("type", Json::text("block")).with("tag", Json::text("BLOCK")),
    );
    let outbounds = vec![direct, block];
    assert(items_model(outbounds@) =~= seq![direct@, block@]);
    Json::Object(
        Object::new().with(
            "log",
            Json::Object(Object::new().with("level", Json::text("warn"))),
        ).with("inbounds", Json::Array(inbounds)).with("outbounds", Json::Array(outbounds)).with(
            "route",
            Json::Object(Object::new().with("final", Json::text("DIRECT"))),
        ),
    )
}

/// The sing-box configuration of a list of inbounds.
pub fn build_sing_box_config(inbounds: &Vec<Json>, api: &ApiSettings) -> (config: Result<
    Json,
    ConfigError,
>)
    ensures
        match config {
            Ok(value) => sing_box_view(items_model(inbounds@), api@) == Ok::<
                JsonView,
                ConfigErrorView,
            >(value@),
            Err(error) => sing_box_view(items_model(inbounds@), api@) == Err::<
                JsonView,
                ConfigErrorView,
            >(error@),
        },
{
    let ghost models = items_model(inbounds@);
    let mut translations: Vec<Json> = Vec::new();
    let mut i: usize = 0;
    assert(models.skip(0) =~= models);
    while i < inbounds.len()
        invariant
            i <= inbounds@.len(),
            models == items_model(inbounds@),
            first_unsupported(models) == first_unsupported(models.skip(i as int)),
            items_model(translations@) == all_translated(models.take(i as int), api@),
        decreases inbounds@.len() - i,
    {
        let ghost done = translations@;
        assert(models.skip(i as int)[0] == models[i as int]);
        assert(models.skip(i as int).drop_first() =~= models.skip(i + 1));
        match translate(&inbounds[i], api) {
            Some(translation) => {
                translations.push(translation);
                assert(items_model(translations@) =~= items_model(done).push(translation@));
                assert(all_translated(models.take(i + 1), api@) =~= all_translated(
                    models.take(i as int),
                    api@,
                ).push(translation@));
            },
            None => {
                return Err(ConfigError::UnsupportedSingBoxInbound(inbound_tag(&inbounds[i])));
            },
        }
        i = i + 1;
    }
    assert(models.take(i as int) =~= models);
    assert(models.skip(i as int) =~= Seq::empty());
    Ok(config_json(translations))
}

proof fn lemma_first_unsupported(inbounds: Seq<JsonView>)
    ensures
        match first_unsupported(inbounds) {
            Some(inbound) => exists|i: int|
                0 <= i < inbounds.len() && inbounds[i] == inbound && protocol_view(inbound) is None
                    && forall|j: int|
                    0 <= j < i ==> protocol_view(#[trigger] inbounds[j]) is Some,
            None => forall|j: int|
                0 <= j < inbounds.len() ==> protocol_view(#[trigger] inbounds[j]) is Some,
        },
    decreases inbounds.len(),
{
    if inbounds.len() > 0 && protocol_view(inbounds[0]) is Some {
        let rest = inbounds.drop_first();
        lemma_first_unsupported(rest);
        assert forall|j: int|
            0 <= j < inbounds.len() && (j == 0 || protocol_view(
                rest[j - 1],
            ) is Some) implies protocol_view(#[trigger] inbounds[j]) is Some by {
            if j > 0 {
                assert(rest[j - 1] == inbounds[j]);
            }
        }
        match first_unsupported(rest) {
            Some(inbound) => {
                let i = choose|i: int|
                    0 <= i < rest.len() && rest[i] == inbound && protocol_view(inbound) is None
                        && forall|j: int|
                        0 <= j < i ==> protocol_view(#[trigger] rest[j]) is Some;
                assert(inbounds[i + 1] == inbound);
            },
            None => {},
        }
    }
}

/// A list of inbounds has a sing-box configuration if and only if every one of
/// them has a translation; otherwise the refusal names the first that has none.
pub proof fn unsupported_inbounds_are_refused(inbounds: Seq<JsonView>, api: ApiView)
    ensures
        sing_box_view(inbounds, api) is Ok <==> forall|i: int|
            0 <= i < inbounds.len() ==> protocol_view(#[trigger] inbounds[i]) is Some,
        match sing_box_view(inbounds, api) {
            Ok(_) => true,
            Err(error) => exists|i: int|
                0 <= i < inbounds.len() && protocol_view(#[trigger] inbounds[i]) is None && error
                    == ConfigErrorView::UnsupportedSingBoxInbound(inbound_tag_view(inbounds[i]))
                    && forall|j: int|
                    0 <= j < i ==> protocol_view(#[trigger] inbounds[j]) is Some,
        },
{
    lemma_first_unsupported(inbounds);
}

proof fn lemma_config_keys()
    ensures
        "inbounds"@ != "outbounds"@,
        "inbounds"@ != "route"@,
        "inbounds"@ != "log"@,
{
    reveal_strlit("inbounds");
    reveal_strlit("outbounds");
    reveal_strlit("route");
    reveal_strlit("log");
    assert("inbounds"@.len() == 8);
    assert("outbounds"@.len() == 9);
    assert("route"@.len() == 5);
    assert("log"@.len() == 3);
}

/// No inbound is dropped on the way to sing-box: the configuration holds the
/// translation of each inbound, in order, and no other inbound.
pub proof fn every_inbound_is_translated(inbounds: Seq<JsonView>, api: ApiView)
    requires
        sing_box_view(inbounds, api) is Ok,
    ensures
        ({
            let config = sing_box_view(inbounds, api)->Ok_0;
            &&& config.array_at("inbounds"@) is Some
            &&& config.array_at("inbounds"@)->0.len() == inbounds.len()
            &&& forall|i: int|
                0 <= i < inbounds.len() ==> translated(inbounds[i], api) == Some(
                    #[trigger] config.array_at("inbounds"@)->0[i],
                )
        }),
{
    lemma_first_unsupported(inbounds);
    lemma_config_keys();
    assert(config_around(all_translated(inbounds, api)).array_at("inbounds"@) == Some(
        all_translated(inbounds, api),
    ));
}

proof fn lemma_inbound_keys()
    ensures
        "type"@ != "tag"@,
        "type"@ != "listen"@,
        "type"@ != "listen_port"@,
        "users"@ != "tag"@,
        "users"@ != "listen"@,
        "users"@ != "listen_port"@,
        "tls"@ != "tag"@,
        "tls"@ != "listen"@,
        "tls"@ != "listen_port"@,
        "transport"@ != "tag"@,
        "transport"@ != "listen"@,
        "transport"@ != "listen_port"@,
        "method"@ != "tag"@,
        "method"@ != "listen"@,
        "method"@ != "listen_port"@,
        "password"@ != "tag"@,
        "password"@ != "listen"@,
        "password"@ != "listen_port"@,
        "network"@ != "tag"@,
        "network"@ != "listen"@,
        "network"@ != "listen_port"@,
        "tag"@ != "listen"@,
        "tag"@ != "listen_port"@,
        "listen"@ != "listen_port"@,
{
    reveal_strlit("type");
    reveal_strlit("users");
    reveal_strlit("tls");
    reveal_strlit("transport");
    reveal_strlit("method");
    reveal_strlit("password");
    reveal_strlit("network");
    reveal_strlit("tag");
    reveal_strlit("listen");
    reveal_strlit("listen_port");
    assert("type"@.len() == 4);
    assert("users"@.len() == 5);
    assert("tls"@.len() == 3);
    assert("transport"@.len() == 9);
    assert("method"@.len() == 6);
    assert("password"@.len() == 8);
    assert("network"@.len() == 7);
    assert("tag"@.len() == 3);
    assert("listen"@.len() == 6);
    assert("listen_port"@.len() == 11);
    assert("tag"@[1] != "tls"@[1]);
    assert("listen"@[0] != "method"@[0]);
}

/// A translated inbound keeps the tag, the address and the port of the inbound.
pub proof fn translation_keeps_tag_and_address(inbound: JsonView, api: ApiView)
    requires
        translated(inbound, api) is Some,
    ensures
        inbound.get("tag"@) is Some ==> translated(inbound, api)->0.get("tag"@) == inbound.get(
            "tag"@,
        ),
        inbound.get("listen"@) is Some ==> translated(inbound, api)->0.get("listen"@)
            == inbound.get("listen"@),
        inbound.get("port"@) is Some ==> translated(inbound, api)->0.get("listen_port"@)
            == inbound.get("port"@),
{
    lemma_inbound_keys();
}

/// The PEM text of any list of lines ends with a line feed.
pub proof fn pem_ends_with_newline(lines: Seq<JsonView>)
    ensures
        pem_view(lines).len() > 0,
        pem_view(lines).last() == '\n',
{
}

/// A host, a colon and a port in decimal are split into that host and that port.
pub proof fn host_port_round_trip(host: Seq<char>, port: u16, default_port: u16)
    ensures
        host_port_view(host + seq![':'] + decimal(port as nat), default_port) == (host, port),
{
    let digits = decimal(port as nat);
    let whole = host + seq![':'] + digits;
    lemma_decimal_digits(port as nat);
    decimal_round_trip(port as nat, u16::MAX as nat);
    whole.index_of_last_ensures(':');
    let n = host.len() as int;
    assert(whole[n] == ':');
    assert(whole.contains(':'));
    assert forall|j: int| n < j < whole.len() implies whole[j] != ':' by {
        assert(whole[j] == digits[j - n - 1]);
        assert(crate::number::is_digit(digits[j - n - 1]));
    }
    assert(whole.index_of_last(':') == Some(n));
    assert(whole.take(n) =~= host);
    assert(whole.skip(n + 1) =~= digits);
}

} // verus!
