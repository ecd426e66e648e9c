//! What the translation to sing-box keeps of an inbound.
use vstd::prelude::*;
use vstd::string::*;
use crate::json::JsonView;
use crate::number::unsigned_value;
use crate::sing_box::{
    host_port_view, pem_view, protocol_view, translated, user_view, users_view,
};
use crate::text::{joined, split_all, split_last};
use crate::text_laws::{joined_pieces_are_split, split_last_takes_apart};
use crate::xray_config::ApiView;

verus! {

/// How many clients before a position hold a secret under a key.
pub open spec fn secrets_before(clients: Seq<JsonView>, key: Seq<char>, at: int) -> nat {
    clients.take(at).filter(|client: JsonView| client.str_at(key) is Some).len()
}

proof fn lemma_filter_map_place(
    items: Seq<JsonView>,
    f: spec_fn(JsonView) -> Option<JsonView>,
    p: spec_fn(JsonView) -> bool,
    at: int,
)
    requires
        0 <= at < items.len(),
        forall|x: JsonView| #[trigger] p(x) <==> f(x) is Some,
        f(items[at]) is Some,
    ensures
        items.take(at).filter(p).len() < items.filter_map(f).len(),
        items.filter_map(f)[items.take(at).filter(p).len() as int] == f(items[at])->0,
    decreases items.len(),
{
    let front = items.drop_last();
    lemma_filter_map_count(front, f, p);
    if at == items.len() - 1 {
        assert(items.take(at) =~= front);
        assert(items.last() == items[at]);
    } else {
        assert(front[at] == items[at]);
        assert(front.take(at) =~= items.take(at));
        lemma_filter_map_place(front, f, p, at);
    }
}

proof fn lemma_filter_map_count(
    items: Seq<JsonView>,
    f: spec_fn(JsonView) -> Option<JsonView>,
    p: spec_fn(JsonView) -> bool,
)
    requires
        forall|x: JsonView| #[trigger] p(x) <==> f(x) is Some,
    ensures
        items.filter_map(f).len() == items.filter(p).len(),
    decreases items.len(),
{
    reveal(Seq::filter);
    if items.len() > 0 {
        lemma_filter_map_count(items.drop_last(), f, p);
        assert(p(items.last()) <==> f(items.last()) is Some);
    }
}

/// The key of the client list, of a client's secret and of a user's secret, by
/// the protocol of an inbound.
pub open spec fn user_keys(
    protocol: Seq<char>,
    clients: Seq<char>,
    secret: Seq<char>,
    told: Seq<char>,
) -> bool {
    ||| protocol == "hysteria"@ && clients == "users"@ && secret == "auth"@ && told == "password"@
    ||| protocol == "vless"@ && clients == "clients"@ && secret == "id"@ && told == "uuid"@
    ||| protocol == "shadowsocks"@ && clients == "clients"@ && secret == "password"@ && told
        == "password"@
    ||| protocol == "trojan"@ && clients == "clients"@ && secret == "password"@ && told
        == "password"@
}

proof fn lemma_protocols()
    ensures
        "hysteria"@.len() == 8,
        "vless"@.len() == 5,
        "shadowsocks"@.len() == 11,
        "trojan"@.len() == 6,
        "anytls"@.len() == 6,
        "anytls"@ != "trojan"@,
{
    reveal_strlit("hysteria");
    reveal_strlit("vless");
    reveal_strlit("shadowsocks");
    reveal_strlit("trojan");
    reveal_strlit("anytls");
    assert("anytls"@[0] != "trojan"@[0]);
}

proof fn lemma_user_keys()
    ensures
        "name"@.len() == 4,
        "password"@.len() == 8,
        "uuid"@.len() == 4,
        "flow"@.len() == 4,
        "name"@ != "uuid"@,
        "name"@ != "flow"@,
        "uuid"@ != "flow"@,
{
    reveal_strlit("name");
    reveal_strlit("password");
    reveal_strlit("uuid");
    reveal_strlit("flow");
    assert("name"@[0] != "uuid"@[0]);
    assert("name"@[0] != "flow"@[0]);
    assert("uuid"@[0] != "flow"@[0]);
}

proof fn lemma_inbound_members()
    ensures
        "type"@.len() == 4,
        "tag"@.len() == 3,
        "listen"@.len() == 6,
        "listen_port"@.len() == 11,
        "users"@.len() == 5,
        "tls"@.len() == 3,
        "transport"@.len() == 9,
        "method"@.len() == 6,
        "password"@.len() == 8,
        "network"@.len() == 7,
        "tag"@ != "tls"@,
        "listen"@ != "method"@,
{
    reveal_strlit("type");
    reveal_strlit("tag");
    reveal_strlit("listen");
    reveal_strlit("listen_port");
    reveal_strlit("users");
    reveal_strlit("tls");
    reveal_strlit("transport");
    reveal_strlit("method");
    reveal_strlit("password");
    reveal_strlit("network");
    assert("tag"@[1] != "tls"@[1]);
    assert("listen"@[0] != "method"@[0]);
}

/// No user is lost in the translation of an inbound. A translated inbound has as
/// many users as the inbound has clients with a secret, in the same order: each
/// such client is the user at the place that its predecessors with a secret leave
/// to it. The user has the client's secret, and the client's e-mail as its name,
/// or the secret where there is none.
pub proof fn every_client_becomes_a_user(
    inbound: JsonView,
    api: ApiView,
    clients: Seq<char>,
    secret: Seq<char>,
    told: Seq<char>,
    at: int,
)
    requires
        translated(inbound, api) is Some,
        user_keys(inbound.str_at("protocol"@)->0, clients, secret, told),
        inbound.str_at("protocol"@) is Some,
        inbound.field("settings"@).array_at(clients) is Some,
        0 <= at < inbound.field("settings"@).array_at(clients)->0.len(),
        inbound.field("settings"@).array_at(clients)->0[at].str_at(secret) is Some,
    ensures
        ({
            let list = inbound.field("settings"@).array_at(clients)->0;
            let users = translated(inbound, api)->0.array_at("users"@)->0;
            let place = secrets_before(list, secret, at) as int;
            &&& translated(inbound, api)->0.array_at("users"@) is Some
            &&& users.len() == secrets_before(list, secret, list.len() as int)
            &&& place < users.len()
            &&& users[place].str_at(told) == list[at].str_at(secret)
            &&& users[place].str_at("name"@) == match list[at].str_at("email"@) {
                Some(email) => Some(email),
                None => list[at].str_at(secret),
            }
        }),
{
    lemma_protocols();
    lemma_user_keys();
    lemma_inbound_members();
    let protocol = protocol_view(inbound)->0;
    let list = inbound.field("settings"@).array_at(clients)->0;
    let f = |client: JsonView| user_view(protocol, client);
    let p = |client: JsonView| client.str_at(secret) is Some;
    assert(users_view(protocol, Some(list)) == list.filter_map(f));
    assert(forall|x: JsonView| #[trigger] p(x) <==> f(x) is Some);
    lemma_filter_map_place(list, f, p, at);
    lemma_filter_map_count(list, f, p);
    assert(list.take(list.len() as int) =~= list);
}

/// Where every client holds its secret, there are as many users as clients, and
/// each user has the secret and the name of the client at the same place.
pub proof fn users_stand_in_the_place_of_clients(
    inbound: JsonView,
    api: ApiView,
    clients: Seq<char>,
    secret: Seq<char>,
    told: Seq<char>,
    at: int,
)
    requires
        translated(inbound, api) is Some,
        inbound.str_at("protocol"@) is Some,
        user_keys(inbound.str_at("protocol"@)->0, clients, secret, told),
        inbound.field("settings"@).array_at(clients) is Some,
        0 <= at < inbound.field("settings"@).array_at(clients)->0.len(),
        forall|i: int|
            0 <= i < inbound.field("settings"@).array_at(clients)->0.len()
                ==> (#[trigger] inbound.field("settings"@).array_at(clients)->0[i]).str_at(
                secret,
            ) is Some,
    ensures
        ({
            let list = inbound.field("settings"@).array_at(clients)->0;
            let users = translated(inbound, api)->0.array_at("users"@)->0;
            &&& translated(inbound, api)->0.array_at("users"@) is Some
            &&& users.len() == list.len()
            &&& users[at].str_at(told) == list[at].str_at(secret)
            &&& users[at].str_at("name"@) == match list[at].str_at("email"@) {
                Some(email) => Some(email),
                None => list[at].str_at(secret),
            }
        }),
{
    let list = inbound.field("settings"@).array_at(clients)->0;
    let p = |client: JsonView| client.str_at(secret) is Some;
    every_client_becomes_a_user(inbound, api, clients, secret, told, at);
    lemma_all_kept(list.take(at), p);
    lemma_all_kept(list, p);
    assert(list.take(list.len() as int) =~= list);
}

proof fn lemma_all_kept(items: Seq<JsonView>, p: spec_fn(JsonView) -> bool)
    requires
        forall|i: int| 0 <= i < items.len() ==> p(#[trigger] items[i]),
    ensures
        items.filter(p).len() == items.len(),
    decreases items.len(),
{
    reveal(Seq::filter);
    if items.len() > 0 {
        let front = items.drop_last();
        assert(forall|i: int| 0 <= i < front.len() ==> front[i] == items[i]);
        lemma_all_kept(front, p);
        assert(p(items[items.len() - 1]));
    }
}

/// What a user has: its name, its secret, and on VLESS the flow of the client
/// where that is a text that is not empty.
pub proof fn users_have_nothing_else(
    inbound: JsonView,
    api: ApiView,
    clients: Seq<char>,
    secret: Seq<char>,
    told: Seq<char>,
    at: int,
    key: Seq<char>,
)
    requires
        translated(inbound, api) is Some,
        inbound.str_at("protocol"@) is Some,
        user_keys(inbound.str_at("protocol"@)->0, clients, secret, told),
        inbound.field("settings"@).array_at(clients) is Some,
        0 <= at < inbound.field("settings"@).array_at(clients)->0.len(),
        inbound.field("settings"@).array_at(clients)->0[at].str_at(secret) is Some,
        key != "name"@,
        key != told,
    ensures
        ({
            let list = inbound.field("settings"@).array_at(clients)->0;
            let user = translated(inbound, api)->0.array_at("users"@)->0[secrets_before(
                list,
                secret,
                at,
            ) as int];
            user.get(key) == match list[at].str_at("flow"@) {
                Some(flow) => if key == "flow"@ && inbound.str_at("protocol"@) == Some("vless"@)
                    && flow.len() > 0 {
                    Some(JsonView::Str(flow))
                } else {
                    None
                },
                None => None,
            }
        }),
{
    lemma_protocols();
    lemma_user_keys();
    lemma_inbound_members();
    let protocol = protocol_view(inbound)->0;
    let list = inbound.field("settings"@).array_at(clients)->0;
    let f = |client: JsonView| user_view(protocol, client);
    let p = |client: JsonView| client.str_at(secret) is Some;
    assert(users_view(protocol, Some(list)) == list.filter_map(f));
    assert(forall|x: JsonView| #[trigger] p(x) <==> f(x) is Some);
    lemma_filter_map_place(list, f, p, at);
}

/// An inbound without a client list that holds a secret has no users.
pub proof fn users_come_from_clients(
    inbound: JsonView,
    api: ApiView,
    clients: Seq<char>,
    secret: Seq<char>,
    told: Seq<char>,
)
    requires
        translated(inbound, api) is Some,
        inbound.str_at("protocol"@) is Some,
        user_keys(inbound.str_at("protocol"@)->0, clients, secret, told),
        match inbound.field("settings"@).array_at(clients) {
            Some(list) => forall|i: int|
                0 <= i < list.len() ==> (#[trigger] list[i]).str_at(secret) is None,
            None => true,
        },
    ensures
        match translated(inbound, api)->0.get("users"@) {
            Some(users) => users == JsonView::Array(Seq::empty()) && inbound.str_at("protocol"@)
                != Some("shadowsocks"@),
            None => inbound.str_at("protocol"@) == Some("shadowsocks"@),
        },
{
    lemma_protocols();
    lemma_user_keys();
    lemma_inbound_members();
    let protocol = protocol_view(inbound)->0;
    let f = |client: JsonView| user_view(protocol, client);
    match inbound.field("settings"@).array_at(clients) {
        Some(list) => {
            assert(users_view(protocol, Some(list)) == list.filter_map(f));
            lemma_none_kept(list, f);
            assert(list.filter_map(f) =~= Seq::empty());
        },
        None => {},
    }
}

proof fn lemma_none_kept(items: Seq<JsonView>, f: spec_fn(JsonView) -> Option<JsonView>)
    requires
        forall|i: int| 0 <= i < items.len() ==> f(#[trigger] items[i]) is None,
    ensures
        items.filter_map(f).len() == 0,
    decreases items.len(),
{
    if items.len() > 0 {
        let front = items.drop_last();
        assert(forall|i: int| 0 <= i < front.len() ==> front[i] == items[i]);
        lemma_none_kept(front, f);
        assert(f(items[items.len() - 1]) is None);
    }
}

/// VLESS, Shadowsocks and Trojan inbounds are translated, and a `hysteria`
/// inbound of version 2 over the `hysteria` network; no others. The type of the
/// translation is the protocol's own name, `hysteria2` for the last.
pub proof fn four_protocols_are_translated(inbound: JsonView, api: ApiView)
    ensures
        translated(inbound, api) is Some <==> {
            ||| inbound.str_at("protocol"@) == Some("vless"@)
            ||| inbound.str_at("protocol"@) == Some("shadowsocks"@)
            ||| inbound.str_at("protocol"@) == Some("trojan"@)
            ||| inbound.str_at("protocol"@) == Some("hysteria"@) && inbound.field(
                "settings"@,
            ).field("version"@).as_i64() == Some(2i64) && inbound.field("streamSettings"@).str_at(
                "network"@,
            ) == Some("hysteria"@)
        },
        translated(inbound, api) is Some ==> translated(inbound, api)->0.str_at("type"@) == (
        if inbound.str_at("protocol"@) == Some("hysteria"@) {
            Some("hysteria2"@)
        } else {
            inbound.str_at("protocol"@)
        }),
{
    lemma_protocols();
    lemma_inbound_members();
}

/// What an inbound does not tell: it listens on every address, at port 443 for
/// `hysteria` and 0 otherwise, under the tag `HY2` for `hysteria` and the name of
/// its protocol otherwise.
pub proof fn untold_members_have_defaults(inbound: JsonView, api: ApiView)
    requires
        translated(inbound, api) is Some,
    ensures
        inbound.get("tag"@) is None ==> translated(inbound, api)->0.str_at("tag"@) == (
        if inbound.str_at("protocol"@) == Some("hysteria"@) {
            Some("HY2"@)
        } else {
            inbound.str_at("protocol"@)
        }),
        inbound.get("listen"@) is None ==> translated(inbound, api)->0.str_at("listen"@) == Some(
            "::"@,
        ),
        inbound.get("port"@) is None ==> translated(inbound, api)->0.field(
            "listen_port"@,
        ).as_u64() == (if inbound.str_at("protocol"@) == Some("hysteria"@) {
            Some(443u64)
        } else {
            Some(0u64)
        }),
{
    lemma_protocols();
    lemma_inbound_members();
}

/// A translation has no other members than those of its kind: TLS belongs to
/// `hysteria` and to inbounds with the security `tls` or `reality`, a transport
/// to inbounds over WebSocket, gRPC or HTTP, both not to Shadowsocks; a method and
/// a password belong to Shadowsocks alone.
pub proof fn translation_has_nothing_else(inbound: JsonView, api: ApiView, key: Seq<char>)
    requires
        translated(inbound, api) is Some,
        key != "type"@,
        key != "tag"@,
        key != "listen"@,
        key != "listen_port"@,
        key != "users"@,
    ensures
        ({
            let protocol = inbound.str_at("protocol"@)->0;
            let security = inbound.field("streamSettings"@).str_at("security"@);
            let network = inbound.field("streamSettings"@).str_at("network"@);
            let streamed = protocol == "vless"@ || protocol == "trojan"@;
            translated(inbound, api)->0.get(key) is Some <==> {
                ||| key == "tls"@ && protocol == "hysteria"@
                ||| key == "tls"@ && streamed && (security == Some("tls"@) || security == Some(
                    "reality"@,
                ))
                ||| key == "transport"@ && streamed && (network == Some("ws"@) || network == Some(
                    "websocket"@,
                ) || network == Some("grpc"@) || network == Some("http"@) || network == Some(
                    "h2"@,
                ))
                ||| protocol == "shadowsocks"@ && (key == "method"@ || key == "password"@ || (key
                    == "network"@ && (match inbound.field("settings"@).str_at("network"@) {
                    Some(told) => told.len() > 0,
                    None => false,
                })))
            }
        }),
{
    lemma_protocols();
    lemma_inbound_members();
}

/// Shadowsocks keeps method and password as they are, and its network where that
/// is a text that is not empty.
pub proof fn shadowsocks_keeps_method_and_password(inbound: JsonView, api: ApiView)
    requires
        inbound.str_at("protocol"@) == Some("shadowsocks"@),
    ensures
        ({
            let settings = inbound.field("settings"@);
            let told = translated(inbound, api)->0;
            &&& settings.get("method"@) is Some ==> told.get("method"@) == settings.get("method"@)
            &&& settings.get("method"@) is None ==> told.str_at("method"@) == Some(
                "chacha20-ietf-poly1305"@,
            )
            &&& settings.get("password"@) is Some ==> told.get("password"@) == settings.get(
                "password"@,
            )
            &&& settings.get("password"@) is None ==> told.str_at("password"@) == Some(""@)
            &&& match settings.str_at("network"@) {
                Some(network) => if network.len() > 0 {
                    told.str_at("network"@) == Some(network)
                } else {
                    told.get("network"@) is None
                },
                None => told.get("network"@) is None,
            }
        }),
{
    lemma_protocols();
    lemma_inbound_members();
}

proof fn lemma_tls_members()
    ensures
        "enabled"@.len() == 7,
        "server_name"@.len() == 11,
        "alpn"@.len() == 4,
        "certificate_path"@.len() == 16,
        "certificate"@.len() == 11,
        "key_path"@.len() == 8,
        "key"@.len() == 3,
        "reality"@.len() == 7,
        "handshake"@.len() == 9,
        "private_key"@.len() == 11,
        "short_id"@.len() == 8,
        "server"@.len() == 6,
        "server_port"@.len() == 11,
        "server_name"@ != "certificate"@,
        "enabled"@ != "reality"@,
        "tls"@.len() == 3,
        "reality"@ != "tls"@,
{
    reveal_strlit("enabled");
    reveal_strlit("server_name");
    reveal_strlit("alpn");
    reveal_strlit("certificate_path");
    reveal_strlit("certificate");
    reveal_strlit("key_path");
    reveal_strlit("key");
    reveal_strlit("reality");
    reveal_strlit("handshake");
    reveal_strlit("private_key");
    reveal_strlit("short_id");
    reveal_strlit("server");
    reveal_strlit("server_port");
    reveal_strlit("tls");
    assert("server_name"@[0] != "certificate"@[0]);
    assert("enabled"@[0] != "reality"@[0]);
}

/// With the security `tls`, a VLESS or Trojan inbound keeps its server name where
/// that is not empty, its ALPN list, and the first of its certificates: the files
/// where it names files, and the lines of text where it holds lines instead.
pub proof fn tls_keeps_name_and_certificate(inbound: JsonView, api: ApiView)
    requires
        inbound.str_at("protocol"@) == Some("vless"@) || inbound.str_at("protocol"@) == Some(
            "trojan"@,
        ),
        inbound.field("streamSettings"@).str_at("security"@) == Some("tls"@),
    ensures
        ({
            let settings = inbound.field("streamSettings"@).field("tlsSettings"@);
            let told = translated(inbound, api)->0.field("tls"@);
            &&& told.get("enabled"@) == Some(JsonView::Bool(true))
            &&& told.get("reality"@) is None
            &&& match settings.str_at("serverName"@) {
                Some(name) => if name.len() > 0 {
                    told.str_at("server_name"@) == Some(name)
                } else {
                    told.get("server_name"@) is None
                },
                None => told.get("server_name"@) is None,
            }
            &&& settings.array_at("alpn"@) is Some ==> told.get("alpn"@) == settings.get("alpn"@)
            &&& settings.array_at("alpn"@) is None ==> told.get("alpn"@) is None
        }),
        ({
            let settings = inbound.field("streamSettings"@).field("tlsSettings"@);
            let told = translated(inbound, api)->0.field("tls"@);
            match settings.array_at("certificates"@) {
                Some(entries) => if entries.len() > 0 {
                    tells_certificate(told, entries[0])
                } else {
                    tells_no_certificate(told)
                },
                None => tells_no_certificate(told),
            }
        }),
{
    lemma_protocols();
    lemma_inbound_members();
    lemma_tls_members();
}

/// A TLS object has the certificate and the key of an entry: each by the file
/// that the entry names, or else by the lines that it holds.
pub open spec fn tells_certificate(tls: JsonView, entry: JsonView) -> bool {
    &&& tls.get("certificate_path"@) is Some ==> tls.str_at("certificate_path"@) is Some
    &&& tls.str_at("certificate_path"@) == entry.str_at("certificateFile"@)
    &&& tls.get("key_path"@) is Some ==> tls.str_at("key_path"@) is Some
    &&& tls.str_at("key_path"@) == entry.str_at("keyFile"@)
    &&& tells_lines(tls, "certificate"@, entry, "certificateFile"@, "certificate"@)
    &&& tells_lines(tls, "key"@, entry, "keyFile"@, "key"@)
}

/// A member of a TLS object is the text of the lines of an entry, where the entry
/// has lines and names no file, and missing otherwise.
pub open spec fn tells_lines(
    tls: JsonView,
    member: Seq<char>,
    entry: JsonView,
    file_key: Seq<char>,
    lines_key: Seq<char>,
) -> bool {
    match entry.array_at(lines_key) {
        Some(lines) => if entry.str_at(file_key) is Some {
            tls.get(member) is None
        } else {
            tls.str_at(member) == Some(pem_view(lines))
        },
        None => tls.get(member) is None,
    }
}

pub open spec fn tells_no_certificate(tls: JsonView) -> bool {
    &&& tls.get("certificate_path"@) is None
    &&& tls.get("certificate"@) is None
    &&& tls.get("key_path"@) is None
    &&& tls.get("key"@) is None
}

/// A Hysteria2 inbound has the first certificate of its settings, as files or as
/// lines; for what the settings hold in neither form it uses the node's own
/// certificate file and key file. It speaks `h3` where no ALPN list is given.
pub proof fn hysteria2_falls_back_to_the_node_certificate(inbound: JsonView, api: ApiView)
    requires
        inbound.str_at("protocol"@) == Some("hysteria"@),
        translated(inbound, api) is Some,
    ensures
        ({
            let settings = inbound.field("streamSettings"@).field("tlsSettings"@);
            let told = translated(inbound, api)->0.field("tls"@);
            &&& told.get("enabled"@) == Some(JsonView::Bool(true))
            &&& settings.array_at("alpn"@) is Some ==> told.get("alpn"@) == settings.get("alpn"@)
            &&& settings.array_at("alpn"@) is None ==> told.get("alpn"@) == Some(
                JsonView::Array(seq![JsonView::Str("h3"@)]),
            )
            &&& told.get("server_name"@) is None
            &&& match settings.array_at("certificates"@) {
                Some(entries) => if entries.len() > 0 {
                    tells_certificate_or(told, entries[0], api)
                } else {
                    tells_node_certificate(told, api)
                },
                None => tells_node_certificate(told, api),
            }
        }),
{
    lemma_protocols();
    lemma_inbound_members();
    lemma_tls_members();
}

pub open spec fn tells_node_certificate(tls: JsonView, api: ApiView) -> bool {
    &&& tls.str_at("certificate_path"@) == Some(api.ssl_cert_file)
    &&& tls.str_at("key_path"@) == Some(api.ssl_key_file)
    &&& tls.get("certificate"@) is None
    &&& tls.get("key"@) is None
}

pub open spec fn tells_certificate_or(tls: JsonView, entry: JsonView, api: ApiView) -> bool {
    &&& tells_lines(tls, "certificate"@, entry, "certificateFile"@, "certificate"@)
    &&& tells_lines(tls, "key"@, entry, "keyFile"@, "key"@)
    &&& match (entry.str_at("certificateFile"@), entry.array_at("certificate"@)) {
        (Some(file), _) => tls.str_at("certificate_path"@) == Some(file),
        (None, Some(_)) => tls.get("certificate_path"@) is None,
        (None, None) => tls.str_at("certificate_path"@) == Some(api.ssl_cert_file),
    }
    &&& match (entry.str_at("keyFile"@), entry.array_at("key"@)) {
        (Some(file), _) => tls.str_at("key_path"@) == Some(file),
        (None, Some(_)) => tls.get("key_path"@) is None,
        (None, None) => tls.str_at("key_path"@) == Some(api.ssl_key_file),
    }
}

/// With the security `reality`, a VLESS or Trojan inbound keeps its private key,
/// its short ids and its first server name, and poses as its destination: a host
/// and the port behind the last colon, port 443 where there is none. Without a
/// destination it poses as its first server name at port 443.
pub proof fn reality_keeps_keys_and_destination(inbound: JsonView, api: ApiView)
    requires
        inbound.str_at("protocol"@) == Some("vless"@) || inbound.str_at("protocol"@) == Some(
            "trojan"@,
        ),
        inbound.field("streamSettings"@).str_at("security"@) == Some("reality"@),
    ensures
        ({
            let settings = inbound.field("streamSettings"@).field("realitySettings"@);
            let told = translated(inbound, api)->0.field("tls"@);
            let reality = told.field("reality"@);
            &&& told.get("enabled"@) == Some(JsonView::Bool(true))
            &&& tells_no_certificate(told)
            &&& reality.get("enabled"@) == Some(JsonView::Bool(true))
            &&& settings.str_at("privateKey"@) is Some ==> reality.get("private_key"@)
                == settings.get("privateKey"@)
            &&& settings.str_at("privateKey"@) is None ==> reality.get("private_key"@) is None
            &&& settings.array_at("shortIds"@) is Some ==> reality.get("short_id"@) == settings.get(
                "shortIds"@,
            )
            &&& settings.array_at("shortIds"@) is None ==> reality.get("short_id"@) is None
            &&& match first_text(settings.array_at("serverNames"@)) {
                Some(name) => told.str_at("server_name"@) == Some(name),
                None => told.get("server_name"@) is None,
            }
        }),
        ({
            let settings = inbound.field("streamSettings"@).field("realitySettings"@);
            let reality = translated(inbound, api)->0.field("tls"@).field("reality"@);
            let handshake = reality.field("handshake"@);
            match settings.str_at("dest"@) {
                Some(dest) => {
                    &&& handshake.str_at("server"@) == Some(host_port_view(dest, 443).0)
                    &&& handshake.field("server_port"@).as_u64() == Some(
                        host_port_view(dest, 443).1 as u64,
                    )
                },
                None => match first_text(settings.array_at("serverNames"@)) {
                    Some(name) => {
                        &&& handshake.str_at("server"@) == Some(name)
                        &&& handshake.field("server_port"@).as_u64() == Some(443u64)
                    },
                    None => reality.get("handshake"@) is None,
                },
            }
        }),
{
    lemma_protocols();
    lemma_inbound_members();
    lemma_tls_members();
}

/// The first item of an array, where it is a text.
pub open spec fn first_text(items: Option<Seq<JsonView>>) -> Option<Seq<char>> {
    match items {
        Some(list) => if list.len() > 0 {
            list[0].as_str()
        } else {
            None
        },
        None => None,
    }
}

proof fn lemma_transport_members()
    ensures
        "type"@.len() == 4,
        "path"@.len() == 4,
        "headers"@.len() == 7,
        "service_name"@.len() == 12,
        "host"@.len() == 4,
        "type"@ != "path"@,
        "type"@ != "host"@,
        "path"@ != "host"@,
        "ws"@.len() == 2,
        "websocket"@.len() == 9,
        "grpc"@.len() == 4,
        "http"@.len() == 4,
        "h2"@.len() == 2,
        "ws"@ != "h2"@,
        "grpc"@ != "http"@,
{
    reveal_strlit("type");
    reveal_strlit("path");
    reveal_strlit("headers");
    reveal_strlit("service_name");
    reveal_strlit("host");
    reveal_strlit("ws");
    reveal_strlit("websocket");
    reveal_strlit("grpc");
    reveal_strlit("http");
    reveal_strlit("h2");
    assert("type"@[0] != "path"@[0]);
    assert("type"@[0] != "host"@[0]);
    assert("path"@[0] != "host"@[0]);
    assert("ws"@[0] != "h2"@[0]);
    assert("grpc"@[0] != "http"@[0]);
}

/// A VLESS or Trojan inbound keeps its transport: path and headers of a
/// WebSocket, the service name of gRPC, path and hosts of HTTP.
pub proof fn transport_keeps_its_settings(inbound: JsonView, api: ApiView)
    requires
        inbound.str_at("protocol"@) == Some("vless"@) || inbound.str_at("protocol"@) == Some(
            "trojan"@,
        ),
    ensures
        ({
            let stream = inbound.field("streamSettings"@);
            let network = stream.str_at("network"@);
            let ws = stream.field("wsSettings"@);
            let grpc = stream.field("grpcSettings"@);
            let http = stream.field("httpSettings"@);
            let told = translated(inbound, api)->0.field("transport"@);
            &&& network == Some("ws"@) || network == Some("websocket"@) ==> {
                &&& told.str_at("type"@) == Some("ws"@)
                &&& told.get("path"@) == (if ws.str_at("path"@) is Some {
                    ws.get("path"@)
                } else {
                    None
                })
                &&& told.get("headers"@) == ws.get("headers"@)
                &&& told.get("host"@) is None
                &&& told.get("service_name"@) is None
            }
            &&& network == Some("grpc"@) ==> {
                &&& told.str_at("type"@) == Some("grpc"@)
                &&& told.get("service_name"@) == (if grpc.str_at("serviceName"@) is Some {
                    grpc.get("serviceName"@)
                } else {
                    None
                })
                &&& told.get("path"@) is None
                &&& told.get("headers"@) is None
                &&& told.get("host"@) is None
            }
            &&& network == Some("http"@) || network == Some("h2"@) ==> {
                &&& told.str_at("type"@) == Some("http"@)
                &&& told.get("path"@) == (if http.str_at("path"@) is Some {
                    http.get("path"@)
                } else {
                    None
                })
                &&& told.get("host"@) == (if http.array_at("host"@) is Some {
                    http.get("host"@)
                } else {
                    None
                })
                &&& told.get("headers"@) is None
                &&& told.get("service_name"@) is None
            }
        }),
{
    lemma_protocols();
    lemma_inbound_members();
    lemma_transport_members();
}

/// Certificate lines are put on a line each: the text of an array of texts without
/// line feeds has those texts as its lines, and items that are no texts are left
/// out.
pub proof fn certificate_lines_are_kept(lines: Seq<Seq<char>>, items: Seq<JsonView>)
    requires
        lines.len() > 0,
        forall|i: int| 0 <= i < lines.len() ==> !(#[trigger] lines[i]).contains('\n'),
        items.filter(|item: JsonView| item is Str) == lines.map_values(
            |line: Seq<char>| JsonView::Str(line),
        ),
    ensures
        split_all(pem_view(items), '\n') == lines.push(Seq::empty()),
{
    let kept = items.filter(|item: JsonView| item is Str);
    let found = items.filter_map(|item: JsonView| item.as_str());
    lemma_texts_of(items);
    assert(found =~= lines) by {
        assert forall|i: int| 0 <= i < lines.len() implies found[i] == lines[i] by {
            assert(kept[i] == JsonView::Str(lines[i]));
            assert(kept[i] == JsonView::Str(found[i]));
        }
    }
    reveal_strlit("\n");
    assert("\n"@ =~= seq!['\n']);
    let all = lines.push(Seq::empty());
    assert(all.drop_last() =~= lines);
    assert(all.last() == Seq::<char>::empty());
    assert(pem_view(items) =~= joined(all, seq!['\n']));
    assert(forall|i: int| 0 <= i < all.len() ==> !(#[trigger] all[i]).contains('\n'));
    joined_pieces_are_split(all, '\n');
}

proof fn lemma_texts_of(items: Seq<JsonView>)
    ensures
        ({
            let kept = items.filter(|item: JsonView| item is Str);
            let found = items.filter_map(|item: JsonView| item.as_str());
            &&& kept.len() == found.len()
            &&& forall|i: int|
                0 <= i < kept.len() ==> #[trigger] kept[i] == JsonView::Str(found[i])
        }),
    decreases items.len(),
{
    reveal(Seq::filter);
    if items.len() > 0 {
        lemma_texts_of(items.drop_last());
    }
}

/// A destination without a colon, or with something else than a port number
/// behind the last one, is a host at the default port.
pub proof fn host_without_port_has_the_default(host: Seq<char>, rest: Seq<char>, default_port: u16)
    ensures
        !host.contains(':') ==> host_port_view(host, default_port) == (host, default_port),
        !rest.contains(':') && unsigned_value(rest, 65535) is None ==> host_port_view(
            host + seq![':'] + rest,
            default_port,
        ) == (host + seq![':'] + rest, default_port),
        !rest.contains(':') && unsigned_value(rest, 65535) is Some ==> host_port_view(
            host + seq![':'] + rest,
            default_port,
        ) == (host, unsigned_value(rest, 65535)->0 as u16),
{
    split_last_takes_apart(host, ':');
    split_last_takes_apart(host + seq![':'] + rest, ':');
    match split_last(host, ':') {
        Some((head, tail)) => {
            assert((head + seq![':'] + tail)[head.len() as int] == ':');
        },
        None => {},
    }
}

/// The TLS and transport objects of a translation have no other members than those
/// that the settings give them: server name, ALPN list and certificate for TLS, the
/// server name and the REALITY object for REALITY, and per transport its own.
pub proof fn stream_objects_have_nothing_else(inbound: JsonView, api: ApiView, key: Seq<char>)
    requires
        translated(inbound, api) is Some,
    ensures
        ({
            let told = translated(inbound, api)->0;
            let tls = told.field("tls"@);
            let reality = tls.field("reality"@);
            let hysteria = inbound.str_at("protocol"@) == Some("hysteria"@);
            let security = inbound.field("streamSettings"@).str_at("security"@);
            let transport = told.field("transport"@);
            &&& tls.get(key) is Some ==> {
                ||| key == "enabled"@
                ||| key == "server_name"@ && !hysteria
                ||| key == "reality"@ && !hysteria && security == Some("reality"@)
                ||| key == "alpn"@ && (hysteria || security == Some("tls"@))
                ||| key == "certificate_path"@ && (hysteria || security == Some("tls"@))
                ||| key == "certificate"@ && (hysteria || security == Some("tls"@))
                ||| key == "key_path"@ && (hysteria || security == Some("tls"@))
                ||| key == "key"@ && (hysteria || security == Some("tls"@))
            }
            &&& reality.get(key) is Some ==> {
                ||| key == "enabled"@
                ||| key == "handshake"@
                ||| key == "private_key"@
                ||| key == "short_id"@
            }
            &&& reality.field("handshake"@).get(key) is Some ==> key == "server"@ || key
                == "server_port"@
            &&& transport.get(key) is Some ==> {
                ||| key == "type"@
                ||| key == "path"@
                ||| key == "headers"@
                ||| key == "service_name"@
                ||| key == "host"@
            }
        }),
{
    lemma_protocols();
    lemma_inbound_members();
    lemma_tls_members();
    lemma_transport_members();
}

/// An array without texts in it makes a blank line.
pub proof fn no_certificate_lines_make_a_blank_line(items: Seq<JsonView>)
    requires
        forall|i: int| 0 <= i < items.len() ==> (#[trigger] items[i]) !is Str,
    ensures
        pem_view(items) == seq!['\n'],
{
    lemma_no_texts(items);
    let found = items.filter_map(|item: JsonView| item.as_str());
    reveal_strlit("\n");
    assert(joined(found, "\n"@) =~= Seq::empty());
    assert(pem_view(items) =~= seq!['\n']);
}

proof fn lemma_no_texts(items: Seq<JsonView>)
    requires
        forall|i: int| 0 <= i < items.len() ==> (#[trigger] items[i]) !is Str,
    ensures
        items.filter_map(|item: JsonView| item.as_str()).len() == 0,
    decreases items.len(),
{
    if items.len() > 0 {
        let front = items.drop_last();
        assert(forall|i: int| 0 <= i < front.len() ==> front[i] == items[i]);
        lemma_no_texts(front);
        assert(items[items.len() - 1] !is Str);
    }
}

} // verus!
