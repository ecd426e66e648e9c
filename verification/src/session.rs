//! The controller's session with the node, and what the node reports to it.
use vstd::prelude::*;
use vstd::string::*;
use crate::config::{Settings, SettingsView, opt_text};
use crate::http::{HttpResponse, ResponseView};
use crate::json::{
    Json, JsonView, Object, entries_model, is_plain, items_model, opt_model, str_view, uint_view,
};
use crate::runtime::{
    CoreInstallInfo, CoreView, InstallView, InstalledCores, InstalledView, Poll, XrayCore,
};
use crate::sockets::{ListeningSocket, SocketView, sockets_model};
use crate::text::{copy_texts, texts};
use crate::xray_config::{
    ApiSettings, ApiView, ConfiguredInboundPort, CoreKind, PortView, ports_model,
};

verus! {

/// A hexadecimal digit in small letters.
pub open spec fn hex_char(n: int) -> char {
    if n < 10 {
        (48 + n) as char
    } else {
        (87 + n) as char
    }
}

/// The hexadecimal digit of a number at a place, the last place being zero.
pub open spec fn hex_digit(id: u128, place: nat) -> int {
    (id as int / vstd::arithmetic::power::pow(16, place)) % 16
}

/// A session id as text: 32 hexadecimal digits, with hyphens after the eighth,
/// the twelfth, the sixteenth and the twentieth.
pub open spec fn session_text_view(id: u128) -> Seq<char> {
    Seq::new(
        36,
        |i: int|
            if i < 8 {
                hex_char(hex_digit(id, (31 - i) as nat))
            } else if i == 8 || i == 13 || i == 18 || i == 23 {
                '-'
            } else if i < 13 {
                hex_char(hex_digit(id, (32 - i) as nat))
            } else if i < 18 {
                hex_char(hex_digit(id, (33 - i) as nat))
            } else if i < 23 {
                hex_char(hex_digit(id, (34 - i) as nat))
            } else {
                hex_char(hex_digit(id, (35 - i) as nat))
            },
    )
}

/// Whether an id has the version and the variant of a random UUID.
pub open spec fn is_random_id(id: u128) -> bool {
    &&& hex_digit(id, 19) == 4
    &&& 8 <= hex_digit(id, 15) < 12
}

/// What the `uuid` crate reads out of a text as a UUID.
pub uninterp spec fn session_of_text(text: Seq<char>) -> Option<u128>;

/// `uuid::Uuid::parse_str` reads a UUID out of a text.
#[verifier::external_body]
pub(crate) fn parse_session_id(text: &str) -> (id: Option<u128>)
    ensures
        id == session_of_text(text@),
{
    uuid::Uuid::parse_str(text).ok().map(|id| id.as_u128())
}

/// `uuid::Uuid::to_string` writes a UUID with hyphens and in small letters, a
/// form that `uuid::Uuid::parse_str` reads back.
#[verifier::external_body]
fn session_text(id: u128) -> (text: String)
    ensures
        text@ == session_text_view(id),
        session_of_text(text@) == Some(id),
{
    uuid::Uuid::from_u128(id).to_string()
}

/// `uuid::Uuid::new_v4` draws a random UUID, of which only version and variant
/// are known beforehand.
#[verifier::external_body]
pub(crate) fn new_session_id() -> (id: u128)
    ensures
        is_random_id(id),
{
    uuid::Uuid::new_v4().as_u128()
}

/// What the node knows.
#[derive(Debug)]
pub struct State {
    pub connected: bool,
    pub client_ip: Option<String>,
    pub session_id: Option<u128>,
    pub core: XrayCore,
}

/// What the node knows.
#[verifier::ext_equal]
pub struct StateView {
    pub connected: bool,
    pub client_ip: Option<Seq<char>>,
    pub session_id: Option<u128>,
    pub core: CoreView,
}

impl View for State {
    type V = StateView;

    open spec fn view(&self) -> StateView {
        StateView {
            connected: self.connected,
            client_ip: opt_text(self.client_ip),
            session_id: self.session_id,
            core: self.core@,
        }
    }
}

impl StateView {
    /// The state after a controller at an address has opened a session.
    pub open spec fn opened(self, peer_ip: Seq<char>, id: u128) -> StateView {
        StateView {
            connected: true,
            client_ip: Some(peer_ip),
            session_id: Some(id),
            core: self.core,
        }
    }

    /// The state after the controller has closed its session.
    pub open spec fn closed(self) -> StateView {
        StateView {
            connected: false,
            client_ip: None,
            session_id: None,
            core: self.core.stop(),
        }
    }

    /// Whether a session id is that of the session.
    pub open spec fn has_session(self, id: u128) -> bool {
        self.session_id == Some(id)
    }
}

/// The body of a response that gives a reason.
pub open spec fn detail_view(detail: JsonView) -> JsonView {
    JsonView::Object(map!["detail"@ => detail])
}

/// A response that gives a reason.
pub open spec fn refusal_view(status: u16, detail: Seq<char>) -> ResponseView {
    ResponseView { status, body: detail_view(str_view(detail)) }
}

/// A response that gives a reason.
pub fn refusal(status: u16, detail: &str) -> (response: HttpResponse)
    ensures
        response@ == refusal_view(status, detail@),
{
    HttpResponse::json(status, Json::Object(Object::new().with("detail", Json::text(detail))))
}

/// The response to a request whose session id is not that of the session.
pub open spec fn mismatch_view() -> ResponseView {
    refusal_view(403, "Session ID mismatch."@)
}

/// Checks that a session id is that of the session.
pub fn match_session(state: &State, session_id: u128) -> (result: Result<(), HttpResponse>)
    ensures
        match result {
            Ok(()) => state@.has_session(session_id),
            Err(response) => !state@.has_session(session_id) && response@ == mismatch_view(),
        },
{
    let same = match state.session_id {
        Some(id) => id == session_id,
        None => false,
    };
    if same {
        Ok(())
    } else {
        Err(refusal(403, "Session ID mismatch."))
    }
}

/// The response when the state of the node cannot be used any more.
pub fn lock_poisoned() -> (response: HttpResponse)
    ensures
        response@ == refusal_view(500, "State lock poisoned"@),
{
    refusal(500, "State lock poisoned")
}

/// The view of a list of tags that may be missing.
pub open spec fn opt_tags(tags: Option<Vec<String>>) -> Option<Seq<Seq<char>>> {
    match tags {
        Some(list) => Some(texts(list@)),
        None => None,
    }
}

/// The settings for a configuration. The inbounds that the controller selects
/// count before those of the node's own settings.
pub open spec fn api_settings_view(
    state: StateView,
    settings: SettingsView,
    controller_inbounds: Option<Seq<Seq<char>>>,
) -> ApiView {
    ApiView {
        host: settings.xray_api_host,
        port: settings.xray_api_port,
        ssl_cert_file: settings.ssl_cert_file,
        ssl_key_file: settings.ssl_key_file,
        peer_ip: match state.client_ip {
            Some(ip) => ip,
            None => "127.0.0.1"@,
        },
        allowed_inbounds: match controller_inbounds {
            Some(tags) => tags,
            None => settings.inbounds,
        },
    }
}

/// The settings for a configuration.
pub fn api_settings(
    state: &State,
    settings: &Settings,
    controller_inbounds: Option<&Vec<String>>,
) -> (api: ApiSettings)
    ensures
        api@ == api_settings_view(
            state@,
            settings@,
            match controller_inbounds {
                Some(list) => Some(texts(list@)),
                None => None,
            },
        ),
{
    ApiSettings {
        host: settings.xray_api_host.clone(),
        port: settings.xray_api_port,
        ssl_cert_file: settings.ssl_cert_file.clone(),
        ssl_key_file: settings.ssl_key_file.clone(),
        peer_ip: match &state.client_ip {
            Some(ip) => ip.clone(),
            None => "127.0.0.1".to_owned(),
        },
        allowed_inbounds: match controller_inbounds {
            Some(list) => copy_texts(list),
            None => copy_texts(&settings.inbounds),
        },
    }
}

/// One value with the members of another; a member of the other counts.
pub open spec fn merged_view(base: JsonView, extra: JsonView) -> JsonView {
    match (base, extra) {
        (JsonView::Object(a), JsonView::Object(b)) => JsonView::Object(a.union_prefer_right(b)),
        _ => base,
    }
}

/// Adds the members of a value to another.
pub fn merge_json(base: &mut Json, extra: &Json)
    ensures
        final(base)@ == merged_view(old(base)@, extra@),
{
    let ghost before = base@;
    let mut taken = Json::Null;
    std::mem::swap(&mut taken, base);
    match (taken, extra) {
        (Json::Object(object), Json::Object(members)) => {
            let mut object = object;
            let ghost start = object@;
            let ghost entries = members.entries@;
            let mut i: usize = members.entries.len();
            assert(entries.skip(i as int) =~= Seq::empty());
            assert(start.union_prefer_right(Map::empty()) =~= start);
            while i > 0
                invariant
                    i <= entries.len(),
                    entries == members.entries@,
                    object@ == start.union_prefer_right(entries_model(entries.skip(i as int))),
                decreases i,
            {
                i = i - 1;
                let entry = &members.entries[i];
                assert(entries.skip(i as int)[0] == entries[i as int]);
                assert(entries.skip(i as int).drop_first() =~= entries.skip(i + 1));
                object.set(entry.0.as_str(), entry.1.clone());
                assert(object@ =~= start.union_prefer_right(
                    entries_model(entries.skip(i as int)),
                ));
            }
            assert(entries.skip(0) =~= entries);
            *base = Json::Object(object);
        },
        (other, _) => {
            *base = other;
        },
    }
}

/// The name of a core in reports.
pub open spec fn core_name(core: CoreKind) -> Seq<char> {
    match core {
        CoreKind::Xray => "xray"@,
        CoreKind::SingBox => "sing-box"@,
    }
}

/// The features that the node tells.
pub open spec fn features_view() -> JsonView {
    JsonView::Array(
        seq![
            str_view("controller_inbounds"@),
            str_view("core_kind"@),
            str_view("node_diagnostics"@),
        ],
    )
}

/// What is known of the node and of its machine, beside its state.
#[derive(Clone, Debug, PartialEq, Eq)]
pub struct Diagnostics {
    pub node_version: String,
    pub installed_cores: InstalledCores,
    pub agent_rss_bytes: Option<u64>,
    pub core_rss_bytes: Option<u64>,
    pub sockets: Vec<ListeningSocket>,
}

/// What diagnostics say.
#[verifier::ext_equal]
pub struct DiagnosticsView {
    pub node_version: Seq<char>,
    pub installed_cores: InstalledView,
    pub agent_rss_bytes: Option<u64>,
    pub core_rss_bytes: Option<u64>,
    pub sockets: Seq<SocketView>,
}

impl View for Diagnostics {
    type V = DiagnosticsView;

    open spec fn view(&self) -> DiagnosticsView {
        DiagnosticsView {
            node_version: self.node_version@,
            installed_cores: self.installed_cores@,
            agent_rss_bytes: self.agent_rss_bytes,
            core_rss_bytes: self.core_rss_bytes,
            sockets: sockets_model(self.sockets@),
        }
    }
}

/// A number that may be missing, as a JSON value.
pub open spec fn number_or_null(n: Option<u64>) -> JsonView {
    match n {
        Some(v) => uint_view(v),
        None => JsonView::Null,
    }
}

/// A text that may be missing, as a JSON value.
pub open spec fn text_or_null(s: Option<Seq<char>>) -> JsonView {
    match s {
        Some(t) => str_view(t),
        None => JsonView::Null,
    }
}

/// An install entry as a JSON value.
pub open spec fn install_json(info: InstallView) -> JsonView {
    JsonView::Object(
        map![
            "installed"@ => JsonView::Bool(info.installed),
            "version"@ => text_or_null(info.version),
            "path"@ => text_or_null(info.path),
            "source"@ => str_view(info.source),
        ],
    )
}

/// The installed cores as a JSON value.
pub open spec fn installed_json(cores: InstalledView) -> JsonView {
    JsonView::Object(
        map!["sing-box"@ => install_json(cores.sing_box), "xray"@ => install_json(cores.xray)],
    )
}

/// A listening socket as a JSON value.
pub open spec fn socket_json(socket: SocketView) -> JsonView {
    JsonView::Object(
        map![
            "protocol"@ => str_view(socket.protocol),
            "address"@ => str_view(socket.address),
            "port"@ => uint_view(socket.port as u64),
        ],
    )
}

/// The listening sockets as a JSON value.
pub open spec fn sockets_json(sockets: Seq<SocketView>) -> JsonView {
    JsonView::Array(sockets.map_values(|socket: SocketView| socket_json(socket)))
}

/// A configured port as a JSON value.
pub open spec fn port_json(port: PortView) -> JsonView {
    JsonView::Object(
        map![
            "tag"@ => str_view(port.tag),
            "protocol"@ => str_view(port.protocol),
            "network"@ => str_view(port.network),
            "transport"@ => str_view(port.transport),
            "listen"@ => str_view(port.listen),
            "port"@ => uint_view(port.port as u64),
        ],
    )
}

/// The configured ports as a JSON value.
pub open spec fn ports_json(ports: Seq<PortView>) -> JsonView {
    JsonView::Array(ports.map_values(|port: PortView| port_json(port)))
}

/// The core that runs, as a JSON value.
pub open spec fn running_core_view(core: CoreView, poll: Poll) -> JsonView {
    if core.started(poll) {
        str_view(core_name(core.role.needs()->0))
    } else {
        JsonView::Null
    }
}

/// What the node reports. The state of its process is asked for three times: for
/// `started`, for `xray_api` and for `core_kind`.
pub open spec fn report_body(
    state: StateView,
    polls: (Poll, Poll, Poll),
    diagnostics: DiagnosticsView,
) -> JsonView {
    let one = state.core.observed(polls.0);
    let two = one.observed_as(CoreKind::Xray, polls.1);
    JsonView::Object(
        map![
            "connected"@ => JsonView::Bool(state.connected),
            "started"@ => JsonView::Bool(state.core.started(polls.0)),
            "xray_api"@ => JsonView::Bool(one.started_as(CoreKind::Xray, polls.1)),
            "core_kind"@ => running_core_view(two, polls.2),
            "core_version"@ => str_view(state.core.version),
            "features"@ => features_view(),
            "node_version"@ => str_view(diagnostics.node_version),
            "installed_cores"@ => installed_json(diagnostics.installed_cores),
            "agent_rss_bytes"@ => number_or_null(diagnostics.agent_rss_bytes),
            "core_rss_bytes"@ => number_or_null(diagnostics.core_rss_bytes),
            "local_sockets"@ => sockets_json(diagnostics.sockets),
            "configured_inbound_ports"@ => ports_json(state.core.ports),
            "last_core_restart_at"@ => number_or_null(state.core.last_core_restart_at),
        ],
    )
}

/// The response with the report, and with what else is to be told.
pub open spec fn report_view(
    state: StateView,
    polls: (Poll, Poll, Poll),
    diagnostics: DiagnosticsView,
    extra: Option<JsonView>,
) -> ResponseView {
    let body = report_body(state, polls, diagnostics);
    ResponseView {
        status: 200,
        body: match extra {
            Some(more) => merged_view(body, more),
            None => body,
        },
    }
}

/// The state after the process was asked for three times.
pub open spec fn reported_state(state: StateView, polls: (Poll, Poll, Poll)) -> StateView {
    StateView {
        core: state.core.observed(polls.0).observed_as(CoreKind::Xray, polls.1).observed(polls.2),
        ..state
    }
}

fn number_json(n: Option<u64>) -> (json: Json)
    ensures
        json@ == number_or_null(n),
{
    match n {
        Some(v) => Json::uint(v),
        None => Json::Null,
    }
}

fn text_json(s: &Option<String>) -> (json: Json)
    ensures
        json@ == text_or_null(opt_text(*s)),
{
    match s {
        Some(t) => Json::text(t.as_str()),
        None => Json::Null,
    }
}

fn install_entry(info: &CoreInstallInfo) -> (json: Json)
    ensures
        json@ == install_json(info@),
{
    Json::Object(
        Object::new().with("installed", Json::Bool(info.installed)).with(
            "version",
            text_json(&info.version),
        ).with("path", text_json(&info.path)).with("source", Json::text(info.source.as_str())),
    )
}

fn socket_entries(sockets: &Vec<ListeningSocket>) -> (json: Json)
    ensures
        json@ == sockets_json(sockets_model(sockets@)),
{
    let ghost all = sockets_model(sockets@).map_values(|socket: SocketView| socket_json(socket));
    let mut items: Vec<Json> = Vec::new();
    let mut i: usize = 0;
    while i < sockets.len()
        invariant
            i <= sockets@.len(),
            all == sockets_model(sockets@).map_values(|socket: SocketView| socket_json(socket)),
            items_model(items@) == all.take(i as int),
        decreases sockets@.len() - i,
    {
        let ghost done = items@;
        let socket = &sockets[i];
        let item = Json::Object(
            Object::new().with("protocol", Json::text(socket.protocol.as_str())).with(
                "address",
                Json::text(socket.address.as_str()),
            ).with("port", Json::uint(socket.port as u64)),
        );
        items.push(item);
        assert(item@ == all[i as int]);
        assert(items_model(items@) =~= items_model(done).push(item@));
        assert(all.take(i + 1) =~= all.take(i as int).push(all[i as int]));
        i = i + 1;
    }
    assert(all.take(i as int) =~= all);
    Json::Array(items)
}

fn port_entries(ports: &[ConfiguredInboundPort]) -> (json: Json)
    ensures
        json@ == ports_json(ports_model(ports@)),
{
    let ghost all = ports_model(ports@).map_values(|port: PortView| port_json(port));
    let mut items: Vec<Json> = Vec::new();
    let mut i: usize = 0;
    while i < ports.len()
        invariant
            i <= ports@.len(),
            all == ports_model(ports@).map_values(|port: PortView| port_json(port)),
            items_model(items@) == all.take(i as int),
        decreases ports@.len() - i,
    {
        let ghost done = items@;
        let port = &ports[i];
        let item = Json::Object(
            Object::new().with("tag", Json::text(port.tag.as_str())).with(
                "protocol",
                Json::text(port.protocol.as_str()),
            ).with("network", Json::text(port.network.as_str())).with(
                "transport",
                Json::text(port.transport.as_str()),
            ).with("listen", Json::text(port.listen.as_str())).with(
                "port",
                Json::uint(port.port as u64),
            ),
        );
        items.push(item);
        assert(item@ == all[i as int]);
        assert(items_model(items@) =~= items_model(done).push(item@));
        assert(all.take(i + 1) =~= all.take(i as int).push(all[i as int]));
        i = i + 1;
    }
    assert(all.take(i as int) =~= all);
    Json::Array(items)
}

/// Reports on the node.
pub fn response_from_state(
    state: &mut State,
    polls: (Poll, Poll, Poll),
    diagnostics: &Diagnostics,
    extra: Option<Json>,
) -> (response: HttpResponse)
    ensures
        response@ == report_view(old(state)@, polls, diagnostics@, opt_model(extra)),
        final(state)@ == reported_state(old(state)@, polls),
{
    let started = state.core.is_started(polls.0);
    let xray_api = state.core.xray_api_available(polls.1);
    let core_kind = match state.core.core_kind(polls.2) {
        Some(name) => Json::text(name),
        None => Json::Null,
    };
    let features = vec![
        Json::text("controller_inbounds"),
        Json::text("core_kind"),
        Json::text("node_diagnostics"),
    ];
    assert(items_model(features@) =~= seq![
        str_view("controller_inbounds"@),
        str_view("core_kind"@),
        str_view("node_diagnostics"@),
    ]);
    let cores = Json::Object(
        Object::new().with("sing-box", install_entry(&diagnostics.installed_cores.sing_box)).with(
            "xray",
            install_entry(&diagnostics.installed_cores.xray),
        ),
    );
    let mut body = Json::Object(
        Object::new().with("connected", Json::Bool(state.connected)).with(
            "started",
            Json::Bool(started),
        ).with("xray_api", Json::Bool(xray_api)).with("core_kind", core_kind).with(
            "core_version",
            Json::text(state.core.version()),
        ).with("features", Json::Array(features)).with(
            "node_version",
            Json::text(diagnostics.node_version.as_str()),
        ).with("installed_cores", cores).with(
            "agent_rss_bytes",
            number_json(diagnostics.agent_rss_bytes),
        ).with("core_rss_bytes", number_json(diagnostics.core_rss_bytes)).with(
            "local_sockets",
            socket_entries(&diagnostics.sockets),
        ).with(
            "configured_inbound_ports",
            port_entries(state.core.configured_inbound_ports()),
        ).with("last_core_restart_at", number_json(state.core.last_core_restart_at())),
    );
    match extra {
        Some(more) => merge_json(&mut body, &more),
        None => {},
    }
    HttpResponse::json(200, body)
}

/// What is told to the controller that opened a session.
pub open spec fn session_extra(id: u128) -> JsonView {
    JsonView::Object(map!["session_id"@ => str_view(session_text_view(id))])
}

impl State {
    /// The state of a node that was just started.
    pub fn new(core: XrayCore) -> (state: State)
        ensures
            state@ == (StateView {
                connected: false,
                client_ip: None,
                session_id: None,
                core: core@,
            }),
    {
        State { connected: false, client_ip: None, session_id: None, core }
    }

    /// Opens a session with a given id for a controller at an address. The text
    /// that tells the controller its session is read back as the same id.
    pub fn open_session(&mut self, peer_ip: String, id: u128) -> (extra: Json)
        ensures
            final(self)@ == old(self)@.opened(peer_ip@, id),
            extra@ == session_extra(id),
            session_of_text(session_text_view(id)) == Some(id),
    {
        self.connected = true;
        self.client_ip = Some(peer_ip);
        self.session_id = Some(id);
        Json::Object(Object::new().with("session_id", Json::Str(session_text(id))))
    }

    /// Closes the session; the process of the core has been killed.
    pub fn close_session(&mut self)
        ensures
            final(self)@ == old(self)@.closed(),
    {
        self.core.stop();
        self.connected = false;
        self.client_ip = None;
        self.session_id = None;
    }
}

pub proof fn lemma_report_keys()
    ensures
        "connected"@.len() == 9,
        "started"@.len() == 7,
        "xray_api"@.len() == 8,
        "core_kind"@.len() == 9,
        "core_version"@.len() == 12,
        "features"@.len() == 8,
        "node_version"@.len() == 12,
        "installed_cores"@.len() == 15,
        "agent_rss_bytes"@.len() == 15,
        "core_rss_bytes"@.len() == 14,
        "local_sockets"@.len() == 13,
        "configured_inbound_ports"@.len() == 24,
        "last_core_restart_at"@.len() == 20,
        "session_id"@.len() == 10,
        "xray"@.len() == 4,
        "sing-box"@.len() == 8,
        "connected"@ != "core_kind"@,
        "xray_api"@ != "features"@,
        "core_version"@ != "node_version"@,
        "installed_cores"@ != "agent_rss_bytes"@,
{
    reveal_strlit("connected");
    reveal_strlit("started");
    reveal_strlit("xray_api");
    reveal_strlit("core_kind");
    reveal_strlit("core_version");
    reveal_strlit("features");
    reveal_strlit("node_version");
    reveal_strlit("installed_cores");
    reveal_strlit("agent_rss_bytes");
    reveal_strlit("core_rss_bytes");
    reveal_strlit("local_sockets");
    reveal_strlit("configured_inbound_ports");
    reveal_strlit("last_core_restart_at");
    reveal_strlit("session_id");
    reveal_strlit("xray");
    reveal_strlit("sing-box");
    assert("connected"@[2] != "core_kind"@[2]);
    assert("xray_api"@[0] != "features"@[0]);
    assert("core_version"@[0] != "node_version"@[0]);
    assert("installed_cores"@[0] != "agent_rss_bytes"@[0]);
}

/// A report always tells whether a controller is connected, whether a core runs,
/// whether the Xray API is available, which core runs, its version and the
/// features. What is told of the core fits together: the API is available only
/// with a running Xray, and a core is named if and only if one runs. This holds
/// where the process did not end while the report was made.
pub proof fn report_fits_together(state: StateView, poll: Poll, diagnostics: DiagnosticsView)
    ensures
        ({
            let body = report_view(state, (poll, poll, poll), diagnostics, None).body;
            let started = state.core.started(poll);
            &&& body.get("connected"@) == Some(JsonView::Bool(state.connected))
            &&& body.get("started"@) == Some(JsonView::Bool(started))
            &&& body.get("xray_api"@) == Some(
                JsonView::Bool(started && state.core.role.needs() == Some(CoreKind::Xray)),
            )
            &&& body.get("core_kind"@) == Some(
                if started {
                    str_view(core_name(state.core.role.needs()->0))
                } else {
                    JsonView::Null
                },
            )
            &&& body.get("core_version"@) == Some(str_view(state.core.version))
            &&& body.get("core_kind"@) == Some(str_view("sing-box"@)) ==> body.get("xray_api"@)
                == Some(JsonView::Bool(false))
        }),
{
    lemma_report_keys();
}

/// A report always tells the diagnostics: the version of the node, the installed
/// cores, the memory of node and core, the listening sockets of the machine, the
/// ports of the configuration, the time of the last start, and among the features
/// that it does so.
pub proof fn report_tells_the_diagnostics(
    state: StateView,
    polls: (Poll, Poll, Poll),
    diagnostics: DiagnosticsView,
)
    ensures
        ({
            let body = report_view(state, polls, diagnostics, None).body;
            &&& body.get("node_version"@) == Some(str_view(diagnostics.node_version))
            &&& body.get("installed_cores"@) == Some(installed_json(diagnostics.installed_cores))
            &&& body.get("agent_rss_bytes"@) == Some(number_or_null(diagnostics.agent_rss_bytes))
            &&& body.get("core_rss_bytes"@) == Some(number_or_null(diagnostics.core_rss_bytes))
            &&& body.get("local_sockets"@) == Some(sockets_json(diagnostics.sockets))
            &&& body.get("configured_inbound_ports"@) == Some(ports_json(state.core.ports))
            &&& body.get("last_core_restart_at"@) == Some(
                number_or_null(state.core.last_core_restart_at),
            )
            &&& body.get("features"@) == Some(features_view())
            &&& features_view()->Array_0.contains(str_view("controller_inbounds"@))
            &&& features_view()->Array_0.contains(str_view("core_kind"@))
            &&& features_view()->Array_0.contains(str_view("node_diagnostics"@))
        }),
{
    lemma_report_keys();
    let features = features_view()->Array_0;
    assert(features[0] == str_view("controller_inbounds"@));
    assert(features[1] == str_view("core_kind"@));
    assert(features[2] == str_view("node_diagnostics"@));
}

/// A report to a controller that opened a session tells it the session, beside
/// what every report tells.
pub proof fn report_tells_the_session(
    state: StateView,
    polls: (Poll, Poll, Poll),
    diagnostics: DiagnosticsView,
    id: u128,
)
    ensures
        ({
            let plain = report_view(state, polls, diagnostics, None).body;
            let told = report_view(state, polls, diagnostics, Some(session_extra(id))).body;
            &&& told.str_at("session_id"@) == Some(session_text_view(id))
            &&& forall|key: Seq<char>|
                key != "session_id"@ ==> #[trigger] told.get(key) == plain.get(key)
        }),
{
    let plain = report_view(state, polls, diagnostics, None).body;
    let told = report_view(state, polls, diagnostics, Some(session_extra(id))).body;
    assert forall|key: Seq<char>| key != "session_id"@ implies #[trigger] told.get(key)
        == plain.get(key) by {
        assert(!session_extra(id)->Object_0.dom().contains(key));
    }
    assert(session_extra(id)->Object_0.dom().contains("session_id"@));
}

proof fn lemma_entries_are_plain(diagnostics: DiagnosticsView, ports: Seq<PortView>)
    ensures
        is_plain(installed_json(diagnostics.installed_cores), 2),
        is_plain(sockets_json(diagnostics.sockets), 2),
        is_plain(ports_json(ports), 2),
        is_plain(features_view(), 2),
{
    reveal_with_fuel(is_plain, 3);
    let cores = diagnostics.installed_cores;
    assert(is_plain(install_json(cores.sing_box), 1));
    assert(is_plain(install_json(cores.xray), 1));
    assert forall|i: int| 0 <= i < diagnostics.sockets.len() implies is_plain(
        #[trigger] sockets_json(diagnostics.sockets)->Array_0[i],
        1,
    ) by {
        assert(is_plain(socket_json(diagnostics.sockets[i]), 1));
    }
    assert forall|i: int| 0 <= i < ports.len() implies is_plain(
        #[trigger] ports_json(ports)->Array_0[i],
        1,
    ) by {
        assert(is_plain(port_json(ports[i]), 1));
    }
}

/// A report holds no fractions and is not nested deeply, with and without a
/// session, so it is read back out of the bytes of its response.
pub proof fn report_is_plain(
    state: StateView,
    polls: (Poll, Poll, Poll),
    diagnostics: DiagnosticsView,
    id: u128,
)
    ensures
        is_plain(report_view(state, polls, diagnostics, None).body, 3),
        is_plain(report_view(state, polls, diagnostics, Some(session_extra(id))).body, 3),
{
    lemma_entries_are_plain(diagnostics, state.core.ports);
    let body = report_body(state, polls, diagnostics)->Object_0;
    assert forall|key: Seq<char>| body.dom().contains(key) implies is_plain(
        #[trigger] body[key],
        2,
    ) by {
    }
    let told = report_view(state, polls, diagnostics, Some(session_extra(id))).body->Object_0;
    assert forall|key: Seq<char>| told.dom().contains(key) implies is_plain(
        #[trigger] told[key],
        2,
    ) by {
        if session_extra(id)->Object_0.dom().contains(key) {
            assert(is_plain(str_view(session_text_view(id)), 2));
        } else {
            assert(is_plain(body[key], 2));
        }
    }
}

/// The inbounds that the controller selects take the place of those in the
/// node's settings, which count only where the controller selects none.
pub proof fn controller_inbounds_override_settings(
    state: StateView,
    settings: SettingsView,
    tags: Seq<Seq<char>>,
)
    ensures
        api_settings_view(state, settings, Some(tags)).allowed_inbounds == tags,
        api_settings_view(state, settings, None).allowed_inbounds == settings.inbounds,
{
}

} // verus!
