//! Controller configurations: selection of inbounds and of the core that runs
//! them, and the Xray API that the node adds.
use vstd::prelude::*;
use vstd::string::*;
use crate::json::{
    Json, JsonView, Object, is_plain, items_model, json_equal, json_same, lemma_plain,
    lemma_plain_deeper, lemma_plain_items, lemma_plain_members, opt_model, plain_values_are_equal_as_the_same, str_view, uint_view,
    without_fractions,
};
use crate::json_text::{READ_DEPTH, is_text_of, parse, parsed_json, reads_within_depth};
use crate::sing_box::{build_sing_box_config, needs_sing_box_core, requires_sing_box, sing_box_view};
use crate::text::{text_eq, texts};

verus! {

/// Why a controller configuration was refused.
#[derive(Debug)]
pub enum ConfigError {
    InvalidJson(String),
    RootIsNotObject,
    UnsupportedSingBoxInbound(String),
}

/// What a refusal says.
#[verifier::ext_equal]
pub enum ConfigErrorView {
    InvalidJson(Seq<char>),
    RootIsNotObject,
    UnsupportedSingBoxInbound(Seq<char>),
}

impl View for ConfigError {
    type V = ConfigErrorView;

    open spec fn view(&self) -> ConfigErrorView {
        match self {
            ConfigError::InvalidJson(message) => ConfigErrorView::InvalidJson(message@),
            ConfigError::RootIsNotObject => ConfigErrorView::RootIsNotObject,
            ConfigError::UnsupportedSingBoxInbound(
                tag,
            ) => ConfigErrorView::UnsupportedSingBoxInbound(tag@),
        }
    }
}

/// The message of a refusal.
pub open spec fn config_error_text(error: ConfigErrorView) -> Seq<char> {
    match error {
        ConfigErrorView::InvalidJson(message) => "Failed to decode config: "@ + message,
        ConfigErrorView::RootIsNotObject => "Xray config root must be a JSON object"@,
        ConfigErrorView::UnsupportedSingBoxInbound(tag) => "Inbound "@ + tag
            + " is not supported by the sing-box translator yet"@,
    }
}

impl ConfigError {
    /// The message of the refusal.
    pub fn message(&self) -> (text: String)
        ensures
            text@ == config_error_text(self@),
    {
        match self {
            ConfigError::InvalidJson(message) => {
                let mut text = "Failed to decode config: ".to_owned();
                text.append(message.as_str());
                text
            },
            ConfigError::RootIsNotObject => "Xray config root must be a JSON object".to_owned(),
            ConfigError::UnsupportedSingBoxInbound(tag) => {
                let mut text = "Inbound ".to_owned();
                text.append(tag.as_str());
                text.append(" is not supported by the sing-box translator yet");
                text
            },
        }
    }
}

/// What the node adds to a configuration.
#[derive(Clone, Debug, PartialEq, Eq)]
pub struct ApiSettings {
    pub host: String,
    pub port: u16,
    pub ssl_cert_file: String,
    pub ssl_key_file: String,
    pub peer_ip: String,
    pub allowed_inbounds: Vec<String>,
}

/// What the settings for a configuration say.
#[verifier::ext_equal]
pub struct ApiView {
    pub host: Seq<char>,
    pub port: u16,
    pub ssl_cert_file: Seq<char>,
    pub ssl_key_file: Seq<char>,
    pub peer_ip: Seq<char>,
    pub allowed_inbounds: Seq<Seq<char>>,
}

impl View for ApiSettings {
    type V = ApiView;

    open spec fn view(&self) -> ApiView {
        ApiView {
            host: self.host@,
            port: self.port,
            ssl_cert_file: self.ssl_cert_file@,
            ssl_key_file: self.ssl_key_file@,
            peer_ip: self.peer_ip@,
            allowed_inbounds: texts(self.allowed_inbounds@),
        }
    }
}

/// A proxy core.
#[derive(Clone, Copy, Debug, PartialEq, Eq, Structural)]
pub enum CoreKind {
    Xray,
    SingBox,
}

/// A port on which a configuration accepts traffic.
#[derive(Clone, Debug, PartialEq, Eq)]
pub struct ConfiguredInboundPort {
    pub tag: String,
    pub protocol: String,
    pub network: String,
    pub transport: String,
    pub listen: String,
    pub port: u16,
}

/// What a configured port says.
#[verifier::ext_equal]
pub struct PortView {
    pub tag: Seq<char>,
    pub protocol: Seq<char>,
    pub network: Seq<char>,
    pub transport: Seq<char>,
    pub listen: Seq<char>,
    pub port: u16,
}

impl View for ConfiguredInboundPort {
    type V = PortView;

    open spec fn view(&self) -> PortView {
        PortView {
            tag: self.tag@,
            protocol: self.protocol@,
            network: self.network@,
            transport: self.transport@,
            listen: self.listen@,
            port: self.port,
        }
    }
}

/// The views of a list of ports.
pub open spec fn ports_model(ports: Seq<ConfiguredInboundPort>) -> Seq<PortView> {
    ports.map_values(|port: ConfiguredInboundPort| port@)
}

/// Whether an inbound is the one that the node added for the Xray API.
pub open spec fn is_api_inbound(inbound: JsonView) -> bool {
    inbound.str_at("protocol"@) == Some("dokodemo-door"@) && inbound.str_at("tag"@) == Some(
        "API_INBOUND"@,
    )
}

/// Whether an inbound is selected: it is not the node's own, and it is tagged
/// with one of the allowed tags, or no tags are given.
pub open spec fn is_selected(inbound: JsonView, allowed: Seq<Seq<char>>) -> bool {
    &&& !is_api_inbound(inbound)
    &&& allowed.len() == 0 || (inbound.str_at("tag"@) matches Some(tag) && allowed.contains(tag))
}

/// The inbounds of a configuration; anything but an array counts as none.
pub open spec fn inbounds_view(config: Map<Seq<char>, JsonView>) -> Seq<JsonView> {
    match JsonView::Object(config).array_at("inbounds"@) {
        Some(inbounds) => inbounds,
        None => Seq::empty(),
    }
}

/// The selected inbounds of a configuration, in order.
pub open spec fn selected_view(
    config: Map<Seq<char>, JsonView>,
    allowed: Seq<Seq<char>>,
) -> Seq<JsonView> {
    inbounds_view(config).filter(|inbound: JsonView| is_selected(inbound, allowed))
}

/// The core that runs a list of inbounds: none for no inbounds, sing-box if any
/// of them needs it, and Xray otherwise.
pub open spec fn core_for(inbounds: Seq<JsonView>) -> Option<CoreKind> {
    if inbounds.len() == 0 {
        None
    } else if exists|i: int| 0 <= i < inbounds.len() && needs_sing_box_core(#[trigger] inbounds[i]) {
        Some(CoreKind::SingBox)
    } else {
        Some(CoreKind::Xray)
    }
}

/// The inbound of the Xray API.
pub open spec fn api_inbound_view(api: ApiView) -> JsonView {
    JsonView::Object(
        map![
            "listen"@ => str_view(api.host),
            "port"@ => uint_view(api.port as u64),
            "protocol"@ => str_view("dokodemo-door"@),
            "settings"@ => JsonView::Object(map!["address"@ => str_view("127.0.0.1"@)]),
            "streamSettings"@ => JsonView::Object(
                map![
                    "security"@ => str_view("tls"@),
                    "tlsSettings"@ => JsonView::Object(
                        map![
                            "certificates"@ => JsonView::Array(
                                seq![
                                    JsonView::Object(
                                        map![
                                            "certificateFile"@ => str_view(api.ssl_cert_file),
                                            "keyFile"@ => str_view(api.ssl_key_file),
                                        ],
                                    ),
                                ],
                            ),
                        ],
                    ),
                ],
            ),
            "tag"@ => str_view("API_INBOUND"@),
        ],
    )
}

/// The rule that routes the Xray API for the node itself and for the controller.
pub open spec fn api_rule_view(api: ApiView) -> JsonView {
    JsonView::Object(
        map![
            "inboundTag"@ => JsonView::Array(seq![str_view("API_INBOUND"@)]),
            "source"@ => JsonView::Array(seq![str_view("127.0.0.1"@), str_view(api.peer_ip)]),
            "outboundTag"@ => str_view("API"@),
            "type"@ => str_view("field"@),
        ],
    )
}

/// The `api` member that is added for Xray.
pub open spec fn api_member_view() -> JsonView {
    JsonView::Object(
        map![
            "services"@ => JsonView::Array(
                seq![
                    str_view("HandlerService"@),
                    str_view("StatsService"@),
                    str_view("LoggerService"@),
                ],
            ),
            "tag"@ => str_view("API"@),
        ],
    )
}

/// The rules that do not lead to an outbound tag.
pub open spec fn rules_without(rules: Seq<JsonView>, tag: Seq<char>) -> Seq<JsonView> {
    rules.filter(|rule: JsonView| rule.str_at("outboundTag"@) != Some(tag))
}

/// A configuration without the routing rules of the API that it has.
pub open spec fn without_api_rules(config: Map<Seq<char>, JsonView>) -> Map<Seq<char>, JsonView> {
    let root = JsonView::Object(config);
    match (
        root.field("api"@).str_at("tag"@),
        root.field("routing"@),
        root.field("routing"@).array_at("rules"@),
    ) {
        (Some(tag), JsonView::Object(routing), Some(rules)) => config.insert(
            "routing"@,
            JsonView::Object(
                routing.insert("rules"@, JsonView::Array(rules_without(rules, tag))),
            ),
        ),
        _ => config,
    }
}

/// The routing object of a configuration; anything but an object counts as none.
pub open spec fn routing_view(config: Map<Seq<char>, JsonView>) -> Map<Seq<char>, JsonView> {
    match JsonView::Object(config).field("routing"@) {
        JsonView::Object(routing) => routing,
        _ => map!["rules"@ => JsonView::Array(Seq::empty())],
    }
}

/// The routing rules of a configuration; anything but an array counts as none.
pub open spec fn rules_view(config: Map<Seq<char>, JsonView>) -> Seq<JsonView> {
    match JsonView::Object(routing_view(config)).array_at("rules"@) {
        Some(rules) => rules,
        None => Seq::empty(),
    }
}

/// A configuration with a rule before its other routing rules.
pub open spec fn with_first_rule(config: Map<Seq<char>, JsonView>, rule: JsonView) -> Map<
    Seq<char>,
    JsonView,
> {
    config.insert(
        "routing"@,
        JsonView::Object(
            routing_view(config).insert(
                "rules"@,
                JsonView::Array(seq![rule] + rules_view(config)),
            ),
        ),
    )
}

/// A configuration with the given inbounds and without any API.
pub open spec fn without_api_view(
    config: Map<Seq<char>, JsonView>,
    inbounds: Seq<JsonView>,
) -> Map<Seq<char>, JsonView> {
    without_api_rules(config.insert("inbounds"@, JsonView::Array(inbounds))).remove("api"@).remove(
        "stats"@,
    )
}

/// A configuration with the given inbounds and with the node's API.
pub open spec fn with_api_view(
    config: Map<Seq<char>, JsonView>,
    inbounds: Seq<JsonView>,
    api: ApiView,
) -> Map<Seq<char>, JsonView> {
    with_first_rule(
        without_api_rules(
            config.insert("inbounds"@, JsonView::Array(seq![api_inbound_view(api)] + inbounds)),
        ),
        api_rule_view(api),
    ).insert("api"@, api_member_view()).insert("stats"@, JsonView::Object(Map::empty()))
}

/// What a configuration means: the Xray configuration, the sing-box
/// configuration if there is one, and the core that is needed.
#[verifier::ext_equal]
pub struct XrayConfigView {
    pub value: JsonView,
    pub sing_box_value: Option<JsonView>,
    pub core_kind: Option<CoreKind>,
}

/// What becomes of a configuration object.
pub open spec fn applied_view(config: Map<Seq<char>, JsonView>, api: ApiView) -> Result<
    XrayConfigView,
    ConfigErrorView,
> {
    let selected = selected_view(config, api.allowed_inbounds);
    match core_for(selected) {
        None => Ok(
            XrayConfigView {
                value: JsonView::Object(without_api_view(config, selected)),
                sing_box_value: None,
                core_kind: None,
            },
        ),
        Some(CoreKind::SingBox) => match sing_box_view(selected, api) {
            Ok(sing_box) => Ok(
                XrayConfigView {
                    value: JsonView::Object(without_api_view(config, Seq::empty())),
                    sing_box_value: Some(sing_box),
                    core_kind: Some(CoreKind::SingBox),
                },
            ),
            Err(error) => Err(error),
        },
        Some(CoreKind::Xray) => Ok(
            XrayConfigView {
                value: JsonView::Object(with_api_view(config, selected, api)),
                sing_box_value: None,
                core_kind: Some(CoreKind::Xray),
            },
        ),
    }
}

/// What becomes of a JSON value that a controller sends.
pub open spec fn config_view(value: JsonView, api: ApiView) -> Result<
    XrayConfigView,
    ConfigErrorView,
> {
    match value {
        JsonView::Object(config) => applied_view(config, api),
        _ => Err(ConfigErrorView::RootIsNotObject),
    }
}

/// What becomes of a JSON text that was read, or not, as given.
pub open spec fn controller_view(
    parsed: Result<JsonView, Seq<char>>,
    api: ApiView,
) -> Result<XrayConfigView, ConfigErrorView> {
    match parsed {
        Ok(value) => config_view(value, api),
        Err(message) => Err(ConfigErrorView::InvalidJson(message)),
    }
}

/// The view of an accepted or refused configuration.
pub open spec fn outcome(result: Result<XrayConfig, ConfigError>) -> Result<
    XrayConfigView,
    ConfigErrorView,
> {
    match result {
        Ok(config) => Ok(config@),
        Err(error) => Err(error@),
    }
}

/// A controller configuration that the node can run.
#[derive(Debug)]
pub struct XrayConfig {
    value: Json,
    sing_box_value: Option<Json>,
    core_kind: Option<CoreKind>,
}

impl View for XrayConfig {
    type V = XrayConfigView;

    closed spec fn view(&self) -> XrayConfigView {
        XrayConfigView {
            value: self.value@,
            sing_box_value: opt_model(self.sing_box_value),
            core_kind: self.core_kind,
        }
    }
}

impl Clone for XrayConfig {
    fn clone(&self) -> (copy: XrayConfig)
        ensures
            copy@ == self@,
    {
        proof {
            use_type_invariant(self);
        }
        let sing_box_value = match &self.sing_box_value {
            Some(value) => Some(value.clone()),
            None => None,
        };
        XrayConfig { value: self.value.clone(), sing_box_value, core_kind: self.core_kind }
    }
}

/// Whether two configurations are equal: as their values are, and as the cores
/// are that they need.
pub open spec fn config_equal(a: XrayConfigView, b: XrayConfigView) -> bool {
    &&& json_equal(a.value, b.value)
    &&& match (a.sing_box_value, b.sing_box_value) {
        (Some(x), Some(y)) => json_equal(x, y),
        (None, None) => true,
        _ => false,
    }
    &&& a.core_kind == b.core_kind
}

/// Two configurations without fractions are equal if and only if they are the
/// same.
pub proof fn plain_configs_are_equal_as_the_same(a: XrayConfigView, b: XrayConfigView, depth: nat)
    requires
        is_plain(a.value, depth),
        a.sing_box_value matches Some(v) ==> is_plain(v, depth),
    ensures
        config_equal(a, b) <==> a == b,
{
    plain_values_are_equal_as_the_same(a.value, b.value, depth);
    match (a.sing_box_value, b.sing_box_value) {
        (Some(x), Some(y)) => plain_values_are_equal_as_the_same(x, y, depth),
        _ => {},
    }
}

impl PartialEq for XrayConfig {
    fn eq(&self, other: &XrayConfig) -> (same: bool) {
        let sing_box = match (&self.sing_box_value, &other.sing_box_value) {
            (Some(a), Some(b)) => json_same(a, b),
            (None, None) => true,
            _ => false,
        };
        let core = match (self.core_kind, other.core_kind) {
            (Some(a), Some(b)) => a == b,
            (None, None) => true,
            _ => false,
        };
        json_same(&self.value, &other.value) && sing_box && core
    }
}

impl vstd::std_specs::cmp::PartialEqSpecImpl for XrayConfig {
    open spec fn obeys_eq_spec() -> bool {
        true
    }

    open spec fn eq_spec(&self, other: &XrayConfig) -> bool {
        config_equal(self@, other@)
    }
}

/// Whether a tag is among the allowed ones.
fn tag_allowed(allowed: &Vec<String>, tag: &str) -> (yes: bool)
    ensures
        yes == texts(allowed@).contains(tag@),
{
    let mut i: usize = 0;
    while i < allowed.len()
        invariant
            i <= allowed@.len(),
            forall|j: int| 0 <= j < i ==> (#[trigger] texts(allowed@)[j]) != tag@,
        decreases allowed@.len() - i,
    {
        assert(texts(allowed@)[i as int] == allowed@[i as int]@);
        if text_eq(allowed[i].as_str(), tag) {
            return true;
        }
        i = i + 1;
    }
    false
}

/// Whether an inbound is selected.
pub fn selects(inbound: &Json, allowed: &Vec<String>) -> (yes: bool)
    ensures
        yes == is_selected(inbound@, texts(allowed@)),
{
    if inbound.str_is("protocol", "dokodemo-door") && inbound.str_is("tag", "API_INBOUND") {
        return false;
    }
    if allowed.len() == 0 {
        return true;
    }
    match inbound.str_at("tag") {
        Some(tag) => tag_allowed(allowed, tag),
        None => false,
    }
}

/// The inbounds that are selected, in order.
fn retain_selected(inbounds: Vec<Json>, allowed: &Vec<String>) -> (kept: Vec<Json>)
    ensures
        items_model(kept@) == items_model(inbounds@).filter(
            |inbound: JsonView| is_selected(inbound, texts(allowed@)),
        ),
{
    let ghost all = inbounds@;
    let ghost models = items_model(all);
    let ghost p = |inbound: JsonView| is_selected(inbound, texts(allowed@));
    let mut kept: Vec<Json> = Vec::new();
    proof {
        reveal(Seq::filter);
        assert(items_model(kept@) =~= models.take(0).filter(p));
    }
    for inbound in it: inbounds
        invariant
            it.seq() == all,
            models == items_model(all),
            p == (|inbound: JsonView| is_selected(inbound, texts(allowed@))),
            items_model(kept@) == models.take(it.index() as int).filter(p),
    {
        let ghost k = it.index() as int;
        let ghost done = kept@;
        proof {
            reveal(Seq::filter);
            assert(models.take(k + 1).drop_last() =~= models.take(k));
            assert(models.take(k + 1).last() == inbound@);
        }
        if selects(&inbound, allowed) {
            kept.push(inbound);
            assert(items_model(kept@) =~= items_model(done).push(inbound@));
        }
    }
    assert(models.take(models.len() as int) =~= models);
    kept
}

/// The rules that do not lead to an outbound tag.
fn retain_rules(rules: Vec<Json>, tag: &str) -> (kept: Vec<Json>)
    ensures
        items_model(kept@) == rules_without(items_model(rules@), tag@),
{
    let ghost all = rules@;
    let ghost models = items_model(all);
    let ghost p = |rule: JsonView| rule.str_at("outboundTag"@) != Some(tag@);
    let mut kept: Vec<Json> = Vec::new();
    proof {
        reveal(Seq::filter);
        assert(items_model(kept@) =~= models.take(0).filter(p));
    }
    for rule in it: rules
        invariant
            it.seq() == all,
            models == items_model(all),
            p == (|rule: JsonView| rule.str_at("outboundTag"@) != Some(tag@)),
            items_model(kept@) == models.take(it.index() as int).filter(p),
    {
        let ghost k = it.index() as int;
        let ghost done = kept@;
        proof {
            reveal(Seq::filter);
            assert(models.take(k + 1).drop_last() =~= models.take(k));
            assert(models.take(k + 1).last() == rule@);
        }
        if !rule.str_is("outboundTag", tag) {
            kept.push(rule);
            assert(items_model(kept@) =~= items_model(done).push(rule@));
        }
    }
    assert(models.take(models.len() as int) =~= models);
    kept
}

/// The core that runs a list of inbounds.
pub fn select_core(inbounds: &Vec<Json>) -> (core: Option<CoreKind>)
    ensures
        core == core_for(items_model(inbounds@)),
{
    let ghost models = items_model(inbounds@);
    if inbounds.len() == 0 {
        return None;
    }
    let mut i: usize = 0;
    while i < inbounds.len()
        invariant
            i <= inbounds@.len(),
            inbounds@.len() > 0,
            models == items_model(inbounds@),
            forall|j: int| 0 <= j < i ==> !needs_sing_box_core(#[trigger] models[j]),
        decreases inbounds@.len() - i,
    {
        assert(models[i as int] == inbounds@[i as int]@);
        if requires_sing_box(&inbounds[i]) {
            return Some(CoreKind::SingBox);
        }
        i = i + 1;
    }
    Some(CoreKind::Xray)
}

/// The inbound of the Xray API.
pub fn api_inbound(api: &ApiSettings) -> (inbound: Json)
    ensures
        inbound@ == api_inbound_view(api@),
{
    let certificate = Json::Object(
        Object::new().with("certificateFile", Json::text(api.ssl_cert_file.as_str())).with(
            "keyFile",
            Json::text(api.ssl_key_file.as_str()),
        ),
    );
    let certificates = vec![certificate];
    assert(items_model(certificates@) =~= seq![certificate@]);
    let stream = Json::Object(
        Object::new().with("security", Json::text("tls")).with(
            "tlsSettings",
            Json::Object(Object::new().with("certificates", Json::Array(certificates))),
        ),
    );
    Json::Object(
        Object::new().with("listen", Json::text(api.host.as_str())).with(
            "port",
            Json::uint(api.port as u64),
        ).with("protocol", Json::text("dokodemo-door")).with(
            "settings",
            Json::Object(Object::new().with("address", Json::text("127.0.0.1"))),
        ).with("streamSettings", stream).with("tag", Json::text("API_INBOUND")),
    )
}

/// The rule that routes the Xray API.
pub fn api_routing_rule(api: &ApiSettings) -> (rule: Json)
    ensures
        rule@ == api_rule_view(api@),
{
    let tags = vec![Json::text("API_INBOUND")];
    let sources = vec![Json::text("127.0.0.1"), Json::text(api.peer_ip.as_str())];
    assert(items_model(tags@) =~= seq![str_view("API_INBOUND"@)]);
    assert(items_model(sources@) =~= seq![str_view("127.0.0.1"@), str_view(api.peer_ip@)]);
    Json::Object(
        Object::new().with("inboundTag", Json::Array(tags)).with(
            "source",
            Json::Array(sources),
        ).with("outboundTag", Json::text("API")).with("type", Json::text("field")),
    )
}

/// The `api` member that is added for Xray.
fn api_member() -> (api: Json)
    ensures
        api@ == api_member_view(),
{
    let services = vec![
        Json::text("HandlerService"),
        Json::text("StatsService"),
        Json::text("LoggerService"),
    ];
    assert(items_model(services@) =~= seq![
        str_view("HandlerService"@),
        str_view("StatsService"@),
        str_view("LoggerService"@),
    ]);
    Json::Object(
        Object::new().with("services", Json::Array(services)).with("tag", Json::text("API")),
    )
}

/// Removes the routing rules of the API that a configuration has.
pub fn remove_existing_api_rules(config: &mut Object)
    ensures
        final(config)@ == without_api_rules(old(config)@),
{
    let ghost before = config@;
    let tag: Option<String> = match config.get("api") {
        Some(api) => match api.str_at("tag") {
            Some(tag) => Some(tag.to_owned()),
            None => None,
        },
        None => None,
    };
    assert(match tag {
        Some(t) => JsonView::Object(before).field("api"@).str_at("tag"@) == Some(t@),
        None => JsonView::Object(before).field("api"@).str_at("tag"@) is None,
    });
    match tag {
        Some(tag) => match config.take("routing") {
            Some(Json::Object(routing)) => {
                let ghost routing_before = routing@;
                let mut routing = routing;
                match routing.take("rules") {
                    Some(Json::Array(rules)) => {
                        let kept = retain_rules(rules, tag.as_str());
                        routing.set("rules", Json::Array(kept));
                        assert(routing@ =~= routing_before.insert(
                            "rules"@,
                            JsonView::Array(items_model(kept@)),
                        ));
                        config.set("routing", Json::Object(routing));
                        assert(config@ =~= before.insert("routing"@, JsonView::Object(routing@)));
                    },
                    Some(other) => {
                        routing.set("rules", other);
                        assert(routing@ =~= routing_before);
                        config.set("routing", Json::Object(routing));
                        assert(config@ =~= before);
                    },
                    None => {
                        assert(routing@ =~= routing_before);
                        config.set("routing", Json::Object(routing));
                        assert(config@ =~= before);
                    },
                }
            },
            Some(other) => {
                config.set("routing", other);
                assert(config@ =~= before);
            },
            None => {
                assert(config@ =~= before);
            },
        },
        None => {},
    }
}

/// Puts a rule before the other routing rules of a configuration.
pub fn insert_first_rule(config: &mut Object, rule: Json)
    ensures
        final(config)@ == with_first_rule(old(config)@, rule@),
{
    let ghost before = config@;
    let mut routing: Object = match config.take("routing") {
        Some(Json::Object(routing)) => routing,
        _ => {
            let none: Vec<Json> = Vec::new();
            assert(items_model(none@) =~= Seq::empty());
            Object::new().with("rules", Json::Array(none))
        },
    };
    let ghost routing_before = routing@;
    assert(routing@ == routing_view(before));
    let rest: Vec<Json> = match routing.take("rules") {
        Some(Json::Array(rules)) => rules,
        _ => Vec::new(),
    };
    assert(items_model(rest@) =~= rules_view(before));
    let mut rest = rest;
    let ghost others = rest@;
    let mut rules = vec![rule];
    rules.append(&mut rest);
    assert(items_model(rules@) =~= seq![rule@] + items_model(others));
    routing.set("rules", Json::Array(rules));
    assert(routing@ =~= routing_before.insert("rules"@, JsonView::Array(items_model(rules@))));
    config.set("routing", Json::Object(routing));
    assert(config@ =~= before.insert("routing"@, JsonView::Object(routing@)));
}

/// Sets the inbounds of a configuration and removes any API from it.
fn strip_api(config: &mut Object, inbounds: Vec<Json>)
    ensures
        final(config)@ == without_api_view(old(config)@, items_model(inbounds@)),
{
    config.set("inbounds", Json::Array(inbounds));
    remove_existing_api_rules(config);
    config.remove("api");
    config.remove("stats");
}

/// Applies the node's settings to a configuration object.
pub fn apply_api(config: Object, api: &ApiSettings) -> (result: Result<XrayConfig, ConfigError>)
    ensures
        outcome(result) == applied_view(config@, api@),
{
    let ghost before = config@;
    let mut config = config;
    let inbounds: Vec<Json> = match config.take("inbounds") {
        Some(Json::Array(inbounds)) => inbounds,
        _ => Vec::new(),
    };
    assert(items_model(inbounds@) =~= inbounds_view(before));
    let selected = retain_selected(inbounds, &api.allowed_inbounds);
    let ghost models = items_model(selected@);
    assert(forall|v: JsonView|
        config@.insert("inbounds"@, v) =~= #[trigger] before.insert("inbounds"@, v));
    match select_core(&selected) {
        None => {
            strip_api(&mut config, selected);
            Ok(
                XrayConfig { value: Json::Object(config), sing_box_value: None, core_kind: None },
            )
        },
        Some(CoreKind::SingBox) => {
            let sing_box = match build_sing_box_config(&selected, api) {
                Ok(value) => value,
                Err(error) => {
                    return Err(error);
                },
            };
            let none: Vec<Json> = Vec::new();
            assert(items_model(none@) =~= Seq::empty());
            strip_api(&mut config, none);
            Ok(
                XrayConfig {
                    value: Json::Object(config),
                    sing_box_value: Some(sing_box),
                    core_kind: Some(CoreKind::SingBox),
                },
            )
        },
        Some(CoreKind::Xray) => {
            let first = api_inbound(api);
            let mut selected = selected;
            let ghost others = selected@;
            let mut inbounds = vec![first];
            inbounds.append(&mut selected);
            assert(items_model(inbounds@) =~= seq![first@] + items_model(others));
            config.set("inbounds", Json::Array(inbounds));
            remove_existing_api_rules(&mut config);
            insert_first_rule(&mut config, api_routing_rule(api));
            config.set("api", api_member());
            config.set("stats", Json::Object(Object::new()));
            Ok(
                XrayConfig {
                    value: Json::Object(config),
                    sing_box_value: None,
                    core_kind: Some(CoreKind::Xray),
                },
            )
        },
    }
}

impl XrayConfig {
    #[verifier::type_invariant]
    spec fn one_core(self) -> bool {
        self.core_kind == Some(CoreKind::SingBox) <==> self.sing_box_value is Some
    }

    /// Reads a configuration that a controller sends.
    pub fn from_controller_json(raw: &str, api: &ApiSettings) -> (result: Result<
        XrayConfig,
        ConfigError,
    >)
        ensures
            outcome(result) == controller_view(parsed_json(raw@), api@),
            reads_within_depth(raw@),
            result matches Ok(config) ==> without_fractions(parsed_json(raw@)->Ok_0) ==> is_plain(
                config@.value,
                READ_DEPTH as nat,
            ),
    {
        match parse(raw) {
            Ok(value) => {
                proof {
                    if without_fractions(value@) && config_view(value@, api@) is Ok {
                        lemma_plain(value@, READ_DEPTH as nat);
                        plain_config_stays_plain(value@, api@, READ_DEPTH as nat);
                    }
                }
                XrayConfig::from_value(value, api)
            },
            Err(message) => Err(ConfigError::InvalidJson(message)),
        }
    }

    /// Takes a configuration as a JSON value.
    pub fn from_value(value: Json, api: &ApiSettings) -> (result: Result<XrayConfig, ConfigError>)
        ensures
            outcome(result) == config_view(value@, api@),
    {
        match value {
            Json::Object(config) => apply_api(config, api),
            _ => Err(ConfigError::RootIsNotObject),
        }
    }

    /// The Xray configuration.
    pub fn into_value(self) -> (value: Json)
        ensures
            value@ == self@.value,
    {
        self.value
    }

    /// The Xray configuration.
    pub fn xray_value(&self) -> (value: &Json)
        ensures
            value@ == self@.value,
    {
        &self.value
    }

    /// The sing-box configuration, which there is if and only if sing-box is the
    /// core that is needed.
    pub fn sing_box_value(&self) -> (value: Option<&Json>)
        ensures
            match value {
                Some(v) => self@.sing_box_value == Some(v@) && self@.core_kind == Some(
                    CoreKind::SingBox,
                ),
                None => self@.sing_box_value is None && self@.core_kind != Some(CoreKind::SingBox),
            },
    {
        proof {
            use_type_invariant(self);
        }
        match &self.sing_box_value {
            Some(v) => Some(v),
            None => None,
        }
    }

    /// The text of the Xray configuration.
    pub fn to_json(&self) -> (text: String)
        ensures
            is_text_of(text@, self@.value),
    {
        self.value.to_text()
    }

    /// The text of the sing-box configuration.
    pub fn sing_box_json(&self) -> (text: Option<String>)
        ensures
            match text {
                Some(t) => self@.sing_box_value matches Some(v) && is_text_of(t@, v)
                    && self@.core_kind == Some(CoreKind::SingBox),
                None => self@.sing_box_value is None && self@.core_kind != Some(CoreKind::SingBox),
            },
    {
        match self.sing_box_value() {
            Some(value) => Some(value.to_text()),
            None => None,
        }
    }

    pub fn needs_xray(&self) -> (yes: bool)
        ensures
            yes == (self@.core_kind == Some(CoreKind::Xray)),
    {
        match self.core_kind {
            Some(CoreKind::Xray) => true,
            _ => false,
        }
    }

    pub fn needs_sing_box(&self) -> (yes: bool)
        ensures
            yes == (self@.core_kind == Some(CoreKind::SingBox)),
    {
        match self.core_kind {
            Some(CoreKind::SingBox) => true,
            _ => false,
        }
    }

    /// The core that the configuration needs.
    pub fn core_kind(&self) -> (core: Option<CoreKind>)
        ensures
            core == self@.core_kind,
    {
        self.core_kind
    }
}

/// The member under a key, or else the one under a second key.
pub open spec fn either_member(
    value: JsonView,
    key: Seq<char>,
    second: Seq<char>,
) -> Option<JsonView> {
    match value.get(key) {
        Some(member) => Some(member),
        None => value.get(second),
    }
}

/// The text in a member, or a text that stands in for it.
pub open spec fn text_or(member: Option<JsonView>, default: Seq<char>) -> Seq<char> {
    match member {
        Some(JsonView::Str(s)) => s,
        _ => default,
    }
}

/// The network of an inbound.
pub open spec fn network_view(inbound: JsonView, protocol: Seq<char>) -> Seq<char> {
    let named = match inbound.field("streamSettings"@).get("network"@) {
        Some(network) => Some(network),
        None => inbound.get("network"@),
    };
    text_or(
        named,
        if protocol == "hysteria2"@ {
            "hysteria"@
        } else {
            "tcp"@
        },
    )
}

/// Whether traffic of a network or protocol goes over UDP.
pub open spec fn over_udp(network: Seq<char>, protocol: Seq<char>) -> bool {
    ||| network == "hysteria"@
    ||| network == "udp"@
    ||| network == "quic"@
    ||| network == "kcp"@
    ||| protocol == "hysteria2"@
}

/// The port number of an inbound.
pub open spec fn port_number(inbound: JsonView) -> Option<u16> {
    match either_member(inbound, "port"@, "listen_port"@) {
        Some(port) => match port.as_u64() {
            Some(n) => if n <= u16::MAX {
                Some(n as u16)
            } else {
                None
            },
            None => None,
        },
        None => None,
    }
}

/// The port of an inbound. The node's own inbound, an inbound without a tag, and
/// one without a valid port number have none.
pub open spec fn port_view(inbound: JsonView) -> Option<PortView> {
    match (inbound.str_at("tag"@), port_number(inbound)) {
        (Some(tag), Some(port)) => if tag == "API_INBOUND"@ {
            None
        } else {
            let protocol = text_or(either_member(inbound, "protocol"@, "type"@), "unknown"@);
            let network = network_view(inbound, protocol);
            Some(
                PortView {
                    tag,
                    protocol,
                    network,
                    transport: if over_udp(network, protocol) {
                        "udp"@
                    } else {
                        "tcp"@
                    },
                    listen: text_or(inbound.get("listen"@), "0.0.0.0"@),
                    port,
                },
            )
        },
        _ => None,
    }
}

/// The ports of the inbounds of a configuration value.
pub open spec fn ports_of(value: JsonView) -> Seq<PortView> {
    match value.array_at("inbounds"@) {
        Some(inbounds) => inbounds.filter_map(|inbound: JsonView| port_view(inbound)),
        None => Seq::empty(),
    }
}

/// The ports of a configuration: those of the sing-box configuration where there
/// is one, and those of the Xray configuration otherwise.
pub open spec fn configured_ports(config: XrayConfigView) -> Seq<PortView> {
    match config.sing_box_value {
        Some(value) => ports_of(value),
        None => ports_of(config.value),
    }
}

fn either_of<'a>(value: &'a Json, key: &str, second: &str) -> (member: Option<&'a Json>)
    ensures
        match member {
            Some(m) => either_member(value@, key@, second@) == Some(m@),
            None => either_member(value@, key@, second@) is None,
        },
{
    match value.get(key) {
        Some(member) => Some(member),
        None => value.get(second),
    }
}

/// The network of an inbound.
pub fn inbound_network(inbound: &Json, protocol: &str) -> (network: String)
    ensures
        network@ == network_view(inbound@, protocol@),
{
    let named = match inbound.field("streamSettings").get("network") {
        Some(network) => Some(network),
        None => inbound.get("network"),
    };
    match named {
        Some(Json::Str(network)) => network.clone(),
        _ => if text_eq(protocol, "hysteria2") {
            "hysteria".to_owned()
        } else {
            "tcp".to_owned()
        },
    }
}

/// The port of an inbound.
pub fn configured_inbound_port(inbound: &Json) -> (port: Option<ConfiguredInboundPort>)
    ensures
        match port {
            Some(p) => port_view(inbound@) == Some(p@),
            None => port_view(inbound@) is None,
        },
{
    let tag = match inbound.str_at("tag") {
        Some(tag) => tag.to_owned(),
        None => {
            return None;
        },
    };
    if text_eq(tag.as_str(), "API_INBOUND") {
        return None;
    }
    let protocol = match either_of(inbound, "protocol", "type") {
        Some(Json::Str(protocol)) => protocol.clone(),
        _ => "unknown".to_owned(),
    };
    let port: u16 = match either_of(inbound, "port", "listen_port") {
        Some(port) => match port.as_u64() {
            Some(n) => if n <= u16::MAX as u64 {
                n as u16
            } else {
                return None;
            },
            None => {
                return None;
            },
        },
        None => {
            return None;
        },
    };
    let listen = match inbound.get("listen") {
        Some(Json::Str(listen)) => listen.clone(),
        _ => "0.0.0.0".to_owned(),
    };
    let network = inbound_network(inbound, protocol.as_str());
    let udp = text_eq(network.as_str(), "hysteria") || text_eq(network.as_str(), "udp") || text_eq(
        network.as_str(),
        "quic",
    ) || text_eq(network.as_str(), "kcp") || text_eq(protocol.as_str(), "hysteria2");
    let transport = if udp {
        "udp".to_owned()
    } else {
        "tcp".to_owned()
    };
    Some(ConfiguredInboundPort { tag, protocol, network, transport, listen, port })
}

/// The ports of the inbounds of a configuration value.
fn inbound_ports(value: &Json) -> (ports: Vec<ConfiguredInboundPort>)
    ensures
        ports_model(ports@) == ports_of(value@),
{
    let mut ports: Vec<ConfiguredInboundPort> = Vec::new();
    match value.array_at("inbounds") {
        Some(inbounds) => {
            let ghost models = items_model(inbounds@);
            let ghost f = |inbound: JsonView| port_view(inbound);
            let mut i: usize = 0;
            assert(ports_model(ports@) =~= models.take(0).filter_map(f));
            while i < inbounds.len()
                invariant
                    i <= inbounds@.len(),
                    models == items_model(inbounds@),
                    f == (|inbound: JsonView| port_view(inbound)),
                    ports_model(ports@) == models.take(i as int).filter_map(f),
                decreases inbounds@.len() - i,
            {
                let ghost done = ports@;
                proof {
                    models.lemma_filter_map_take_succ(f, i as int);
                }
                match configured_inbound_port(&inbounds[i]) {
                    Some(port) => {
                        ports.push(port);
                        assert(ports_model(ports@) =~= ports_model(done).push(port@));
                    },
                    None => {},
                }
                assert(ports_model(ports@) =~= models.take(i + 1).filter_map(f));
                i = i + 1;
            }
            assert(models.take(i as int) =~= models);
        },
        None => {
            assert(ports_model(ports@) =~= Seq::empty());
        },
    }
    ports
}

impl XrayConfig {
    /// The ports on which the configuration accepts traffic.
    pub fn configured_inbound_ports(&self) -> (ports: Vec<ConfiguredInboundPort>)
        ensures
            ports_model(ports@) == configured_ports(self@),
    {
        match self.sing_box_value() {
            Some(value) => inbound_ports(value),
            None => inbound_ports(&self.value),
        }
    }
}

pub proof fn lemma_root_keys()
    ensures
        "inbounds"@ != "routing"@,
        "inbounds"@ != "api"@,
        "inbounds"@ != "stats"@,
        "routing"@ != "api"@,
        "routing"@ != "stats"@,
        "api"@ != "stats"@,
{
    reveal_strlit("inbounds");
    reveal_strlit("routing");
    reveal_strlit("api");
    reveal_strlit("stats");
    assert("inbounds"@.len() == 8);
    assert("routing"@.len() == 7);
    assert("api"@.len() == 3);
    assert("stats"@.len() == 5);
}

proof fn lemma_api_inbound(api: ApiView)
    ensures
        is_api_inbound(api_inbound_view(api)),
        api_inbound_view(api).str_at("listen"@) == Some(api.host),
        api_inbound_view(api).get("port"@) == Some(uint_view(api.port as u64)),
{
    reveal_strlit("listen");
    reveal_strlit("port");
    reveal_strlit("protocol");
    reveal_strlit("settings");
    reveal_strlit("streamSettings");
    reveal_strlit("tag");
    assert("listen"@.len() == 6);
    assert("port"@.len() == 4);
    assert("protocol"@.len() == 8);
    assert("settings"@.len() == 8);
    assert("streamSettings"@.len() == 14);
    assert("tag"@.len() == 3);
    assert("protocol"@[0] != "settings"@[0]);
}

proof fn lemma_api_rule(api: ApiView)
    ensures
        api_rule_view(api).str_at("outboundTag"@) == Some("API"@),
        api_rule_view(api).array_at("source"@) == Some(
            seq![str_view("127.0.0.1"@), str_view(api.peer_ip)],
        ),
        api_member_view().str_at("tag"@) == Some("API"@),
{
    reveal_strlit("inboundTag");
    reveal_strlit("source");
    reveal_strlit("outboundTag");
    reveal_strlit("type");
    reveal_strlit("services");
    reveal_strlit("tag");
    assert("inboundTag"@.len() == 10);
    assert("source"@.len() == 6);
    assert("outboundTag"@.len() == 11);
    assert("type"@.len() == 4);
    assert("services"@.len() == 8);
    assert("tag"@.len() == 3);
}

/// The core follows from the selected inbounds: none is needed for no inbound,
/// Xray runs them when no selected inbound needs sing-box, and sing-box runs
/// them when any of them does. There is a sing-box configuration if and only if
/// sing-box is needed, so never more than one core.
pub proof fn core_follows_selection(config: Map<Seq<char>, JsonView>, api: ApiView)
    requires
        applied_view(config, api) is Ok,
    ensures
        ({
            let applied = applied_view(config, api)->Ok_0;
            let selected = selected_view(config, api.allowed_inbounds);
            &&& applied.core_kind is None <==> selected.len() == 0
            &&& applied.core_kind == Some(CoreKind::SingBox) <==> exists|i: int|
                0 <= i < selected.len() && needs_sing_box_core(#[trigger] selected[i])
            &&& applied.core_kind == Some(CoreKind::Xray) <==> selected.len() > 0 && forall|i: int|
                0 <= i < selected.len() ==> !needs_sing_box_core(#[trigger] selected[i])
            &&& applied.sing_box_value is Some <==> applied.core_kind == Some(CoreKind::SingBox)
        }),
{
}

/// A configuration is refused if and only if sing-box has to run it and one of
/// the selected inbounds has no translation.
pub proof fn refused_only_for_unsupported(config: Map<Seq<char>, JsonView>, api: ApiView)
    ensures
        ({
            let selected = selected_view(config, api.allowed_inbounds);
            applied_view(config, api) is Err <==> core_for(selected) == Some(CoreKind::SingBox)
                && exists|i: int|
                0 <= i < selected.len() && crate::sing_box::protocol_view(
                    #[trigger] selected[i],
                ) is None
        }),
{
    let selected = selected_view(config, api.allowed_inbounds);
    crate::sing_box::unsupported_inbounds_are_refused(selected, api);
}

/// A selected inbound is one of the configuration, is not the node's own, and
/// has an allowed tag where tags are given; and every such inbound is selected.
pub proof fn selection_is_by_tag(
    config: Map<Seq<char>, JsonView>,
    allowed: Seq<Seq<char>>,
    inbound: JsonView,
)
    ensures
        selected_view(config, allowed).contains(inbound) <==> inbounds_view(config).contains(
            inbound,
        ) && is_selected(inbound, allowed),
{
    let p = |inbound: JsonView| is_selected(inbound, allowed);
    let all = inbounds_view(config);
    let kept = all.filter(p);
    if kept.contains(inbound) {
        let i = choose|i: int| 0 <= i < kept.len() && kept[i] == inbound;
        all.lemma_filter_pred(p, i);
        all.lemma_filter_contains_rev(p, inbound);
    }
    if all.contains(inbound) && is_selected(inbound, allowed) {
        let i = choose|i: int| 0 <= i < all.len() && all[i] == inbound;
        all.lemma_filter_contains(p, i);
    }
}

/// The Xray API is set up for Xray configurations and for no others. With Xray,
/// the node's inbound comes before the selected inbounds, its rule before the
/// other rules, and the rules of an earlier API are gone. Without Xray, the Xray
/// configuration has no inbounds, no API and no statistics.
pub proof fn api_only_for_xray(config: Map<Seq<char>, JsonView>, api: ApiView)
    requires
        applied_view(config, api) is Ok,
    ensures
        ({
            let applied = applied_view(config, api)->Ok_0;
            let selected = selected_view(config, api.allowed_inbounds);
            let old_rules = rules_view(config);
            if applied.core_kind == Some(CoreKind::Xray) {
                &&& applied.value.get("api"@) == Some(api_member_view())
                &&& applied.value.field("api"@).str_at("tag"@) == Some("API"@)
                &&& applied.value.get("stats"@) == Some(JsonView::Object(Map::empty()))
                &&& applied.value.array_at("inbounds"@) == Some(
                    seq![api_inbound_view(api)] + selected,
                )
                &&& applied.value.field("routing"@).array_at("rules"@) == Some(
                    seq![api_rule_view(api)] + match JsonView::Object(config).field("api"@).str_at(
                        "tag"@,
                    ) {
                        Some(tag) => rules_without(old_rules, tag),
                        None => old_rules,
                    },
                )
            } else {
                &&& applied.value.get("api"@) is None
                &&& applied.value.get("stats"@) is None
                &&& applied.value.array_at("inbounds"@) == Some(Seq::<JsonView>::empty())
            }
        }),
{
    lemma_root_keys();
    lemma_api_rule(api);
    let selected = selected_view(config, api.allowed_inbounds);
    let root = JsonView::Object(config);
    if core_for(selected) == Some(CoreKind::Xray) {
        let inbounds = JsonView::Array(seq![api_inbound_view(api)] + selected);
        let placed = config.insert("inbounds"@, inbounds);
        assert(JsonView::Object(placed).field("api"@) == root.field("api"@));
        assert(JsonView::Object(placed).field("routing"@) == root.field("routing"@));
        match root.field("api"@).str_at("tag"@) {
            Some(tag) => {
                if root.field("routing"@).array_at("rules"@) is None {
                    assert(rules_view(config) =~= Seq::empty());
                    reveal(Seq::filter);
                    assert(rules_without(rules_view(config), tag) =~= Seq::empty());
                }
                assert(rules_view(without_api_rules(placed)) =~= rules_without(
                    rules_view(config),
                    tag,
                ));
            },
            None => {
                assert(rules_view(without_api_rules(placed)) =~= rules_view(config));
            },
        }
    } else if core_for(selected) is None {
        assert(selected =~= Seq::empty());
    }
}

proof fn lemma_filter_all(s: Seq<JsonView>, p: spec_fn(JsonView) -> bool)
    requires
        forall|i: int| 0 <= i < s.len() ==> p(#[trigger] s[i]),
    ensures
        s.filter(p) == s,
    decreases s.len(),
{
    reveal(Seq::filter);
    if s.len() > 0 {
        assert(forall|i: int| 0 <= i < s.len() - 1 ==> s.drop_last()[i] == s[i]);
        lemma_filter_all(s.drop_last(), p);
        assert(p(s[s.len() - 1]));
        assert(s.drop_last().push(s.last()) =~= s);
    }
}

proof fn lemma_filter_drops_first(first: JsonView, rest: Seq<JsonView>, p: spec_fn(JsonView) -> bool)
    requires
        !p(first),
        forall|i: int| 0 <= i < rest.len() ==> p(#[trigger] rest[i]),
    ensures
        (seq![first] + rest).filter(p) == rest,
{
    Seq::filter_distributes_over_add(seq![first], rest, p);
    lemma_filter_all(rest, p);
    assert(seq![first].filter(p) =~= Seq::empty()) by {
        reveal_with_fuel(Seq::filter, 2);
        assert(seq![first].drop_last() =~= Seq::empty());
    }
}

proof fn lemma_api_stays(
    config: Map<Seq<char>, JsonView>,
    routing: Map<Seq<char>, JsonView>,
    selected: Seq<JsonView>,
    rest: Seq<JsonView>,
    api: ApiView,
)
    requires
        JsonView::Object(config).get("inbounds"@) == Some(
            JsonView::Array(seq![api_inbound_view(api)] + selected),
        ),
        JsonView::Object(config).get("api"@) == Some(api_member_view()),
        JsonView::Object(config).get("stats"@) == Some(JsonView::Object(Map::empty())),
        JsonView::Object(config).get("routing"@) == Some(JsonView::Object(routing)),
        JsonView::Object(routing).get("rules"@) == Some(
            JsonView::Array(seq![api_rule_view(api)] + rest),
        ),
        rules_without(seq![api_rule_view(api)] + rest, "API"@) == rest,
    ensures
        with_api_view(config, selected, api) == config,
{
    lemma_root_keys();
    lemma_api_rule(api);
    let inbounds = JsonView::Array(seq![api_inbound_view(api)] + selected);
    assert(config.insert("inbounds"@, inbounds) =~= config);
    let root = JsonView::Object(config);
    assert(root.field("api"@) == api_member_view());
    let rules = seq![api_rule_view(api)] + rest;
    assert(root.field("routing"@).array_at("rules"@) == Some(rules));
    let kept = routing.insert("rules"@, JsonView::Array(rest));
    let stripped = without_api_rules(config);
    assert(stripped == config.insert("routing"@, JsonView::Object(kept)));
    assert(routing_view(stripped) == kept);
    assert(rules_view(stripped) == rest);
    assert(kept.insert("rules"@, JsonView::Array(rules)) =~= routing);
    assert(with_first_rule(stripped, api_rule_view(api)) =~= config);
    assert(with_api_view(config, selected, api) =~= config);
}

proof fn lemma_applies_again(
    value: JsonView,
    selected: Seq<JsonView>,
    rest: Seq<JsonView>,
    api: ApiView,
)
    requires
        value is Object,
        value.array_at("inbounds"@) == Some(seq![api_inbound_view(api)] + selected),
        value.get("api"@) == Some(api_member_view()),
        value.get("stats"@) == Some(JsonView::Object(Map::empty())),
        value.field("routing"@).array_at("rules"@) == Some(seq![api_rule_view(api)] + rest),
        core_for(selected) == Some(CoreKind::Xray),
        forall|i: int|
            0 <= i < selected.len() ==> is_selected(
                #[trigger] selected[i],
                api.allowed_inbounds,
            ),
        forall|i: int|
            0 <= i < rest.len() ==> (#[trigger] rest[i]).str_at("outboundTag"@) != Some("API"@),
    ensures
        config_view(value, api) == Ok::<XrayConfigView, ConfigErrorView>(
            XrayConfigView { value, sing_box_value: None, core_kind: Some(CoreKind::Xray) },
        ),
{
    let allowed = api.allowed_inbounds;
    let once = value->Object_0;
    let p = |inbound: JsonView| is_selected(inbound, allowed);
    let q = |rule: JsonView| rule.str_at("outboundTag"@) != Some("API"@);
    assert(!p(api_inbound_view(api))) by {
        lemma_api_inbound(api);
    }
    assert(!q(api_rule_view(api))) by {
        lemma_api_rule(api);
    }
    lemma_filter_drops_first(api_inbound_view(api), selected, p);
    lemma_filter_drops_first(api_rule_view(api), rest, q);
    assert(inbounds_view(once) == seq![api_inbound_view(api)] + selected);
    assert(selected_view(once, allowed) == selected);
    lemma_api_stays(once, value.field("routing"@)->Object_0, selected, rest, api);
}

/// Setting up the API on a configuration that already has it changes nothing:
/// what is there from the first time is replaced, not doubled. This holds where
/// no other rule leads to the API's own outbound.
pub proof fn applying_twice_is_applying_once(config: Map<Seq<char>, JsonView>, api: ApiView)
    requires
        core_for(selected_view(config, api.allowed_inbounds)) == Some(CoreKind::Xray),
        ({
            let rules = applied_view(config, api)->Ok_0.value.field("routing"@).array_at(
                "rules"@,
            )->0;
            forall|i: int|
                1 <= i < rules.len() ==> (#[trigger] rules[i]).str_at("outboundTag"@) != Some(
                    "API"@,
                )
        }),
    ensures
        config_view(applied_view(config, api)->Ok_0.value, api) == applied_view(config, api),
{
    let allowed = api.allowed_inbounds;
    let selected = selected_view(config, allowed);
    let applied = applied_view(config, api)->Ok_0;
    let rules = applied.value.field("routing"@).array_at("rules"@)->0;
    let rest = rules.skip(1);
    let p = |inbound: JsonView| is_selected(inbound, allowed);
    assert(applied_view(config, api) is Ok);
    assert(applied.value is Object);
    assert(applied.sing_box_value is None && applied.core_kind == Some(CoreKind::Xray));
    api_only_for_xray(config, api);
    assert forall|i: int| 0 <= i < selected.len() implies is_selected(
        #[trigger] selected[i],
        allowed,
    ) by {
        inbounds_view(config).lemma_filter_pred(p, i);
    }
    assert(rules =~= seq![api_rule_view(api)] + rest);
    assert forall|i: int| 0 <= i < rest.len() implies (#[trigger] rest[i]).str_at("outboundTag"@)
        != Some("API"@) by {
        assert(rest[i] == rules[i + 1]);
    }
    lemma_applies_again(applied.value, selected, rest, api);
}

proof fn lemma_api_parts_are_plain(api: ApiView)
    ensures
        is_plain(api_inbound_view(api), 5),
        is_plain(api_rule_view(api), 2),
        is_plain(api_member_view(), 2),
{
    reveal_with_fuel(is_plain, 3);
    let file = JsonView::Object(
        map![
            "certificateFile"@ => str_view(api.ssl_cert_file),
            "keyFile"@ => str_view(api.ssl_key_file),
        ],
    );
    assert(is_plain(file, 1));
    let files = JsonView::Array(seq![file]);
    assert(is_plain(files, 2));
    let tls = JsonView::Object(map!["certificates"@ => files]);
    assert(is_plain(tls, 3));
    let stream = JsonView::Object(map!["security"@ => str_view("tls"@), "tlsSettings"@ => tls]);
    assert(is_plain(stream, 4));
    let settings = JsonView::Object(map!["address"@ => str_view("127.0.0.1"@)]);
    assert(is_plain(settings, 4));
    assert(is_plain(api_inbound_view(api), 5));
}

proof fn lemma_plain_insert(
    members: Map<Seq<char>, JsonView>,
    key: Seq<char>,
    value: JsonView,
    depth: nat,
)
    requires
        is_plain(JsonView::Object(members), depth),
        is_plain(value, (depth - 1) as nat),
    ensures
        is_plain(JsonView::Object(members.insert(key, value)), depth),
{
    lemma_plain_members(members, depth);
    assert forall|k: Seq<char>| members.insert(key, value).dom().contains(k) implies is_plain(
        #[trigger] members.insert(key, value)[k],
        (depth - 1) as nat,
    ) by {
        if k != key {
            assert(is_plain(members[k], (depth - 1) as nat));
        }
    }
}

proof fn lemma_plain_remove(members: Map<Seq<char>, JsonView>, key: Seq<char>, depth: nat)
    requires
        is_plain(JsonView::Object(members), depth),
    ensures
        is_plain(JsonView::Object(members.remove(key)), depth),
{
    lemma_plain_members(members, depth);
    assert forall|k: Seq<char>| members.remove(key).dom().contains(k) implies is_plain(
        #[trigger] members.remove(key)[k],
        (depth - 1) as nat,
    ) by {
        assert(is_plain(members[k], (depth - 1) as nat));
    }
}

proof fn lemma_plain_filter(items: Seq<JsonView>, p: spec_fn(JsonView) -> bool, depth: nat)
    requires
        is_plain(JsonView::Array(items), depth),
    ensures
        is_plain(JsonView::Array(items.filter(p)), depth),
{
    lemma_plain_items(items, depth);
    let kept = items.filter(p);
    assert forall|i: int| 0 <= i < kept.len() implies is_plain(
        #[trigger] kept[i],
        (depth - 1) as nat,
    ) by {
        assert(kept.contains(kept[i]));
        items.lemma_filter_contains_rev(p, kept[i]);
        let j = choose|j: int| 0 <= j < items.len() && items[j] == kept[i];
        assert(is_plain(items[j], (depth - 1) as nat));
    }
}

proof fn lemma_plain_first(first: JsonView, items: Seq<JsonView>, depth: nat)
    requires
        is_plain(JsonView::Array(items), depth),
        is_plain(first, (depth - 1) as nat),
    ensures
        is_plain(JsonView::Array(seq![first] + items), depth),
{
    lemma_plain_items(items, depth);
    let all = seq![first] + items;
    assert forall|i: int| 0 <= i < all.len() implies is_plain(
        #[trigger] all[i],
        (depth - 1) as nat,
    ) by {
        if i > 0 {
            assert(is_plain(items[i - 1], (depth - 1) as nat));
        }
    }
}

proof fn lemma_plain_without_api_rules(config: Map<Seq<char>, JsonView>, depth: nat)
    requires
        is_plain(JsonView::Object(config), depth),
        depth >= 3,
    ensures
        is_plain(JsonView::Object(without_api_rules(config)), depth),
{
    let root = JsonView::Object(config);
    match (
        root.field("api"@).str_at("tag"@),
        root.field("routing"@),
        root.field("routing"@).array_at("rules"@),
    ) {
        (Some(tag), JsonView::Object(routing), Some(rules)) => {
            assert(is_plain(config["routing"@], (depth - 1) as nat));
            assert(is_plain(routing["rules"@], (depth - 2) as nat));
            lemma_plain_filter(
                rules,
                |rule: JsonView| rule.str_at("outboundTag"@) != Some(tag),
                (depth - 2) as nat,
            );
            lemma_plain_insert(
                routing,
                "rules"@,
                JsonView::Array(rules_without(rules, tag)),
                (depth - 1) as nat,
            );
            lemma_plain_insert(
                config,
                "routing"@,
                JsonView::Object(
                    routing.insert("rules"@, JsonView::Array(rules_without(rules, tag))),
                ),
                depth,
            );
        },
        _ => {},
    }
}

proof fn lemma_plain_with_first_rule(
    config: Map<Seq<char>, JsonView>,
    rule: JsonView,
    depth: nat,
)
    requires
        is_plain(JsonView::Object(config), depth),
        depth >= 3,
        is_plain(rule, (depth - 3) as nat),
    ensures
        is_plain(JsonView::Object(with_first_rule(config, rule)), depth),
{
    let routing = routing_view(config);
    let rules = rules_view(config);
    let none = JsonView::Array(Seq::<JsonView>::empty());
    assert(is_plain(none, (depth - 2) as nat));
    assert(is_plain(JsonView::Object(routing), (depth - 1) as nat)) by {
        match JsonView::Object(config).field("routing"@) {
            JsonView::Object(r) => {
                assert(is_plain(config["routing"@], (depth - 1) as nat));
            },
            _ => {
                assert forall|key: Seq<char>| routing.dom().contains(key) implies is_plain(
                    #[trigger] routing[key],
                    (depth - 2) as nat,
                ) by {
                    assert(routing[key] == none);
                }
            },
        }
    }
    assert(is_plain(JsonView::Array(rules), (depth - 2) as nat)) by {
        if JsonView::Object(routing).array_at("rules"@) is Some {
            assert(is_plain(routing["rules"@], (depth - 2) as nat));
        }
    }
    lemma_plain_first(rule, rules, (depth - 2) as nat);
    let all = JsonView::Array(seq![rule] + rules);
    lemma_plain_insert(routing, "rules"@, all, (depth - 1) as nat);
    lemma_plain_insert(
        config,
        "routing"@,
        JsonView::Object(routing.insert("rules"@, all)),
        depth,
    );
}

/// A configuration without fractions, nested to a depth that leaves room for the
/// Xray API, stays so when the node's settings are applied to it.
pub proof fn plain_config_stays_plain(value: JsonView, api: ApiView, depth: nat)
    requires
        is_plain(value, depth),
        depth >= 7,
        config_view(value, api) is Ok,
    ensures
        is_plain(config_view(value, api)->Ok_0.value, depth),
{
    let config = value->Object_0;
    let selected = selected_view(config, api.allowed_inbounds);
    let p = |inbound: JsonView| is_selected(inbound, api.allowed_inbounds);
    assert(is_plain(JsonView::Array(inbounds_view(config)), (depth - 1) as nat)) by {
        if value.array_at("inbounds"@) is Some {
            assert(is_plain(config["inbounds"@], (depth - 1) as nat));
        }
    }
    lemma_plain_filter(inbounds_view(config), p, (depth - 1) as nat);
    let none = Seq::<JsonView>::empty();
    assert(is_plain(JsonView::Array(none), (depth - 1) as nat));
    match core_for(selected) {
        Some(CoreKind::Xray) => {
            lemma_api_parts_are_plain(api);
            let first = api_inbound_view(api);
            lemma_plain_deeper(first, 5, (depth - 2) as nat);
            lemma_plain_deeper(api_rule_view(api), 2, (depth - 3) as nat);
            lemma_plain_deeper(api_member_view(), 2, (depth - 1) as nat);
            lemma_plain_first(first, selected, (depth - 1) as nat);
            let inbounds = JsonView::Array(seq![first] + selected);
            let placed = config.insert("inbounds"@, inbounds);
            lemma_plain_insert(config, "inbounds"@, inbounds, depth);
            lemma_plain_without_api_rules(placed, depth);
            let routed = with_first_rule(without_api_rules(placed), api_rule_view(api));
            lemma_plain_with_first_rule(without_api_rules(placed), api_rule_view(api), depth);
            lemma_plain_insert(routed, "api"@, api_member_view(), depth);
            let stats = JsonView::Object(Map::<Seq<char>, JsonView>::empty());
            assert(is_plain(stats, (depth - 1) as nat));
            lemma_plain_insert(
                routed.insert("api"@, api_member_view()),
                "stats"@,
                stats,
                depth,
            );
        },
        other => {
            let inbounds = if other is None {
                selected
            } else {
                none
            };
            let placed = config.insert("inbounds"@, JsonView::Array(inbounds));
            lemma_plain_insert(config, "inbounds"@, JsonView::Array(inbounds), depth);
            lemma_plain_without_api_rules(placed, depth);
            let stripped = without_api_rules(placed);
            lemma_plain_remove(stripped, "api"@, depth);
            lemma_plain_remove(stripped.remove("api"@), "stats"@, depth);
        },
    }
}

/// Whether no routing rule leads to the outbound of the API that the node adds,
/// but for rules of an earlier such API, which are replaced.
pub open spec fn leaves_api_outbound(config: Map<Seq<char>, JsonView>) -> bool {
    ||| JsonView::Object(config).field("api"@).str_at("tag"@) == Some("API"@)
    ||| forall|i: int|
        0 <= i < rules_view(config).len() ==> (#[trigger] rules_view(config)[i]).str_at(
            "outboundTag"@,
        ) != Some("API"@)
}

proof fn lemma_no_other_api_rule(config: Map<Seq<char>, JsonView>, api: ApiView)
    requires
        core_for(selected_view(config, api.allowed_inbounds)) == Some(CoreKind::Xray),
        leaves_api_outbound(config),
    ensures
        ({
            let rules = applied_view(config, api)->Ok_0.value.field("routing"@).array_at(
                "rules"@,
            )->0;
            forall|i: int|
                1 <= i < rules.len() ==> (#[trigger] rules[i]).str_at("outboundTag"@) != Some(
                    "API"@,
                )
        }),
{
    assert(applied_view(config, api) is Ok);
    api_only_for_xray(config, api);
    let rules = applied_view(config, api)->Ok_0.value.field("routing"@).array_at("rules"@)->0;
    let before = rules_view(config);
    let tag = JsonView::Object(config).field("api"@).str_at("tag"@);
    assert forall|i: int| 1 <= i < rules.len() implies (#[trigger] rules[i]).str_at("outboundTag"@)
        != Some("API"@) by {
        match tag {
            Some(t) => {
                let p = |rule: JsonView| rule.str_at("outboundTag"@) != Some(t);
                let kept = before.filter(p);
                assert(rules[i] == kept[i - 1]);
                before.lemma_filter_pred(p, i - 1);
                assert(kept.contains(kept[i - 1]));
                before.lemma_filter_contains_rev(p, kept[i - 1]);
                let j = choose|j: int| 0 <= j < before.len() && before[j] == kept[i - 1];
                assert(before[j] == rules[i]);
            },
            None => {
                assert(rules[i] == before[i - 1]);
            },
        }
    }
}

/// Feeding the text of an Xray configuration back to the node gives the same
/// configuration: no second API inbound, API rule, `api` or `stats` is added.
///
/// `raw` is a text out of which the configuration was made, and `text` is the text
/// of the configuration. This holds for every text without fractions in which no
/// rule leads to the outbound of the API, but for rules of an earlier such API.
pub proof fn fed_back_config_is_the_same(raw: Seq<char>, text: Seq<char>, api: ApiView)
    requires
        reads_within_depth(raw),
        controller_view(parsed_json(raw), api) is Ok,
        controller_view(parsed_json(raw), api)->Ok_0.core_kind == Some(CoreKind::Xray),
        without_fractions(parsed_json(raw)->Ok_0),
        leaves_api_outbound(parsed_json(raw)->Ok_0->Object_0),
        is_text_of(text, controller_view(parsed_json(raw), api)->Ok_0.value),
    ensures
        controller_view(parsed_json(text), api) == controller_view(parsed_json(raw), api),
{
    let value = parsed_json(raw)->Ok_0;
    lemma_plain(value, READ_DEPTH as nat);
    plain_config_stays_plain(value, api, READ_DEPTH as nat);
    lemma_no_other_api_rule(value->Object_0, api);
    applying_twice_is_applying_once(value->Object_0, api);
}

/// The node's own inbound is never reported as a configured port.
pub proof fn api_port_is_not_reported(config: XrayConfigView, i: int)
    requires
        0 <= i < configured_ports(config).len(),
    ensures
        configured_ports(config)[i].tag != "API_INBOUND"@,
{
    let value = match config.sing_box_value {
        Some(value) => value,
        None => config.value,
    };
    let inbounds = value.array_at("inbounds"@)->0;
    let f = |inbound: JsonView| port_view(inbound);
    let port = ports_of(value)[i];
    assert(inbounds.filter_map(f).contains(port));
    inbounds.lemma_filter_map_contains(f, port);
}

proof fn lemma_filter_map_skips_first(
    first: JsonView,
    rest: Seq<JsonView>,
    f: spec_fn(JsonView) -> Option<PortView>,
)
    requires
        f(first) is None,
    ensures
        (seq![first] + rest).filter_map(f) == rest.filter_map(f),
    decreases rest.len(),
{
    let all = seq![first] + rest;
    if rest.len() == 0 {
        assert(all.drop_last() =~= Seq::empty());
        reveal_with_fuel(Seq::filter_map, 2);
    } else {
        assert(all.drop_last() =~= seq![first] + rest.drop_last());
        lemma_filter_map_skips_first(first, rest.drop_last(), f);
    }
}

/// The ports of an Xray configuration are those of the selected inbounds.
pub proof fn xray_ports_are_the_selected(config: Map<Seq<char>, JsonView>, api: ApiView)
    requires
        core_for(selected_view(config, api.allowed_inbounds)) == Some(CoreKind::Xray),
    ensures
        configured_ports(applied_view(config, api)->Ok_0) == selected_view(
            config,
            api.allowed_inbounds,
        ).filter_map(|inbound: JsonView| port_view(inbound)),
{
    api_only_for_xray(config, api);
    lemma_api_inbound(api);
    let selected = selected_view(config, api.allowed_inbounds);
    lemma_filter_map_skips_first(
        api_inbound_view(api),
        selected,
        |inbound: JsonView| port_view(inbound),
    );
}

} // verus!
