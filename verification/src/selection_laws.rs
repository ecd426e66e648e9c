//! Which inbounds of a configuration run, on which core, and what the node adds.
use vstd::prelude::*;
use vstd::string::*;
use crate::json::{JsonView, NumberView};
use crate::sing_box::{
    every_inbound_is_translated, sing_box_view, translated,
    unsupported_inbounds_are_refused,
};
use crate::xray_config::{
    ApiView, ConfigErrorView, CoreKind, PortView, XrayConfigView, api_only_for_xray, applied_view,
    config_error_text, config_view, configured_ports, controller_view, core_follows_selection,
    core_for, lemma_root_keys, network_view, port_view, rules_view, selected_view,
    selection_is_by_tag, with_first_rule, without_api_rules,
};

verus! {

/// An inbound is taken: it is not the API inbound of the node, and where tags are
/// given its tag is one of them.
pub open spec fn is_taken(inbound: JsonView, allowed: Seq<Seq<char>>) -> bool {
    &&& !(inbound.get("protocol"@) == Some(JsonView::Str("dokodemo-door"@)) && inbound.get("tag"@)
        == Some(JsonView::Str("API_INBOUND"@)))
    &&& allowed.len() > 0 ==> exists|k: int|
        0 <= k < allowed.len() && inbound.get("tag"@) == Some(JsonView::Str(#[trigger] allowed[k]))
}

/// An inbound runs on sing-box only: AnyTLS, and Hysteria of version 2 over the
/// `hysteria` network.
pub open spec fn is_sing_box_only(inbound: JsonView) -> bool {
    ||| inbound.get("protocol"@) == Some(JsonView::Str("anytls"@))
    ||| inbound.get("protocol"@) == Some(JsonView::Str("hysteria"@)) && inbound.field(
        "settings"@,
    ).get("version"@) == Some(JsonView::Number(NumberView::Integer(2))) && inbound.field(
        "streamSettings"@,
    ).get("network"@) == Some(JsonView::Str("hysteria"@))
}

/// The inbounds that a configuration lists.
pub open spec fn listed(config: Map<Seq<char>, JsonView>) -> Seq<JsonView> {
    if config.dom().contains("inbounds"@) && config["inbounds"@] is Array {
        config["inbounds"@]->Array_0
    } else {
        Seq::empty()
    }
}

/// How many of the inbounds before a position are taken.
pub open spec fn taken_before(list: Seq<JsonView>, allowed: Seq<Seq<char>>, at: int) -> nat {
    list.take(at).filter(|inbound: JsonView| is_taken(inbound, allowed)).len()
}

proof fn lemma_filter_place(items: Seq<JsonView>, p: spec_fn(JsonView) -> bool, at: int)
    requires
        0 <= at < items.len(),
        p(items[at]),
    ensures
        items.take(at).filter(p).len() < items.filter(p).len(),
        items.filter(p)[items.take(at).filter(p).len() as int] == items[at],
    decreases items.len(),
{
    reveal(Seq::filter);
    let front = items.drop_last();
    if at == items.len() - 1 {
        assert(items.take(at) =~= front);
        assert(items.last() == items[at]);
    } else {
        assert(front[at] == items[at]);
        assert(front.take(at) =~= items.take(at));
        lemma_filter_place(front, p, at);
    }
}

proof fn lemma_filter_same(
    items: Seq<JsonView>,
    p: spec_fn(JsonView) -> bool,
    q: spec_fn(JsonView) -> bool,
)
    requires
        forall|x: JsonView| #[trigger] p(x) == q(x),
    ensures
        items.filter(p) == items.filter(q),
    decreases items.len(),
{
    reveal(Seq::filter);
    if items.len() > 0 {
        lemma_filter_same(items.drop_last(), p, q);
        assert(p(items.last()) == q(items.last()));
    }
}

proof fn lemma_taken(config: Map<Seq<char>, JsonView>, allowed: Seq<Seq<char>>)
    ensures
        selected_view(config, allowed) == listed(config).filter(
            |inbound: JsonView| is_taken(inbound, allowed),
        ),
        forall|x: JsonView|
            #[trigger] crate::xray_config::is_selected(x, allowed) == is_taken(x, allowed),
        forall|x: JsonView|
            #[trigger] crate::sing_box::needs_sing_box_core(x) == is_sing_box_only(x),
{
    assert forall|x: JsonView|
        #[trigger] crate::xray_config::is_selected(x, allowed) == is_taken(x, allowed) by {
        match x.str_at("tag"@) {
            Some(tag) => {
                if allowed.contains(tag) {
                    let k = choose|k: int| 0 <= k < allowed.len() && allowed[k] == tag;
                    assert(x.get("tag"@) == Some(JsonView::Str(allowed[k])));
                }
            },
            None => {},
        }
    }
    lemma_filter_same(
        listed(config),
        |inbound: JsonView| crate::xray_config::is_selected(inbound, allowed),
        |inbound: JsonView| is_taken(inbound, allowed),
    );
}

/// An inbound that a configuration lists is among the selected ones if and only
/// if it is taken: it is not the node's own API inbound, and where tags are given
/// its tag is a text and one of them, whichever. Selected inbounds are listed
/// ones.
pub proof fn taken_inbounds_are_selected(
    config: Map<Seq<char>, JsonView>,
    allowed: Seq<Seq<char>>,
    inbound: JsonView,
)
    ensures
        selected_view(config, allowed).contains(inbound) <==> listed(config).contains(inbound)
            && is_taken(inbound, allowed),
        is_taken(inbound, allowed) <==> {
            &&& inbound.str_at("protocol"@) != Some("dokodemo-door"@) || inbound.str_at("tag"@)
                != Some("API_INBOUND"@)
            &&& allowed.len() == 0 || exists|k: int|
                0 <= k < allowed.len() && inbound.str_at("tag"@) == Some(#[trigger] allowed[k])
        },
{
    lemma_taken(config, allowed);
    selection_is_by_tag(config, allowed, inbound);
    if allowed.len() > 0 {
        if exists|k: int|
            0 <= k < allowed.len() && inbound.str_at("tag"@) == Some(#[trigger] allowed[k]) {
            let k = choose|k: int|
                0 <= k < allowed.len() && inbound.str_at("tag"@) == Some(#[trigger] allowed[k]);
            assert(inbound.get("tag"@) == Some(JsonView::Str(allowed[k])));
        }
        if exists|k: int|
            0 <= k < allowed.len() && inbound.get("tag"@) == Some(
                JsonView::Str(#[trigger] allowed[k]),
            ) {
            let k = choose|k: int|
                0 <= k < allowed.len() && inbound.get("tag"@) == Some(
                    JsonView::Str(#[trigger] allowed[k]),
                );
            assert(inbound.str_at("tag"@) == Some(allowed[k]));
        }
    }
}

/// The selected inbounds stand in the order of the configuration, each as often
/// as it is listed: a taken inbound stands behind the taken ones before it, and
/// there are as many selected inbounds as taken ones.
pub proof fn selection_keeps_the_order(
    config: Map<Seq<char>, JsonView>,
    allowed: Seq<Seq<char>>,
    at: int,
)
    requires
        0 <= at < listed(config).len(),
        is_taken(listed(config)[at], allowed),
    ensures
        selected_view(config, allowed).len() == taken_before(
            listed(config),
            allowed,
            listed(config).len() as int,
        ),
        taken_before(listed(config), allowed, at) < selected_view(config, allowed).len(),
        selected_view(config, allowed)[taken_before(listed(config), allowed, at) as int] == listed(
            config,
        )[at],
{
    lemma_taken(config, allowed);
    let list = listed(config);
    lemma_filter_place(list, |inbound: JsonView| is_taken(inbound, allowed), at);
    assert(list.take(list.len() as int) =~= list);
}

/// A configuration of which no inbound is taken needs no core. One of which an
/// inbound is taken that runs on sing-box only is run by sing-box, or refused.
/// Any other is accepted and run by Xray.
pub proof fn core_is_chosen_by_protocol(config: Map<Seq<char>, JsonView>, api: ApiView)
    ensures
        ({
            let list = listed(config);
            let any = exists|i: int|
                0 <= i < list.len() && is_taken(#[trigger] list[i], api.allowed_inbounds);
            let only = exists|i: int|
                0 <= i < list.len() && is_taken(#[trigger] list[i], api.allowed_inbounds)
                    && is_sing_box_only(list[i]);
            match applied_view(config, api) {
                Ok(applied) => {
                    &&& applied.core_kind == if only {
                        Some(CoreKind::SingBox)
                    } else if any {
                        Some(CoreKind::Xray)
                    } else {
                        None
                    }
                    &&& applied.sing_box_value is Some <==> only
                },
                Err(_) => only,
            }
        }),
{
    let list = listed(config);
    let selected = selected_view(config, api.allowed_inbounds);
    lemma_taken(config, api.allowed_inbounds);
    assert forall|i: int|
        0 <= i < list.len() && is_taken(#[trigger] list[i], api.allowed_inbounds) implies exists|
        j: int,
    | 0 <= j < selected.len() && #[trigger] selected[j] == list[i] by {
        lemma_filter_place(list, |inbound: JsonView| is_taken(inbound, api.allowed_inbounds), i);
    }
    assert forall|j: int| 0 <= j < selected.len() implies exists|i: int|
        0 <= i < list.len() && is_taken(#[trigger] list[i], api.allowed_inbounds) && list[i]
            == #[trigger] selected[j] by {
        taken_inbounds_are_selected(config, api.allowed_inbounds, selected[j]);
        assert(selected.contains(selected[j]));
        let i = choose|i: int| 0 <= i < list.len() && list[i] == selected[j];
        assert(is_taken(list[i], api.allowed_inbounds));
    }
    assert(forall|j: int|
        0 <= j < selected.len() ==> crate::sing_box::needs_sing_box_core(#[trigger] selected[j])
            == is_sing_box_only(selected[j]));
}

/// An inbound runs on sing-box only if its protocol is `anytls`, or `hysteria`
/// with version 2 over the `hysteria` network. So a configuration that takes an
/// inbound, and none of these two protocols, is run by Xray.
pub proof fn other_protocols_run_on_xray(config: Map<Seq<char>, JsonView>, api: ApiView, at: int)
    requires
        0 <= at < listed(config).len(),
        is_taken(listed(config)[at], api.allowed_inbounds),
        forall|i: int|
            0 <= i < listed(config).len() && is_taken(
                #[trigger] listed(config)[i],
                api.allowed_inbounds,
            ) ==> listed(config)[i].str_at("protocol"@) != Some("anytls"@) && listed(
                config,
            )[i].str_at("protocol"@) != Some("hysteria"@),
    ensures
        applied_view(config, api) is Ok,
        applied_view(config, api)->Ok_0.core_kind == Some(CoreKind::Xray),
        applied_view(config, api)->Ok_0.sing_box_value is None,
{
    core_is_chosen_by_protocol(config, api);
    let list = listed(config);
    assert forall|i: int|
        0 <= i < list.len() && is_taken(
            #[trigger] list[i],
            api.allowed_inbounds,
        ) implies !is_sing_box_only(list[i]) by {
        assert(listed(config)[i] == list[i]);
    }
}

proof fn lemma_api_inbound_keys()
    ensures
        "listen"@.len() == 6,
        "port"@.len() == 4,
        "protocol"@.len() == 8,
        "settings"@.len() == 8,
        "streamSettings"@.len() == 14,
        "tag"@.len() == 3,
        "protocol"@ != "settings"@,
        "security"@.len() == 8,
        "tlsSettings"@.len() == 11,
        "certificateFile"@.len() == 15,
        "keyFile"@.len() == 7,
{
    reveal_strlit("listen");
    reveal_strlit("port");
    reveal_strlit("protocol");
    reveal_strlit("settings");
    reveal_strlit("streamSettings");
    reveal_strlit("tag");
    reveal_strlit("security");
    reveal_strlit("tlsSettings");
    reveal_strlit("certificateFile");
    reveal_strlit("keyFile");
    assert("protocol"@[0] != "settings"@[0]);
}

/// The first inbound of an Xray configuration is the API inbound of the node: at
/// the host and port of the settings, with the tag `API_INBOUND`, over TLS with
/// exactly one certificate, that of the settings' certificate file and key file.
/// The selected inbounds follow it.
pub proof fn api_inbound_comes_first(config: Map<Seq<char>, JsonView>, api: ApiView)
    requires
        applied_view(config, api) is Ok,
        applied_view(config, api)->Ok_0.core_kind == Some(CoreKind::Xray),
    ensures
        ({
            let inbounds = applied_view(config, api)->Ok_0.value.array_at("inbounds"@)->0;
            let stream = inbounds[0].field("streamSettings"@);
            let certificates = stream.field("tlsSettings"@).array_at("certificates"@)->0;
            &&& applied_view(config, api)->Ok_0.value.array_at("inbounds"@) is Some
            &&& inbounds.len() > 0
            &&& inbounds.skip(1) == selected_view(config, api.allowed_inbounds)
            &&& inbounds[0].str_at("listen"@) == Some(api.host)
            &&& inbounds[0].field("port"@).as_u64() == Some(api.port as u64)
            &&& inbounds[0].str_at("protocol"@) == Some("dokodemo-door"@)
            &&& inbounds[0].str_at("tag"@) == Some("API_INBOUND"@)
            &&& inbounds[0].field("settings"@).str_at("address"@) == Some("127.0.0.1"@)
            &&& stream.str_at("security"@) == Some("tls"@)
            &&& stream.field("tlsSettings"@).array_at("certificates"@) is Some
            &&& certificates.len() == 1
            &&& certificates[0].str_at("certificateFile"@) == Some(api.ssl_cert_file)
            &&& certificates[0].str_at("keyFile"@) == Some(api.ssl_key_file)
        }),
{
    api_only_for_xray(config, api);
    lemma_api_inbound_keys();
    let inbounds = applied_view(config, api)->Ok_0.value.array_at("inbounds"@)->0;
    assert(inbounds.skip(1) =~= selected_view(config, api.allowed_inbounds));
}

proof fn lemma_rule_keys()
    ensures
        "inboundTag"@.len() == 10,
        "source"@.len() == 6,
        "outboundTag"@.len() == 11,
        "type"@.len() == 4,
        "services"@.len() == 8,
        "tag"@.len() == 3,
{
    reveal_strlit("inboundTag");
    reveal_strlit("source");
    reveal_strlit("outboundTag");
    reveal_strlit("type");
    reveal_strlit("services");
    reveal_strlit("tag");
}

/// The first routing rule of an Xray configuration leads what comes in at the API
/// inbound from the node itself or from the controller to the outbound `API`. The
/// API offers the handler, statistics and logger services.
pub proof fn api_is_routed_for_node_and_controller(
    config: Map<Seq<char>, JsonView>,
    api: ApiView,
    source: Seq<char>,
)
    requires
        applied_view(config, api) is Ok,
        applied_view(config, api)->Ok_0.core_kind == Some(CoreKind::Xray),
    ensures
        ({
            let value = applied_view(config, api)->Ok_0.value;
            let rules = value.field("routing"@).array_at("rules"@)->0;
            let services = value.field("api"@).array_at("services"@)->0;
            &&& value.field("routing"@).array_at("rules"@) is Some
            &&& rules.len() > 0
            &&& rules[0].array_at("inboundTag"@) == Some(seq![JsonView::Str("API_INBOUND"@)])
            &&& rules[0].array_at("source"@) is Some
            &&& rules[0].array_at("source"@)->0.contains(JsonView::Str(source)) <==> source
                == "127.0.0.1"@ || source == api.peer_ip
            &&& rules[0].str_at("outboundTag"@) == Some("API"@)
            &&& rules[0].str_at("type"@) == Some("field"@)
            &&& value.field("api"@).str_at("tag"@) == Some("API"@)
            &&& value.field("api"@).array_at("services"@) is Some
            &&& services.len() == 3
            &&& services.contains(JsonView::Str("HandlerService"@))
            &&& services.contains(JsonView::Str("StatsService"@))
            &&& services.contains(JsonView::Str("LoggerService"@))
            &&& value.get("stats"@) == Some(JsonView::Object(Map::empty()))
        }),
{
    api_only_for_xray(config, api);
    lemma_rule_keys();
    let value = applied_view(config, api)->Ok_0.value;
    let services = value.field("api"@).array_at("services"@)->0;
    assert(services[0] == JsonView::Str("HandlerService"@));
    assert(services[1] == JsonView::Str("StatsService"@));
    assert(services[2] == JsonView::Str("LoggerService"@));
    let rules = value.field("routing"@).array_at("rules"@)->0;
    let sources = rules[0].array_at("source"@)->0;
    assert(sources[0] == JsonView::Str("127.0.0.1"@));
    assert(sources[1] == JsonView::Str(api.peer_ip));
}

/// The routing rules that a configuration lists.
pub open spec fn listed_rules(config: Map<Seq<char>, JsonView>) -> Seq<JsonView> {
    match JsonView::Object(config).field("routing"@).array_at("rules"@) {
        Some(rules) => rules,
        None => Seq::empty(),
    }
}

/// A rule stays: the configuration has no API of its own, or the rule does not
/// lead to the outbound of that API.
pub open spec fn rule_stays(config: Map<Seq<char>, JsonView>, rule: JsonView) -> bool {
    match JsonView::Object(config).field("api"@).str_at("tag"@) {
        Some(tag) => rule.str_at("outboundTag"@) != Some(tag),
        None => true,
    }
}

/// The routing rules of a configuration stay behind the rule of the node's API,
/// in their order, but for those that lead to the outbound of an API that the
/// configuration had.
pub proof fn other_rules_stay_in_order(config: Map<Seq<char>, JsonView>, api: ApiView, at: int)
    requires
        applied_view(config, api) is Ok,
        applied_view(config, api)->Ok_0.core_kind == Some(CoreKind::Xray),
        0 <= at < listed_rules(config).len(),
    ensures
        ({
            let list = listed_rules(config);
            let stay = |rule: JsonView| rule_stays(config, rule);
            let rules = applied_view(config, api)->Ok_0.value.field("routing"@).array_at(
                "rules"@,
            )->0;
            let place = list.take(at).filter(stay).len() as int;
            &&& rules.len() == 1 + list.filter(stay).len()
            &&& rule_stays(config, list[at]) ==> 1 + place < rules.len() && rules[1 + place]
                == list[at]
        }),
{
    api_only_for_xray(config, api);
    let list = listed_rules(config);
    let stay = |rule: JsonView| rule_stays(config, rule);
    assert(rules_view(config) == list);
    match JsonView::Object(config).field("api"@).str_at("tag"@) {
        Some(tag) => {
            lemma_filter_same(
                list,
                stay,
                |rule: JsonView| rule.str_at("outboundTag"@) != Some(tag),
            );
        },
        None => {
            lemma_filter_every(list, stay);
        },
    }
    if rule_stays(config, list[at]) {
        lemma_filter_place(list, stay, at);
    }
}

proof fn lemma_filter_every(items: Seq<JsonView>, p: spec_fn(JsonView) -> bool)
    requires
        forall|x: JsonView| #[trigger] p(x),
    ensures
        items.filter(p) == items,
    decreases items.len(),
{
    reveal(Seq::filter);
    if items.len() > 0 {
        lemma_filter_every(items.drop_last(), p);
        assert(p(items.last()));
        assert(items.drop_last().push(items.last()) =~= items);
    }
}

/// Everything else in a configuration stays: its members other than the inbounds,
/// the API, the statistics and the routing, and within the routing all but the
/// rules.
pub proof fn other_members_stay(
    config: Map<Seq<char>, JsonView>,
    api: ApiView,
    key: Seq<char>,
)
    requires
        applied_view(config, api) is Ok,
    ensures
        ({
            let before = JsonView::Object(config);
            let after = applied_view(config, api)->Ok_0.value;
            &&& after is Object
            &&& key != "inbounds"@ && key != "api"@ && key != "stats"@ && key != "routing"@
                ==> after.get(key) == before.get(key)
            &&& key != "rules"@ ==> after.field("routing"@).get(key) == before.field(
                "routing"@,
            ).get(key)
            &&& applied_view(config, api)->Ok_0.core_kind != Some(CoreKind::Xray)
                && before.field("api"@).str_at("tag"@) is None ==> after.get("routing"@)
                == before.get("routing"@)
        }),
{
    lemma_root_keys();
    let selected = selected_view(config, api.allowed_inbounds);
    core_follows_selection(config, api);
}

/// A configuration that runs on no core or on sing-box has no inbounds, API and
/// statistics for Xray, and none of the rules that lead to the outbound of an API
/// that it had.
pub proof fn without_xray_no_api_is_left(config: Map<Seq<char>, JsonView>, api: ApiView, at: int)
    requires
        applied_view(config, api) is Ok,
        applied_view(config, api)->Ok_0.core_kind != Some(CoreKind::Xray),
    ensures
        ({
            let after = applied_view(config, api)->Ok_0.value;
            let list = listed_rules(config);
            let stay = |rule: JsonView| rule_stays(config, rule);
            let rules = after.field("routing"@).array_at("rules"@);
            let place = list.take(at).filter(stay).len() as int;
            &&& after.get("inbounds"@) == Some(JsonView::Array(Seq::empty()))
            &&& after.get("api"@) is None
            &&& after.get("stats"@) is None
            &&& 0 <= at < list.len() && rule_stays(config, list[at]) ==> {
                &&& rules is Some
                &&& rules->0.len() == list.filter(stay).len()
                &&& place < rules->0.len()
                &&& rules->0[place] == list[at]
            }
        }),
{
    lemma_root_keys();
    api_only_for_xray(config, api);
    let list = listed_rules(config);
    let stay = |rule: JsonView| rule_stays(config, rule);
    match JsonView::Object(config).field("api"@).str_at("tag"@) {
        Some(tag) => {
            lemma_filter_same(
                list,
                stay,
                |rule: JsonView| rule.str_at("outboundTag"@) != Some(tag),
            );
        },
        None => {
            lemma_filter_every(list, stay);
        },
    }
    if 0 <= at < list.len() && rule_stays(config, list[at]) {
        lemma_filter_place(list, stay, at);
    }
}

/// A configuration for sing-box holds the translations of the selected inbounds,
/// in order, and nothing else but fixed members: it logs warnings, and all
/// traffic leaves by the outbound `DIRECT`.
pub proof fn sing_box_config_holds_the_selected(
    config: Map<Seq<char>, JsonView>,
    api: ApiView,
    at: int,
)
    requires
        applied_view(config, api) is Ok,
        applied_view(config, api)->Ok_0.sing_box_value is Some,
    ensures
        ({
            let value = applied_view(config, api)->Ok_0.sing_box_value->0;
            let selected = selected_view(config, api.allowed_inbounds);
            let outbounds = value.array_at("outbounds"@)->0;
            &&& value.array_at("inbounds"@) is Some
            &&& value.array_at("inbounds"@)->0.len() == selected.len()
            &&& 0 <= at < selected.len() ==> translated(selected[at], api) == Some(
                value.array_at("inbounds"@)->0[at],
            )
            &&& value.field("log"@).str_at("level"@) == Some("warn"@)
            &&& value.field("route"@).str_at("final"@) == Some("DIRECT"@)
            &&& value.array_at("outbounds"@) is Some
            &&& outbounds.len() == 2
            &&& outbounds[0].str_at("type"@) == Some("direct"@)
            &&& outbounds[0].str_at("tag"@) == Some("DIRECT"@)
            &&& outbounds[1].str_at("type"@) == Some("block"@)
            &&& outbounds[1].str_at("tag"@) == Some("BLOCK"@)
        }),
{
    let selected = selected_view(config, api.allowed_inbounds);
    reveal_strlit("log");
    reveal_strlit("inbounds");
    reveal_strlit("outbounds");
    reveal_strlit("route");
    reveal_strlit("type");
    reveal_strlit("tag");
    assert("log"@.len() == 3);
    assert("inbounds"@.len() == 8);
    assert("outbounds"@.len() == 9);
    assert("route"@.len() == 5);
    assert("type"@.len() == 4);
    assert("tag"@.len() == 3);
    every_inbound_is_translated(selected, api);
}

/// A configuration that takes an inbound which runs on sing-box only, and also one
/// that cannot be translated, is refused. The first of the latter is named by its
/// tag, or as untagged.
pub proof fn first_untranslatable_is_named(config: Map<Seq<char>, JsonView>, api: ApiView, at: int)
    requires
        ({
            let selected = selected_view(config, api.allowed_inbounds);
            &&& 0 <= at < selected.len()
            &&& translated(selected[at], api) is None
            &&& forall|i: int|
                0 <= i < at ==> translated(#[trigger] selected[i], api) is Some
            &&& exists|i: int| 0 <= i < selected.len() && is_sing_box_only(#[trigger] selected[i])
        }),
    ensures
        applied_view(config, api) == Err::<XrayConfigView, ConfigErrorView>(
            ConfigErrorView::UnsupportedSingBoxInbound(
                match selected_view(config, api.allowed_inbounds)[at].str_at("tag"@) {
                    Some(tag) => tag,
                    None => "<untagged>"@,
                },
            ),
        ),
{
    let selected = selected_view(config, api.allowed_inbounds);
    lemma_taken(config, api.allowed_inbounds);
    unsupported_inbounds_are_refused(selected, api);
    let k = choose|i: int| 0 <= i < selected.len() && is_sing_box_only(#[trigger] selected[i]);
    assert(crate::sing_box::needs_sing_box_core(selected[k]));
    assert(crate::sing_box::protocol_view(selected[at]) is None);
    assert(forall|i: int|
        0 <= i < at ==> crate::sing_box::protocol_view(#[trigger] selected[i]) is Some);
    assert(sing_box_view(selected, api) is Err);
}

/// Where every taken inbound can be translated, a configuration is accepted.
pub proof fn translatable_config_is_accepted(config: Map<Seq<char>, JsonView>, api: ApiView)
    requires
        forall|i: int|
            0 <= i < listed(config).len() && is_taken(
                #[trigger] listed(config)[i],
                api.allowed_inbounds,
            ) ==> translated(listed(config)[i], api) is Some,
    ensures
        applied_view(config, api) is Ok,
{
    let selected = selected_view(config, api.allowed_inbounds);
    unsupported_inbounds_are_refused(selected, api);
    assert forall|j: int| 0 <= j < selected.len() implies crate::sing_box::protocol_view(
        #[trigger] selected[j],
    ) is Some by {
        taken_inbounds_are_selected(config, api.allowed_inbounds, selected[j]);
        assert(selected.contains(selected[j]));
        let i = choose|i: int| 0 <= i < listed(config).len() && listed(config)[i] == selected[j];
        assert(is_taken(listed(config)[i], api.allowed_inbounds));
    }
}

/// A controller's text is applied as the value that it holds. A text that is no
/// JSON, and a value that is no object, are refused, whatever else holds.
pub proof fn only_objects_are_applied(
    parsed: Result<JsonView, Seq<char>>,
    api: ApiView,
)
    ensures
        match parsed {
            Ok(JsonView::Object(config)) => controller_view(parsed, api) == applied_view(
                config,
                api,
            ),
            Ok(_) => controller_view(parsed, api) == Err::<XrayConfigView, ConfigErrorView>(
                ConfigErrorView::RootIsNotObject,
            ),
            Err(message) => controller_view(parsed, api) == Err::<XrayConfigView, ConfigErrorView>(
                ConfigErrorView::InvalidJson(message),
            ),
        },
        forall|value: JsonView|
            parsed == Ok::<JsonView, Seq<char>>(value) ==> #[trigger] config_view(value, api)
                == controller_view(parsed, api),
{
}

/// The message of a refusal says what is wrong, and holds what the reader of the
/// text said or the tag of the inbound.
pub proof fn refusals_tell_their_reason(message: Seq<char>, tag: Seq<char>)
    ensures
        config_error_text(ConfigErrorView::InvalidJson(message)).skip(25) == message,
        config_error_text(ConfigErrorView::InvalidJson(message)).take(25)
            == "Failed to decode config: "@,
        config_error_text(ConfigErrorView::UnsupportedSingBoxInbound(tag)).subrange(
            8,
            8 + tag.len() as int,
        ) == tag,
        config_error_text(ConfigErrorView::UnsupportedSingBoxInbound(tag)).take(8) == "Inbound "@,
        config_error_text(ConfigErrorView::UnsupportedSingBoxInbound(tag)).skip(
            8 + tag.len() as int,
        ) == " is not supported by the sing-box translator yet"@,
        config_error_text(ConfigErrorView::RootIsNotObject)
            == "Xray config root must be a JSON object"@,
{
    reveal_strlit("Failed to decode config: ");
    reveal_strlit("Inbound ");
    reveal_strlit(" is not supported by the sing-box translator yet");
    assert(config_error_text(ConfigErrorView::InvalidJson(message)).skip(25) =~= message);
    assert(config_error_text(ConfigErrorView::InvalidJson(message)).take(25)
        =~= "Failed to decode config: "@);
    let text = config_error_text(ConfigErrorView::UnsupportedSingBoxInbound(tag));
    assert(text.subrange(8, 8 + tag.len() as int) =~= tag);
    assert(text.take(8) =~= "Inbound "@);
    assert(text.skip(8 + tag.len() as int)
        =~= " is not supported by the sing-box translator yet"@);
}

/// An inbound tells a port: it has a tag other than the node's own, and a port
/// number of 16 bits under `port`, or under `listen_port` where there is no
/// `port`.
pub open spec fn tells_port(inbound: JsonView) -> bool {
    let port = if inbound.get("port"@) is Some {
        inbound.field("port"@)
    } else {
        inbound.field("listen_port"@)
    };
    &&& inbound.str_at("tag"@) is Some
    &&& inbound.str_at("tag"@) != Some("API_INBOUND"@)
    &&& port.as_u64() is Some
    &&& port.as_u64()->0 <= 65535
}

/// A port entry is that of an inbound.
pub open spec fn is_port_of(entry: PortView, inbound: JsonView) -> bool {
    let port = if inbound.get("port"@) is Some {
        inbound.field("port"@)
    } else {
        inbound.field("listen_port"@)
    };
    let protocol = if inbound.get("protocol"@) is Some {
        inbound.str_at("protocol"@)
    } else {
        inbound.str_at("type"@)
    };
    let network = if inbound.field("streamSettings"@).get("network"@) is Some {
        inbound.field("streamSettings"@).str_at("network"@)
    } else {
        inbound.str_at("network"@)
    };
    &&& inbound.str_at("tag"@) == Some(entry.tag)
    &&& port.as_u64() == Some(entry.port as u64)
    &&& protocol is Some ==> entry.protocol == protocol->0
    &&& protocol is None ==> entry.protocol == "unknown"@
    &&& network is Some ==> entry.network == network->0
    &&& network is None ==> entry.network == if entry.protocol == "hysteria2"@ {
        "hysteria"@
    } else {
        "tcp"@
    }
    &&& inbound.str_at("listen"@) is Some ==> Some(entry.listen) == inbound.str_at("listen"@)
    &&& inbound.str_at("listen"@) is None ==> entry.listen == "0.0.0.0"@
    &&& entry.transport == "udp"@ <==> {
        ||| entry.network == "hysteria"@
        ||| entry.network == "udp"@
        ||| entry.network == "quic"@
        ||| entry.network == "kcp"@
        ||| entry.protocol == "hysteria2"@
    }
    &&& entry.transport == "udp"@ || entry.transport == "tcp"@
}

/// Every inbound that tells a port is among the configured ports, in order: of
/// the sing-box configuration where there is one, of the Xray configuration
/// otherwise.
pub proof fn every_told_port_is_configured(config: XrayConfigView, at: int)
    requires
        ({
            let value = if config.sing_box_value is Some {
                config.sing_box_value->0
            } else {
                config.value
            };
            &&& value.array_at("inbounds"@) is Some
            &&& 0 <= at < value.array_at("inbounds"@)->0.len()
        }),
    ensures
        ({
            let value = if config.sing_box_value is Some {
                config.sing_box_value->0
            } else {
                config.value
            };
            let list = value.array_at("inbounds"@)->0;
            let told = |inbound: JsonView| tells_port(inbound);
            let place = list.take(at).filter(told).len() as int;
            &&& configured_ports(config).len() == list.filter(told).len()
            &&& tells_port(list[at]) ==> place < configured_ports(config).len() && is_port_of(
                configured_ports(config)[place],
                list[at],
            )
        }),
{
    let value = if config.sing_box_value is Some {
        config.sing_box_value->0
    } else {
        config.value
    };
    let list = value.array_at("inbounds"@)->0;
    let told = |inbound: JsonView| tells_port(inbound);
    let f = |inbound: JsonView| port_view(inbound);
    assert(configured_ports(config) == list.filter_map(f));
    reveal_strlit("udp");
    reveal_strlit("tcp");
    assert("udp"@[0] != "tcp"@[0]);
    assert forall|x: JsonView| #[trigger] told(x) <==> f(x) is Some by {}
    lemma_ports_count(list, f, told);
    if tells_port(list[at]) {
        lemma_ports_place(list, f, told, at);
        assert(is_port_of(port_view(list[at])->0, list[at]));
    }
}

proof fn lemma_ports_count(
    items: Seq<JsonView>,
    f: spec_fn(JsonView) -> Option<PortView>,
    p: spec_fn(JsonView) -> bool,
)
    requires
        forall|x: JsonView| #[trigger] p(x) <==> f(x) is Some,
    ensures
        items.filter_map(f).len() == items.filter(p).len(),
    decreases items.len(),
{
    reveal(Seq::filter);
    if items.len() > 0 {
        lemma_ports_count(items.drop_last(), f, p);
        assert(p(items.last()) <==> f(items.last()) is Some);
    }
}

proof fn lemma_ports_place(
    items: Seq<JsonView>,
    f: spec_fn(JsonView) -> Option<PortView>,
    p: spec_fn(JsonView) -> bool,
    at: int,
)
    requires
        0 <= at < items.len(),
        forall|x: JsonView| #[trigger] p(x) <==> f(x) is Some,
        f(items[at]) is Some,
    ensures
        items.take(at).filter(p).len() < items.filter_map(f).len(),
        items.filter_map(f)[items.take(at).filter(p).len() as int] == f(items[at])->0,
    decreases items.len(),
{
    let front = items.drop_last();
    lemma_ports_count(front, f, p);
    if at == items.len() - 1 {
        assert(items.take(at) =~= front);
        assert(items.last() == items[at]);
    } else {
        assert(front[at] == items[at]);
        assert(front.take(at) =~= items.take(at));
        lemma_ports_place(front, f, p, at);
    }
}

/// No inbounds need no core; inbounds of which one runs on sing-box only need
/// sing-box, and any others Xray.
pub proof fn inbounds_need_a_core(inbounds: Seq<JsonView>)
    ensures
        core_for(inbounds) is None <==> inbounds.len() == 0,
        core_for(inbounds) == Some(CoreKind::SingBox) <==> exists|i: int|
            0 <= i < inbounds.len() && is_sing_box_only(#[trigger] inbounds[i]),
        core_for(inbounds) == Some(CoreKind::Xray) <==> inbounds.len() > 0 && forall|i: int|
            0 <= i < inbounds.len() ==> !is_sing_box_only(#[trigger] inbounds[i]),
{
    lemma_taken(Map::empty(), Seq::empty());
    assert(forall|i: int|
        0 <= i < inbounds.len() ==> crate::sing_box::needs_sing_box_core(#[trigger] inbounds[i])
            == is_sing_box_only(inbounds[i]));
}

/// A rule that is put first stands before the rules that a configuration has, and
/// nothing else changes.
pub proof fn first_rule_comes_before_the_others(
    config: Map<Seq<char>, JsonView>,
    rule: JsonView,
    key: Seq<char>,
)
    ensures
        ({
            let before = JsonView::Object(config);
            let after = JsonView::Object(with_first_rule(config, rule));
            let rules = after.field("routing"@).array_at("rules"@);
            &&& rules is Some
            &&& rules->0.len() == 1 + listed_rules(config).len()
            &&& rules->0[0] == rule
            &&& rules->0.skip(1) == listed_rules(config)
            &&& key != "routing"@ ==> after.get(key) == before.get(key)
            &&& key != "rules"@ ==> after.field("routing"@).get(key) == before.field(
                "routing"@,
            ).get(key)
        }),
{
    let after = JsonView::Object(with_first_rule(config, rule));
    let rules = after.field("routing"@).array_at("rules"@)->0;
    assert(rules_view(config) =~= listed_rules(config));
    assert(rules.skip(1) =~= listed_rules(config));
}

/// Removing the rules of an API takes away the rules that lead to its outbound,
/// leaves the others in their order, and changes nothing else.
pub proof fn only_api_rules_are_removed(
    config: Map<Seq<char>, JsonView>,
    key: Seq<char>,
    at: int,
)
    ensures
        ({
            let before = JsonView::Object(config);
            let after = JsonView::Object(without_api_rules(config));
            let list = listed_rules(config);
            let stay = |rule: JsonView| rule_stays(config, rule);
            let rules = after.field("routing"@).array_at("rules"@);
            let place = list.take(at).filter(stay).len() as int;
            &&& key != "routing"@ ==> after.get(key) == before.get(key)
            &&& key != "rules"@ ==> after.field("routing"@).get(key) == before.field(
                "routing"@,
            ).get(key)
            &&& before.field("api"@).str_at("tag"@) is None ==> after == before
            &&& rules is Some <==> before.field("routing"@).array_at("rules"@) is Some
            &&& rules is Some ==> rules->0.len() == list.filter(stay).len()
            &&& 0 <= at < list.len() && rule_stays(config, list[at]) ==> place < rules->0.len()
                && rules->0[place] == list[at]
        }),
{
    let list = listed_rules(config);
    let stay = |rule: JsonView| rule_stays(config, rule);
    match JsonView::Object(config).field("api"@).str_at("tag"@) {
        Some(tag) => {
            lemma_filter_same(
                list,
                stay,
                |rule: JsonView| rule.str_at("outboundTag"@) != Some(tag),
            );
        },
        None => {
            lemma_filter_every(list, stay);
        },
    }
    if 0 <= at < list.len() && rule_stays(config, list[at]) {
        lemma_filter_place(list, stay, at);
    }
}

/// The network of an inbound is that of its stream settings, or else its own, and
/// where neither is a text `hysteria` for Hysteria2 and `tcp` for other protocols.
pub proof fn network_is_told_or_tcp(inbound: JsonView, protocol: Seq<char>)
    ensures
        ({
            let named = if inbound.field("streamSettings"@).get("network"@) is Some {
                inbound.field("streamSettings"@).str_at("network"@)
            } else {
                inbound.str_at("network"@)
            };
            &&& named is Some ==> network_view(inbound, protocol) == named->0
            &&& named is None && protocol == "hysteria2"@ ==> network_view(inbound, protocol)
                == "hysteria"@
            &&& named is None && protocol != "hysteria2"@ ==> network_view(inbound, protocol)
                == "tcp"@
        }),
{
}

/// The node's API inbound and the rule of the API have no other members than those
/// of the API.
pub proof fn api_parts_have_nothing_else(
    config: Map<Seq<char>, JsonView>,
    api: ApiView,
    key: Seq<char>,
)
    requires
        applied_view(config, api) is Ok,
        applied_view(config, api)->Ok_0.core_kind == Some(CoreKind::Xray),
    ensures
        ({
            let value = applied_view(config, api)->Ok_0.value;
            let inbound = value.array_at("inbounds"@)->0[0];
            let stream = inbound.field("streamSettings"@);
            let tls = stream.field("tlsSettings"@);
            let rule = value.field("routing"@).array_at("rules"@)->0[0];
            &&& inbound.get(key) is Some <==> {
                ||| key == "listen"@
                ||| key == "port"@
                ||| key == "protocol"@
                ||| key == "settings"@
                ||| key == "streamSettings"@
                ||| key == "tag"@
            }
            &&& inbound.field("settings"@).get(key) is Some <==> key == "address"@
            &&& stream.get(key) is Some <==> key == "security"@ || key == "tlsSettings"@
            &&& tls.get(key) is Some <==> key == "certificates"@
            &&& tls.array_at("certificates"@)->0[0].get(key) is Some <==> key == "certificateFile"@
                || key == "keyFile"@
            &&& rule.get(key) is Some <==> {
                ||| key == "inboundTag"@
                ||| key == "source"@
                ||| key == "outboundTag"@
                ||| key == "type"@
            }
            &&& value.field("api"@).get(key) is Some <==> key == "services"@ || key == "tag"@
        }),
{
    api_only_for_xray(config, api);
    lemma_api_inbound_keys();
    lemma_rule_keys();
}

/// A configuration for sing-box has no other members than the log level, the
/// inbounds, the two outbounds and the route.
pub proof fn sing_box_config_has_nothing_else(
    config: Map<Seq<char>, JsonView>,
    api: ApiView,
    key: Seq<char>,
)
    requires
        applied_view(config, api) is Ok,
        applied_view(config, api)->Ok_0.sing_box_value is Some,
    ensures
        ({
            let value = applied_view(config, api)->Ok_0.sing_box_value->0;
            let outbounds = value.array_at("outbounds"@)->0;
            &&& value.get(key) is Some <==> {
                ||| key == "log"@
                ||| key == "inbounds"@
                ||| key == "outbounds"@
                ||| key == "route"@
            }
            &&& value.field("log"@).get(key) is Some <==> key == "level"@
            &&& value.field("route"@).get(key) is Some <==> key == "final"@
            &&& outbounds[0].get(key) is Some <==> key == "type"@ || key == "tag"@
            &&& outbounds[1].get(key) is Some <==> key == "type"@ || key == "tag"@
        }),
{
    reveal_strlit("log");
    reveal_strlit("inbounds");
    reveal_strlit("outbounds");
    reveal_strlit("route");
    assert("log"@.len() == 3);
    assert("inbounds"@.len() == 8);
    assert("outbounds"@.len() == 9);
    assert("route"@.len() == 5);
}

} // verus!
