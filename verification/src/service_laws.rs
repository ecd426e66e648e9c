//! What each request of a controller comes to, from its first turn to the
//! response.
use vstd::prelude::*;
use vstd::string::*;
use crate::config::SettingsView;
use crate::http::RequestView;
use crate::json::{JsonView, NumberView};
use crate::json_text::json_text;
use crate::runtime::{
    CommandView, CoreActionView, CoreErrorView, CoreView, Poll, RoleView, pushed, version_in,
};
use crate::server::{
    ActionView, BodyView, EventView, TaskView, advance_view, begin_view, body_config, lemma_paths,
    stateless_view,
};
use crate::session::{
    DiagnosticsView, StateView, api_settings_view, lemma_report_keys, merged_view, refusal_view,
    report_tells_the_session, report_view,
    session_text_view,
};
use crate::text::utf8_lossy;
use crate::xray_config::{
    ConfigErrorView, CoreKind, XrayConfigView, config_error_text, configured_ports,
};

verus! {

/// A process of the core runs: it was started, and it was seen to run.
pub open spec fn runs(state: StateView, poll: Poll) -> bool {
    state.core.role is Running && poll == Poll::Running
}

/// A process of Xray runs, as far as two looks at it show.
pub open spec fn runs_xray(state: StateView, first: Poll, second: Poll) -> bool {
    &&& runs(state, first)
    &&& state.core.role->Running_0 == CoreKind::Xray
    &&& second == Poll::Running
}

/// The name of the core that runs, as far as three looks at it show.
pub open spec fn running_name(state: StateView, first: Poll, second: Poll, third: Poll) -> Option<
    Seq<char>,
> {
    if runs_xray(state, first, second) && third == Poll::Running {
        Some("xray"@)
    } else if runs(state, first) && state.core.role->Running_0 == CoreKind::SingBox && third
        == Poll::Running {
        Some("sing-box"@)
    } else {
        None
    }
}

/// A member is a number, or null where there is none.
pub open spec fn tells_number(body: JsonView, key: Seq<char>, number: Option<u64>) -> bool {
    body.get(key) == match number {
        Some(n) => Some(JsonView::Number(NumberView::Integer(n as int))),
        None => Some(JsonView::Null),
    }
}

/// A member is a text, or null where there is none.
pub open spec fn tells_text(body: JsonView, key: Seq<char>, text: Option<Seq<char>>) -> bool {
    body.get(key) == match text {
        Some(t) => Some(JsonView::Str(t)),
        None => Some(JsonView::Null),
    }
}

/// A body tells what runs on a node.
pub open spec fn tells_state(
    body: JsonView,
    state: StateView,
    first: Poll,
    second: Poll,
    third: Poll,
) -> bool {
    &&& body.get("connected"@) == Some(JsonView::Bool(state.connected))
    &&& body.get("started"@) == Some(JsonView::Bool(runs(state, first)))
    &&& body.get("xray_api"@) == Some(JsonView::Bool(runs_xray(state, first, second)))
    &&& tells_text(body, "core_kind"@, running_name(state, first, second, third))
    &&& body.get("core_version"@) == Some(JsonView::Str(state.core.version))
    &&& tells_number(body, "last_core_restart_at"@, state.core.last_core_restart_at)
}

/// What a node knows of its session and core after three looks at the process: it
/// is the same as before, but that a process which was seen to have ended is not
/// counted as started any more.
pub open spec fn seen_state(
    before: StateView,
    after: StateView,
    first: Poll,
    second: Poll,
    third: Poll,
) -> bool {
    &&& after.connected == before.connected
    &&& after.client_ip == before.client_ip
    &&& after.session_id == before.session_id
    &&& after.core == CoreView { role: after.core.role, ..before.core }
    &&& match before.core.role {
        RoleView::Running(core, pid) => after.core.role == if running_name(
            before,
            first,
            second,
            third,
        ) is Some {
            before.core.role
        } else {
            RoleView::Needed(core)
        },
        _ => after.core.role == before.core.role,
    }
}

/// A response is a refusal with a status and a reason, and nothing else.
pub open spec fn refuses(action: ActionView, status: u16, reason: Seq<char>) -> bool {
    &&& action is Respond
    &&& action->Respond_0.status == status
    &&& action->Respond_0.body.str_at("detail"@) == Some(reason)
    &&& forall|key: Seq<char>|
        key != "detail"@ ==> #[trigger] action->Respond_0.body.get(key) is None
}

/// A report, once the node was inspected: the response has status 200 and tells
/// what runs, the state is as seen, and the request is over.
proof fn lemma_report(
    state: StateView,
    extra: Option<JsonView>,
    first: Poll,
    second: Poll,
    third: Poll,
    diagnostics: DiagnosticsView,
    fresh: u128,
)
    requires
        extra is None || exists|id: u128|
            extra == Some(#[trigger] crate::session::session_extra(id)),
    ensures
        ({
            let (after, task, action) = advance_view(
                TaskView::Reporting(extra),
                EventView::Inspected(first, second, third, diagnostics),
                state,
                fresh,
            );
            &&& task == TaskView::Over
            &&& action is Respond
            &&& action->Respond_0.status == 200
            &&& tells_state(action->Respond_0.body, state, first, second, third)
            &&& seen_state(state, after, first, second, third)
        }),
        extra is None ==> advance_view(
            TaskView::Reporting(extra),
            EventView::Inspected(first, second, third, diagnostics),
            state,
            fresh,
        ).2->Respond_0.body.get("session_id"@) is None,
        forall|id: u128|
            extra == Some(#[trigger] crate::session::session_extra(id)) ==> advance_view(
                TaskView::Reporting(extra),
                EventView::Inspected(first, second, third, diagnostics),
                state,
                fresh,
            ).2->Respond_0.body.str_at("session_id"@) == Some(session_text_view(id)),
{
    lemma_report_keys();
    match extra {
        Some(more) => {
            let id = choose|id: u128| extra == Some(#[trigger] crate::session::session_extra(id));
            report_tells_the_session(state, (first, second, third), diagnostics, id);
            assert forall|other: u128|
                extra == Some(#[trigger] crate::session::session_extra(other)) implies advance_view(
                TaskView::Reporting(extra),
                EventView::Inspected(first, second, third, diagnostics),
                state,
                fresh,
            ).2->Respond_0.body.str_at("session_id"@) == Some(session_text_view(other)) by {
                report_tells_the_session(state, (first, second, third), diagnostics, other);
            }
        },
        None => {},
    }
}

/// A POST request to `/` changes nothing and asks for an inspection. Once that is
/// handed back, the response has status 200 and tells what runs.
pub proof fn root_request_is_answered_with_a_report(
    request: RequestView,
    body: Result<BodyView, Seq<char>>,
    state: StateView,
    peer_ip: Seq<char>,
    id: u128,
    config: Result<XrayConfigView, ConfigErrorView>,
    first: Poll,
    second: Poll,
    third: Poll,
    diagnostics: DiagnosticsView,
    fresh: u128,
)
    requires
        request.method == "POST"@,
        request.path == "/"@,
    ensures
        ({
            let (same, task, asked) = begin_view(request, body, state, peer_ip, id, config);
            let (after, over, action) = advance_view(
                task,
                EventView::Inspected(first, second, third, diagnostics),
                same,
                fresh,
            );
            &&& same == state
            &&& asked is Inspect
            &&& over == TaskView::Over
            &&& action is Respond
            &&& action->Respond_0.status == 200
            &&& action->Respond_0.body.get("session_id"@) is None
            &&& tells_state(action->Respond_0.body, state, first, second, third)
            &&& seen_state(state, after, first, second, third)
        }),
{
    lemma_report(state, None, first, second, third, diagnostics, fresh);
}

/// A POST request to `/connect` on a node without a session opens one with the
/// given id for the controller at its address. The core goes on as it is, and the
/// report that follows tells the id.
pub proof fn first_connect_opens_a_session(
    request: RequestView,
    body: Result<BodyView, Seq<char>>,
    state: StateView,
    peer_ip: Seq<char>,
    id: u128,
    config: Result<XrayConfigView, ConfigErrorView>,
    first: Poll,
    second: Poll,
    third: Poll,
    diagnostics: DiagnosticsView,
    fresh: u128,
)
    requires
        request.method == "POST"@,
        request.path == "/connect"@,
        !state.connected,
    ensures
        ({
            let (opened, task, asked) = begin_view(request, body, state, peer_ip, id, config);
            let (after, over, action) = advance_view(
                task,
                EventView::Inspected(first, second, third, diagnostics),
                opened,
                fresh,
            );
            &&& opened.connected
            &&& opened.client_ip == Some(peer_ip)
            &&& opened.session_id == Some(id)
            &&& opened.core == state.core
            &&& asked is Inspect
            &&& over == TaskView::Over
            &&& action is Respond
            &&& action->Respond_0.status == 200
            &&& action->Respond_0.body.str_at("session_id"@) == Some(session_text_view(id))
            &&& tells_state(action->Respond_0.body, opened, first, second, third)
            &&& seen_state(opened, after, first, second, third)
        }),
{
    lemma_paths();
    let opened = begin_view(request, body, state, peer_ip, id, config).0;
    let extra = Some(crate::session::session_extra(id));
    lemma_report(opened, extra, first, second, third, diagnostics, fresh);
}

/// What is left of a core that was stopped: nothing runs, the version is unknown
/// and there are no ports; the rest stays, with a line in the log where a process
/// had been started.
pub open spec fn is_stopped(before: CoreView, after: CoreView) -> bool {
    &&& after.role == RoleView::Idle
    &&& after.version == "unknown"@
    &&& after.ports.len() == 0
    &&& after.settings == before.settings
    &&& after.last_core_restart_at == before.last_core_restart_at
    &&& after.installed == before.installed
    &&& match before.role {
        RoleView::Running(core, _) => after.logs == pushed(
            before.logs,
            match core {
                CoreKind::Xray => "Xray core stopped"@,
                CoreKind::SingBox => "sing-box core stopped"@,
            },
        ),
        _ => after.logs == before.logs,
    }
}

/// A POST request to `/connect` on a node that has a session looks at the process
/// first. One that runs is killed, and the core is stopped; then the new session
/// takes the place of the old one, and the report that follows tells its id.
pub proof fn second_connect_takes_over(
    request: RequestView,
    body: Result<BodyView, Seq<char>>,
    state: StateView,
    peer_ip: Seq<char>,
    id: u128,
    config: Result<XrayConfigView, ConfigErrorView>,
    poll: Poll,
    fresh: u128,
    first: Poll,
    second: Poll,
    third: Poll,
    diagnostics: DiagnosticsView,
)
    requires
        request.method == "POST"@,
        request.path == "/connect"@,
        state.connected,
    ensures
        ({
            let one = begin_view(request, body, state, peer_ip, id, config);
            let two = advance_view(one.1, EventView::Polled(poll), one.0, fresh);
            let three = advance_view(two.1, EventView::Killed, two.0, fresh);
            let opened = if runs(state, poll) {
                three
            } else {
                two
            };
            let told = advance_view(
                opened.1,
                EventView::Inspected(first, second, third, diagnostics),
                opened.0,
                id,
            );
            &&& one.0 == state
            &&& one.2 is Poll
            &&& runs(state, poll) ==> two.2 is Kill && two.0 == state && is_stopped(
                state.core,
                opened.0.core,
            )
            &&& !runs(state, poll) ==> opened.0.core == CoreView {
                role: opened.0.core.role,
                ..state.core
            } && opened.0.core.role !is Running
            &&& opened.0.connected
            &&& opened.0.client_ip == Some(peer_ip)
            &&& opened.0.session_id == Some(fresh)
            &&& opened.2 is Inspect
            &&& told.2 is Respond
            &&& told.2->Respond_0.status == 200
            &&& told.2->Respond_0.body.str_at("session_id"@) == Some(session_text_view(fresh))
            &&& tells_state(told.2->Respond_0.body, opened.0, first, second, third)
        }),
{
    lemma_paths();
    let one = begin_view(request, body, state, peer_ip, id, config);
    let two = advance_view(one.1, EventView::Polled(poll), one.0, fresh);
    let three = advance_view(two.1, EventView::Killed, two.0, fresh);
    let opened = if runs(state, poll) {
        three
    } else {
        two
    };
    let extra = Some(crate::session::session_extra(fresh));
    assert(opened.1 == TaskView::Reporting(extra));
    lemma_report(opened.0, extra, first, second, third, diagnostics, id);
}

/// A POST request to `/disconnect` has the process killed. Then there is no
/// session, nothing runs, and the report that follows says so.
pub proof fn disconnect_leaves_nothing(
    request: RequestView,
    body: Result<BodyView, Seq<char>>,
    state: StateView,
    peer_ip: Seq<char>,
    id: u128,
    config: Result<XrayConfigView, ConfigErrorView>,
    first: Poll,
    second: Poll,
    third: Poll,
    diagnostics: DiagnosticsView,
    fresh: u128,
)
    requires
        request.method == "POST"@,
        request.path == "/disconnect"@,
    ensures
        ({
            let one = begin_view(request, body, state, peer_ip, id, config);
            let two = advance_view(one.1, EventView::Killed, one.0, fresh);
            let told = advance_view(
                two.1,
                EventView::Inspected(first, second, third, diagnostics),
                two.0,
                fresh,
            );
            let said = told.2->Respond_0.body;
            &&& one.0 == state
            &&& one.2 is Kill
            &&& !two.0.connected
            &&& two.0.client_ip is None
            &&& two.0.session_id is None
            &&& is_stopped(state.core, two.0.core)
            &&& two.2 is Inspect
            &&& told.0 == two.0
            &&& told.2 is Respond
            &&& told.2->Respond_0.status == 200
            &&& said.get("connected"@) == Some(JsonView::Bool(false))
            &&& said.get("started"@) == Some(JsonView::Bool(false))
            &&& said.get("xray_api"@) == Some(JsonView::Bool(false))
            &&& said.get("core_kind"@) == Some(JsonView::Null)
            &&& said.get("core_version"@) == Some(JsonView::Str("unknown"@))
            &&& said.get("session_id"@) is None
        }),
{
    lemma_paths();
    let one = begin_view(request, body, state, peer_ip, id, config);
    let two = advance_view(one.1, EventView::Killed, one.0, fresh);
    lemma_report(two.0, None, first, second, third, diagnostics, fresh);
}

/// A method other than POST is refused with status 405, and a path that the node
/// does not know with status 404. Nothing changes.
pub proof fn other_methods_and_paths_are_refused(
    request: RequestView,
    body: Result<BodyView, Seq<char>>,
    state: StateView,
    peer_ip: Seq<char>,
    id: u128,
    config: Result<XrayConfigView, ConfigErrorView>,
)
    ensures
        ({
            let (after, task, action) = begin_view(request, body, state, peer_ip, id, config);
            let known = {
                ||| request.path == "/"@
                ||| request.path == "/connect"@
                ||| request.path == "/disconnect"@
                ||| request.path == "/ping"@
                ||| request.path == "/start"@
                ||| request.path == "/stop"@
                ||| request.path == "/restart"@
            };
            &&& request.method != "POST"@ ==> after == state && task == TaskView::Over && refuses(
                action,
                405,
                "Method not allowed"@,
            )
            &&& request.method == "POST"@ && !known ==> after == state && task == TaskView::Over
                && refuses(action, 404, "Not found"@)
            &&& request.method == "POST"@ && known && action is Respond
                ==> action->Respond_0.status != 404 && action->Respond_0.status != 405
        }),
{
    lemma_paths();
}

/// A request of a session with a body that cannot be read is refused with status
/// 422 and the message; one with another session id than that of the session,
/// also where there is no session, with status 403. Nothing changes.
pub proof fn unreadable_and_foreign_requests_are_refused(
    request: RequestView,
    message: Seq<char>,
    body: BodyView,
    state: StateView,
    peer_ip: Seq<char>,
    id: u128,
    config: Result<XrayConfigView, ConfigErrorView>,
)
    requires
        request.method == "POST"@,
        request.path == "/ping"@ || request.path == "/start"@ || request.path == "/stop"@
            || request.path == "/restart"@,
    ensures
        ({
            let (after, task, action) = begin_view(
                request,
                Err(message),
                state,
                peer_ip,
                id,
                config,
            );
            after == state && task == TaskView::Over && refuses(action, 422, message)
        }),
        state.session_id != Some(body.session_id) ==> {
            let (after, task, action) = begin_view(request, Ok(body), state, peer_ip, id, config);
            &&& after == state
            &&& task == TaskView::Over
            &&& refuses(action, 403, "Session ID mismatch."@)
        },
        state.session_id == Some(body.session_id) ==> {
            let (after, task, action) = begin_view(request, Ok(body), state, peer_ip, id, config);
            &&& after == state
            &&& action is Respond ==> action->Respond_0.status != 403
        },
{
    lemma_paths();
    lemma_session_paths();
}

proof fn lemma_session_paths()
    ensures
        "/ping"@.len() == 5,
        "/stop"@.len() == 5,
        "/start"@.len() == 6,
        "/restart"@.len() == 8,
        "/ping"@ != "/stop"@,
{
    reveal_strlit("/ping");
    reveal_strlit("/stop");
    reveal_strlit("/start");
    reveal_strlit("/restart");
    assert("/ping"@[1] != "/stop"@[1]);
}

/// A ping with the id of the session is answered with status 200 and an empty
/// object, whatever runs. Nothing changes.
pub proof fn ping_is_answered(
    request: RequestView,
    body: BodyView,
    state: StateView,
    peer_ip: Seq<char>,
    id: u128,
    config: Result<XrayConfigView, ConfigErrorView>,
)
    requires
        request.method == "POST"@,
        request.path == "/ping"@,
        state.session_id == Some(body.session_id),
    ensures
        ({
            let (after, task, action) = begin_view(request, Ok(body), state, peer_ip, id, config);
            &&& after == state
            &&& task == TaskView::Over
            &&& action is Respond
            &&& action->Respond_0.status == 200
            &&& action->Respond_0.body is Object
            &&& action->Respond_0.body->Object_0.dom() == Set::<Seq<char>>::empty()
        }),
{
    lemma_paths();
}

/// A POST request to `/stop` of the session has the process killed. Then nothing
/// runs, the session goes on, and the report that follows says so.
pub proof fn stop_keeps_the_session(
    request: RequestView,
    body: BodyView,
    state: StateView,
    peer_ip: Seq<char>,
    id: u128,
    config: Result<XrayConfigView, ConfigErrorView>,
    first: Poll,
    second: Poll,
    third: Poll,
    diagnostics: DiagnosticsView,
    fresh: u128,
)
    requires
        request.method == "POST"@,
        request.path == "/stop"@,
        state.session_id == Some(body.session_id),
    ensures
        ({
            let one = begin_view(request, Ok(body), state, peer_ip, id, config);
            let two = advance_view(one.1, EventView::Killed, one.0, fresh);
            let told = advance_view(
                two.1,
                EventView::Inspected(first, second, third, diagnostics),
                two.0,
                fresh,
            );
            let said = told.2->Respond_0.body;
            &&& one.0 == state
            &&& one.2 is Kill
            &&& two.0 == StateView { core: two.0.core, ..state }
            &&& is_stopped(state.core, two.0.core)
            &&& two.2 is Inspect
            &&& told.0 == two.0
            &&& told.2 is Respond
            &&& told.2->Respond_0.status == 200
            &&& said.get("connected"@) == Some(JsonView::Bool(state.connected))
            &&& said.get("started"@) == Some(JsonView::Bool(false))
            &&& said.get("core_kind"@) == Some(JsonView::Null)
            &&& said.get("core_version"@) == Some(JsonView::Str("unknown"@))
        }),
{
    lemma_paths();
    lemma_session_paths();
    let one = begin_view(request, Ok(body), state, peer_ip, id, config);
    let two = advance_view(one.1, EventView::Killed, one.0, fresh);
    lemma_report(two.0, None, first, second, third, diagnostics, fresh);
}

/// A start or restart of the session with a configuration that is refused is
/// answered with status 422 and the reason. Nothing changes.
pub proof fn refused_config_is_told(
    request: RequestView,
    body: BodyView,
    state: StateView,
    peer_ip: Seq<char>,
    id: u128,
    error: ConfigErrorView,
)
    requires
        request.method == "POST"@,
        request.path == "/start"@ || request.path == "/restart"@,
        state.session_id == Some(body.session_id),
    ensures
        ({
            let (after, task, action) = begin_view(
                request,
                Ok(body),
                state,
                peer_ip,
                id,
                Err(error),
            );
            &&& after == state
            &&& task == TaskView::Over
            &&& action is Respond
            &&& action->Respond_0.status == 422
            &&& action->Respond_0.body.field("detail"@).str_at("config"@) == Some(
                config_error_text(error),
            )
        }),
{
    lemma_paths();
    lemma_session_paths();
}

/// A command asks the executable of a core for its version.
pub open spec fn asks_version(command: CommandView, settings: SettingsView, core: CoreKind) -> bool {
    &&& command.program == match core {
        CoreKind::Xray => settings.xray_executable_path,
        CoreKind::SingBox => settings.sing_box_executable_path,
    }
    &&& command.args.len() == 1
    &&& command.args[0] == "version"@
    &&& command.envs.len() == 0
    &&& command.stdin is None
}

/// A command runs the executable of a core with the configuration that is meant
/// for it as its input; Xray is told where its assets are.
pub open spec fn runs_core(
    command: CommandView,
    settings: SettingsView,
    core: CoreKind,
    config: XrayConfigView,
) -> bool {
    match core {
        CoreKind::Xray => {
            &&& command.program == settings.xray_executable_path
            &&& command.args.len() == 3
            &&& command.args[0] == "run"@
            &&& command.args[1] == "-config"@
            &&& command.args[2] == "stdin:"@
            &&& command.envs.len() == 1
            &&& command.envs[0].0 == "XRAY_LOCATION_ASSET"@
            &&& command.envs[0].1 == settings.xray_assets_path
            &&& command.stdin == Some(json_text(config.value))
        },
        CoreKind::SingBox => {
            &&& command.program == settings.sing_box_executable_path
            &&& command.args.len() == 3
            &&& command.args[0] == "run"@
            &&& command.args[1] == "-c"@
            &&& command.args[2] == "/dev/stdin"@
            &&& command.envs.len() == 0
            &&& command.stdin == Some(json_text(config.sing_box_value->0))
        },
    }
}

/// Two turns of a start after a core was chosen: the version is asked for, then
/// the core is run. `begun` is the turn in which the version is asked for, and
/// `before` the state before it.
pub open spec fn launches(
    before: StateView,
    begun: (StateView, TaskView, ActionView),
    config: XrayConfigView,
    core: CoreKind,
    output: Seq<u8>,
    version: Seq<char>,
    pid: u32,
    now: Option<u64>,
    fresh: u128,
) -> bool {
    let run = advance_view(begun.1, EventView::Version(Ok(output)), begun.0, fresh);
    let ready = advance_view(run.1, EventView::Spawned(Ok(pid), now), run.0, fresh);
    &&& begun.2 is DetectVersion
    &&& begun.2->DetectVersion_0 == core
    &&& asks_version(begun.2->DetectVersion_1, before.core.settings, core)
    &&& run.2 is Spawn
    &&& runs_core(run.2->Spawn_0, before.core.settings, core, config)
    &&& ready.2 is Inspect
    &&& ready.1 == TaskView::Reporting(None)
    &&& ready.0 == StateView { core: ready.0.core, ..before }
    &&& ready.0.core.role == RoleView::Running(core, pid)
    &&& ready.0.core.version.take(ready.0.core.version.len() - version.len()) == match core {
        CoreKind::Xray => "xray "@,
        CoreKind::SingBox => "sing-box "@,
    }
    &&& ready.0.core.version.skip(ready.0.core.version.len() - version.len()) == version
    &&& ready.0.core.ports == configured_ports(config)
    &&& ready.0.core.last_core_restart_at == now
    &&& ready.0.core.settings == before.core.settings
    &&& ready.0.core.installed == before.core.installed
    &&& ready.0.core.logs == begun.0.core.logs
}

proof fn lemma_version_text(core: CoreKind, version: Seq<char>)
    ensures
        ({
            let text = crate::runtime::version_text(core, version);
            &&& text.len() >= version.len()
            &&& text.skip(text.len() - version.len()) == version
            &&& text.take(text.len() - version.len()) == match core {
                CoreKind::Xray => "xray "@,
                CoreKind::SingBox => "sing-box "@,
            }
        }),
{
    let text = crate::runtime::version_text(core, version);
    assert(text.skip(text.len() - version.len()) =~= version);
    match core {
        CoreKind::Xray => {
            assert(text.take(text.len() - version.len()) =~= "xray "@);
        },
        CoreKind::SingBox => {
            assert(text.take(text.len() - version.len()) =~= "sing-box "@);
        },
    }
}

/// A start of the session looks at the process first. One that runs is left alone
/// and the start is refused with status 503. Without a core that is needed it is
/// refused likewise. Otherwise the core is asked for its version and then run, and
/// a report follows.
pub proof fn start_launches_the_core(
    request: RequestView,
    body: BodyView,
    state: StateView,
    peer_ip: Seq<char>,
    id: u128,
    config: XrayConfigView,
    poll: Poll,
    output: Seq<u8>,
    version: Seq<char>,
    pid: u32,
    now: Option<u64>,
    fresh: u128,
)
    requires
        request.method == "POST"@,
        request.path == "/start"@,
        state.session_id == Some(body.session_id),
    ensures
        ({
            let one = begin_view(request, Ok(body), state, peer_ip, id, Ok(config));
            let two = advance_view(one.1, EventView::Polled(poll), one.0, fresh);
            &&& one.0 == state
            &&& one.2 is Poll
            &&& runs(state, poll) ==> two.0 == state && two.1 == TaskView::Over && refuses(
                two.2,
                503,
                "Core is started already"@,
            )
            &&& !runs(state, poll) && config.core_kind is None ==> two.0.core == CoreView {
                role: RoleView::Idle,
                ..state.core
            } && two.1 == TaskView::Over && refuses(
                two.2,
                503,
                "No core is required for the selected inbounds"@,
            )
            &&& !runs(state, poll) && config.core_kind is Some && version_in(
                config.core_kind->0,
                utf8_lossy(output),
            ) == Some(version) ==> launches(
                state,
                two,
                config,
                config.core_kind->0,
                output,
                version,
                pid,
                now,
                fresh,
            ) && two.0.core.logs == state.core.logs
        }),
{
    lemma_paths();
    lemma_session_paths();
    if config.core_kind is Some {
        lemma_version_text(config.core_kind->0, version);
    }
}

/// A restart of the session has the process killed and the core stopped first, so
/// it is never refused because one runs. Then it goes on as a start.
pub proof fn restart_launches_the_core(
    request: RequestView,
    body: BodyView,
    state: StateView,
    peer_ip: Seq<char>,
    id: u128,
    config: XrayConfigView,
    output: Seq<u8>,
    version: Seq<char>,
    pid: u32,
    now: Option<u64>,
    fresh: u128,
)
    requires
        request.method == "POST"@,
        request.path == "/restart"@,
        state.session_id == Some(body.session_id),
    ensures
        ({
            let one = begin_view(request, Ok(body), state, peer_ip, id, Ok(config));
            let two = advance_view(one.1, EventView::Killed, one.0, fresh);
            &&& one.0 == state
            &&& one.2 is Kill
            &&& is_stopped(state.core, CoreView { role: RoleView::Idle, ..two.0.core })
            &&& config.core_kind is None ==> two.0 == StateView { core: two.0.core, ..state }
                && two.0.core.role == RoleView::Idle && refuses(
                two.2,
                503,
                "No core is required for the selected inbounds"@,
            )
            &&& config.core_kind is Some && version_in(config.core_kind->0, utf8_lossy(output))
                == Some(version) ==> launches(
                state,
                two,
                config,
                config.core_kind->0,
                output,
                version,
                pid,
                now,
                fresh,
            )
        }),
{
    lemma_paths();
    lemma_session_paths();
    if config.core_kind is Some {
        lemma_version_text(config.core_kind->0, version);
    }
}

/// A start that fails is refused with status 503 and the reason: no version in
/// the output of the version command, the error of that command, or the error of
/// starting the process. Nothing runs after it, and version, ports and time of
/// the last start stay.
pub proof fn failed_launch_is_told(
    state: StateView,
    config: XrayConfigView,
    core: CoreKind,
    poll: Poll,
    output: Seq<u8>,
    found: Seq<u8>,
    error: CoreErrorView,
    now: Option<u64>,
    fresh: u128,
)
    requires
        !runs(state, poll),
        config.core_kind == Some(core),
        version_in(core, utf8_lossy(output)) is None,
        version_in(core, utf8_lossy(found)) is Some,
    ensures
        ({
            let begun = advance_view(
                TaskView::Starting(config),
                EventView::Polled(poll),
                state,
                fresh,
            );
            let unknown = advance_view(begun.1, EventView::Version(Ok(output)), begun.0, fresh);
            let broken = advance_view(begun.1, EventView::Version(Err(error)), begun.0, fresh);
            let known = advance_view(begun.1, EventView::Version(Ok(found)), begun.0, fresh);
            let unborn = advance_view(known.1, EventView::Spawned(Err(error), now), known.0, fresh);
            let left = StateView {
                core: CoreView { role: RoleView::Needed(core), ..state.core },
                ..state
            };
            &&& begun.2 is DetectVersion
            &&& unknown.0 == left
            &&& refuses(
                unknown.2,
                503,
                match core {
                    CoreKind::Xray => "Failed to detect Xray version"@,
                    CoreKind::SingBox => "Failed to detect sing-box version"@,
                },
            )
            &&& broken.0 == left
            &&& refuses(broken.2, 503, crate::runtime::core_error_text(error))
            &&& unborn.0 == left
            &&& refuses(unborn.2, 503, crate::runtime::core_error_text(error))
        }),
{
    reveal_strlit("Failed to detect ");
    reveal_strlit(" version");
    reveal_strlit("Xray");
    reveal_strlit("sing-box");
    reveal_strlit("Failed to detect Xray version");
    reveal_strlit("Failed to detect sing-box version");
    match core {
        CoreKind::Xray => {
            assert("Failed to detect "@ + "Xray"@ + " version"@ =~= "Failed to detect Xray version"@);
        },
        CoreKind::SingBox => {
            assert("Failed to detect "@ + "sing-box"@ + " version"@
                =~= "Failed to detect sing-box version"@);
        },
    }
}

/// An event that a task does not wait for is ignored, and changes nothing.
pub proof fn unasked_events_change_nothing(
    task: TaskView,
    event: EventView,
    state: StateView,
    fresh: u128,
)
    requires
        !(event is Polled && (task is Opening || task is Starting)),
        !(event is Killed && (task is Reopening || task is Closing || task is Stopping
            || task is Restarting)),
        !(task is Launching && (event is Version || event is Spawned)),
        !(task is Reporting && event is Inspected),
    ensures
        advance_view(task, event, state, fresh) == (state, task, ActionView::Ignored),
{
}

/// The configuration of a request is applied with the API address and the files
/// of the settings, and with the address of the controller that opened the
/// session, the node's own where there is none. The inbounds that the request
/// names select, even none; those of the settings where it names none.
pub proof fn config_is_applied_with_the_settings(
    body: BodyView,
    state: StateView,
    settings: SettingsView,
)
    ensures
        ({
            let api = api_settings_view(state, settings, body.inbounds);
            &&& api.host == settings.xray_api_host
            &&& api.port == settings.xray_api_port
            &&& api.ssl_cert_file == settings.ssl_cert_file
            &&& api.ssl_key_file == settings.ssl_key_file
            &&& state.client_ip is Some ==> api.peer_ip == state.client_ip->0
            &&& state.client_ip is None ==> api.peer_ip == "127.0.0.1"@
            &&& body.inbounds is Some ==> api.allowed_inbounds == body.inbounds->0
            &&& body.inbounds is None ==> api.allowed_inbounds == settings.inbounds
            &&& body_config(Ok(body), state, settings) == crate::xray_config::controller_view(
                crate::json_text::parsed_json(body.config),
                api,
            )
        }),
{
}

proof fn lemma_entry_keys()
    ensures
        "installed"@.len() == 9,
        "version"@.len() == 7,
        "path"@.len() == 4,
        "source"@.len() == 6,
        "protocol"@.len() == 8,
        "address"@.len() == 7,
        "port"@.len() == 4,
        "tag"@.len() == 3,
        "network"@.len() == 7,
        "transport"@.len() == 9,
        "listen"@.len() == 6,
        "xray"@.len() == 4,
        "sing-box"@.len() == 8,
{
    reveal_strlit("installed");
    reveal_strlit("version");
    reveal_strlit("path");
    reveal_strlit("source");
    reveal_strlit("protocol");
    reveal_strlit("address");
    reveal_strlit("port");
    reveal_strlit("tag");
    reveal_strlit("network");
    reveal_strlit("transport");
    reveal_strlit("listen");
    reveal_strlit("xray");
    reveal_strlit("sing-box");
}

/// An entry tells what is known of the executable of a core.
pub open spec fn tells_install(entry: JsonView, info: crate::runtime::InstallView) -> bool {
    &&& entry.get("installed"@) == Some(JsonView::Bool(info.installed))
    &&& tells_text(entry, "version"@, info.version)
    &&& tells_text(entry, "path"@, info.path)
    &&& entry.get("source"@) == Some(JsonView::Str(info.source))
}

/// The report tells the diagnostics of the node: version, executables, memory,
/// each listening socket and each configured port, at its place.
pub proof fn report_holds_every_diagnostic(
    state: StateView,
    first: Poll,
    second: Poll,
    third: Poll,
    diagnostics: DiagnosticsView,
    fresh: u128,
    at: int,
)
    ensures
        ({
            let body = advance_view(
                TaskView::Reporting(None),
                EventView::Inspected(first, second, third, diagnostics),
                state,
                fresh,
            ).2->Respond_0.body;
            let cores = body.field("installed_cores"@);
            let sockets = body.array_at("local_sockets"@)->0;
            let ports = body.array_at("configured_inbound_ports"@)->0;
            let features = body.array_at("features"@)->0;
            &&& body.get("node_version"@) == Some(JsonView::Str(diagnostics.node_version))
            &&& tells_install(cores.field("xray"@), diagnostics.installed_cores.xray)
            &&& tells_install(cores.field("sing-box"@), diagnostics.installed_cores.sing_box)
            &&& tells_number(body, "agent_rss_bytes"@, diagnostics.agent_rss_bytes)
            &&& tells_number(body, "core_rss_bytes"@, diagnostics.core_rss_bytes)
            &&& body.array_at("local_sockets"@) is Some
            &&& sockets.len() == diagnostics.sockets.len()
            &&& 0 <= at < sockets.len() ==> {
                &&& sockets[at].str_at("protocol"@) == Some(diagnostics.sockets[at].protocol)
                &&& sockets[at].str_at("address"@) == Some(diagnostics.sockets[at].address)
                &&& tells_number(sockets[at], "port"@, Some(diagnostics.sockets[at].port as u64))
            }
            &&& body.array_at("configured_inbound_ports"@) is Some
            &&& ports.len() == state.core.ports.len()
            &&& 0 <= at < ports.len() ==> {
                &&& ports[at].str_at("tag"@) == Some(state.core.ports[at].tag)
                &&& ports[at].str_at("protocol"@) == Some(state.core.ports[at].protocol)
                &&& ports[at].str_at("network"@) == Some(state.core.ports[at].network)
                &&& ports[at].str_at("transport"@) == Some(state.core.ports[at].transport)
                &&& ports[at].str_at("listen"@) == Some(state.core.ports[at].listen)
                &&& tells_number(ports[at], "port"@, Some(state.core.ports[at].port as u64))
            }
            &&& body.array_at("features"@) is Some
            &&& features.len() == 3
            &&& features.contains(JsonView::Str("controller_inbounds"@))
            &&& features.contains(JsonView::Str("core_kind"@))
            &&& features.contains(JsonView::Str("node_diagnostics"@))
        }),
{
    crate::session::report_tells_the_diagnostics(state, (first, second, third), diagnostics);
    lemma_entry_keys();
}

/// The report has no members but the state of the node and its diagnostics.
pub proof fn report_has_nothing_else(
    state: StateView,
    first: Poll,
    second: Poll,
    third: Poll,
    diagnostics: DiagnosticsView,
    fresh: u128,
    key: Seq<char>,
)
    ensures
        advance_view(
            TaskView::Reporting(None),
            EventView::Inspected(first, second, third, diagnostics),
            state,
            fresh,
        ).2->Respond_0.body.get(key) is Some <==> {
            ||| key == "connected"@
            ||| key == "started"@
            ||| key == "xray_api"@
            ||| key == "core_kind"@
            ||| key == "core_version"@
            ||| key == "features"@
            ||| key == "node_version"@
            ||| key == "installed_cores"@
            ||| key == "agent_rss_bytes"@
            ||| key == "core_rss_bytes"@
            ||| key == "local_sockets"@
            ||| key == "configured_inbound_ports"@
            ||| key == "last_core_restart_at"@
        },
{
    lemma_report_keys();
}

/// Merging adds the members of one object to another: each member is that of the
/// added object where it has one, and that of the first otherwise. What is no
/// object is left as it is, and adds nothing.
pub proof fn merging_adds_members(base: JsonView, extra: JsonView, key: Seq<char>)
    ensures
        base is Object && extra is Object ==> merged_view(base, extra) is Object && merged_view(
            base,
            extra,
        ).get(key) == (if extra.get(key) is Some {
            extra.get(key)
        } else {
            base.get(key)
        }),
        !(base is Object && extra is Object) ==> merged_view(base, extra) == base,
{
}

/// A refusal has its status, and its reason under `detail`.
pub proof fn refusal_tells_its_reason(status: u16, reason: Seq<char>)
    ensures
        refuses(ActionView::Respond(refusal_view(status, reason)), status, reason),
{
}

/// A report with members added to it has those members, and otherwise those of the
/// report.
pub proof fn report_takes_on_members(
    state: StateView,
    polls: (Poll, Poll, Poll),
    diagnostics: DiagnosticsView,
    extra: JsonView,
    key: Seq<char>,
)
    ensures
        ({
            let plain = report_view(state, polls, diagnostics, None);
            let more = report_view(state, polls, diagnostics, Some(extra));
            &&& plain.status == 200
            &&& more.status == 200
            &&& more.body.get(key) == (if extra.get(key) is Some {
                extra.get(key)
            } else {
                plain.body.get(key)
            })
        }),
{
}

/// Without the state of the node a request can be refused that the state does not
/// matter for: one of another method, to an unknown path, or with a body that
/// cannot be read where the path needs one. It is refused as with the state.
pub proof fn hopeless_requests_need_no_state(
    request: RequestView,
    body: Result<BodyView, Seq<char>>,
)
    ensures
        ({
            let of_session = request.path == "/ping"@ || request.path == "/start"@ || request.path
                == "/stop"@ || request.path == "/restart"@;
            let known = of_session || request.path == "/"@ || request.path == "/connect"@
                || request.path == "/disconnect"@;
            match stateless_view(request, body) {
                Some(response) => {
                    let action = ActionView::Respond(response);
                    ||| request.method != "POST"@ && refuses(action, 405, "Method not allowed"@)
                    ||| request.method == "POST"@ && !known && refuses(action, 404, "Not found"@)
                    ||| request.method == "POST"@ && of_session && body is Err && refuses(
                        action,
                        422,
                        body->Err_0,
                    )
                },
                None => request.method == "POST"@ && known && (of_session ==> body is Ok),
            }
        }),
{
    lemma_paths();
}

/// A core runs if its process was started and is seen to run. A look at a process
/// that has ended leaves the need for the core, and no process.
pub proof fn looking_at_the_process(core: CoreView, kind: CoreKind, poll: Poll)
    ensures
        core.started(poll) <==> core.role is Running && poll == Poll::Running,
        core.started_as(kind, poll) <==> core.role is Running && core.role->Running_0 == kind && poll
            == Poll::Running,
        core.role is Running ==> core.role.child() == Some(
            (core.role->Running_0, core.role->Running_1),
        ) && core.role.needs() == Some(core.role->Running_0),
        core.role !is Running ==> core.role.child() is None,
        core.role is Idle <==> core.role.needs() is None,
        core.observed(poll) == (CoreView { role: core.observed(poll).role, ..core }),
        core.observed(poll).role == (if core.role is Running && poll != Poll::Running {
            RoleView::Needed(core.role->Running_0)
        } else {
            core.role
        }),
        core.observed_as(kind, poll) == core || core.role is Running && core.role->Running_0 == kind
            && core.observed_as(kind, poll) == core.observed(poll),
        core.role is Running && core.role->Running_0 == kind ==> core.observed_as(kind, poll)
            == core.observed(poll),
{
}

/// The outcome of a version command, or of starting a process, that nobody waits
/// for changes nothing.
pub proof fn unasked_outcomes_change_nothing(
    core: CoreView,
    output: Result<Seq<u8>, CoreErrorView>,
    child: Result<u32, CoreErrorView>,
    now: Option<u64>,
)
    ensures
        core.role !is Detecting ==> core.version_output(output) == (
            core,
            CoreActionView::Ignored,
        ),
        core.role !is Spawning ==> core.spawned(child, now) == (core, CoreActionView::Ignored),
{
}

} // verus!
