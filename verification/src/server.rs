//! The REST service: what a request does to the node, and what it is answered.
//!
//! A request is worked off in turns. [`begin`] and [`advance`] decide, and hand
//! out an [`Action`]; whoever performs it hands back an [`Event`], until the
//! action is a response.
use vstd::prelude::*;
use vstd::string::*;
use crate::config::{Settings, SettingsView};
use crate::error::{ServerError, ServerErrorView};
use crate::http::{HttpResponse, Request, RequestView, ResponseView};
use crate::json::{Json, JsonView, Object, opt_model, str_view};
use crate::json_text::parsed_json;
use crate::number::{decimal, decimal_text};
use crate::runtime::{
    CommandLine, CommandView, CoreAction, CoreActionView, CoreError, CoreErrorView, Poll, child_view,
    core_error_text, output_view, start_runs_the_needed_core, version_in, version_text,
};
use crate::session::{
    Diagnostics, DiagnosticsView, State, StateView, api_settings, api_settings_view, core_name, detail_view, is_random_id, match_session,
    mismatch_view, new_session_id, opt_tags, refusal, refusal_view, report_fits_together, report_view,
    reported_state,
    response_from_state, session_extra,
};
use crate::text::{starts_with, text_eq, utf8_lossy};
use crate::xray_config::{
    ConfigErrorView, CoreKind, XrayConfig, XrayConfigView, config_error_text,
    controller_view,
};

verus! {

/// The body of a request that belongs to a session.
#[derive(Clone, Debug, PartialEq, Eq)]
pub struct SessionBody {
    pub session_id: u128,
    pub config: String,
    pub inbounds: Option<Vec<String>>,
}

/// What the body of a request says.
#[verifier::ext_equal]
pub struct BodyView {
    pub session_id: u128,
    pub config: Seq<char>,
    pub inbounds: Option<Seq<Seq<char>>>,
}

impl View for SessionBody {
    type V = BodyView;

    open spec fn view(&self) -> BodyView {
        BodyView {
            session_id: self.session_id,
            config: self.config@,
            inbounds: opt_tags(self.inbounds),
        }
    }
}

/// The view of a body, or of the message why there is none.
pub open spec fn body_view(body: Result<SessionBody, String>) -> Result<BodyView, Seq<char>> {
    match body {
        Ok(b) => Ok(b@),
        Err(message) => Err(message@),
    }
}

/// The address on which the service listens.
pub open spec fn address_view(settings: SettingsView) -> Seq<char> {
    settings.service_host + ":"@ + decimal(settings.service_port as nat)
}

/// The address on which the service listens. Without a client certificate there
/// is no service.
pub fn listen_address(settings: &Settings) -> (address: Result<String, ServerError>)
    ensures
        match address {
            Ok(a) => settings@.ssl_client_cert_file is Some && a@ == address_view(settings@),
            Err(error) => settings@.ssl_client_cert_file is None && error@ == ServerErrorView::Tls(
                "SSL_CLIENT_CERT_FILE is required for the REST node service."@,
            ),
        },
{
    if settings.ssl_client_cert_file.is_none() {
        return Err(
            ServerError::Tls(
                "SSL_CLIENT_CERT_FILE is required for the REST node service.".to_owned(),
            ),
        );
    }
    let mut address = settings.service_host.clone();
    address.append(":");
    address.append(decimal_text(settings.service_port as u64).as_str());
    Ok(address)
}

/// Whether a request asks for the log stream.
pub fn wants_logs(request: &Request) -> (yes: bool)
    ensures
        yes == "/logs"@.is_prefix_of(request@.path),
{
    starts_with(request.path.as_str(), "/logs")
}

/// How far the work on a request is.
#[derive(Debug)]
pub enum Task {
    /// A session is to be opened; the process has to be asked for first.
    Opening(String),
    /// A session is to be opened; the process has to be killed first.
    Reopening(String),
    /// The session is to be closed; the process has to be killed first.
    Closing,
    /// The core is to be stopped; the process has to be killed first.
    Stopping,
    /// A core is to be started; the process has to be asked for first.
    Starting(XrayConfig),
    /// A core is to be started anew; the process has to be killed first.
    Restarting(XrayConfig),
    /// A core is being started.
    Launching,
    /// The node reports; it has to be inspected first.
    Reporting(Option<Json>),
    /// The response was given.
    Over,
}

/// How far the work on a request is.
#[verifier::ext_equal]
pub enum TaskView {
    Opening(Seq<char>),
    Reopening(Seq<char>),
    Closing,
    Stopping,
    Starting(XrayConfigView),
    Restarting(XrayConfigView),
    Launching,
    Reporting(Option<JsonView>),
    Over,
}

impl View for Task {
    type V = TaskView;

    open spec fn view(&self) -> TaskView {
        match self {
            Task::Opening(ip) => TaskView::Opening(ip@),
            Task::Reopening(ip) => TaskView::Reopening(ip@),
            Task::Closing => TaskView::Closing,
            Task::Stopping => TaskView::Stopping,
            Task::Starting(config) => TaskView::Starting(config@),
            Task::Restarting(config) => TaskView::Restarting(config@),
            Task::Launching => TaskView::Launching,
            Task::Reporting(extra) => TaskView::Reporting(opt_model(*extra)),
            Task::Over => TaskView::Over,
        }
    }
}

/// What has to be done next for a request.
#[derive(Debug)]
pub enum Action {
    /// Ask for the state of the process.
    Poll,
    /// Ask for the state of the process three times, and gather the diagnostics.
    Inspect,
    /// Kill the process and wait for its end.
    Kill,
    /// Run the version command of a core.
    DetectVersion(CoreKind, CommandLine),
    /// Start the process of a core.
    Spawn(CommandLine),
    /// Send the response.
    Respond(HttpResponse),
    /// Nothing: what was handed back had not been asked for.
    Ignored,
}

/// What has to be done next for a request.
#[verifier::ext_equal]
pub enum ActionView {
    Poll,
    Inspect,
    Kill,
    DetectVersion(CoreKind, CommandView),
    Spawn(CommandView),
    Respond(ResponseView),
    Ignored,
}

impl View for Action {
    type V = ActionView;

    open spec fn view(&self) -> ActionView {
        match self {
            Action::Poll => ActionView::Poll,
            Action::Inspect => ActionView::Inspect,
            Action::Kill => ActionView::Kill,
            Action::DetectVersion(core, command) => ActionView::DetectVersion(*core, command@),
            Action::Spawn(command) => ActionView::Spawn(command@),
            Action::Respond(response) => ActionView::Respond(response@),
            Action::Ignored => ActionView::Ignored,
        }
    }
}

/// What came of an action.
#[derive(Debug)]
pub enum Event {
    Polled(Poll),
    Inspected(Poll, Poll, Poll, Diagnostics),
    Killed,
    Version(Result<Vec<u8>, CoreError>),
    /// The process id, or why there is none, and the time in seconds since the
    /// Unix epoch.
    Spawned(Result<u32, CoreError>, Option<u64>),
}

/// What came of an action.
#[verifier::ext_equal]
pub enum EventView {
    Polled(Poll),
    Inspected(Poll, Poll, Poll, DiagnosticsView),
    Killed,
    Version(Result<Seq<u8>, CoreErrorView>),
    Spawned(Result<u32, CoreErrorView>, Option<u64>),
}

impl View for Event {
    type V = EventView;

    open spec fn view(&self) -> EventView {
        match self {
            Event::Polled(poll) => EventView::Polled(*poll),
            Event::Inspected(a, b, c, diagnostics) => EventView::Inspected(
                *a,
                *b,
                *c,
                diagnostics@,
            ),
            Event::Killed => EventView::Killed,
            Event::Version(output) => EventView::Version(output_view(*output)),
            Event::Spawned(child, now) => EventView::Spawned(child_view(*child), *now),
        }
    }
}

/// A turn that ends with a response.
pub open spec fn answered(state: StateView, response: ResponseView) -> (
    StateView,
    TaskView,
    ActionView,
) {
    (state, TaskView::Over, ActionView::Respond(response))
}

/// A turn after which the node reports.
pub open spec fn reporting(state: StateView, extra: Option<JsonView>) -> (
    StateView,
    TaskView,
    ActionView,
) {
    (state, TaskView::Reporting(extra), ActionView::Inspect)
}

/// The refusal of a configuration.
pub open spec fn config_refusal(error: ConfigErrorView) -> ResponseView {
    ResponseView {
        status: 422,
        body: detail_view(
            JsonView::Object(map!["config"@ => str_view(config_error_text(error))]),
        ),
    }
}

/// Whether a path belongs to a session.
pub open spec fn is_session_path(path: Seq<char>) -> bool {
    path == "/ping"@ || path == "/start"@ || path == "/stop"@ || path == "/restart"@
}

/// The first turn of a request of the session, once its session id was accepted.
/// `config` is what became of the configuration that it holds.
pub open spec fn session_turn(
    path: Seq<char>,
    state: StateView,
    config: Result<XrayConfigView, ConfigErrorView>,
) -> (StateView, TaskView, ActionView) {
    if path == "/ping"@ {
        answered(state, (ResponseView { status: 200, body: JsonView::Object(Map::empty()) }))
    } else if path == "/stop"@ {
        (state, TaskView::Stopping, ActionView::Kill)
    } else {
        match config {
            Err(error) => answered(state, config_refusal(error)),
            Ok(c) => if path == "/start"@ {
                (state, TaskView::Starting(c), ActionView::Poll)
            } else {
                (state, TaskView::Restarting(c), ActionView::Kill)
            },
        }
    }
}

/// The first turn of a request. `id` is the id of a session that is opened in
/// this turn, and `config` is what became of the configuration in the body.
pub open spec fn begin_view(
    request: RequestView,
    body: Result<BodyView, Seq<char>>,
    state: StateView,
    peer_ip: Seq<char>,
    id: u128,
    config: Result<XrayConfigView, ConfigErrorView>,
) -> (StateView, TaskView, ActionView) {
    let path = request.path;
    if request.method != "POST"@ {
        answered(state, refusal_view(405, "Method not allowed"@))
    } else if path == "/"@ {
        reporting(state, None)
    } else if path == "/connect"@ {
        if state.connected {
            (state, TaskView::Opening(peer_ip), ActionView::Poll)
        } else {
            reporting(state.opened(peer_ip, id), Some(session_extra(id)))
        }
    } else if path == "/disconnect"@ {
        (state, TaskView::Closing, ActionView::Kill)
    } else if is_session_path(path) {
        match body {
            Err(message) => answered(state, refusal_view(422, message)),
            Ok(b) => if state.has_session(b.session_id) {
                session_turn(path, state, config)
            } else {
                answered(state, mismatch_view())
            },
        }
    } else {
        answered(state, refusal_view(404, "Not found"@))
    }
}

/// What becomes of the configuration in a body.
pub open spec fn body_config(
    body: Result<BodyView, Seq<char>>,
    state: StateView,
    settings: SettingsView,
) -> Result<XrayConfigView, ConfigErrorView> {
    controller_view(
        parsed_json((body->Ok_0).config),
        api_settings_view(state, settings, (body->Ok_0).inbounds),
    )
}

/// The turn after the core has said what is to be done.
pub open spec fn core_turn(state: StateView, action: CoreActionView) -> (
    StateView,
    TaskView,
    ActionView,
) {
    match action {
        CoreActionView::DetectVersion(core, command) => (
            state,
            TaskView::Launching,
            ActionView::DetectVersion(core, command),
        ),
        CoreActionView::Spawn(command) => (
            state,
            TaskView::Launching,
            ActionView::Spawn(command),
        ),
        CoreActionView::Done(Ok(())) => reporting(state, None),
        CoreActionView::Done(Err(error)) => answered(
            state,
            refusal_view(503, core_error_text(error)),
        ),
        CoreActionView::Ignored => (state, TaskView::Launching, ActionView::Ignored),
    }
}

/// A turn of a request after the first. `id` is the id of a session that is
/// opened in this turn.
pub open spec fn advance_view(task: TaskView, event: EventView, state: StateView, id: u128) -> (
    StateView,
    TaskView,
    ActionView,
) {
    match (task, event) {
        (TaskView::Opening(ip), EventView::Polled(poll)) => {
            let seen = StateView { core: state.core.observed(poll), ..state };
            if state.core.started(poll) {
                (seen, TaskView::Reopening(ip), ActionView::Kill)
            } else {
                reporting(seen.opened(ip, id), Some(session_extra(id)))
            }
        },
        (TaskView::Reopening(ip), EventView::Killed) => {
            let stopped = StateView { core: state.core.stop(), ..state };
            reporting(stopped.opened(ip, id), Some(session_extra(id)))
        },
        (TaskView::Closing, EventView::Killed) => reporting(state.closed(), None),
        (TaskView::Stopping, EventView::Killed) => reporting(
            StateView { core: state.core.stop(), ..state },
            None,
        ),
        (TaskView::Starting(config), EventView::Polled(poll)) => {
            let (core, action) = state.core.start(config, poll);
            core_turn(StateView { core, ..state }, action)
        },
        (TaskView::Restarting(config), EventView::Killed) => {
            let (core, action) = state.core.stop().start(config, Poll::Exited);
            core_turn(StateView { core, ..state }, action)
        },
        (TaskView::Launching, EventView::Version(output)) => {
            let (core, action) = state.core.version_output(output);
            core_turn(StateView { core, ..state }, action)
        },
        (TaskView::Launching, EventView::Spawned(child, now)) => {
            let (core, action) = state.core.spawned(child, now);
            core_turn(StateView { core, ..state }, action)
        },
        (TaskView::Reporting(extra), EventView::Inspected(a, b, c, diagnostics)) => answered(
            reported_state(state, (a, b, c)),
            report_view(state, (a, b, c), diagnostics, extra),
        ),
        _ => (state, task, ActionView::Ignored),
    }
}

/// The first turn of a request of the session, once its session id was accepted.
fn begin_session(path: &str, body: &SessionBody, state: &State, settings: &Settings) -> (turn: (
    Task,
    Action,
))
    ensures
        (state@, turn.0@, turn.1@) == session_turn(
            path@,
            state@,
            controller_view(
                parsed_json(body@.config),
                api_settings_view(state@, settings@, body@.inbounds),
            ),
        ),
{
    if text_eq(path, "/ping") {
        return (Task::Over, Action::Respond(HttpResponse::json(200, Json::Object(Object::new()))));
    }
    if text_eq(path, "/stop") {
        return (Task::Stopping, Action::Kill);
    }
    let api = match &body.inbounds {
        Some(list) => api_settings(state, settings, Some(list)),
        None => api_settings(state, settings, None),
    };
    match XrayConfig::from_controller_json(body.config.as_str(), &api) {
        Ok(config) => if text_eq(path, "/start") {
            (Task::Starting(config), Action::Poll)
        } else {
            (Task::Restarting(config), Action::Kill)
        },
        Err(error) => {
            let reason = Json::Object(Object::new().with("config", Json::Str(error.message())));
            let body = Json::Object(Object::new().with("detail", reason));
            (Task::Over, Action::Respond(HttpResponse::json(422, body)))
        },
    }
}

/// Takes up a request from a controller at an address, with a given id for a
/// session that it may open. `body` is its body, or the message why it cannot be
/// read.
pub fn begin_with_id(
    request: &Request,
    body: &Result<SessionBody, String>,
    state: &mut State,
    settings: &Settings,
    peer_ip: &str,
    id: u128,
) -> (turn: (Task, Action))
    ensures
        (final(state)@, turn.0@, turn.1@) == begin_view(
            request@,
            body_view(*body),
            old(state)@,
            peer_ip@,
            id,
            body_config(body_view(*body), old(state)@, settings@),
        ),
{
    let path = request.path.as_str();
    if !text_eq(request.method.as_str(), "POST") {
        return (Task::Over, Action::Respond(refusal(405, "Method not allowed")));
    }
    if text_eq(path, "/") {
        return (Task::Reporting(None), Action::Inspect);
    }
    if text_eq(path, "/connect") {
        if state.connected {
            return (Task::Opening(peer_ip.to_owned()), Action::Poll);
        }
        let extra = state.open_session(peer_ip.to_owned(), id);
        return (Task::Reporting(Some(extra)), Action::Inspect);
    }
    if text_eq(path, "/disconnect") {
        return (Task::Closing, Action::Kill);
    }
    if text_eq(path, "/ping") || text_eq(path, "/start") || text_eq(path, "/stop") || text_eq(
        path,
        "/restart",
    ) {
        match body {
            Err(message) => (Task::Over, Action::Respond(refusal(422, message.as_str()))),
            Ok(b) => match match_session(state, b.session_id) {
                Err(response) => (Task::Over, Action::Respond(response)),
                Ok(()) => begin_session(path, b, state, settings),
            },
        }
    } else {
        (Task::Over, Action::Respond(refusal(404, "Not found")))
    }
}

/// Takes up a request from a controller at an address. A session that it opens
/// gets a random id.
pub fn begin(
    request: &Request,
    body: &Result<SessionBody, String>,
    state: &mut State,
    settings: &Settings,
    peer_ip: &str,
) -> (turn: (Task, Action))
    ensures
        exists|id: u128|
            (request@.path == "/connect"@ ==> is_random_id(id)) && (
                final(state)@,
                turn.0@,
                turn.1@,
            ) == #[trigger] begin_view(
                request@,
                body_view(*body),
                old(state)@,
                peer_ip@,
                id,
                body_config(body_view(*body), old(state)@, settings@),
            ),
{
    let id: u128 = if text_eq(request.path.as_str(), "/connect") {
        new_session_id()
    } else {
        0
    };
    begin_with_id(request, body, state, settings, peer_ip, id)
}

/// The answer to a request that is refused whatever the state of the node: for
/// its method, for its path, or because its body cannot be read.
pub open spec fn stateless_view(request: RequestView, body: Result<BodyView, Seq<char>>) -> Option<
    ResponseView,
> {
    let path = request.path;
    if request.method != "POST"@ {
        Some(refusal_view(405, "Method not allowed"@))
    } else if path == "/"@ || path == "/connect"@ || path == "/disconnect"@ {
        None
    } else if is_session_path(path) {
        match body {
            Err(message) => Some(refusal_view(422, message)),
            Ok(_) => None,
        }
    } else {
        Some(refusal_view(404, "Not found"@))
    }
}

/// Refuses a request without looking at the state of the node.
pub fn refuse_without_state(request: &Request, body: &Result<SessionBody, String>) -> (response:
    Option<HttpResponse>)
    ensures
        match response {
            Some(r) => stateless_view(request@, body_view(*body)) == Some(r@),
            None => stateless_view(request@, body_view(*body)) is None,
        },
{
    let path = request.path.as_str();
    if !text_eq(request.method.as_str(), "POST") {
        return Some(refusal(405, "Method not allowed"));
    }
    if text_eq(path, "/") || text_eq(path, "/connect") || text_eq(path, "/disconnect") {
        return None;
    }
    if text_eq(path, "/ping") || text_eq(path, "/start") || text_eq(path, "/stop") || text_eq(
        path,
        "/restart",
    ) {
        match body {
            Err(message) => Some(refusal(422, message.as_str())),
            Ok(_) => None,
        }
    } else {
        Some(refusal(404, "Not found"))
    }
}

/// The turn after the core has said what is to be done.
fn after_core(action: CoreAction) -> (turn: (Task, Action))
    ensures
        forall|state: StateView|
            (state, turn.0@, turn.1@) == #[trigger] core_turn(state, action@),
{
    match action {
        CoreAction::DetectVersion(core, command) => (
            Task::Launching,
            Action::DetectVersion(core, command),
        ),
        CoreAction::Spawn(command) => (Task::Launching, Action::Spawn(command)),
        CoreAction::Done(Ok(())) => (Task::Reporting(None), Action::Inspect),
        CoreAction::Done(Err(error)) => (
            Task::Over,
            Action::Respond(refusal(503, error.message().as_str())),
        ),
        CoreAction::Ignored => (Task::Launching, Action::Ignored),
    }
}

/// Goes on with a request after an action was performed, with a given id for a
/// session that it may open.
pub fn advance_with_id(task: Task, event: Event, state: &mut State, id: u128) -> (turn: (
    Task,
    Action,
))
    ensures
        (final(state)@, turn.0@, turn.1@) == advance_view(task@, event@, old(state)@, id),
{
    match (task, event) {
        (Task::Opening(ip), Event::Polled(poll)) => {
            if state.core.is_started(poll) {
                (Task::Reopening(ip), Action::Kill)
            } else {
                let extra = state.open_session(ip, id);
                (Task::Reporting(Some(extra)), Action::Inspect)
            }
        },
        (Task::Reopening(ip), Event::Killed) => {
            state.core.stop();
            let extra = state.open_session(ip, id);
            (Task::Reporting(Some(extra)), Action::Inspect)
        },
        (Task::Closing, Event::Killed) => {
            state.close_session();
            (Task::Reporting(None), Action::Inspect)
        },
        (Task::Stopping, Event::Killed) => {
            state.core.stop();
            (Task::Reporting(None), Action::Inspect)
        },
        (Task::Starting(config), Event::Polled(poll)) => {
            let action = state.core.start(&config, poll);
            after_core(action)
        },
        (Task::Restarting(config), Event::Killed) => {
            let action = state.core.restart(&config);
            after_core(action)
        },
        (Task::Launching, Event::Version(output)) => {
            let action = state.core.version_output(output);
            after_core(action)
        },
        (Task::Launching, Event::Spawned(child, now)) => {
            let action = state.core.spawned(child, now);
            after_core(action)
        },
        (Task::Reporting(extra), Event::Inspected(a, b, c, diagnostics)) => {
            let response = response_from_state(state, (a, b, c), &diagnostics, extra);
            (Task::Over, Action::Respond(response))
        },
        (task, _) => (task, Action::Ignored),
    }
}

/// Goes on with a request after an action was performed. A session that it opens
/// gets a random id.
pub fn advance(task: Task, event: Event, state: &mut State) -> (turn: (Task, Action))
    ensures
        exists|id: u128|
            (task@ is Opening || task@ is Reopening ==> is_random_id(id)) && (
                final(state)@,
                turn.0@,
                turn.1@,
            ) == #[trigger] advance_view(task@, event@, old(state)@, id),
{
    let id: u128 = match &task {
        Task::Opening(_) => new_session_id(),
        Task::Reopening(_) => new_session_id(),
        _ => 0,
    };
    advance_with_id(task, event, state, id)
}

/// Anything but a POST is refused, and changes nothing.
pub proof fn only_post_is_allowed(
    request: RequestView,
    body: Result<BodyView, Seq<char>>,
    state: StateView,
    peer_ip: Seq<char>,
    id: u128,
    config: Result<XrayConfigView, ConfigErrorView>,
)
    requires
        request.method != "POST"@,
    ensures
        begin_view(request, body, state, peer_ip, id, config) == answered(
            state,
            refusal_view(405, "Method not allowed"@),
        ),
{
}

/// A path that the service does not know is not found, and changes nothing.
pub proof fn unknown_path_is_not_found(
    request: RequestView,
    body: Result<BodyView, Seq<char>>,
    state: StateView,
    peer_ip: Seq<char>,
    id: u128,
    config: Result<XrayConfigView, ConfigErrorView>,
)
    requires
        request.method == "POST"@,
        request.path != "/"@,
        request.path != "/connect"@,
        request.path != "/disconnect"@,
        !is_session_path(request.path),
    ensures
        begin_view(request, body, state, peer_ip, id, config) == answered(
            state,
            refusal_view(404, "Not found"@),
        ),
{
}

pub proof fn lemma_paths()
    ensures
        !is_session_path("/"@),
        !is_session_path("/connect"@),
        !is_session_path("/disconnect"@),
        "/connect"@ != "/"@,
        "/disconnect"@ != "/"@,
        "/disconnect"@ != "/connect"@,
{
    reveal_strlit("/");
    reveal_strlit("/connect");
    reveal_strlit("/disconnect");
    reveal_strlit("/ping");
    reveal_strlit("/start");
    reveal_strlit("/stop");
    reveal_strlit("/restart");
    assert("/"@.len() == 1);
    assert("/connect"@.len() == 8);
    assert("/disconnect"@.len() == 11);
    assert("/ping"@.len() == 5);
    assert("/start"@.len() == 6);
    assert("/stop"@.len() == 5);
    assert("/restart"@.len() == 8);
    assert("/connect"@[1] != "/restart"@[1]);
}

/// A request of a session other than the current one is refused, whatever it
/// asks for, and changes nothing.
pub proof fn other_session_is_refused(
    request: RequestView,
    body: BodyView,
    state: StateView,
    peer_ip: Seq<char>,
    id: u128,
    config: Result<XrayConfigView, ConfigErrorView>,
)
    requires
        request.method == "POST"@,
        is_session_path(request.path),
        !state.has_session(body.session_id),
    ensures
        begin_view(request, Ok(body), state, peer_ip, id, config) == answered(
            state,
            mismatch_view(),
        ),
{
    lemma_paths();
}

/// The work on a connect request, from its first turn to its report: the process
/// is asked for if a controller is connected, and is killed if it runs.
pub open spec fn connected_state(
    state: StateView,
    peer_ip: Seq<char>,
    id: u128,
    poll: Poll,
) -> StateView {
    let first = if state.connected {
        advance_view(TaskView::Opening(peer_ip), EventView::Polled(poll), state, id)
    } else {
        reporting(state.opened(peer_ip, id), Some(session_extra(id)))
    };
    if first.1 is Reopening {
        advance_view(first.1, EventView::Killed, first.0, id).0
    } else {
        first.0
    }
}

/// A controller that connects gets a session, and no other session is valid from
/// then on. A core that ran for the controller before is stopped.
pub proof fn connect_opens_the_only_session(
    state: StateView,
    peer_ip: Seq<char>,
    id: u128,
    other: u128,
    poll: Poll,
)
    requires
        other != id,
    ensures
        ({
            let after = connected_state(state, peer_ip, id, poll);
            &&& after.connected
            &&& after.client_ip == Some(peer_ip)
            &&& after.has_session(id)
            &&& !after.has_session(other)
            &&& state.connected ==> !after.core.started(Poll::Running)
            &&& !state.connected ==> after.core == state.core
        }),
{
}

/// The session that was opened can be used: a ping with its id is answered.
pub proof fn opened_session_is_accepted(
    request: RequestView,
    body: BodyView,
    state: StateView,
    peer_ip: Seq<char>,
    fresh: u128,
    config: Result<XrayConfigView, ConfigErrorView>,
)
    requires
        request.method == "POST"@,
        request.path == "/ping"@,
    ensures
        ({
            let opened = state.opened(peer_ip, body.session_id);
            begin_view(request, Ok(body), opened, peer_ip, fresh, config) == answered(
                opened,
                (ResponseView { status: 200, body: JsonView::Object(Map::empty()) }),
            )
        }),
{
    lemma_paths();
}

/// After a disconnect no session is valid, no controller is known and no core
/// runs.
pub proof fn disconnect_ends_everything(state: StateView, id: u128, fresh: u128, poll: Poll)
    ensures
        ({
            let (after, task, action) = advance_view(
                TaskView::Closing,
                EventView::Killed,
                state,
                fresh,
            );
            &&& !after.connected
            &&& after.client_ip is None
            &&& !after.has_session(id)
            &&& !after.core.started(poll)
            &&& action == ActionView::Inspect
        }),
{
}

/// A start while a core runs is answered with an error and leaves the core alone.
pub proof fn second_start_is_refused(
    state: StateView,
    config: XrayConfigView,
    poll: Poll,
    fresh: u128,
)
    requires
        state.core.started(poll),
    ensures
        advance_view(TaskView::Starting(config), EventView::Polled(poll), state, fresh) == answered(
            state,
            refusal_view(503, "Core is started already"@),
        ),
{
}

/// A restart does what a stop and then a start do.
pub proof fn restart_is_stop_then_start(
    state: StateView,
    config: XrayConfigView,
    poll: Poll,
    fresh: u128,
)
    ensures
        ({
            let stopped = advance_view(TaskView::Stopping, EventView::Killed, state, fresh).0;
            advance_view(TaskView::Restarting(config), EventView::Killed, state, fresh)
                == advance_view(
                TaskView::Starting(config),
                EventView::Polled(poll),
                stopped,
                fresh,
            )
        }),
{
}

/// An event that was not asked for changes nothing.
pub proof fn finished_request_ignores_events(event: EventView, state: StateView, fresh: u128)
    ensures
        advance_view(TaskView::Over, event, state, fresh) == (
            state,
            TaskView::Over,
            ActionView::Ignored,
        ),
{
}

/// A refused configuration is answered with its reason, and nothing is started
/// or stopped for it.
pub proof fn refused_config_changes_nothing(
    request: RequestView,
    body: BodyView,
    state: StateView,
    peer_ip: Seq<char>,
    fresh: u128,
    error: ConfigErrorView,
)
    requires
        request.method == "POST"@,
        request.path == "/start"@ || request.path == "/restart"@,
        state.has_session(body.session_id),
    ensures
        begin_view(request, Ok(body), state, peer_ip, fresh, Err(error)) == answered(
            state,
            config_refusal(error),
        ),
{
    lemma_paths();
    reveal_strlit("/ping");
    reveal_strlit("/start");
    reveal_strlit("/stop");
    reveal_strlit("/restart");
    assert("/ping"@.len() == 5);
    assert("/start"@.len() == 6);
    assert("/stop"@.len() == 5);
    assert("/restart"@.len() == 8);
}

/// Whether a state is that of a connected controller or that of none: it is
/// connected if and only if there is a session, and then its address is known.
pub open spec fn is_consistent(state: StateView) -> bool {
    &&& state.connected <==> state.session_id is Some
    &&& state.connected <==> state.client_ip is Some
}

/// A node that was just started has a consistent state, and every turn of every
/// request keeps it so.
pub proof fn state_stays_consistent(
    request: RequestView,
    body: Result<BodyView, Seq<char>>,
    config: Result<XrayConfigView, ConfigErrorView>,
    task: TaskView,
    event: EventView,
    state: StateView,
    peer_ip: Seq<char>,
    id: u128,
)
    requires
        is_consistent(state),
    ensures
        is_consistent(
            StateView { connected: false, client_ip: None, session_id: None, core: state.core },
        ),
        is_consistent(begin_view(request, body, state, peer_ip, id, config).0),
        is_consistent(advance_view(task, event, state, id).0),
{
}

/// A request that is refused without looking at the state is refused in the same
/// way with it, and changes nothing.
pub proof fn stateless_refusals_agree(
    request: RequestView,
    body: Result<BodyView, Seq<char>>,
    state: StateView,
    peer_ip: Seq<char>,
    id: u128,
    config: Result<XrayConfigView, ConfigErrorView>,
)
    requires
        stateless_view(request, body) is Some,
    ensures
        begin_view(request, body, state, peer_ip, id, config) == answered(
            state,
            stateless_view(request, body)->0,
        ),
{
}

/// A start request whose version command and whose process succeed is answered
/// with a report of the running core: the core that the configuration needs is
/// named, and the Xray API is available if and only if that core is Xray.
pub proof fn start_is_answered_with_the_running_core(
    state: StateView,
    config: XrayConfigView,
    core: CoreKind,
    poll: Poll,
    output: Seq<u8>,
    version: Seq<char>,
    pid: u32,
    now: Option<u64>,
    diagnostics: DiagnosticsView,
    fresh: u128,
)
    requires
        !state.core.started(poll),
        config.core_kind == Some(core),
        version_in(core, utf8_lossy(output)) == Some(version),
    ensures
        ({
            let one = advance_view(
                TaskView::Starting(config),
                EventView::Polled(poll),
                state,
                fresh,
            );
            let two = advance_view(one.1, EventView::Version(Ok(output)), one.0, fresh);
            let three = advance_view(two.1, EventView::Spawned(Ok(pid), now), two.0, fresh);
            let (after, task, action) = advance_view(
                three.1,
                EventView::Inspected(Poll::Running, Poll::Running, Poll::Running, diagnostics),
                three.0,
                fresh,
            );
            let response = action->Respond_0;
            &&& one.2 is DetectVersion
            &&& two.2 is Spawn
            &&& three.2 is Inspect
            &&& task == TaskView::Over
            &&& action is Respond
            &&& response.status == 200
            &&& response.body.get("started"@) == Some(JsonView::Bool(true))
            &&& response.body.get("core_kind"@) == Some(str_view(core_name(core)))
            &&& response.body.get("xray_api"@) == Some(JsonView::Bool(core == CoreKind::Xray))
            &&& response.body.get("core_version"@) == Some(str_view(version_text(core, version)))
            &&& after.core.role.child() == Some((core, pid))
        }),
{
    start_runs_the_needed_core(state.core, config, core, poll, output, version, pid, now);
    let detecting = state.core.start(config, poll).0;
    let spawning = detecting.version_output(Ok(output)).0;
    let running = spawning.spawned(Ok(pid), now).0;
    report_fits_together(StateView { core: running, ..state }, Poll::Running, diagnostics);
}

} // verus!
