//! The proxy core that the node runs: what is started, how, and what it logs.
//!
//! [`XrayCore`] decides; processes are spawned, polled and killed around it. It
//! hands out a [`CoreAction`] to perform and takes the outcome back.
use vstd::prelude::*;
use vstd::string::*;
use std::collections::VecDeque;
use crate::config::{Settings, SettingsView};
use crate::json_text::json_text;
use crate::number::{parse_unsigned, unsigned_value};
use crate::text::{
    after_prefix, lines, lines_of, lossy_text, strip_prefix, text_eq, texts, utf8_lossy, words,
    words_of,
};
use crate::xray_config::{
    ConfiguredInboundPort, CoreKind, PortView, XrayConfig, XrayConfigView, configured_ports,
    ports_model,
};

verus! {

/// How many log lines are kept.
pub const LOG_BUFFER_LIMIT: usize = 100;

/// How far the lines that left a log are counted.
pub const LOG_COUNT_LIMIT: u64 = 0xffff_ffff_ffff_0000;

/// How long a version command may take, in nanoseconds.
pub const CORE_VERSION_TIMEOUT: u64 = 3_000_000_000;

/// How long the list of installed cores stays valid, in nanoseconds.
pub const CORE_INSTALL_CACHE_TTL: u64 = 60_000_000_000;

/// Why a core was not started.
#[derive(Debug)]
pub enum CoreError {
    Io(String),
    VersionNotFound(&'static str),
    VersionTimeout(&'static str),
    AlreadyStarted,
    NoCoreRequired,
    StdinUnavailable,
}

/// What a core error says.
#[verifier::ext_equal]
pub enum CoreErrorView {
    Io(Seq<char>),
    VersionNotFound(Seq<char>),
    VersionTimeout(Seq<char>),
    AlreadyStarted,
    NoCoreRequired,
    StdinUnavailable,
}

impl View for CoreError {
    type V = CoreErrorView;

    open spec fn view(&self) -> CoreErrorView {
        match self {
            CoreError::Io(message) => CoreErrorView::Io(message@),
            CoreError::VersionNotFound(core) => CoreErrorView::VersionNotFound(core@),
            CoreError::VersionTimeout(core) => CoreErrorView::VersionTimeout(core@),
            CoreError::AlreadyStarted => CoreErrorView::AlreadyStarted,
            CoreError::NoCoreRequired => CoreErrorView::NoCoreRequired,
            CoreError::StdinUnavailable => CoreErrorView::StdinUnavailable,
        }
    }
}

/// The message of a core error.
pub open spec fn core_error_text(error: CoreErrorView) -> Seq<char> {
    match error {
        CoreErrorView::Io(message) => message,
        CoreErrorView::VersionNotFound(core) => "Failed to detect "@ + core + " version"@,
        CoreErrorView::VersionTimeout(core) => core + " version detection timed out"@,
        CoreErrorView::AlreadyStarted => "Core is started already"@,
        CoreErrorView::NoCoreRequired => "No core is required for the selected inbounds"@,
        CoreErrorView::StdinUnavailable => "Core stdin is unavailable"@,
    }
}

impl CoreError {
    /// The message of the error.
    pub fn message(&self) -> (text: String)
        ensures
            text@ == core_error_text(self@),
    {
        match self {
            CoreError::Io(message) => message.clone(),
            CoreError::VersionNotFound(core) => {
                let mut text = "Failed to detect ".to_owned();
                text.append(core);
                text.append(" version");
                text
            },
            CoreError::VersionTimeout(core) => {
                let mut text = String::new();
                text.append(core);
                text.append(" version detection timed out");
                text
            },
            CoreError::AlreadyStarted => "Core is started already".to_owned(),
            CoreError::NoCoreRequired => "No core is required for the selected inbounds".to_owned(),
            CoreError::StdinUnavailable => "Core stdin is unavailable".to_owned(),
        }
    }
}

/// What is known of a core's executable.
#[derive(Clone, Debug, PartialEq, Eq)]
pub struct CoreInstallInfo {
    pub installed: bool,
    pub version: Option<String>,
    pub path: Option<String>,
    pub source: String,
}

/// What an install entry says.
#[verifier::ext_equal]
pub struct InstallView {
    pub installed: bool,
    pub version: Option<Seq<char>>,
    pub path: Option<Seq<char>>,
    pub source: Seq<char>,
}

impl View for CoreInstallInfo {
    type V = InstallView;

    open spec fn view(&self) -> InstallView {
        InstallView {
            installed: self.installed,
            version: crate::config::opt_text(self.version),
            path: crate::config::opt_text(self.path),
            source: self.source@,
        }
    }
}

/// The entry of a core that was not found.
pub open spec fn missing_view(name: Seq<char>, path: Seq<char>) -> InstallView {
    InstallView {
        installed: false,
        version: None,
        path: Some(path),
        source: "configured_path:"@ + name,
    }
}

/// The entry of a core, by what came of asking for its version.
pub open spec fn install_view(
    name: Seq<char>,
    path: Seq<char>,
    version: Option<Seq<char>>,
) -> InstallView {
    match version {
        Some(v) => InstallView {
            installed: true,
            version: Some(v),
            path: Some(path),
            source: "configured_path"@,
        },
        None => missing_view(name, path),
    }
}

/// The version in an answer, if it is one.
pub open spec fn version_ok(version: Result<String, CoreError>) -> Option<Seq<char>> {
    match version {
        Ok(v) => Some(v@),
        Err(_) => None,
    }
}

/// The entry of a core that was not found.
pub fn missing_core_info(name: &str, path: &str) -> (info: CoreInstallInfo)
    ensures
        info@ == missing_view(name@, path@),
{
    let mut source = "configured_path:".to_owned();
    source.append(name);
    CoreInstallInfo { installed: false, version: None, path: Some(path.to_owned()), source }
}

/// The entry of a core, by what came of asking for its version.
pub fn core_install_info(name: &str, path: &str, version: Result<String, CoreError>) -> (info:
    CoreInstallInfo)
    ensures
        info@ == install_view(name@, path@, version_ok(version)),
{
    match version {
        Ok(version) => CoreInstallInfo {
            installed: true,
            version: Some(version),
            path: Some(path.to_owned()),
            source: "configured_path".to_owned(),
        },
        Err(_) => missing_core_info(name, path),
    }
}

/// The cores that a node knows.
#[derive(Clone, Debug, PartialEq, Eq)]
pub struct InstalledCores {
    pub sing_box: CoreInstallInfo,
    pub xray: CoreInstallInfo,
}

/// What a list of installed cores says.
#[verifier::ext_equal]
pub struct InstalledView {
    pub sing_box: InstallView,
    pub xray: InstallView,
}

impl View for InstalledCores {
    type V = InstalledView;

    open spec fn view(&self) -> InstalledView {
        InstalledView { sing_box: self.sing_box@, xray: self.xray@ }
    }
}

impl InstalledCores {
    /// The entry of a core by its name.
    pub fn get(&self, name: &str) -> (info: Option<&CoreInstallInfo>)
        ensures
            info == (if name@ == "sing-box"@ {
                Some(&self.sing_box)
            } else if name@ == "xray"@ {
                Some(&self.xray)
            } else {
                None
            }),
    {
        if text_eq(name, "sing-box") {
            Some(&self.sing_box)
        } else if text_eq(name, "xray") {
            Some(&self.xray)
        } else {
            None
        }
    }
}

/// A whole number of seconds since the Unix epoch, out of nanoseconds; none if
/// the clock stands before the epoch.
pub fn unix_timestamp(since_epoch: Option<u128>) -> (seconds: Option<u64>)
    requires
        since_epoch matches Some(nanos) ==> nanos / 1_000_000_000 <= u64::MAX,
    ensures
        match since_epoch {
            Some(nanos) => seconds == Some((nanos / 1_000_000_000) as u64),
            None => seconds is None,
        },
{
    match since_epoch {
        Some(nanos) => Some((nanos / 1_000_000_000) as u64),
        None => None,
    }
}

/// The size of a memory page.
pub fn page_size_bytes() -> (size: u64)
    ensures
        size == 4096,
{
    4096
}

/// The resident pages in a `/proc/<pid>/statm` text: its second word.
pub open spec fn rss_pages_view(statm: Seq<char>) -> Option<nat> {
    let fields = words_of(statm);
    if fields.len() > 1 {
        unsigned_value(fields[1], u64::MAX as nat)
    } else {
        None
    }
}

/// The resident pages in a `/proc/<pid>/statm` text.
pub fn rss_pages(statm: &str) -> (pages: Option<u64>)
    ensures
        match pages {
            Some(n) => rss_pages_view(statm@) == Some(n as nat),
            None => rss_pages_view(statm@) is None,
        },
{
    let fields = words(statm);
    assert(texts(fields@) == words_of(statm@));
    if fields.len() > 1 {
        assert(texts(fields@)[1] == fields@[1]@);
        parse_unsigned(fields[1].as_str(), u64::MAX)
    } else {
        None
    }
}

/// The resident bytes in a `/proc/<pid>/statm` text. The number of pages has to
/// leave room for the number of bytes.
pub fn process_rss_bytes(statm: &str) -> (bytes: Option<u64>)
    requires
        rss_pages_view(statm@) matches Some(pages) ==> pages * 4096 <= u64::MAX,
    ensures
        match bytes {
            Some(n) => rss_pages_view(statm@) matches Some(pages) && n == pages * 4096,
            None => rss_pages_view(statm@) is None,
        },
{
    match rss_pages(statm) {
        Some(pages) => Some(pages * page_size_bytes()),
        None => None,
    }
}

/// What follows the version prefix of a core in a line.
pub open spec fn version_rest(core: CoreKind, line: Seq<char>) -> Option<Seq<char>> {
    match core {
        CoreKind::Xray => after_prefix(line, "Xray "@),
        CoreKind::SingBox => match after_prefix(line, "sing-box version "@) {
            Some(rest) => Some(rest),
            None => after_prefix(line, "sing-box "@),
        },
    }
}

/// What follows the version prefix in the first line that has it.
pub open spec fn first_version_rest(core: CoreKind, all: Seq<Seq<char>>) -> Option<Seq<char>>
    decreases all.len(),
{
    if all.len() == 0 {
        None
    } else {
        match version_rest(core, all[0]) {
            Some(rest) => Some(rest),
            None => first_version_rest(core, all.drop_first()),
        }
    }
}

/// The version in the output of a version command: the first word after the
/// prefix, in the first line that has the prefix.
pub open spec fn version_in(core: CoreKind, text: Seq<char>) -> Option<Seq<char>> {
    match first_version_rest(core, lines_of(text)) {
        Some(rest) => if words_of(rest).len() > 0 {
            Some(words_of(rest)[0])
        } else {
            None
        },
        None => None,
    }
}

/// How a core is called in version errors.
pub open spec fn display_name(core: CoreKind) -> Seq<char> {
    match core {
        CoreKind::Xray => "Xray"@,
        CoreKind::SingBox => "sing-box"@,
    }
}

/// The outcome of a version command, as bytes or as an error.
pub open spec fn output_view(output: Result<Vec<u8>, CoreError>) -> Result<
    Seq<u8>,
    CoreErrorView,
> {
    match output {
        Ok(bytes) => Ok(bytes@),
        Err(error) => Err(error@),
    }
}

/// The version that the outcome of a version command gives.
pub open spec fn detected_view(core: CoreKind, output: Result<Seq<u8>, CoreErrorView>) -> Result<
    Seq<char>,
    CoreErrorView,
> {
    match output {
        Ok(bytes) => match version_in(core, utf8_lossy(bytes)) {
            Some(version) => Ok(version),
            None => Err(CoreErrorView::VersionNotFound(display_name(core))),
        },
        Err(error) => Err(error),
    }
}

/// The view of a detected version.
pub open spec fn version_outcome(version: Result<String, CoreError>) -> Result<
    Seq<char>,
    CoreErrorView,
> {
    match version {
        Ok(v) => Ok(v@),
        Err(error) => Err(error@),
    }
}

fn version_rest_of(core: CoreKind, line: &str) -> (rest: Option<String>)
    ensures
        crate::config::opt_text(rest) == version_rest(core, line@),
{
    match core {
        CoreKind::Xray => strip_prefix(line, "Xray "),
        CoreKind::SingBox => match strip_prefix(line, "sing-box version ") {
            Some(rest) => Some(rest),
            None => strip_prefix(line, "sing-box "),
        },
    }
}

/// The version in the output of a version command.
pub fn find_version(core: CoreKind, text: &str) -> (version: Option<String>)
    ensures
        crate::config::opt_text(version) == version_in(core, text@),
{
    let found = lines(text);
    let ghost all = texts(found@);
    let mut i: usize = 0;
    assert(all.skip(0) =~= all);
    while i < found.len()
        invariant
            i <= found@.len(),
            all == texts(found@),
            all == lines_of(text@),
            first_version_rest(core, all) == first_version_rest(core, all.skip(i as int)),
        decreases found@.len() - i,
    {
        assert(all.skip(i as int)[0] == found@[i as int]@);
        assert(all.skip(i as int).drop_first() =~= all.skip(i + 1));
        match version_rest_of(core, found[i].as_str()) {
            Some(rest) => {
                let fields = words(rest.as_str());
                assert(texts(fields@) == words_of(rest@));
                if fields.len() > 0 {
                    assert(texts(fields@)[0] == fields@[0]@);
                    return Some(fields[0].clone());
                }
                return None;
            },
            None => {},
        }
        i = i + 1;
    }
    assert(all.skip(i as int) =~= Seq::empty());
    None
}

/// The version of Xray, by the outcome of its version command.
pub fn detect_xray_version(output: Result<Vec<u8>, CoreError>) -> (version: Result<
    String,
    CoreError,
>)
    ensures
        version_outcome(version) == detected_view(CoreKind::Xray, output_view(output)),
{
    match output {
        Ok(bytes) => match find_version(CoreKind::Xray, lossy_text(bytes.as_slice()).as_str()) {
            Some(version) => Ok(version),
            None => Err(CoreError::VersionNotFound("Xray")),
        },
        Err(error) => Err(error),
    }
}

/// The version of sing-box, by the outcome of its version command.
pub fn detect_sing_box_version(output: Result<Vec<u8>, CoreError>) -> (version: Result<
    String,
    CoreError,
>)
    ensures
        version_outcome(version) == detected_view(CoreKind::SingBox, output_view(output)),
{
    match output {
        Ok(bytes) => match find_version(CoreKind::SingBox, lossy_text(bytes.as_slice()).as_str()) {
            Some(version) => Ok(version),
            None => Err(CoreError::VersionNotFound("sing-box")),
        },
        Err(error) => Err(error),
    }
}

/// The state of a process that was asked for it.
#[derive(Clone, Copy, Debug, PartialEq, Eq, Structural)]
pub enum Poll {
    Running,
    Exited,
    Failed,
}

/// What to do next about a version command that was started.
#[derive(Debug)]
pub enum VersionWait {
    /// Take its output.
    Collect,
    /// Ask again after a short sleep.
    Sleep,
    /// Kill it and report the error.
    GiveUp(CoreError),
    /// Report that its state cannot be told.
    Abandon,
}

/// What to do about a version command, by its state and by the nanoseconds since
/// it was started.
pub fn version_wait(core: CoreKind, poll: Poll, elapsed: u64) -> (next: VersionWait)
    ensures
        match poll {
            Poll::Exited => next is Collect,
            Poll::Failed => next is Abandon,
            Poll::Running => if elapsed >= CORE_VERSION_TIMEOUT {
                next matches VersionWait::GiveUp(error) && error@ == CoreErrorView::VersionTimeout(
                    display_name(core),
                )
            } else {
                next is Sleep
            },
        },
{
    match poll {
        Poll::Exited => VersionWait::Collect,
        Poll::Failed => VersionWait::Abandon,
        Poll::Running => if elapsed >= CORE_VERSION_TIMEOUT {
            VersionWait::GiveUp(
                CoreError::VersionTimeout(
                    match core {
                        CoreKind::Xray => "Xray",
                        CoreKind::SingBox => "sing-box",
                    },
                ),
            )
        } else {
            VersionWait::Sleep
        },
    }
}

/// The last lines of a log, at most [`LOG_BUFFER_LIMIT`], and how many lines left
/// it before them.
#[derive(Debug)]
pub struct LogBuffer {
    lines: VecDeque<String>,
    dropped: u64,
}

/// What a log holds, and how many lines left it.
#[verifier::ext_equal]
pub struct LogView {
    pub lines: Seq<Seq<char>>,
    pub dropped: nat,
}

impl View for LogBuffer {
    type V = LogView;

    closed spec fn view(&self) -> LogView {
        LogView { lines: texts(self.lines@), dropped: self.dropped as nat }
    }
}

/// A log without lines.
pub open spec fn empty_log() -> LogView {
    LogView { lines: Seq::empty(), dropped: 0 }
}

/// A count of dropped lines, as far as it is kept.
pub open spec fn capped(count: nat) -> nat {
    if count < LOG_COUNT_LIMIT {
        count
    } else {
        LOG_COUNT_LIMIT as nat
    }
}

/// A log with one more line; the oldest line leaves a full log.
pub open spec fn pushed(log: LogView, line: Seq<char>) -> LogView {
    if log.lines.len() >= LOG_BUFFER_LIMIT {
        LogView {
            lines: log.lines.drop_first().push(line),
            dropped: capped(log.dropped + 1),
        }
    } else {
        LogView { lines: log.lines.push(line), dropped: log.dropped }
    }
}

/// A log after a number of lines were added in turn.
pub open spec fn pushed_all(log: LogView, added: Seq<Seq<char>>) -> LogView
    decreases added.len(),
{
    if added.len() == 0 {
        log
    } else {
        pushed(pushed_all(log, added.drop_last()), added.last())
    }
}

impl LogView {
    /// How many lines were ever added.
    pub open spec fn total(self) -> nat {
        self.dropped + self.lines.len()
    }

    /// The log with the lines of another one after its own.
    pub open spec fn absorbed(self, later: LogView) -> LogView {
        let all = pushed_all(self, later.lines);
        LogView { lines: all.lines, dropped: capped(all.dropped + later.dropped) }
    }
}

impl LogBuffer {
    #[verifier::type_invariant]
    spec fn bounded(self) -> bool {
        self.lines@.len() <= LOG_BUFFER_LIMIT && self.dropped <= LOG_COUNT_LIMIT
    }

    /// An empty log.
    pub fn new() -> (log: LogBuffer)
        ensures
            log@ == empty_log(),
    {
        let lines: VecDeque<String> = VecDeque::new();
        assert(texts(lines@) =~= Seq::empty());
        LogBuffer { lines, dropped: 0 }
    }

    /// The lines, oldest first; never more than the limit.
    pub fn snapshot(&self) -> (copy: Vec<String>)
        ensures
            texts(copy@) == self@.lines,
            copy@.len() <= LOG_BUFFER_LIMIT,
    {
        proof {
            use_type_invariant(self);
        }
        let mut copy: Vec<String> = Vec::new();
        let mut i: usize = 0;
        while i < self.lines.len()
            invariant
                i <= self.lines@.len(),
                copy@ == self.lines@.take(i as int),
            decreases self.lines@.len() - i,
        {
            copy.push(self.lines[i].clone());
            assert(self.lines@.take(i + 1) =~= self.lines@.take(i as int).push(
                self.lines@[i as int],
            ));
            i = i + 1;
        }
        assert(copy@ =~= self.lines@);
        copy
    }

    /// How many lines left the log.
    pub fn dropped(&self) -> (count: u64)
        ensures
            count == self@.dropped,
            count <= LOG_COUNT_LIMIT,
    {
        proof {
            use_type_invariant(self);
        }
        self.dropped
    }

    /// Takes the log and leaves an empty one.
    pub fn take(&mut self) -> (log: LogBuffer)
        ensures
            log@ == old(self)@,
            final(self)@ == empty_log(),
    {
        let mut log = LogBuffer::new();
        std::mem::swap(&mut log, self);
        log
    }

    /// Adds the lines of another log, which came after those of this one.
    pub fn absorb(&mut self, later: LogBuffer)
        ensures
            final(self)@ == old(self)@.absorbed(later@),
    {
        let ghost before = self@;
        let added = later.snapshot();
        let ghost all = texts(added@);
        let mut i: usize = 0;
        while i < added.len()
            invariant
                i <= added@.len(),
                all == texts(added@),
                self@ == pushed_all(before, all.take(i as int)),
            decreases added@.len() - i,
        {
            assert(all.take(i + 1).drop_last() =~= all.take(i as int));
            assert(all.take(i + 1).last() == added@[i as int]@);
            push_log(self, added[i].clone());
            i = i + 1;
        }
        assert(all.take(i as int) =~= all);
        let more: u64 = later.dropped();
        proof {
            use_type_invariant(&*self);
        }
        let dropped: u64 = if more >= LOG_COUNT_LIMIT - self.dropped {
            LOG_COUNT_LIMIT
        } else {
            self.dropped + more
        };
        self.dropped = dropped;
    }
}

/// Adds a line to a log.
pub fn push_log(logs: &mut LogBuffer, line: String)
    ensures
        final(logs)@ == pushed(old(logs)@, line@),
{
    proof {
        use_type_invariant(&*logs);
    }
    let ghost before = logs@;
    let mut lines: VecDeque<String> = VecDeque::new();
    std::mem::swap(&mut lines, &mut logs.lines);
    assert(texts(lines@) == before.lines);
    if lines.len() >= LOG_BUFFER_LIMIT {
        let _ = lines.pop_front();
        assert(texts(lines@) =~= before.lines.drop_first());
        if logs.dropped < LOG_COUNT_LIMIT {
            logs.dropped = logs.dropped + 1;
        }
    }
    let ghost kept = lines@;
    lines.push_back(line);
    assert(texts(lines@) =~= texts(kept).push(line@));
    logs.lines = lines;
}

/// A command to run.
#[derive(Clone, Debug, PartialEq, Eq)]
pub struct CommandLine {
    pub program: String,
    pub args: Vec<String>,
    pub envs: Vec<(String, String)>,
    pub stdin: Option<String>,
}

/// What a command says.
#[verifier::ext_equal]
pub struct CommandView {
    pub program: Seq<char>,
    pub args: Seq<Seq<char>>,
    pub envs: Seq<(Seq<char>, Seq<char>)>,
    pub stdin: Option<Seq<char>>,
}

impl View for CommandLine {
    type V = CommandView;

    open spec fn view(&self) -> CommandView {
        CommandView {
            program: self.program@,
            args: texts(self.args@),
            envs: self.envs@.map_values(|env: (String, String)| (env.0@, env.1@)),
            stdin: crate::config::opt_text(self.stdin),
        }
    }
}

/// The executable of a core.
pub open spec fn executable_view(settings: SettingsView, core: CoreKind) -> Seq<char> {
    match core {
        CoreKind::Xray => settings.xray_executable_path,
        CoreKind::SingBox => settings.sing_box_executable_path,
    }
}

/// The command that asks a core for its version.
pub open spec fn version_command_view(settings: SettingsView, core: CoreKind) -> CommandView {
    CommandView {
        program: executable_view(settings, core),
        args: seq!["version"@],
        envs: Seq::empty(),
        stdin: None,
    }
}

/// The command that runs a core, with its configuration as input.
pub open spec fn run_command_view(
    settings: SettingsView,
    core: CoreKind,
    stdin: Seq<char>,
) -> CommandView {
    CommandView {
        program: executable_view(settings, core),
        args: match core {
            CoreKind::Xray => seq!["run"@, "-config"@, "stdin:"@],
            CoreKind::SingBox => seq!["run"@, "-c"@, "/dev/stdin"@],
        },
        envs: match core {
            CoreKind::Xray => seq![("XRAY_LOCATION_ASSET"@, settings.xray_assets_path)],
            CoreKind::SingBox => Seq::empty(),
        },
        stdin: Some(stdin),
    }
}

/// The command that asks a core for its version.
pub fn version_command(settings: &Settings, core: CoreKind) -> (command: CommandLine)
    ensures
        command@ == version_command_view(settings@, core),
{
    let command = CommandLine {
        program: match core {
            CoreKind::Xray => settings.xray_executable_path.clone(),
            CoreKind::SingBox => settings.sing_box_executable_path.clone(),
        },
        args: vec!["version".to_owned()],
        envs: Vec::new(),
        stdin: None,
    };
    assert(command@ =~= version_command_view(settings@, core));
    command
}

/// The command that runs a core.
pub fn run_command(settings: &Settings, core: CoreKind, stdin: String) -> (command: CommandLine)
    ensures
        command@ == run_command_view(settings@, core, stdin@),
{
    let command = match core {
        CoreKind::Xray => CommandLine {
            program: settings.xray_executable_path.clone(),
            args: vec!["run".to_owned(), "-config".to_owned(), "stdin:".to_owned()],
            envs: vec![("XRAY_LOCATION_ASSET".to_owned(), settings.xray_assets_path.clone())],
            stdin: Some(stdin),
        },
        CoreKind::SingBox => CommandLine {
            program: settings.sing_box_executable_path.clone(),
            args: vec!["run".to_owned(), "-c".to_owned(), "/dev/stdin".to_owned()],
            envs: Vec::new(),
            stdin: Some(stdin),
        },
    };
    assert(command@ =~= run_command_view(settings@, core, stdin@));
    command
}

/// How far the node is with a core.
#[derive(Debug)]
enum Role {
    /// No core is needed.
    Idle,
    /// A core is needed and does not run.
    Needed(CoreKind),
    /// The version command of a core was asked for.
    Detecting(CoreKind, String, Vec<ConfiguredInboundPort>),
    /// The process of a core was asked for.
    Spawning(CoreKind, String, Vec<ConfiguredInboundPort>),
    /// The process of a core was started, under a process id.
    Running(CoreKind, u32),
}

/// How far the node is with a core.
#[verifier::ext_equal]
pub enum RoleView {
    Idle,
    Needed(CoreKind),
    /// A core, its configuration text and its ports.
    Detecting(CoreKind, Seq<char>, Seq<PortView>),
    /// A core, its version text and its ports.
    Spawning(CoreKind, Seq<char>, Seq<PortView>),
    Running(CoreKind, u32),
}

impl View for Role {
    type V = RoleView;

    closed spec fn view(&self) -> RoleView {
        match self {
            Role::Idle => RoleView::Idle,
            Role::Needed(core) => RoleView::Needed(*core),
            Role::Detecting(core, stdin, ports) => RoleView::Detecting(
                *core,
                stdin@,
                ports_model(ports@),
            ),
            Role::Spawning(core, version, ports) => RoleView::Spawning(
                *core,
                version@,
                ports_model(ports@),
            ),
            Role::Running(core, pid) => RoleView::Running(*core, *pid),
        }
    }
}

impl RoleView {
    /// The core that is needed.
    pub open spec fn needs(self) -> Option<CoreKind> {
        match self {
            RoleView::Idle => None,
            RoleView::Needed(core) => Some(core),
            RoleView::Detecting(core, _, _) => Some(core),
            RoleView::Spawning(core, _, _) => Some(core),
            RoleView::Running(core, _) => Some(core),
        }
    }

    /// The process that was started and not found to have ended: there is at most
    /// one, and it is of the core that is needed.
    pub open spec fn child(self) -> Option<(CoreKind, u32)> {
        match self {
            RoleView::Running(core, pid) => Some((core, pid)),
            _ => None,
        }
    }

    /// The role after the state of the process is known.
    pub open spec fn observed(self, poll: Poll) -> RoleView {
        match self {
            RoleView::Running(core, pid) => if poll == Poll::Running {
                self
            } else {
                RoleView::Needed(core)
            },
            _ => self,
        }
    }
}

/// The core of a node.
#[derive(Debug)]
pub struct XrayCore {
    settings: Settings,
    version: String,
    role: Role,
    configured_inbound_ports: Vec<ConfiguredInboundPort>,
    last_core_restart_at: Option<u64>,
    installed_cores_cache: Option<(u64, InstalledCores)>,
    logs: LogBuffer,
}

/// What the core of a node is at.
#[verifier::ext_equal]
pub struct CoreView {
    pub settings: SettingsView,
    pub version: Seq<char>,
    pub role: RoleView,
    pub ports: Seq<PortView>,
    pub last_core_restart_at: Option<u64>,
    pub installed: Option<(u64, InstalledView)>,
    pub logs: LogView,
}

pub open spec fn opt_installed(cache: Option<(u64, InstalledCores)>) -> Option<
    (u64, InstalledView),
> {
    match cache {
        Some((at, cores)) => Some((at, cores@)),
        None => None,
    }
}

impl View for XrayCore {
    type V = CoreView;

    closed spec fn view(&self) -> CoreView {
        CoreView {
            settings: self.settings@,
            version: self.version@,
            role: self.role@,
            ports: ports_model(self.configured_inbound_ports@),
            last_core_restart_at: self.last_core_restart_at,
            installed: opt_installed(self.installed_cores_cache),
            logs: self.logs@,
        }
    }
}

/// What has to be done for a core.
#[derive(Debug)]
pub enum CoreAction {
    /// Run the version command of a core and hand back its output.
    DetectVersion(CoreKind, CommandLine),
    /// Start the process of a core and hand back its process id.
    Spawn(CommandLine),
    /// Nothing: the start is over, as given.
    Done(Result<(), CoreError>),
    /// Nothing: what was handed back had not been asked for.
    Ignored,
}

/// What has to be done for a core.
#[verifier::ext_equal]
pub enum CoreActionView {
    DetectVersion(CoreKind, CommandView),
    Spawn(CommandView),
    Done(Result<(), CoreErrorView>),
    Ignored,
}

impl View for CoreAction {
    type V = CoreActionView;

    open spec fn view(&self) -> CoreActionView {
        match self {
            CoreAction::DetectVersion(core, command) => CoreActionView::DetectVersion(
                *core,
                command@,
            ),
            CoreAction::Spawn(command) => CoreActionView::Spawn(command@),
            CoreAction::Done(result) => CoreActionView::Done(
                match result {
                    Ok(()) => Ok(()),
                    Err(error) => Err(error@),
                },
            ),
            CoreAction::Ignored => CoreActionView::Ignored,
        }
    }
}

/// The text that a core is given as its configuration.
pub open spec fn stdin_view(config: XrayConfigView, core: CoreKind) -> Seq<char> {
    match core {
        CoreKind::Xray => json_text(config.value),
        CoreKind::SingBox => json_text(config.sing_box_value->0),
    }
}

/// How a version is reported: the core's name, then the version.
pub open spec fn version_text(core: CoreKind, version: Seq<char>) -> Seq<char> {
    match core {
        CoreKind::Xray => "xray "@ + version,
        CoreKind::SingBox => "sing-box "@ + version,
    }
}

impl CoreView {
    /// The state after the process was asked for.
    pub open spec fn observed(self, poll: Poll) -> CoreView {
        CoreView { role: self.role.observed(poll), ..self }
    }

    /// Whether the needed core runs.
    pub open spec fn started(self, poll: Poll) -> bool {
        self.role.child() is Some && poll == Poll::Running
    }

    /// Whether a core runs that is of a kind.
    pub open spec fn started_as(self, core: CoreKind, poll: Poll) -> bool {
        self.role.needs() == Some(core) && self.started(poll)
    }

    /// The state after a process was asked for only if the needed core is of a
    /// kind.
    pub open spec fn observed_as(self, core: CoreKind, poll: Poll) -> CoreView {
        if self.role.needs() == Some(core) {
            self.observed(poll)
        } else {
            self
        }
    }

    /// A start was asked for.
    pub open spec fn start(self, config: XrayConfigView, poll: Poll) -> (CoreView, CoreActionView) {
        if self.started(poll) {
            (self.observed(poll), CoreActionView::Done(Err(CoreErrorView::AlreadyStarted)))
        } else {
            match config.core_kind {
                None => (
                    CoreView { role: RoleView::Idle, ..self },
                    CoreActionView::Done(Err(CoreErrorView::NoCoreRequired)),
                ),
                Some(core) => (
                    CoreView {
                        role: RoleView::Detecting(
                            core,
                            stdin_view(config, core),
                            configured_ports(config),
                        ),
                        ..self
                    },
                    CoreActionView::DetectVersion(
                        core,
                        version_command_view(self.settings, core),
                    ),
                ),
            }
        }
    }

    /// The version command has ended.
    pub open spec fn version_output(self, output: Result<Seq<u8>, CoreErrorView>) -> (
        CoreView,
        CoreActionView,
    ) {
        match self.role {
            RoleView::Detecting(core, stdin, ports) => match detected_view(core, output) {
                Ok(version) => (
                    CoreView {
                        role: RoleView::Spawning(core, version_text(core, version), ports),
                        ..self
                    },
                    CoreActionView::Spawn(run_command_view(self.settings, core, stdin)),
                ),
                Err(error) => (
                    CoreView { role: RoleView::Needed(core), ..self },
                    CoreActionView::Done(Err(error)),
                ),
            },
            _ => (self, CoreActionView::Ignored),
        }
    }

    /// The process was started, or was not.
    pub open spec fn spawned(
        self,
        child: Result<u32, CoreErrorView>,
        now: Option<u64>,
    ) -> (CoreView, CoreActionView) {
        match self.role {
            RoleView::Spawning(core, version, ports) => match child {
                Ok(pid) => (
                    CoreView {
                        role: RoleView::Running(core, pid),
                        version,
                        ports,
                        last_core_restart_at: now,
                        ..self
                    },
                    CoreActionView::Done(Ok(())),
                ),
                Err(error) => (
                    CoreView { role: RoleView::Needed(core), ..self },
                    CoreActionView::Done(Err(error)),
                ),
            },
            _ => (self, CoreActionView::Ignored),
        }
    }

    /// The process, if any, has been killed.
    pub open spec fn stop(self) -> CoreView {
        CoreView {
            role: RoleView::Idle,
            version: "unknown"@,
            ports: Seq::empty(),
            logs: match self.role.child() {
                Some((CoreKind::Xray, _)) => pushed(self.logs, "Xray core stopped"@),
                Some((CoreKind::SingBox, _)) => pushed(self.logs, "sing-box core stopped"@),
                None => self.logs,
            },
            ..self
        }
    }
}

/// The outcome of a spawn, as a process id or as an error.
pub open spec fn child_view(child: Result<u32, CoreError>) -> Result<u32, CoreErrorView> {
    match child {
        Ok(pid) => Ok(pid),
        Err(error) => Err(error@),
    }
}

/// The list of installed cores that was found less than a minute ago.
pub open spec fn fresh_view(cache: Option<(u64, InstalledView)>, now: u64) -> Option<
    InstalledView,
> {
    match cache {
        Some((at, cores)) => if now - at < CORE_INSTALL_CACHE_TTL {
            Some(cores)
        } else {
            None
        },
        None => None,
    }
}

/// What came of detecting a core's version; nothing came of a detection that
/// broke off.
pub open spec fn detection_view(version: Option<Result<String, CoreError>>) -> Option<Seq<char>> {
    match version {
        Some(v) => version_ok(v),
        None => None,
    }
}

/// The list of installed cores, by what came of detecting their versions.
pub open spec fn installed_view(
    settings: SettingsView,
    xray: Option<Seq<char>>,
    sing_box: Option<Seq<char>>,
) -> InstalledView {
    InstalledView {
        sing_box: install_view("sing-box"@, settings.sing_box_executable_path, sing_box),
        xray: install_view("xray"@, settings.xray_executable_path, xray),
    }
}

fn copy_info(info: &CoreInstallInfo) -> (copy: CoreInstallInfo)
    ensures
        copy@ == info@,
{
    let version = match &info.version {
        Some(v) => Some(v.clone()),
        None => None,
    };
    let path = match &info.path {
        Some(p) => Some(p.clone()),
        None => None,
    };
    CoreInstallInfo { installed: info.installed, version, path, source: info.source.clone() }
}

fn copy_cores(cores: &InstalledCores) -> (copy: InstalledCores)
    ensures
        copy@ == cores@,
{
    InstalledCores { sing_box: copy_info(&cores.sing_box), xray: copy_info(&cores.xray) }
}

impl XrayCore {
    /// A core that is not started. No executable is looked for.
    pub fn new(settings: Settings) -> (core: Result<XrayCore, CoreError>)
        ensures
            core matches Ok(c) && c@ == (CoreView {
                settings: settings@,
                version: "unknown"@,
                role: RoleView::Idle,
                ports: Seq::empty(),
                last_core_restart_at: None,
                installed: None,
                logs: empty_log(),
            }),
    {
        let ports: Vec<ConfiguredInboundPort> = Vec::new();
        assert(ports_model(ports@) =~= Seq::empty());
        Ok(
            XrayCore {
                settings,
                version: "unknown".to_owned(),
                role: Role::Idle,
                configured_inbound_ports: ports,
                last_core_restart_at: None,
                installed_cores_cache: None,
                logs: LogBuffer::new(),
            },
        )
    }

    /// The version of the core that was started, `unknown` if none was.
    pub fn version(&self) -> (version: &str)
        ensures
            version@ == self@.version,
    {
        self.version.as_str()
    }

    /// The process that was started and not found to have ended.
    pub fn child(&self) -> (child: Option<(CoreKind, u32)>)
        ensures
            child == self@.role.child(),
    {
        match &self.role {
            Role::Running(core, pid) => Some((*core, *pid)),
            _ => None,
        }
    }

    fn needs(&self) -> (core: Option<CoreKind>)
        ensures
            core == self@.role.needs(),
    {
        match &self.role {
            Role::Idle => None,
            Role::Needed(core) => Some(*core),
            Role::Detecting(core, _, _) => Some(*core),
            Role::Spawning(core, _, _) => Some(*core),
            Role::Running(core, _) => Some(*core),
        }
    }

    /// Whether the needed core runs, by the state of its process.
    pub fn is_started(&mut self, poll: Poll) -> (started: bool)
        ensures
            started == old(self)@.started(poll),
            final(self)@ == old(self)@.observed(poll),
    {
        match self.child() {
            Some((core, _)) => match poll {
                Poll::Running => true,
                _ => {
                    self.role = Role::Needed(core);
                    false
                },
            },
            None => false,
        }
    }

    /// Whether the Xray API can be used: Xray is needed, and runs.
    pub fn xray_api_available(&mut self, poll: Poll) -> (available: bool)
        ensures
            available == old(self)@.started_as(CoreKind::Xray, poll),
            final(self)@ == old(self)@.observed_as(CoreKind::Xray, poll),
    {
        match self.needs() {
            Some(CoreKind::Xray) => self.is_started(poll),
            _ => false,
        }
    }

    /// The name of the core that runs.
    pub fn core_kind(&mut self, poll: Poll) -> (name: Option<&'static str>)
        ensures
            match name {
                Some(n) => old(self)@.started(poll) && match old(self)@.role.needs() {
                    Some(CoreKind::SingBox) => n@ == "sing-box"@,
                    Some(CoreKind::Xray) => n@ == "xray"@,
                    None => false,
                },
                None => !old(self)@.started(poll),
            },
            final(self)@ == old(self)@.observed(poll),
    {
        let needed = self.needs();
        if self.is_started(poll) {
            match needed {
                Some(CoreKind::SingBox) => Some("sing-box"),
                Some(CoreKind::Xray) => Some("xray"),
                None => None,
            }
        } else {
            None
        }
    }

    /// The list of installed cores, if it was found less than a minute before
    /// `now`, in nanoseconds of a clock that does not run backwards.
    pub fn installed_cores(&self, now: u64) -> (cores: Option<InstalledCores>)
        ensures
            match cores {
                Some(c) => fresh_view(self@.installed, now) == Some(c@),
                None => fresh_view(self@.installed, now) is None,
            },
    {
        match &self.installed_cores_cache {
            Some((at, cores)) => {
                let elapsed: u64 = if now >= *at {
                    now - *at
                } else {
                    0
                };
                if elapsed < CORE_INSTALL_CACHE_TTL {
                    Some(copy_cores(cores))
                } else {
                    None
                }
            },
            None => None,
        }
    }

    /// Keeps what came of detecting the versions of both cores.
    pub fn detected_cores(
        &mut self,
        xray: Option<Result<String, CoreError>>,
        sing_box: Option<Result<String, CoreError>>,
        now: u64,
    ) -> (cores: InstalledCores)
        ensures
            cores@ == installed_view(
                old(self)@.settings,
                detection_view(xray),
                detection_view(sing_box),
            ),
            final(self)@ == (CoreView { installed: Some((now, cores@)), ..old(self)@ }),
    {
        let xray_path = self.settings.xray_executable_path.as_str();
        let sing_box_path = self.settings.sing_box_executable_path.as_str();
        let cores = InstalledCores {
            sing_box: match sing_box {
                Some(version) => core_install_info("sing-box", sing_box_path, version),
                None => missing_core_info("sing-box", sing_box_path),
            },
            xray: match xray {
                Some(version) => core_install_info("xray", xray_path, version),
                None => missing_core_info("xray", xray_path),
            },
        };
        self.installed_cores_cache = Some((now, copy_cores(&cores)));
        cores
    }

    /// The ports of the configuration that was started.
    pub fn configured_inbound_ports(&self) -> (ports: &[ConfiguredInboundPort])
        ensures
            ports_model(ports@) == self@.ports,
    {
        self.configured_inbound_ports.as_slice()
    }

    /// When a core was last started, in seconds since the Unix epoch.
    pub fn last_core_restart_at(&self) -> (at: Option<u64>)
        ensures
            at == self@.last_core_restart_at,
    {
        self.last_core_restart_at
    }

    /// The resident bytes of the core's process, by its `/proc/<pid>/statm` text.
    pub fn core_rss_bytes(&self, statm: Option<&str>) -> (bytes: Option<u64>)
        requires
            statm matches Some(text) ==> (rss_pages_view(text@) matches Some(pages) ==> pages
                * 4096 <= u64::MAX),
        ensures
            match (self@.role.child(), statm) {
                (Some(_), Some(text)) => match bytes {
                    Some(n) => rss_pages_view(text@) matches Some(pages) && n == pages * 4096,
                    None => rss_pages_view(text@) is None,
                },
                _ => bytes is None,
            },
    {
        match (self.child(), statm) {
            (Some(_), Some(text)) => process_rss_bytes(text),
            _ => None,
        }
    }

    /// Begins to start the core that a configuration needs.
    pub fn start(&mut self, config: &XrayConfig, poll: Poll) -> (action: CoreAction)
        ensures
            (final(self)@, action@) == old(self)@.start(config@, poll),
    {
        if self.is_started(poll) {
            return CoreAction::Done(Err(CoreError::AlreadyStarted));
        }
        match config.core_kind() {
            None => {
                self.role = Role::Idle;
                CoreAction::Done(Err(CoreError::NoCoreRequired))
            },
            Some(core) => {
                let stdin = match config.sing_box_json() {
                    Some(text) => text,
                    None => config.to_json(),
                };
                let ports = config.configured_inbound_ports();
                let command = version_command(&self.settings, core);
                self.role = Role::Detecting(core, stdin, ports);
                CoreAction::DetectVersion(core, command)
            },
        }
    }

    /// Takes the output of the version command.
    pub fn version_output(&mut self, output: Result<Vec<u8>, CoreError>) -> (action: CoreAction)
        ensures
            (final(self)@, action@) == old(self)@.version_output(output_view(output)),
    {
        let mut role = Role::Idle;
        std::mem::swap(&mut role, &mut self.role);
        match role {
            Role::Detecting(core, stdin, ports) => {
                let detected = match core {
                    CoreKind::Xray => detect_xray_version(output),
                    CoreKind::SingBox => detect_sing_box_version(output),
                };
                match detected {
                    Ok(version) => {
                        let mut text = match core {
                            CoreKind::Xray => "xray ".to_owned(),
                            CoreKind::SingBox => "sing-box ".to_owned(),
                        };
                        text.append(version.as_str());
                        let command = run_command(&self.settings, core, stdin);
                        self.role = Role::Spawning(core, text, ports);
                        CoreAction::Spawn(command)
                    },
                    Err(error) => {
                        self.role = Role::Needed(core);
                        CoreAction::Done(Err(error))
                    },
                }
            },
            other => {
                self.role = other;
                CoreAction::Ignored
            },
        }
    }

    /// Takes the process id of the core, with the time in seconds since the Unix
    /// epoch.
    pub fn spawned(&mut self, child: Result<u32, CoreError>, now: Option<u64>) -> (action:
        CoreAction)
        ensures
            (final(self)@, action@) == old(self)@.spawned(child_view(child), now),
    {
        let mut role = Role::Idle;
        std::mem::swap(&mut role, &mut self.role);
        match role {
            Role::Spawning(core, version, ports) => match child {
                Ok(pid) => {
                    self.role = Role::Running(core, pid);
                    self.version = version;
                    self.configured_inbound_ports = ports;
                    self.last_core_restart_at = now;
                    CoreAction::Done(Ok(()))
                },
                Err(error) => {
                    self.role = Role::Needed(core);
                    CoreAction::Done(Err(error))
                },
            },
            other => {
                self.role = other;
                CoreAction::Ignored
            },
        }
    }

    /// Forgets the core after its process has been killed.
    pub fn stop(&mut self)
        ensures
            final(self)@ == old(self)@.stop(),
    {
        match self.child() {
            Some((CoreKind::Xray, _)) => self.push_log("Xray core stopped".to_owned()),
            Some((CoreKind::SingBox, _)) => self.push_log("sing-box core stopped".to_owned()),
            None => {},
        }
        self.role = Role::Idle;
        self.version = "unknown".to_owned();
        self.configured_inbound_ports = Vec::new();
        assert(ports_model(self.configured_inbound_ports@) =~= Seq::empty());
    }

    /// Stops the core, whose process has been killed, and begins to start the one
    /// that a configuration needs.
    pub fn restart(&mut self, config: &XrayConfig) -> (action: CoreAction)
        ensures
            (final(self)@, action@) == old(self)@.stop().start(config@, Poll::Exited),
    {
        self.stop();
        self.start(config, Poll::Exited)
    }

    /// The last lines of the log, oldest first.
    pub fn logs_snapshot(&self) -> (lines: Vec<String>)
        ensures
            texts(lines@) == self@.logs.lines,
            lines@.len() <= LOG_BUFFER_LIMIT,
    {
        self.logs.snapshot()
    }

    /// How many lines left the log.
    pub fn logs_dropped(&self) -> (count: u64)
        ensures
            count == self@.logs.dropped,
            count <= LOG_COUNT_LIMIT,
    {
        self.logs.dropped()
    }

    /// Adds the lines of a log that was kept aside.
    pub fn absorb_logs(&mut self, later: LogBuffer)
        ensures
            final(self)@ == (CoreView { logs: old(self)@.logs.absorbed(later@), ..old(self)@ }),
    {
        self.logs.absorb(later);
    }

    /// Adds a line to the log.
    pub fn push_log(&mut self, line: String)
        ensures
            final(self)@ == (CoreView { logs: pushed(old(self)@.logs, line@), ..old(self)@ }),
    {
        push_log(&mut self.logs, line);
    }
}

/// While a core runs, a start is refused and changes nothing: a second core is
/// never started.
pub proof fn running_core_is_left_alone(core: CoreView, config: XrayConfigView, poll: Poll)
    requires
        core.started(poll),
    ensures
        core.start(config, poll) == (
            core,
            CoreActionView::Done(Err(CoreErrorView::AlreadyStarted)),
        ),
{
}

/// Where no core runs, a start whose version command and whose process succeed
/// ends with the needed core running, and only the executable of that core is
/// used for it.
pub proof fn start_runs_the_needed_core(
    core: CoreView,
    config: XrayConfigView,
    kind: CoreKind,
    poll: Poll,
    output: Seq<u8>,
    version: Seq<char>,
    pid: u32,
    now: Option<u64>,
)
    requires
        !core.started(poll),
        config.core_kind == Some(kind),
        version_in(kind, utf8_lossy(output)) == Some(version),
    ensures
        ({
            let (detecting, asked) = core.start(config, poll);
            let (spawning, run) = detecting.version_output(Ok(output));
            let (running, done) = spawning.spawned(Ok(pid), now);
            &&& asked == CoreActionView::DetectVersion(
                kind,
                version_command_view(core.settings, kind),
            )
            &&& run == CoreActionView::Spawn(
                run_command_view(core.settings, kind, stdin_view(config, kind)),
            )
            &&& (asked->DetectVersion_1).program == executable_view(core.settings, kind)
            &&& (run->Spawn_0).program == executable_view(core.settings, kind)
            &&& done == CoreActionView::Done(Ok(()))
            &&& running.role.child() == Some((kind, pid))
            &&& running.role.needs() == Some(kind)
            &&& running.started(Poll::Running)
            &&& running.version == version_text(kind, version)
            &&& running.ports == configured_ports(config)
            &&& running.last_core_restart_at == now
            &&& running.logs == core.logs
        }),
{
}

/// A start that fails leaves no process, and leaves version, ports and the time
/// of the last start as they were.
pub proof fn failed_start_runs_nothing(
    core: CoreView,
    config: XrayConfigView,
    poll: Poll,
    output: Result<Seq<u8>, CoreErrorView>,
    child: Result<u32, CoreErrorView>,
    now: Option<u64>,
)
    requires
        !core.started(poll),
        config.core_kind is None || detected_view(config.core_kind->0, output) is Err
            || child is Err,
    ensures
        ({
            let begun = core.start(config, poll).0;
            let detected = begun.version_output(output).0;
            let ended = detected.spawned(child, now).0;
            &&& ended.role.child() is None
            &&& !ended.started(Poll::Running)
            &&& ended == CoreView { role: ended.role, ..core }
        }),
{
}

/// A stopped core is back where it began, but for its log, for the time of its
/// last start and for the list of installed cores; stopping again changes
/// nothing.
pub proof fn stop_resets(core: CoreView, poll: Poll)
    ensures
        core.stop().role == RoleView::Idle,
        core.stop().version == "unknown"@,
        core.stop().ports == Seq::<PortView>::empty(),
        !core.stop().started(poll),
        core.stop().stop() == core.stop(),
        core.stop().settings == core.settings,
        core.stop().last_core_restart_at == core.last_core_restart_at,
        core.stop().installed == core.installed,
{
}

/// A restart is never refused for a running core.
pub proof fn restart_is_not_refused_as_started(core: CoreView, config: XrayConfigView, poll: Poll)
    ensures
        core.stop().start(config, poll).1 != CoreActionView::Done(
            Err(CoreErrorView::AlreadyStarted),
        ),
        core.stop().start(config, poll).1 is DetectVersion <==> config.core_kind is Some,
{
}

/// The Xray API is available only while Xray runs: never with sing-box, and
/// never without a running core.
pub proof fn api_only_with_running_xray(core: CoreView, poll: Poll)
    ensures
        core.started_as(CoreKind::Xray, poll) ==> core.started(poll),
        core.started_as(CoreKind::Xray, poll) ==> core.role.needs() == Some(CoreKind::Xray),
        !(core.started_as(CoreKind::Xray, poll) && core.started_as(CoreKind::SingBox, poll)),
        core.started(poll) ==> core.started_as(CoreKind::Xray, poll) || core.started_as(
            CoreKind::SingBox,
            poll,
        ),
{
}

/// A core that was found to have ended counts as not started from then on.
pub proof fn ended_core_stays_ended(core: CoreView, poll: Poll, later: Poll)
    requires
        !core.started(poll),
    ensures
        !core.observed(poll).started(later),
        core.observed(poll).role.needs() == core.role.needs(),
{
}

/// The last `n` items of a sequence, or all of them if there are fewer.
pub open spec fn last_of(s: Seq<Seq<char>>, n: nat) -> Seq<Seq<char>> {
    if s.len() > n {
        s.skip(s.len() - n)
    } else {
        s
    }
}

/// A log keeps the last lines that were added to it, at most the limit, in the
/// order in which they came, and counts the others as far as it counts.
pub proof fn log_keeps_the_last_lines(added: Seq<Seq<char>>)
    ensures
        pushed_all(empty_log(), added).lines == last_of(added, LOG_BUFFER_LIMIT as nat),
        added.len() <= LOG_COUNT_LIMIT ==> pushed_all(empty_log(), added).total() == added.len(),
    decreases added.len(),
{
    if added.len() > 0 {
        let front = added.drop_last();
        log_keeps_the_last_lines(front);
        let kept = pushed_all(empty_log(), front);
        assert(pushed(kept, added.last()).lines =~= last_of(added, LOG_BUFFER_LIMIT as nat));
    }
}

/// Every added line is counted, and the added lines are the last ones of the log,
/// as long as no more are added than a log holds.
pub proof fn added_lines_are_the_last(log: LogView, added: Seq<Seq<char>>)
    requires
        log.lines.len() <= LOG_BUFFER_LIMIT,
        added.len() <= LOG_BUFFER_LIMIT,
        log.dropped + added.len() <= LOG_COUNT_LIMIT,
    ensures
        ({
            let after = pushed_all(log, added);
            &&& after.total() == log.total() + added.len()
            &&& after.lines.len() <= LOG_BUFFER_LIMIT
            &&& after.lines.len() >= added.len()
            &&& after.lines.skip(after.lines.len() - added.len()) == added
            &&& log.dropped <= after.dropped <= log.dropped + added.len()
        }),
    decreases added.len(),
{
    let after = pushed_all(log, added);
    if added.len() > 0 {
        let front = added.drop_last();
        added_lines_are_the_last(log, front);
        let before = pushed_all(log, front);
        let tail = after.lines.skip(after.lines.len() - added.len());
        assert(tail =~= before.lines.skip(before.lines.len() - front.len()).push(added.last()));
        assert(front.push(added.last()) =~= added);
    } else {
        assert(after.lines.skip(after.lines.len() as int) =~= added);
    }
}

/// Lines that were kept aside and are then added come to the same as lines that
/// were added at once.
pub proof fn kept_aside_is_added(log: LogView, added: Seq<Seq<char>>)
    requires
        log.lines.len() <= LOG_BUFFER_LIMIT,
        log.total() + added.len() <= LOG_COUNT_LIMIT,
    ensures
        log.absorbed(pushed_all(empty_log(), added)) == pushed_all(log, added),
    decreases added.len(),
{
    log_keeps_the_last_lines(added);
    lemma_log_tail(log, added);
    let aside = pushed_all(empty_log(), added);
    lemma_log_tail(log, aside.lines);
    if added.len() > LOG_BUFFER_LIMIT {
        assert(last_of(log.lines + aside.lines, LOG_BUFFER_LIMIT as nat) =~= aside.lines);
        assert(last_of(log.lines + added, LOG_BUFFER_LIMIT as nat) =~= aside.lines);
    } else {
        assert(aside.lines =~= added);
    }
}

proof fn lemma_log_tail(log: LogView, added: Seq<Seq<char>>)
    requires
        log.lines.len() <= LOG_BUFFER_LIMIT,
        log.total() + added.len() <= LOG_COUNT_LIMIT,
    ensures
        pushed_all(log, added).lines == last_of(log.lines + added, LOG_BUFFER_LIMIT as nat),
        pushed_all(log, added).total() == log.total() + added.len(),
    decreases added.len(),
{
    if added.len() > 0 {
        let front = added.drop_last();
        lemma_log_tail(log, front);
        let before = pushed_all(log, front);
        assert(log.lines + added =~= (log.lines + front).push(added.last()));
        assert(pushed(before, added.last()).lines =~= last_of(
            log.lines + added,
            LOG_BUFFER_LIMIT as nat,
        ));
    } else {
        assert(log.lines + added =~= log.lines);
    }
}

} // verus!
