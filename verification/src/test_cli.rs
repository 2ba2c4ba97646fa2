//! The command line of the messaging test tool as plain values, and the
//! adapter settings it selects.
use vstd::prelude::*;
use crate::json::Json;
use crate::platform::{platform_name, Platform};
use crate::strmap::StrMap;
use crate::text::{concat2, owned, str_eq};

verus! {

/// Whether adapters send for real or only pretend.
#[derive(Clone, Copy, Debug, PartialEq, Eq)]
pub enum AdapterMode {
    Real,
    DryRun,
}

/// The outcome of sending one payload.
#[derive(Debug, PartialEq, Eq)]
pub struct SendResult {
    pub ok: bool,
    pub message_id: Option<String>,
    pub diagnostics: Option<String>,
}

/// Adapter settings of a run.
#[derive(Debug, PartialEq, Eq)]
pub struct AdapterConfig {
    pub mode: AdapterMode,
}

impl AdapterConfig {
    /// Dry-run mode when forced, real mode otherwise.
    pub fn load(force_dry_run: bool) -> (r: Self)
        ensures
            r.mode == (if force_dry_run {
                AdapterMode::DryRun
            } else {
                AdapterMode::Real
            }),
    {
        AdapterConfig {
            mode: if force_dry_run {
                AdapterMode::DryRun
            } else {
                AdapterMode::Real
            },
        }
    }
}

/// The mode a command runs adapters in: an explicit dry-run choice wins,
/// else the configured mode.
pub fn adapter_mode(config: &AdapterConfig, override_dry: Option<bool>) -> (r: AdapterMode)
    ensures
        r == match override_dry {
            Some(true) => AdapterMode::DryRun,
            Some(false) => AdapterMode::Real,
            None => config.mode,
        },
{
    match override_dry {
        Some(true) => AdapterMode::DryRun,
        Some(false) => AdapterMode::Real,
        None => config.mode,
    }
}

/// What a basic adapter answers to a send: a dry run pretends success;
/// real sending is not available.
pub fn basic_send(mode: AdapterMode) -> (r: Result<SendResult, String>)
    ensures
        match mode {
            AdapterMode::DryRun => r matches Ok(s) && s.ok && (s.message_id matches Some(id) && id@
                == "dry-run"@) && (s.diagnostics matches Some(d) && d@ == "dry run"@),
            AdapterMode::Real => r matches Err(e) && e@ == "real send not implemented"@,
        },
{
    match mode {
        AdapterMode::DryRun => Ok(
            SendResult {
                ok: true,
                message_id: Some(owned("dry-run")),
                diagnostics: Some(owned("dry run")),
            },
        ),
        AdapterMode::Real => Err(owned("real send not implemented")),
    }
}

/// Whether an adapter is enabled, and why not: it is enabled exactly when
/// its token variable is set; otherwise the reason quotes the lookup error.
pub fn target_status(token: Result<(), &str>) -> (r: (bool, Option<String>))
    ensures
        match token {
            Ok(()) => r.0 && r.1 is None,
            Err(e) => !r.0 && (r.1 matches Some(m) && m@ == "missing env: "@ + e@),
        },
{
    match token {
        Ok(()) => (true, None),
        Err(e) => (false, Some(concat2("missing env: ", e))),
    }
}

/// The adapters of the fixture runner, in order, with the variable holding
/// each one's token.
pub fn adapter_token_vars() -> (r: Vec<(&'static str, &'static str)>)
    ensures
        r@.len() == 6,
        r@[0].0@ == "teams"@ && r@[0].1@ == "MS_GRAPH_TOKEN"@,
        r@[1].0@ == "webex"@ && r@[1].1@ == "WEBEX_BOT_TOKEN"@,
        r@[2].0@ == "slack"@ && r@[2].1@ == "SLACK_BOT_TOKEN"@,
        r@[3].0@ == "webchat"@ && r@[3].1@ == "WEBCHAT_SECRET"@,
        r@[4].0@ == "telegram"@ && r@[4].1@ == "TELEGRAM_BOT_TOKEN"@,
        r@[5].0@ == "whatsapp"@ && r@[5].1@ == "WHATSAPP_TOKEN"@,
{
    vec![
        ("teams", "MS_GRAPH_TOKEN"),
        ("webex", "WEBEX_BOT_TOKEN"),
        ("slack", "SLACK_BOT_TOKEN"),
        ("webchat", "WEBCHAT_SECRET"),
        ("telegram", "TELEGRAM_BOT_TOKEN"),
        ("whatsapp", "WHATSAPP_TOKEN"),
    ]
}

/// How pack egress messages reach the runner.
#[derive(Clone, Copy, Debug, PartialEq, Eq)]
pub enum RunnerTransport {
    Http,
    Nats,
}

/// Where packs are discovered.
#[derive(Clone, Debug, PartialEq, Eq)]
pub struct PackDiscoveryArgs {
    /// Directory roots to scan for `.gtpack` files.
    pub roots: Vec<String>,
    /// File pattern of pack files.
    pub glob: String,
}

/// How packs are run.
#[derive(Clone, Debug, PartialEq, Eq)]
pub struct PackRuntimeArgs {
    pub flow: Option<String>,
    pub env: String,
    pub tenant: String,
    pub team: String,
    pub allow_tags: bool,
    pub offline: bool,
    pub dry_run: bool,
    pub live: bool,
    /// `key=value` configuration entries.
    pub config: Vec<String>,
    pub runner_transport: RunnerTransport,
    pub nats_url: Option<String>,
    pub resolve_components: bool,
}

/// Commands on provider packs.
#[derive(Debug, PartialEq, Eq)]
pub enum PacksCommand {
    List { discovery: PackDiscoveryArgs },
    Run { pack: String, discovery: PackDiscoveryArgs, runtime: PackRuntimeArgs },
    All { discovery: PackDiscoveryArgs, runtime: PackRuntimeArgs, fail_fast: bool },
    Conformance {
        discovery: PackDiscoveryArgs,
        runtime: PackRuntimeArgs,
        pack: Vec<String>,
        public_base_url: String,
        ingress_fixture: String,
        setup_only: bool,
    },
}

/// The commands of the test tool.
#[derive(Debug, PartialEq, Eq)]
pub enum CliCommand {
    List,
    Fixtures,
    Adapters,
    Run { fixture: String, dry_run: bool },
    All { dry_run: bool },
    GenGolden,
    Packs { command: Box<PacksCommand> },
    E2e {
        packs: String,
        provider: Option<String>,
        report: Option<String>,
        dry_run: bool,
        live: bool,
        trace: bool,
    },
}

/// The parsed command line of the test tool.
#[derive(Debug, PartialEq, Eq)]
pub struct Cli {
    pub fixtures: String,
    pub dry_run: bool,
    pub pack_paths: Vec<String>,
    pub packs_root: String,
    pub runner_url: Option<String>,
    pub runner_api_key: Option<String>,
    pub env: String,
    pub tenant: String,
    pub team: String,
    pub chat_id: Option<String>,
    pub platform: Option<String>,
    pub command: CliCommand,
}

impl Cli {
    /// The adapter settings the command line asks for.
    pub fn adapter_config(&self) -> (r: AdapterConfig)
        ensures
            r.mode == (if self.dry_run {
                AdapterMode::DryRun
            } else {
                AdapterMode::Real
            }),
    {
        AdapterConfig::load(self.dry_run)
    }

    /// Runs use pack adapters when pack files were given.
    pub fn pack_mode_enabled(&self) -> (r: bool)
        ensures
            r == (self.pack_paths@.len() > 0),
    {
        self.pack_paths.len() > 0
    }

    /// The chat a pack-based run sends to.
    pub fn pack_chat_id(&self) -> (r: Result<String, String>)
        ensures
            match self.chat_id {
                Some(c) => r matches Ok(x) && x@ == c@,
                None => r matches Err(e) && e@ == "--chat-id is required for pack-based runs"@,
            },
    {
        match &self.chat_id {
            Some(c) => Ok(c.clone()),
            None => Err(owned("--chat-id is required for pack-based runs")),
        }
    }
}

/// Where the interactive fixture runner goes on a command.
#[derive(Debug, PartialEq, Eq)]
pub enum FixtureAction {
    /// Send the current fixture.
    Send,
    /// Move to this fixture.
    Move(usize),
    /// Ask which adapters to toggle.
    Toggle,
    Quit,
    /// An unknown command, echoed back.
    Unknown(String),
}

/// The action for a (trimmed) command at fixture `index` of `len`: empty or
/// `r` sends, `n` and `p` move forward and back with wrap-around, `a`
/// toggles, `q` quits.
pub fn fixture_action(cmd: &str, index: usize, len: usize) -> (r: FixtureAction)
    requires
        index < len,
    ensures
        if cmd@ == ""@ || cmd@ == "r"@ {
            r is Send
        } else if cmd@ == "n"@ {
            r == FixtureAction::Move(((index + 1) % (len as int)) as usize)
        } else if cmd@ == "p"@ {
            r == FixtureAction::Move(if index == 0 { (len - 1) as usize } else { (index - 1) as usize })
        } else if cmd@ == "a"@ {
            r is Toggle
        } else if cmd@ == "q"@ {
            r is Quit
        } else {
            r matches FixtureAction::Unknown(c) && c@ == cmd@
        },
{
    if str_eq(cmd, "") || str_eq(cmd, "r") {
        FixtureAction::Send
    } else if str_eq(cmd, "n") {
        FixtureAction::Move((index + 1) % len)
    } else if str_eq(cmd, "p") {
        FixtureAction::Move(if index == 0 { len - 1 } else { index - 1 })
    } else if str_eq(cmd, "a") {
        FixtureAction::Toggle
    } else if str_eq(cmd, "q") {
        FixtureAction::Quit
    } else {
        FixtureAction::Unknown(owned(cmd))
    }
}

/// The chat a fixture payload is translated for: `fixture-{platform}`.
pub fn fixture_chat_id(p: Platform) -> (r: String)
    ensures
        r@ == "fixture-"@ + platform_name(p),
{
    concat2("fixture-", p.as_str())
}

/// The first payload a translator produced; a translation error, or none
/// at all, is an error.
pub fn next_value(list: Result<Vec<Json>, String>) -> (r: Result<Json, String>)
    ensures
        match list {
            Err(e) => r == Err::<Json, String>(e),
            Ok(v) => if v@.len() > 0 {
                r == Ok::<Json, String>(v@[0])
            } else {
                r matches Err(e) && e@ == "no payloads produced"@
            },
        },
{
    match list {
        Err(e) => Err(e),
        Ok(mut v) => {
            if v.len() > 0 {
                Ok(v.remove(0))
            } else {
                Err(owned("no payloads produced"))
            }
        },
    }
}

/// The payload the WhatsApp fixture adapter sends:
/// `{"type":"whatsapp","text":{"body":"fixture payload"}}`.
pub fn default_whatsapp_payload() -> (r: Json)
    ensures
        r matches Json::Object(m) && (m.lookup("type"@) matches Some(Json::Str(t)) && t@
            == "whatsapp"@) && (m.lookup("text"@) matches Some(Json::Object(b)) && (b.lookup("body"@) matches Some(
            Json::Str(x),
        ) && x@ == "fixture payload"@) && forall|k: Seq<char>| k != "body"@ ==> #[trigger] b.lookup(k) is None)
            && forall|k: Seq<char>| k != "type"@ && k != "text"@ ==> #[trigger] m.lookup(k) is None,
{
    proof {
        reveal_strlit("type");
        reveal_strlit("text");
        assert("type"@[1] != "text"@[1]);
    }
    let mut body: StrMap<Json> = StrMap::new();
    body.insert(owned("body"), Json::Str(owned("fixture payload")));
    let mut m: StrMap<Json> = StrMap::new();
    m.insert(owned("type"), Json::Str(owned("whatsapp")));
    m.insert(owned("text"), Json::Object(body));
    Json::Object(m)
}

} // verus!
