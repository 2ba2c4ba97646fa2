//! The chat platforms messages are routed to.
use vstd::prelude::*;
use crate::text::{contains_seq, lower, str_contains, str_eq, to_lower};

verus! {

/// A chat platform.
#[derive(Clone, Copy, Debug, PartialEq, Eq, Hash)]
pub enum Platform {
    Slack,
    Teams,
    Telegram,
    WhatsApp,
    WebChat,
    Webex,
}

/// The lower-case name of a platform.
pub open spec fn platform_name(p: Platform) -> Seq<char> {
    match p {
        Platform::Slack => "slack"@,
        Platform::Teams => "teams"@,
        Platform::Telegram => "telegram"@,
        Platform::WhatsApp => "whatsapp"@,
        Platform::WebChat => "webchat"@,
        Platform::Webex => "webex"@,
    }
}

/// The platform a name denotes.
pub open spec fn platform_named(name: Seq<char>) -> Option<Platform> {
    if name == "slack"@ {
        Some(Platform::Slack)
    } else if name == "teams"@ {
        Some(Platform::Teams)
    } else if name == "telegram"@ {
        Some(Platform::Telegram)
    } else if name == "whatsapp"@ {
        Some(Platform::WhatsApp)
    } else if name == "webchat"@ {
        Some(Platform::WebChat)
    } else if name == "webex"@ {
        Some(Platform::Webex)
    } else {
        None
    }
}

impl Platform {
    /// The platform's name.
    pub fn as_str(self) -> (r: &'static str)
        ensures
            r@ == platform_name(self),
    {
        match self {
            Platform::Slack => "slack",
            Platform::Teams => "teams",
            Platform::Telegram => "telegram",
            Platform::WhatsApp => "whatsapp",
            Platform::WebChat => "webchat",
            Platform::Webex => "webex",
        }
    }

    /// The platform of a name.
    pub fn from_name(name: &str) -> (r: Option<Platform>)
        ensures
            r == platform_named(name@),
    {
        if str_eq(name, "slack") {
            Some(Platform::Slack)
        } else if str_eq(name, "teams") {
            Some(Platform::Teams)
        } else if str_eq(name, "telegram") {
            Some(Platform::Telegram)
        } else if str_eq(name, "whatsapp") {
            Some(Platform::WhatsApp)
        } else if str_eq(name, "webchat") {
            Some(Platform::WebChat)
        } else if str_eq(name, "webex") {
            Some(Platform::Webex)
        } else {
            None
        }
    }
}

/// A platform's name read back names that platform.
pub proof fn lemma_platform_name_roundtrip(p: Platform)
    ensures
        platform_named(platform_name(p)) == Some(p),
{
    reveal_strlit("slack");
    reveal_strlit("teams");
    reveal_strlit("telegram");
    reveal_strlit("whatsapp");
    reveal_strlit("webchat");
    reveal_strlit("webex");
    assert("slack"@.len() == 5 && "teams"@.len() == 5 && "webex"@.len() == 5);
    assert("telegram"@.len() == 8 && "whatsapp"@.len() == 8 && "webchat"@.len() == 7);
    assert("slack"@[0] != "teams"@[0] && "slack"@[0] != "webex"@[0] && "teams"@[0] != "webex"@[0]);
    assert("telegram"@[0] != "whatsapp"@[0]);
}

/// The platform an adapter name mentions, by the first of `slack`, `teams`,
/// `telegram`, `whatsapp`, `webchat`, `webex` its lower-cased form contains.
pub open spec fn platform_in_name(name: Seq<char>) -> Option<Platform> {
    let l = lower(name);
    if contains_seq(l, "slack"@) {
        Some(Platform::Slack)
    } else if contains_seq(l, "teams"@) {
        Some(Platform::Teams)
    } else if contains_seq(l, "telegram"@) {
        Some(Platform::Telegram)
    } else if contains_seq(l, "whatsapp"@) {
        Some(Platform::WhatsApp)
    } else if contains_seq(l, "webchat"@) {
        Some(Platform::WebChat)
    } else if contains_seq(l, "webex"@) {
        Some(Platform::Webex)
    } else {
        None
    }
}

/// Infers a platform from the tokens of an adapter name.
pub fn infer_platform_from_tokens(name: &str) -> (r: Option<Platform>)
    ensures
        r == platform_in_name(name@),
{
    let l = to_lower(name);
    if str_contains(l.as_str(), "slack") {
        Some(Platform::Slack)
    } else if str_contains(l.as_str(), "teams") {
        Some(Platform::Teams)
    } else if str_contains(l.as_str(), "telegram") {
        Some(Platform::Telegram)
    } else if str_contains(l.as_str(), "whatsapp") {
        Some(Platform::WhatsApp)
    } else if str_contains(l.as_str(), "webchat") {
        Some(Platform::WebChat)
    } else if str_contains(l.as_str(), "webex") {
        Some(Platform::Webex)
    } else {
        None
    }
}

} // verus!
