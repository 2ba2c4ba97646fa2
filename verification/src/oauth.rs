//! The Slack OAuth helper: the state carried through the consent
//! redirect, the authorize URL, and what a token exchange yields.
use vstd::prelude::*;
use base64::Engine;
use vstd::utf8::{decode_utf8, encode_utf8, valid_utf8};
use crate::packs::opt_view;
use crate::text::{
    concat2, first_index_of, has_prefix, lower, owned, push_str, str_eq, str_starts_with, str_trim,
    substring, to_chars, to_lower, trim,
};

verus! {

/// The URL-safe base64 text, without padding, of some bytes.
pub uninterp spec fn b64url_text(bytes: Seq<u8>) -> Seq<char>;

/// The bytes URL-safe unpadded base64 text decodes to, if it is valid.
pub uninterp spec fn b64url_bytes(text: Seq<char>) -> Option<Seq<u8>>;

/// Encodes bytes with `base64`'s `URL_SAFE_NO_PAD` engine. The text is
/// named by `b64url_text`; decoding it with the same engine gives the
/// bytes back, as base64 is a bijection between bytes and canonical text.
#[verifier::external_body]
fn b64url_encode(bytes: &[u8]) -> (r: String)
    ensures
        r@ == b64url_text(bytes@),
        b64url_bytes(r@) == Some(bytes@),
{
    base64::engine::general_purpose::URL_SAFE_NO_PAD.encode(bytes)
}

/// Decodes text with `base64`'s `URL_SAFE_NO_PAD` engine; the bytes are
/// named by `b64url_bytes`. The error text is the engine's description of
/// the decode error, which nothing here states.
#[verifier::external_body]
fn b64url_decode(text: &str) -> (r: Result<Vec<u8>, String>)
    ensures
        match r {
            Ok(b) => b64url_bytes(text@) == Some(b@),
            Err(_) => b64url_bytes(text@) is None,
        },
{
    match base64::engine::general_purpose::URL_SAFE_NO_PAD.decode(text) {
        Ok(b) => Ok(b),
        Err(e) => Err(e.to_string()),
    }
}

/// `String::from_utf8`: the text the bytes encode when they are valid
/// UTF-8. The error text is std's description, which nothing here states.
#[verifier::external_body]
fn string_from_utf8(bytes: Vec<u8>) -> (r: Result<String, String>)
    ensures
        match r {
            Ok(s) => valid_utf8(bytes@) && s@ == decode_utf8(bytes@),
            Err(_) => !valid_utf8(bytes@),
        },
{
    match String::from_utf8(bytes) {
        Ok(s) => Ok(s),
        Err(e) => Err(e.to_string()),
    }
}

/// A byte that URL encoding keeps: ASCII letters, digits, `-`, `.`, `_`, `~`.
pub open spec fn url_unreserved(b: u8) -> bool {
    (48 <= b && b <= 57) || (65 <= b && b <= 90) || (97 <= b && b <= 122) || b == 45 || b == 46
        || b == 95 || b == 126
}

/// An upper-case hexadecimal digit.
pub open spec fn hex_digit(d: int) -> char {
    if d < 10 {
        ((48 + d) as u8) as char
    } else {
        ((55 + d) as u8) as char
    }
}

/// Bytes percent-encoded: kept bytes as themselves, others as `%XX`.
pub open spec fn percent_encoded(bs: Seq<u8>) -> Seq<char>
    decreases bs.len(),
{
    if bs.len() == 0 {
        Seq::empty()
    } else {
        let b = bs.last();
        percent_encoded(bs.drop_last()) + if url_unreserved(b) {
            seq![b as char]
        } else {
            seq!['%', hex_digit((b / 16) as int), hex_digit((b % 16) as int)]
        }
    }
}

/// `urlencoding::encode`: percent-encodes every UTF-8 byte of the text
/// except ASCII letters, digits, `-`, `.`, `_` and `~`, with upper-case hex.
#[verifier::external_body]
fn url_encode(s: &str) -> (r: String)
    ensures
        r@ == percent_encoded(encode_utf8(s@)),
{
    urlencoding::encode(s).into_owned()
}

/// The consent state before encoding: `{tenant}|{team}|{nonce}`.
pub open spec fn state_payload(tenant: Seq<char>, team: Seq<char>, nonce: Seq<char>) -> Seq<char> {
    tenant + "|"@ + team + "|"@ + nonce
}

/// The consent state of an install: the tenant, the team (`default` when
/// none) and a nonce, encoded.
pub fn install_state(tenant: &str, team: Option<&str>, nonce: &str) -> (r: String)
    ensures
        r@ == b64url_text(
            encode_utf8(
                state_payload(
                    tenant@,
                    match team {
                        Some(t) => t@,
                        None => "default"@,
                    },
                    nonce@,
                ),
            ),
        ),
        !crate::text::has_char(tenant@, '|') && !crate::text::has_char(
            match team {
                Some(t) => t@,
                None => "default"@,
            },
            '|',
        ) ==> decoded_state(r@) == Some(
            Ok::<(Seq<char>, Option<Seq<char>>), Seq<char>>(
                (
                    tenant@,
                    normalized_team(
                        match team {
                            Some(t) => t@,
                            None => "default"@,
                        },
                    ),
                ),
            ),
        ),
{
    let t = match team {
        Some(t) => t,
        None => "default",
    };
    let mut payload = concat2(tenant, "|");
    push_str(&mut payload, t);
    push_str(&mut payload, "|");
    push_str(&mut payload, nonce);
    let r = b64url_encode(payload.as_str().as_bytes());
    proof {
        vstd::utf8::encode_utf8_valid_utf8(payload@);
        vstd::utf8::encode_utf8_decode_utf8(payload@);
        if !crate::text::has_char(tenant@, '|') && !crate::text::has_char(t@, '|') {
            lemma_state_parts(tenant@, t@, nonce@);
        }
    }
    r
}

/// A team as a tenant context takes it: trimmed; none when blank or
/// `default` in any case.
pub open spec fn normalized_team(team: Seq<char>) -> Option<Seq<char>> {
    let t = trim(team);
    if t.len() == 0 || lower(t) == "default"@ {
        None
    } else {
        Some(t)
    }
}

/// Normalises a team name.
pub fn normalize_team(team: &str) -> (r: Option<String>)
    ensures
        opt_view(r) == normalized_team(team@),
{
    let t = str_trim(team);
    let tc = to_chars(t.as_str());
    let l = to_lower(t.as_str());
    if tc.len() == 0 || str_eq(l.as_str(), "default") {
        None
    } else {
        Some(t)
    }
}

/// The tenant and team a decoded state names: the text before the first
/// `|`, and the text between the first and the second `|` (or the end);
/// with no `|` the team is missing.
pub open spec fn state_parts(raw: Seq<char>) -> Result<(Seq<char>, Option<Seq<char>>), Seq<char>> {
    match first_index_of(raw, '|') {
        None => Err("state missing team"@),
        Some(i) => {
            let rest = raw.skip(i + 1);
            let team = match first_index_of(rest, '|') {
                Some(j) => rest.take(j),
                None => rest,
            };
            Ok((raw.take(i), normalized_team(team)))
        },
    }
}

/// What decoding a consent state gives.
pub open spec fn decoded_state(state: Seq<char>) -> Option<Result<(Seq<char>, Option<Seq<char>>), Seq<char>>> {
    match b64url_bytes(state) {
        None => None,
        Some(b) => if valid_utf8(b) {
            Some(state_parts(decode_utf8(b)))
        } else {
            None
        },
    }
}

/// Decodes a consent state into its tenant and normalised team. Text that
/// is not valid base64 or UTF-8 is refused with the decoder's message.
pub fn decode_state(state: &str) -> (r: Result<(String, Option<String>), String>)
    ensures
        match decoded_state(state@) {
            None => r is Err,
            Some(Err(m)) => r matches Err(e) && e@ == m,
            Some(Ok(p)) => r matches Ok(x) && x.0@ == p.0 && opt_view(x.1) == p.1,
        },
{
    let bytes = match b64url_decode(state) {
        Ok(b) => b,
        Err(e) => {
            return Err(concat2("invalid state: ", e.as_str()));
        },
    };
    let raw = match string_from_utf8(bytes) {
        Ok(s) => s,
        Err(e) => {
            return Err(e);
        },
    };
    let cs = to_chars(raw.as_str());
    match crate::text::find_char(&cs, '|') {
        None => {
            proof {
                assert(!crate::text::has_char(raw@, '|'));
            }
            Err(owned("state missing team"))
        },
        Some(i) => {
            proof {
                lemma_first_index_of_is(raw@, '|', i as int);
            }
            let tenant = substring(&cs, 0, i);
            let rest = substring(&cs, i + 1, cs.len());
            let rc = to_chars(rest.as_str());
            let team_raw = match crate::text::find_char(&rc, '|') {
                None => {
                    proof {
                        assert(!crate::text::has_char(rest@, '|'));
                    }
                    rest
                },
                Some(j) => {
                    proof {
                        lemma_first_index_of_is(rest@, '|', j as int);
                    }
                    substring(&rc, 0, j)
                },
            };
            proof {
                assert(raw@.take(i as int) =~= cs@.subrange(0, i as int));
                assert(raw@.skip(i + 1) =~= cs@.subrange(i + 1, cs@.len() as int));
            }
            let team = normalize_team(team_raw.as_str());
            proof {
                match first_index_of(rest@, '|') {
                    Some(j) => {
                        assert(rest@.take(j) =~= rc@.subrange(0, j));
                    },
                    None => {},
                }
            }
            Ok((tenant, team))
        },
    }
}

/// The first occurrence found is the one `first_index_of` names.
pub proof fn lemma_first_index_of_is(s: Seq<char>, c: char, i: int)
    requires
        0 <= i < s.len(),
        s[i] == c,
        forall|j: int| 0 <= j < i ==> s[j] != c,
    ensures
        first_index_of(s, c) == Some(i),
{
    assert(crate::text::has_char(s, c));
    let k = choose|k: int| 0 <= k < s.len() && s[k] == c && forall|j: int| 0 <= j < k ==> s[j] != c;
    if k < i {
    } else if k > i {
    }
}

/// The Slack authorize URL for an install: client id, URL-encoded scopes,
/// the state and the URL-encoded redirect; user scopes are added when set.
pub open spec fn authorize_url_of(
    client_id: Seq<char>,
    scope: Seq<char>,
    state: Seq<char>,
    redirect_uri: Seq<char>,
    user_scope: Option<Seq<char>>,
) -> Seq<char> {
    "https://slack.com/oauth/v2/authorize?client_id="@ + client_id + "&scope="@ + percent_encoded(
        encode_utf8(scope),
    ) + "&state="@ + state + "&redirect_uri="@ + percent_encoded(encode_utf8(redirect_uri)) + match user_scope {
        Some(u) => if u.len() > 0 {
            "&user_scope="@ + percent_encoded(encode_utf8(u))
        } else {
            ""@
        },
        None => ""@,
    }
}

/// Builds the authorize URL.
pub fn authorize_url(
    client_id: &str,
    scope: &str,
    state: &str,
    redirect_uri: &str,
    user_scope: Option<&str>,
) -> (r: String)
    ensures
        r@ == authorize_url_of(
            client_id@,
            scope@,
            state@,
            redirect_uri@,
            match user_scope {
                Some(u) => Some(u@),
                None => None,
            },
        ),
{
    let mut u = concat2("https://slack.com/oauth/v2/authorize?client_id=", client_id);
    push_str(&mut u, "&scope=");
    push_str(&mut u, url_encode(scope).as_str());
    push_str(&mut u, "&state=");
    push_str(&mut u, state);
    push_str(&mut u, "&redirect_uri=");
    push_str(&mut u, url_encode(redirect_uri).as_str());
    let ghost base = u@;
    match user_scope {
        Some(us) => {
            let uc = to_chars(us);
            if uc.len() > 0 {
                push_str(&mut u, "&user_scope=");
                push_str(&mut u, url_encode(us).as_str());
            } else {
                proof {
                    reveal_strlit("");
                    assert(base + ""@ =~= base);
                }
            }
        },
        None => {
            proof {
                reveal_strlit("");
                assert(base + ""@ =~= base);
            }
        },
    }
    u
}

/// A Slack workspace installation.
#[derive(Debug, PartialEq, Eq)]
pub struct SlackWorkspace {
    pub workspace_id: String,
    pub bot_token: String,
    pub enterprise_id: Option<String>,
}

/// What the token exchange answered.
#[derive(Debug, PartialEq, Eq)]
pub struct OauthResponse {
    pub ok: bool,
    pub access_token: Option<String>,
    pub error: Option<String>,
    pub team_id: Option<String>,
    pub enterprise_id: Option<String>,
}

/// The workspace a token exchange grants: a refused exchange quotes Slack's
/// error (or a generic one); the team id and bot token must be present.
pub fn workspace_from_response(resp: OauthResponse) -> (r: Result<SlackWorkspace, String>)
    ensures
        if !resp.ok {
            r matches Err(e) && e@ == match resp.error {
                Some(m) => m@,
                None => "slack oauth failed"@,
            }
        } else if resp.team_id is None {
            r matches Err(e) && e@ == "missing team id in oauth response"@
        } else if resp.access_token is None {
            r matches Err(e) && e@ == "missing bot token in oauth response"@
        } else {
            r matches Ok(w) && w.workspace_id@ == resp.team_id->0@ && w.bot_token@
                == resp.access_token->0@ && opt_view(w.enterprise_id) == opt_view(resp.enterprise_id)
        },
{
    if !resp.ok {
        return Err(
            match resp.error {
                Some(m) => m,
                None => owned("slack oauth failed"),
            },
        );
    }
    let team = match resp.team_id {
        Some(t) => t,
        None => {
            return Err(owned("missing team id in oauth response"));
        },
    };
    let token = match resp.access_token {
        Some(t) => t,
        None => {
            return Err(owned("missing bot token in oauth response"));
        },
    };
    Ok(SlackWorkspace { workspace_id: team, bot_token: token, enterprise_id: resp.enterprise_id })
}

/// With a `mock://` API base no exchange happens: a fixed test workspace.
pub fn mock_workspace(api_base: &str) -> (r: Option<SlackWorkspace>)
    ensures
        if has_prefix(api_base@, "mock://"@) {
            r matches Some(w) && w.workspace_id@ == "T123"@ && w.bot_token@ == "xoxb-mock"@
                && w.enterprise_id is None
        } else {
            r is None
        },
{
    if str_starts_with(api_base, "mock://") {
        Some(
            SlackWorkspace {
                workspace_id: owned("T123"),
                bot_token: owned("xoxb-mock"),
                enterprise_id: None,
            },
        )
    } else {
        None
    }
}

/// The text without its trailing `/` characters.
pub open spec fn without_trailing_slashes(s: Seq<char>) -> Seq<char>
    decreases s.len(),
{
    if s.len() > 0 && s.last() == '/' {
        without_trailing_slashes(s.drop_last())
    } else {
        s
    }
}

/// A text without its trailing slashes.
pub(crate) fn trim_trailing_slashes(s: &str) -> (r: String)
    ensures
        r@ == without_trailing_slashes(s@),
{
    let cs = to_chars(s);
    let mut n = cs.len();
    proof {
        assert(cs@.take(n as int) =~= cs@);
    }
    while n > 0 && cs[n - 1] == '/'
        invariant
            n <= cs@.len(),
            cs@ == s@,
            without_trailing_slashes(s@) == without_trailing_slashes(cs@.take(n as int)),
        decreases n,
    {
        proof {
            assert(cs@.take(n as int).drop_last() =~= cs@.take(n - 1));
        }
        n = n - 1;
    }
    let out = substring(&cs, 0, n);
    proof {
        assert(cs@.subrange(0, n as int) =~= cs@.take(n as int));
    }
    out
}

/// The token exchange endpoint under an API base.
pub fn token_url(api_base: &str) -> (r: String)
    ensures
        r@ == without_trailing_slashes(api_base@) + "/oauth.v2.access"@,
{
    let mut out = trim_trailing_slashes(api_base);
    push_str(&mut out, "/oauth.v2.access");
    out
}

/// A payload splits back into the tenant and normalised team it was made
/// with, when neither holds a `|`.
pub proof fn lemma_state_parts(tenant: Seq<char>, team: Seq<char>, nonce: Seq<char>)
    requires
        !crate::text::has_char(tenant, '|'),
        !crate::text::has_char(team, '|'),
    ensures
        state_parts(state_payload(tenant, team, nonce)) == Ok::<(Seq<char>, Option<Seq<char>>), Seq<char>>(
            (tenant, normalized_team(team)),
        ),
{
    let raw = state_payload(tenant, team, nonce);
    reveal_strlit("|");
    let i = tenant.len() as int;
    assert(raw[i] == '|');
    assert forall|j: int| 0 <= j < i implies raw[j] != '|' by {
        assert(raw[j] == tenant[j]);
    }
    lemma_first_index_of_is(raw, '|', i);
    let rest = raw.skip(i + 1);
    assert(rest =~= team + "|"@ + nonce);
    let k = team.len() as int;
    assert(rest[k] == '|');
    assert forall|j: int| 0 <= j < k implies rest[j] != '|' by {
        assert(rest[j] == team[j]);
    }
    lemma_first_index_of_is(rest, '|', k);
    assert(rest.take(k) =~= team);
    assert(raw.take(i) =~= tenant);
}

} // verus!
