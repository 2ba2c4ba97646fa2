//! Pack inspection for the messaging test tool: digests and cache names,
//! runtime configuration, secret keys, subject tokens, file patterns,
//! flow selection and the walk of a flow graph.
use vstd::prelude::*;
use crate::strmap::{find_entry, lemma_find_entry_some, StrMap};
use crate::test_cli::PackRuntimeArgs;
use crate::text::{
    concat2, contains_seq, find_char, first_index_of, has_prefix, has_suffix, join,
    join_strings, lower, owned, push_str, split, str_contains, str_eq, str_split,
    str_starts_with, str_ends_with, str_trim, substring, to_chars, to_lower, trim, views,
    from_seq,
};

verus! {

/// The digest with its `sha256:` prefix.
pub open spec fn normalized_digest(d: Seq<char>) -> Seq<char> {
    if has_prefix(d, "sha256:"@) {
        d
    } else {
        "sha256:"@ + d
    }
}

/// Prefixes a bare digest with `sha256:`.
pub fn normalize_digest(digest: &str) -> (r: String)
    ensures
        r@ == normalized_digest(digest@),
{
    if str_starts_with(digest, "sha256:") {
        owned(digest)
    } else {
        concat2("sha256:", digest)
    }
}

/// The digest without a leading `sha256:`.
pub open spec fn digest_without_prefix(d: Seq<char>) -> Seq<char> {
    if has_prefix(d, "sha256:"@) {
        d.skip(7)
    } else {
        d
    }
}

/// Removes a leading `sha256:` from a digest.
pub fn trim_digest_prefix(digest: &str) -> (r: String)
    ensures
        r@ == digest_without_prefix(digest@),
{
    proof {
        reveal_strlit("sha256:");
    }
    let cs = to_chars(digest);
    if str_starts_with(digest, "sha256:") {
        substring(&cs, 7, cs.len())
    } else {
        owned(digest)
    }
}

/// `path` joined onto `root` as `Path::join` does for `/`-separated paths:
/// an absolute `path` replaces `root`; otherwise one separator goes between.
pub open spec fn joined_path(root: Seq<char>, path: Seq<char>) -> Seq<char> {
    if path.len() > 0 && path[0] == '/' {
        path
    } else if root.len() == 0 {
        path
    } else if root.last() == '/' {
        root + path
    } else {
        root + "/"@ + path
    }
}

/// Joins a relative path onto a directory.
pub fn join_path(root: &str, path: &str) -> (r: String)
    ensures
        r@ == joined_path(root@, path@),
{
    let p = to_chars(path);
    let rc = to_chars(root);
    if p.len() > 0 && p[0] == '/' {
        return owned(path);
    }
    if rc.len() == 0 {
        return owned(path);
    }
    if rc[rc.len() - 1] == '/' {
        return concat2(root, path);
    }
    let mut out = concat2(root, "/");
    push_str(&mut out, path);
    out
}

/// The cache directory of a component: its digest, without the prefix,
/// under `root`.
pub fn component_dir_for_digest(root: &str, digest: &str) -> (r: String)
    ensures
        r@ == joined_path(root@, digest_without_prefix(digest@)),
{
    let d = trim_digest_prefix(digest);
    join_path(root, d.as_str())
}

/// A character kept in a cache directory name.
pub open spec fn dir_char_kept(c: char) -> bool {
    ('a' <= c && c <= 'z') || ('A' <= c && c <= 'Z') || ('0' <= c && c <= '9') || c == '-' || c
        == '_'
}

/// A component id as a directory name: other characters become `_`.
pub open spec fn sanitized_dir(id: Seq<char>) -> Seq<char> {
    id.map_values(|c: char| if dir_char_kept(c) { c } else { '_' })
}

/// Makes a component id safe as a directory name.
pub fn sanitize_component_dir(id: &str) -> (r: String)
    ensures
        r@ == sanitized_dir(id@),
{
    let cs = to_chars(id);
    let mut out: Vec<char> = Vec::new();
    for i in 0..cs.len()
        invariant
            cs@ == id@,
            out@ == sanitized_dir(id@.take(i as int)),
    {
        let ch = cs[i];
        let kept = ('a' <= ch && ch <= 'z') || ('A' <= ch && ch <= 'Z') || ('0' <= ch && ch <= '9')
            || ch == '-' || ch == '_';
        out.push(if kept { ch } else { '_' });
        proof {
            assert(out@ =~= sanitized_dir(id@.take(i + 1)));
        }
    }
    proof {
        assert(id@.take(cs.len() as int) =~= id@);
    }
    from_seq(&out)
}

/// The key a secret URI stores: its last `/`-separated segment, trimmed,
/// unless that is empty.
pub open spec fn secret_key_of(uri: Seq<char>) -> Option<Seq<char>> {
    let k = trim(split(uri, '/').last());
    if k.len() == 0 {
        None
    } else {
        Some(k)
    }
}

/// The key of a secret URI.
pub fn secret_key_from_uri(uri: &str) -> (r: Option<String>)
    ensures
        match r {
            Some(k) => secret_key_of(uri@) == Some(k@),
            None => secret_key_of(uri@) is None,
        },
{
    let parts = str_split(uri, '/');
    proof {
        crate::text::lemma_split_nonempty(uri@, '/');
    }
    let last = &parts[parts.len() - 1];
    let key = str_trim(last.as_str());
    let kc = to_chars(key.as_str());
    if kc.len() == 0 {
        None
    } else {
        Some(key)
    }
}

/// Some secret URI among the first `n` names `key`, and no value is provided
/// for it.
pub open spec fn key_missing_among(
    uris: Seq<String>,
    n: int,
    provided: StrMap<String>,
    key: Seq<char>,
) -> bool {
    (exists|j: int| 0 <= j < n && secret_key_of(#[trigger] uris[j]@) == Some(key)) && provided.lookup(
        key,
    ) is None
}

/// The keys of the secret URIs without a provided value, ascending and
/// without repeats.
pub fn missing_secret_keys(uris: &Vec<String>, provided: &StrMap<String>) -> (r: Vec<String>)
    ensures
        crate::strmap::sorted_strict(views(r@)),
        forall|k: Seq<char>|
            #[trigger] views(r@).contains(k) <==> key_missing_among(
                uris@,
                uris@.len() as int,
                *provided,
                k,
            ),
{
    let mut set: StrMap<()> = StrMap::new();
    for i in 0..uris.len()
        invariant
            forall|k: Seq<char>|
                #[trigger] set.lookup(k) is Some <==> key_missing_among(uris@, i as int, *provided, k),
    {
        let key = secret_key_from_uri(uris[i].as_str());
        match key {
            Some(k) => {
                if !provided.contains_key(k.as_str()) {
                    let ghost kv = k@;
                    set.insert(k, ());
                    proof {
                        assert forall|x: Seq<char>|
                            #[trigger] set.lookup(x) is Some <==> key_missing_among(
                                uris@,
                                i + 1,
                                *provided,
                                x,
                            ) by {
                            if key_missing_among(uris@, i + 1, *provided, x) && x != kv {
                                let j = choose|j: int|
                                    0 <= j < i + 1 && secret_key_of(#[trigger] uris@[j]@) == Some(x);
                                assert(j < i);
                            }
                            if x == kv {
                                assert(secret_key_of(uris@[i as int]@) == Some(x));
                            }
                        }
                    }
                } else {
                    proof {
                        assert forall|x: Seq<char>|
                            #[trigger] set.lookup(x) is Some <==> key_missing_among(
                                uris@,
                                i + 1,
                                *provided,
                                x,
                            ) by {
                            if key_missing_among(uris@, i + 1, *provided, x) {
                                let j = choose|j: int|
                                    0 <= j < i + 1 && secret_key_of(#[trigger] uris@[j]@) == Some(x);
                                if j == i {
                                    assert(x == k@);
                                }
                            }
                        }
                    }
                }
            },
            None => {
                proof {
                    assert forall|x: Seq<char>|
                        #[trigger] set.lookup(x) is Some <==> key_missing_among(
                            uris@,
                            i + 1,
                            *provided,
                            x,
                        ) by {
                        if key_missing_among(uris@, i + 1, *provided, x) {
                            let j = choose|j: int|
                                0 <= j < i + 1 && secret_key_of(#[trigger] uris@[j]@) == Some(x);
                            assert(j < i);
                        }
                    }
                }
            },
        }
    }
    set.keys()
}

/// The platform a provider id names, by the first of `slack`, `teams`,
/// `webex`, `webchat`, `whatsapp`, `telegram` that its lower-cased form
/// contains.
pub open spec fn platform_of_provider(id: Seq<char>) -> Option<Seq<char>> {
    let p = lower(id);
    if contains_seq(p, "slack"@) {
        Some("slack"@)
    } else if contains_seq(p, "teams"@) {
        Some("teams"@)
    } else if contains_seq(p, "webex"@) {
        Some("webex"@)
    } else if contains_seq(p, "webchat"@) {
        Some("webchat"@)
    } else if contains_seq(p, "whatsapp"@) {
        Some("whatsapp"@)
    } else if contains_seq(p, "telegram"@) {
        Some("telegram"@)
    } else {
        None
    }
}

/// Infers the platform name from a provider id.
pub fn infer_platform_from_provider(provider_id: &str) -> (r: Option<String>)
    ensures
        match r {
            Some(p) => platform_of_provider(provider_id@) == Some(p@),
            None => platform_of_provider(provider_id@) is None,
        },
{
    let p = to_lower(provider_id);
    if str_contains(p.as_str(), "slack") {
        Some(owned("slack"))
    } else if str_contains(p.as_str(), "teams") {
        Some(owned("teams"))
    } else if str_contains(p.as_str(), "webex") {
        Some(owned("webex"))
    } else if str_contains(p.as_str(), "webchat") {
        Some(owned("webchat"))
    } else if str_contains(p.as_str(), "whatsapp") {
        Some(owned("whatsapp"))
    } else if str_contains(p.as_str(), "telegram") {
        Some(owned("telegram"))
    } else {
        None
    }
}

/// A character that a subject token cannot hold.
pub open spec fn subject_special(c: char) -> bool {
    c == ' ' || c == '\t' || c == '\n' || c == '\r' || c == '*' || c == '>' || c == '/'
}

/// A value as one token of a NATS subject: trimmed, with blanks, `*`,
/// `>` and `/` turned into `-`; `unknown` when nothing is left.
pub open spec fn subject_token_of(value: Seq<char>) -> Seq<char> {
    let t = trim(value).map_values(|c: char| if subject_special(c) { '-' } else { c });
    if t.len() == 0 {
        "unknown"@
    } else {
        t
    }
}

/// Sanitises a value for use as a subject token.
pub fn subject_token(value: &str) -> (r: String)
    ensures
        r@ == subject_token_of(value@),
{
    let t = str_trim(value);
    let cs = to_chars(t.as_str());
    let mut out: Vec<char> = Vec::new();
    for i in 0..cs.len()
        invariant
            cs@ == trim(value@),
            out@ == trim(value@).take(i as int).map_values(
                |c: char| if subject_special(c) { '-' } else { c },
            ),
    {
        let c = cs[i];
        let special = c == ' ' || c == '\t' || c == '\n' || c == '\r' || c == '*' || c == '>' || c
            == '/';
        out.push(if special { '-' } else { c });
        proof {
            assert(out@ =~= trim(value@).take(i + 1).map_values(
                |c: char| if subject_special(c) { '-' } else { c },
            ));
        }
    }
    proof {
        assert(trim(value@).take(cs.len() as int) =~= trim(value@));
    }
    if out.len() == 0 {
        owned("unknown")
    } else {
        from_seq(&out)
    }
}

/// The subject that matches every egress message of an environment,
/// tenant and team under `prefix`.
pub open spec fn egress_wildcard_of(
    prefix: Seq<char>,
    env: Seq<char>,
    tenant: Seq<char>,
    team: Seq<char>,
) -> Seq<char> {
    prefix + "."@ + subject_token_of(env) + "."@ + subject_token_of(tenant) + "."@
        + subject_token_of(team) + ".>"@
}

/// `{prefix}.{env}.{tenant}.{team}.>` with each part made a subject token.
pub fn egress_wildcard_subject(prefix: &str, env: &str, tenant: &str, team: &str) -> (r: String)
    ensures
        r@ == egress_wildcard_of(prefix@, env@, tenant@, team@),
{
    let mut out = concat2(prefix, ".");
    push_str(&mut out, subject_token(env).as_str());
    push_str(&mut out, ".");
    push_str(&mut out, subject_token(tenant).as_str());
    push_str(&mut out, ".");
    push_str(&mut out, subject_token(team).as_str());
    push_str(&mut out, ".>");
    out
}

/// `secrets://{env}/{tenant}/{team}/messaging/{provider}.credentials.json`.
pub open spec fn secret_uri_of(
    env: Seq<char>,
    tenant: Seq<char>,
    team: Seq<char>,
    provider: Seq<char>,
) -> Seq<char> {
    "secrets://"@ + env + "/"@ + tenant + "/"@ + team + "/messaging/"@ + provider
        + ".credentials.json"@
}

/// The credentials URI of a provider for an environment, tenant and team.
pub fn format_secret_uri(env: &str, tenant: &str, team: &str, provider: &str) -> (r: String)
    ensures
        r@ == secret_uri_of(env@, tenant@, team@, provider@),
{
    let mut out = concat2("secrets://", env);
    push_str(&mut out, "/");
    push_str(&mut out, tenant);
    push_str(&mut out, "/");
    push_str(&mut out, team);
    push_str(&mut out, "/messaging/");
    push_str(&mut out, provider);
    push_str(&mut out, ".credentials.json");
    out
}

/// A secret URI with its env, tenant and team segments masked; anything
/// that is not such a URI is masked whole.
pub open spec fn redacted_uri(uri: Seq<char>) -> Seq<char> {
    if has_prefix(uri, "secrets://"@) {
        let parts = split(uri.skip(10), '/');
        if parts.len() >= 3 {
            "secrets://"@ + join(
                parts.update(0, "***"@).update(1, "***"@).update(2, "***"@),
                "/"@,
            )
        } else {
            "***"@
        }
    } else {
        "***"@
    }
}

/// Redacts the env/tenant/team segments of a secret URI before logging.
pub fn redact_secret_uri(uri: &str) -> (r: String)
    ensures
        r@ == redacted_uri(uri@),
{
    proof {
        reveal_strlit("secrets://");
        reveal_strlit("***");
    }
    if str_starts_with(uri, "secrets://") {
        let cs = to_chars(uri);
        let rest = substring(&cs, 10, cs.len());
        let mut parts = str_split(rest.as_str(), '/');
        if parts.len() >= 3 {
            parts.set(0, owned("***"));
            parts.set(1, owned("***"));
            parts.set(2, owned("***"));
            proof {
                assert(views(parts@) =~= split(uri@.skip(10), '/').update(0, "***"@).update(
                    1,
                    "***"@,
                ).update(2, "***"@));
            }
            let joined = join_strings(&parts, "/");
            return concat2("secrets://", joined.as_str());
        }
    }
    owned("***")
}

/// Whether a file name matches a pattern: `*` matches all; a pattern with a
/// star matches names that start with what precedes its first star and end
/// with what follows it; any other pattern matches itself.
pub open spec fn pattern_matches(name: Seq<char>, pattern: Seq<char>) -> bool {
    if pattern == "*"@ {
        true
    } else {
        match first_index_of(pattern, '*') {
            Some(i) => has_prefix(name, pattern.take(i)) && has_suffix(name, pattern.skip(i + 1)),
            None => name == pattern,
        }
    }
}

/// Whether `file_name` matches the discovery pattern.
pub fn matches_pattern(file_name: &str, pattern: &str) -> (r: bool)
    ensures
        r == pattern_matches(file_name@, pattern@),
{
    if str_eq(pattern, "*") {
        return true;
    }
    let pc = to_chars(pattern);
    match find_char(&pc, '*') {
        Some(star) => {
            proof {
                let i = star as int;
                assert(crate::text::has_char(pattern@, '*'));
                let c = choose|k: int|
                    0 <= k < pattern@.len() && pattern@[k] == '*' && forall|j: int|
                        0 <= j < k ==> pattern@[j] != '*';
                if c < i {
                } else if c > i {
                }
                assert(c == i);
            }
            assert(star < pc.len());
            let prefix = substring(&pc, 0, star);
            let suffix = substring(&pc, star + 1, pc.len());
            proof {
                assert(pattern@.take(star as int) =~= pc@.subrange(0, star as int));
                assert(pattern@.skip(star + 1) =~= pc@.subrange(star + 1, pc@.len() as int));
            }
            str_starts_with(file_name, prefix.as_str()) && str_ends_with(
                file_name,
                suffix.as_str(),
            )
        },
        None => str_eq(file_name, pattern),
    }
}


/// The view of an optional text.
pub open spec fn opt_view(o: Option<String>) -> Option<Seq<char>> {
    match o {
        Some(s) => Some(s@),
        None => None,
    }
}

/// The message for a `--config` entry without `=`.
pub open spec fn config_no_equals_message(t: Seq<char>) -> Seq<char> {
    "invalid --config entry '"@ + t + "' (expected key=value)"@
}

/// The message for a `--config` entry with an empty key.
pub open spec fn config_empty_key_message(t: Seq<char>) -> Seq<char> {
    "invalid --config entry '"@ + t + "' (empty key)"@
}

/// One `--config` entry: nothing when blank, else the trimmed key and value
/// around its first `=`, or the message refusing it.
pub open spec fn parse_config_entry(e: Seq<char>) -> Option<Result<(Seq<char>, Seq<char>), Seq<char>>> {
    let t = trim(e);
    if t.len() == 0 {
        None
    } else {
        match first_index_of(t, '=') {
            None => Some(Err(config_no_equals_message(t))),
            Some(i) => {
                let k = trim(t.take(i));
                if k.len() == 0 {
                    Some(Err(config_empty_key_message(t)))
                } else {
                    Some(Ok((k, trim(t.skip(i + 1)))))
                }
            },
        }
    }
}

/// The message of the first refused entry, in order.
pub open spec fn config_error(es: Seq<Seq<char>>) -> Option<Seq<char>>
    decreases es.len(),
{
    if es.len() == 0 {
        None
    } else if config_error(es.drop_last()) is Some {
        config_error(es.drop_last())
    } else {
        match parse_config_entry(es.last()) {
            Some(Err(m)) => Some(m),
            _ => None,
        }
    }
}

/// The value the last entry with key `key` gives.
pub open spec fn config_lookup(es: Seq<Seq<char>>, key: Seq<char>) -> Option<Seq<char>>
    decreases es.len(),
{
    if es.len() == 0 {
        None
    } else {
        match parse_config_entry(es.last()) {
            Some(Ok(kv)) => if kv.0 == key {
                Some(kv.1)
            } else {
                config_lookup(es.drop_last(), key)
            },
            _ => config_lookup(es.drop_last(), key),
        }
    }
}

/// Parses one `--config` entry.
pub fn parse_config_entry_exec(e: &str) -> (r: Option<Result<(String, String), String>>)
    ensures
        match parse_config_entry(e@) {
            None => r is None,
            Some(Err(m)) => r matches Some(Err(x)) && x@ == m,
            Some(Ok(kv)) => r matches Some(Ok(p)) && p.0@ == kv.0 && p.1@ == kv.1,
        },
{
    let t = str_trim(e);
    let tc = to_chars(t.as_str());
    if tc.len() == 0 {
        return None;
    }
    match find_char(&tc, '=') {
        None => {
            proof {
                assert(!crate::text::has_char(trim(e@), '='));
            }
            let mut m = concat2("invalid --config entry '", t.as_str());
            push_str(&mut m, "' (expected key=value)");
            Some(Err(m))
        },
        Some(i) => {
            proof {
                assert(crate::text::has_char(trim(e@), '='));
                let c = choose|k: int|
                    0 <= k < trim(e@).len() && trim(e@)[k] == '=' && forall|j: int|
                        0 <= j < k ==> trim(e@)[j] != '=';
                if c < i {
                } else if c > i {
                }
                assert(c == i);
            }
            assert(i < tc.len());
            let kraw = substring(&tc, 0, i);
            let vraw = substring(&tc, i + 1, tc.len());
            proof {
                assert(trim(e@).take(i as int) =~= tc@.subrange(0, i as int));
                assert(trim(e@).skip(i + 1) =~= tc@.subrange(i + 1, tc@.len() as int));
            }
            let k = str_trim(kraw.as_str());
            let kc = to_chars(k.as_str());
            if kc.len() == 0 {
                let mut m = concat2("invalid --config entry '", t.as_str());
                push_str(&mut m, "' (empty key)");
                Some(Err(m))
            } else {
                let v = str_trim(vraw.as_str());
                Some(Ok((k, v)))
            }
        },
    }
}

/// Parses `key=value` runtime configuration entries; blank entries are
/// skipped and a later entry replaces an earlier one with the same key.
pub fn parse_runtime_config(entries: &Vec<String>) -> (r: Result<StrMap<String>, String>)
    ensures
        match config_error(views(entries@)) {
            Some(m) => r matches Err(x) && x@ == m,
            None => r matches Ok(map) && forall|k: Seq<char>|
                #[trigger] opt_view(map.lookup(k)) == config_lookup(views(entries@), k),
        },
{
    let mut out: StrMap<String> = StrMap::new();
    let ghost es = views(entries@);
    for i in 0..entries.len()
        invariant
            es == views(entries@),
            config_error(es.take(i as int)) is None,
            forall|k: Seq<char>|
                #[trigger] opt_view(out.lookup(k)) == config_lookup(es.take(i as int), k),
    {
        proof {
            assert(es.take(i + 1).drop_last() =~= es.take(i as int));
            assert(es.take(i + 1).last() == entries@[i as int]@);
        }
        match parse_config_entry_exec(entries[i].as_str()) {
            None => {},
            Some(Err(m)) => {
                proof {
                    lemma_config_error_prefix(es, i + 1);
                }
                return Err(m);
            },
            Some(Ok((k, v))) => {
                out.insert(k, v);
            },
        }
    }
    proof {
        assert(es.take(entries.len() as int) =~= es);
    }
    Ok(out)
}

/// An error in a prefix is the error of the whole list.
pub proof fn lemma_config_error_prefix(es: Seq<Seq<char>>, n: int)
    requires
        0 <= n <= es.len(),
        config_error(es.take(n)) is Some,
    ensures
        config_error(es) == config_error(es.take(n)),
    decreases es.len() - n,
{
    if n < es.len() {
        assert(es.take(n + 1).drop_last() =~= es.take(n));
        assert(config_error(es.take(n + 1)) == config_error(es.take(n)));
        lemma_config_error_prefix(es, n + 1);
    } else {
        assert(es.take(n) =~= es);
    }
}

/// The value of the first of `keys` present in the map.
pub open spec fn first_present(map: StrMap<String>, keys: Seq<&str>) -> Option<Seq<char>>
    decreases keys.len(),
{
    if keys.len() == 0 {
        None
    } else {
        match map.lookup(keys[0]@) {
            Some(v) => Some(v@),
            None => first_present(map, keys.drop_first()),
        }
    }
}

/// The value under the first of the given keys that is present.
pub fn config_value(map: &StrMap<String>, keys: &[&str]) -> (r: Option<String>)
    ensures
        opt_view(r) == first_present(*map, keys@),
{
    proof {
        assert(keys@.skip(0) =~= keys@);
    }
    for i in 0..keys.len()
        invariant
            first_present(*map, keys@) == first_present(*map, keys@.skip(i as int)),
    {
        proof {
            assert(keys@.skip(i as int).drop_first() =~= keys@.skip(i + 1));
            assert(keys@.skip(i as int)[0] == keys@[i as int]);
        }
        match map.get(keys[i]) {
            Some(v) => {
                return Some(v.clone());
            },
            None => {},
        }
    }
    proof {
        assert(keys@.skip(keys@.len() as int).len() == 0);
    }
    None
}

/// The keys without a provided value, in their order.
pub open spec fn missing_keys(keys: Seq<Seq<char>>, provided: StrMap<String>) -> Seq<Seq<char>>
    decreases keys.len(),
{
    if keys.len() == 0 {
        Seq::empty()
    } else if provided.lookup(keys.last()) is Some {
        missing_keys(keys.drop_last(), provided)
    } else {
        missing_keys(keys.drop_last(), provided).push(keys.last())
    }
}

/// What the result holds for a provider that requires `keys`.
pub open spec fn missing_entry_ok(
    r: StrMap<Vec<String>>,
    provider: Seq<char>,
    keys: Vec<String>,
    provided: StrMap<String>,
) -> bool {
    let m = missing_keys(views(keys@), provided);
    if m.len() > 0 {
        r.lookup(provider) matches Some(v) && views(v@) == m
    } else {
        r.lookup(provider) is None
    }
}

/// The keys of a provided map's owner that are absent.
fn missing_of(keys: &Vec<String>, provided: &StrMap<String>) -> (r: Vec<String>)
    ensures
        views(r@) == missing_keys(views(keys@), *provided),
{
    let mut out: Vec<String> = Vec::new();
    for i in 0..keys.len()
        invariant
            views(out@) == missing_keys(views(keys@).take(i as int), *provided),
    {
        proof {
            assert(views(keys@).take(i + 1).drop_last() =~= views(keys@).take(i as int));
        }
        if !provided.contains_key(keys[i].as_str()) {
            let ghost before = out@;
            let k = keys[i].clone();
            out.push(k);
            proof {
                assert(views(out@) =~= views(before).push(keys@[i as int]@));
            }
        }
    }
    proof {
        assert(views(keys@).take(keys.len() as int) =~= views(keys@));
    }
    out
}

/// The keys a configuration schema requires: the texts of its `required`
/// array.
pub fn extract_required_keys(schema: &crate::json::Json) -> (r: Vec<String>)
    ensures
        views(r@) == crate::e2e::member_texts(*schema, "required"@),
{
    crate::e2e::member_texts_exec(schema, "required")
}

/// A provider a pack declares, with the configuration schema it refers to.
#[derive(Debug)]
pub struct ProviderSchema {
    pub provider_type: String,
    /// The path of the schema inside the pack.
    pub schema_ref: String,
    /// The schema, when the pack holds it as valid JSON.
    pub schema: Option<crate::json::Json>,
}

/// The keys a provider requires: none without a schema reference or a
/// readable schema.
pub open spec fn provider_required(p: ProviderSchema) -> Seq<Seq<char>> {
    if trim(p.schema_ref@).len() == 0 {
        Seq::empty()
    } else {
        match p.schema {
            Some(s) => crate::e2e::member_texts(s, "required"@),
            None => Seq::empty(),
        }
    }
}

/// The required keys of each provider type; a later provider of a type
/// replaces an earlier one.
pub open spec fn required_config_of(ps: Seq<ProviderSchema>) -> Map<Seq<char>, Seq<Seq<char>>>
    decreases ps.len(),
{
    if ps.len() == 0 {
        Map::empty()
    } else {
        required_config_of(ps.drop_last()).insert(ps.last().provider_type@, provider_required(ps.last()))
    }
}

/// The required configuration keys of a pack's providers.
pub fn required_provider_config(providers: &Vec<ProviderSchema>) -> (r: StrMap<Vec<String>>)
    ensures
        forall|k: Seq<char>|
            match #[trigger] r.lookup(k) {
                Some(v) => required_config_of(providers@).contains_key(k) && views(v@)
                    == required_config_of(providers@)[k],
                None => !required_config_of(providers@).contains_key(k),
            },
{
    let mut out: StrMap<Vec<String>> = StrMap::new();
    for i in 0..providers.len()
        invariant
            forall|k: Seq<char>|
                match #[trigger] out.lookup(k) {
                    Some(v) => required_config_of(providers@.take(i as int)).contains_key(k) && views(v@)
                        == required_config_of(providers@.take(i as int))[k],
                    None => !required_config_of(providers@.take(i as int)).contains_key(k),
                },
    {
        let p = &providers[i];
        proof {
            assert(providers@.take(i + 1).drop_last() =~= providers@.take(i as int));
            assert(providers@.take(i + 1).last() == providers@[i as int]);
        }
        let reference = str_trim(p.schema_ref.as_str());
        let keys: Vec<String> = if to_chars(reference.as_str()).len() == 0 {
            let v: Vec<String> = Vec::new();
            proof {
                assert(views(v@) =~= Seq::<Seq<char>>::empty());
            }
            v
        } else {
            match &p.schema {
                Some(s) => extract_required_keys(s),
                None => {
                    let v: Vec<String> = Vec::new();
                    proof {
                        assert(views(v@) =~= Seq::<Seq<char>>::empty());
                    }
                    v
                },
            }
        };
        out.insert(p.provider_type.clone(), keys);
    }
    proof {
        assert(providers@.take(providers@.len() as int) =~= providers@);
    }
    out
}

/// A secret still to be fetched: its reference names a key that has no
/// value yet.
pub open spec fn wants_secret(uri: Seq<char>, resolved: StrMap<String>) -> bool {
    secret_key_of(uri) matches Some(k) && resolved.lookup(k) is None
}

/// The next secret reference to fetch, from position `from` on, with its
/// key: references without a key, or whose key already has a value, are
/// passed over. After each fetch the caller records a value it got and
/// asks again from the next position; a value given up front is never
/// fetched, and a key is fetched again only when an earlier fetch failed.
pub fn next_secret_to_fetch(uris: &Vec<String>, from: usize, resolved: &StrMap<String>) -> (r: Option<(usize, String)>)
    ensures
        match r {
            Some((j, k)) => from <= j < uris@.len() && secret_key_of(uris@[j as int]@) == Some(k@)
                && resolved.lookup(k@) is None && forall|i: int|
                from <= i < j ==> !wants_secret(#[trigger] uris@[i]@, *resolved),
            None => forall|i: int| from <= i < uris@.len() ==> !wants_secret(#[trigger] uris@[i]@, *resolved),
        },
{
    let mut j = from;
    while j < uris.len()
        invariant
            from <= j,
            forall|i: int| from <= i < j && i < uris@.len() ==> !wants_secret(#[trigger] uris@[i]@, *resolved),
        decreases uris@.len() - j,
    {
        match secret_key_from_uri(uris[j].as_str()) {
            Some(k) => {
                if !resolved.contains_key(k.as_str()) {
                    return Some((j, k));
                }
            },
            None => {},
        }
        j = j + 1;
    }
    None
}

/// Whether secrets are looked up at all: only with a store and some
/// references.
pub fn secret_lookup_needed(use_store: bool, uris: &Vec<String>) -> (r: bool)
    ensures
        r == (use_store && uris@.len() > 0),
{
    use_store && uris.len() > 0
}

/// For each provider, its required keys that were not provided; providers
/// missing nothing are left out.
pub fn missing_required_config(required: &StrMap<Vec<String>>, provided: &StrMap<String>) -> (r:
    StrMap<Vec<String>>)
    ensures
        forall|p: Seq<char>|
            match #[trigger] required.lookup(p) {
                Some(keys) => missing_entry_ok(r, p, keys, *provided),
                None => r.lookup(p) is None,
            },
{
    let es = required.entries();
    let mut out: StrMap<Vec<String>> = StrMap::new();
    proof {
        crate::strmap::lemma_ascending_distinct(es@);
    }
    for i in 0..es.len()
        invariant
            es@ == required.items(),
            crate::strmap::keys_distinct(es@),
            forall|p: Seq<char>|
                #[trigger] out.lookup(p) is Some ==> exists|j: int| 0 <= j < i && es@[j].0@ == p,
            forall|j: int|
                0 <= j < i ==> missing_entry_ok(out, #[trigger] es@[j].0@, es@[j].1, *provided),
    {
        let needed = missing_of(&es[i].1, provided);
        if needed.len() > 0 {
            let name = es[i].0.clone();
            let ghost prev = out;
            out.insert(name, needed);
            proof {
                assert forall|j: int|
                    0 <= j < i + 1 implies missing_entry_ok(
                    out,
                    #[trigger] es@[j].0@,
                    es@[j].1,
                    *provided,
                ) by {
                    if j < i {
                        assert(es@[j].0@ != es@[i as int].0@);
                        assert(missing_entry_ok(prev, es@[j].0@, es@[j].1, *provided));
                    }
                }
                assert forall|p: Seq<char>|
                    #[trigger] out.lookup(p) is Some implies exists|j: int|
                        0 <= j < i + 1 && es@[j].0@ == p by {
                    if p != es@[i as int].0@ {
                        assert(prev.lookup(p) is Some);
                    }
                }
            }
        } else {
            proof {
                assert(out.lookup(es@[i as int].0@) is None) by {
                    if out.lookup(es@[i as int].0@) is Some {
                        let j = choose|j: int| 0 <= j < i && es@[j].0@ == es@[i as int].0@;
                    }
                }
            }
        }
    }
    proof {
        assert forall|p: Seq<char>|
            match #[trigger] required.lookup(p) {
                Some(keys) => missing_entry_ok(out, p, keys, *provided),
                None => out.lookup(p) is None,
            } by {
            match required.lookup(p) {
                Some(keys) => {
                    lemma_find_entry_some(es@, p);
                    let j = choose|j: int|
                        0 <= j < es@.len() && es@[j].0@ == p && find_entry(es@, p) == Some(
                            es@[j].1,
                        );
                    assert(missing_entry_ok(out, es@[j].0@, es@[j].1, *provided));
                },
                None => {
                    if out.lookup(p) is Some {
                        let j = choose|j: int| 0 <= j < es@.len() && es@[j].0@ == p;
                        crate::strmap::lemma_find_entry_at(es@, j);
                    }
                },
            }
        }
    }
    out
}


/// An identifier that `greentic_types` accepts: non-empty, of ASCII letters,
/// digits, `.`, `_` and `-`.
pub open spec fn valid_identifier(s: Seq<char>) -> bool {
    s.len() > 0 && forall|i: int|
        0 <= i < s.len() ==> {
            let c = #[trigger] s[i];
            ('a' <= c && c <= 'z') || ('A' <= c && c <= 'Z') || ('0' <= c && c <= '9') || c == '.'
                || c == '_' || c == '-'
        }
}

/// Whether `greentic_types::NodeId::new` accepts the text; its documented
/// rule is that an identifier is non-empty and made of ASCII letters,
/// digits, `.`, `_` and `-`.
#[verifier::external_body]
fn node_id_accepted(s: &str) -> (r: bool)
    ensures
        r == valid_identifier(s@),
{
    greentic_types::NodeId::new(s).is_ok()
}

/// Whether `greentic_types::FlowId::new` accepts the text, by the same
/// identifier rule as node ids.
#[verifier::external_body]
fn flow_id_accepted(s: &str) -> (r: bool)
    ensures
        r == valid_identifier(s@),
{
    greentic_types::FlowId::new(s).is_ok()
}

/// How a node passes control on.
#[derive(Debug, PartialEq, Eq)]
pub enum Routing {
    /// To one node.
    Next(String),
    /// By outcome status (ascending status names), else to a default.
    Branch { on_status: StrMap<String>, default: Option<String> },
    End,
    Reply,
    Custom,
}

/// A node of a flow graph.
#[derive(Debug, PartialEq, Eq)]
pub struct FlowNode {
    pub id: String,
    pub component_id: String,
    pub operation: Option<String>,
    pub routing: Routing,
}

/// A flow graph: named entrypoints (the value is present when it is text)
/// and the nodes in declaration order.
#[derive(Debug, PartialEq, Eq)]
pub struct FlowGraph {
    pub entrypoints: StrMap<Option<String>>,
    pub nodes: Vec<FlowNode>,
}

/// A flow of a pack.
#[derive(Debug, PartialEq, Eq)]
pub struct PackFlow {
    pub id: String,
    pub kind: String,
    pub flow: FlowGraph,
}

/// What the pack runner reads of a pack manifest.
#[derive(Debug, PartialEq, Eq)]
pub struct PackModel {
    pub pack_id: String,
    pub flows: Vec<PackFlow>,
    /// The ids of the components the manifest lists.
    pub components: Vec<String>,
    /// The provider types the provider extension declares, in order.
    pub provider_types: Vec<String>,
}

/// The node an entrypoint value names, if it is a valid node id.
pub open spec fn entry_target(v: Option<Option<String>>) -> Option<Seq<char>> {
    match v {
        Some(Some(s)) => if valid_identifier(s@) {
            Some(s@)
        } else {
            None
        },
        _ => None,
    }
}

/// The first valid node id among entrypoint values, in key order.
pub open spec fn first_valid_entry(es: Seq<(String, Option<String>)>) -> Option<Seq<char>>
    decreases es.len(),
{
    if es.len() == 0 {
        None
    } else if entry_target(Some(es[0].1)) is Some {
        entry_target(Some(es[0].1))
    } else {
        first_valid_entry(es.drop_first())
    }
}

/// The node a walk starts from: the `default` entrypoint, else `smoke`,
/// else the first valid entrypoint in key order, else the first node.
pub open spec fn entry_node_of(g: FlowGraph) -> Option<Seq<char>> {
    if entry_target(g.entrypoints.lookup("default"@)) is Some {
        entry_target(g.entrypoints.lookup("default"@))
    } else if entry_target(g.entrypoints.lookup("smoke"@)) is Some {
        entry_target(g.entrypoints.lookup("smoke"@))
    } else if first_valid_entry(g.entrypoints.items()) is Some {
        first_valid_entry(g.entrypoints.items())
    } else if g.nodes@.len() > 0 {
        Some(g.nodes@[0].id@)
    } else {
        None
    }
}

fn entry_target_exec(v: Option<&Option<String>>) -> (r: Option<String>)
    ensures
        opt_view(r) == entry_target(
            match v {
                Some(x) => Some(*x),
                None => None,
            },
        ),
{
    match v {
        Some(Some(s)) => if node_id_accepted(s.as_str()) {
            Some(s.clone())
        } else {
            None
        },
        _ => None,
    }
}

/// The node a walk of the flow starts from.
pub fn resolve_entry_node(flow: &FlowGraph) -> (r: Option<String>)
    ensures
        opt_view(r) == entry_node_of(*flow),
{
    let d = entry_target_exec(flow.entrypoints.get("default"));
    if d.is_some() {
        return d;
    }
    let sm = entry_target_exec(flow.entrypoints.get("smoke"));
    if sm.is_some() {
        return sm;
    }
    let es = flow.entrypoints.entries();
    proof {
        assert(es@.skip(0) =~= es@);
    }
    for i in 0..es.len()
        invariant
            es@ == flow.entrypoints.items(),
            first_valid_entry(es@) == first_valid_entry(es@.skip(i as int)),
            entry_target(flow.entrypoints.lookup("default"@)) is None,
            entry_target(flow.entrypoints.lookup("smoke"@)) is None,
    {
        proof {
            assert(es@.skip(i as int).drop_first() =~= es@.skip(i + 1));
            assert(es@.skip(i as int)[0] == es@[i as int]);
        }
        let t = entry_target_exec(Some(&es[i].1));
        if t.is_some() {
            return t;
        }
    }
    proof {
        assert(es@.skip(es@.len() as int).len() == 0);
    }
    if flow.nodes.len() > 0 {
        Some(flow.nodes[0].id.clone())
    } else {
        None
    }
}

/// The node control passes to next: the target of `Next`; for a branch its
/// default, else the target of its first status; none otherwise.
pub open spec fn next_of(r: Routing) -> Option<Seq<char>> {
    match r {
        Routing::Next(id) => Some(id@),
        Routing::Branch { on_status, default } => match default {
            Some(d) => Some(d@),
            None => if on_status.items().len() > 0 {
                Some(on_status.items()[0].1@)
            } else {
                None
            },
        },
        _ => None,
    }
}

/// A branch with a default goes to its default, whatever its statuses.
pub proof fn lemma_branch_prefers_default(on_status: StrMap<String>, d: String)
    ensures
        next_of(Routing::Branch { on_status, default: Some(d) }) == Some(d@),
{
}

/// A branch without a default goes to the target of its first status, and
/// nowhere when it has no status.
pub proof fn lemma_branch_without_default(on_status: StrMap<String>)
    ensures
        on_status.items().len() > 0 ==> next_of(Routing::Branch { on_status, default: None })
            == Some(on_status.items()[0].1@),
        on_status.items().len() == 0 ==> next_of(Routing::Branch { on_status, default: None }) is None,
{
}

/// The id of the node that follows `node`.
pub fn next_node_id(node: &FlowNode) -> (r: Option<String>)
    ensures
        opt_view(r) == next_of(node.routing),
{
    match &node.routing {
        Routing::Next(id) => Some(id.clone()),
        Routing::Branch { on_status, default } => match default {
            Some(d) => Some(d.clone()),
            None => {
                let es = on_status.entries();
                if es.len() > 0 {
                    Some(es[0].1.clone())
                } else {
                    None
                }
            },
        },
        _ => None,
    }
}

/// The outcome of one step of a pack run.
#[derive(Clone, Copy, Debug, PartialEq, Eq)]
pub enum PackStepStatus {
    Planned,
    Executed,
    MissingComponent,
}

impl PackStepStatus {
    /// A step is fine unless its component is missing.
    pub fn is_ok(&self) -> (r: bool)
        ensures
            r == !(*self is MissingComponent),
    {
        !matches!(self, PackStepStatus::MissingComponent)
    }
}

/// One visited node of a pack run.
#[derive(Debug, PartialEq, Eq)]
pub struct PackStepReport {
    pub node_id: String,
    pub component_id: String,
    pub operation: Option<String>,
    pub status: PackStepStatus,
}

/// A step as plain values: node, component, operation, status.
pub type StepView = (Seq<char>, Seq<char>, Option<Seq<char>>, PackStepStatus);

/// The plain values of a step.
pub open spec fn step_view(s: PackStepReport) -> StepView {
    (s.node_id@, s.component_id@, opt_view(s.operation), s.status)
}

/// The plain values of steps.
pub open spec fn step_views(s: Seq<PackStepReport>) -> Seq<StepView> {
    s.map_values(|x: PackStepReport| step_view(x))
}

/// The first node with the given id.
pub open spec fn node_index(nodes: Seq<FlowNode>, id: Seq<char>) -> Option<int> {
    if exists|i: int| 0 <= i < nodes.len() && nodes[i].id@ == id {
        Some(
            choose|i: int|
                0 <= i < nodes.len() && nodes[i].id@ == id && forall|j: int|
                    0 <= j < i ==> nodes[j].id@ != id,
        )
    } else {
        None
    }
}

fn find_node(nodes: &Vec<FlowNode>, id: &str) -> (r: Option<usize>)
    ensures
        match r {
            Some(i) => node_index(nodes@, id@) == Some(i as int) && i < nodes@.len(),
            None => node_index(nodes@, id@) is None,
        },
{
    for i in 0..nodes.len()
        invariant
            forall|j: int| 0 <= j < i ==> nodes@[j].id@ != id@,
    {
        if str_eq(nodes[i].id.as_str(), id) {
            proof {
                let c = choose|k: int|
                    0 <= k < nodes@.len() && nodes@[k].id@ == id@ && forall|j: int|
                        0 <= j < k ==> nodes@[j].id@ != id@;
                if c < i {
                } else if c > i {
                }
            }
            return Some(i);
        }
    }
    None
}

/// The step limit of a walk: four per node, saturating, and at least one.
pub open spec fn max_steps_of(n: nat) -> nat {
    let m = if 4 * n > usize::MAX { usize::MAX as nat } else { 4 * n };
    if m < 1 {
        1
    } else {
        m
    }
}

/// The status of a node's step.
pub open spec fn step_status_of(present: bool, dry_run: bool) -> PackStepStatus {
    if present {
        if dry_run {
            PackStepStatus::Planned
        } else {
            PackStepStatus::Executed
        }
    } else {
        PackStepStatus::MissingComponent
    }
}

/// The message for a node reached twice.
pub open spec fn cycle_message(id: Seq<char>) -> Seq<char> {
    "detected cycle at node "@ + id
}

/// The message for a walk cut off at its step limit.
pub open spec fn abort_message(n: nat) -> Seq<char> {
    "aborted after "@ + crate::text::decimal(n) + " steps (possible infinite loop)"@
}

/// The message for a reference to a node that does not exist.
pub open spec fn missing_node_message(id: Seq<char>) -> Seq<char> {
    "entrypoint references missing node "@ + id
}

/// The walk from `current` with the nodes already `visited` and the steps
/// taken so far: the steps and the error that ended it, if any.
pub open spec fn walk_from(
    g: FlowGraph,
    components: StrMap<()>,
    dry_run: bool,
    max: nat,
    current: Seq<char>,
    visited: Set<Seq<char>>,
    steps: Seq<StepView>,
) -> (Seq<StepView>, Option<Seq<char>>)
    decreases max - steps.len(),
{
    if visited.contains(current) {
        (steps, Some(cycle_message(current)))
    } else if steps.len() >= max {
        (steps, Some(abort_message(steps.len())))
    } else {
        match node_index(g.nodes@, current) {
            None => (steps, Some(missing_node_message(current))),
            Some(i) => {
                let node = g.nodes@[i];
                let status = step_status_of(
                    components.lookup(node.component_id@) is Some,
                    dry_run,
                );
                let steps2 = steps.push(
                    (current, node.component_id@, opt_view(node.operation), status),
                );
                if status is MissingComponent {
                    (steps2, None)
                } else {
                    match next_of(node.routing) {
                        Some(n) => walk_from(
                            g,
                            components,
                            dry_run,
                            max,
                            n,
                            visited.insert(current),
                            steps2,
                        ),
                        None => (steps2, None),
                    }
                }
            },
        }
    }
}

/// The steps and errors of walking a flow.
pub struct FlowWalk {
    pub steps: Vec<PackStepReport>,
    pub errors: Vec<String>,
}

/// The walk of a whole flow from its entry node.
pub open spec fn flow_walk_of(g: FlowGraph, components: StrMap<()>, dry_run: bool) -> (
    Seq<StepView>,
    Seq<Seq<char>>,
) {
    match entry_node_of(g) {
        None => (Seq::empty(), seq!["flow has no entrypoint"@]),
        Some(e) => {
            let w = walk_from(
                g,
                components,
                dry_run,
                max_steps_of(g.nodes@.len()),
                e,
                Set::empty(),
                Seq::empty(),
            );
            (
                w.0,
                match w.1 {
                    Some(m) => seq![m],
                    None => Seq::empty(),
                },
            )
        },
    }
}

/// Walks a flow from its entry node, following each node's next node,
/// until it ends, reaches a node twice, meets a missing node or component,
/// or exceeds its step limit.
pub fn walk_flow(flow: &FlowGraph, component_ids: &StrMap<()>, dry_run: bool) -> (r: FlowWalk)
    ensures
        (step_views(r.steps@), views(r.errors@)) == flow_walk_of(*flow, *component_ids, dry_run),
{
    let mut steps: Vec<PackStepReport> = Vec::new();
    let mut errors: Vec<String> = Vec::new();
    let entry = resolve_entry_node(flow);
    let mut current = match entry {
        Some(e) => e,
        None => {
            errors.push(owned("flow has no entrypoint"));
            proof {
                assert(step_views(steps@) =~= Seq::empty());
                assert(views(errors@) =~= seq!["flow has no entrypoint"@]);
            }
            return FlowWalk { steps, errors };
        },
    };
    let n = flow.nodes.len();
    let max_steps: usize = if n > usize::MAX / 4 {
        usize::MAX
    } else if n == 0 {
        1
    } else {
        n * 4
    };
    let mut visited: StrMap<()> = StrMap::new();
    let ghost vis: Set<Seq<char>> = Set::empty();
    let ghost target = walk_from(
        *flow,
        *component_ids,
        dry_run,
        max_steps as nat,
        current@,
        vis,
        Seq::empty(),
    );
    proof {
        assert(max_steps as nat == max_steps_of(n as nat));
        assert(step_views(steps@) =~= Seq::empty());
    }
    loop
        invariant_except_break
            errors@.len() == 0,
            walk_from(
                *flow,
                *component_ids,
                dry_run,
                max_steps as nat,
                current@,
                vis,
                step_views(steps@),
            ) == target,
        invariant
            max_steps as nat == max_steps_of(flow.nodes@.len()),
            steps@.len() <= max_steps,
            forall|k: Seq<char>| #[trigger] visited.lookup(k) is Some <==> vis.contains(k),
        ensures
            (step_views(steps@), opt_view(if errors@.len() > 0 {
                Some(errors@[0])
            } else {
                None
            })) == target,
            errors@.len() <= 1,
        decreases max_steps - steps@.len(),
    {
        if visited.contains_key(current.as_str()) {
            let mut m = owned("detected cycle at node ");
            push_str(&mut m, current.as_str());
            errors.push(m);
            break;
        }
        if steps.len() >= max_steps {
            let mut m = owned("aborted after ");
            push_str(&mut m, crate::text::decimal_string(steps.len()).as_str());
            push_str(&mut m, " steps (possible infinite loop)");
            errors.push(m);
            break;
        }
        let idx = match find_node(&flow.nodes, current.as_str()) {
            Some(i) => i,
            None => {
                let mut m = owned("entrypoint references missing node ");
                push_str(&mut m, current.as_str());
                errors.push(m);
                break;
            },
        };
        let node = &flow.nodes[idx];
        let present = component_ids.contains_key(node.component_id.as_str());
        let status = if present {
            if dry_run {
                PackStepStatus::Planned
            } else {
                PackStepStatus::Executed
            }
        } else {
            PackStepStatus::MissingComponent
        };
        let ghost before = steps@;
        steps.push(
            PackStepReport {
                node_id: current.clone(),
                component_id: node.component_id.clone(),
                operation: match &node.operation {
                    Some(op) => Some(op.clone()),
                    None => None,
                },
                status,
            },
        );
        proof {
            assert(step_views(steps@) =~= step_views(before).push(
                (current@, node.component_id@, opt_view(node.operation), status),
            ));
        }
        if !status.is_ok() {
            break;
        }
        match next_node_id(node) {
            Some(next) => {
                let ghost old_current = current@;
                visited.insert(current, ());
                proof {
                    vis = vis.insert(old_current);
                }
                current = next;
            },
            None => {
                break;
            },
        }
    }
    proof {
        assert(views(errors@) =~= match opt_view(if errors@.len() > 0 {
            Some(errors@[0])
        } else {
            None
        }) {
            Some(m) => seq![m],
            None => Seq::<Seq<char>>::empty(),
        });
    }
    FlowWalk { steps, errors }
}


/// The first flow with the given id.
pub open spec fn flow_index(flows: Seq<PackFlow>, id: Seq<char>) -> Option<int> {
    if exists|i: int| 0 <= i < flows.len() && flows[i].id@ == id {
        Some(
            choose|i: int|
                0 <= i < flows.len() && flows[i].id@ == id && forall|j: int|
                    0 <= j < i ==> flows[j].id@ != id,
        )
    } else {
        None
    }
}

fn find_flow(flows: &Vec<PackFlow>, id: &str) -> (r: Option<usize>)
    ensures
        match r {
            Some(i) => flow_index(flows@, id@) == Some(i as int) && i < flows@.len(),
            None => flow_index(flows@, id@) is None,
        },
{
    for i in 0..flows.len()
        invariant
            forall|j: int| 0 <= j < i ==> flows@[j].id@ != id@,
    {
        if str_eq(flows[i].id.as_str(), id) {
            proof {
                let c = choose|k: int|
                    0 <= k < flows@.len() && flows@[k].id@ == id@ && forall|j: int|
                        0 <= j < k ==> flows@[j].id@ != id@;
                if c < i {
                } else if c > i {
                }
            }
            return Some(i);
        }
    }
    None
}

/// The message for a flow the pack lacks.
pub open spec fn flow_not_found_message(id: Seq<char>, pack: Seq<char>) -> Seq<char> {
    "flow "@ + id + " not found in pack "@ + pack
}

/// Which flow a run uses: the requested one, which must be a valid id and
/// present; else the `smoke` flow; else the first flow.
pub open spec fn flow_choice(p: PackModel, requested: Option<Seq<char>>) -> Result<int, Seq<char>> {
    match requested {
        Some(id) => if !valid_identifier(id) {
            Err("invalid flow id"@)
        } else {
            match flow_index(p.flows@, id) {
                Some(i) => Ok(i),
                None => Err(flow_not_found_message(id, p.pack_id@)),
            }
        },
        None => match flow_index(p.flows@, "smoke"@) {
            Some(i) => Ok(i),
            None => if p.flows@.len() == 0 {
                Err("pack contains no flows"@)
            } else {
                Ok(0)
            },
        },
    }
}

/// Selects the flow to run, as the index of the chosen flow.
pub fn select_flow(pack: &PackModel, override_flow: Option<&str>) -> (r: Result<usize, String>)
    ensures
        match flow_choice(
            *pack,
            match override_flow {
                Some(s) => Some(s@),
                None => None,
            },
        ) {
            Ok(i) => (r matches Ok(j) && j as int == i) && 0 <= i < pack.flows@.len(),
            Err(m) => r matches Err(x) && x@ == m,
        },
{
    match override_flow {
        Some(id) => {
            if !flow_id_accepted(id) {
                return Err(owned("invalid flow id"));
            }
            match find_flow(&pack.flows, id) {
                Some(i) => Ok(i),
                None => {
                    let mut m = concat2("flow ", id);
                    push_str(&mut m, " not found in pack ");
                    push_str(&mut m, pack.pack_id.as_str());
                    Err(m)
                },
            }
        },
        None => match find_flow(&pack.flows, "smoke") {
            Some(i) => Ok(i),
            None => {
                if pack.flows.len() == 0 {
                    Err(owned("pack contains no flows"))
                } else {
                    Ok(0)
                }
            },
        },
    }
}

/// The component ids of the flow's nodes that are not available, ascending
/// and without repeats.
pub fn find_missing_components(flow: &FlowGraph, component_ids: &StrMap<()>) -> (r: Vec<String>)
    ensures
        crate::strmap::sorted_strict(views(r@)),
        forall|c: Seq<char>|
            #[trigger] views(r@).contains(c) <==> (exists|i: int|
                0 <= i < flow.nodes@.len() && flow.nodes@[i].component_id@ == c)
                && component_ids.lookup(c) is None,
{
    let mut set: StrMap<()> = StrMap::new();
    for i in 0..flow.nodes.len()
        invariant
            forall|c: Seq<char>|
                #[trigger] set.lookup(c) is Some <==> (exists|j: int|
                    0 <= j < i && flow.nodes@[j].component_id@ == c) && component_ids.lookup(c) is None,
    {
        let cid = &flow.nodes[i].component_id;
        if !component_ids.contains_key(cid.as_str()) {
            set.insert(cid.clone(), ());
        }
        proof {
            assert forall|c: Seq<char>|
                #[trigger] set.lookup(c) is Some <==> (exists|j: int|
                    0 <= j < i + 1 && flow.nodes@[j].component_id@ == c) && component_ids.lookup(
                    c,
                ) is None by {
                if (exists|j: int| 0 <= j < i + 1 && flow.nodes@[j].component_id@ == c)
                    && component_ids.lookup(c) is None && c != flow.nodes@[i as int].component_id@ {
                    let j = choose|j: int| 0 <= j < i + 1 && flow.nodes@[j].component_id@ == c;
                    assert(j < i);
                }
            }
        }
    }
    set.keys()
}

/// The provider types a pack declares, ascending and without repeats.
pub fn provider_ids_from_extensions(provider_types: &Vec<String>) -> (r: Vec<String>)
    ensures
        crate::strmap::sorted_strict(views(r@)),
        forall|p: Seq<char>| #[trigger] views(r@).contains(p) <==> views(provider_types@).contains(p),
{
    let mut set: StrMap<()> = StrMap::new();
    for i in 0..provider_types.len()
        invariant
            forall|p: Seq<char>|
                #[trigger] set.lookup(p) is Some <==> views(provider_types@).take(i as int).contains(p),
    {
        set.insert(provider_types[i].clone(), ());
        proof {
            let t = views(provider_types@).take(i as int);
            let t2 = views(provider_types@).take(i + 1);
            let x = provider_types@[i as int]@;
            assert(t2 =~= t.push(x));
            assert forall|p: Seq<char>| #[trigger] set.lookup(p) is Some <==> t2.contains(p) by {
                if t.contains(p) {
                    let k = choose|k: int| 0 <= k < t.len() && t[k] == p;
                    assert(t2[k] == p);
                }
                if p == x {
                    assert(t2[i as int] == p);
                }
                if t2.contains(p) {
                    let k = choose|k: int| 0 <= k < t2.len() && t2[k] == p;
                    if k < i {
                        assert(t[k] == p);
                    }
                }
            }
        }
    }
    proof {
        assert(views(provider_types@).take(provider_types.len() as int) =~= views(provider_types@));
    }
    set.keys()
}

/// What a pack run found.
#[derive(Debug)]
pub struct PackRunReport {
    pub pack_id: String,
    pub pack_path: String,
    pub flow_id: String,
    pub flow_kind: String,
    pub lint_errors: Vec<String>,
    pub missing_components: Vec<String>,
    pub provider_ids: Vec<String>,
    pub dry_run: bool,
    pub steps: Vec<PackStepReport>,
    pub errors: Vec<String>,
    pub secret_uris: Vec<String>,
    pub required_config: StrMap<Vec<String>>,
    pub missing_config: StrMap<Vec<String>>,
    pub missing_secret_keys: Vec<String>,
}

/// A run succeeds when nothing was refused or missing and every step is fine.
pub open spec fn run_succeeded(r: PackRunReport) -> bool {
    &&& r.lint_errors@.len() == 0
    &&& r.missing_components@.len() == 0
    &&& r.errors@.len() == 0
    &&& forall|i: int| 0 <= i < r.steps@.len() ==> !(r.steps@[i].status is MissingComponent)
}

impl PackRunReport {
    /// Whether the run succeeded.
    pub fn is_success(&self) -> (r: bool)
        ensures
            r == run_succeeded(*self),
    {
        if self.lint_errors.len() != 0 || self.missing_components.len() != 0 || self.errors.len()
            != 0 {
            return false;
        }
        for i in 0..self.steps.len()
            invariant
                forall|j: int| 0 <= j < i ==> !(self.steps@[j].status is MissingComponent),
        {
            if !self.steps[i].status.is_ok() {
                return false;
            }
        }
        true
    }
}

/// What to do with a discovered pack in a run of all packs.
#[derive(Debug, PartialEq, Eq)]
pub enum PackGate {
    /// Run it.
    Run,
    /// Leave it out.
    Skip,
    /// Stop the whole run with this message.
    Fail(String),
}

/// Whether a pack found in a run of all packs runs: one with an error
/// stops the whole run under `fail_fast` and is skipped otherwise; one
/// without a manifest is skipped.
pub fn pack_gate(path: &str, load_error: Option<&str>, has_manifest: bool, fail_fast: bool) -> (r:
    PackGate)
    ensures
        match load_error {
            Some(e) => if fail_fast {
                r matches PackGate::Fail(m) && m@ == "failed to load "@ + path@ + ": "@ + e@
            } else {
                r is Skip
            },
            None => if has_manifest {
                r is Run
            } else {
                r is Skip
            },
        },
{
    match load_error {
        Some(e) => {
            if fail_fast {
                let mut m = concat2("failed to load ", path);
                push_str(&mut m, ": ");
                push_str(&mut m, e);
                PackGate::Fail(m)
            } else {
                PackGate::Skip
            }
        },
        None => if has_manifest {
            PackGate::Run
        } else {
            PackGate::Skip
        },
    }
}

/// After a pack ran: under `fail_fast` an unsuccessful run stops all.
pub fn check_report(report: &PackRunReport, fail_fast: bool) -> (r: Result<(), String>)
    ensures
        if fail_fast && !run_succeeded(*report) {
            r matches Err(m) && m@ == "pack "@ + report.pack_id@ + " failed validation"@
        } else {
            r is Ok
        },
{
    if fail_fast && !report.is_success() {
        let mut m = concat2("pack ", report.pack_id.as_str());
        push_str(&mut m, " failed validation");
        return Err(m);
    }
    Ok(())
}


/// How a pack's components are materialized.
#[derive(Clone, Debug, PartialEq, Eq)]
pub struct MaterializeOptions {
    pub resolve_components: bool,
    pub offline: bool,
    pub allow_tags: bool,
    pub cache_root: String,
}

/// A pack ready to run, and where its components were put.
#[derive(Clone, Debug, PartialEq, Eq)]
pub struct MaterializedPack {
    pub pack_path: String,
    pub components_dir: Option<String>,
}

/// Makes a pack's components available before it runs.
pub trait PackMaterializer {
    fn materialize(&self, pack: &str, opts: &MaterializeOptions) -> Result<MaterializedPack, String>;
}

/// The BLAKE3 digest of some bytes.
pub uninterp spec fn blake3_digest(bytes: Seq<u8>) -> Seq<u8>;

/// Hashes bytes with the `blake3` crate's `Hasher`; the digest is named
/// by `blake3_digest` and is 32 bytes long, the crate's output length.
#[verifier::external_body]
fn blake3_hash(bytes: &[u8]) -> (r: Vec<u8>)
    ensures
        r@ == blake3_digest(bytes@),
        r@.len() == 32,
{
    let mut hasher = blake3::Hasher::new();
    hasher.update(bytes);
    hasher.finalize().as_bytes().to_vec()
}

/// Bytes as lower-case hexadecimal, two digits a byte, high nibble first.
pub open spec fn lower_hex(bytes: Seq<u8>) -> Seq<char>
    decreases bytes.len(),
{
    if bytes.len() == 0 {
        Seq::empty()
    } else {
        lower_hex(bytes.drop_last()) + seq![
            crate::json::hex_digit((bytes.last() / 16) as int),
            crate::json::hex_digit((bytes.last() % 16) as int),
        ]
    }
}

fn hex_char(d: u8) -> (r: char)
    requires
        d < 16,
    ensures
        r == crate::json::hex_digit(d as int),
{
    if d < 10 {
        (48 + d) as char
    } else {
        (87 + d) as char
    }
}

fn hex_text(bytes: &Vec<u8>) -> (r: String)
    ensures
        r@ == lower_hex(bytes@),
{
    let mut out = String::new();
    for i in 0..bytes.len()
        invariant
            out@ == lower_hex(bytes@.take(i as int)),
    {
        let b = bytes[i];
        crate::text::push_char(&mut out, hex_char(b / 16));
        crate::text::push_char(&mut out, hex_char(b % 16));
        proof {
            let t = bytes@.take(i + 1);
            assert(t.drop_last() =~= bytes@.take(i as int));
            assert(t.last() == b);
            assert(out@ =~= lower_hex(t));
        }
    }
    proof {
        assert(bytes@.take(bytes@.len() as int) =~= bytes@);
    }
    out
}

/// The options a run materializes with: the run's flags and the cache root.
pub fn materialize_options(runtime: &PackRuntimeArgs, cache_root: String) -> (r: MaterializeOptions)
    ensures
        r.resolve_components == runtime.resolve_components,
        r.offline == runtime.offline,
        r.allow_tags == runtime.allow_tags,
        r.cache_root == cache_root,
{
    MaterializeOptions {
        resolve_components: runtime.resolve_components,
        offline: runtime.offline,
        allow_tags: runtime.allow_tags,
        cache_root,
    }
}

/// The cache root materialization uses: `GREENTIC_HOME` when set, else
/// `.cache/greentic` under the home directory, else `.cache/greentic`.
pub fn cache_root_of(greentic_home: Option<&str>, home: Option<&str>) -> (r: String)
    ensures
        r@ == match greentic_home {
            Some(g) => g@,
            None => match home {
                Some(h) => joined_path(h@, ".cache/greentic"@),
                None => ".cache/greentic"@,
            },
        },
{
    match greentic_home {
        Some(g) => owned(g),
        None => match home {
            Some(h) => join_path(h, ".cache/greentic"),
            None => owned(".cache/greentic"),
        },
    }
}

/// The options a run with these flags materializes with under `cache_root`.
pub open spec fn options_for(runtime: PackRuntimeArgs, cache_root: String) -> MaterializeOptions {
    MaterializeOptions {
        resolve_components: runtime.resolve_components,
        offline: runtime.offline,
        allow_tags: runtime.allow_tags,
        cache_root,
    }
}

/// Materializes a pack with the run's flags under the cache root: the
/// materializer is asked once, with `options_for(runtime, cache_root)`,
/// and its answer is the result.
pub fn materialize_pack<M: PackMaterializer>(pack: &str, runtime: &PackRuntimeArgs, materializer: &M, cache_root: String) -> (r: Result<
    MaterializedPack,
    String,
>)
    ensures
        call_ensures(M::materialize, (materializer, pack, &options_for(*runtime, cache_root)), r),
{
    let opts = materialize_options(runtime, cache_root);
    materializer.materialize(pack, &opts)
}

/// Materializes packs into a content-addressed cache of the distributor
/// client.
#[derive(Debug, PartialEq, Eq)]
pub struct DistributorClientMaterializer {
    pub cache_root: String,
}

impl DistributorClientMaterializer {
    /// A materializer caching under `cache_root`.
    pub fn new(cache_root: String) -> (r: Self)
        ensures
            r.cache_root == cache_root,
    {
        DistributorClientMaterializer { cache_root }
    }

    /// The cache directory of a pack's materialized components:
    /// `{base}/materialized/{hash}`, the hash being the lower-case hex of
    /// the BLAKE3 digest of the pack's bytes.
    pub fn cache_dir_for_pack(&self, pack_bytes: &[u8], base: &str) -> (r: String)
        ensures
            r@ == joined_path(joined_path(base@, "materialized"@), lower_hex(blake3_digest(pack_bytes@))),
    {
        let digest = blake3_hash(pack_bytes);
        let hex = hex_text(&digest);
        let a = join_path(base, "materialized");
        join_path(a.as_str(), hex.as_str())
    }

    /// The cache base: the options' root, unless that is empty.
    pub fn cache_base(&self, opts: &MaterializeOptions) -> (r: String)
        ensures
            r@ == (if opts.cache_root@.len() == 0 {
                self.cache_root@
            } else {
                opts.cache_root@
            }),
    {
        let c = to_chars(opts.cache_root.as_str());
        if c.len() == 0 {
            self.cache_root.clone()
        } else {
            opts.cache_root.clone()
        }
    }

    /// The components directory of a pack whose content hash is `hash`:
    /// `{base}/materialized/{hash}/components`.
    pub fn components_root(&self, base: &str, hash: &str) -> (r: String)
        ensures
            r@ == joined_path(joined_path(joined_path(base@, "materialized"@), hash@), "components"@),
    {
        let a = join_path(base, "materialized");
        let b = join_path(a.as_str(), hash);
        join_path(b.as_str(), "components")
    }

    /// The result when components are not resolved: the pack as it is.
    pub fn unresolved(&self, pack: &str, opts: &MaterializeOptions) -> (r: Option<MaterializedPack>)
        ensures
            if opts.resolve_components {
                r is None
            } else {
                r matches Some(m) && m.pack_path@ == pack@ && m.components_dir is None
            },
    {
        if opts.resolve_components {
            None
        } else {
            Some(MaterializedPack { pack_path: owned(pack), components_dir: None })
        }
    }

    /// Offline runs need the component cache to exist already.
    pub fn check_offline(&self, pack: &str, opts: &MaterializeOptions, root_exists: bool) -> (r:
        Result<(), String>)
        ensures
            if opts.offline && !root_exists {
                r matches Err(e) && e@ == "offline mode enabled; component cache missing for pack "@
                    + pack@
            } else {
                r is Ok
            },
    {
        if opts.offline && !root_exists {
            return Err(concat2("offline mode enabled; component cache missing for pack ", pack));
        }
        Ok(())
    }
}

/// What a pack run reports, for the selected flow, given what was read
/// outside: lint findings, available components, secret URIs, required
/// configuration and the secret values found.
pub open spec fn run_pack_ok(
    r: PackRunReport,
    pack: PackModel,
    runtime: PackRuntimeArgs,
    materialized: MaterializedPack,
    i: int,
    lint_errors: Seq<String>,
    component_ids: StrMap<()>,
    component_errors: Seq<String>,
    secret_uris: Seq<String>,
    required_config: StrMap<Vec<String>>,
    resolved: StrMap<String>,
) -> bool {
    let flow = pack.flows@[i];
    let walk = flow_walk_of(flow.flow, component_ids, runtime.dry_run);
    &&& r.pack_id@ == pack.pack_id@
    &&& r.pack_path@ == materialized.pack_path@
    &&& r.flow_id@ == flow.id@
    &&& r.flow_kind@ == flow.kind@
    &&& r.lint_errors@ == lint_errors
    &&& crate::strmap::sorted_strict(views(r.missing_components@))
    &&& (forall|c: Seq<char>|
        #[trigger] views(r.missing_components@).contains(c) <==> (exists|j: int|
            0 <= j < flow.flow.nodes@.len() && flow.flow.nodes@[j].component_id@ == c)
            && component_ids.lookup(c) is None)
    &&& crate::strmap::sorted_strict(views(r.provider_ids@))
    &&& (forall|p: Seq<char>|
        #[trigger] views(r.provider_ids@).contains(p) <==> views(pack.provider_types@).contains(p))
    &&& r.dry_run == runtime.dry_run
    &&& step_views(r.steps@) == walk.0
    &&& views(r.errors@) == views(component_errors) + walk.1
    &&& r.secret_uris@ == secret_uris
    &&& r.required_config == required_config
    &&& crate::strmap::sorted_strict(views(r.missing_secret_keys@))
    &&& (forall|k: Seq<char>|
        #[trigger] views(r.missing_secret_keys@).contains(k) <==> key_missing_among(
            secret_uris,
            secret_uris.len() as int,
            resolved,
            k,
        ))
}

/// The required keys that no configuration entry sets, in their order.
pub open spec fn missing_keys_cfg(keys: Seq<Seq<char>>, cfg: Seq<Seq<char>>) -> Seq<Seq<char>>
    decreases keys.len(),
{
    if keys.len() == 0 {
        Seq::empty()
    } else if config_lookup(cfg, keys.last()) is Some {
        missing_keys_cfg(keys.drop_last(), cfg)
    } else {
        missing_keys_cfg(keys.drop_last(), cfg).push(keys.last())
    }
}

/// What the missing-configuration map holds for a provider that requires
/// `keys`, given the configuration entries.
pub open spec fn missing_cfg_ok(
    r: StrMap<Vec<String>>,
    provider: Seq<char>,
    keys: Vec<String>,
    cfg: Seq<Seq<char>>,
) -> bool {
    let m = missing_keys_cfg(views(keys@), cfg);
    if m.len() > 0 {
        r.lookup(provider) matches Some(v) && views(v@) == m
    } else {
        r.lookup(provider) is None
    }
}

/// Missing keys agree whether read from the parsed map or the entries.
pub proof fn lemma_missing_keys_cfg(keys: Seq<Seq<char>>, provided: StrMap<String>, cfg: Seq<Seq<char>>)
    requires
        forall|k: Seq<char>| #[trigger] opt_view(provided.lookup(k)) == config_lookup(cfg, k),
    ensures
        missing_keys(keys, provided) == missing_keys_cfg(keys, cfg),
    decreases keys.len(),
{
    if keys.len() > 0 {
        lemma_missing_keys_cfg(keys.drop_last(), provided, cfg);
        assert(opt_view(provided.lookup(keys.last())) == config_lookup(cfg, keys.last()));
    }
}

/// Runs a pack's selected flow on paper and reports what it found; the
/// flow is chosen and the configuration parsed here, the rest is given.
pub fn run_pack(
    pack: &PackModel,
    runtime: &PackRuntimeArgs,
    materialized: &MaterializedPack,
    lint_errors: Vec<String>,
    component_ids: &StrMap<()>,
    component_errors: Vec<String>,
    secret_uris: Vec<String>,
    required_config: StrMap<Vec<String>>,
    resolved_secrets: &StrMap<String>,
) -> (r: Result<PackRunReport, String>)
    ensures
        match flow_choice(*pack, opt_view(runtime.flow)) {
            Err(m) => r matches Err(e) && e@ == m,
            Ok(i) => match config_error(views(runtime.config@)) {
                Some(m) => r matches Err(e) && e@ == m,
                None => r matches Ok(rep) && run_pack_ok(
                    rep,
                    *pack,
                    *runtime,
                    *materialized,
                    i,
                    lint_errors@,
                    *component_ids,
                    component_errors@,
                    secret_uris@,
                    required_config,
                    *resolved_secrets,
                ) && (forall|p: Seq<char>|
                    match #[trigger] required_config.lookup(p) {
                        Some(keys) => missing_cfg_ok(
                            rep.missing_config,
                            p,
                            keys,
                            views(runtime.config@),
                        ),
                        None => rep.missing_config.lookup(p) is None,
                    }),
            },
        },
{
    let requested: Option<&str> = match &runtime.flow {
        Some(f) => Some(f.as_str()),
        None => None,
    };
    proof {
        assert((match requested {
            Some(x) => Some(x@),
            None => None,
        }) == opt_view(runtime.flow));
    }
    let sel = select_flow(pack, requested);
    let idx = match sel {
        Ok(i) => i,
        Err(e) => {
            return Err(e);
        },
    };
    proof {
        let fc = flow_choice(*pack, opt_view(runtime.flow));
        assert(fc == Ok::<int, Seq<char>>(idx as int));
    }
    let flow = &pack.flows[idx];
    let missing_components = find_missing_components(&flow.flow, component_ids);
    let provider_ids = provider_ids_from_extensions(&pack.provider_types);
    let walk = walk_flow(&flow.flow, component_ids, runtime.dry_run);
    let provided = match parse_runtime_config(&runtime.config) {
        Ok(m) => m,
        Err(e) => {
            return Err(e);
        },
    };
    let missing_config = missing_required_config(&required_config, &provided);
    let missing_keys = missing_secret_keys(&secret_uris, resolved_secrets);
    let mut errors = component_errors;
    let ghost errs0 = errors@;
    let mut walk_errors = walk.errors;
    let ghost werrs = walk_errors@;
    errors.append(&mut walk_errors);
    proof {
        assert(views(errors@) =~= views(errs0) + views(werrs));
        assert forall|p: Seq<char>|
            match #[trigger] required_config.lookup(p) {
                Some(keys) => missing_cfg_ok(missing_config, p, keys, views(runtime.config@)),
                None => missing_config.lookup(p) is None,
            } by {
            match required_config.lookup(p) {
                Some(keys) => {
                    lemma_missing_keys_cfg(views(keys@), provided, views(runtime.config@));
                },
                None => {},
            }
        }
    }
    let report = PackRunReport {
        pack_id: pack.pack_id.clone(),
        pack_path: materialized.pack_path.clone(),
        flow_id: flow.id.clone(),
        flow_kind: flow.kind.clone(),
        lint_errors,
        missing_components,
        provider_ids,
        dry_run: runtime.dry_run,
        steps: walk.steps,
        errors,
        secret_uris,
        required_config,
        missing_config,
        missing_secret_keys: missing_keys,
    };
    proof {
        let i = idx as int;
        assert(flow_choice(*pack, opt_view(runtime.flow)) == Ok::<int, Seq<char>>(i));
        assert(pack.flows@[i] == *flow);
        assert(report.flow_id@ == flow.id@);
        assert(step_views(report.steps@) == flow_walk_of(flow.flow, *component_ids, runtime.dry_run).0);
        assert(views(report.errors@) == views(component_errors@) + flow_walk_of(flow.flow, *component_ids, runtime.dry_run).1);
    }
    Ok(report)
}


/// A bulleted line of a report.
pub open spec fn item_line(x: Seq<char>) -> Seq<char> {
    "    - "@ + x
}

/// A titled section of a report; nothing when it has no lines.
pub open spec fn section(title: Seq<char>, lines: Seq<Seq<char>>) -> Seq<Seq<char>> {
    if lines.len() == 0 {
        Seq::empty()
    } else {
        seq![title] + lines
    }
}

/// How a step's status is shown.
pub open spec fn status_text(s: PackStepStatus) -> Seq<char> {
    match s {
        PackStepStatus::Planned => "planned"@,
        PackStepStatus::Executed => "ok"@,
        PackStepStatus::MissingComponent => "missing component"@,
    }
}

/// The line of one step: node, component, operation and status.
pub open spec fn step_line(s: PackStepReport) -> Seq<char> {
    "    - "@ + s.node_id@ + " -> "@ + s.component_id@ + (match s.operation {
        Some(op) => " op="@ + op@,
        None => ""@,
    }) + " ["@ + status_text(s.status) + "]"@
}

/// The line of a provider and its redacted credentials URI.
pub open spec fn provider_line(p: Seq<char>, env: Seq<char>, tenant: Seq<char>, team: Seq<char>) -> Seq<
    char,
> {
    "    - "@ + p + " -> "@ + redacted_uri(secret_uri_of(env, tenant, team, p))
}

/// Bulleted lines of texts.
pub open spec fn item_lines_of(xs: Seq<Seq<char>>) -> Seq<Seq<char>>
    decreases xs.len(),
{
    if xs.len() == 0 {
        Seq::empty()
    } else {
        item_lines_of(xs.drop_last()).push(item_line(xs.last()))
    }
}

/// Bulleted lines of redacted URIs.
pub open spec fn redacted_lines_of(xs: Seq<Seq<char>>) -> Seq<Seq<char>>
    decreases xs.len(),
{
    if xs.len() == 0 {
        Seq::empty()
    } else {
        redacted_lines_of(xs.drop_last()).push(item_line(redacted_uri(xs.last())))
    }
}

/// Lines of providers and their redacted credentials URIs.
pub open spec fn provider_lines_of(
    xs: Seq<Seq<char>>,
    env: Seq<char>,
    tenant: Seq<char>,
    team: Seq<char>,
) -> Seq<Seq<char>>
    decreases xs.len(),
{
    if xs.len() == 0 {
        Seq::empty()
    } else {
        provider_lines_of(xs.drop_last(), env, tenant, team).push(
            provider_line(xs.last(), env, tenant, team),
        )
    }
}

/// Lines of steps.
pub open spec fn step_lines_of(xs: Seq<PackStepReport>) -> Seq<Seq<char>>
    decreases xs.len(),
{
    if xs.len() == 0 {
        Seq::empty()
    } else {
        step_lines_of(xs.drop_last()).push(step_line(xs.last()))
    }
}

/// The printed report of a pack run.
pub open spec fn pack_report_text(
    r: PackRunReport,
    env: Seq<char>,
    tenant: Seq<char>,
    team: Seq<char>,
) -> Seq<Seq<char>> {
    let head = seq![
        "Pack "@ + r.pack_id@ + " ("@ + r.pack_path@ + ")"@,
        "  flow: "@ + r.flow_id@ + " (kind="@ + r.flow_kind@ + ")"@ + (if r.dry_run {
            " [dry-run]"@
        } else {
            ""@
        }),
    ];
    let providers = section(
        "  provider secrets:"@,
        provider_lines_of(views(r.provider_ids@), env, tenant, team),
    );
    let secrets = section("  required secrets:"@, redacted_lines_of(views(r.secret_uris@)));
    let steps = section("  steps:"@, step_lines_of(r.steps@));
    let problems = r.errors@.len() > 0 || r.lint_errors@.len() > 0 || r.missing_components@.len()
        > 0;
    let tail = if problems {
        section("  lint:"@, item_lines_of(views(r.lint_errors@))) + section(
            "  missing components:"@,
            item_lines_of(views(r.missing_components@)),
        ) + section("  flow:"@, item_lines_of(views(r.errors@))) + seq![
            if run_succeeded(r) {
                "  result: ok"@
            } else {
                "  result: failed"@
            },
        ]
    } else {
        seq!["  result: ok"@]
    };
    head + providers + secrets + steps + tail
}

fn push_section(out: &mut Vec<String>, title: &str, lines: Vec<String>)
    ensures
        views(final(out)@) == views(old(out)@) + section(title@, views(lines@)),
{
    if lines.len() == 0 {
        proof {
            assert(views(out@) + section(title@, views(lines@)) =~= views(out@));
        }
        return;
    }
    let ghost before = out@;
    out.push(owned(title));
    let mut ls = lines;
    let ghost l = ls@;
    out.append(&mut ls);
    proof {
        assert(views(out@) =~= views(before) + (seq![title@] + views(l)));
    }
}

fn item_lines(items: &Vec<String>) -> (r: Vec<String>)
    ensures
        views(r@) == item_lines_of(views(items@)),
{
    let mut out: Vec<String> = Vec::new();
    for i in 0..items.len()
        invariant
            views(out@) == item_lines_of(views(items@).take(i as int)),
    {
        let ghost before = out@;
        out.push(concat2("    - ", items[i].as_str()));
        proof {
            let t = views(items@).take(i + 1);
            assert(t.drop_last() =~= views(items@).take(i as int));
            assert(t.last() == items@[i as int]@);
            assert(views(out@) =~= views(before).push(item_line(items@[i as int]@)));
        }
    }
    proof {
        assert(views(items@).take(items.len() as int) =~= views(items@));
    }
    out
}

fn redacted_lines(items: &Vec<String>) -> (r: Vec<String>)
    ensures
        views(r@) == redacted_lines_of(views(items@)),
{
    let mut out: Vec<String> = Vec::new();
    for i in 0..items.len()
        invariant
            views(out@) == redacted_lines_of(views(items@).take(i as int)),
    {
        let ghost before = out@;
        let red = redact_secret_uri(items[i].as_str());
        out.push(concat2("    - ", red.as_str()));
        proof {
            let t = views(items@).take(i + 1);
            assert(t.drop_last() =~= views(items@).take(i as int));
            assert(t.last() == items@[i as int]@);
            assert(views(out@) =~= views(before).push(item_line(redacted_uri(items@[i as int]@))));
        }
    }
    proof {
        assert(views(items@).take(items.len() as int) =~= views(items@));
    }
    out
}

fn provider_lines(ids: &Vec<String>, env: &str, tenant: &str, team: &str) -> (r: Vec<String>)
    ensures
        views(r@) == provider_lines_of(views(ids@), env@, tenant@, team@),
{
    let mut out: Vec<String> = Vec::new();
    for i in 0..ids.len()
        invariant
            views(out@) == provider_lines_of(views(ids@).take(i as int), env@, tenant@, team@),
    {
        let ghost before = out@;
        let uri = format_secret_uri(env, tenant, team, ids[i].as_str());
        let red = redact_secret_uri(uri.as_str());
        let mut line = concat2("    - ", ids[i].as_str());
        push_str(&mut line, " -> ");
        push_str(&mut line, red.as_str());
        out.push(line);
        proof {
            let t = views(ids@).take(i + 1);
            assert(t.drop_last() =~= views(ids@).take(i as int));
            assert(t.last() == ids@[i as int]@);
            assert(views(out@) =~= views(before).push(
                provider_line(ids@[i as int]@, env@, tenant@, team@),
            ));
        }
    }
    proof {
        assert(views(ids@).take(ids.len() as int) =~= views(ids@));
    }
    out
}

fn status_label(s: PackStepStatus) -> (r: &'static str)
    ensures
        r@ == status_text(s),
{
    match s {
        PackStepStatus::Planned => "planned",
        PackStepStatus::Executed => "ok",
        PackStepStatus::MissingComponent => "missing component",
    }
}

fn step_line_exec(st: &PackStepReport) -> (r: String)
    ensures
        r@ == step_line(*st),
{
    let op_part = match &st.operation {
        Some(op) => concat2(" op=", op.as_str()),
        None => String::new(),
    };
    let mut line = concat2("    - ", st.node_id.as_str());
    push_str(&mut line, " -> ");
    push_str(&mut line, st.component_id.as_str());
    push_str(&mut line, op_part.as_str());
    push_str(&mut line, " [");
    push_str(&mut line, status_label(st.status));
    push_str(&mut line, "]");
    proof {
        reveal_strlit("");
        assert(op_part@ =~= (match st.operation {
            Some(op) => " op="@ + op@,
            None => ""@,
        }));
        assert(line@ =~= step_line(*st));
    }
    line
}

fn step_lines(steps: &Vec<PackStepReport>) -> (r: Vec<String>)
    ensures
        views(r@) == step_lines_of(steps@),
{
    let mut out: Vec<String> = Vec::new();
    for i in 0..steps.len()
        invariant
            views(out@) == step_lines_of(steps@.take(i as int)),
    {
        let ghost before = out@;
        out.push(step_line_exec(&steps[i]));
        proof {
            let t = steps@.take(i + 1);
            assert(t.drop_last() =~= steps@.take(i as int));
            assert(t.last() == steps@[i as int]);
            assert(views(out@) =~= views(before).push(step_line(steps@[i as int])));
        }
    }
    proof {
        assert(steps@.take(steps.len() as int) =~= steps@);
    }
    out
}

/// The lines printed for a pack run, the provider secrets shown for the
/// given environment, tenant and team.
pub fn pack_report_lines(report: &PackRunReport, env: &str, tenant: &str, team: &str) -> (r: Vec<
    String,
>)
    ensures
        views(r@) == pack_report_text(*report, env@, tenant@, team@),
{
    let mut out: Vec<String> = Vec::new();
    let mut h1 = concat2("Pack ", report.pack_id.as_str());
    push_str(&mut h1, " (");
    push_str(&mut h1, report.pack_path.as_str());
    push_str(&mut h1, ")");
    out.push(h1);
    let mut h2 = concat2("  flow: ", report.flow_id.as_str());
    push_str(&mut h2, " (kind=");
    push_str(&mut h2, report.flow_kind.as_str());
    push_str(&mut h2, ")");
    if report.dry_run {
        push_str(&mut h2, " [dry-run]");
    }
    out.push(h2);
    let ghost head = views(out@);
    proof {
        reveal_strlit("");
        assert(head =~= seq![
            "Pack "@ + report.pack_id@ + " ("@ + report.pack_path@ + ")"@,
            "  flow: "@ + report.flow_id@ + " (kind="@ + report.flow_kind@ + ")"@ + (if report.dry_run {
                " [dry-run]"@
            } else {
                ""@
            }),
        ]);
    }
    push_section(
        &mut out,
        "  provider secrets:",
        provider_lines(&report.provider_ids, env, tenant, team),
    );
    push_section(&mut out, "  required secrets:", redacted_lines(&report.secret_uris));
    push_section(&mut out, "  steps:", step_lines(&report.steps));
    let ghost body = views(out@);
    if report.errors.len() > 0 || report.lint_errors.len() > 0 || report.missing_components.len()
        > 0 {
        push_section(&mut out, "  lint:", item_lines(&report.lint_errors));
        push_section(&mut out, "  missing components:", item_lines(&report.missing_components));
        push_section(&mut out, "  flow:", item_lines(&report.errors));
        let ghost mid = views(out@);
        if report.is_success() {
            out.push(owned("  result: ok"));
        } else {
            out.push(owned("  result: failed"));
        }
        proof {
            assert(views(out@) =~= mid.push(
                if run_succeeded(*report) {
                    "  result: ok"@
                } else {
                    "  result: failed"@
                },
            ));
            assert(views(out@) =~= body + (section(
                "  lint:"@,
                item_lines_of(views(report.lint_errors@)),
            ) + section(
                "  missing components:"@,
                item_lines_of(views(report.missing_components@)),
            ) + section("  flow:"@, item_lines_of(views(report.errors@))) + seq![
                if run_succeeded(*report) {
                    "  result: ok"@
                } else {
                    "  result: failed"@
                },
            ]));
        }
    } else {
        out.push(owned("  result: ok"));
        proof {
            assert(views(out@) =~= body + seq!["  result: ok"@]);
        }
    }
    proof {
        assert(views(out@) =~= pack_report_text(*report, env@, tenant@, team@));
    }
    out
}

/// The result of a command over several packs: an error counting the
/// failed ones, if any.
pub fn packs_outcome(failures: usize, what: &str) -> (r: Result<(), String>)
    ensures
        if failures == 0 {
            r is Ok
        } else {
            r matches Err(e) && e@ == crate::text::decimal(failures as nat) + " pack(s) failed "@ + what@
        },
{
    if failures == 0 {
        Ok(())
    } else {
        let mut m = crate::text::decimal_string(failures);
        push_str(&mut m, " pack(s) failed ");
        push_str(&mut m, what);
        Err(m)
    }
}

/// A flow as a pack listing shows it.
#[derive(Clone, Debug, PartialEq, Eq)]
pub struct ListedFlow {
    pub id: String,
    pub kind: String,
    /// The flow's title; empty when it has none.
    pub title: String,
}

/// A loaded pack as a listing shows it.
#[derive(Clone, Debug, PartialEq, Eq)]
pub struct PackListing {
    pub pack_id: String,
    pub version: String,
    pub kind: String,
    pub flows: Vec<ListedFlow>,
}

/// The line of one listed flow.
pub open spec fn listed_flow_line(f: ListedFlow) -> Seq<char> {
    "    - "@ + f.id@ + " (kind="@ + f.kind@ + ")"@ + if f.title@.len() == 0 {
        Seq::empty()
    } else {
        " "@ + f.title@
    }
}

/// The lines of listed flows, in order.
pub open spec fn listed_flow_lines(fs: Seq<ListedFlow>) -> Seq<Seq<char>>
    decreases fs.len(),
{
    if fs.len() == 0 {
        Seq::empty()
    } else {
        listed_flow_lines(fs.drop_last()).push(listed_flow_line(fs.last()))
    }
}

/// The lines that list a discovered pack: its load error, nothing when it
/// has no manifest, else its header and its flows.
pub open spec fn pack_listing_text(
    path: Seq<char>,
    load_error: Option<Seq<char>>,
    listing: Option<PackListing>,
) -> Seq<Seq<char>> {
    match load_error {
        Some(e) => seq![path + ": failed to load ("@ + e + ")"@],
        None => match listing {
            None => Seq::empty(),
            Some(l) => seq![
                path + ": "@ + l.pack_id@ + " "@ + l.version@ + " (kind="@ + l.kind@ + ")"@,
            ] + if l.flows@.len() == 0 {
                seq!["  flows: (none)"@]
            } else {
                seq!["  flows:"@] + listed_flow_lines(l.flows@)
            },
        },
    }
}

fn listed_flow_line_exec(f: &ListedFlow) -> (r: String)
    ensures
        r@ == listed_flow_line(*f),
{
    let mut s = concat2("    - ", f.id.as_str());
    push_str(&mut s, " (kind=");
    push_str(&mut s, f.kind.as_str());
    push_str(&mut s, ")");
    if to_chars(f.title.as_str()).len() > 0 {
        push_str(&mut s, " ");
        push_str(&mut s, f.title.as_str());
    } else {
        proof {
            assert(s@ + Seq::<char>::empty() =~= s@);
        }
    }
    s
}

/// The lines printed for one discovered pack when packs are listed.
pub fn pack_listing_lines(path: &str, load_error: Option<&str>, listing: Option<&PackListing>) -> (r:
    Vec<String>)
    ensures
        views(r@) == pack_listing_text(
            path@,
            match load_error {
                Some(e) => Some(e@),
                None => None,
            },
            match listing {
                Some(l) => Some(*l),
                None => None,
            },
        ),
{
    let mut out: Vec<String> = Vec::new();
    if let Some(e) = load_error {
        let mut s = concat2(path, ": failed to load (");
        push_str(&mut s, e);
        push_str(&mut s, ")");
        out.push(s);
        proof {
            assert(views(out@) =~= seq![path@ + ": failed to load ("@ + e@ + ")"@]);
        }
        return out;
    }
    let l = match listing {
        None => {
            proof {
                assert(views(out@) =~= Seq::<Seq<char>>::empty());
            }
            return out;
        },
        Some(l) => l,
    };
    let mut h = concat2(path, ": ");
    push_str(&mut h, l.pack_id.as_str());
    push_str(&mut h, " ");
    push_str(&mut h, l.version.as_str());
    push_str(&mut h, " (kind=");
    push_str(&mut h, l.kind.as_str());
    push_str(&mut h, ")");
    out.push(h);
    let ghost head = views(out@);
    if l.flows.len() == 0 {
        out.push(owned("  flows: (none)"));
        proof {
            assert(views(out@) =~= head + seq!["  flows: (none)"@]);
        }
        return out;
    }
    out.push(owned("  flows:"));
    let ghost top = views(out@);
    for i in 0..l.flows.len()
        invariant
            views(out@) == top + listed_flow_lines(l.flows@.take(i as int)),
    {
        let ghost before = views(out@);
        out.push(listed_flow_line_exec(&l.flows[i]));
        proof {
            let t = l.flows@.take(i + 1);
            assert(t.drop_last() =~= l.flows@.take(i as int));
            assert(views(out@) =~= before.push(listed_flow_line(l.flows@[i as int])));
        }
    }
    proof {
        assert(l.flows@.take(l.flows.len() as int) =~= l.flows@);
        assert(views(out@) =~= head + (seq!["  flows:"@] + listed_flow_lines(l.flows@)));
    }
    out
}

/// Live runs send for real, so they refuse dry-run mode; the configuration
/// entries must parse.
pub fn live_preflight(runtime: &PackRuntimeArgs) -> (r: Result<StrMap<String>, String>)
    ensures
        if runtime.dry_run {
            r matches Err(e) && e@ == "--live requires --dry-run=false"@
        } else {
            match config_error(views(runtime.config@)) {
                Some(m) => r matches Err(x) && x@ == m,
                None => r matches Ok(map) && forall|k: Seq<char>|
                    #[trigger] opt_view(map.lookup(k)) == config_lookup(views(runtime.config@), k),
            }
        },
{
    if runtime.dry_run {
        return Err(owned("--live requires --dry-run=false"));
    }
    parse_runtime_config(&runtime.config)
}

/// The message a live run sends, and the provider it goes through.
#[derive(Debug, PartialEq, Eq)]
pub struct LiveMessage {
    pub chat_id: String,
    pub text: String,
    pub thread_id: Option<String>,
    pub provider_id: String,
}

/// The chat of a live run: `chat-id`, `chat_id`, `channel-id` or
/// `channel_id`, the first one set.
pub open spec fn live_chat_keys() -> Seq<Seq<char>> {
    seq!["chat-id"@, "chat_id"@, "channel-id"@, "channel_id"@]
}

/// The first of the texts that the map holds a value under.
pub open spec fn first_set(map: StrMap<String>, keys: Seq<Seq<char>>) -> Option<Seq<char>>
    decreases keys.len(),
{
    if keys.len() == 0 {
        None
    } else {
        match map.lookup(keys[0]) {
            Some(v) => Some(v@),
            None => first_set(map, keys.drop_first()),
        }
    }
}

fn first_value_of(map: &StrMap<String>, keys: &[&str]) -> (r: Option<String>)
    ensures
        opt_view(r) == first_set(*map, keys@.map_values(|k: &str| k@)),
{
    let r = config_value(map, keys);
    proof {
        lemma_first_present_set(*map, keys@);
    }
    r
}

/// Looking keys up by slice or by their texts agrees.
pub proof fn lemma_first_present_set(map: StrMap<String>, keys: Seq<&str>)
    ensures
        first_present(map, keys) == first_set(map, keys.map_values(|k: &str| k@)),
    decreases keys.len(),
{
    if keys.len() > 0 {
        lemma_first_present_set(map, keys.drop_first());
        assert(keys.drop_first().map_values(|k: &str| k@) =~= keys.map_values(|k: &str| k@).drop_first());
    }
}

/// Builds the live message from the configuration: a chat is required;
/// the text defaults to `live pack test`; the first provider id is used.
pub fn live_message(config: &StrMap<String>, provider_ids: &Vec<String>) -> (r: Result<
    LiveMessage,
    String,
>)
    ensures
        match first_set(*config, live_chat_keys()) {
            None => r matches Err(e) && e@ == "missing required config: chat-id"@,
            Some(chat) => if provider_ids@.len() == 0 {
                r matches Err(e) && e@ == "pack has no provider id"@
            } else {
                r matches Ok(m) && m.chat_id@ == chat && m.text@ == (match first_set(
                    *config,
                    seq!["text"@, "message"@],
                ) {
                    Some(t) => t,
                    None => "live pack test"@,
                }) && opt_view(m.thread_id) == first_set(*config, seq!["thread-id"@, "thread_id"@])
                    && m.provider_id@ == provider_ids@[0]@
            },
        },
{
    let chat_keys = ["chat-id", "chat_id", "channel-id", "channel_id"];
    let chat = first_value_of(config, &chat_keys);
    proof {
        assert(chat_keys@.map_values(|k: &str| k@) =~= live_chat_keys());
    }
    let chat_id = match chat {
        Some(c) => c,
        None => {
            return Err(owned("missing required config: chat-id"));
        },
    };
    let text_keys = ["text", "message"];
    let text = match first_value_of(config, &text_keys) {
        Some(t) => t,
        None => owned("live pack test"),
    };
    let thread_keys = ["thread-id", "thread_id"];
    let thread_id = first_value_of(config, &thread_keys);
    proof {
        assert(text_keys@.map_values(|k: &str| k@) =~= seq!["text"@, "message"@]);
        assert(thread_keys@.map_values(|k: &str| k@) =~= seq!["thread-id"@, "thread_id"@]);
    }
    if provider_ids.len() == 0 {
        return Err(owned("pack has no provider id"));
    }
    Ok(LiveMessage { chat_id, text, thread_id, provider_id: provider_ids[0].clone() })
}

/// A live run needs every required configuration key and secret.
pub fn live_ready(missing_config: &StrMap<Vec<String>>, missing_keys: &Vec<String>) -> (r: Result<
    (),
    String,
>)
    ensures
        if missing_config.items().len() > 0 || missing_keys@.len() > 0 {
            r matches Err(e) && e@ == "missing config/secret values for live run"@
        } else {
            r is Ok
        },
{
    if !missing_config.is_empty() || missing_keys.len() > 0 {
        return Err(owned("missing config/secret values for live run"));
    }
    Ok(())
}

/// The platform of a live run: the adapter's, else the one the pack id
/// names, else the one the first provider id names, else Slack.
pub open spec fn live_platform_of(
    adapter: Option<crate::platform::Platform>,
    pack_id: Seq<char>,
    provider_ids: Seq<String>,
) -> crate::platform::Platform {
    match adapter {
        Some(p) => p,
        None => {
            let from_pack = match platform_of_provider(pack_id) {
                Some(n) => crate::platform::platform_named(n),
                None => None,
            };
            match from_pack {
                Some(p) => p,
                None => {
                    let from_provider = if provider_ids.len() > 0 {
                        match platform_of_provider(provider_ids[0]@) {
                            Some(n) => crate::platform::platform_named(n),
                            None => None,
                        }
                    } else {
                        None
                    };
                    match from_provider {
                        Some(p) => p,
                        None => crate::platform::Platform::Slack,
                    }
                },
            }
        },
    }
}

/// Infers the platform of a live run.
pub fn infer_platform_for_live(
    adapter: Option<crate::platform::Platform>,
    pack_id: &str,
    provider_ids: &Vec<String>,
) -> (r: crate::platform::Platform)
    ensures
        r == live_platform_of(adapter, pack_id@, provider_ids@),
{
    if let Some(p) = adapter {
        return p;
    }
    if let Some(name) = infer_platform_from_provider(pack_id) {
        if let Some(p) = crate::platform::Platform::from_name(name.as_str()) {
            return p;
        }
    }
    if provider_ids.len() > 0 {
        if let Some(name) = infer_platform_from_provider(provider_ids[0].as_str()) {
            if let Some(p) = crate::platform::Platform::from_name(name.as_str()) {
                return p;
            }
        }
    }
    crate::platform::Platform::Slack
}


/// The install references of a live run.
#[derive(Debug)]
pub struct LiveInstallRefs {
    /// Each required configuration key, referring to `config:{key}`.
    pub config_refs: StrMap<String>,
    /// Each secret key, referring to the URI that holds it.
    pub secret_refs: StrMap<String>,
    /// The values found for the referenced secrets.
    pub secrets: StrMap<String>,
    /// The platform recorded for routing, or `unknown`.
    pub routing_platform: String,
}

/// The last secret URI that holds `key`.
pub open spec fn last_uri_for(uris: Seq<String>, key: Seq<char>) -> Option<Seq<char>>
    decreases uris.len(),
{
    if uris.len() == 0 {
        None
    } else if secret_key_of(uris.last()@) == Some(key) {
        Some(uris.last()@)
    } else {
        last_uri_for(uris.drop_last(), key)
    }
}

/// The configuration reference of `key` when the provider requires it.
pub open spec fn config_ref_of(required: StrMap<Vec<String>>, provider: Seq<char>, key: Seq<char>) -> Option<
    Seq<char>,
> {
    match required.lookup(provider) {
        Some(keys) => if views(keys@).contains(key) {
            Some("config:"@ + key)
        } else {
            None
        },
        None => None,
    }
}

/// The references a live install records for a provider.
pub fn live_install_refs(
    provider_id: &str,
    required: &StrMap<Vec<String>>,
    secret_uris: &Vec<String>,
    secret_values: &StrMap<String>,
) -> (r: LiveInstallRefs)
    ensures
        forall|k: Seq<char>|
            #[trigger] opt_view(r.config_refs.lookup(k)) == config_ref_of(*required, provider_id@, k),
        forall|k: Seq<char>|
            #[trigger] opt_view(r.secret_refs.lookup(k)) == last_uri_for(secret_uris@, k),
        forall|k: Seq<char>|
            #[trigger] opt_view(r.secrets.lookup(k)) == (if last_uri_for(secret_uris@, k) is Some {
                opt_view(secret_values.lookup(k))
            } else {
                None
            }),
        r.routing_platform@ == match platform_of_provider(provider_id@) {
            Some(p) => p,
            None => "unknown"@,
        },
{
    let mut config_refs: StrMap<String> = StrMap::new();
    match required.get(provider_id) {
        Some(keys) => {
            for i in 0..keys.len()
                invariant
                    required.lookup(provider_id@) == Some(*keys),
                    forall|k: Seq<char>|
                        #[trigger] opt_view(config_refs.lookup(k)) == (if views(keys@).take(
                            i as int,
                        ).contains(k) {
                            Some("config:"@ + k)
                        } else {
                            None
                        }),
            {
                let key = keys[i].clone();
                let val = concat2("config:", key.as_str());
                config_refs.insert(key, val);
                proof {
                    let t = views(keys@).take(i as int);
                    let t2 = views(keys@).take(i + 1);
                    assert(t2 =~= t.push(keys@[i as int]@));
                    assert forall|k: Seq<char>|
                        #[trigger] opt_view(config_refs.lookup(k)) == (if t2.contains(k) {
                            Some("config:"@ + k)
                        } else {
                            None
                        }) by {
                        if t.contains(k) {
                            let j = choose|j: int| 0 <= j < t.len() && t[j] == k;
                            assert(t2[j] == k);
                        }
                        if k == keys@[i as int]@ {
                            assert(t2[i as int] == k);
                        }
                        if t2.contains(k) && k != keys@[i as int]@ {
                            let j = choose|j: int| 0 <= j < t2.len() && t2[j] == k;
                            assert(t[j] == k);
                        }
                    }
                }
            }
            proof {
                assert(views(keys@).take(keys.len() as int) =~= views(keys@));
            }
        },
        None => {},
    }
    let mut secret_refs: StrMap<String> = StrMap::new();
    for i in 0..secret_uris.len()
        invariant
            forall|k: Seq<char>|
                #[trigger] opt_view(secret_refs.lookup(k)) == last_uri_for(
                    secret_uris@.take(i as int),
                    k,
                ),
    {
        proof {
            assert(secret_uris@.take(i + 1).drop_last() =~= secret_uris@.take(i as int));
        }
        match secret_key_from_uri(secret_uris[i].as_str()) {
            Some(k) => {
                secret_refs.insert(k, secret_uris[i].clone());
            },
            None => {},
        }
    }
    proof {
        assert(secret_uris@.take(secret_uris.len() as int) =~= secret_uris@);
    }
    let keys = secret_refs.keys();
    let mut secrets: StrMap<String> = StrMap::new();
    for i in 0..keys.len()
        invariant
            forall|k: Seq<char>| #[trigger] views(keys@).contains(k) <==> secret_refs.lookup(k) is Some,
            forall|k: Seq<char>|
                #[trigger] opt_view(secrets.lookup(k)) == (if views(keys@).take(i as int).contains(k) {
                    opt_view(secret_values.lookup(k))
                } else {
                    None
                }),
    {
        let t = &keys[i];
        let ghost tv = t@;
        match secret_values.get(t.as_str()) {
            Some(v) => {
                secrets.insert(t.clone(), v.clone());
            },
            None => {},
        }
        proof {
            let a = views(keys@).take(i as int);
            let b = views(keys@).take(i + 1);
            assert(b =~= a.push(tv));
            assert forall|k: Seq<char>|
                #[trigger] opt_view(secrets.lookup(k)) == (if b.contains(k) {
                    opt_view(secret_values.lookup(k))
                } else {
                    None
                }) by {
                if a.contains(k) {
                    let j = choose|j: int| 0 <= j < a.len() && a[j] == k;
                    assert(b[j] == k);
                }
                if k == tv {
                    assert(b[i as int] == k);
                }
                if b.contains(k) && k != tv {
                    let j = choose|j: int| 0 <= j < b.len() && b[j] == k;
                    assert(a[j] == k);
                }
            }
        }
    }
    proof {
        assert(views(keys@).take(keys.len() as int) =~= views(keys@));
        assert forall|k: Seq<char>|
            #[trigger] opt_view(secrets.lookup(k)) == (if last_uri_for(secret_uris@, k) is Some {
                opt_view(secret_values.lookup(k))
            } else {
                None
            }) by {
            assert(opt_view(secret_refs.lookup(k)) == last_uri_for(secret_uris@, k));
            assert(views(keys@).contains(k) <==> secret_refs.lookup(k) is Some);
        }
    }
    let routing_platform = match infer_platform_from_provider(provider_id) {
        Some(p) => p,
        None => owned("unknown"),
    };
    LiveInstallRefs { config_refs, secret_refs, secrets, routing_platform }
}

} // verus!
