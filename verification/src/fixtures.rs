//! The card fixture runner: which files are fixtures and what they are
//! called, the status screen, toggling adapters, choosing the egress
//! adapters of packs, and the redaction of translated payloads before they
//! are recorded.
use vstd::prelude::*;
use crate::json::Json;
use crate::packs::opt_view;
use crate::platform::{platform_in_name, infer_platform_from_tokens, Platform};
use crate::strmap::StrMap;
use crate::dev_cli::{all_digits, digits_value, lemma_digits_value_grows};
use crate::text::{
    concat2, concat3, contains_seq, decimal, decimal_string, lower, owned, push_str, split,
    str_contains, str_eq, str_split, str_trim, to_chars, to_lower, trim,
};

verus! {

/// The fixtures directory a run reads: the one asked for when it exists,
/// else the viewer's fixtures.
pub fn fixtures_dir(asked: &str, present: bool) -> (r: String)
    ensures
        r@ == if present {
            asked@
        } else {
            "crates/gsm-dev-viewer/fixtures"@
        },
{
    if present {
        owned(asked)
    } else {
        owned("crates/gsm-dev-viewer/fixtures")
    }
}

/// How `all` runs the fixtures.
#[derive(Clone, Copy, Debug, PartialEq, Eq)]
pub enum RunAllMode {
    /// Through the adapters of the given packs.
    Packs,
    /// Through the built-in adapters, in dry-run mode.
    BuiltIn,
}

/// How `all` runs: through packs when packs are given; otherwise only as a
/// dry run.
pub fn run_all_mode(pack_mode: bool, dry_run: bool) -> (r: Result<RunAllMode, String>)
    ensures
        r matches Ok(RunAllMode::Packs) <==> pack_mode,
        r matches Ok(RunAllMode::BuiltIn) <==> !pack_mode && dry_run,
        r matches Err(e) <==> (!pack_mode && !dry_run),
        r matches Err(e) ==> e@ == "run all currently supports dry-run only"@,
{
    if pack_mode {
        Ok(RunAllMode::Packs)
    } else if !dry_run {
        Err(owned("run all currently supports dry-run only"))
    } else {
        Ok(RunAllMode::BuiltIn)
    }
}

/// A fixture file has a `json`, `yaml` or `yml` extension.
pub open spec fn fixture_extension(ext: Option<Seq<char>>) -> bool {
    match ext {
        Some(e) => e == "json"@ || e == "yaml"@ || e == "yml"@,
        None => false,
    }
}

/// Whether a file with this extension is a fixture.
pub fn is_fixture_extension(ext: Option<&str>) -> (r: bool)
    ensures
        r == fixture_extension(
            match ext {
                Some(e) => Some(e@),
                None => None,
            },
        ),
{
    match ext {
        Some(e) => str_eq(e, "json") || str_eq(e, "yaml") || str_eq(e, "yml"),
        None => false,
    }
}

/// Whether a fixture file with this extension is read as YAML.
pub fn is_yaml_extension(ext: Option<&str>) -> (r: bool)
    ensures
        r == match ext {
            Some(e) => e@ == "yaml"@ || e@ == "yml"@,
            None => false,
        },
{
    match ext {
        Some(e) => str_eq(e, "yaml") || str_eq(e, "yml"),
        None => false,
    }
}

/// The id of a fixture: its file stem, `unnamed` when it has none.
pub fn fixture_id_of(stem: Option<&str>) -> (r: String)
    ensures
        r@ == match stem {
            Some(s) => s@,
            None => "unnamed"@,
        },
{
    match stem {
        Some(s) => owned(s),
        None => owned("unnamed"),
    }
}

/// A value is an Adaptive Card when it is an object whose `type` is the
/// text `AdaptiveCard`.
pub open spec fn adaptive_card(v: Json) -> bool {
    match v {
        Json::Object(m) => match m.lookup("type"@) {
            Some(Json::Str(t)) => t@ == "AdaptiveCard"@,
            _ => false,
        },
        _ => false,
    }
}

/// Whether a fixture document is a bare Adaptive Card.
pub fn is_adaptive_card(v: &Json) -> (r: bool)
    ensures
        r == adaptive_card(*v),
{
    match v {
        Json::Object(m) => match m.get("type") {
            Some(Json::Str(t)) => str_eq(t.as_str(), "AdaptiveCard"),
            _ => false,
        },
        _ => false,
    }
}

/// The message for a fixture id that names no fixture.
pub open spec fn unknown_fixture_message(id: Seq<char>) -> Seq<char> {
    "unknown fixture "@ + id
}

/// The position of the first fixture with this id.
pub fn fixture_index(ids: &Vec<String>, id: &str) -> (r: Result<usize, String>)
    ensures
        match r {
            Ok(i) => i < ids@.len() && ids@[i as int]@ == id@ && forall|j: int|
                0 <= j < i ==> ids@[j]@ != id@,
            Err(e) => e@ == unknown_fixture_message(id@) && forall|j: int|
                0 <= j < ids@.len() ==> ids@[j]@ != id@,
        },
{
    for i in 0..ids.len()
        invariant
            forall|j: int| 0 <= j < i ==> ids@[j]@ != id@,
    {
        if str_eq(ids[i].as_str(), id) {
            return Ok(i);
        }
    }
    Err(concat2("unknown fixture ", id))
}

/// An adapter as the status screen shows it.
#[derive(Debug)]
pub struct AdapterStatus {
    pub name: String,
    pub enabled: bool,
    /// Why the adapter is disabled, when it is.
    pub reason: Option<String>,
}

/// `enabled` or `disabled`.
pub open spec fn enabled_word(enabled: bool) -> Seq<char> {
    if enabled {
        "enabled"@
    } else {
        "disabled"@
    }
}

/// The status line of adapter `idx`: `[idx] name (enabled)`, then
/// ` - reason` when there is one.
pub open spec fn status_line_of(idx: nat, name: Seq<char>, enabled: bool, reason: Option<Seq<char>>) -> Seq<char> {
    "["@ + decimal(idx) + "] "@ + name + " ("@ + enabled_word(enabled) + ")"@ + match reason {
        Some(r) => " - "@ + r,
        None => ""@,
    }
}

/// The line that separates fixtures on the status screen.
pub open spec fn rule_line() -> Seq<char> {
    "------------------------------"@
}

/// The command help of the status screen.
pub open spec fn commands_line() -> Seq<char> {
    "Commands: Enter=send, r=resend, n=next, p=prev, a=toggle, q=quit"@
}

/// The status screen of fixture `index` of `total`: a rule, the fixture
/// (counted from one) and its path, a line per adapter, and the commands.
pub open spec fn status_screen(
    index: nat,
    total: nat,
    id: Seq<char>,
    path: Seq<char>,
    adapters: Seq<AdapterStatus>,
) -> Seq<Seq<char>> {
    seq![
        rule_line(),
        "Fixture ["@ + decimal(index + 1) + "/"@ + decimal(total) + "]: "@ + id,
        "Path: "@ + path,
    ] + Seq::new(
        adapters.len(),
        |i: int| status_line_of(i as nat, adapters[i].name@, adapters[i].enabled, opt_view(adapters[i].reason)),
    ) + seq![commands_line()]
}

fn enabled_text(enabled: bool) -> (r: &'static str)
    ensures
        r@ == enabled_word(enabled),
{
    if enabled {
        "enabled"
    } else {
        "disabled"
    }
}

/// The status line of one adapter.
pub fn status_line(idx: usize, a: &AdapterStatus) -> (r: String)
    ensures
        r@ == status_line_of(idx as nat, a.name@, a.enabled, opt_view(a.reason)),
{
    let mut out = concat3("[", decimal_string(idx).as_str(), "] ");
    push_str(&mut out, a.name.as_str());
    push_str(&mut out, " (");
    push_str(&mut out, enabled_text(a.enabled));
    push_str(&mut out, ")");
    let ghost base = out@;
    match &a.reason {
        Some(r) => {
            push_str(&mut out, " - ");
            push_str(&mut out, r.as_str());
        },
        None => {
            proof {
                reveal_strlit("");
                assert(base + ""@ =~= base);
            }
        },
    }
    out
}

/// The lines of the status screen.
pub fn status_lines(index: usize, total: usize, id: &str, path: &str, adapters: &Vec<AdapterStatus>) -> (r: Vec<String>)
    requires
        index < total,
    ensures
        r@.len() == adapters@.len() + 4,
        forall|i: int| 0 <= i < r@.len() ==> #[trigger] r@[i]@ == status_screen(index as nat, total as nat, id@, path@, adapters@)[i],
{
    let ghost want = status_screen(index as nat, total as nat, id@, path@, adapters@);
    let mut out: Vec<String> = Vec::new();
    out.push(owned("------------------------------"));
    let mut head = concat3("Fixture [", decimal_string(index + 1).as_str(), "/");
    push_str(&mut head, decimal_string(total).as_str());
    push_str(&mut head, "]: ");
    push_str(&mut head, id);
    out.push(head);
    out.push(concat2("Path: ", path));
    for i in 0..adapters.len()
        invariant
            out@.len() == i + 3,
            want == status_screen(index as nat, total as nat, id@, path@, adapters@),
            forall|k: int| 0 <= k < out@.len() ==> #[trigger] out@[k]@ == want[k],
    {
        let line = status_line(i, &adapters[i]);
        out.push(line);
    }
    out.push(owned("Commands: Enter=send, r=resend, n=next, p=prev, a=toggle, q=quit"));
    out
}

/// How the adapter list shows an adapter: `name: enabled`, then
/// ` (reason)` when there is one.
pub open spec fn adapter_dump_of(name: Seq<char>, enabled: bool, reason: Option<Seq<char>>) -> Seq<char> {
    name + ": "@ + enabled_word(enabled) + match reason {
        Some(r) => " ("@ + r + ")"@,
        None => ""@,
    }
}

/// The adapter list line of one adapter.
pub fn adapter_dump_line(a: &AdapterStatus) -> (r: String)
    ensures
        r@ == adapter_dump_of(a.name@, a.enabled, opt_view(a.reason)),
{
    let mut out = concat3(a.name.as_str(), ": ", enabled_text(a.enabled));
    let ghost base = out@;
    match &a.reason {
        Some(r) => {
            push_str(&mut out, " (");
            push_str(&mut out, r.as_str());
            push_str(&mut out, ")");
        },
        None => {
            proof {
                reveal_strlit("");
                assert(base + ""@ =~= base);
            }
        },
    }
    out
}

/// The digits of an index text: after one optional `+`.
pub open spec fn index_digits(s: Seq<char>) -> Seq<char> {
    if s.len() > 0 && s[0] == '+' {
        s.drop_first()
    } else {
        s
    }
}

/// What parsing text as a `usize` gives: an optional `+`, then at least one
/// ASCII digit, the value at most `usize::MAX`.
pub open spec fn parsed_index(s: Seq<char>) -> Option<nat> {
    let d = index_digits(s);
    if d.len() > 0 && all_digits(d) && digits_value(d) <= usize::MAX {
        Some(digits_value(d))
    } else {
        None
    }
}

/// Parses an index as `str::parse::<usize>` does.
pub fn parse_index(s: &str) -> (r: Option<usize>)
    ensures
        match parsed_index(s@) {
            Some(v) => r == Some(v as usize),
            None => r is None,
        },
{
    let cs = to_chars(s);
    let start: usize = if cs.len() > 0 && cs[0] == '+' { 1 } else { 0 };
    let ghost d = index_digits(s@);
    proof {
        assert(d =~= cs@.skip(start as int));
    }
    if start >= cs.len() {
        return None;
    }
    let mut acc: usize = 0;
    let mut i: usize = start;
    while i < cs.len()
        invariant
            cs@ == s@,
            d == index_digits(s@),
            d == cs@.skip(start as int),
            start <= i <= cs.len(),
            forall|k: int| 0 <= k < i - start ==> '0' <= #[trigger] d[k] && d[k] <= '9',
            acc as nat == digits_value(d.take(i - start)),
        decreases cs.len() - i,
    {
        let c = cs[i];
        if !('0' <= c && c <= '9') {
            proof {
                assert(d[i - start] == c);
                assert(!all_digits(d));
            }
            return None;
        }
        let digit: usize = ((c as u32) - 48) as usize;
        proof {
            let t = d.take(i + 1 - start);
            assert(t.drop_last() =~= d.take(i - start));
            assert(t.last() == c);
            assert(digits_value(t) == acc * 10 + digit);
        }
        let next = match acc.checked_mul(10) {
            Some(m) => m.checked_add(digit),
            None => None,
        };
        match next {
            Some(n) => {
                acc = n;
            },
            None => {
                proof {
                    let t = d.take(i + 1 - start);
                    assert(digits_value(t) > usize::MAX);
                    if all_digits(d) {
                        lemma_digits_value_grows(d, i + 1 - start);
                    }
                }
                return None;
            },
        }
        i = i + 1;
    }
    proof {
        assert(d.take(i - start) =~= d);
    }
    Some(acc)
}

/// The toggle input names every adapter: `all`, in any case, around white
/// space.
pub open spec fn toggles_all(input: Seq<char>) -> bool {
    lower(trim(input)) == "all"@
}

/// How many of the comma-separated parts name index `i`.
pub open spec fn mentions(parts: Seq<Seq<char>>, i: nat) -> nat
    decreases parts.len(),
{
    if parts.len() == 0 {
        0
    } else {
        mentions(parts.drop_last(), i) + if parsed_index(trim(parts.last())) == Some(i) {
            1nat
        } else {
            0nat
        }
    }
}

/// The adapters' enabled flags after a toggle input: `all` flips every
/// flag; otherwise each part that parses as an index in range flips that
/// flag, so an index named twice flips back.
pub open spec fn toggled(input: Seq<char>, flags: Seq<bool>) -> Seq<bool> {
    if toggles_all(input) {
        Seq::new(flags.len(), |i: int| !flags[i])
    } else {
        let parts = split(trim(input), ',');
        Seq::new(
            flags.len(),
            |i: int| if mentions(parts, i as nat) % 2 == 1 {
                !flags[i]
            } else {
                flags[i]
            },
        )
    }
}

/// Toggles adapters as the fixture runner's `a` command does.
pub fn toggle_adapters(input: &str, flags: &mut Vec<bool>)
    ensures
        final(flags)@ == toggled(input@, old(flags)@),
{
    let t = str_trim(input);
    let l = to_lower(t.as_str());
    if str_eq(l.as_str(), "all") {
        let ghost start = flags@;
        let n = flags.len();
        for i in 0..n
            invariant
                n == start.len(),
                flags@.len() == start.len(),
                forall|k: int| 0 <= k < i ==> flags@[k] == !start[k],
                forall|k: int| i <= k < flags@.len() ==> flags@[k] == start[k],
        {
            let b = flags[i];
            flags.set(i, !b);
        }
        proof {
            assert(flags@ =~= toggled(input@, start));
        }
        return;
    }
    let parts = str_split(t.as_str(), ',');
    let ghost start = flags@;
    let ghost ps = split(trim(input@), ',');
    for p in 0..parts.len()
        invariant
            crate::text::views(parts@) == ps,
            ps == split(trim(input@), ','),
            flags@.len() == start.len(),
            forall|k: int| 0 <= k < flags@.len() ==> #[trigger] flags@[k] == if mentions(ps.take(p as int), k as nat) % 2 == 1 {
                !start[k]
            } else {
                start[k]
            },
    {
        let part = str_trim(parts[p].as_str());
        let ghost before = flags@;
        proof {
            assert(ps.take(p + 1).drop_last() =~= ps.take(p as int));
            assert(ps.take(p + 1).last() == parts@[p as int]@);
        }
        match parse_index(part.as_str()) {
            Some(idx) => {
                if idx < flags.len() {
                    let b = flags[idx];
                    flags.set(idx, !b);
                }
            },
            None => {},
        }
        proof {
            assert forall|k: int| 0 <= k < flags@.len() implies #[trigger] flags@[k] == if mentions(
                ps.take(p + 1),
                k as nat,
            ) % 2 == 1 {
                !start[k]
            } else {
                start[k]
            } by {
                assert(before[k] == if mentions(ps.take(p as int), k as nat) % 2 == 1 {
                    !start[k]
                } else {
                    start[k]
                });
            }
        }
    }
    proof {
        assert(ps.take(parts@.len() as int) =~= ps);
        assert(flags@ =~= toggled(input@, start));
    }
}

/// Toggling with the same input twice leaves every adapter as it was.
pub proof fn lemma_toggle_twice(input: Seq<char>, flags: Seq<bool>)
    ensures
        toggled(input, toggled(input, flags)) == flags,
{
    assert(toggled(input, toggled(input, flags)) =~= flags);
}

/// A key whose value is never recorded: lower-cased, it mentions a token
/// or a secret.
pub open spec fn secret_key(k: Seq<char>) -> bool {
    contains_seq(lower(k), "token"@) || contains_seq(lower(k), "secret"@)
}

/// The text that stands in for a secret.
pub open spec fn redacted_text(v: Json) -> bool {
    v matches Json::Str(s) && s@ == "<redacted>"@
}

/// `r` is the recorded form of `v`: object members keep their keys and
/// order (objects are kept in key order), every secret key's value becomes
/// the text `<redacted>` and every other value is redacted in turn; arrays
/// are redacted element by element; other values stay as they are.
pub closed spec fn redacts(v: Json, r: Json) -> bool
    decreases v,
{
    match v {
        Json::Object(m) => match r {
            Json::Object(n) => {
                &&& n.entries@.len() == m.entries@.len()
                &&& forall|i: int|
                    0 <= i < m.entries@.len() ==> {
                        &&& #[trigger] n.entries@[i].0@ == m.entries@[i].0@
                        &&& if secret_key(m.entries@[i].0@) {
                            redacted_text(n.entries@[i].1)
                        } else {
                            redacts(m.entries@[i].1, n.entries@[i].1)
                        }
                    }
            },
            _ => false,
        },
        Json::Array(a) => match r {
            Json::Array(b) => b@.len() == a@.len() && forall|i: int|
                0 <= i < a@.len() ==> redacts(a@[i], #[trigger] b@[i]),
            _ => false,
        },
        _ => r == v,
    }
}

/// A member of a redacted object: the same key, and the value redacted.
pub closed spec fn member_redacts(e: (String, Json), o: (String, Json)) -> bool {
    &&& o.0@ == e.0@
    &&& if secret_key(e.0@) {
        redacted_text(o.1)
    } else {
        redacts(e.1, o.1)
    }
}

/// A translated payload as it is recorded: sorted by key, with the values
/// of token and secret keys redacted.
pub fn sorted_and_redacted(v: &Json) -> (r: Json)
    ensures
        redacts(*v, r),
    decreases v,
{
    match v {
        Json::Null => Json::Null,
        Json::Bool(b) => Json::Bool(*b),
        Json::Number(t) => Json::Number(t.clone()),
        Json::Str(s) => Json::Str(s.clone()),
        Json::Array(a) => {
            let mut out: Vec<Json> = Vec::new();
            for i in 0..a.len()
                invariant
                    *v == Json::Array(*a),
                    out@.len() == i,
                    forall|k: int| 0 <= k < i ==> redacts(a@[k], #[trigger] out@[k]),
            {
                proof {
                    assert(decreases_to!(*v => (*v)->Array_0));
                    assert(decreases_to!((*v)->Array_0 => a@));
                    assert(decreases_to!(a@ => a@[i as int]));
                }
                let x = sorted_and_redacted(&a[i]);
                out.push(x);
            }
            assert(redacts(*v, Json::Array(out)));
            Json::Array(out)
        },
        Json::Object(m) => {
            let es = m.entries();
            proof {
                m.lemma_items_are_entries();
            }
            let mut out: Vec<(String, Json)> = Vec::new();
            let mut i: usize = 0;
            while i < es.len()
                invariant
                    i <= es@.len(),
                    *v == Json::Object(*m),
                    es@ == m.entries@,
                    crate::strmap::keys_ascending(es@),
                    out@.len() == i,
                    forall|k: int| 0 <= k < i ==> #[trigger] member_redacts(es@[k], out@[k]),
                decreases es@.len() - i,
            {
                proof {
                    assert(decreases_to!(*v => (*v)->Object_0));
                    assert(decreases_to!((*v)->Object_0 => m.entries));
                    assert(decreases_to!(m.entries => m.entries@));
                    assert(decreases_to!(m.entries@ => m.entries@[i as int]));
                    assert(decreases_to!(m.entries@[i as int] => m.entries@[i as int].1));
                }
                let key = es[i].0.clone();
                let lk = to_lower(key.as_str());
                let ghost before = out@;
                if str_contains(lk.as_str(), "token") || str_contains(lk.as_str(), "secret") {
                    out.push((key, Json::Str(owned("<redacted>"))));
                } else {
                    let x = sorted_and_redacted(&es[i].1);
                    out.push((key, x));
                }
                assert(member_redacts(es@[i as int], out@[i as int]));
                assert forall|k: int| 0 <= k < i + 1 implies #[trigger] member_redacts(es@[k], out@[k]) by {
                    if k < i {
                        assert(out@[k] == before[k]);
                    }
                }
                i = i + 1;
            }
            proof {
                assert forall|a: int, b: int| 0 <= a < b < out@.len() implies crate::text::seq_lt(
                    out@[a].0@,
                    out@[b].0@,
                ) by {
                    assert(member_redacts(es@[a], out@[a]));
                    assert(member_redacts(es@[b], out@[b]));
                }
            }
            let ghost outs = out@;
            let n = StrMap::from_ascending(out);
            proof {
                assert forall|k: int| 0 <= k < es@.len() implies {
                    &&& #[trigger] n.entries@[k].0@ == m.entries@[k].0@
                    &&& if secret_key(m.entries@[k].0@) {
                        redacted_text(n.entries@[k].1)
                    } else {
                        redacts(m.entries@[k].1, n.entries@[k].1)
                    }
                } by {
                    assert(member_redacts(es@[k], outs[k]));
                }
                assert(redacts(*v, Json::Object(n)));
            }
            Json::Object(n)
        },
    }
}

/// Recording a recorded payload again changes nothing: a redacted value is
/// its own redacted form.
pub proof fn lemma_redaction_idempotent(v: Json, r: Json)
    requires
        redacts(v, r),
    ensures
        redacts(r, r),
    decreases v,
{
    match v {
        Json::Object(m) => {
            let n = r->Object_0;
            assert forall|i: int| 0 <= i < n.entries@.len() implies {
                &&& #[trigger] n.entries@[i].0@ == n.entries@[i].0@
                &&& if secret_key(n.entries@[i].0@) {
                    redacted_text(n.entries@[i].1)
                } else {
                    redacts(n.entries@[i].1, n.entries@[i].1)
                }
            } by {
                assert(n.entries@[i].0@ == m.entries@[i].0@);
                if !secret_key(m.entries@[i].0@) {
                    assert(decreases_to!(v => v->Object_0));
                    assert(decreases_to!(v->Object_0 => m.entries));
                    assert(decreases_to!(m.entries => m.entries@));
                    assert(decreases_to!(m.entries@ => m.entries@[i]));
                    assert(decreases_to!(m.entries@[i] => m.entries@[i].1));
                    lemma_redaction_idempotent(m.entries@[i].1, n.entries@[i].1);
                }
            }
        },
        Json::Array(a) => {
            let b = r->Array_0;
            assert forall|i: int| 0 <= i < b@.len() implies redacts(b@[i], #[trigger] b@[i]) by {
                assert(decreases_to!(v => v->Array_0));
                assert(decreases_to!(v->Array_0 => a@));
                assert(decreases_to!(a@ => a@[i]));
                lemma_redaction_idempotent(a@[i], b@[i]);
            }
        },
        _ => {},
    }
}

/// An adapter a pack declares, as the fixture runner sees it.
#[derive(Debug)]
pub struct PackAdapterDecl {
    pub name: String,
    /// Whether the adapter sends messages out.
    pub egress: bool,
    /// The platform the adapter's name denotes under the platform
    /// library's naming rule, if any.
    pub named_platform: Option<Platform>,
}

/// The platform of an adapter: the one its name denotes, else the first
/// platform its name mentions, else the `--platform` choice.
pub open spec fn decl_platform(d: PackAdapterDecl, chosen: Option<Platform>) -> Option<Platform> {
    match d.named_platform {
        Some(p) => Some(p),
        None => match platform_in_name(d.name@) {
            Some(p) => Some(p),
            None => chosen,
        },
    }
}

/// The message for an egress adapter whose platform is unknown.
pub open spec fn no_platform_message(name: Seq<char>) -> Seq<char> {
    "unable to infer platform for adapter "@ + name + "; use --platform"@
}

/// The message when packs expose no egress adapter.
pub open spec fn no_egress_message() -> Seq<char> {
    "no egress adapters found in packs; ensure the pack exposes adapters"@
}

/// The egress adapters of a list of declarations with their platforms, in
/// order; the first egress adapter without a platform is refused.
pub open spec fn placed_adapters(ds: Seq<PackAdapterDecl>, chosen: Option<Platform>) -> Result<Seq<(Seq<char>, Platform)>, Seq<char>>
    decreases ds.len(),
{
    if ds.len() == 0 {
        Ok(Seq::empty())
    } else {
        match placed_adapters(ds.drop_last(), chosen) {
            Err(e) => Err(e),
            Ok(s) => if !ds.last().egress {
                Ok(s)
            } else {
                match decl_platform(ds.last(), chosen) {
                    Some(p) => Ok(s.push((ds.last().name@, p))),
                    None => Err(no_platform_message(ds.last().name@)),
                }
            },
        }
    }
}

/// The adapters a pack-based fixture run sends through: every egress
/// adapter, in order, with its platform; the first egress adapter without
/// a platform is refused, and so is a run with no egress adapter.
pub open spec fn pack_adapters_of(ds: Seq<PackAdapterDecl>, chosen: Option<Platform>) -> Result<Seq<(Seq<char>, Platform)>, Seq<char>> {
    match placed_adapters(ds, chosen) {
        Ok(s) => if s.len() == 0 {
            Err(no_egress_message())
        } else {
            Ok(s)
        },
        Err(e) => Err(e),
    }
}

/// Adapter names and platforms as texts.
pub open spec fn named_views(v: Seq<(String, Platform)>) -> Seq<(Seq<char>, Platform)> {
    v.map_values(|o: (String, Platform)| (o.0@, o.1))
}

/// Chooses the adapters of a pack-based fixture run.
pub fn select_pack_adapters(ds: &Vec<PackAdapterDecl>, chosen: Option<Platform>) -> (r: Result<Vec<(String, Platform)>, String>)
    ensures
        match (r, pack_adapters_of(ds@, chosen)) {
            (Ok(v), Ok(w)) => named_views(v@) == w,
            (Err(e), Err(m)) => e@ == m,
            _ => false,
        },
{
    let mut out: Vec<(String, Platform)> = Vec::new();
    let mut i: usize = 0;
    proof {
        assert(ds@.take(0) =~= Seq::<PackAdapterDecl>::empty());
        assert(named_views(out@) =~= Seq::<(Seq<char>, Platform)>::empty());
    }
    while i < ds.len()
        invariant
            i <= ds@.len(),
            placed_adapters(ds@.take(i as int), chosen) == Ok::<Seq<(Seq<char>, Platform)>, Seq<char>>(named_views(out@)),
        decreases ds@.len() - i,
    {
        let d = &ds[i];
        proof {
            assert(ds@.take(i + 1).drop_last() =~= ds@.take(i as int));
            assert(ds@.take(i + 1).last() == ds@[i as int]);
        }
        if d.egress {
            let p = match d.named_platform {
                Some(p) => Some(p),
                None => match infer_platform_from_tokens(d.name.as_str()) {
                    Some(p) => Some(p),
                    None => chosen,
                },
            };
            match p {
                Some(p) => {
                    let ghost before = out@;
                    out.push((d.name.clone(), p));
                    proof {
                        assert(named_views(out@) =~= named_views(before).push((d.name@, p)));
                    }
                },
                None => {
                    proof {
                        lemma_placed_error_stays(ds@, i as int + 1, chosen);
                    }
                    return Err(concat3("unable to infer platform for adapter ", d.name.as_str(), "; use --platform"));
                },
            }
        }
        i = i + 1;
    }
    proof {
        assert(ds@.take(ds@.len() as int) =~= ds@);
    }
    if out.len() == 0 {
        return Err(owned("no egress adapters found in packs; ensure the pack exposes adapters"));
    }
    Ok(out)
}

/// Once a prefix of the declarations is refused, the whole list is refused
/// with the same message.
pub proof fn lemma_placed_error_stays(ds: Seq<PackAdapterDecl>, n: int, chosen: Option<Platform>)
    requires
        0 <= n <= ds.len(),
        placed_adapters(ds.take(n), chosen) is Err,
    ensures
        placed_adapters(ds, chosen) == placed_adapters(ds.take(n), chosen),
    decreases ds.len() - n,
{
    if n < ds.len() {
        assert(ds.take(n + 1).drop_last() =~= ds.take(n));
        lemma_placed_error_stays(ds, n + 1, chosen);
    } else {
        assert(ds.take(n) =~= ds);
    }
}

/// The number of nodes of a value: one for the value, plus those of its
/// elements or member values.
pub closed spec fn node_count(v: Json) -> nat
    decreases v,
{
    match v {
        Json::Array(a) => {
            proof {
                assert(decreases_to!(v => v->Array_0));
                assert(decreases_to!(v->Array_0 => a@));
            }
            1 + list_count(a@)
        },
        Json::Object(m) => {
            proof {
                assert(decreases_to!(v => v->Object_0));
                assert(decreases_to!(v->Object_0 => m.entries));
                assert(decreases_to!(m.entries => m.entries@));
            }
            1 + members_count(m.entries@)
        },
        _ => 1,
    }
}

/// The nodes of a list of values.
pub closed spec fn list_count(s: Seq<Json>) -> nat
    decreases s,
{
    if s.len() == 0 {
        0
    } else {
        proof {
            assert(decreases_to!(s => s[0]));
            assert(decreases_to!(s => s.subrange(1, s.len() as int)));
        }
        1 + node_count(s[0]) + list_count(s.subrange(1, s.len() as int))
    }
}

/// The nodes of the member values of an object.
pub closed spec fn members_count(es: Seq<(String, Json)>) -> nat
    decreases es,
{
    if es.len() == 0 {
        0
    } else {
        proof {
            assert(decreases_to!(es => es[0]));
            assert(decreases_to!(es[0] => es[0].1));
            assert(decreases_to!(es => es.subrange(1, es.len() as int)));
        }
        1 + node_count(es[0].1) + members_count(es.subrange(1, es.len() as int))
    }
}

/// How the node counts of values, lists and members unfold.
pub(crate) proof fn lemma_counts(v: Json, s: Seq<Json>, es: Seq<(String, Json)>)
    ensures
        node_count(v) >= 1,
        v is Array ==> node_count(v) == 1 + list_count(v->Array_0@),
        v is Object ==> node_count(v) == 1 + members_count(v->Object_0.entries@),
        s.len() > 0 ==> list_count(s) == 1 + node_count(s[0]) + list_count(s.subrange(1, s.len() as int)),
        es.len() > 0 ==> members_count(es) == 1 + node_count(es[0].1) + members_count(
            es.subrange(1, es.len() as int),
        ),
{
}

/// Items put in place of a column set, before the rest of the list.
pub open spec fn spliced(ys: Seq<Json>, tail: Seq<Json>) -> Seq<Json> {
    ys + tail
}

/// An Adaptive Card column set: an object whose `type` is `ColumnSet`.
pub closed spec fn column_set(v: Json) -> bool {
    match v {
        Json::Object(m) => match crate::strmap::find_entry(m.entries@, "type"@) {
            Some(Json::Str(t)) => t@ == "ColumnSet"@,
            _ => false,
        },
        _ => false,
    }
}

/// `r` is `v` with its column sets flattened: in every array, and in the
/// `body` array of every object, each column set is replaced by the items
/// of its columns, themselves flattened, and the result scanned again;
/// every other element, and every member value, is flattened in turn (an
/// object's `body` array twice: once as the body, once as a member).
pub closed spec fn flattened(v: Json, r: Json) -> bool
    decreases node_count(v),
{
    match v {
        Json::Array(a) => match r {
            Json::Array(b) => flattened_list(a@, b@),
            _ => false,
        },
        Json::Object(m) => match r {
            Json::Object(n) => flattened_members(m.entries@, n.entries@),
            _ => false,
        },
        _ => r == v,
    }
}

/// `r` is the list `s` flattened, element by element from the front.
pub closed spec fn flattened_list(s: Seq<Json>, r: Seq<Json>) -> bool
    decreases list_count(s),
{
    if s.len() == 0 {
        r.len() == 0
    } else if column_set(s[0]) {
        proof {
            lemma_counts(s[0], s, Seq::empty());
        }
        let tail = s.subrange(1, s.len() as int);
        exists|ys: Seq<Json>|
            #![trigger spliced(ys, tail)]
            set_items(s[0]->Object_0.entries@, ys) && list_count(spliced(ys, tail)) < list_count(s)
                && flattened_list(spliced(ys, tail), r)
    } else {
        proof {
            lemma_counts(s[0], s, Seq::empty());
        }
        r.len() >= 1 && flattened(s[0], r[0]) && flattened_list(s.subrange(1, s.len() as int), r.subrange(1, r.len() as int))
    }
}

/// `os` are the members `es` with their values flattened, a `body` array
/// flattened twice.
pub closed spec fn flattened_members(es: Seq<(String, Json)>, os: Seq<(String, Json)>) -> bool
    decreases members_count(es),
{
    if es.len() == 0 {
        os.len() == 0
    } else {
        proof {
            lemma_counts(es[0].1, Seq::empty(), es);
        }
        &&& os.len() >= 1
        &&& os[0].0@ == es[0].0@
        &&& match es[0].1 {
            Json::Array(a) => if es[0].0@ == "body"@ {
                match os[0].1 {
                    Json::Array(b) => exists|mid: Seq<Json>|
                        #![trigger list_count(mid)]
                        flattened_list(a@, mid) && list_count(mid) <= list_count(a@) && flattened_list(mid, b@),
                    _ => false,
                }
            } else {
                flattened(es[0].1, os[0].1)
            },
            _ => flattened(es[0].1, os[0].1),
        }
        &&& flattened_members(es.subrange(1, es.len() as int), os.subrange(1, os.len() as int))
    }
}

/// `ys` are the flattened items of the columns of a column set with
/// members `es`: the first `columns` member, when it is an array.
pub closed spec fn set_items(es: Seq<(String, Json)>, ys: Seq<Json>) -> bool
    decreases members_count(es),
{
    if es.len() == 0 {
        ys.len() == 0
    } else if es[0].0@ == "columns"@ {
        proof {
            lemma_counts(es[0].1, Seq::empty(), es);
        }
        match es[0].1 {
            Json::Array(cols) => columns_items(cols@, ys),
            _ => ys.len() == 0,
        }
    } else {
        proof {
            lemma_counts(es[0].1, Seq::empty(), es);
        }
        set_items(es.subrange(1, es.len() as int), ys)
    }
}

/// `ys` are the flattened items of a list of columns, column after column;
/// a column that is not an object adds nothing.
pub closed spec fn columns_items(cols: Seq<Json>, ys: Seq<Json>) -> bool
    decreases list_count(cols),
{
    if cols.len() == 0 {
        ys.len() == 0
    } else {
        proof {
            lemma_counts(cols[0], cols, Seq::empty());
        }
        match cols[0] {
            Json::Object(m) => exists|k: int|
                #![trigger ys.take(k)]
                0 <= k <= ys.len() && column_items(m.entries@, ys.take(k)) && columns_items(
                    cols.subrange(1, cols.len() as int),
                    ys.skip(k),
                ),
            _ => columns_items(cols.subrange(1, cols.len() as int), ys),
        }
    }
}

/// `ys` are the flattened items of a column with members `es`: its first
/// `items` member, when it is an array.
pub closed spec fn column_items(es: Seq<(String, Json)>, ys: Seq<Json>) -> bool
    decreases members_count(es),
{
    if es.len() == 0 {
        ys.len() == 0
    } else if es[0].0@ == "items"@ {
        proof {
            lemma_counts(es[0].1, Seq::empty(), es);
        }
        match es[0].1 {
            Json::Array(items) => flattened_each(items@, ys),
            _ => ys.len() == 0,
        }
    } else {
        proof {
            lemma_counts(es[0].1, Seq::empty(), es);
        }
        column_items(es.subrange(1, es.len() as int), ys)
    }
}

/// `ys` are the values `xs`, each flattened.
pub closed spec fn flattened_each(xs: Seq<Json>, ys: Seq<Json>) -> bool
    decreases list_count(xs),
{
    if xs.len() == 0 {
        ys.len() == 0
    } else {
        proof {
            lemma_counts(xs[0], xs, Seq::empty());
        }
        ys.len() >= 1 && flattened(xs[0], ys[0]) && flattened_each(
            xs.subrange(1, xs.len() as int),
            ys.subrange(1, ys.len() as int),
        )
    }
}

/// The nodes of two lists together.
pub(crate) proof fn lemma_list_count_append(a: Seq<Json>, b: Seq<Json>)
    ensures
        list_count(a + b) == list_count(a) + list_count(b),
    decreases a.len(),
{
    if a.len() == 0 {
        assert(a + b =~= b);
    } else {
        lemma_counts(a[0], a, Seq::empty());
        lemma_counts(a[0], a + b, Seq::empty());
        assert((a + b)[0] == a[0]);
        assert((a + b).subrange(1, (a + b).len() as int) =~= a.subrange(1, a.len() as int) + b);
        lemma_list_count_append(a.subrange(1, a.len() as int), b);
    }
}

fn is_column_set(v: &Json) -> (r: bool)
    ensures
        r == column_set(*v),
{
    match v {
        Json::Object(m) => {
            proof {
                m.lemma_items_are_entries();
            }
            match m.get("type") {
                Some(Json::Str(t)) => str_eq(t.as_str(), "ColumnSet"),
                _ => false,
            }
        },
        _ => false,
    }
}

fn flattened_value(v: Json) -> (r: Json)
    ensures
        flattened(v, r),
        node_count(r) <= node_count(v),
    decreases node_count(v), 0nat,
{
    proof {
        lemma_counts(v, Seq::empty(), Seq::empty());
    }
    match v {
        Json::Array(a) => {
            let b = flatten_list(a);
            let r = Json::Array(b);
            proof {
                lemma_counts(r, Seq::empty(), Seq::empty());
            }
            r
        },
        Json::Object(m) => {
            proof {
                m.lemma_items_are_entries();
            }
            let es = m.into_entries();
            let os = flatten_members(es);
            let n = StrMap::from_ascending(os);
            let r = Json::Object(n);
            proof {
                lemma_counts(r, Seq::empty(), Seq::empty());
            }
            r
        },
        other => other,
    }
}

fn flatten_list(s: Vec<Json>) -> (r: Vec<Json>)
    ensures
        flattened_list(s@, r@),
        list_count(r@) <= list_count(s@),
    decreases list_count(s@), 1nat,
{
    if s.len() == 0 {
        return s;
    }
    let ghost orig = s@;
    let mut s = s;
    let x = s.remove(0);
    proof {
        assert(s@ =~= orig.subrange(1, orig.len() as int));
        lemma_counts(x, orig, Seq::empty());
    }
    if is_column_set(&x) {
        match x {
            Json::Object(m) => {
                proof {
                    m.lemma_items_are_entries();
                    lemma_counts(Json::Object(m), Seq::empty(), Seq::empty());
                }
                let es = m.into_entries();
                let mut ys = collect_column_items(es);
                let ghost items = ys@;
                ys.append(&mut s);
                proof {
                    lemma_list_count_append(items, orig.subrange(1, orig.len() as int));
                    assert(ys@ == items + orig.subrange(1, orig.len() as int));
                }
                let r = flatten_list(ys);
                proof {
                    lemma_column_set_step(orig, items, r@);
                }
                r
            },
            _ => {
                proof {
                    assert(false);
                }
                Vec::new()
            },
        }
    } else {
        let y = flattened_value(x);
        let mut rest = flatten_list(s);
        let ghost tail = rest@;
        rest.insert(0, y);
        proof {
            assert(rest@.subrange(1, rest@.len() as int) =~= tail);
            assert(rest@[0] == y);
            lemma_counts(y, rest@, Seq::empty());
        }
        rest
    }
}

/// The items of the columns of a column set with members `es`, each
/// flattened: what replaces the column set in a body.
pub fn collect_column_items(es: Vec<(String, Json)>) -> (ys: Vec<Json>)
    ensures
        set_items(es@, ys@),
        list_count(ys@) <= members_count(es@),
    decreases members_count(es@), 2nat,
{
    if es.len() == 0 {
        return Vec::new();
    }
    let ghost orig = es@;
    let mut es = es;
    let (k, val) = es.remove(0);
    proof {
        assert(es@ =~= orig.subrange(1, orig.len() as int));
        lemma_counts(val, Seq::empty(), orig);
        lemma_counts(val, Seq::empty(), Seq::empty());
    }
    if str_eq(k.as_str(), "columns") {
        match val {
            Json::Array(cols) => columns_items_exec(cols),
            _ => Vec::new(),
        }
    } else {
        collect_column_items(es)
    }
}

fn columns_items_exec(cols: Vec<Json>) -> (ys: Vec<Json>)
    ensures
        columns_items(cols@, ys@),
        list_count(ys@) <= list_count(cols@),
    decreases list_count(cols@), 3nat,
{
    if cols.len() == 0 {
        return Vec::new();
    }
    let ghost orig = cols@;
    let mut cols = cols;
    let c = cols.remove(0);
    proof {
        assert(cols@ =~= orig.subrange(1, orig.len() as int));
        lemma_counts(c, orig, Seq::empty());
    }
    match c {
        Json::Object(m) => {
            proof {
                m.lemma_items_are_entries();
            }
            let es = m.into_entries();
            let mut a = column_items_exec(es);
            let ghost av = a@;
            let mut b = columns_items_exec(cols);
            let ghost bv = b@;
            a.append(&mut b);
            proof {
                assert(a@ == av + bv);
                lemma_list_count_append(av, bv);
                assert(a@.take(av.len() as int) =~= av);
                assert(a@.skip(av.len() as int) =~= bv);
                assert(0 <= av.len() <= a@.len());
            }
            a
        },
        _ => columns_items_exec(cols),
    }
}

fn column_items_exec(es: Vec<(String, Json)>) -> (ys: Vec<Json>)
    ensures
        column_items(es@, ys@),
        list_count(ys@) <= members_count(es@),
    decreases members_count(es@), 4nat,
{
    if es.len() == 0 {
        return Vec::new();
    }
    let ghost orig = es@;
    let mut es = es;
    let (k, val) = es.remove(0);
    proof {
        assert(es@ =~= orig.subrange(1, orig.len() as int));
        lemma_counts(val, Seq::empty(), orig);
        lemma_counts(val, Seq::empty(), Seq::empty());
    }
    if str_eq(k.as_str(), "items") {
        match val {
            Json::Array(items) => flattened_each_exec(items),
            _ => Vec::new(),
        }
    } else {
        column_items_exec(es)
    }
}

fn flattened_each_exec(xs: Vec<Json>) -> (ys: Vec<Json>)
    ensures
        flattened_each(xs@, ys@),
        list_count(ys@) <= list_count(xs@),
    decreases list_count(xs@), 5nat,
{
    if xs.len() == 0 {
        return Vec::new();
    }
    let ghost orig = xs@;
    let mut xs = xs;
    let x = xs.remove(0);
    proof {
        assert(xs@ =~= orig.subrange(1, orig.len() as int));
        lemma_counts(x, orig, Seq::empty());
    }
    let y = flattened_value(x);
    let mut rest = flattened_each_exec(xs);
    let ghost tail = rest@;
    rest.insert(0, y);
    proof {
        assert(rest@.subrange(1, rest@.len() as int) =~= tail);
        assert(rest@[0] == y);
        lemma_counts(y, rest@, Seq::empty());
    }
    rest
}

fn flatten_members(es: Vec<(String, Json)>) -> (os: Vec<(String, Json)>)
    ensures
        flattened_members(es@, os@),
        members_count(os@) <= members_count(es@),
        os@.len() == es@.len(),
        forall|i: int| 0 <= i < es@.len() ==> (#[trigger] os@[i]).0@ == es@[i].0@,
    decreases members_count(es@), 6nat,
{
    if es.len() == 0 {
        return Vec::new();
    }
    let ghost orig = es@;
    let mut es = es;
    let (k, val) = es.remove(0);
    proof {
        assert(es@ =~= orig.subrange(1, orig.len() as int));
        lemma_counts(val, Seq::empty(), orig);
    }
    let nv = match val {
        Json::Array(a) => {
            if str_eq(k.as_str(), "body") {
                let mid = flatten_list(a);
                let b = flatten_list(mid);
                let r = Json::Array(b);
                proof {
                    lemma_counts(r, Seq::empty(), Seq::empty());
                }
                r
            } else {
                flattened_value(Json::Array(a))
            }
        },
        other => flattened_value(other),
    };
    let mut rest = flatten_members(es);
    let ghost tail = rest@;
    rest.insert(0, (k, nv));
    proof {
        assert(rest@.subrange(1, rest@.len() as int) =~= tail);
        lemma_counts(nv, Seq::empty(), rest@);
        assert forall|i: int| 0 <= i < orig.len() implies (#[trigger] rest@[i]).0@ == orig[i].0@ by {
            if i > 0 {
                assert(rest@[i] == tail[i - 1]);
                assert(orig[i] == es@[i - 1]);
            }
        }
    }
    rest
}

/// Flattens the column sets of a card body in place; none is left.
pub fn flatten_body(body: &mut Vec<Json>)
    ensures
        flattened_list(old(body)@, final(body)@),
        forall|i: int| 0 <= i < final(body)@.len() ==> !column_set(#[trigger] final(body)@[i]),
{
    let mut x: Vec<Json> = Vec::new();
    std::mem::swap(&mut x, body);
    let r = flatten_list(x);
    proof {
        lemma_flattened_list_has_no_column_sets(old(body)@, r@);
    }
    *body = r;
}

/// Flattens the column sets of a card, as a fixture's Adaptive Card is
/// flattened before it is rendered.
pub fn flatten_column_sets(v: &mut Json)
    ensures
        flattened(*old(v), *final(v)),
{
    let mut x = Json::Null;
    std::mem::swap(&mut x, v);
    *v = flattened_value(x);
}

proof fn lemma_column_set_step(s: Seq<Json>, ys: Seq<Json>, r: Seq<Json>)
    requires
        s.len() > 0,
        column_set(s[0]),
        set_items(s[0]->Object_0.entries@, ys),
        list_count(ys + s.subrange(1, s.len() as int)) < list_count(s),
        flattened_list(ys + s.subrange(1, s.len() as int), r),
    ensures
        flattened_list(s, r),
{
    let tail = s.subrange(1, s.len() as int);
    assert(spliced(ys, tail) == ys + tail);
}

/// Flattening members keeps their keys, keeps text values and never turns
/// another value into text.
pub(crate) proof fn lemma_members_shape(es: Seq<(String, Json)>, os: Seq<(String, Json)>)
    requires
        flattened_members(es, os),
    ensures
        os.len() == es.len(),
        forall|i: int|
            0 <= i < es.len() ==> (#[trigger] os[i]).0@ == es[i].0@ && (es[i].1 is Str ==> os[i].1 == es[i].1)
                && (es[i].1 !is Str ==> os[i].1 !is Str),
    decreases es.len(),
{
    if es.len() > 0 {
        let er = es.subrange(1, es.len() as int);
        let or = os.subrange(1, os.len() as int);
        lemma_members_shape(er, or);
        assert forall|i: int| 0 <= i < es.len() implies (#[trigger] os[i]).0@ == es[i].0@ && (es[i].1 is Str
            ==> os[i].1 == es[i].1) && (es[i].1 !is Str ==> os[i].1 !is Str) by {
            if i > 0 {
                assert(os[i] == or[i - 1]);
                assert(es[i] == er[i - 1]);
            } else {
                match es[0].1 {
                    Json::Array(a) => {
                        if es[0].0@ != "body"@ {
                            lemma_flat_kind(es[0].1, os[0].1);
                        }
                    },
                    _ => lemma_flat_kind(es[0].1, os[0].1),
                }
            }
        }
    }
}

/// Flattening keeps a value's kind, and keeps text as it is.
pub(crate) proof fn lemma_flat_kind(v: Json, r: Json)
    requires
        flattened(v, r),
    ensures
        v is Str ==> r == v,
        v !is Str ==> r !is Str,
        v is Object ==> r is Object,
        v is Array ==> r is Array,
{
}

/// Members of the same shape hold the same text under a key.
pub(crate) proof fn lemma_same_text_member(es: Seq<(String, Json)>, os: Seq<(String, Json)>, key: Seq<char>)
    requires
        os.len() == es.len(),
        forall|i: int|
            0 <= i < es.len() ==> (#[trigger] os[i]).0@ == es[i].0@ && (es[i].1 is Str ==> os[i].1 == es[i].1)
                && (es[i].1 !is Str ==> os[i].1 !is Str),
    ensures
        match crate::strmap::find_entry(es, key) {
            Some(Json::Str(t)) => crate::strmap::find_entry(os, key) == Some(Json::Str(t)),
            _ => !(crate::strmap::find_entry(os, key) matches Some(Json::Str(_))),
        },
    decreases es.len(),
{
    if es.len() > 0 {
        let er = es.subrange(1, es.len() as int);
        let or = os.subrange(1, os.len() as int);
        assert(os[0].0@ == es[0].0@);
        assert forall|i: int| 0 <= i < er.len() implies (#[trigger] or[i]).0@ == er[i].0@ && (er[i].1 is Str
            ==> or[i].1 == er[i].1) && (er[i].1 !is Str ==> or[i].1 !is Str) by {
            assert(or[i] == os[i + 1]);
            assert(er[i] == es[i + 1]);
        }
        lemma_same_text_member(er, or, key);
        assert(er =~= es.drop_first());
        assert(or =~= os.drop_first());
    }
}

/// A flattened value is a column set exactly when the value was.
pub(crate) proof fn lemma_flattened_column_set(v: Json, r: Json)
    requires
        flattened(v, r),
    ensures
        column_set(r) == column_set(v),
{
    match v {
        Json::Object(m) => {
            let n = r->Object_0;
            lemma_members_shape(m.entries@, n.entries@);
            lemma_same_text_member(m.entries@, n.entries@, "type"@);
        },
        _ => {},
    }
}

/// A flattened list holds no column set: every one was replaced by the
/// items of its columns.
pub proof fn lemma_flattened_list_has_no_column_sets(s: Seq<Json>, r: Seq<Json>)
    requires
        flattened_list(s, r),
    ensures
        forall|i: int| 0 <= i < r.len() ==> !column_set(#[trigger] r[i]),
    decreases list_count(s),
{
    if s.len() > 0 {
        lemma_counts(s[0], s, Seq::empty());
        let tail = s.subrange(1, s.len() as int);
        if column_set(s[0]) {
            let ys = choose|ys: Seq<Json>|
                #![trigger spliced(ys, tail)]
                set_items(s[0]->Object_0.entries@, ys) && list_count(spliced(ys, tail)) < list_count(s)
                    && flattened_list(spliced(ys, tail), r);
            lemma_flattened_list_has_no_column_sets(spliced(ys, tail), r);
        } else {
            let rt = r.subrange(1, r.len() as int);
            lemma_flattened_list_has_no_column_sets(tail, rt);
            lemma_flattened_column_set(s[0], r[0]);
            assert forall|i: int| 0 <= i < r.len() implies !column_set(#[trigger] r[i]) by {
                if i > 0 {
                    assert(r[i] == rt[i - 1]);
                }
            }
        }
    }
}

} // verus!
