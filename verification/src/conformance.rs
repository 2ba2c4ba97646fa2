//! Pack conformance: the steps a pack goes through and how each step's
//! outcome is judged from what its flows and adapters did.
use vstd::prelude::*;
use crate::e2e::StageFlow;
use crate::packs::opt_view;
use crate::test_cli::{PackDiscoveryArgs, PackRuntimeArgs};
use crate::text::{
    concat2, contains_seq, decimal, decimal_string, lower, owned, push_str, str_contains,
    str_trim, to_lower, trim, views,
};

verus! {

/// The outcome of a conformance step.
#[derive(Clone, Copy, Debug, PartialEq, Eq)]
pub enum ConformanceStatus {
    /// The step passed.
    Passed,
    Skipped,
    Failed,
}

/// One step of a pack's conformance and what it found.
#[derive(Debug, PartialEq, Eq)]
pub struct ConformanceStep {
    pub name: String,
    pub status: ConformanceStatus,
    pub details: Vec<String>,
}

/// The conformance of one pack.
#[derive(Debug, PartialEq, Eq)]
pub struct ConformanceReport {
    pub pack_id: String,
    pub pack_path: String,
    pub steps: Vec<ConformanceStep>,
}

/// A pack conforms when every step is fine.
pub open spec fn conforms(r: ConformanceReport) -> bool {
    forall|i: int| 0 <= i < r.steps@.len() ==> (#[trigger] r.steps@[i]).status is Passed
}

/// A report with one step that did not pass, skipped or failed, does not
/// conform.
pub proof fn lemma_unpassed_step_fails(r: ConformanceReport, i: int)
    requires
        0 <= i < r.steps@.len(),
        !(r.steps@[i].status is Passed),
    ensures
        !conforms(r),
{
}

/// A report all of whose steps passed conforms; so does one without steps.
pub proof fn lemma_all_passed_conforms(r: ConformanceReport)
    requires
        forall|i: int| 0 <= i < r.steps@.len() ==> (#[trigger] r.steps@[i]).status is Passed,
    ensures
        conforms(r),
{
}

impl ConformanceReport {
    /// Whether every step is fine.
    pub fn is_success(&self) -> (r: bool)
        ensures
            r == conforms(*self),
    {
        for i in 0..self.steps.len()
            invariant
                forall|j: int| 0 <= j < i ==> (#[trigger] self.steps@[j]).status is Passed,
        {
            if !matches!(self.steps[i].status, ConformanceStatus::Passed) {
                return false;
            }
        }
        true
    }
}

/// Options of a conformance run.
#[derive(Clone, Debug, PartialEq, Eq)]
pub struct ConformanceOptions {
    pub discovery: PackDiscoveryArgs,
    pub runtime: PackRuntimeArgs,
    pub pack_paths: Vec<String>,
    pub public_base_url: String,
    pub ingress_fixture: String,
    pub setup_only: bool,
}

/// The step has this name, status and details.
pub open spec fn step_is(
    s: ConformanceStep,
    name: Seq<char>,
    status: ConformanceStatus,
    details: Seq<Seq<char>>,
) -> bool {
    s.name@ == name && s.status == status && views(s.details@) == details
}

fn step(name: &str, status: ConformanceStatus, details: Vec<String>) -> (r: ConformanceStep)
    ensures
        step_is(r, name@, status, views(details@)),
{
    ConformanceStep { name: owned(name), status, details }
}

fn one(line: String) -> (r: Vec<String>)
    ensures
        views(r@) == seq![line@],
{
    let mut v: Vec<String> = Vec::new();
    v.push(line);
    proof {
        assert(views(v@) =~= seq![v@[0]@]);
    }
    v
}

/// The report of a pack that failed to load: one failed requirements step
/// quoting the error, under the pack's path.
pub fn load_error_report(path: &str, error: String) -> (r: ConformanceReport)
    ensures
        r.pack_id@ == path@,
        r.pack_path@ == path@,
        r.steps@.len() == 1,
        step_is(r.steps@[0], "requirements"@, ConformanceStatus::Failed, seq![error@]),
{
    let s = step("requirements", ConformanceStatus::Failed, one(error));
    let mut steps: Vec<ConformanceStep> = Vec::new();
    steps.push(s);
    ConformanceReport { pack_id: owned(path), pack_path: owned(path), steps }
}

/// A validator finding, as the requirements step reads it.
#[derive(Debug, PartialEq, Eq)]
pub struct Finding {
    pub code: String,
    pub message: String,
    pub is_error: bool,
}

/// The detail lines of findings: `{code}: {message}`.
pub open spec fn finding_lines(fs: Seq<Finding>) -> Seq<Seq<char>>
    decreases fs.len(),
{
    if fs.len() == 0 {
        Seq::empty()
    } else {
        finding_lines(fs.drop_last()).push(fs.last().code@ + ": "@ + fs.last().message@)
    }
}

/// The requirements step: skipped without a manifest; otherwise every
/// finding is listed and any error fails it.
pub fn requirements_step(findings: Option<&Vec<Finding>>) -> (r: ConformanceStep)
    ensures
        match findings {
            None => step_is(
                r,
                "requirements"@,
                ConformanceStatus::Skipped,
                seq!["pack manifest unavailable; skipping validators"@],
            ),
            Some(fs) => step_is(
                r,
                "requirements"@,
                if exists|i: int| 0 <= i < fs@.len() && (#[trigger] fs@[i]).is_error {
                    ConformanceStatus::Failed
                } else {
                    ConformanceStatus::Passed
                },
                finding_lines(fs@),
            ),
        },
{
    match findings {
        None => step(
            "requirements",
            ConformanceStatus::Skipped,
            one(owned("pack manifest unavailable; skipping validators")),
        ),
        Some(fs) => {
            let mut details: Vec<String> = Vec::new();
            let mut failed = false;
            for i in 0..fs.len()
                invariant
                    views(details@) == finding_lines(fs@.take(i as int)),
                    failed == exists|j: int| 0 <= j < i && (#[trigger] fs@[j]).is_error,
            {
                proof {
                    assert(fs@.take(i + 1).drop_last() =~= fs@.take(i as int));
                }
                let ghost before = details@;
                let mut line = concat2(fs[i].code.as_str(), ": ");
                push_str(&mut line, fs[i].message.as_str());
                details.push(line);
                proof {
                    assert(views(details@) =~= views(before).push(
                        fs@[i as int].code@ + ": "@ + fs@[i as int].message@,
                    ));
                }
                if fs[i].is_error {
                    failed = true;
                }
            }
            proof {
                assert(fs@.take(fs.len() as int) =~= fs@);
            }
            step(
                "requirements",
                if failed {
                    ConformanceStatus::Failed
                } else {
                    ConformanceStatus::Passed
                },
                details,
            )
        },
    }
}

/// A tool call a flow made.
#[derive(Debug, PartialEq, Eq)]
pub struct ToolCall {
    pub tool: String,
    pub action: String,
}

/// The call writes secrets: its tool mentions `secrets` and its action
/// `write` or `set`, ignoring ASCII case.
pub open spec fn writes_secrets(c: ToolCall) -> bool {
    contains_seq(lower(c.tool@), "secrets"@) && (contains_seq(lower(c.action@), "write"@)
        || contains_seq(lower(c.action@), "set"@))
}

/// The call writes configuration: its tool mentions `config` and its action
/// `write` or `set`, ignoring ASCII case.
pub open spec fn writes_config(c: ToolCall) -> bool {
    contains_seq(lower(c.tool@), "config"@) && (contains_seq(lower(c.action@), "write"@)
        || contains_seq(lower(c.action@), "set"@))
}

/// Whether a setup flow wrote secrets and configuration.
pub fn detect_setup_writes(calls: &Vec<ToolCall>) -> (r: (bool, bool))
    ensures
        r.0 == exists|i: int| 0 <= i < calls@.len() && writes_secrets(#[trigger] calls@[i]),
        r.1 == exists|i: int| 0 <= i < calls@.len() && writes_config(#[trigger] calls@[i]),
{
    let mut has_secrets = false;
    let mut has_config = false;
    for i in 0..calls.len()
        invariant
            has_secrets == exists|j: int| 0 <= j < i && writes_secrets(#[trigger] calls@[j]),
            has_config == exists|j: int| 0 <= j < i && writes_config(#[trigger] calls@[j]),
    {
        let tool = to_lower(calls[i].tool.as_str());
        let action = to_lower(calls[i].action.as_str());
        let write = str_contains(action.as_str(), "write") || str_contains(action.as_str(), "set");
        if str_contains(tool.as_str(), "secrets") && write {
            has_secrets = true;
        }
        if str_contains(tool.as_str(), "config") && write {
            has_config = true;
        }
    }
    (has_secrets, has_config)
}

/// A message a flow sent: text, or a card with its title.
#[derive(Debug, PartialEq, Eq)]
pub enum OutputMessage {
    Text(Option<String>),
    Card(Option<String>),
}

/// The detail line of an output message, if any.
pub open spec fn output_line(m: OutputMessage) -> Option<Seq<char>> {
    match m {
        OutputMessage::Text(Some(t)) => Some("output text: "@ + trim(t@)),
        OutputMessage::Text(None) => None,
        OutputMessage::Card(title) => Some(
            "output card: "@ + match title {
                Some(t) => t@,
                None => "(untitled card)"@,
            },
        ),
    }
}

/// The detail lines of output messages.
pub open spec fn output_lines(ms: Seq<OutputMessage>) -> Seq<Seq<char>>
    decreases ms.len(),
{
    if ms.len() == 0 {
        Seq::empty()
    } else {
        match output_line(ms.last()) {
            Some(l) => output_lines(ms.drop_last()).push(l),
            None => output_lines(ms.drop_last()),
        }
    }
}

/// The detail lines naming tool calls: `tool {tool}.{action} invoked`.
pub open spec fn call_lines(cs: Seq<ToolCall>) -> Seq<Seq<char>>
    decreases cs.len(),
{
    if cs.len() == 0 {
        Seq::empty()
    } else {
        call_lines(cs.drop_last()).push("tool "@ + cs.last().tool@ + "."@ + cs.last().action@ + " invoked"@)
    }
}

/// What a setup flow did when it ran.
#[derive(Debug, PartialEq, Eq)]
pub struct FlowRun {
    pub outputs: Vec<OutputMessage>,
    pub tool_calls: Vec<ToolCall>,
}

/// The judged setup step: it passes when the flow wrote both secrets and
/// configuration; the outputs are listed, then what was not written, then
/// (on failure) the calls made or that none were.
pub open spec fn setup_step_details(run: FlowRun) -> (ConformanceStatus, Seq<Seq<char>>) {
    let secrets = exists|i: int|
        0 <= i < run.tool_calls@.len() && writes_secrets(#[trigger] run.tool_calls@[i]);
    let config = exists|i: int|
        0 <= i < run.tool_calls@.len() && writes_config(#[trigger] run.tool_calls@[i]);
    let base = output_lines(run.outputs@) + (if !secrets {
        seq!["no secrets write detected in tool calls"@]
    } else {
        Seq::empty()
    }) + (if !config {
        seq!["no config write detected in tool calls"@]
    } else {
        Seq::empty()
    });
    if secrets && config {
        (ConformanceStatus::Passed, base)
    } else if run.tool_calls@.len() == 0 {
        (ConformanceStatus::Failed, base.push("no tool calls recorded during setup flow"@))
    } else {
        (ConformanceStatus::Failed, base + call_lines(run.tool_calls@))
    }
}

/// The setup step: a missing flow or a failed run fails it; otherwise it is
/// judged by what the flow wrote.
pub fn setup_step(flow_id: &str, found: bool, run: Result<FlowRun, String>) -> (r: ConformanceStep)
    ensures
        if !found {
            step_is(
                r,
                "setup"@,
                ConformanceStatus::Failed,
                seq!["setup flow "@ + flow_id@ + " not found in pack"@],
            )
        } else {
            match run {
                Err(e) => step_is(r, "setup"@, ConformanceStatus::Failed, seq![e@]),
                Ok(fr) => step_is(r, "setup"@, setup_step_details(fr).0, setup_step_details(fr).1),
            }
        },
{
    if !found {
        let mut m = concat2("setup flow ", flow_id);
        push_str(&mut m, " not found in pack");
        return step("setup", ConformanceStatus::Failed, one(m));
    }
    match run {
        Err(e) => step("setup", ConformanceStatus::Failed, one(e)),
        Ok(fr) => {
            let (has_secrets, has_config) = detect_setup_writes(&fr.tool_calls);
            let mut details: Vec<String> = Vec::new();
            for i in 0..fr.outputs.len()
                invariant
                    views(details@) == output_lines(fr.outputs@.take(i as int)),
            {
                proof {
                    assert(fr.outputs@.take(i + 1).drop_last() =~= fr.outputs@.take(i as int));
                }
                let ghost before = details@;
                match &fr.outputs[i] {
                    OutputMessage::Text(Some(t)) => {
                        let tt = str_trim(t.as_str());
                        details.push(concat2("output text: ", tt.as_str()));
                    },
                    OutputMessage::Text(None) => {},
                    OutputMessage::Card(title) => {
                        let tl = match title {
                            Some(t) => t.clone(),
                            None => owned("(untitled card)"),
                        };
                        details.push(concat2("output card: ", tl.as_str()));
                    },
                }
                proof {
                    match output_line(fr.outputs@[i as int]) {
                        Some(l) => {
                            assert(views(details@) =~= views(before).push(l));
                        },
                        None => {},
                    }
                }
            }
            proof {
                assert(fr.outputs@.take(fr.outputs.len() as int) =~= fr.outputs@);
            }
            if !has_secrets {
                details.push(owned("no secrets write detected in tool calls"));
            }
            if !has_config {
                details.push(owned("no config write detected in tool calls"));
            }
            let ghost base = views(details@);
            proof {
                assert(base =~= setup_step_base(fr));
            }
            if has_secrets && has_config {
                return step("setup", ConformanceStatus::Passed, details);
            }
            if fr.tool_calls.len() == 0 {
                details.push(owned("no tool calls recorded during setup flow"));
                proof {
                    assert(views(details@) =~= base.push("no tool calls recorded during setup flow"@));
                }
            } else {
                for i in 0..fr.tool_calls.len()
                    invariant
                        views(details@) == base + call_lines(fr.tool_calls@.take(i as int)),
                {
                    proof {
                        assert(fr.tool_calls@.take(i + 1).drop_last() =~= fr.tool_calls@.take(
                            i as int,
                        ));
                    }
                    let ghost before = details@;
                    let mut line = concat2("tool ", fr.tool_calls[i].tool.as_str());
                    push_str(&mut line, ".");
                    push_str(&mut line, fr.tool_calls[i].action.as_str());
                    push_str(&mut line, " invoked");
                    details.push(line);
                    proof {
                        assert(views(details@) =~= views(before).push(
                            "tool "@ + fr.tool_calls@[i as int].tool@ + "."@
                                + fr.tool_calls@[i as int].action@ + " invoked"@,
                        ));
                    }
                }
                proof {
                    assert(fr.tool_calls@.take(fr.tool_calls.len() as int) =~= fr.tool_calls@);
                }
            }
            step("setup", ConformanceStatus::Failed, details)
        },
    }
}

/// The setup details before the listing of calls.
pub open spec fn setup_step_base(run: FlowRun) -> Seq<Seq<char>> {
    let secrets = exists|i: int|
        0 <= i < run.tool_calls@.len() && writes_secrets(#[trigger] run.tool_calls@[i]);
    let config = exists|i: int|
        0 <= i < run.tool_calls@.len() && writes_config(#[trigger] run.tool_calls@[i]);
    output_lines(run.outputs@) + (if !secrets {
        seq!["no secrets write detected in tool calls"@]
    } else {
        Seq::empty()
    }) + (if !config {
        seq!["no config write detected in tool calls"@]
    } else {
        Seq::empty()
    })
}

/// What one adapter did in the ingress step: the number of messages its
/// flow sent, or why it failed.
pub type AdapterRun = (String, Result<usize, String>);

/// The detail line of an ingress adapter run.
pub open spec fn ingress_line(name: Seq<char>, run: Result<usize, String>) -> Seq<char> {
    match run {
        Ok(n) => if n == 0 {
            name + " produced no outbound messages"@
        } else {
            name + " produced "@ + decimal(n as nat) + " outbound message(s)"@
        },
        Err(e) => name + " failed: "@ + e@,
    }
}

/// The detail lines of ingress adapter runs.
pub open spec fn ingress_lines(runs: Seq<AdapterRun>) -> Seq<Seq<char>>
    decreases runs.len(),
{
    if runs.len() == 0 {
        Seq::empty()
    } else {
        ingress_lines(runs.drop_last()).push(ingress_line(runs.last().0@, runs.last().1))
    }
}

/// An ingress run fails when its flow failed or sent nothing.
pub open spec fn ingress_failed(run: Result<usize, String>) -> bool {
    match run {
        Ok(n) => n == 0,
        Err(_) => true,
    }
}

/// The ingress step over the ingress adapters' runs: skipped without
/// adapters; failed when any run failed or sent nothing.
pub fn ingress_step(runs: &Vec<AdapterRun>) -> (r: ConformanceStep)
    ensures
        if runs@.len() == 0 {
            step_is(r, "ingress"@, ConformanceStatus::Skipped, seq!["no ingress adapters found"@])
        } else {
            step_is(
                r,
                "ingress"@,
                if exists|i: int| 0 <= i < runs@.len() && ingress_failed((#[trigger] runs@[i]).1) {
                    ConformanceStatus::Failed
                } else {
                    ConformanceStatus::Passed
                },
                ingress_lines(runs@),
            )
        },
{
    if runs.len() == 0 {
        return step("ingress", ConformanceStatus::Skipped, one(owned("no ingress adapters found")));
    }
    let mut details: Vec<String> = Vec::new();
    let mut failed = false;
    for i in 0..runs.len()
        invariant
            views(details@) == ingress_lines(runs@.take(i as int)),
            failed == exists|j: int| 0 <= j < i && ingress_failed((#[trigger] runs@[j]).1),
    {
        proof {
            assert(runs@.take(i + 1).drop_last() =~= runs@.take(i as int));
        }
        let ghost before = details@;
        let name = runs[i].0.as_str();
        let line = match &runs[i].1 {
            Ok(n) => {
                if *n == 0 {
                    failed = true;
                    concat2(name, " produced no outbound messages")
                } else {
                    let mut l = concat2(name, " produced ");
                    push_str(&mut l, decimal_string(*n).as_str());
                    push_str(&mut l, " outbound message(s)");
                    l
                }
            },
            Err(e) => {
                failed = true;
                let mut l = concat2(name, " failed: ");
                push_str(&mut l, e.as_str());
                l
            },
        };
        details.push(line);
        proof {
            assert(views(details@) =~= views(before).push(
                ingress_line(runs@[i as int].0@, runs@[i as int].1),
            ));
        }
    }
    proof {
        assert(runs@.take(runs.len() as int) =~= runs@);
    }
    step(
        "ingress",
        if failed {
            ConformanceStatus::Failed
        } else {
            ConformanceStatus::Passed
        },
        details,
    )
}

/// The detail line of an egress adapter invocation.
pub open spec fn egress_line(name: Seq<char>, run: Result<(), String>) -> Seq<char> {
    match run {
        Ok(()) => name + " invoked (dry-run)"@,
        Err(e) => name + " failed: "@ + e@,
    }
}

/// The detail lines of egress invocations.
pub open spec fn egress_lines(runs: Seq<(String, Result<(), String>)>) -> Seq<Seq<char>>
    decreases runs.len(),
{
    if runs.len() == 0 {
        Seq::empty()
    } else {
        egress_lines(runs.drop_last()).push(egress_line(runs.last().0@, runs.last().1))
    }
}

/// The egress step over the egress adapters' invocations: skipped without
/// adapters; failed when any invocation failed.
pub fn egress_step(runs: &Vec<(String, Result<(), String>)>) -> (r: ConformanceStep)
    ensures
        if runs@.len() == 0 {
            step_is(r, "egress"@, ConformanceStatus::Skipped, seq!["no egress adapters found"@])
        } else {
            step_is(
                r,
                "egress"@,
                if exists|i: int| 0 <= i < runs@.len() && (#[trigger] runs@[i]).1 is Err {
                    ConformanceStatus::Failed
                } else {
                    ConformanceStatus::Passed
                },
                egress_lines(runs@),
            )
        },
{
    if runs.len() == 0 {
        return step("egress", ConformanceStatus::Skipped, one(owned("no egress adapters found")));
    }
    let mut details: Vec<String> = Vec::new();
    let mut failed = false;
    for i in 0..runs.len()
        invariant
            views(details@) == egress_lines(runs@.take(i as int)),
            failed == exists|j: int| 0 <= j < i && (#[trigger] runs@[j]).1 is Err,
    {
        proof {
            assert(runs@.take(i + 1).drop_last() =~= runs@.take(i as int));
        }
        let ghost before = details@;
        let name = runs[i].0.as_str();
        let line = match &runs[i].1 {
            Ok(()) => concat2(name, " invoked (dry-run)"),
            Err(e) => {
                failed = true;
                let mut l = concat2(name, " failed: ");
                push_str(&mut l, e.as_str());
                l
            },
        };
        details.push(line);
        proof {
            assert(views(details@) =~= views(before).push(
                egress_line(runs@[i as int].0@, runs@[i as int].1),
            ));
        }
    }
    proof {
        assert(runs@.take(runs.len() as int) =~= runs@);
    }
    step(
        "egress",
        if failed {
            ConformanceStatus::Failed
        } else {
            ConformanceStatus::Passed
        },
        details,
    )
}

/// The subscriptions step: without a flow it is skipped, or failed for a
/// Teams pack, which requires one; a flow missing from the pack or a
/// failed run fails it; a run that sent nothing passes with a note.
pub fn subscriptions_step(
    pack_id: &str,
    flow_id: Option<&str>,
    found: bool,
    run: Result<usize, String>,
) -> (r: ConformanceStep)
    ensures
        match flow_id {
            None => if contains_seq(pack_id@, "teams"@) {
                step_is(
                    r,
                    "subscriptions"@,
                    ConformanceStatus::Failed,
                    seq!["no subscriptions flow found (teams pack requires it)"@],
                )
            } else {
                step_is(
                    r,
                    "subscriptions"@,
                    ConformanceStatus::Skipped,
                    seq!["no subscriptions flow found"@],
                )
            },
            Some(id) => if !found {
                step_is(
                    r,
                    "subscriptions"@,
                    ConformanceStatus::Failed,
                    seq!["subscriptions flow "@ + id@ + " not found in pack"@],
                )
            } else {
                match run {
                    Err(e) => step_is(r, "subscriptions"@, ConformanceStatus::Failed, seq![e@]),
                    Ok(n) => step_is(
                        r,
                        "subscriptions"@,
                        ConformanceStatus::Passed,
                        if n == 0 {
                            seq!["subscriptions flow produced no outbound messages"@]
                        } else {
                            Seq::empty()
                        },
                    ),
                }
            },
        },
{
    match flow_id {
        None => {
            if str_contains(pack_id, "teams") {
                step(
                    "subscriptions",
                    ConformanceStatus::Failed,
                    one(owned("no subscriptions flow found (teams pack requires it)")),
                )
            } else {
                step(
                    "subscriptions",
                    ConformanceStatus::Skipped,
                    one(owned("no subscriptions flow found")),
                )
            }
        },
        Some(id) => {
            if !found {
                let mut m = concat2("subscriptions flow ", id);
                push_str(&mut m, " not found in pack");
                return step("subscriptions", ConformanceStatus::Failed, one(m));
            }
            match run {
                Err(e) => step("subscriptions", ConformanceStatus::Failed, one(e)),
                Ok(n) => {
                    if n == 0 {
                        step(
                            "subscriptions",
                            ConformanceStatus::Passed,
                            one(owned("subscriptions flow produced no outbound messages")),
                        )
                    } else {
                        let v: Vec<String> = Vec::new();
                        proof {
                            assert(views(v@) =~= Seq::<Seq<char>>::empty());
                        }
                        step("subscriptions", ConformanceStatus::Passed, v)
                    }
                },
            }
        },
    }
}

/// The setup step when the pack declares no setup flow.
pub fn setup_skipped() -> (r: ConformanceStep)
    ensures
        step_is(r, "setup"@, ConformanceStatus::Skipped, seq!["no setup flow declared"@]),
{
    step("setup", ConformanceStatus::Skipped, one(owned("no setup flow declared")))
}

/// The name of a step outcome as printed.
pub open spec fn conformance_status_text(s: ConformanceStatus) -> Seq<char> {
    match s {
        ConformanceStatus::Passed => "ok"@,
        ConformanceStatus::Skipped => "skipped"@,
        ConformanceStatus::Failed => "failed"@,
    }
}

/// The printed lines of one step.
pub open spec fn step_text(s: ConformanceStep) -> Seq<Seq<char>> {
    seq!["    - "@ + s.name@ + ": "@ + conformance_status_text(s.status)] + views(
        s.details@,
    ).map_values(|d: Seq<char>| "      - "@ + d)
}

/// The printed lines of steps.
pub open spec fn steps_text(ss: Seq<ConformanceStep>) -> Seq<Seq<char>>
    decreases ss.len(),
{
    if ss.len() == 0 {
        Seq::empty()
    } else {
        steps_text(ss.drop_last()) + step_text(ss.last())
    }
}

/// The printed report of a pack's conformance.
pub open spec fn conformance_text(r: ConformanceReport) -> Seq<Seq<char>> {
    seq!["Pack "@ + r.pack_id@ + " ("@ + r.pack_path@ + ")"@, "  conformance:"@] + steps_text(
        r.steps@,
    )
}

/// The lines printed for a pack's conformance.
pub fn conformance_report_lines(report: &ConformanceReport) -> (r: Vec<String>)
    ensures
        views(r@) == conformance_text(*report),
{
    let mut out: Vec<String> = Vec::new();
    let mut h = concat2("Pack ", report.pack_id.as_str());
    push_str(&mut h, " (");
    push_str(&mut h, report.pack_path.as_str());
    push_str(&mut h, ")");
    out.push(h);
    out.push(owned("  conformance:"));
    let ghost head = views(out@);
    proof {
        assert(head =~= seq!["Pack "@ + report.pack_id@ + " ("@ + report.pack_path@ + ")"@, "  conformance:"@]);
    }
    for i in 0..report.steps.len()
        invariant
            head == seq!["Pack "@ + report.pack_id@ + " ("@ + report.pack_path@ + ")"@, "  conformance:"@],
            views(out@) == head + steps_text(report.steps@.take(i as int)),
    {
        proof {
            assert(report.steps@.take(i + 1).drop_last() =~= report.steps@.take(i as int));
        }
        let s = &report.steps[i];
        let ghost before = views(out@);
        let status = match s.status {
            ConformanceStatus::Passed => "ok",
            ConformanceStatus::Skipped => "skipped",
            ConformanceStatus::Failed => "failed",
        };
        let mut line = concat2("    - ", s.name.as_str());
        push_str(&mut line, ": ");
        push_str(&mut line, status);
        out.push(line);
        let ghost mid = views(out@);
        for j in 0..s.details.len()
            invariant
                views(out@) == mid + views(s.details@).take(j as int).map_values(
                    |d: Seq<char>| "      - "@ + d,
                ),
        {
            let ghost b2 = views(out@);
            out.push(concat2("      - ", s.details[j].as_str()));
            proof {
                assert(views(s.details@).take(j + 1).map_values(|d: Seq<char>| "      - "@ + d)
                    =~= views(s.details@).take(j as int).map_values(|d: Seq<char>| "      - "@ + d).push(
                    "      - "@ + s.details@[j as int]@,
                ));
                assert(views(out@) =~= b2.push("      - "@ + s.details@[j as int]@));
            }
        }
        proof {
            assert(views(s.details@).take(s.details.len() as int) =~= views(s.details@));
            assert(views(out@) =~= before + step_text(*s));
        }
    }
    proof {
        assert(report.steps@.take(report.steps.len() as int) =~= report.steps@);
    }
    out
}

/// The flow the subscriptions step runs.
pub fn subscriptions_flow_id(flows: &Vec<StageFlow>) -> (r: Option<String>)
    ensures
        opt_view(r) == crate::e2e::stage_flow_of(flows@, "subscriptions"@, crate::e2e::IdRule::Contains),
{
    crate::e2e::subscriptions_flow_id(flows)
}

} // verus!
