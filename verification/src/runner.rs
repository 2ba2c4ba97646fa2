//! The flow runner: flow definitions and their checks, the walk from node
//! to node, where a conversation's state is stored, which flow handles an
//! inbound message, and how cards are assembled from rendered text.
use vstd::prelude::*;
use crate::json::Json;
use crate::packs::opt_view;
use crate::platform::{platform_named, Platform};
use crate::subscriptions::{json_str_at, object_lookup};
use crate::strmap::StrMap;
use crate::text::{
    concat2, is_blank, trim_start, lemma_seq_le_antisym, lemma_seq_le_total, lemma_seq_le_trans, owned, push_str,
    seq_le, str_eq, str_le, trim, views,
};

verus! {

/// Whether tools are called for real or stubbed.
#[derive(Clone, Copy, Debug, PartialEq, Eq)]
pub enum ToolMode {
    Live,
    Stub,
}

/// How a flow run executes.
#[derive(Clone, Debug, PartialEq, Eq)]
pub struct ExecutionOptions {
    pub tool_mode: ToolMode,
    pub allow_agent: bool,
    pub tool_endpoint: String,
}

/// The agent a question-and-answer node falls back to.
#[derive(Clone, Debug, PartialEq, Eq)]
pub struct AgentCfg {
    /// The agent type (`ollama` when absent).
    pub kind: Option<String>,
    pub model: Option<String>,
    pub task: Option<String>,
    pub endpoint: Option<String>,
}

/// A node that renders a text template.
#[derive(Clone, Debug, PartialEq, Eq)]
pub struct TemplateNode {
    pub template: String,
}

/// A block of a card node, with templated text.
#[derive(Clone, Debug, PartialEq, Eq)]
pub enum CardBlock {
    Text { text: String, markdown: Option<bool> },
    Fact { label: String, value: String },
    Image { url: String },
}

/// An action of a card node, with templated text.
#[derive(Clone, Debug, PartialEq, Eq)]
pub enum CardAction {
    OpenUrl { title: String, url: String, jwt: Option<bool> },
    /// A postback; its data travels as it is.
    Postback { title: String },
}

/// A node that renders a card.
#[derive(Clone, Debug, PartialEq, Eq)]
pub struct CardNode {
    pub title: Option<String>,
    pub body: Vec<CardBlock>,
    pub actions: Vec<CardAction>,
}

/// A rendered card block.
#[derive(Clone, Debug, PartialEq, Eq)]
pub enum RenderedBlock {
    Text { text: String, markdown: bool },
    Fact { label: String, value: String },
    Image { url: String },
}

/// A rendered card action; a postback keeps its index in the card's actions
/// so its data can be attached.
#[derive(Clone, Debug, PartialEq, Eq)]
pub enum RenderedAction {
    OpenUrl { title: String, url: String, jwt: bool },
    Postback { title: String, index: usize },
}

/// A rendered card.
#[derive(Clone, Debug, PartialEq, Eq)]
pub struct RenderedCard {
    pub title: Option<String>,
    pub body: Vec<RenderedBlock>,
    pub actions: Vec<RenderedAction>,
}

/// The templates of a card block, in rendering order.
pub open spec fn block_templates(b: CardBlock) -> Seq<Seq<char>> {
    match b {
        CardBlock::Text { text, .. } => seq![text@],
        CardBlock::Fact { label, value } => seq![label@, value@],
        CardBlock::Image { url } => seq![url@],
    }
}

/// The templates of a card action, in rendering order.
pub open spec fn action_templates(a: CardAction) -> Seq<Seq<char>> {
    match a {
        CardAction::OpenUrl { title, url, .. } => seq![title@, url@],
        CardAction::Postback { title } => seq![title@],
    }
}

/// The templates of blocks, in order.
pub open spec fn blocks_templates(bs: Seq<CardBlock>) -> Seq<Seq<char>>
    decreases bs.len(),
{
    if bs.len() == 0 {
        Seq::empty()
    } else {
        blocks_templates(bs.drop_last()) + block_templates(bs.last())
    }
}

/// The templates of actions, in order.
pub open spec fn actions_templates(as_: Seq<CardAction>) -> Seq<Seq<char>>
    decreases as_.len(),
{
    if as_.len() == 0 {
        Seq::empty()
    } else {
        actions_templates(as_.drop_last()) + action_templates(as_.last())
    }
}

/// Every template of a card in rendering order: the title, each block's,
/// then each action's.
pub open spec fn card_templates_of(c: CardNode) -> Seq<Seq<char>> {
    (match c.title {
        Some(t) => seq![t@],
        None => Seq::empty(),
    }) + blocks_templates(c.body@) + actions_templates(c.actions@)
}

fn push_text(out: &mut Vec<String>, t: &String)
    ensures
        views(final(out)@) == views(old(out)@).push(t@),
{
    let ghost before = out@;
    out.push(t.clone());
    proof {
        assert(views(out@) =~= views(before).push(t@));
    }
}

/// The templates a card renders, in order.
pub fn card_templates(card: &CardNode) -> (r: Vec<String>)
    ensures
        views(r@) == card_templates_of(*card),
{
    let mut out: Vec<String> = Vec::new();
    match &card.title {
        Some(t) => push_text(&mut out, t),
        None => {},
    }
    let ghost head = views(out@);
    proof {
        assert(head =~= match card.title {
            Some(t) => seq![t@],
            None => Seq::<Seq<char>>::empty(),
        });
    }
    for i in 0..card.body.len()
        invariant
            views(out@) == head + blocks_templates(card.body@.take(i as int)),
    {
        proof {
            assert(card.body@.take(i + 1).drop_last() =~= card.body@.take(i as int));
        }
        let ghost before = views(out@);
        match &card.body[i] {
            CardBlock::Text { text, .. } => push_text(&mut out, text),
            CardBlock::Fact { label, value } => {
                push_text(&mut out, label);
                push_text(&mut out, value);
            },
            CardBlock::Image { url } => push_text(&mut out, url),
        }
        proof {
            assert(views(out@) =~= before + block_templates(card.body@[i as int]));
        }
    }
    proof {
        assert(card.body@.take(card.body.len() as int) =~= card.body@);
    }
    let ghost mid = views(out@);
    for i in 0..card.actions.len()
        invariant
            views(out@) == mid + actions_templates(card.actions@.take(i as int)),
    {
        proof {
            assert(card.actions@.take(i + 1).drop_last() =~= card.actions@.take(i as int));
        }
        let ghost before = views(out@);
        match &card.actions[i] {
            CardAction::OpenUrl { title, url, .. } => {
                push_text(&mut out, title);
                push_text(&mut out, url);
            },
            CardAction::Postback { title } => push_text(&mut out, title),
        }
        proof {
            assert(views(out@) =~= before + action_templates(card.actions@[i as int]));
        }
    }
    proof {
        assert(card.actions@.take(card.actions.len() as int) =~= card.actions@);
        assert(views(out@) =~= card_templates_of(*card));
    }
    out
}

/// A rendered block is its block with the renderings from position `k`:
/// text blocks are markdown unless they say otherwise.
pub open spec fn block_matches(b: CardBlock, rb: RenderedBlock, rendered: Seq<Seq<char>>, k: int) -> bool {
    match (b, rb) {
        (CardBlock::Text { markdown, .. }, RenderedBlock::Text { text, markdown: m }) => text@
            == rendered[k] && m == (match markdown {
            Some(x) => x,
            None => true,
        }),
        (CardBlock::Fact { .. }, RenderedBlock::Fact { label, value }) => label@ == rendered[k]
            && value@ == rendered[k + 1],
        (CardBlock::Image { .. }, RenderedBlock::Image { url }) => url@ == rendered[k],
        _ => false,
    }
}

/// A rendered action is the `i`th action with the renderings from position
/// `k`: links carry no token unless they ask for one.
pub open spec fn action_matches(
    a: CardAction,
    ra: RenderedAction,
    rendered: Seq<Seq<char>>,
    k: int,
    i: int,
) -> bool {
    match (a, ra) {
        (CardAction::OpenUrl { jwt, .. }, RenderedAction::OpenUrl { title, url, jwt: j }) => title@
            == rendered[k] && url@ == rendered[k + 1] && j == (match jwt {
            Some(x) => x,
            None => false,
        }),
        (CardAction::Postback { .. }, RenderedAction::Postback { title, index }) => title@
            == rendered[k] && index == i,
        _ => false,
    }
}

/// The card with its templates replaced, in order, by their renderings.
pub open spec fn assembled_card(c: CardNode, rendered: Seq<Seq<char>>, r: RenderedCard) -> bool {
    let nt: int = if c.title is Some { 1 } else { 0 };
    &&& opt_view(r.title) == (match c.title {
        Some(_) => Some(rendered[0]),
        None => None,
    })
    &&& r.body@.len() == c.body@.len()
    &&& (forall|i: int|
        0 <= i < c.body@.len() ==> block_matches(
            #[trigger] c.body@[i],
            r.body@[i],
            rendered,
            nt + blocks_templates(c.body@.take(i)).len(),
        ))
    &&& r.actions@.len() == c.actions@.len()
    &&& (forall|i: int|
        0 <= i < c.actions@.len() ==> action_matches(
            #[trigger] c.actions@[i],
            r.actions@[i],
            rendered,
            nt + blocks_templates(c.body@).len() + actions_templates(c.actions@.take(i)).len(),
            i,
        ))
}

proof fn lemma_blocks_templates_len(bs: Seq<CardBlock>, i: int)
    requires
        0 <= i < bs.len(),
    ensures
        blocks_templates(bs.take(i + 1)).len() == blocks_templates(bs.take(i)).len()
            + block_templates(bs[i]).len(),
        blocks_templates(bs.take(i + 1)).len() <= blocks_templates(bs).len(),
    decreases bs.len() - i,
{
    assert(bs.take(i + 1).drop_last() =~= bs.take(i));
    if i + 1 < bs.len() {
        lemma_blocks_templates_len(bs, i + 1);
    } else {
        assert(bs.take(i + 1) =~= bs);
    }
}

proof fn lemma_actions_templates_len(as_: Seq<CardAction>, i: int)
    requires
        0 <= i < as_.len(),
    ensures
        actions_templates(as_.take(i + 1)).len() == actions_templates(as_.take(i)).len()
            + action_templates(as_[i]).len(),
        actions_templates(as_.take(i + 1)).len() <= actions_templates(as_).len(),
    decreases as_.len() - i,
{
    assert(as_.take(i + 1).drop_last() =~= as_.take(i));
    if i + 1 < as_.len() {
        lemma_actions_templates_len(as_, i + 1);
    } else {
        assert(as_.take(i + 1) =~= as_);
    }
}

#[verifier::rlimit(40)]
fn assemble_blocks(body: &Vec<CardBlock>, rendered: &Vec<String>, start: usize) -> (r: Vec<
    RenderedBlock,
>)
    requires
        start + blocks_templates(body@).len() <= rendered@.len(),
    ensures
        r@.len() == body@.len(),
        forall|i: int|
            0 <= i < body@.len() ==> block_matches(
                #[trigger] body@[i],
                r@[i],
                views(rendered@),
                start + blocks_templates(body@.take(i)).len(),
            ),
{
    let mut k: usize = start;
    let n: usize = rendered.len();
    let mut out: Vec<RenderedBlock> = Vec::new();
    proof {
        assert(body@.take(0) =~= Seq::<CardBlock>::empty());
    }
    for i in 0..body.len()
        invariant
            start + blocks_templates(body@).len() <= rendered@.len(),
            rendered@.len() == n,
            k == start + blocks_templates(body@.take(i as int)).len(),
            out@.len() == i,
            forall|j: int|
                0 <= j < i ==> block_matches(
                    #[trigger] body@[j],
                    out@[j],
                    views(rendered@),
                    start + blocks_templates(body@.take(j)).len(),
                ),
    {
        proof {
            lemma_blocks_templates_len(body@, i as int);
        }
        let b = match &body[i] {
            CardBlock::Text { markdown, .. } => {
                let t = rendered[k].clone();
                RenderedBlock::Text {
                    text: t,
                    markdown: match markdown {
                        Some(m) => *m,
                        None => true,
                    },
                }
            },
            CardBlock::Fact { .. } => {
                let l = rendered[k].clone();
                let v = rendered[k + 1].clone();
                RenderedBlock::Fact { label: l, value: v }
            },
            CardBlock::Image { .. } => {
                let u = rendered[k].clone();
                RenderedBlock::Image { url: u }
            },
        };
        k = match &body[i] {
            CardBlock::Fact { .. } => k + 2,
            _ => k + 1,
        };
        out.push(b);
    }
    out
}

#[verifier::rlimit(40)]
fn assemble_actions(actions: &Vec<CardAction>, rendered: &Vec<String>, start: usize) -> (r: Vec<
    RenderedAction,
>)
    requires
        start + actions_templates(actions@).len() <= rendered@.len(),
    ensures
        r@.len() == actions@.len(),
        forall|i: int|
            0 <= i < actions@.len() ==> action_matches(
                #[trigger] actions@[i],
                r@[i],
                views(rendered@),
                start + actions_templates(actions@.take(i)).len(),
                i,
            ),
{
    let mut k: usize = start;
    let n: usize = rendered.len();
    let mut out: Vec<RenderedAction> = Vec::new();
    proof {
        assert(actions@.take(0) =~= Seq::<CardAction>::empty());
    }
    for i in 0..actions.len()
        invariant
            start + actions_templates(actions@).len() <= rendered@.len(),
            rendered@.len() == n,
            k == start + actions_templates(actions@.take(i as int)).len(),
            out@.len() == i,
            forall|j: int|
                0 <= j < i ==> action_matches(
                    #[trigger] actions@[j],
                    out@[j],
                    views(rendered@),
                    start + actions_templates(actions@.take(j)).len(),
                    j,
                ),
    {
        proof {
            lemma_actions_templates_len(actions@, i as int);
        }
        let a = match &actions[i] {
            CardAction::OpenUrl { jwt, .. } => {
                let t = rendered[k].clone();
                let u = rendered[k + 1].clone();
                RenderedAction::OpenUrl {
                    title: t,
                    url: u,
                    jwt: match jwt {
                        Some(j) => *j,
                        None => false,
                    },
                }
            },
            CardAction::Postback { .. } => {
                let t = rendered[k].clone();
                RenderedAction::Postback { title: t, index: i }
            },
        };
        k = match &actions[i] {
            CardAction::OpenUrl { .. } => k + 2,
            _ => k + 1,
        };
        out.push(a);
    }
    out
}

/// Assembles a rendered card from the renderings of its templates, given in
/// the order `card_templates` lists them.
pub fn assemble_card(card: &CardNode, rendered: &Vec<String>) -> (r: RenderedCard)
    requires
        rendered@.len() == card_templates_of(*card).len(),
    ensures
        assembled_card(*card, views(rendered@), r),
{
    let nt: usize = if card.title.is_some() { 1 } else { 0 };
    let total: usize = rendered.len();
    proof {
        assert(card_templates_of(*card).len() == nt + blocks_templates(card.body@).len()
            + actions_templates(card.actions@).len());
    }
    let title = match &card.title {
        Some(_) => Some(rendered[0].clone()),
        None => None,
    };
    let body = assemble_blocks(&card.body, rendered, nt);
    let nb = nt + block_count(&card.body);
    let actions = assemble_actions(&card.actions, rendered, nb);
    RenderedCard { title, body, actions }
}

fn block_count(body: &Vec<CardBlock>) -> (r: usize)
    requires
        blocks_templates(body@).len() <= usize::MAX,
    ensures
        r == blocks_templates(body@).len(),
{
    let mut n: usize = 0;
    for i in 0..body.len()
        invariant
            n == blocks_templates(body@.take(i as int)).len(),
            blocks_templates(body@).len() <= usize::MAX,
    {
        proof {
            lemma_blocks_templates_len(body@, i as int);
        }
        n = n + match &body[i] {
            CardBlock::Fact { .. } => 2,
            _ => 1,
        };
    }
    proof {
        assert(body@.take(body.len() as int) =~= body@);
    }
    n
}


/// A tool a node calls.
#[derive(Clone, Debug, PartialEq, Eq)]
pub struct ToolRef {
    pub tool: String,
    pub action: String,
}

/// A node of a runner flow: which parts it has and where it routes.
#[derive(Clone, Debug, PartialEq, Eq)]
pub struct RunnerNode {
    pub has_qa: bool,
    pub tool: Option<ToolRef>,
    pub template: Option<TemplateNode>,
    pub card: Option<CardNode>,
    pub routes: Vec<String>,
}

/// A runner flow: id, type, entry node and nodes by name.
#[derive(Debug, PartialEq, Eq)]
pub struct RunnerFlow {
    pub id: String,
    pub title: Option<String>,
    pub kind: String,
    pub entry: String,
    pub nodes: StrMap<RunnerNode>,
}

/// Why a flow definition is refused, if it is: a blank id, type or entry,
/// no nodes, or an entry that is not a node.
pub open spec fn flow_problem(f: RunnerFlow) -> Option<Seq<char>> {
    if trim(f.id@).len() == 0 {
        Some("flow missing id"@)
    } else if trim(f.kind@).len() == 0 {
        Some("flow "@ + f.id@ + " missing type"@)
    } else if trim(f.entry@).len() == 0 {
        Some("flow "@ + f.id@ + " missing entry point `in`"@)
    } else if f.nodes.items().len() == 0 {
        Some("flow "@ + f.id@ + " defines no nodes"@)
    } else if f.nodes.lookup(f.entry@) is None {
        Some("flow "@ + f.id@ + " entry point `"@ + f.entry@ + "` not found in nodes"@)
    } else {
        None
    }
}

/// A flow with an id but a blank type is refused with
/// `flow {id} missing type`, whatever its entry and nodes.
pub proof fn lemma_flow_without_type_refused(f: RunnerFlow)
    requires
        trim(f.id@).len() > 0,
        trim(f.kind@).len() == 0,
    ensures
        flow_problem(f) == Some("flow "@ + f.id@ + " missing type"@),
{
}

/// A flow is accepted exactly when its id, type and entry are not blank,
/// it has nodes, and its entry is one of them.
pub proof fn lemma_flow_accepted(f: RunnerFlow)
    ensures
        flow_problem(f) is None <==> (trim(f.id@).len() > 0 && trim(f.kind@).len() > 0 && trim(
            f.entry@,
        ).len() > 0 && f.nodes.items().len() > 0 && f.nodes.lookup(f.entry@) is Some),
{
}

impl RunnerFlow {
    /// Checks a flow definition.
    pub fn validate(&self) -> (r: Result<(), String>)
        ensures
            match flow_problem(*self) {
                Some(m) => r matches Err(e) && e@ == m,
                None => r is Ok,
            },
    {
        if is_blank(self.id.as_str()) {
            return Err(owned("flow missing id"));
        }
        if is_blank(self.kind.as_str()) {
            let mut m = concat2("flow ", self.id.as_str());
            push_str(&mut m, " missing type");
            return Err(m);
        }
        if is_blank(self.entry.as_str()) {
            let mut m = concat2("flow ", self.id.as_str());
            push_str(&mut m, " missing entry point `in`");
            return Err(m);
        }
        if self.nodes.is_empty() {
            let mut m = concat2("flow ", self.id.as_str());
            push_str(&mut m, " defines no nodes");
            return Err(m);
        }
        if !self.nodes.contains_key(self.entry.as_str()) {
            let mut m = concat2("flow ", self.id.as_str());
            push_str(&mut m, " entry point `");
            push_str(&mut m, self.entry.as_str());
            push_str(&mut m, "` not found in nodes");
            return Err(m);
        }
        Ok(())
    }

    /// What the runner does at node `current`, and where it goes next.
    pub fn step(&self, current: &str) -> (r: Result<NodeStep<'_>, String>)
        ensures
            match self.nodes.lookup(current@) {
                None => r matches Err(e) && e@ == "node not found: "@ + current@,
                Some(n) => r matches Ok(s) && *s.node == n && s.next == next_hop(n),
            },
    {
        match self.nodes.get(current) {
            None => Err(concat2("node not found: ", current)),
            Some(n) => {
                let next = if n.routes.len() > 0 {
                    if str_eq(n.routes[0].as_str(), "end") {
                        Hop::Stop
                    } else {
                        Hop::Goto(n.routes[0].clone())
                    }
                } else {
                    Hop::Stop
                };
                Ok(NodeStep { node: n, next })
            },
        }
    }
}

/// Where the runner goes after a node.
#[derive(Clone, Debug, PartialEq, Eq)]
pub enum Hop {
    Stop,
    Goto(String),
}

/// The next hop of a node: its first route, unless that is `end` or it has
/// none.
pub open spec fn next_hop(n: RunnerNode) -> Hop {
    if n.routes@.len() > 0 {
        if n.routes@[0]@ == "end"@ {
            Hop::Stop
        } else {
            Hop::Goto(n.routes@[0])
        }
    } else {
        Hop::Stop
    }
}

/// One step of a flow run: the node's parts run in order (questions, tool,
/// template, card), then the hop.
#[derive(Debug, PartialEq, Eq)]
pub struct NodeStep<'a> {
    pub node: &'a RunnerNode,
    pub next: Hop,
}

/// How a run's state is stored when it ends.
#[derive(Clone, Copy, Debug, PartialEq, Eq)]
pub enum SessionWrite {
    /// Update the session the run resumed.
    Update,
    /// Create a session for the user.
    Create,
    /// No user: nothing is stored.
    Skip,
}

/// A resumed session is updated; otherwise a known user gets a new one.
pub fn session_write(resumed: bool, has_user: bool) -> (r: SessionWrite)
    ensures
        r == if resumed {
            SessionWrite::Update
        } else if has_user {
            SessionWrite::Create
        } else {
            SessionWrite::Skip
        },
{
    if resumed {
        SessionWrite::Update
    } else if has_user {
        SessionWrite::Create
    } else {
        SessionWrite::Skip
    }
}

/// The state a run starts from: a stored object, else an empty object.
pub fn initial_state(stored: Option<Json>) -> (r: Json)
    ensures
        match stored {
            Some(Json::Object(m)) => r == Json::Object(m),
            _ => r matches Json::Object(m) && m.items().len() == 0,
        },
{
    match stored {
        Some(Json::Object(m)) => Json::Object(m),
        _ => Json::Object(StrMap::new()),
    }
}

/// The team a message is routed under: its own, else `default`.
pub fn team_or_default(team: Option<&str>) -> (r: String)
    ensures
        r@ == match team {
            Some(t) => t@,
            None => "default"@,
        },
{
    match team {
        Some(t) => owned(t),
        None => owned("default"),
    }
}


/// Where a flow of a pack is registered: its pack, id, platform and route.
#[derive(Debug, PartialEq, Eq)]
pub struct FlowMeta {
    pub pack_id: String,
    pub flow_id: String,
    pub platform: Option<String>,
    pub route: Option<String>,
}

/// `None` sorts before any text.
pub open spec fn opt_le(a: Option<String>, b: Option<String>) -> bool {
    match (a, b) {
        (None, _) => true,
        (Some(_), None) => false,
        (Some(x), Some(y)) => seq_le(x@, y@),
    }
}

/// The registration order: by pack, then flow id, then route.
pub open spec fn meta_le(a: FlowMeta, b: FlowMeta) -> bool {
    if a.pack_id@ != b.pack_id@ {
        seq_le(a.pack_id@, b.pack_id@)
    } else if a.flow_id@ != b.flow_id@ {
        seq_le(a.flow_id@, b.flow_id@)
    } else {
        opt_le(a.route, b.route)
    }
}

proof fn lemma_meta_le_total(a: FlowMeta, b: FlowMeta)
    ensures
        meta_le(a, b) || meta_le(b, a),
{
    lemma_seq_le_total(a.pack_id@, b.pack_id@);
    lemma_seq_le_total(a.flow_id@, b.flow_id@);
    match (a.route, b.route) {
        (Some(x), Some(y)) => lemma_seq_le_total(x@, y@),
        _ => {},
    }
}

proof fn lemma_meta_le_trans(a: FlowMeta, b: FlowMeta, c: FlowMeta)
    requires
        meta_le(a, b),
        meta_le(b, c),
    ensures
        meta_le(a, c),
{
    if a.pack_id@ != b.pack_id@ || b.pack_id@ != c.pack_id@ {
        if a.pack_id@ == c.pack_id@ {
            if a.pack_id@ != b.pack_id@ {
                lemma_seq_le_antisym(a.pack_id@, b.pack_id@);
            }
        } else if a.pack_id@ != b.pack_id@ && b.pack_id@ != c.pack_id@ {
            lemma_seq_le_trans(a.pack_id@, b.pack_id@, c.pack_id@);
        }
    } else if a.flow_id@ != b.flow_id@ || b.flow_id@ != c.flow_id@ {
        if a.flow_id@ == c.flow_id@ {
            if a.flow_id@ != b.flow_id@ {
                lemma_seq_le_antisym(a.flow_id@, b.flow_id@);
            }
        } else if a.flow_id@ != b.flow_id@ && b.flow_id@ != c.flow_id@ {
            lemma_seq_le_trans(a.flow_id@, b.flow_id@, c.flow_id@);
        }
    } else {
        match (a.route, b.route, c.route) {
            (Some(x), Some(y), Some(z)) => lemma_seq_le_trans(x@, y@, z@),
            _ => {},
        }
    }
}

/// Flows in registration order.
pub open spec fn metas_sorted(s: Seq<FlowMeta>) -> bool {
    forall|i: int, j: int| 0 <= i < j < s.len() ==> meta_le(s[i], s[j])
}

fn meta_le_exec(a: &FlowMeta, b: &FlowMeta) -> (r: bool)
    ensures
        r == meta_le(*a, *b),
{
    if !str_eq(a.pack_id.as_str(), b.pack_id.as_str()) {
        return str_le(a.pack_id.as_str(), b.pack_id.as_str());
    }
    if !str_eq(a.flow_id.as_str(), b.flow_id.as_str()) {
        return str_le(a.flow_id.as_str(), b.flow_id.as_str());
    }
    match (&a.route, &b.route) {
        (None, _) => true,
        (Some(_), None) => false,
        (Some(x), Some(y)) => str_le(x.as_str(), y.as_str()),
    }
}

/// The flows in registration order; the same flows as given.
pub fn sort_flows(items: Vec<FlowMeta>) -> (r: Vec<FlowMeta>)
    ensures
        metas_sorted(r@),
        r@.to_multiset() == items@.to_multiset(),
{
    let mut rest = items;
    let mut out: Vec<FlowMeta> = Vec::new();
    let ghost orig = rest@;
    proof {
        broadcast use vstd::seq_lib::group_to_multiset_ensures;

        assert(out@.to_multiset() =~= vstd::multiset::Multiset::empty());
        assert(rest@.to_multiset().add(out@.to_multiset()) =~= orig.to_multiset());
    }
    while rest.len() > 0
        invariant
            metas_sorted(out@),
            rest@.to_multiset().add(out@.to_multiset()) == orig.to_multiset(),
        decreases rest.len(),
    {
        let ghost r0 = rest@;
        let x = rest.remove(0);
        proof {
            assert(r0 =~= rest@.insert(0, x));
            vstd::seq_lib::to_multiset_insert(rest@, 0, x);
        }
        let mut j: usize = 0;
        while j < out.len() && meta_le_exec(&out[j], &x)
            invariant
                j <= out.len(),
                forall|t: int| 0 <= t < j ==> meta_le(#[trigger] out@[t], x),
            decreases out.len() - j,
        {
            j = j + 1;
        }
        let ghost before = out@;
        proof {
            if j < out.len() {
                lemma_meta_le_total(out@[j as int], x);
                assert forall|t: int| j <= t < out@.len() implies meta_le(x, #[trigger] out@[t]) by {
                    if t > j {
                        assert(meta_le(before[j as int], before[t]));
                        lemma_meta_le_trans(x, out@[j as int], out@[t]);
                    }
                }
            }
        }
        out.insert(j, x);
        proof {
            vstd::seq_lib::to_multiset_insert(before, j as int, x);
            assert(r0.to_multiset() == rest@.to_multiset().insert(x));
            assert(rest@.to_multiset().add(out@.to_multiset()) =~= orig.to_multiset());
            assert forall|a: int, b: int| 0 <= a < b < out@.len() implies meta_le(
                out@[a],
                out@[b],
            ) by {
                if b == j {
                } else if a == j {
                } else {
                    let a0 = if a < j { a } else { a - 1 };
                    let b0 = if b < j { b } else { b - 1 };
                    assert(meta_le(before[a0], before[b0]));
                }
            }
        }
    }
    proof {
        assert(rest@.to_multiset() =~= vstd::multiset::Multiset::empty());
        assert(out@.to_multiset() =~= orig.to_multiset());
    }
    out
}


/// The first index below `n` that satisfies `p`.
pub open spec fn first_index(n: int, p: spec_fn(int) -> bool) -> Option<int> {
    if exists|i: int| 0 <= i < n && #[trigger] p(i) {
        Some(choose|i: int| 0 <= i < n && #[trigger] p(i) && forall|j: int| 0 <= j < i ==> !#[trigger] p(j))
    } else {
        None
    }
}

proof fn lemma_first_index_is(n: int, p: spec_fn(int) -> bool, i: int)
    requires
        0 <= i < n,
        p(i),
        forall|j: int| 0 <= j < i ==> !#[trigger] p(j),
    ensures
        first_index(n, p) == Some(i),
{
    let c = choose|k: int| 0 <= k < n && #[trigger] p(k) && forall|j: int| 0 <= j < k ==> !#[trigger] p(j);
    assert(0 <= c < n && p(c) && forall|j: int| 0 <= j < c ==> !#[trigger] p(j));
    if c < i {
    } else if c > i {
    }
}

/// An index as a mathematical integer.
pub open spec fn opt_index(o: Option<usize>) -> Option<int> {
    match o {
        Some(i) => Some(i as int),
        None => None,
    }
}

/// The flows of a registry in registration order, and each pack's default
/// flow by its index.
pub struct FlowIndex {
    pub flows: Vec<FlowMeta>,
    pub defaults: StrMap<usize>,
}

/// The first registered flow of a pack with a given id.
pub open spec fn flow_position(flows: Seq<FlowMeta>, pack: Seq<char>, flow: Seq<char>) -> Option<int> {
    first_index(flows.len() as int, |i: int| flows[i].pack_id@ == pack && flows[i].flow_id@ == flow)
}

/// The flows registered under a route.
pub open spec fn route_pred(flows: Seq<FlowMeta>, route: Seq<char>) -> spec_fn(int) -> bool {
    |i: int| flows[i].route matches Some(r) && r@ == route
}

/// The flows registered for a platform.
pub open spec fn platform_pred(flows: Seq<FlowMeta>, platform: Seq<char>) -> spec_fn(int) -> bool {
    |i: int| on_platform(flows[i], platform)
}

/// The flows registered for a platform that are their pack's default.
pub open spec fn default_pred(flows: Seq<FlowMeta>, defaults: StrMap<usize>, platform: Seq<char>) -> spec_fn(int) -> bool {
    |i: int| on_platform(flows[i], platform) && defaults.lookup(flows[i].pack_id@) == Some(i as usize)
}

/// The first flow registered under a route.
pub open spec fn route_position(flows: Seq<FlowMeta>, route: Seq<char>) -> Option<int> {
    first_index(flows.len() as int, route_pred(flows, route))
}

/// A flow registered for the platform.
pub open spec fn on_platform(f: FlowMeta, platform: Seq<char>) -> bool {
    f.platform matches Some(p) && p@ == platform
}

/// The smallest index among the entries.
pub open spec fn min_value(d: Seq<(String, usize)>) -> int
    decreases d.len(),
{
    if d.len() <= 1 {
        d[0].1 as int
    } else {
        let m = min_value(d.drop_last());
        if (d.last().1 as int) < m {
            d.last().1 as int
        } else {
            m
        }
    }
}

/// The smallest default index.
pub open spec fn min_default(d: Seq<(String, usize)>) -> Option<int> {
    if d.len() == 0 {
        None
    } else {
        Some(min_value(d))
    }
}

/// The flow a message goes to: the first flow of its route; else, among
/// the flows of its platform, the first that is its pack's default, else
/// the first; with none for the platform, the default with the smallest
/// index; without defaults, none.
pub open spec fn selected_flow(ix: FlowIndex, route: Option<Seq<char>>, platform: Seq<char>) -> Result<
    int,
    Seq<char>,
> {
    let flows = ix.flows@;
    let n = flows.len() as int;
    let by_route = match route {
        Some(r) => route_position(flows, r),
        None => None,
    };
    match by_route {
        Some(i) => Ok(i),
        None => {
            let cand = first_index(n, platform_pred(flows, platform));
            match cand {
                None => match min_default(ix.defaults.items()) {
                    Some(v) => Ok(v),
                    None => Err("no flows registered for platform "@ + platform),
                },
                Some(c) => match first_index(n, default_pred(flows, ix.defaults, platform)) {
                    Some(d) => Ok(d),
                    None => Ok(c),
                },
            }
        },
    }
}

fn position_of(flows: &Vec<FlowMeta>, pack: &str, flow: &str) -> (r: Option<usize>)
    ensures
        opt_index(r) == flow_position(flows@, pack@, flow@),
        r matches Some(i) ==> i < flows@.len(),
{
    let ghost p = |i: int| flows@[i].pack_id@ == pack@ && flows@[i].flow_id@ == flow@;
    for i in 0..flows.len()
        invariant
            p == (|i: int| flows@[i].pack_id@ == pack@ && flows@[i].flow_id@ == flow@),
            forall|j: int| 0 <= j < i ==> !#[trigger] p(j),
    {
        if str_eq(flows[i].pack_id.as_str(), pack) && str_eq(flows[i].flow_id.as_str(), flow) {
            proof {
                lemma_first_index_is(flows@.len() as int, p, i as int);
            }
            return Some(i);
        }
    }
    None
}

impl FlowIndex {
    /// Registers flows: they are put in registration order and each pack's
    /// default flow id is resolved to the first flow of that pack and id.
    pub fn new(flows: Vec<FlowMeta>, pack_defaults: &StrMap<String>) -> (r: Self)
        ensures
            metas_sorted(r.flows@),
            r.flows@.to_multiset() == flows@.to_multiset(),
            forall|p: Seq<char>|
                #[trigger] opt_index(r.defaults.lookup(p)) == match pack_defaults.lookup(p) {
                    Some(f) => flow_position(r.flows@, p, f@),
                    None => None,
                },
            forall|i: int|
                0 <= i < r.defaults.items().len() ==> (#[trigger] r.defaults.items()[i]).1
                    < r.flows@.len(),
    {
        let sorted = sort_flows(flows);
        let es = pack_defaults.entries();
        let mut defaults: StrMap<usize> = StrMap::new();
        proof {
            crate::strmap::lemma_ascending_distinct(es@);
        }
        for i in 0..es.len()
            invariant
                es@ == pack_defaults.items(),
                crate::strmap::keys_distinct(es@),
                forall|p: Seq<char>|
                    #[trigger] defaults.lookup(p) is Some ==> exists|j: int| 0 <= j < i && es@[j].0@ == p,
                forall|j: int|
                    0 <= j < i ==> #[trigger] opt_index(defaults.lookup(es@[j].0@)) == flow_position(
                        sorted@,
                        es@[j].0@,
                        es@[j].1@,
                    ),
                forall|p: Seq<char>|
                    #[trigger] defaults.lookup(p) matches Some(v) ==> v < sorted@.len(),
        {
            match position_of(&sorted, es[i].0.as_str(), es[i].1.as_str()) {
                Some(pos) => {
                    let ghost prev = defaults;
                    defaults.insert(es[i].0.clone(), pos);
                    proof {
                        assert forall|j: int|
                            0 <= j < i + 1 implies #[trigger] opt_index(
                            defaults.lookup(es@[j].0@),
                        ) == flow_position(sorted@, es@[j].0@, es@[j].1@) by {
                            if j < i {
                                assert(es@[j].0@ != es@[i as int].0@);
                            }
                        }
                        assert forall|p: Seq<char>|
                            #[trigger] defaults.lookup(p) is Some implies exists|j: int|
                                0 <= j < i + 1 && es@[j].0@ == p by {
                            if p != es@[i as int].0@ {
                                assert(prev.lookup(p) is Some);
                            }
                        }
                    }
                },
                None => {
                    proof {
                        assert(defaults.lookup(es@[i as int].0@) is None) by {
                            if defaults.lookup(es@[i as int].0@) is Some {
                                let j = choose|j: int| 0 <= j < i && es@[j].0@ == es@[i as int].0@;
                            }
                        }
                    }
                },
            }
        }
        let es2 = defaults.entries();
        proof {
            assert(crate::strmap::keys_ascending(defaults.items()));
        }
        let r = FlowIndex { flows: sorted, defaults };
        proof {
            assert forall|p: Seq<char>|
                #[trigger] opt_index(r.defaults.lookup(p)) == match pack_defaults.lookup(p) {
                    Some(f) => flow_position(r.flows@, p, f@),
                    None => None,
                } by {
                match pack_defaults.lookup(p) {
                    Some(f) => {
                        crate::strmap::lemma_find_entry_some(es@, p);
                        let j = choose|j: int|
                            0 <= j < es@.len() && es@[j].0@ == p && crate::strmap::find_entry(
                                es@,
                                p,
                            ) == Some(es@[j].1);
                        assert(opt_index(r.defaults.lookup(es@[j].0@)) == flow_position(
                            r.flows@,
                            es@[j].0@,
                            es@[j].1@,
                        ));
                    },
                    None => {
                        if r.defaults.lookup(p) is Some {
                            let j = choose|j: int| 0 <= j < es@.len() && es@[j].0@ == p;
                            crate::strmap::lemma_find_entry_at(es@, j);
                        }
                    },
                }
            }
            let ds = r.defaults.items();
            assert forall|i: int| 0 <= i < ds.len() implies (#[trigger] ds[i]).1 < r.flows@.len() by {
                crate::strmap::lemma_ascending_distinct(ds);
                crate::strmap::lemma_find_entry_at(ds, i);
                assert(r.defaults.lookup(ds[i].0@) == Some(ds[i].1));
            }
        }
        r
    }

    /// Whether no flow is registered.
    pub fn is_empty(&self) -> (r: bool)
        ensures
            r == (self.flows@.len() == 0),
    {
        self.flows.len() == 0
    }

    /// The first registered flow with the given id.
    pub fn get_flow(&self, flow_id: &str) -> (r: Option<usize>)
        ensures
            opt_index(r) == first_index(
                self.flows@.len() as int,
                |i: int| self.flows@[i].flow_id@ == flow_id@,
            ),
    {
        let ghost p = |i: int| self.flows@[i].flow_id@ == flow_id@;
        for i in 0..self.flows.len()
            invariant
                p == (|i: int| self.flows@[i].flow_id@ == flow_id@),
                forall|j: int| 0 <= j < i ==> !#[trigger] p(j),
        {
            if str_eq(self.flows[i].flow_id.as_str(), flow_id) {
                proof {
                    lemma_first_index_is(self.flows@.len() as int, p, i as int);
                }
                return Some(i);
            }
        }
        None
    }

    fn route_hit(&self, rt: &str) -> (r: Option<usize>)
        ensures
            opt_index(r) == route_position(self.flows@, rt@),
    {
        let flows = &self.flows;
        let n = flows.len();
        let ghost pr = route_pred(flows@, rt@);
        for i in 0..n
            invariant
                n == flows@.len(),
                flows@ == self.flows@,
                pr == route_pred(flows@, rt@),
                forall|j: int| 0 <= j < i ==> !#[trigger] pr(j),
        {
            let hit = match &flows[i].route {
                Some(x) => str_eq(x.as_str(), rt),
                None => false,
            };
            if hit {
                proof {
                    lemma_first_index_is(n as int, pr, i as int);
                }
                return Some(i);
            }
        }
        None
    }

    fn platform_scan(&self, platform: &str) -> (r: (Option<usize>, Option<usize>))
        ensures
            opt_index(r.0) == first_index(
                self.flows@.len() as int,
                platform_pred(self.flows@, platform@),
            ),
            opt_index(r.1) == first_index(
                self.flows@.len() as int,
                default_pred(self.flows@, self.defaults, platform@),
            ),
    {
        let flows = &self.flows;
        let n = flows.len();
        let ghost pc = platform_pred(flows@, platform@);
        let ghost pd = default_pred(flows@, self.defaults, platform@);
        let mut first: Option<usize> = None;
        let mut dflt: Option<usize> = None;
        for i in 0..n
            invariant
                n == flows@.len(),
                flows@ == self.flows@,
                pc == platform_pred(flows@, platform@),
                pd == default_pred(flows@, self.defaults, platform@),
                match first {
                    None => forall|j: int| 0 <= j < i ==> !#[trigger] pc(j),
                    Some(c) => c < i && first_index(n as int, pc) == Some(c as int),
                },
                match dflt {
                    None => forall|j: int| 0 <= j < i ==> !#[trigger] pd(j),
                    Some(c) => c < i && first_index(n as int, pd) == Some(c as int),
                },
        {
            let on = match &flows[i].platform {
                Some(p) => str_eq(p.as_str(), platform),
                None => false,
            };
            if on {
                if first.is_none() {
                    proof {
                        lemma_first_index_is(n as int, pc, i as int);
                    }
                    first = Some(i);
                }
                if dflt.is_none() {
                    let is_default = match self.defaults.get(flows[i].pack_id.as_str()) {
                        Some(d) => *d == i,
                        None => false,
                    };
                    if is_default {
                        proof {
                            lemma_first_index_is(n as int, pd, i as int);
                        }
                        dflt = Some(i);
                    }
                }
            }
        }
        (first, dflt)
    }

    /// Selects the flow for a message by its route and platform.
    pub fn select_flow(&self, route: Option<&str>, platform: &str) -> (r: Result<usize, String>)
        ensures
            match selected_flow(
                *self,
                match route {
                    Some(x) => Some(x@),
                    None => None,
                },
                platform@,
            ) {
                Ok(i) => r matches Ok(j) && j as int == i,
                Err(m) => r matches Err(e) && e@ == m,
            },
    {
        if let Some(rt) = route {
            if let Some(i) = self.route_hit(rt) {
                return Ok(i);
            }
        }
        let (first, dflt) = self.platform_scan(platform);
        match first {
            Some(c) => match dflt {
                Some(d) => Ok(d),
                None => Ok(c),
            },
            None => {
                let ds = self.defaults.entries();
                if ds.len() == 0 {
                    return Err(concat2("no flows registered for platform ", platform));
                }
                let mut best: usize = ds[0].1;
                proof {
                    assert(ds@.take(1).len() == 1);
                    assert(ds@.take(1)[0] == ds@[0]);
                }
                for i in 1..ds.len()
                    invariant
                        ds@.len() > 0,
                        best as int == min_value(ds@.take(i as int)),
                {
                    proof {
                        assert(ds@.take(i + 1).drop_last() =~= ds@.take(i as int));
                    }
                    if ds[i].1 < best {
                        best = ds[i].1;
                    }
                }
                proof {
                    assert(ds@.take(ds@.len() as int) =~= ds@);
                }
                Ok(best)
            },
        }
    }
}

/// A message as a channel delivers it: tenant, channel (the platform's
/// name), session and payload.
#[derive(Debug, PartialEq, Eq)]
pub struct ChannelMessage {
    pub tenant: String,
    pub channel_id: String,
    pub session_id: String,
    pub payload: Json,
}

/// The envelope a flow runs on.
#[derive(Debug, PartialEq, Eq)]
pub struct MessageEnvelope {
    pub tenant: String,
    pub platform: Platform,
    pub chat_id: String,
    pub user_id: String,
    pub thread_id: Option<String>,
    pub msg_id: String,
    pub text: Option<String>,
    pub timestamp: String,
    /// The payload's metadata members, and its headers under `headers`.
    pub context: StrMap<Json>,
}

/// Why a channel message has no envelope.
#[derive(Debug, PartialEq, Eq)]
pub enum EnvelopeError {
    /// The channel does not name a platform; the channel id.
    InvalidPlatform(String),
    MissingChatId,
}

impl EnvelopeError {
    /// The error as text.
    pub fn message(&self) -> (r: String)
        ensures
            r@ == match *self {
                EnvelopeError::InvalidPlatform(c) => "invalid platform: "@ + c@,
                EnvelopeError::MissingChatId => "channel message missing chat_id"@,
            },
    {
        match self {
            EnvelopeError::InvalidPlatform(c) => concat2("invalid platform: ", c.as_str()),
            EnvelopeError::MissingChatId => owned("channel message missing chat_id"),
        }
    }
}

/// A text member of the payload, else a default.
pub open spec fn text_or(payload: Json, key: Seq<char>, default: Seq<char>) -> Seq<char> {
    match json_str_at(payload, key) {
        Some(s) => s,
        None => default,
    }
}

/// The context of an envelope: the payload's metadata members, with the
/// payload's headers under `headers`.
pub open spec fn context_entry(payload: Json, key: Seq<char>) -> Option<Json> {
    if key == "headers"@ && object_lookup(payload, "headers"@) is Some {
        object_lookup(payload, "headers"@)
    } else {
        match object_lookup(payload, "metadata"@) {
            Some(Json::Object(m)) => m.lookup(key),
            _ => None,
        }
    }
}

fn text_member(m: &StrMap<Json>, key: &str) -> (r: Option<String>)
    ensures
        opt_view(r) == json_str_at(Json::Object(*m), key@),
{
    match m.get(key) {
        Some(Json::Str(s)) => Some(s.clone()),
        _ => None,
    }
}

/// The envelope of a channel message: the channel names the platform; the
/// chat is the payload's `chat_id`, else the session, and must not be
/// blank; message id, user and time default to `unknown`, `unknown` and
/// the epoch; thread and text are optional.
pub fn message_from_channel(channel: ChannelMessage) -> (r: Result<MessageEnvelope, EnvelopeError>)
    ensures
        match platform_named(channel.channel_id@) {
            None => r == Err::<MessageEnvelope, EnvelopeError>(
                EnvelopeError::InvalidPlatform(channel.channel_id),
            ),
            Some(p) => {
                let chat = text_or(channel.payload, "chat_id"@, channel.session_id@);
                if trim(chat).len() == 0 {
                    r == Err::<MessageEnvelope, EnvelopeError>(EnvelopeError::MissingChatId)
                } else {
                    r matches Ok(e) && e.tenant == channel.tenant && e.platform == p && e.chat_id@
                        == chat && e.msg_id@ == text_or(channel.payload, "msg_id"@, "unknown"@)
                        && e.user_id@ == text_or(channel.payload, "user_id"@, "unknown"@)
                        && e.timestamp@ == text_or(
                        channel.payload,
                        "timestamp"@,
                        "1970-01-01T00:00:00Z"@,
                    ) && opt_view(e.thread_id) == json_str_at(channel.payload, "thread_id"@)
                        && opt_view(e.text) == json_str_at(channel.payload, "text"@) && forall|
                        k: Seq<char>,
                    | #[trigger] e.context.lookup(k) == context_entry(channel.payload, k)
                }
            },
        },
{
    let ChannelMessage { tenant, channel_id, session_id, payload } = channel;
    let platform = match Platform::from_name(channel_id.as_str()) {
        Some(p) => p,
        None => {
            return Err(EnvelopeError::InvalidPlatform(channel_id));
        },
    };
    let ghost p0 = payload;
    let mut m = match payload {
        Json::Object(m) => m,
        _ => StrMap::new(),
    };
    proof {
        assert forall|k: Seq<char>| #[trigger] m.lookup(k) == object_lookup(p0, k) by {}
    }
    let chat_id = match text_member(&m, "chat_id") {
        Some(c) => c,
        None => session_id,
    };
    if is_blank(chat_id.as_str()) {
        return Err(EnvelopeError::MissingChatId);
    }
    let msg_id = match text_member(&m, "msg_id") {
        Some(v) => v,
        None => owned("unknown"),
    };
    let timestamp = match text_member(&m, "timestamp") {
        Some(v) => v,
        None => owned("1970-01-01T00:00:00Z"),
    };
    let user_id = match text_member(&m, "user_id") {
        Some(v) => v,
        None => owned("unknown"),
    };
    let thread_id = text_member(&m, "thread_id");
    let text = text_member(&m, "text");
    proof {
        reveal_strlit("metadata");
        reveal_strlit("headers");
        assert("metadata"@[0] != "headers"@[0]);
    }
    let metadata = m.remove("metadata");
    let headers = m.remove("headers");
    let mut context = match metadata {
        Some(Json::Object(md)) => md,
        _ => StrMap::new(),
    };
    let ghost before = context;
    match headers {
        Some(h) => {
            context.insert(owned("headers"), h);
        },
        None => {},
    }
    proof {
        assert forall|k: Seq<char>| #[trigger] context.lookup(k) == context_entry(p0, k) by {
            if k != "headers"@ {
                assert(context.lookup(k) == before.lookup(k));
            }
        }
    }
    Ok(
        MessageEnvelope {
            tenant,
            platform,
            chat_id,
            user_id,
            thread_id,
            msg_id,
            text,
            timestamp,
            context,
        },
    )
}

/// How a configured service is reached; a URL is kept as its text.
#[derive(Debug)]
pub enum ServiceTransport {
    Nats { url: String },
    Http { url: String },
    Noop,
}

/// The NATS server the runner takes its events from: the configured events
/// transport's URL when it is NATS, none when it is absent or disabled; an
/// HTTP events transport is refused.
pub fn nats_url_from_config(events: Option<&ServiceTransport>) -> (r: Result<Option<String>, String>)
    ensures
        match events {
            Some(ServiceTransport::Nats { url }) => r matches Ok(Some(u)) && u@ == url@,
            Some(ServiceTransport::Http { .. }) => r matches Err(e) && e@
                == "services.events_transport must use NATS for runner"@,
            _ => r matches Ok(None),
        },
{
    match events {
        Some(ServiceTransport::Nats { url }) => Ok(Some(url.clone())),
        Some(ServiceTransport::Http { .. }) => Err(owned("services.events_transport must use NATS for runner")),
        Some(ServiceTransport::Noop) => Ok(None),
        None => Ok(None),
    }
}

/// The tool endpoint: the metadata service's URL when it is reached over
/// HTTP.
pub fn tool_endpoint_from_config(metadata: Option<&ServiceTransport>) -> (r: Option<String>)
    ensures
        match metadata {
            Some(ServiceTransport::Http { url }) => r matches Some(u) && u@ == url@,
            _ => r is None,
        },
{
    match metadata {
        Some(ServiceTransport::Http { url }) => Some(url.clone()),
        _ => None,
    }
}

/// The runner's settings.
#[derive(Debug)]
pub struct RunnerConfig {
    pub env: String,
    pub nats_url: String,
    pub packs_root: String,
    pub tool_endpoint: String,
}

impl RunnerConfig {
    /// The settings for an environment under a Greentic root: packs under
    /// `{root}/packs`, NATS at `nats://127.0.0.1:4222` and tools at
    /// `http://localhost:18081` unless configured otherwise.
    pub fn from_config(
        env: &str,
        greentic_root: &str,
        events: Option<&ServiceTransport>,
        metadata: Option<&ServiceTransport>,
    ) -> (r: Result<Self, String>)
        ensures
            match events {
                Some(ServiceTransport::Http { .. }) => r matches Err(e) && e@
                    == "services.events_transport must use NATS for runner"@,
                _ => r matches Ok(c) && c.env@ == env@ && c.packs_root@ == crate::packs::joined_path(
                    greentic_root@,
                    "packs"@,
                ) && c.nats_url@ == match events {
                    Some(ServiceTransport::Nats { url }) => url@,
                    _ => "nats://127.0.0.1:4222"@,
                } && c.tool_endpoint@ == match metadata {
                    Some(ServiceTransport::Http { url }) => url@,
                    _ => "http://localhost:18081"@,
                },
            },
    {
        let nats_url = match nats_url_from_config(events) {
            Ok(Some(u)) => u,
            Ok(None) => owned("nats://127.0.0.1:4222"),
            Err(e) => {
                return Err(e);
            },
        };
        let tool_endpoint = match tool_endpoint_from_config(metadata) {
            Some(u) => u,
            None => owned("http://localhost:18081"),
        };
        Ok(RunnerConfig {
            env: owned(env),
            nats_url,
            packs_root: crate::packs::join_path(greentic_root, "packs"),
            tool_endpoint,
        })
    }
}

/// Where a tool action is posted: the tool endpoint without its trailing
/// slashes, then the tool and the action.
pub fn tool_url(endpoint: &str, tool: &ToolRef) -> (r: String)
    ensures
        r@ == crate::oauth::without_trailing_slashes(endpoint@) + "/"@ + tool.tool@ + "/"@ + tool.action@,
{
    let mut u = crate::oauth::trim_trailing_slashes(endpoint);
    push_str(&mut u, "/");
    push_str(&mut u, tool.tool.as_str());
    push_str(&mut u, "/");
    push_str(&mut u, tool.action.as_str());
    u
}

/// How often a tool is tried: once, plus its retries (one when unset).
pub fn tool_attempts(retry: Option<u32>) -> (r: u64)
    ensures
        r == match retry {
            Some(n) => n as int + 1,
            None => 2,
        },
{
    match retry {
        Some(n) => n as u64 + 1,
        None => 2,
    }
}

/// The error once every attempt failed.
pub fn tool_failure_message(attempts: u64) -> (r: String)
    ensures
        r@ == "tool call failed after "@ + crate::text::decimal(attempts as nat) + " attempts"@,
{
    let mut m = owned("tool call failed after ");
    push_str(&mut m, crate::qa::decimal_u64(attempts).as_str());
    push_str(&mut m, " attempts");
    m
}

/// The flow an end-to-end run falls back to when a pack has none to run:
/// `stub-flow`, a question-and-answer flow titled `Stub Flow` whose one
/// node `start` renders `conformance stub` and ends.
pub fn stub_flow() -> (r: RunnerFlow)
    ensures
        r.id@ == "stub-flow"@,
        r.title matches Some(t) && t@ == "Stub Flow"@,
        r.kind@ == "qa"@,
        r.entry@ == "start"@,
        r.nodes.lookup("start"@) matches Some(n) && !n.has_qa && n.tool is None && n.card is None
            && (n.template matches Some(t) && t.template@ == "conformance stub"@) && n.routes@.len() == 1
            && n.routes@[0]@ == "end"@,
        forall|k: Seq<char>| k != "start"@ ==> #[trigger] r.nodes.lookup(k) is None,
        flow_problem(r) is None,
{
    let node = RunnerNode {
        has_qa: false,
        tool: None,
        template: Some(TemplateNode { template: owned("conformance stub") }),
        card: None,
        routes: vec![owned("end")],
    };
    let mut nodes: StrMap<RunnerNode> = StrMap::new();
    nodes.insert(owned("start"), node);
    let r = RunnerFlow {
        id: owned("stub-flow"),
        title: Some(owned("Stub Flow")),
        kind: owned("qa"),
        entry: owned("start"),
        nodes,
    };
    proof {
        reveal_strlit("stub-flow");
        reveal_strlit("qa");
        reveal_strlit("start");
        assert(trim_start(r.id@) == r.id@);
        assert(trim(r.id@) == r.id@);
        assert(trim_start(r.kind@) == r.kind@);
        assert(trim(r.kind@) == r.kind@);
        assert(trim_start(r.entry@) == r.entry@);
        assert(trim(r.entry@) == r.entry@);
    }
    r
}

/// A conformance envelope carrying the public base URL, under both
/// `public_base_url` and `PUBLIC_BASE_URL` in its context.
pub fn with_public_base_url(env: MessageEnvelope, url: &str) -> (r: MessageEnvelope)
    ensures
        r.context.lookup("public_base_url"@) matches Some(Json::Str(u)) && u@ == url@,
        r.context.lookup("PUBLIC_BASE_URL"@) matches Some(Json::Str(u)) && u@ == url@,
        forall|k: Seq<char>|
            k != "public_base_url"@ && k != "PUBLIC_BASE_URL"@ ==> #[trigger] r.context.lookup(k)
                == env.context.lookup(k),
        r.tenant == env.tenant && r.platform == env.platform && r.chat_id == env.chat_id && r.user_id
            == env.user_id && r.thread_id == env.thread_id && r.msg_id == env.msg_id && r.text == env.text
            && r.timestamp == env.timestamp,
{
    proof {
        reveal_strlit("public_base_url");
        reveal_strlit("PUBLIC_BASE_URL");
        assert("public_base_url"@[0] != "PUBLIC_BASE_URL"@[0]);
    }
    let mut env = env;
    env.context.insert(owned("public_base_url"), Json::Str(owned(url)));
    env.context.insert(owned("PUBLIC_BASE_URL"), Json::Str(owned(url)));
    env
}

/// `p` is the payload of the stub channel message of `env`: its chat,
/// user, message id and time as texts; thread and text as texts, or null
/// when absent; the context as the `metadata` object; nothing else.
pub open spec fn stub_payload(p: Json, env: MessageEnvelope) -> bool {
    &&& p matches Json::Object(m)
    &&& json_str_at(p, "chat_id"@) == Some(env.chat_id@)
    &&& json_str_at(p, "user_id"@) == Some(env.user_id@)
    &&& json_str_at(p, "msg_id"@) == Some(env.msg_id@)
    &&& json_str_at(p, "timestamp"@) == Some(env.timestamp@)
    &&& json_str_at(p, "thread_id"@) == opt_view(env.thread_id)
    &&& (env.thread_id is None ==> object_lookup(p, "thread_id"@) == Some(Json::Null))
    &&& json_str_at(p, "text"@) == opt_view(env.text)
    &&& (env.text is None ==> object_lookup(p, "text"@) == Some(Json::Null))
    &&& (object_lookup(p, "metadata"@) matches Some(Json::Object(c)) && forall|k: Seq<char>|
        #[trigger] c.lookup(k) == env.context.lookup(k))
    &&& forall|k: Seq<char>|
        !(k == "chat_id"@ || k == "user_id"@ || k == "msg_id"@ || k == "timestamp"@ || k == "thread_id"@
            || k == "text"@ || k == "metadata"@) ==> #[trigger] object_lookup(p, k) is None
}

fn opt_text(o: Option<String>) -> (r: Json)
    ensures
        match o {
            Some(s) => r == Json::Str(s),
            None => r == Json::Null,
        },
{
    match o {
        Some(s) => Json::Str(s),
        None => Json::Null,
    }
}

/// The channel message an end-to-end run hands the runner for an
/// envelope: the platform's name as channel, the chat as session, and the
/// envelope's fields in the payload.
pub fn stub_channel_message(tenant: &str, env: MessageEnvelope) -> (r: ChannelMessage)
    ensures
        r.tenant@ == tenant@,
        r.channel_id@ == crate::platform::platform_name(env.platform),
        r.session_id@ == env.chat_id@,
        stub_payload(r.payload, env),
{
    proof {
        reveal_strlit("chat_id");
        reveal_strlit("user_id");
        reveal_strlit("thread_id");
        reveal_strlit("msg_id");
        reveal_strlit("text");
        reveal_strlit("timestamp");
        reveal_strlit("metadata");
        assert("chat_id"@[0] != "user_id"@[0]);
        assert("thread_id"@[1] != "timestamp"@[1]);
        assert("msg_id"@.len() == 6 && "text"@.len() == 4 && "timestamp"@.len() == 9 && "metadata"@.len() == 8);
        assert("msg_id"@ != "text"@ && "msg_id"@ != "timestamp"@ && "msg_id"@ != "metadata"@);
    }
    let ghost e = env;
    let MessageEnvelope { tenant: _, platform, chat_id, user_id, thread_id, msg_id, text, timestamp, context } = env;
    let session = chat_id.clone();
    let mut m: StrMap<Json> = StrMap::new();
    m.insert(owned("chat_id"), Json::Str(chat_id));
    m.insert(owned("user_id"), Json::Str(user_id));
    m.insert(owned("thread_id"), opt_text(thread_id));
    m.insert(owned("msg_id"), Json::Str(msg_id));
    m.insert(owned("text"), opt_text(text));
    m.insert(owned("timestamp"), Json::Str(timestamp));
    m.insert(owned("metadata"), Json::Object(context));
    let r = ChannelMessage {
        tenant: owned(tenant),
        channel_id: owned(platform.as_str()),
        session_id: session,
        payload: Json::Object(m),
    };
    proof {
        let p = r.payload;
        assert(json_str_at(p, "chat_id"@) == Some(e.chat_id@));
        assert(json_str_at(p, "user_id"@) == Some(e.user_id@));
        assert(json_str_at(p, "msg_id"@) == Some(e.msg_id@));
        assert(json_str_at(p, "timestamp"@) == Some(e.timestamp@));
        assert(json_str_at(p, "thread_id"@) == opt_view(e.thread_id));
        assert(json_str_at(p, "text"@) == opt_view(e.text));
        assert(object_lookup(p, "metadata"@) == Some(Json::Object(e.context)));
        assert(stub_payload(r.payload, e));
    }
    r
}

/// A stub channel message decodes to the envelope it was made from, when
/// the envelope's chat is not blank.
pub proof fn lemma_stub_channel_roundtrip(env: MessageEnvelope, ch: ChannelMessage)
    requires
        ch.channel_id@ == crate::platform::platform_name(env.platform),
        ch.session_id@ == env.chat_id@,
        stub_payload(ch.payload, env),
        trim(env.chat_id@).len() > 0,
    ensures
        platform_named(ch.channel_id@) == Some(env.platform),
        text_or(ch.payload, "chat_id"@, ch.session_id@) == env.chat_id@,
        text_or(ch.payload, "msg_id"@, "unknown"@) == env.msg_id@,
        text_or(ch.payload, "user_id"@, "unknown"@) == env.user_id@,
        text_or(ch.payload, "timestamp"@, "1970-01-01T00:00:00Z"@) == env.timestamp@,
        json_str_at(ch.payload, "thread_id"@) == opt_view(env.thread_id),
        json_str_at(ch.payload, "text"@) == opt_view(env.text),
        forall|k: Seq<char>| #[trigger] context_entry(ch.payload, k) == env.context.lookup(k),
{
    crate::platform::lemma_platform_name_roundtrip(env.platform);
    reveal_strlit("headers");
    reveal_strlit("chat_id");
    reveal_strlit("user_id");
    reveal_strlit("thread_id");
    reveal_strlit("msg_id");
    reveal_strlit("text");
    reveal_strlit("timestamp");
    reveal_strlit("metadata");
    assert("headers"@.len() == 7);
    assert("headers"@[0] != "chat_id"@[0] && "headers"@[0] != "user_id"@[0] && "headers"@[0] != "msg_id"@[0]);
    assert("headers"@[0] != "timestamp"@[0] && "headers"@[0] != "thread_id"@[0] && "headers"@[0] != "text"@[0]);
    assert("headers"@[0] != "metadata"@[0]);
    assert(object_lookup(ch.payload, "headers"@) is None);
}

/// What an ingress request gives an end-to-end envelope.
#[derive(Debug)]
pub struct RequestFields {
    pub chat_id: Option<String>,
    pub user_id: Option<String>,
    pub thread_id: Option<String>,
    pub msg_id: Option<String>,
    pub text: Option<String>,
}

/// The first platform among adapters that name one.
pub open spec fn first_named(ps: Seq<Option<Platform>>) -> Option<Platform>
    decreases ps.len(),
{
    if ps.len() == 0 {
        None
    } else {
        match ps[0] {
            Some(p) => Some(p),
            None => first_named(ps.drop_first()),
        }
    }
}

/// The envelope an end-to-end run starts from: the platform of the first
/// adapter whose name names one (Slack otherwise); chat, user and message
/// id from the request, else `chat-1`, `user-1` and `msg-1`; thread and text
/// as the request gives them; a fixed time; the context says the source is
/// `e2e`.
pub fn default_envelope(tenant: &str, req: RequestFields, named: &Vec<Option<Platform>>) -> (r: MessageEnvelope)
    ensures
        r.tenant@ == tenant@,
        r.platform == match first_named(named@) {
            Some(p) => p,
            None => Platform::Slack,
        },
        r.chat_id@ == match req.chat_id {
            Some(c) => c@,
            None => "chat-1"@,
        },
        r.user_id@ == match req.user_id {
            Some(u) => u@,
            None => "user-1"@,
        },
        r.msg_id@ == match req.msg_id {
            Some(m) => m@,
            None => "msg-1"@,
        },
        r.thread_id == req.thread_id,
        r.text == req.text,
        r.timestamp@ == "2024-01-01T00:00:00Z"@,
        r.context.lookup("source"@) matches Some(Json::Str(s)) && s@ == "e2e"@,
        forall|k: Seq<char>| k != "source"@ ==> #[trigger] r.context.lookup(k) is None,
{
    let mut platform = Platform::Slack;
    let mut done = false;
    let mut i: usize = 0;
    proof {
        assert(named@.skip(0) =~= named@);
    }
    while i < named.len()
        invariant
            i <= named@.len(),
            !done ==> first_named(named@) == first_named(named@.skip(i as int)) && platform == Platform::Slack,
            done ==> first_named(named@) == Some(platform),
        decreases named@.len() - i,
    {
        proof {
            assert(named@.skip(i as int).drop_first() =~= named@.skip(i + 1));
            assert(named@.skip(i as int)[0] == named@[i as int]);
        }
        if !done {
            if let Some(p) = named[i] {
                platform = p;
                done = true;
            }
        }
        i = i + 1;
    }
    proof {
        if !done {
            assert(named@.skip(i as int).len() == 0);
        }
    }
    let RequestFields { chat_id, user_id, thread_id, msg_id, text } = req;
    let mut context: StrMap<Json> = StrMap::new();
    context.insert(owned("source"), Json::Str(owned("e2e")));
    MessageEnvelope {
        tenant: owned(tenant),
        platform,
        chat_id: match chat_id {
            Some(c) => c,
            None => owned("chat-1"),
        },
        user_id: match user_id {
            Some(u) => u,
            None => owned("user-1"),
        },
        thread_id,
        msg_id: match msg_id {
            Some(m) => m,
            None => owned("msg-1"),
        },
        text,
        timestamp: owned("2024-01-01T00:00:00Z"),
        context,
    }
}

} // verus!
