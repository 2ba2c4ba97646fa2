//! The question-and-answer node of the runner: defaults, answers read
//! from the message text, the answers an agent extracts, and the word
//! limits of answers. Range clamping of numeric answers works on floating
//! point and stays with the caller.
use vstd::prelude::*;
use crate::dev_cli::{merge_values, split_tokens, tokens, Separator};
use crate::json::Json;
use crate::packs::opt_view;
use crate::runner::AgentCfg;
use crate::strmap::{find_entry, lemma_ascending_distinct, lemma_find_entry_push, StrMap};
use crate::text::{concat2, decimal, join, join_strings, owned, push_char, push_str, str_eq, to_chars, views};
use crate::dev_cli::{all_digits, digits_value};

verus! {

/// Words an answer keeps when its question sets no limit.
pub const DEFAULT_MAX_WORDS: usize = 3;

/// A question of a question-and-answer node.
#[derive(Clone, Debug, PartialEq, Eq)]
pub struct Question {
    pub id: String,
    /// `number` for numeric answers.
    pub answer_type: Option<String>,
    pub max_words: Option<usize>,
}

/// The state a node works on: the stored object, or an empty one.
pub fn qa_state(state: Json) -> (r: StrMap<Json>)
    ensures
        match state {
            Json::Object(m) => r == m,
            _ => r.items().len() == 0,
        },
{
    match state {
        Json::Object(m) => m,
        _ => StrMap::new(),
    }
}

/// Fills unanswered questions with their defaults, given as `(question id,
/// default)` in question order; an answer already present stays, and of
/// two defaults for one question the first wins.
pub fn qa_apply_defaults(state: &mut StrMap<Json>, defaults: Vec<(String, Json)>)
    ensures
        forall|x: Seq<char>|
            #[trigger] final(state).lookup(x) == match old(state).lookup(x) {
                Some(v) => Some(v),
                None => find_entry(defaults@, x),
            },
{
    let ghost s0 = defaults@;
    let ghost start = *state;
    let n = defaults.len();
    let mut rest = defaults;
    let mut k: usize = 0;
    while rest.len() > 0
        invariant
            s0.len() == n,
            k <= n,
            s0.len() == k + rest@.len(),
            rest@ == s0.skip(k as int),
            forall|x: Seq<char>|
                #[trigger] state.lookup(x) == match start.lookup(x) {
                    Some(v) => Some(v),
                    None => find_entry(s0.take(k as int), x),
                },
        decreases rest.len(),
    {
        let e = rest.remove(0);
        let ghost before = *state;
        proof {
            assert(e == s0[k as int]);
            assert(rest@ =~= s0.skip(k + 1));
            assert(s0.take(k + 1) =~= s0.take(k as int).push(s0[k as int]));
        }
        let (id, value) = e;
        let ghost idv = id@;
        if !state.contains_key(id.as_str()) {
            state.insert(id, value);
        }
        proof {
            assert forall|x: Seq<char>|
                #[trigger] state.lookup(x) == match start.lookup(x) {
                    Some(v) => Some(v),
                    None => find_entry(s0.take(k + 1), x),
                } by {
                lemma_find_entry_push(s0.take(k as int), s0[k as int], x);
                assert(before.lookup(x) == match start.lookup(x) {
                    Some(v) => Some(v),
                    None => find_entry(s0.take(k as int), x),
                });
                if x != idv {
                    assert(state.lookup(x) == before.lookup(x));
                }
            }
        }
        k = k + 1;
    }
    proof {
        assert(s0.take(k as int) =~= s0);
    }
}

/// The ids of the questions without an answer, in question order.
pub open spec fn missing_of(qs: Seq<Question>, state: StrMap<Json>) -> Seq<Seq<char>>
    decreases qs.len(),
{
    if qs.len() == 0 {
        Seq::empty()
    } else if state.lookup(qs.last().id@) is Some {
        missing_of(qs.drop_last(), state)
    } else {
        missing_of(qs.drop_last(), state).push(qs.last().id@)
    }
}

/// The questions still without an answer.
pub fn missing_questions(questions: &Vec<Question>, state: &StrMap<Json>) -> (r: Vec<String>)
    ensures
        views(r@) == missing_of(questions@, *state),
{
    let mut out: Vec<String> = Vec::new();
    for i in 0..questions.len()
        invariant
            views(out@) == missing_of(questions@.take(i as int), *state),
    {
        proof {
            assert(questions@.take(i + 1).drop_last() =~= questions@.take(i as int));
        }
        if !state.contains_key(questions[i].id.as_str()) {
            let ghost before = views(out@);
            out.push(questions[i].id.clone());
            proof {
                assert(views(out@) =~= before.push(questions@[i as int].id@));
            }
        }
    }
    proof {
        assert(questions@.take(questions.len() as int) =~= questions@);
    }
    out
}

/// The first run of decimal digits in a text, as the `regex` crate finds
/// `\d+`: Unicode decimal digits count.
pub uninterp spec fn regex_digit_run(text: Seq<char>) -> Option<Seq<char>>;

/// Finds the first `\d+` match of a text with the `regex` crate. The match
/// is non-empty and holds no sign character; which characters count as
/// digits is left to the crate's Unicode tables.
#[verifier::external_body]
fn first_digit_run(text: &str) -> (r: Option<String>)
    ensures
        opt_view(r) == regex_digit_run(text@),
        r matches Some(m) ==> m@.len() > 0 && forall|i: int|
            0 <= i < m@.len() ==> m@[i] != '+' && m@[i] != '-',
{
    let re = regex::Regex::new(r"(?P<n>\d+)").expect("digit pattern compiles");
    re.captures(text).and_then(|c| c.name("n")).map(|m| m.as_str().to_string())
}

/// Where the run of `d`s starting at `i` ends.
pub open spec fn d_run_end(text: Seq<char>, i: int) -> int
    decreases text.len() - i,
{
    if 0 <= i < text.len() && text[i] == 'd' {
        d_run_end(text, i + 1)
    } else {
        i
    }
}

/// A backslash followed by a `d` starts at `i`.
pub open spec fn escaped_d_at(text: Seq<char>, i: int) -> bool {
    0 <= i && i + 1 < text.len() && text[i] == '\\' && text[i + 1] == 'd'
}

/// The first match of the pattern `\\d+` (a backslash, then one or more
/// `d`): from the first backslash followed by a `d`, through every `d`
/// after it.
pub open spec fn escaped_d_run(text: Seq<char>) -> Option<Seq<char>> {
    if exists|i: int| escaped_d_at(text, i) {
        let i = choose|i: int| escaped_d_at(text, i) && forall|j: int| 0 <= j < i ==> !escaped_d_at(text, j);
        Some(text.subrange(i, d_run_end(text, i + 1)))
    } else {
        None
    }
}

/// Finds the first `\\d+` match of a text with the `regex` crate, whose
/// leftmost-first search with a greedy `+` gives exactly that match.
#[verifier::external_body]
fn first_escaped_d_run(text: &str) -> (r: Option<String>)
    ensures
        opt_view(r) == escaped_d_run(text@),
{
    let re = regex::Regex::new(r"(?P<n>\\d+)").expect("escaped digit pattern compiles");
    re.captures(text).and_then(|c| c.name("n")).map(|m| m.as_str().to_string())
}

/// The run of `d`s starting at `i` holds only `d`s and does not end before
/// it starts.
proof fn lemma_d_run(text: Seq<char>, i: int)
    requires
        0 <= i <= text.len(),
    ensures
        i <= d_run_end(text, i) <= text.len(),
        forall|k: int| i <= k < d_run_end(text, i) ==> text[k] == 'd',
    decreases text.len() - i,
{
    if i < text.len() && text[i] == 'd' {
        lemma_d_run(text, i + 1);
    }
}

/// An escaped-digit match is a backslash and `d`s: never empty, never a
/// sign.
proof fn lemma_escaped_d_run_unsigned(text: Seq<char>)
    ensures
        escaped_d_run(text) matches Some(m) ==> m.len() > 0 && forall|i: int|
            0 <= i < m.len() ==> m[i] != '+' && m[i] != '-',
{
    if exists|i: int| escaped_d_at(text, i) {
        let w = choose|i: int| escaped_d_at(text, i);
        lemma_least_escaped_d(text, w);
        let i = choose|i: int| escaped_d_at(text, i) && forall|j: int| 0 <= j < i ==> !escaped_d_at(text, j);
        lemma_d_run(text, i + 1);
        let m = text.subrange(i, d_run_end(text, i + 1));
        assert forall|k: int| 0 <= k < m.len() implies m[k] != '+' && m[k] != '-' by {
            assert(m[k] == text[i + k]);
        }
    }
}

/// Some backslash-`d` at or before `w` comes first.
proof fn lemma_least_escaped_d(text: Seq<char>, w: int)
    requires
        escaped_d_at(text, w),
    ensures
        exists|i: int| escaped_d_at(text, i) && forall|j: int| 0 <= j < i ==> !escaped_d_at(text, j),
    decreases w,
{
    if exists|j: int| 0 <= j < w && escaped_d_at(text, j) {
        let j = choose|j: int| 0 <= j < w && escaped_d_at(text, j);
        lemma_least_escaped_d(text, j);
    } else {
        assert(escaped_d_at(text, w) && forall|j: int| 0 <= j < w ==> !escaped_d_at(text, j));
    }
}

/// Which pattern finds the number in a message text.
#[derive(Clone, Copy, Debug, PartialEq, Eq)]
pub enum NumberPattern {
    /// `\d+`: a run of decimal digits.
    Digits,
    /// `\\d+`: a backslash and `d`s, the pattern offline conformance runs
    /// with.
    EscapedDigits,
}

/// The number text a pattern finds.
pub open spec fn number_run(p: NumberPattern, text: Seq<char>) -> Option<Seq<char>> {
    match p {
        NumberPattern::Digits => regex_digit_run(text),
        NumberPattern::EscapedDigits => escaped_d_run(text),
    }
}

fn find_number_run(p: NumberPattern, text: &str) -> (r: Option<String>)
    ensures
        opt_view(r) == number_run(p, text@),
        r matches Some(m) ==> m@.len() > 0 && forall|i: int|
            0 <= i < m@.len() ==> m@[i] != '+' && m@[i] != '-',
{
    match p {
        NumberPattern::Digits => first_digit_run(text),
        NumberPattern::EscapedDigits => {
            proof {
                lemma_escaped_d_run_unsigned(text@);
            }
            first_escaped_d_run(text)
        },
    }
}

/// What a digit run parses to as an `i64`, or 1 when it does not parse.
pub open spec fn number_of(run: Seq<char>) -> nat {
    if run.len() > 0 && all_digits(run) && digits_value(run) <= i64::MAX {
        digits_value(run)
    } else {
        1
    }
}

fn parse_number(run: &str) -> (r: u64)
    requires
        forall|i: int| 0 <= i < run@.len() ==> run@[i] != '+' && run@[i] != '-',
    ensures
        r as nat == number_of(run@),
{
    let cs = to_chars(run);
    if cs.len() == 0 {
        return 1;
    }
    let mut acc: u128 = 0;
    let mut i: usize = 0;
    while i < cs.len()
        invariant
            cs@ == run@,
            i <= cs.len(),
            forall|k: int| 0 <= k < i ==> '0' <= #[trigger] run@[k] && run@[k] <= '9',
            acc as nat == digits_value(run@.take(i as int)),
            acc <= i64::MAX,
        decreases cs.len() - i,
    {
        let c = cs[i];
        if !('0' <= c && c <= '9') {
            proof {
                assert(!all_digits(run@));
            }
            return 1;
        }
        let d: u128 = ((c as u32) - 48) as u128;
        proof {
            let t = run@.take(i + 1);
            assert(t.drop_last() =~= run@.take(i as int));
            assert(t.last() == c);
        }
        let next: u128 = acc * 10 + d;
        if next > 9223372036854775807 {
            proof {
                if all_digits(run@) {
                    crate::dev_cli::lemma_digits_value_grows(run@, i + 1);
                }
            }
            return 1;
        }
        acc = next;
        i = i + 1;
    }
    proof {
        assert(run@.take(i as int) =~= run@);
    }
    acc as u64
}

pub(crate) fn decimal_u64(n: u64) -> (r: String)
    ensures
        r@ == decimal(n as nat),
    decreases n,
{
    if n < 10 {
        let mut s = String::new();
        push_char(&mut s, ((48 + n) as u8) as char);
        proof {
            assert(s@ =~= seq![crate::text::digit_char(n as int)]);
        }
        s
    } else {
        let mut s = decimal_u64(n / 10);
        push_char(&mut s, ((48 + (n % 10)) as u8) as char);
        s
    }
}

/// Whether a question takes a numeric answer.
pub open spec fn numeric(q: Question) -> bool {
    q.answer_type matches Some(t) && t@ == "number"@
}

/// The answer a message text gives a question, as whether it is a number
/// and its text: a number from the first digit run; otherwise the first
/// words, up to the question's limit (three by default), when there are
/// any.
pub open spec fn answer_of(q: Question, text: Seq<char>, p: NumberPattern) -> Option<(bool, Seq<char>)> {
    if numeric(q) {
        match number_run(p, text) {
            Some(run) => Some((true, decimal(number_of(run)))),
            None => None,
        }
    } else {
        let n = match q.max_words {
            Some(m) => m as int,
            None => DEFAULT_MAX_WORDS as int,
        };
        let ws = tokens(text, Separator::Whitespace);
        let words = join(ws.take(if n < ws.len() { n } else { ws.len() as int }), " "@);
        if words.len() > 0 {
            Some((false, words))
        } else {
            None
        }
    }
}

/// The answer stored for `key` after reading the text: that of the last
/// question with this id that the text answers.
pub open spec fn last_answer(qs: Seq<Question>, text: Seq<char>, p: NumberPattern, key: Seq<char>) -> Option<
    (bool, Seq<char>),
>
    decreases qs.len(),
{
    if qs.len() == 0 {
        None
    } else if qs.last().id@ == key && answer_of(qs.last(), text, p) is Some {
        answer_of(qs.last(), text, p)
    } else {
        last_answer(qs.drop_last(), text, p, key)
    }
}

/// A stored value is the given answer: a number or a string with its text.
pub open spec fn answer_is(v: Option<Json>, a: Option<(bool, Seq<char>)>) -> bool {
    match (v, a) {
        (None, None) => true,
        (Some(Json::Number(x)), Some((true, t))) => x@ == t,
        (Some(Json::Str(x)), Some((false, t))) => x@ == t,
        _ => false,
    }
}

fn answer_exec(q: &Question, text: &str, p: NumberPattern) -> (r: Option<Json>)
    ensures
        answer_is(r, answer_of(*q, text@, p)),
{
    let is_number = match &q.answer_type {
        Some(t) => str_eq(t.as_str(), "number"),
        None => false,
    };
    if is_number {
        match find_number_run(p, text) {
            Some(run) => {
                let n = parse_number(run.as_str());
                let s = decimal_u64(n);
                Some(Json::Number(s))
            },
            None => None,
        }
    } else {
        let n: usize = match q.max_words {
            Some(m) => m,
            None => DEFAULT_MAX_WORDS,
        };
        let ws = split_tokens(text, Separator::Whitespace);
        let take = if n < ws.len() { n } else { ws.len() };
        let mut kept: Vec<String> = Vec::new();
        for i in 0..take
            invariant
                take <= ws.len(),
                views(kept@) == views(ws@).take(i as int),
        {
            let ghost before = views(kept@);
            kept.push(ws[i].clone());
            proof {
                assert(views(kept@) =~= before.push(ws@[i as int]@));
                assert(views(ws@).take(i + 1) =~= views(ws@).take(i as int).push(ws@[i as int]@));
            }
        }
        let words = join_strings(&kept, " ");
        proof {
            assert(views(ws@).take(take as int) =~= tokens(text@, Separator::Whitespace).take(
                if (n as int) < tokens(text@, Separator::Whitespace).len() {
                    n as int
                } else {
                    tokens(text@, Separator::Whitespace).len() as int
                },
            ));
        }
        if to_chars(words.as_str()).len() > 0 {
            Some(Json::Str(words))
        } else {
            None
        }
    }
}

/// Reads answers to the unanswered questions from the message text: each
/// question that had no answer before gets the answer the text gives it;
/// answered questions keep theirs.
pub fn qa_answers_from_text(
    questions: &Vec<Question>,
    state: &mut StrMap<Json>,
    text: &str,
    p: NumberPattern,
)
    ensures
        forall|x: Seq<char>|
            #![trigger final(state).lookup(x)]
            match old(state).lookup(x) {
                Some(v) => final(state).lookup(x) == Some(v),
                None => answer_is(final(state).lookup(x), last_answer(questions@, text@, p, x)),
            },
{
    let ghost start = *state;
    let missing = missing_questions(questions, state);
    for i in 0..questions.len()
        invariant
            views(missing@) == missing_of(questions@, start),
            forall|x: Seq<char>|
                #![trigger state.lookup(x)]
                match start.lookup(x) {
                    Some(v) => state.lookup(x) == Some(v),
                    None => answer_is(state.lookup(x), last_answer(questions@.take(i as int), text@, p, x)),
                },
    {
        let q = &questions[i];
        let ghost before = *state;
        proof {
            assert(questions@.take(i + 1).drop_last() =~= questions@.take(i as int));
            assert(questions@.take(i + 1).last() == *q);
            lemma_missing_contains(questions@, start, q.id@);
        }
        let was_missing = crate::dev_cli::contains_text(&missing, q.id.as_str());
        if was_missing {
            match answer_exec(q, text, p) {
                Some(a) => {
                    state.insert(q.id.clone(), a);
                },
                None => {},
            }
        }
        proof {
            assert forall|x: Seq<char>|
                #![trigger state.lookup(x)]
                match start.lookup(x) {
                    Some(v) => state.lookup(x) == Some(v),
                    None => answer_is(
                        state.lookup(x),
                        last_answer(questions@.take(i + 1), text@, p, x),
                    ),
                } by {
                assert(match start.lookup(x) {
                    Some(v) => before.lookup(x) == Some(v),
                    None => answer_is(before.lookup(x), last_answer(questions@.take(i as int), text@, p, x)),
                });
                if x != q.id@ {
                    assert(state.lookup(x) == before.lookup(x));
                }
            }
        }
    }
    proof {
        assert(questions@.take(questions.len() as int) =~= questions@);
    }
}

proof fn lemma_missing_contains(qs: Seq<Question>, state: StrMap<Json>, id: Seq<char>)
    ensures
        missing_of(qs, state).contains(id) <==> (state.lookup(id) is None && exists|j: int|
            0 <= j < qs.len() && (#[trigger] qs[j]).id@ == id),
    decreases qs.len(),
{
    if qs.len() > 0 {
        let t = qs.drop_last();
        lemma_missing_contains(t, state, id);
        let m = missing_of(t, state);
        if state.lookup(qs.last().id@) is None {
            let m2 = m.push(qs.last().id@);
            assert(m2[m.len() as int] == qs.last().id@);
            if m2.contains(id) {
                let k = choose|k: int| 0 <= k < m2.len() && m2[k] == id;
                if k < m.len() {
                    assert(m[k] == id);
                }
            }
            if m.contains(id) {
                let k = choose|k: int| 0 <= k < m.len() && m[k] == id;
                assert(m2[k] == id);
            }
        }
        if exists|j: int| 0 <= j < qs.len() && (#[trigger] qs[j]).id@ == id {
            let j = choose|j: int| 0 <= j < qs.len() && (#[trigger] qs[j]).id@ == id;
            if j < t.len() {
                assert(t[j] == qs[j]);
            }
        }
        if exists|j: int| 0 <= j < t.len() && (#[trigger] t[j]).id@ == id {
            let j = choose|j: int| 0 <= j < t.len() && (#[trigger] t[j]).id@ == id;
            assert(qs[j] == t[j]);
        }
    }
}

/// Merges what an agent extracted into the state: the members of an
/// extracted object replace earlier answers; anything else adds nothing.
pub fn qa_merge_extracted(state: &mut StrMap<Json>, extracted: Json)
    ensures
        forall|x: Seq<char>|
            #[trigger] final(state).lookup(x) == match extracted {
                Json::Object(m) => match m.lookup(x) {
                    Some(v) => Some(v),
                    None => old(state).lookup(x),
                },
                _ => old(state).lookup(x),
            },
{
    match extracted {
        Json::Object(m) => {
            let es = m.into_entries();
            proof {
                lemma_ascending_distinct(es@);
            }
            merge_values(state, es);
        },
        _ => {},
    }
}

/// The number of words of an answer: those of a string, none otherwise.
pub open spec fn answer_words(v: Json) -> nat {
    match v {
        Json::Str(s) => tokens(s@, Separator::Whitespace).len(),
        _ => 0,
    }
}

/// Whether question `i`'s answer exceeds its word limit.
pub open spec fn exceeds_limit(qs: Seq<Question>, state: StrMap<Json>, i: int) -> bool {
    qs[i].max_words matches Some(m) && (state.lookup(qs[i].id@) matches Some(v) && answer_words(v) > m)
}

/// The first question whose answer has more words than it allows.
pub fn qa_max_words_violation(questions: &Vec<Question>, state: &StrMap<Json>) -> (r: Option<usize>)
    ensures
        match r {
            Some(i) => i < questions@.len() && exceeds_limit(questions@, *state, i as int) && forall|j: int|
                0 <= j < i ==> !exceeds_limit(questions@, *state, j),
            None => forall|j: int| 0 <= j < questions@.len() ==> !exceeds_limit(questions@, *state, j),
        },
{
    for i in 0..questions.len()
        invariant
            forall|j: int| 0 <= j < i ==> !exceeds_limit(questions@, *state, j),
    {
        let q = &questions[i];
        if let Some(m) = q.max_words {
            if let Some(v) = state.get(q.id.as_str()) {
                let words: usize = match v {
                    Json::Str(s) => split_tokens(s.as_str(), Separator::Whitespace).len(),
                    _ => 0,
                };
                if words > m {
                    return Some(i);
                }
            }
        }
    }
    None
}

/// The error for an answer over its word limit.
pub fn max_words_message(id: &str, max_words: usize) -> (r: String)
    ensures
        r@ == "answer '"@ + id@ + "' exceeds max_words "@ + decimal(max_words as nat),
{
    let mut m = concat2("answer '", id);
    push_str(&mut m, "' exceeds max_words ");
    let d = crate::text::decimal_string(max_words);
    push_str(&mut m, d.as_str());
    m
}

/// Where the fallback agent is asked: its endpoint, else the local
/// extraction service.
pub fn agent_url(agent: &AgentCfg) -> (r: String)
    ensures
        r@ == match agent.endpoint {
            Some(e) => e@,
            None => "http://localhost:18080/agent/extract"@,
        },
{
    match &agent.endpoint {
        Some(e) => e.clone(),
        None => owned("http://localhost:18080/agent/extract"),
    }
}

/// The request to the fallback agent: its type (`ollama`), model
/// (`gemma:instruct`) and task (`extract keys`), defaulted, and the text.
pub fn agent_request(agent: &AgentCfg, text: Option<String>) -> (r: Json)
    ensures
        r is Object,
        r->Object_0.lookup("type"@) matches Some(Json::Str(t)) && t@ == match agent.kind {
            Some(k) => k@,
            None => "ollama"@,
        },
        r->Object_0.lookup("model"@) matches Some(Json::Str(t)) && t@ == match agent.model {
            Some(k) => k@,
            None => "gemma:instruct"@,
        },
        r->Object_0.lookup("task"@) matches Some(Json::Str(t)) && t@ == match agent.task {
            Some(k) => k@,
            None => "extract keys"@,
        },
        r->Object_0.lookup("text"@) == Some(
            match text {
                Some(s) => Json::Str(s),
                None => Json::Null,
            },
        ),
{
    proof {
        reveal_strlit("type");
        reveal_strlit("model");
        reveal_strlit("task");
        reveal_strlit("text");
        assert("type"@[1] != "task"@[1]);
        assert("type"@[1] != "text"@[1]);
        assert("task"@[1] != "text"@[1]);
        assert("model"@[0] != "type"@[0] && "model"@[0] != "task"@[0] && "model"@[0] != "text"@[0]);
    }
    let mut m: StrMap<Json> = StrMap::new();
    let kind = match &agent.kind {
        Some(k) => k.clone(),
        None => owned("ollama"),
    };
    m.insert(owned("type"), Json::Str(kind));
    let model = match &agent.model {
        Some(k) => k.clone(),
        None => owned("gemma:instruct"),
    };
    m.insert(owned("model"), Json::Str(model));
    let task = match &agent.task {
        Some(k) => k.clone(),
        None => owned("extract keys"),
    };
    m.insert(owned("task"), Json::Str(task));
    let t = match text {
        Some(s) => Json::Str(s),
        None => Json::Null,
    };
    m.insert(owned("text"), t);
    Json::Object(m)
}

/// Why an offline run stops when questions stay unanswered and the node
/// would ask an agent.
pub fn offline_agent_message() -> (r: String)
    ensures
        r@ == "qa fallback agent requires network; offline conformance cannot continue"@,
{
    owned("qa fallback agent requires network; offline conformance cannot continue")
}

} // verus!
