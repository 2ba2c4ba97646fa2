//! A JSON document model: the values the library reads and edits.
use vstd::prelude::*;
use crate::strmap::StrMap;
use crate::text::{contains_seq, lower, push_char, push_str, str_contains, to_chars, to_lower};

verus! {

/// A JSON value; object members are kept in ascending key order.
#[derive(Debug, PartialEq, Eq)]
pub enum Json {
    Null,
    Bool(bool),
    /// A number, by its JSON text.
    Number(String),
    Str(String),
    Array(Vec<Json>),
    Object(StrMap<Json>),
}

/// Some text in the value, lower-cased, contains `kw`.
pub closed spec fn json_mentions(v: Json, kw: Seq<char>) -> bool
    decreases v,
{
    match v {
        Json::Str(s) => contains_seq(lower(s@), kw),
        Json::Array(a) => exists|i: int| 0 <= i < a@.len() && json_mentions(a@[i], kw),
        Json::Object(m) => exists|i: int|
            0 <= i < m.entries@.len() && json_mentions(m.entries@[i].1, kw),
        _ => false,
    }
}


/// Whether some text in a provisioning plan, lower-cased, contains the
/// keyword.
pub fn plan_contains_keyword(plan: &Json, keyword: &str) -> (r: bool)
    ensures
        r == json_mentions(*plan, keyword@),
    decreases plan,
{
    match plan {
        Json::Str(s) => {
            let l = to_lower(s.as_str());
            str_contains(l.as_str(), keyword)
        },
        Json::Array(a) => {
            for i in 0..a.len()
                invariant
                    *plan == Json::Array(*a),
                    forall|j: int| 0 <= j < i ==> !json_mentions(#[trigger] a@[j], keyword@),
            {
                proof {
                    assert(decreases_to!(*plan => (*plan)->Array_0));
                    assert(decreases_to!((*plan)->Array_0 => a@));
                    assert(decreases_to!(a@ => a@[i as int]));
                }
                if plan_contains_keyword(&a[i], keyword) {
                    proof {
                        assert(json_mentions(a@[i as int], keyword@));
                        assert(json_mentions(*plan, keyword@));
                    }
                    return true;
                }
            }
            false
        },
        Json::Object(m) => {
            let es = &m.entries;
            for i in 0..es.len()
                invariant
                    *plan == Json::Object(*m),
                    es == &m.entries,
                    forall|j: int| 0 <= j < i ==> !json_mentions(#[trigger] es@[j].1, keyword@),
            {
                proof {
                    assert(decreases_to!(*plan => (*plan)->Object_0));
                    assert(decreases_to!((*plan)->Object_0 => m.entries));
                    assert(decreases_to!(m.entries => m.entries@));
                    assert(decreases_to!(m.entries@ => m.entries@[i as int]));
                    assert(decreases_to!(m.entries@[i as int] => m.entries@[i as int].1));
                }
                if plan_contains_keyword(&es[i].1, keyword) {
                    proof {
                        assert(json_mentions(es@[i as int].1, keyword@));
                        assert(json_mentions(*plan, keyword@));
                    }
                    return true;
                }
            }
            false
        },
        _ => false,
    }
}

/// A hexadecimal digit, lower case.
pub open spec fn hex_digit(d: int) -> char {
    if d < 10 {
        ((48 + d) as u8) as char
    } else {
        ((87 + d) as u8) as char
    }
}

/// How a character is written inside a JSON string: quotes, backslashes
/// and control characters escaped, everything else as it is.
pub open spec fn escaped_char(c: char) -> Seq<char> {
    let u = c as u32;
    if c == '"' {
        seq!['\\', '"']
    } else if c == '\\' {
        seq!['\\', '\\']
    } else if u == 0x08 {
        seq!['\\', 'b']
    } else if u == 0x0C {
        seq!['\\', 'f']
    } else if u == 0x0A {
        seq!['\\', 'n']
    } else if u == 0x0D {
        seq!['\\', 'r']
    } else if u == 0x09 {
        seq!['\\', 't']
    } else if u < 0x20 {
        seq!['\\', 'u', '0', '0', hex_digit((u / 16) as int), hex_digit((u % 16) as int)]
    } else {
        seq![c]
    }
}

/// The escaped characters of a text.
pub open spec fn escaped(s: Seq<char>) -> Seq<char>
    decreases s.len(),
{
    if s.len() == 0 {
        Seq::empty()
    } else {
        escaped(s.drop_last()) + escaped_char(s.last())
    }
}

/// A text as a JSON string literal.
pub open spec fn quoted(s: Seq<char>) -> Seq<char> {
    "\""@ + escaped(s) + "\""@
}

/// The compact JSON text of a value, as `serde_json` writes it: object
/// members in key order, no white space.
pub closed spec fn json_text(v: Json) -> Seq<char>
    decreases v,
{
    match v {
        Json::Null => "null"@,
        Json::Bool(b) => if b {
            "true"@
        } else {
            "false"@
        },
        Json::Number(t) => t@,
        Json::Str(s) => quoted(s@),
        Json::Array(a) => {
            proof {
                assert(decreases_to!(v => v->Array_0));
                assert(decreases_to!(v->Array_0 => a@));
            }
            "["@ + elements_text(a@) + "]"@
        },
        Json::Object(m) => {
            proof {
                assert(decreases_to!(v => v->Object_0));
                assert(decreases_to!(v->Object_0 => m.entries));
                assert(decreases_to!(m.entries => m.entries@));
            }
            "{"@ + members_text(m.entries@) + "}"@
        },
    }
}

/// The texts of array elements, comma-separated.
pub closed spec fn elements_text(s: Seq<Json>) -> Seq<char>
    decreases s,
{
    if s.len() == 0 {
        Seq::empty()
    } else {
        proof {
            assert(decreases_to!(s => s[s.len() - 1]));
            assert(decreases_to!(s => s.subrange(0, s.len() - 1)));
        }
        let rest = s.subrange(0, s.len() - 1);
        let last = json_text(s[s.len() - 1]);
        if s.len() == 1 {
            last
        } else {
            elements_text(rest) + ","@ + last
        }
    }
}

/// The texts of object members, comma-separated.
pub closed spec fn members_text(s: Seq<(String, Json)>) -> Seq<char>
    decreases s,
{
    if s.len() == 0 {
        Seq::empty()
    } else {
        proof {
            assert(decreases_to!(s => s[s.len() - 1]));
            assert(decreases_to!(s[s.len() - 1] => s[s.len() - 1].1));
            assert(decreases_to!(s => s.subrange(0, s.len() - 1)));
        }
        let rest = s.subrange(0, s.len() - 1);
        let last = quoted(s[s.len() - 1].0@) + ":"@ + json_text(s[s.len() - 1].1);
        if s.len() == 1 {
            last
        } else {
            members_text(rest) + ","@ + last
        }
    }
}

fn hex_digit_exec(d: u32) -> (r: char)
    requires
        d < 16,
    ensures
        r == hex_digit(d as int),
{
    if d < 10 {
        ((48 + d) as u8) as char
    } else {
        ((87 + d) as u8) as char
    }
}

fn push_escaped(out: &mut String, s: &str)
    ensures
        final(out)@ == old(out)@ + escaped(s@),
{
    let cs = to_chars(s);
    let ghost start = out@;
    for i in 0..cs.len()
        invariant
            cs@ == s@,
            out@ == start + escaped(s@.take(i as int)),
    {
        let c = cs[i];
        let u: u32 = c as u32;
        let ghost before = out@;
        if c == '"' {
            push_char(out, '\\');
            push_char(out, '"');
        } else if c == '\\' {
            push_char(out, '\\');
            push_char(out, '\\');
        } else if u == 0x08 {
            push_char(out, '\\');
            push_char(out, 'b');
        } else if u == 0x0C {
            push_char(out, '\\');
            push_char(out, 'f');
        } else if u == 0x0A {
            push_char(out, '\\');
            push_char(out, 'n');
        } else if u == 0x0D {
            push_char(out, '\\');
            push_char(out, 'r');
        } else if u == 0x09 {
            push_char(out, '\\');
            push_char(out, 't');
        } else if u < 0x20 {
            push_char(out, '\\');
            push_char(out, 'u');
            push_char(out, '0');
            push_char(out, '0');
            push_char(out, hex_digit_exec(u / 16));
            push_char(out, hex_digit_exec(u % 16));
        } else {
            push_char(out, c);
        }
        proof {
            assert(out@ =~= before + escaped_char(c));
            assert(s@.take(i + 1).drop_last() =~= s@.take(i as int));
            assert(s@.take(i + 1).last() == c);
        }
    }
    proof {
        assert(s@.take(cs.len() as int) =~= s@);
    }
}

fn push_quoted(out: &mut String, s: &str)
    ensures
        final(out)@ == old(out)@ + quoted(s@),
{
    let ghost start = out@;
    push_char(out, '"');
    push_escaped(out, s);
    push_char(out, '"');
    proof {
        reveal_strlit("\"");
        assert(out@ =~= start + quoted(s@));
    }
}

/// Writes a value as compact JSON text.
pub fn write_json(out: &mut String, v: &Json)
    ensures
        final(out)@ == old(out)@ + json_text(*v),
    decreases v,
{
    let ghost start = out@;
    match v {
        Json::Null => push_str(out, "null"),
        Json::Bool(b) => push_str(out, if *b { "true" } else { "false" }),
        Json::Number(t) => push_str(out, t.as_str()),
        Json::Str(s) => push_quoted(out, s.as_str()),
        Json::Array(a) => {
            push_char(out, '[');
            let ghost open = out@;
            for i in 0..a.len()
                invariant
                    *v == Json::Array(*a),
                    out@ == open + elements_text(a@.subrange(0, i as int)),
            {
                proof {
                    assert(decreases_to!(*v => (*v)->Array_0));
                    assert(decreases_to!((*v)->Array_0 => a@));
                    assert(decreases_to!(a@ => a@[i as int]));
                }
                let ghost before = out@;
                if i > 0 {
                    push_char(out, ',');
                }
                write_json(out, &a[i]);
                proof {
                    let t = a@.subrange(0, i + 1);
                    assert(t.subrange(0, t.len() - 1) =~= a@.subrange(0, i as int));
                    assert(t[t.len() - 1] == a@[i as int]);
                    reveal_strlit(",");
                    if i == 0 {
                        assert(out@ =~= open + elements_text(t));
                    } else {
                        assert(out@ =~= before + ","@ + json_text(a@[i as int]));
                    }
                }
            }
            push_char(out, ']');
            proof {
                assert(a@.subrange(0, a@.len() as int) =~= a@);
                reveal_strlit("[");
                reveal_strlit("]");
                assert(out@ =~= start + json_text(*v));
            }
        },
        Json::Object(m) => {
            let es = &m.entries;
            push_char(out, '{');
            let ghost open = out@;
            for i in 0..es.len()
                invariant
                    *v == Json::Object(*m),
                    es == &m.entries,
                    out@ == open + members_text(es@.subrange(0, i as int)),
            {
                proof {
                    assert(decreases_to!(*v => (*v)->Object_0));
                    assert(decreases_to!((*v)->Object_0 => m.entries));
                    assert(decreases_to!(m.entries => m.entries@));
                    assert(decreases_to!(m.entries@ => m.entries@[i as int]));
                    assert(decreases_to!(m.entries@[i as int] => m.entries@[i as int].1));
                }
                let ghost before = out@;
                if i > 0 {
                    push_char(out, ',');
                }
                push_quoted(out, es[i].0.as_str());
                push_char(out, ':');
                write_json(out, &es[i].1);
                proof {
                    let t = es@.subrange(0, i + 1);
                    assert(t.subrange(0, t.len() - 1) =~= es@.subrange(0, i as int));
                    assert(t[t.len() - 1] == es@[i as int]);
                    reveal_strlit(",");
                    reveal_strlit(":");
                    if i == 0 {
                        assert(out@ =~= open + members_text(t));
                    } else {
                        assert(out@ =~= before + ","@ + (quoted(es@[i as int].0@) + ":"@ + json_text(
                            es@[i as int].1,
                        )));
                    }
                }
            }
            push_char(out, '}');
            proof {
                assert(es@.subrange(0, es@.len() as int) =~= es@);
                reveal_strlit("{");
                reveal_strlit("}");
                assert(out@ =~= start + json_text(*v));
            }
        },
    }
}

/// The compact JSON text of a value.
pub fn to_json_text(v: &Json) -> (r: String)
    ensures
        r@ == json_text(*v),
{
    let mut out = String::new();
    write_json(&mut out, v);
    out
}

/// The texts of a value in rendering order: depth first, array elements in
/// order, object members in key order.
pub closed spec fn json_strings(v: Json) -> Seq<Seq<char>>
    decreases v,
{
    match v {
        Json::Str(s) => seq![s@],
        Json::Array(a) => {
            proof {
                assert(decreases_to!(v => v->Array_0));
                assert(decreases_to!(v->Array_0 => a@));
            }
            list_strings(a@)
        },
        Json::Object(m) => {
            proof {
                assert(decreases_to!(v => v->Object_0));
                assert(decreases_to!(v->Object_0 => m.entries));
                assert(decreases_to!(m.entries => m.entries@));
            }
            member_strings(m.entries@)
        },
        _ => Seq::empty(),
    }
}

/// The texts of a list of values, in order.
pub closed spec fn list_strings(s: Seq<Json>) -> Seq<Seq<char>>
    decreases s,
{
    if s.len() == 0 {
        Seq::empty()
    } else {
        proof {
            assert(decreases_to!(s => s[s.len() - 1]));
            assert(decreases_to!(s => s.subrange(0, s.len() - 1)));
        }
        list_strings(s.subrange(0, s.len() - 1)) + json_strings(s[s.len() - 1])
    }
}

/// The texts of the member values of an object, in key order.
pub closed spec fn member_strings(es: Seq<(String, Json)>) -> Seq<Seq<char>>
    decreases es,
{
    if es.len() == 0 {
        Seq::empty()
    } else {
        proof {
            assert(decreases_to!(es => es[es.len() - 1]));
            assert(decreases_to!(es[es.len() - 1] => es[es.len() - 1].1));
            assert(decreases_to!(es => es.subrange(0, es.len() - 1)));
        }
        member_strings(es.subrange(0, es.len() - 1)) + json_strings(es[es.len() - 1].1)
    }
}

/// `r` is `v` with its texts replaced, in rendering order, by `ts`; every
/// other part stays as it is.
pub closed spec fn fills(v: Json, ts: Seq<Seq<char>>, r: Json) -> bool
    decreases v,
{
    match v {
        Json::Str(_) => ts.len() == 1 && (r matches Json::Str(t) && t@ == ts[0]),
        Json::Array(a) => match r {
            Json::Array(b) => fills_list(a@, ts, b@),
            _ => false,
        },
        Json::Object(m) => match r {
            Json::Object(n) => fills_members(m.entries@, ts, n.entries@),
            _ => false,
        },
        _ => ts.len() == 0 && r == v,
    }
}

/// `rs` are the values `s` with their texts replaced by `ts`.
pub closed spec fn fills_list(s: Seq<Json>, ts: Seq<Seq<char>>, rs: Seq<Json>) -> bool
    decreases s,
{
    if s.len() == 0 {
        ts.len() == 0 && rs.len() == 0
    } else {
        let k = json_strings(s[s.len() - 1]).len();
        &&& rs.len() == s.len()
        &&& k <= ts.len()
        &&& fills_list(s.subrange(0, s.len() - 1), ts.subrange(0, ts.len() - k), rs.subrange(0, rs.len() - 1))
        &&& fills(s[s.len() - 1], ts.subrange(ts.len() - k, ts.len() as int), rs[rs.len() - 1])
    }
}

/// `os` are the members `es`, same keys, values with their texts replaced
/// by `ts`.
pub closed spec fn fills_members(es: Seq<(String, Json)>, ts: Seq<Seq<char>>, os: Seq<(String, Json)>) -> bool
    decreases es,
{
    if es.len() == 0 {
        ts.len() == 0 && os.len() == 0
    } else {
        let k = json_strings(es[es.len() - 1].1).len();
        &&& os.len() == es.len()
        &&& k <= ts.len()
        &&& os[os.len() - 1].0@ == es[es.len() - 1].0@
        &&& fills_members(es.subrange(0, es.len() - 1), ts.subrange(0, ts.len() - k), os.subrange(0, os.len() - 1))
        &&& fills(es[es.len() - 1].1, ts.subrange(ts.len() - k, ts.len() as int), os[os.len() - 1].1)
    }
}

fn collect_strings(v: &Json, out: &mut Vec<String>)
    ensures
        crate::text::views(final(out)@) == crate::text::views(old(out)@) + json_strings(*v),
    decreases v,
{
    let ghost start = crate::text::views(out@);
    match v {
        Json::Str(s) => {
            out.push(s.clone());
            proof {
                assert(crate::text::views(out@) =~= start + json_strings(*v));
            }
        },
        Json::Array(a) => {
            for i in 0..a.len()
                invariant
                    *v == Json::Array(*a),
                    crate::text::views(out@) == start + list_strings(a@.subrange(0, i as int)),
            {
                proof {
                    assert(decreases_to!(*v => (*v)->Array_0));
                    assert(decreases_to!((*v)->Array_0 => a@));
                    assert(decreases_to!(a@ => a@[i as int]));
                    let t = a@.subrange(0, i + 1);
                    assert(t.subrange(0, t.len() - 1) =~= a@.subrange(0, i as int));
                    assert(t[t.len() - 1] == a@[i as int]);
                }
                collect_strings(&a[i], out);
                proof {
                    assert(crate::text::views(out@) =~= start + list_strings(a@.subrange(0, i + 1)));
                }
            }
            proof {
                assert(a@.subrange(0, a@.len() as int) =~= a@);
            }
        },
        Json::Object(m) => {
            let es = &m.entries;
            for i in 0..es.len()
                invariant
                    *v == Json::Object(*m),
                    es == &m.entries,
                    crate::text::views(out@) == start + member_strings(es@.subrange(0, i as int)),
            {
                proof {
                    assert(decreases_to!(*v => (*v)->Object_0));
                    assert(decreases_to!((*v)->Object_0 => m.entries));
                    assert(decreases_to!(m.entries => m.entries@));
                    assert(decreases_to!(m.entries@ => m.entries@[i as int]));
                    assert(decreases_to!(m.entries@[i as int] => m.entries@[i as int].1));
                    let t = es@.subrange(0, i + 1);
                    assert(t.subrange(0, t.len() - 1) =~= es@.subrange(0, i as int));
                    assert(t[t.len() - 1] == es@[i as int]);
                }
                collect_strings(&es[i].1, out);
                proof {
                    assert(crate::text::views(out@) =~= start + member_strings(es@.subrange(0, i + 1)));
                }
            }
            proof {
                assert(es@.subrange(0, es@.len() as int) =~= es@);
            }
        },
        _ => {
            proof {
                assert(crate::text::views(out@) =~= start + json_strings(*v));
            }
        },
    }
}

/// The texts of a value that are rendered as templates, in rendering
/// order.
pub fn template_strings(v: &Json) -> (r: Vec<String>)
    ensures
        crate::text::views(r@) == json_strings(*v),
{
    let mut out: Vec<String> = Vec::new();
    collect_strings(v, &mut out);
    proof {
        assert(crate::text::views(Seq::<String>::empty()) =~= Seq::<Seq<char>>::empty());
        assert(Seq::<Seq<char>>::empty() + json_strings(*v) =~= json_strings(*v));
    }
    out
}

/// The texts of a prefix of a list lead those of a longer prefix.
pub(crate) proof fn lemma_list_strings_prefix(s: Seq<Json>, j: int, n: int)
    requires
        0 <= j <= n <= s.len(),
    ensures
        list_strings(s.subrange(0, j)).len() <= list_strings(s.subrange(0, n)).len(),
    decreases n - j,
{
    if j < n {
        let t = s.subrange(0, n);
        assert(t.subrange(0, t.len() - 1) =~= s.subrange(0, n - 1));
        lemma_list_strings_prefix(s, j, n - 1);
    }
}

/// The texts of a prefix of the members lead those of a longer prefix.
pub(crate) proof fn lemma_member_strings_prefix(es: Seq<(String, Json)>, j: int, n: int)
    requires
        0 <= j <= n <= es.len(),
    ensures
        member_strings(es.subrange(0, j)).len() <= member_strings(es.subrange(0, n)).len(),
    decreases n - j,
{
    if j < n {
        let t = es.subrange(0, n);
        assert(t.subrange(0, t.len() - 1) =~= es.subrange(0, n - 1));
        lemma_member_strings_prefix(es, j, n - 1);
    }
}

fn fill_value(v: &Json, ts: &Vec<String>, off: usize) -> (r: (Json, usize))
    requires
        off + json_strings(*v).len() <= ts@.len(),
    ensures
        r.1 == off + json_strings(*v).len(),
        fills(*v, crate::text::views(ts@).subrange(off as int, r.1 as int), r.0),
    decreases v,
{
    let ghost tv = crate::text::views(ts@);
    match v {
        Json::Str(_) => {
            let count = ts.len();
            let t = ts[off].clone();
            proof {
                assert(off + 1 <= count);
                assert(tv.subrange(off as int, off + 1)[0] == ts@[off as int]@);
            }
            (Json::Str(t), off + 1)
        },
        Json::Null => (Json::Null, off),
        Json::Bool(b) => (Json::Bool(*b), off),
        Json::Number(n) => (Json::Number(n.clone()), off),
        Json::Array(a) => {
            let mut out: Vec<Json> = Vec::new();
            let mut at: usize = off;
            for i in 0..a.len()
                invariant
                    *v == Json::Array(*a),
                    tv == crate::text::views(ts@),
                    off + json_strings(*v).len() <= ts@.len(),
                    json_strings(*v) == list_strings(a@),
                    at == off + list_strings(a@.subrange(0, i as int)).len(),
                    out@.len() == i,
                    fills_list(a@.subrange(0, i as int), tv.subrange(off as int, at as int), out@),
            {
                proof {
                    assert(decreases_to!(*v => (*v)->Array_0));
                    assert(decreases_to!((*v)->Array_0 => a@));
                    assert(decreases_to!(a@ => a@[i as int]));
                    let t = a@.subrange(0, i + 1);
                    assert(t.subrange(0, t.len() - 1) =~= a@.subrange(0, i as int));
                    assert(t[t.len() - 1] == a@[i as int]);
                    lemma_list_strings_prefix(a@, i + 1, a@.len() as int);
                    assert(a@.subrange(0, a@.len() as int) =~= a@);
                }
                let (k, next) = fill_value(&a[i], ts, at);
                let ghost before = out@;
                out.push(k);
                proof {
                    let t = a@.subrange(0, i + 1);
                    let nat_ = at + json_strings(a@[i as int]).len();
                    let w = tv.subrange(off as int, nat_);
                    assert(w.subrange(0, w.len() - json_strings(a@[i as int]).len()) =~= tv.subrange(off as int, at as int));
                    assert(w.subrange(w.len() - json_strings(a@[i as int]).len(), w.len() as int) =~= tv.subrange(at as int, nat_));
                    assert(out@.subrange(0, out@.len() - 1) =~= before);
                }
                at = next;
            }
            proof {
                assert(a@.subrange(0, a@.len() as int) =~= a@);
            }
            (Json::Array(out), at)
        },
        Json::Object(m) => {
            let es = m.entries();
            proof {
                m.lemma_items_are_entries();
            }
            let mut out: Vec<(String, Json)> = Vec::new();
            let mut at: usize = off;
            for i in 0..es.len()
                invariant
                    *v == Json::Object(*m),
                    es@ == m.entries@,
                    crate::strmap::keys_ascending(es@),
                    tv == crate::text::views(ts@),
                    off + json_strings(*v).len() <= ts@.len(),
                    json_strings(*v) == member_strings(es@),
                    at == off + member_strings(es@.subrange(0, i as int)).len(),
                    out@.len() == i,
                    forall|k: int| 0 <= k < i ==> (#[trigger] out@[k]).0@ == es@[k].0@,
                    fills_members(es@.subrange(0, i as int), tv.subrange(off as int, at as int), out@),
            {
                proof {
                    assert(decreases_to!(*v => (*v)->Object_0));
                    assert(decreases_to!((*v)->Object_0 => m.entries));
                    assert(decreases_to!(m.entries => m.entries@));
                    assert(decreases_to!(m.entries@ => m.entries@[i as int]));
                    assert(decreases_to!(m.entries@[i as int] => m.entries@[i as int].1));
                    let t = es@.subrange(0, i + 1);
                    assert(t.subrange(0, t.len() - 1) =~= es@.subrange(0, i as int));
                    assert(t[t.len() - 1] == es@[i as int]);
                    lemma_member_strings_prefix(es@, i + 1, es@.len() as int);
                    assert(es@.subrange(0, es@.len() as int) =~= es@);
                }
                let (k, next) = fill_value(&es[i].1, ts, at);
                let key = es[i].0.clone();
                let ghost before = out@;
                out.push((key, k));
                proof {
                    let nat_ = at + json_strings(es@[i as int].1).len();
                    let w = tv.subrange(off as int, nat_);
                    assert(w.subrange(0, w.len() - json_strings(es@[i as int].1).len()) =~= tv.subrange(off as int, at as int));
                    assert(w.subrange(w.len() - json_strings(es@[i as int].1).len(), w.len() as int) =~= tv.subrange(at as int, nat_));
                    assert(out@.subrange(0, out@.len() - 1) =~= before);
                }
                at = next;
            }
            proof {
                assert(es@.subrange(0, es@.len() as int) =~= es@);
                assert forall|a: int, b: int| 0 <= a < b < out@.len() implies crate::text::seq_lt(
                    out@[a].0@,
                    out@[b].0@,
                ) by {
                    assert(out@[a].0@ == es@[a].0@);
                    assert(out@[b].0@ == es@[b].0@);
                }
            }
            (Json::Object(StrMap::from_ascending(out)), at)
        },
    }
}

/// The message of the first failed rendering, if any.
pub open spec fn first_render_error(rs: Seq<Result<String, String>>) -> Option<Seq<char>>
    decreases rs.len(),
{
    if rs.len() == 0 {
        None
    } else {
        match rs[0] {
            Err(e) => Some(e@),
            Ok(_) => first_render_error(rs.drop_first()),
        }
    }
}

/// The rendered texts, when every rendering succeeded.
pub open spec fn rendered_texts(rs: Seq<Result<String, String>>) -> Seq<Seq<char>> {
    rs.map_values(
        |x: Result<String, String>|
            match x {
                Ok(t) => t@,
                Err(e) => e@,
            },
    )
}

/// Puts rendered templates in place of a value's texts: `rendered` holds
/// the outcome of rendering each of `template_strings(value)`, in order.
/// The first failed rendering is the error, and the value is then left as
/// it was; otherwise every text is replaced and nothing else changes.
pub fn render_json_strings(value: &mut Json, rendered: &Vec<Result<String, String>>) -> (r: Result<(), String>)
    requires
        rendered@.len() == json_strings(*old(value)).len(),
    ensures
        match first_render_error(rendered@) {
            Some(e) => r matches Err(x) && x@ == e && *final(value) == *old(value),
            None => r is Ok && fills(*old(value), rendered_texts(rendered@), *final(value)),
        },
{
    let mut texts: Vec<String> = Vec::new();
    for i in 0..rendered.len()
        invariant
            texts@.len() == i,
            forall|k: int| 0 <= k < i ==> rendered@[k] is Ok,
            forall|k: int| 0 <= k < i ==> #[trigger] texts@[k]@ == rendered_texts(rendered@)[k],
    {
        match &rendered[i] {
            Ok(t) => {
                texts.push(t.clone());
            },
            Err(e) => {
                proof {
                    lemma_first_render_error(rendered@, i as int);
                }
                return Err(e.clone());
            },
        }
    }
    proof {
        lemma_no_render_error(rendered@);
        assert(crate::text::views(texts@) =~= rendered_texts(rendered@));
        assert(crate::text::views(texts@).subrange(0, texts@.len() as int) =~= crate::text::views(texts@));
    }
    let (filled, _) = fill_value(value, &texts, 0);
    *value = filled;
    Ok(())
}

proof fn lemma_first_render_error(rs: Seq<Result<String, String>>, i: int)
    requires
        0 <= i < rs.len(),
        rs[i] is Err,
        forall|k: int| 0 <= k < i ==> rs[k] is Ok,
    ensures
        first_render_error(rs) == Some(rs[i]->Err_0@),
    decreases i,
{
    if i > 0 {
        assert(rs[0] is Ok);
        lemma_first_render_error(rs.drop_first(), i - 1);
    }
}

proof fn lemma_no_render_error(rs: Seq<Result<String, String>>)
    requires
        forall|k: int| 0 <= k < rs.len() ==> rs[k] is Ok,
    ensures
        first_render_error(rs) is None,
    decreases rs.len(),
{
    if rs.len() > 0 {
        assert forall|k: int| 0 <= k < rs.drop_first().len() implies rs.drop_first()[k] is Ok by {
            assert(rs.drop_first()[k] == rs[k + 1]);
        }
        lemma_no_render_error(rs.drop_first());
    }
}

/// Putting a value's own texts back in place of its texts gives the value
/// back.
pub proof fn lemma_fill_own_strings(v: Json)
    ensures
        fills(v, json_strings(v), v),
    decreases v,
{
    match v {
        Json::Array(a) => {
            assert(decreases_to!(v => v->Array_0));
            assert(decreases_to!(v->Array_0 => a@));
            lemma_fill_own_list(a@);
        },
        Json::Object(m) => {
            assert(decreases_to!(v => v->Object_0));
            assert(decreases_to!(v->Object_0 => m.entries));
            assert(decreases_to!(m.entries => m.entries@));
            lemma_fill_own_members(m.entries@);
        },
        _ => {},
    }
}

proof fn lemma_fill_own_list(s: Seq<Json>)
    ensures
        fills_list(s, list_strings(s), s),
    decreases s,
{
    if s.len() > 0 {
        let init = s.subrange(0, s.len() - 1);
        assert(decreases_to!(s => s[s.len() - 1]));
        assert(decreases_to!(s => init));
        lemma_fill_own_list(init);
        lemma_fill_own_strings(s[s.len() - 1]);
        let ts = list_strings(s);
        let k = json_strings(s[s.len() - 1]).len();
        assert(ts =~= list_strings(init) + json_strings(s[s.len() - 1]));
        assert(ts.subrange(0, ts.len() - k) =~= list_strings(init));
        assert(ts.subrange(ts.len() - k, ts.len() as int) =~= json_strings(s[s.len() - 1]));
    }
}

proof fn lemma_fill_own_members(es: Seq<(String, Json)>)
    ensures
        fills_members(es, member_strings(es), es),
    decreases es,
{
    if es.len() > 0 {
        let init = es.subrange(0, es.len() - 1);
        assert(decreases_to!(es => es[es.len() - 1]));
        assert(decreases_to!(es[es.len() - 1] => es[es.len() - 1].1));
        assert(decreases_to!(es => init));
        lemma_fill_own_members(init);
        lemma_fill_own_strings(es[es.len() - 1].1);
        let ts = member_strings(es);
        let k = json_strings(es[es.len() - 1].1).len();
        assert(ts =~= member_strings(init) + json_strings(es[es.len() - 1].1));
        assert(ts.subrange(0, ts.len() - k) =~= member_strings(init));
        assert(ts.subrange(ts.len() - k, ts.len() as int) =~= json_strings(es[es.len() - 1].1));
    }
}

} // verus!
