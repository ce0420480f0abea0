//! The wire format of prompts: tool-call arguments, turns, and what is taken
//! out of the content of a turn.

use vstd::prelude::*;
use vstd::string::*;

use crate::json::NumberView;
use crate::json::json_document;
use crate::json::parse_json;
use crate::json::Json;
use crate::json::JsonView;
use crate::text::cat;
use crate::text::cat3;
use crate::text::chars_of;
use crate::text::lemma_without_absent;
use crate::text::lemma_without_shortens;
use crate::text::occurs_at;
use crate::text::occurs_in;
use crate::text::remove_all;
use crate::text::str_eq;
use crate::text::string_of;
use crate::text::without;

verus! {

/// `a` comes before `b` in the order of texts: by the first character in which
/// they differ, a beginning before the whole.
pub open spec fn lex_lt(a: Seq<char>, b: Seq<char>) -> bool
    decreases a.len(),
{
    if b.len() == 0 {
        false
    } else if a.len() == 0 {
        true
    } else if a[0] != b[0] {
        a[0] < b[0]
    } else {
        lex_lt(a.skip(1), b.skip(1))
    }
}

/// Whether `a` comes before `b`.
pub fn str_lt(a: &str, b: &str) -> (r: bool)
    ensures
        r == lex_lt(a@, b@),
{
    let x = chars_of(a);
    let y = chars_of(b);
    let mut i: usize = 0;
    assert(x@.skip(0) =~= x@);
    assert(y@.skip(0) =~= y@);
    while i < x.len() && i < y.len()
        invariant
            x@ == a@,
            y@ == b@,
            i <= x@.len(),
            i <= y@.len(),
            lex_lt(x@.skip(i as int), y@.skip(i as int)) == lex_lt(a@, b@),
        decreases x@.len() - i,
    {
        if x[i] != y[i] {
            return x[i] < y[i];
        }
        assert(x@.skip(i as int).skip(1) =~= x@.skip(i + 1));
        assert(y@.skip(i as int).skip(1) =~= y@.skip(i + 1));
        i += 1;
    }
    x.len() <= i && i < y.len()
}

proof fn lemma_lex_transitive(a: Seq<char>, b: Seq<char>, c: Seq<char>)
    requires
        !lex_lt(b, a),
        !lex_lt(c, b),
    ensures
        !lex_lt(c, a),
    decreases a.len(),
{
    if a.len() > 0 && b.len() > 0 && c.len() > 0 {
        if a[0] == b[0] && b[0] == c[0] {
            lemma_lex_transitive(a.skip(1), b.skip(1), c.skip(1));
        }
    }
}

proof fn lemma_lex_asymmetric(a: Seq<char>, b: Seq<char>)
    requires
        lex_lt(a, b),
    ensures
        !lex_lt(b, a),
    decreases a.len(),
{
    if a.len() > 0 && b.len() > 0 && a[0] == b[0] {
        lemma_lex_asymmetric(a.skip(1), b.skip(1));
    }
}

/// `p` put into its place among `pairs`, which are in order; behind those of
/// the same key.
pub open spec fn placed(
    pairs: Seq<(Seq<char>, Seq<char>)>,
    p: (Seq<char>, Seq<char>),
) -> Seq<(Seq<char>, Seq<char>)>
    decreases pairs.len(),
{
    if pairs.len() > 0 && lex_lt(p.0, pairs.last().0) {
        placed(pairs.drop_last(), p).push(pairs.last())
    } else {
        pairs.push(p)
    }
}

/// `pairs` in the order of their keys.
pub open spec fn by_key(pairs: Seq<(Seq<char>, Seq<char>)>) -> Seq<(Seq<char>, Seq<char>)>
    decreases pairs.len(),
{
    if pairs.len() == 0 {
        pairs
    } else {
        placed(by_key(pairs.drop_last()), pairs.last())
    }
}

/// No key comes before an earlier one.
pub open spec fn in_key_order(pairs: Seq<(Seq<char>, Seq<char>)>) -> bool {
    forall|i: int, j: int|
        0 <= i < j < pairs.len() ==> !lex_lt((#[trigger] pairs[j]).0, (#[trigger] pairs[i]).0)
}

proof fn lemma_placed(pairs: Seq<(Seq<char>, Seq<char>)>, p: (Seq<char>, Seq<char>))
    requires
        in_key_order(pairs),
    ensures
        in_key_order(placed(pairs, p)),
        placed(pairs, p).len() == pairs.len() + 1,
        placed(pairs, p).to_multiset() == pairs.to_multiset().insert(p),
        forall|i: int|
            0 <= i < placed(pairs, p).len() ==> (#[trigger] placed(pairs, p)[i]) == p
                || pairs.contains(placed(pairs, p)[i]),
    decreases pairs.len(),
{
    broadcast use vstd::seq_lib::group_to_multiset_ensures;

    let out = placed(pairs, p);
    if pairs.len() > 0 && lex_lt(p.0, pairs.last().0) {
        let front = pairs.drop_last();
        lemma_placed(front, p);
        let inner = placed(front, p);
        assert(pairs =~= front.push(pairs.last()));
        assert(front.push(pairs.last()).to_multiset() == front.to_multiset().insert(pairs.last()));
        assert(inner.push(pairs.last()).to_multiset() == inner.to_multiset().insert(pairs.last()));
        assert(pairs.to_multiset().insert(p) =~= front.to_multiset().insert(p).insert(
            pairs.last(),
        ));
        assert forall|i: int| 0 <= i < out.len() implies (#[trigger] out[i]) == p
            || pairs.contains(out[i]) by {
            if i < inner.len() {
                assert(out[i] == inner[i]);
                if inner[i] != p {
                    let k = choose|k: int| 0 <= k < front.len() && front[k] == inner[i];
                    assert(pairs[k] == inner[i]);
                }
            } else {
                assert(out[i] == pairs[pairs.len() - 1]);
            }
        }
        assert forall|i: int, j: int| 0 <= i < j < out.len() implies !lex_lt(
            (#[trigger] out[j]).0,
            (#[trigger] out[i]).0,
        ) by {
            if j < inner.len() {
                assert(out[j] == inner[j] && out[i] == inner[i]);
            } else {
                assert(out[i] == inner[i]);
                if inner[i] == p {
                    lemma_lex_asymmetric(p.0, pairs.last().0);
                } else {
                    let k = choose|k: int| 0 <= k < front.len() && front[k] == inner[i];
                    assert(pairs[k] == inner[i]);
                }
            }
        }
    } else {
        assert forall|i: int| 0 <= i < out.len() implies (#[trigger] out[i]) == p
            || pairs.contains(out[i]) by {
            if i < pairs.len() {
                assert(out[i] == pairs[i]);
            }
        }
        assert forall|i: int, j: int| 0 <= i < j < out.len() implies !lex_lt(
            (#[trigger] out[j]).0,
            (#[trigger] out[i]).0,
        ) by {
            if j == pairs.len() {
                let last = pairs[pairs.len() - 1];
                assert(out[i] == pairs[i]);
                if i < pairs.len() - 1 {
                    lemma_lex_transitive(pairs[i].0, last.0, p.0);
                }
            } else {
                assert(out[j] == pairs[j] && out[i] == pairs[i]);
            }
        }
    }
}

/// Pairs in the order of their keys are the same pairs, and in order.
pub proof fn law_by_key_sorts(pairs: Seq<(Seq<char>, Seq<char>)>)
    ensures
        in_key_order(by_key(pairs)),
        by_key(pairs).len() == pairs.len(),
        by_key(pairs).to_multiset() == pairs.to_multiset(),
    decreases pairs.len(),
{
    broadcast use vstd::seq_lib::group_to_multiset_ensures;

    if pairs.len() > 0 {
        let front = pairs.drop_last();
        law_by_key_sorts(front);
        lemma_placed(by_key(front), pairs.last());
        assert(pairs =~= front.push(pairs.last()));
    }
}

/// Texts in a row with `sep` between them.
pub open spec fn joined(parts: Seq<Seq<char>>, sep: Seq<char>) -> Seq<char>
    decreases parts.len(),
{
    if parts.len() == 0 {
        Seq::empty()
    } else if parts.len() == 1 {
        parts[0]
    } else {
        joined(parts.drop_last(), sep) + sep + parts.last()
    }
}

/// `key:value` for every pair, in the order of the keys.
pub open spec fn dsl_pairs(pairs: Seq<(Seq<char>, Seq<char>)>) -> Seq<char> {
    let sorted = by_key(pairs);
    joined(Seq::new(sorted.len(), |i: int| sorted[i].0 + ":"@ + sorted[i].1), ","@)
}

/// A value in the argument notation: texts in quote tokens, numbers, booleans
/// and null bare, lists in square brackets, objects in braces.
pub open spec fn dsl_value(v: JsonView) -> Seq<char>
    decreases v,
{
    match v {
        JsonView::Str(s) => "<|\"|>"@ + s + "<|\"|>"@,
        JsonView::Number(n) => n.text,
        JsonView::Bool(b) => if b {
            "true"@
        } else {
            "false"@
        },
        JsonView::Null => "null"@,
        JsonView::Array(items) => "["@ + joined(dsl_items(items), ","@) + "]"@,
        JsonView::Object(members) => "{"@ + dsl_pairs(dsl_entries(members)) + "}"@,
    }
}

/// Values in the argument notation.
pub open spec fn dsl_items(items: Seq<JsonView>) -> Seq<Seq<char>>
    decreases items,
{
    if items.len() == 0 {
        Seq::empty()
    } else {
        dsl_items(items.drop_last()).push(dsl_value(items.last()))
    }
}

/// Members of an object, their values in the argument notation.
pub open spec fn dsl_entries(members: Seq<(Seq<char>, JsonView)>) -> Seq<(Seq<char>, Seq<char>)>
    decreases members,
{
    if members.len() == 0 {
        Seq::empty()
    } else {
        dsl_entries(members.drop_last()).push((members.last().0, dsl_value(members.last().1)))
    }
}

/// The members of an object in the argument notation.
pub open spec fn dsl_members(members: Seq<(Seq<char>, JsonView)>) -> Seq<char> {
    dsl_pairs(dsl_entries(members))
}

/// What a list of pairs of texts stands for.
pub open spec fn pair_texts(v: Seq<(String, String)>) -> Seq<(Seq<char>, Seq<char>)> {
    Seq::new(v.len(), |i: int| (v[i].0@, v[i].1@))
}

fn place(pairs: &mut Vec<(String, String)>, key: String, value: String)
    ensures
        pair_texts(final(pairs)@) == placed(pair_texts(old(pairs)@), (key@, value@)),
{
    let ghost all = pair_texts(pairs@);
    let ghost p = (key@, value@);
    let mut at: usize = pairs.len();
    assert(all.take(at as int) =~= all);
    assert(placed(all, p) + all.skip(at as int) =~= placed(all, p));
    while at > 0 && str_lt(key.as_str(), pairs[at - 1].0.as_str())
        invariant
            at <= pairs@.len(),
            all == pair_texts(pairs@),
            p == (key@, value@),
            placed(all.take(at as int), p) + all.skip(at as int) == placed(all, p),
        decreases at,
    {
        proof {
            let part = all.take(at as int);
            assert(part.last() == all[at - 1]);
            assert(part.drop_last() =~= all.take(at - 1));
            assert(placed(all.take(at - 1), p) + all.skip(at - 1) =~= placed(
                all.take(at - 1),
                p,
            ).push(all[at - 1]) + all.skip(at as int));
        }
        at -= 1;
    }
    proof {
        let part = all.take(at as int);
        if at > 0 {
            assert(part.last() == all[at - 1]);
        }
        assert(placed(part, p) == part.push(p));
    }
    pairs.insert(at, (key, value));
    assert(pair_texts(pairs@) =~= all.take(at as int).push(p) + all.skip(at as int));
}

fn format_members(members: &Vec<(String, Json)>) -> (r: String)
    ensures
        r@ == dsl_members(Json::Object(*members).content()->Object_0),
    decreases members,
{
    let ghost views = Json::Object(*members).content()->Object_0;
    let mut pairs: Vec<(String, String)> = Vec::new();
    let mut i: usize = 0;
    proof {
        assert(views.take(0) =~= Seq::<(Seq<char>, JsonView)>::empty());
        assert(pair_texts(pairs@) =~= by_key(dsl_entries(views.take(0))));
    }
    while i < members.len()
        invariant
            i <= members@.len(),
            views == Json::Object(*members).content()->Object_0,
            views.len() == members@.len(),
            pair_texts(pairs@) == by_key(dsl_entries(views.take(i as int))),
        decreases members@.len() - i,
    {
        let value = format_gemma4_value(&members[i].1);
        let key = members[i].0.clone();
        proof {
            let upto = views.take(i + 1);
            assert(upto.drop_last() =~= views.take(i as int));
            assert(views[i as int] == (members@[i as int].0@, members@[i as int].1.content()));
            let entries = dsl_entries(upto);
            assert(entries.drop_last() =~= dsl_entries(views.take(i as int)));
            assert(entries.last() == (key@, value@));
        }
        place(&mut pairs, key, value);
        i += 1;
    }
    assert(views.take(views.len() as int) =~= views);
    let ghost sorted = by_key(dsl_entries(views));
    let ghost parts = Seq::new(sorted.len(), |i: int| sorted[i].0 + ":"@ + sorted[i].1);
    let mut out = String::new();
    let mut k: usize = 0;
    assert(parts.take(0) =~= Seq::<Seq<char>>::empty());
    while k < pairs.len()
        invariant
            k <= pairs@.len(),
            sorted == pair_texts(pairs@),
            parts == Seq::new(sorted.len(), |i: int| sorted[i].0 + ":"@ + sorted[i].1),
            out@ == joined(parts.take(k as int), ","@),
        decreases pairs@.len() - k,
    {
        proof {
            let upto = parts.take(k + 1);
            assert(upto.drop_last() =~= parts.take(k as int));
            assert(upto.last() == pairs@[k as int].0@ + ":"@ + pairs@[k as int].1@);
        }
        let part = cat3(pairs[k].0.as_str(), ":", pairs[k].1.as_str());
        if k > 0 {
            out.append(",");
        }
        out.append(part.as_str());
        assert(out@ =~= joined(parts.take(k + 1), ","@));
        k += 1;
    }
    assert(parts.take(parts.len() as int) =~= parts);
    out
}

proof fn lemma_items_len(items: Seq<JsonView>)
    ensures
        dsl_items(items).len() == items.len(),
    decreases items.len(),
{
    if items.len() > 0 {
        lemma_items_len(items.drop_last());
    }
}

/// A value in the argument notation.
pub fn format_gemma4_value(val: &Json) -> (r: String)
    ensures
        r@ == dsl_value(val.content()),
    decreases val,
{
    match val {
        Json::Str(s) => cat3("<|\"|>", s.as_str(), "<|\"|>"),
        Json::Number(n) => n.text.clone(),
        Json::Bool(b) => if *b {
            String::from_str("true")
        } else {
            String::from_str("false")
        },
        Json::Null => String::from_str("null"),
        Json::Array(items) => {
            let ghost views = val.content()->Array_0;
            let mut out = String::new();
            let mut i: usize = 0;
            assert(views.take(0) =~= Seq::<JsonView>::empty());
            while i < items.len()
                invariant
                    i <= items@.len(),
                    *val == Json::Array(*items),
                    views == val.content()->Array_0,
                    views.len() == items@.len(),
                    out@ == joined(dsl_items(views.take(i as int)), ","@),
                decreases items@.len() - i,
            {
                proof {
                    let upto = views.take(i + 1);
                    assert(upto.drop_last() =~= views.take(i as int));
                    assert(views[i as int] == items@[i as int].content());
                    let parts = dsl_items(upto);
                    assert(parts.drop_last() =~= dsl_items(views.take(i as int)));
                    assert(parts.last() == dsl_value(items@[i as int].content()));
                    lemma_items_len(views.take(i as int));
                }
                let part = format_gemma4_value(&items[i]);
                if i > 0 {
                    out.append(",");
                }
                out.append(part.as_str());
                assert(out@ =~= joined(dsl_items(views.take(i + 1)), ","@));
                i += 1;
            }
            assert(views.take(views.len() as int) =~= views);
            cat3("[", out.as_str(), "]")
        },
        Json::Object(members) => {
            let inner = format_members(members);
            assert(*val == Json::Object(*members));
            cat3("{", inner.as_str(), "}")
        },
    }
}

/// Arguments in the argument notation: the members of an object; any other text
/// as it is.
pub open spec fn dsl_args(text: Seq<char>) -> Seq<char> {
    match json_document(text) {
        Ok(JsonView::Object(members)) => dsl_members(members),
        _ => text,
    }
}

/// The members of a document in the argument notation, without braces; `None`
/// where it is no object.
pub fn format_gemma4_args(doc: &Json) -> (r: Option<String>)
    ensures
        match doc.content() {
            JsonView::Object(members) => r matches Some(s) && s@ == dsl_members(members),
            _ => r is None,
        },
{
    match doc {
        Json::Object(members) => Some(format_members(members)),
        _ => None,
    }
}

/// JSON arguments in the argument notation, without braces; a text that is no
/// JSON object as it is.
pub fn json_args_to_gemma4_dsl(json_str: &str) -> (r: String)
    ensures
        r@ == dsl_args(json_str@),
{
    match parse_json(json_str) {
        Ok(doc) => match format_gemma4_args(&doc) {
            Some(s) => s,
            None => String::from_str(json_str),
        },
        Err(_) => String::from_str(json_str),
    }
}

/// The tokens that structure a prompt, in the order in which they are taken
/// out.
pub open spec fn control_tokens() -> Seq<Seq<char>> {
    seq![
        "<|turn>"@,
        "<turn|>"@,
        "<|tool_call>"@,
        "<tool_call|>"@,
        "<|tool_response>"@,
        "<tool_response|>"@,
        "<|tool>"@,
        "<tool|>"@,
        "<|channel>"@,
        "<channel|>"@,
        "<|think|>"@,
    ]
}

/// `s` with every token of a list taken out, one token after the other.
pub open spec fn without_all(s: Seq<char>, tokens: Seq<Seq<char>>) -> Seq<char>
    decreases tokens.len(),
{
    if tokens.len() == 0 {
        s
    } else {
        without(without_all(s, tokens.drop_last()), tokens.last())
    }
}

/// Content with the control tokens taken out, over and over until none is left:
/// what comes together when a token between is taken out is taken out too.
pub open spec fn escaped(s: Seq<char>) -> Seq<char>
    decreases s.len(),
{
    let once = without_all(s, control_tokens());
    if once.len() < s.len() {
        escaped(once)
    } else {
        s
    }
}

proof fn lemma_one_pass(s: Seq<char>)
    ensures
        without_all(s, control_tokens()) == ({
            let s1 = without(s, "<|turn>"@);
            let s2 = without(s1, "<turn|>"@);
            let s3 = without(s2, "<|tool_call>"@);
            let s4 = without(s3, "<tool_call|>"@);
            let s5 = without(s4, "<|tool_response>"@);
            let s6 = without(s5, "<tool_response|>"@);
            let s7 = without(s6, "<|tool>"@);
            let s8 = without(s7, "<tool|>"@);
            let s9 = without(s8, "<|channel>"@);
            let s10 = without(s9, "<channel|>"@);
            without(s10, "<|think|>"@)
        }),
{
    let t = control_tokens();
    assert forall|n: int| 1 <= n <= 11 implies #[trigger] t.take(n).drop_last() == t.take(n - 1)
        && t.take(n).last() == t[n - 1] by {
        assert(t.take(n).drop_last() =~= t.take(n - 1));
    }
    assert(t.take(11) =~= t);
    assert(without_all(s, t.take(0)) == s);
    let s1 = without(s, "<|turn>"@);
    assert(without_all(s, t.take(1)) == s1);
    let s2 = without(s1, "<turn|>"@);
    assert(without_all(s, t.take(2)) == s2);
    let s3 = without(s2, "<|tool_call>"@);
    assert(without_all(s, t.take(3)) == s3);
    let s4 = without(s3, "<tool_call|>"@);
    assert(without_all(s, t.take(4)) == s4);
    let s5 = without(s4, "<|tool_response>"@);
    assert(without_all(s, t.take(5)) == s5);
    let s6 = without(s5, "<tool_response|>"@);
    assert(without_all(s, t.take(6)) == s6);
    let s7 = without(s6, "<|tool>"@);
    assert(without_all(s, t.take(7)) == s7);
    let s8 = without(s7, "<tool|>"@);
    assert(without_all(s, t.take(8)) == s8);
    let s9 = without(s8, "<|channel>"@);
    assert(without_all(s, t.take(9)) == s9);
    let s10 = without(s9, "<channel|>"@);
    assert(without_all(s, t.take(10)) == s10);
    assert(without_all(s, t.take(11)) == without(s10, "<|think|>"@));
}

fn remove_control_tokens(c0: &Vec<char>) -> (r: Vec<char>)
    ensures
        r@ == without_all(c0@, control_tokens()),
{
    let c1 = remove_all(c0, "<|turn>");
    let c2 = remove_all(&c1, "<turn|>");
    let c3 = remove_all(&c2, "<|tool_call>");
    let c4 = remove_all(&c3, "<tool_call|>");
    let c5 = remove_all(&c4, "<|tool_response>");
    let c6 = remove_all(&c5, "<tool_response|>");
    let c7 = remove_all(&c6, "<|tool>");
    let c8 = remove_all(&c7, "<tool|>");
    let c9 = remove_all(&c8, "<|channel>");
    let c10 = remove_all(&c9, "<channel|>");
    let c11 = remove_all(&c10, "<|think|>");
    proof {
        lemma_one_pass(c0@);
    }
    c11
}

/// Content with all control tokens taken out, so that it cannot close its turn
/// or open another. Content that holds none comes back as it is.
pub fn escape_gemma4_content(s: &str) -> (r: String)
    ensures
        r@ == escaped(s@),
        forall|i: int|
            0 <= i < control_tokens().len() ==> !occurs_in(#[trigger] control_tokens()[i], r@),
        (forall|i: int|
            0 <= i < control_tokens().len() ==> !occurs_in(#[trigger] control_tokens()[i], s@))
            ==> r@ == s@,
{
    let mut text = chars_of(s);
    let mut next = remove_control_tokens(&text);
    while next.len() < text.len()
        invariant
            next@ == without_all(text@, control_tokens()),
            escaped(text@) == escaped(s@),
        decreases text@.len(),
    {
        text = next;
        next = remove_control_tokens(&text);
    }
    proof {
        assert forall|i: int| 0 <= i < control_tokens().len() implies !occurs_in(
            #[trigger] control_tokens()[i],
            text@,
        ) by {
            law_escaped_holds_no_token(s@, i);
        }
        if forall|i: int|
            0 <= i < control_tokens().len() ==> !occurs_in(#[trigger] control_tokens()[i], s@) {
            law_escape_keeps_plain_content(s@);
        }
    }
    string_of(&text)
}

/// Every control token begins with `<` and holds no other.
proof fn lemma_tokens_open_once(i: int)
    requires
        0 <= i < control_tokens().len(),
    ensures
        control_tokens()[i].len() > 0,
        control_tokens()[i][0] == '<',
        forall|k: int|
            0 < k < control_tokens()[i].len() ==> #[trigger] control_tokens()[i][k] != '<',
{
    reveal_strlit("<|turn>");
    reveal_strlit("<turn|>");
    reveal_strlit("<|tool_call>");
    reveal_strlit("<tool_call|>");
    reveal_strlit("<|tool_response>");
    reveal_strlit("<tool_response|>");
    reveal_strlit("<|tool>");
    reveal_strlit("<tool|>");
    reveal_strlit("<|channel>");
    reveal_strlit("<channel|>");
    reveal_strlit("<|think|>");
    let t = control_tokens();
    assert(i == 0 || i == 1 || i == 2 || i == 3 || i == 4 || i == 5 || i == 6 || i == 7 || i == 8
        || i == 9 || i == 10);
}

/// A pass never lengthens; one that keeps the length found nothing.
proof fn lemma_pass_shortens(s: Seq<char>, tokens: Seq<Seq<char>>)
    requires
        forall|i: int| 0 <= i < tokens.len() ==> (#[trigger] tokens[i]).len() > 0,
    ensures
        without_all(s, tokens).len() <= s.len(),
        without_all(s, tokens).len() == s.len() ==> without_all(s, tokens) == s && forall|i: int|
            0 <= i < tokens.len() ==> !occurs_in(#[trigger] tokens[i], s),
    decreases tokens.len(),
{
    if tokens.len() > 0 {
        let front = tokens.drop_last();
        let before = without_all(s, front);
        assert forall|i: int| 0 <= i < front.len() implies (#[trigger] front[i]).len() > 0 by {
            assert(front[i] == tokens[i]);
        }
        lemma_pass_shortens(s, front);
        assert(tokens.last() == tokens[tokens.len() - 1]);
        lemma_without_shortens(before, tokens.last());
        if without_all(s, tokens).len() == s.len() {
            assert forall|i: int| 0 <= i < tokens.len() implies !occurs_in(
                #[trigger] tokens[i],
                s,
            ) by {
                if i < front.len() {
                    assert(front[i] == tokens[i]);
                }
            }
        }
    }
}

/// Whatever the content, escaped content holds no control token.
pub proof fn law_escaped_holds_no_token(s: Seq<char>, i: int)
    requires
        0 <= i < control_tokens().len(),
    ensures
        !occurs_in(control_tokens()[i], escaped(s)),
    decreases s.len(),
{
    let t = control_tokens();
    let once = without_all(s, t);
    assert forall|k: int| 0 <= k < t.len() implies (#[trigger] t[k]).len() > 0 by {
        lemma_tokens_open_once(k);
    }
    lemma_pass_shortens(s, t);
    if once.len() < s.len() {
        law_escaped_holds_no_token(once, i);
    }
}

/// Content stays in its turn: no control token begins inside escaped content,
/// not even with the help of what follows it, which in a prompt is a token.
pub proof fn law_no_token_begins_in_content(s: Seq<char>, tail: Seq<char>, i: int, j: int)
    requires
        0 <= i < control_tokens().len(),
        tail.len() > 0,
        tail[0] == '<',
        0 <= j < escaped(s).len(),
    ensures
        !occurs_at(control_tokens()[i], escaped(s) + tail, j),
{
    let c = escaped(s);
    let p = control_tokens()[i];
    law_escaped_holds_no_token(s, i);
    lemma_tokens_open_once(i);
    if occurs_at(p, c + tail, j) {
        let found = (c + tail).subrange(j, j + p.len());
        if j + p.len() <= c.len() {
            assert(found =~= c.subrange(j, j + p.len()));
            assert(occurs_at(p, c, j));
        } else {
            assert(found[c.len() - j] == tail[0]);
        }
    }
}

/// Text without a `<` in front of content is kept as it is when both are escaped:
/// the mark of a tool error is shown in full.
pub proof fn law_escape_keeps_text_in_front(front: Seq<char>, s: Seq<char>)
    requires
        forall|k: int| 0 <= k < front.len() ==> #[trigger] front[k] != '<',
    ensures
        escaped(front + s) == front + escaped(s),
    decreases s.len(),
{
    let t = control_tokens();
    assert forall|k: int| 0 <= k < t.len() implies (#[trigger] t[k]).len() > 0 && t[k][0]
        == '<' by {
        lemma_tokens_open_once(k);
    }
    lemma_pass_keeps_front(front, s, t);
    lemma_pass_shortens(s, t);
    let once = without_all(s, t);
    if once.len() < s.len() {
        law_escape_keeps_text_in_front(front, once);
    }
}

proof fn lemma_pass_keeps_front(front: Seq<char>, s: Seq<char>, tokens: Seq<Seq<char>>)
    requires
        forall|k: int| 0 <= k < front.len() ==> #[trigger] front[k] != '<',
        forall|k: int|
            0 <= k < tokens.len() ==> (#[trigger] tokens[k]).len() > 0 && tokens[k][0] == '<',
    ensures
        without_all(front + s, tokens) == front + without_all(s, tokens),
    decreases tokens.len(),
{
    if tokens.len() > 0 {
        let less = tokens.drop_last();
        assert forall|k: int| 0 <= k < less.len() implies (#[trigger] less[k]).len() > 0
            && less[k][0] == '<' by {
            assert(less[k] == tokens[k]);
        }
        lemma_pass_keeps_front(front, s, less);
        assert(tokens.last() == tokens[tokens.len() - 1]);
        lemma_without_keeps_front(front, without_all(s, less), tokens.last());
    }
}

proof fn lemma_without_keeps_front(front: Seq<char>, s: Seq<char>, p: Seq<char>)
    requires
        forall|k: int| 0 <= k < front.len() ==> #[trigger] front[k] != '<',
        p.len() > 0,
        p[0] == '<',
    ensures
        without(front + s, p) == front + without(s, p),
    decreases front.len(),
{
    if front.len() == 0 {
        assert(front + s =~= s);
        assert(front + without(s, p) =~= without(s, p));
    } else {
        let rest = front.skip(1);
        assert forall|k: int| 0 <= k < rest.len() implies #[trigger] rest[k] != '<' by {
            assert(rest[k] == front[k + 1]);
        }
        lemma_without_keeps_front(rest, s, p);
        assert((front + s).skip(1) =~= rest + s);
        assert((front + s)[0] == front[0]);
        assert(!p.is_prefix_of(front + s) || (front + s).len() < p.len());
        assert(seq![front[0]] + (rest + without(s, p)) =~= front + without(s, p));
    }
}

/// Escaping escaped content changes nothing.
pub proof fn law_escaping_twice_is_escaping_once(s: Seq<char>)
    ensures
        escaped(escaped(s)) == escaped(s),
{
    assert forall|i: int| 0 <= i < control_tokens().len() implies !occurs_in(
        #[trigger] control_tokens()[i],
        escaped(s),
    ) by {
        law_escaped_holds_no_token(s, i);
    }
    law_escape_keeps_plain_content(escaped(s));
}

/// Content that holds no control token passes unchanged.
pub proof fn law_escape_keeps_plain_content(s: Seq<char>)
    requires
        forall|i: int|
            0 <= i < control_tokens().len() ==> !occurs_in(#[trigger] control_tokens()[i], s),
    ensures
        escaped(s) == s,
{
    lemma_without_all_absent(s, control_tokens());
}

proof fn lemma_without_all_absent(s: Seq<char>, tokens: Seq<Seq<char>>)
    requires
        forall|i: int| 0 <= i < tokens.len() ==> !occurs_in(#[trigger] tokens[i], s),
    ensures
        without_all(s, tokens) == s,
    decreases tokens.len(),
{
    if tokens.len() > 0 {
        let front = tokens.drop_last();
        assert forall|i: int| 0 <= i < front.len() implies !occurs_in(#[trigger] front[i], s) by {
            assert(front[i] == tokens[i]);
        }
        lemma_without_all_absent(s, front);
        assert(tokens.last() == tokens[tokens.len() - 1]);
        lemma_without_absent(s, tokens.last());
    }
}

/// A tool call of a message.
#[derive(Debug)]
pub struct ToolCall {
    pub name: String,
    /// JSON text.
    pub arguments: String,
}

/// A message of a conversation.
#[derive(Debug)]
pub struct ChatMessage {
    pub role: String,
    pub content: String,
    pub tool_calls: Vec<ToolCall>,
}

/// The name of a role in a prompt.
pub open spec fn wire_role(role: Seq<char>) -> Seq<char> {
    if role == "assistant"@ {
        "model"@
    } else if role == "developer"@ {
        "system"@
    } else {
        role
    }
}

/// A tool call in a prompt.
pub open spec fn wire_call(call: ToolCall) -> Seq<char> {
    "<|tool_call>call:"@ + call.name@ + "{"@ + dsl_args(escaped(call.arguments@))
        + "}<tool_call|>"@
}

/// Tool calls in a prompt.
pub open spec fn wire_calls(calls: Seq<ToolCall>) -> Seq<char>
    decreases calls.len(),
{
    if calls.len() == 0 {
        Seq::empty()
    } else {
        wire_calls(calls.drop_last()) + wire_call(calls.last())
    }
}

/// A message in a prompt.
pub open spec fn wire_message(m: ChatMessage) -> Seq<char> {
    "<|turn>"@ + wire_role(m.role@) + "\n"@ + wire_calls(m.tool_calls@) + escaped(m.content@)
        + "<turn|>\n"@
}

/// Messages in a prompt.
pub open spec fn wire_messages(messages: Seq<ChatMessage>) -> Seq<char>
    decreases messages.len(),
{
    if messages.len() == 0 {
        Seq::empty()
    } else {
        wire_messages(messages.drop_last()) + wire_message(messages.last())
    }
}

/// The prompt of a conversation, for a tokenizer without a chat template: every
/// message a turn, then the opening of a model turn.
pub fn render_manual_prompt(messages: &Vec<ChatMessage>) -> (r: String)
    ensures
        r@ == "<bos>"@ + wire_messages(messages@) + "<|turn>model\n"@,
{
    let mut out = String::from_str("<bos>");
    let mut i: usize = 0;
    assert(messages@.take(0) =~= Seq::<ChatMessage>::empty());
    assert(out@ =~= "<bos>"@ + wire_messages(messages@.take(0)));
    while i < messages.len()
        invariant
            i <= messages@.len(),
            out@ == "<bos>"@ + wire_messages(messages@.take(i as int)),
        decreases messages@.len() - i,
    {
        let text = render_message(&messages[i]);
        proof {
            let upto = messages@.take(i + 1);
            assert(upto.drop_last() =~= messages@.take(i as int));
            assert(upto.last() == messages@[i as int]);
        }
        let ghost before = out@;
        out.append(text.as_str());
        assert(out@ =~= "<bos>"@ + wire_messages(messages@.take(i + 1)));
        i += 1;
    }
    assert(messages@.take(messages@.len() as int) =~= messages@);
    out.append("<|turn>model\n");
    out
}

fn render_message(m: &ChatMessage) -> (r: String)
    ensures
        r@ == wire_message(*m),
{
    let role: &str = if str_eq(m.role.as_str(), "assistant") {
        "model"
    } else if str_eq(m.role.as_str(), "developer") {
        "system"
    } else {
        m.role.as_str()
    };
    let mut out = cat3("<|turn>", role, "\n");
    let ghost head = out@;
    let mut i: usize = 0;
    let calls = &m.tool_calls;
    assert(calls@.take(0) =~= Seq::<ToolCall>::empty());
    assert(out@ =~= head + wire_calls(calls@.take(0)));
    while i < calls.len()
        invariant
            i <= calls@.len(),
            out@ == head + wire_calls(calls@.take(i as int)),
        decreases calls@.len() - i,
    {
        let args = json_args_to_gemma4_dsl(
            escape_gemma4_content(calls[i].arguments.as_str()).as_str(),
        );
        let mut text = cat3("<|tool_call>call:", calls[i].name.as_str(), "{");
        text.append(args.as_str());
        text.append("}<tool_call|>");
        proof {
            let upto = calls@.take(i + 1);
            assert(upto.drop_last() =~= calls@.take(i as int));
            assert(upto.last() == calls@[i as int]);
            assert(text@ == wire_call(calls@[i as int]));
        }
        out.append(text.as_str());
        assert(out@ =~= head + wire_calls(calls@.take(i + 1)));
        i += 1;
    }
    assert(calls@.take(calls@.len() as int) =~= calls@);
    out.append(escape_gemma4_content(m.content.as_str()).as_str());
    out.append("<turn|>\n");
    out
}

/// How a prompt is rendered.
#[derive(Debug)]
pub enum PromptSource {
    /// By the chat template of the tokenizer.
    Template,
    /// The text itself.
    Text(String),
}

/// Thinking was asked for without a chat template.
#[derive(Debug, Clone, Copy, PartialEq, Eq, Structural)]
pub struct ThinkingNeedsTemplate;

/// The message of a request for thinking without a chat template.
pub const THINKING_NEEDS_TEMPLATE: &'static str = "enable_thinking=true requires a chat template (not found in tokenizer_config.json or chat_template.jinja)";

impl ThinkingNeedsTemplate {
    /// The message shown to a caller.
    pub fn message(&self) -> (r: &'static str)
        ensures
            r@ == THINKING_NEEDS_TEMPLATE@,
    {
        THINKING_NEEDS_TEMPLATE
    }
}

/// How the prompt of a conversation is rendered.
pub fn render_prompt(
    has_chat_template: bool,
    enable_thinking: Option<bool>,
    messages: &Vec<ChatMessage>,
) -> (r: Result<PromptSource, ThinkingNeedsTemplate>)
    ensures
        if has_chat_template {
            r matches Ok(PromptSource::Template)
        } else if enable_thinking == Some(true) {
            r is Err
        } else {
            r matches Ok(PromptSource::Text(t)) && t@ == "<bos>"@ + wire_messages(messages@)
                + "<|turn>model\n"@
        },
{
    if has_chat_template {
        return Ok(PromptSource::Template);
    }
    match enable_thinking {
        Some(true) => Err(ThinkingNeedsTemplate),
        _ => Ok(PromptSource::Text(render_manual_prompt(messages))),
    }
}

/// What a user turn adds to a live session: it closes the line of the turn
/// before, and opens a model turn.
pub fn build_gemma4_continue_delta_text(sanitized_user: &str) -> (r: String)
    ensures
        r@ == "\n<|turn>user\n"@ + sanitized_user@ + "<turn|>\n<|turn>model\n"@,
{
    cat3("\n<|turn>user\n", sanitized_user, "<turn|>\n<|turn>model\n")
}

/// The content of a tool result, marked where the tool failed.
pub open spec fn marked(content: Seq<char>, marker: Seq<char>, is_error: Option<bool>) -> Seq<
    char,
> {
    if is_error == Some(true) {
        marker + content
    } else {
        content
    }
}

/// What a tool result adds to a live session. A result is told by its place,
/// so the id of the call is not rendered.
pub fn build_gemma4_tool_delta_text(content: &str, error_marker: &str, is_error: Option<bool>) -> (r:
    String)
    ensures
        r@ == "\n<|turn>tool\n"@ + escaped(marked(content@, error_marker@, is_error))
            + "<turn|>\n<|turn>model\n"@,
{
    let rendered: String = match is_error {
        Some(true) => cat(error_marker, content),
        _ => String::from_str(content),
    };
    let inner = escape_gemma4_content(rendered.as_str());
    cat3("\n<|turn>tool\n", inner.as_str(), "<turn|>\n<|turn>model\n")
}

/// A message is rendered in full, whatever it holds: its turn opens with its role,
/// then come its tool calls, then all of its escaped content, right before the turn
/// is closed; and nothing else.
pub proof fn law_message_is_rendered_in_full(m: ChatMessage)
    ensures
        ({
            let turn = wire_message(m);
            let open = "<|turn>"@ + wire_role(m.role@) + "\n"@;
            let close = escaped(m.content@) + "<turn|>\n"@;
            let calls = wire_calls(m.tool_calls@);
            &&& open.is_prefix_of(turn)
            &&& close.is_suffix_of(turn)
            &&& turn.subrange(open.len() as int, (open.len() + calls.len()) as int) == calls
            &&& turn.len() == open.len() + calls.len() + close.len()
        }),
        occurs_in(escaped(m.content@), wire_message(m)),
        (forall|i: int|
            0 <= i < control_tokens().len() ==> !occurs_in(
                #[trigger] control_tokens()[i],
                m.content@,
            )) ==> occurs_in(m.content@, wire_message(m)),
{
    let turn = wire_message(m);
    let open = "<|turn>"@ + wire_role(m.role@) + "\n"@;
    let calls = wire_calls(m.tool_calls@);
    let content = escaped(m.content@);
    let close = content + "<turn|>\n"@;
    assert(turn =~= open + calls + close);
    assert(open.is_prefix_of(turn));
    assert(turn.skip(turn.len() - close.len()) =~= close);
    assert(close.is_suffix_of(turn));
    assert(turn.subrange(open.len() as int, (open.len() + calls.len()) as int) =~= calls);
    let at = (open.len() + calls.len()) as int;
    assert(turn.subrange(at, at + content.len()) =~= content);
    assert(occurs_at(content, turn, at));
    if forall|i: int|
        0 <= i < control_tokens().len() ==> !occurs_in(#[trigger] control_tokens()[i], m.content@) {
        law_escape_keeps_plain_content(m.content@);
    }
}

/// Tool calls change nothing of a message but that they stand before its content:
/// without them the turn is the same, less their text.
pub proof fn law_tool_calls_stand_before_content(m: ChatMessage, plain: ChatMessage)
    requires
        plain.role@ == m.role@,
        plain.content@ == m.content@,
        plain.tool_calls@.len() == 0,
    ensures
        ({
            let open = ("<|turn>"@ + wire_role(m.role@) + "\n"@).len() as int;
            let calls = wire_calls(m.tool_calls@);
            wire_message(m) == wire_message(plain).take(open) + calls + wire_message(plain).skip(
                open,
            )
        }),
{
    let open = "<|turn>"@ + wire_role(m.role@) + "\n"@;
    let calls = wire_calls(m.tool_calls@);
    let close = escaped(m.content@) + "<turn|>\n"@;
    assert(wire_calls(plain.tool_calls@) == Seq::<char>::empty());
    assert(wire_message(plain) =~= open + close);
    assert(wire_message(plain).take(open.len() as int) =~= open);
    assert(wire_message(plain).skip(open.len() as int) =~= close);
    assert(wire_message(m) =~= open + calls + close);
}

/// An assistant speaks as the model and a developer as the system; every other role
/// keeps its name.
pub proof fn law_roles_of_a_prompt(role: Seq<char>)
    ensures
        wire_role("assistant"@) == "model"@,
        wire_role("developer"@) == "system"@,
        role != "assistant"@ && role != "developer"@ ==> wire_role(role) == role,
{
    reveal_strlit("assistant");
    reveal_strlit("developer");
    assert("assistant"@[0] == 'a' && "developer"@[0] == 'd');
}

/// Calls are rendered one after the other, each with its name and its arguments.
pub proof fn law_calls_are_rendered_in_order(a: Seq<ToolCall>, b: Seq<ToolCall>, call: ToolCall)
    ensures
        wire_calls(a + b) == wire_calls(a) + wire_calls(b),
        wire_calls(seq![call]) == "<|tool_call>call:"@ + call.name@ + "{"@ + dsl_args(
            escaped(call.arguments@),
        ) + "}<tool_call|>"@,
    decreases b.len(),
{
    let one = seq![call];
    assert(one.drop_last() =~= Seq::<ToolCall>::empty());
    assert(one.last() == call);
    assert(wire_calls(one.drop_last()) =~= Seq::<char>::empty());
    assert(wire_calls(one) =~= wire_call(call));
    if b.len() == 0 {
        assert(a + b =~= a);
        assert(wire_calls(a) + wire_calls(b) =~= wire_calls(a));
    } else {
        assert((a + b).drop_last() =~= a + b.drop_last());
        law_calls_are_rendered_in_order(a, b.drop_last(), call);
        assert(wire_calls(a + b) =~= wire_calls(a) + wire_calls(b));
    }
}

/// Messages are rendered one after the other, and each of them whatever stands
/// around it.
pub proof fn law_messages_are_rendered_in_order(
    a: Seq<ChatMessage>,
    b: Seq<ChatMessage>,
    m: ChatMessage,
)
    ensures
        wire_messages(a + b) == wire_messages(a) + wire_messages(b),
        wire_messages(seq![m]) == wire_message(m),
        wire_messages(Seq::empty()) == Seq::<char>::empty(),
    decreases b.len(),
{
    let one = seq![m];
    assert(one.drop_last() =~= Seq::<ChatMessage>::empty());
    assert(one.last() == m);
    assert(wire_messages(one.drop_last()) =~= Seq::<char>::empty());
    assert(wire_messages(one) =~= wire_message(m));
    if b.len() == 0 {
        assert(a + b =~= a);
        assert(wire_messages(a) + wire_messages(b) =~= wire_messages(a));
    } else {
        assert((a + b).drop_last() =~= a + b.drop_last());
        law_messages_are_rendered_in_order(a, b.drop_last(), m);
        assert(wire_messages(a + b) =~= wire_messages(a) + wire_messages(b));
    }
}

/// Values of a call: text between its marks, numbers and words bare.
pub proof fn law_plain_values_of_a_call(s: Seq<char>, n: NumberView)
    ensures
        dsl_value(JsonView::Str(s)) == "<|\"|>"@ + s + "<|\"|>"@,
        dsl_value(JsonView::Number(n)) == n.text,
        dsl_value(JsonView::Bool(true)) == "true"@,
        dsl_value(JsonView::Bool(false)) == "false"@,
        dsl_value(JsonView::Null) == "null"@,
{
}

/// Items of a list are rendered in order, with commas between them and brackets
/// around them.
#[verifier::rlimit(40)]
pub proof fn law_lists_of_a_call(items: Seq<JsonView>, v: JsonView)
    ensures
        dsl_value(JsonView::Array(Seq::empty())) == "[]"@,
        dsl_value(JsonView::Array(seq![v])) == "["@ + dsl_value(v) + "]"@,
        items.len() > 0 ==> dsl_value(JsonView::Array(items.push(v))) == dsl_value(
            JsonView::Array(items),
        ).drop_last() + ","@ + dsl_value(v) + "]"@,
{
    reveal_strlit("[");
    reveal_strlit("]");
    reveal_strlit("[]");
    reveal_with_fuel(dsl_value, 2);
    let none = Seq::<JsonView>::empty();
    assert(dsl_items(none) =~= Seq::<Seq<char>>::empty());
    assert(dsl_value(JsonView::Array(none)) =~= "[]"@);
    assert(seq![v].drop_last() =~= none);
    assert(dsl_items(seq![v]) =~= seq![dsl_value(v)]) by {
        reveal_with_fuel(dsl_items, 2);
        assert(seq![v].last() == v);
    }
    lemma_items_len(items);
    assert(items.push(v).drop_last() =~= items);
    assert(dsl_items(items.push(v)) == dsl_items(items).push(dsl_value(v)));
    if items.len() > 0 {
        law_joining(dsl_items(items), dsl_value(v), ","@);
        let before = dsl_value(JsonView::Array(items));
        assert(before == "["@ + joined(dsl_items(items), ","@) + "]"@);
        assert(before.drop_last() =~= "["@ + joined(dsl_items(items), ","@));
        assert(dsl_value(JsonView::Array(items.push(v))) == "["@ + joined(
            dsl_items(items.push(v)),
            ","@,
        ) + "]"@);
        assert(dsl_value(JsonView::Array(items.push(v))) =~= before.drop_last() + ","@ + dsl_value(
            v,
        ) + "]"@);
    }
}

/// Parts are joined in order, with the separator between them and nowhere else.
pub proof fn law_joining(parts: Seq<Seq<char>>, part: Seq<char>, sep: Seq<char>)
    ensures
        joined(Seq::empty(), sep) == Seq::<char>::empty(),
        joined(seq![part], sep) == part,
        parts.len() > 0 ==> joined(parts.push(part), sep) == joined(parts, sep) + sep + part,
{
    assert(parts.push(part).drop_last() =~= parts);
    assert(parts.push(part).last() == part);
}

/// Every member of an object is rendered once, as its name and its value with a colon
/// between them; members stand in the order of their names.
pub proof fn law_members_of_a_call(members: Seq<(Seq<char>, JsonView)>, i: int)
    ensures
        dsl_entries(members).len() == members.len(),
        0 <= i < members.len() ==> dsl_entries(members)[i] == (members[i].0, dsl_value(
            members[i].1,
        )),
        exists|e: Seq<(Seq<char>, Seq<char>)>|
            #![trigger in_key_order(e)]
            in_key_order(e) && e.to_multiset() == dsl_entries(members).to_multiset()
                && dsl_members(members) == joined(
                Seq::new(e.len(), |k: int| e[k].0 + ":"@ + e[k].1),
                ","@,
            ),
        dsl_value(JsonView::Object(members)) == "{"@ + dsl_members(members) + "}"@,
    decreases members.len(),
{
    if members.len() > 0 {
        law_members_of_a_call(members.drop_last(), i);
        if 0 <= i < members.len() - 1 {
            assert(members.drop_last()[i] == members[i]);
        }
    }
    law_by_key_sorts(dsl_entries(members));
    assert(in_key_order(by_key(dsl_entries(members))));
}

/// One member with a text for its value.
pub proof fn law_single_text_argument(key: Seq<char>, value: Seq<char>)
    ensures
        dsl_members(seq![(key, JsonView::Str(value))]) == key + ":"@ + "<|\"|>"@ + value
            + "<|\"|>"@,
        dsl_members(Seq::empty()) == Seq::<char>::empty(),
{
    let m = seq![(key, JsonView::Str(value))];
    let none = Seq::<(Seq<char>, JsonView)>::empty();
    assert(m.drop_last() =~= none);
    assert(m.last() == (key, JsonView::Str(value)));
    assert(dsl_entries(none) =~= Seq::<(Seq<char>, Seq<char>)>::empty());
    let e = dsl_entries(m);
    assert(e =~= seq![(key, dsl_value(JsonView::Str(value)))]);
    assert(e.drop_last() =~= Seq::<(Seq<char>, Seq<char>)>::empty());
    assert(by_key(e.drop_last()) =~= Seq::<(Seq<char>, Seq<char>)>::empty());
    assert(by_key(e) =~= e);
    let parts = Seq::new(by_key(e).len(), |i: int| by_key(e)[i].0 + ":"@ + by_key(e)[i].1);
    assert(parts.len() == 1);
    assert(joined(parts, ","@) =~= key + ":"@ + "<|\"|>"@ + value + "<|\"|>"@);
    let p0 = Seq::new(
        by_key(dsl_entries(none)).len(),
        |i: int| by_key(dsl_entries(none))[i].0 + ":"@ + by_key(dsl_entries(none))[i].1,
    );
    assert(p0 =~= Seq::<Seq<char>>::empty());
}

/// Arguments that are an object are rendered as its members; anything else is passed
/// on as it is.
pub proof fn law_arguments_of_a_call(text: Seq<char>, members: Seq<(Seq<char>, JsonView)>)
    ensures
        json_document(text) == Ok::<JsonView, Seq<char>>(JsonView::Object(members)) ==> dsl_args(
            text,
        ) == dsl_members(members),
        json_document(text) is Err ==> dsl_args(text) == text,
        json_document(text) is Ok && !(json_document(text)->Ok_0 is Object) ==> dsl_args(text)
            == text,
{
}

/// Names are ordered by the first character in which they differ; a name comes before
/// those that it begins.
pub proof fn law_order_of_names(common: Seq<char>, a: Seq<char>, b: Seq<char>)
    ensures
        a.len() == 0 && b.len() > 0 ==> lex_lt(common + a, common + b),
        a.len() > 0 && b.len() > 0 && a[0] < b[0] ==> lex_lt(common + a, common + b) && !lex_lt(
            common + b,
            common + a,
        ),
        !lex_lt(common, common),
    decreases common.len(),
{
    if common.len() > 0 {
        let rest = common.skip(1);
        law_order_of_names(rest, a, b);
        assert((common + a).skip(1) =~= rest + a);
        assert((common + b).skip(1) =~= rest + b);
        assert((common + a)[0] == (common + b)[0]);
    } else {
        assert(common + a =~= a);
        assert(common + b =~= b);
    }
}

/// A failed tool result has the mark in front of it, and every other result is as it
/// came.
pub proof fn law_mark_of_a_failed_tool(content: Seq<char>, marker: Seq<char>)
    ensures
        marked(content, marker, Some(true)) == marker + content,
        marked(content, marker, Some(false)) == content,
        marked(content, marker, None) == content,
{
}

/// Escaped content holds none of the tokens that structure a conversation.
pub proof fn law_structure_is_taken_out(s: Seq<char>)
    ensures
        !occurs_in("<|turn>"@, escaped(s)),
        !occurs_in("<turn|>"@, escaped(s)),
        !occurs_in("<|tool_call>"@, escaped(s)),
        !occurs_in("<tool_call|>"@, escaped(s)),
        !occurs_in("<|tool_response>"@, escaped(s)),
        !occurs_in("<tool_response|>"@, escaped(s)),
        !occurs_in("<|tool>"@, escaped(s)),
        !occurs_in("<tool|>"@, escaped(s)),
        !occurs_in("<|channel>"@, escaped(s)),
        !occurs_in("<channel|>"@, escaped(s)),
        !occurs_in("<|think|>"@, escaped(s)),
{
    assert(control_tokens()[0] == "<|turn>"@);
    law_escaped_holds_no_token(s, 0);
    assert(control_tokens()[1] == "<turn|>"@);
    law_escaped_holds_no_token(s, 1);
    assert(control_tokens()[2] == "<|tool_call>"@);
    law_escaped_holds_no_token(s, 2);
    assert(control_tokens()[3] == "<tool_call|>"@);
    law_escaped_holds_no_token(s, 3);
    assert(control_tokens()[4] == "<|tool_response>"@);
    law_escaped_holds_no_token(s, 4);
    assert(control_tokens()[5] == "<tool_response|>"@);
    law_escaped_holds_no_token(s, 5);
    assert(control_tokens()[6] == "<|tool>"@);
    law_escaped_holds_no_token(s, 6);
    assert(control_tokens()[7] == "<tool|>"@);
    law_escaped_holds_no_token(s, 7);
    assert(control_tokens()[8] == "<|channel>"@);
    law_escaped_holds_no_token(s, 8);
    assert(control_tokens()[9] == "<channel|>"@);
    law_escaped_holds_no_token(s, 9);
    assert(control_tokens()[10] == "<|think|>"@);
    law_escaped_holds_no_token(s, 10);
}

/// Content without any token that structures a conversation is kept as it is.
pub proof fn law_content_without_structure_is_kept(s: Seq<char>)
    requires
        !occurs_in("<|turn>"@, s),
        !occurs_in("<turn|>"@, s),
        !occurs_in("<|tool_call>"@, s),
        !occurs_in("<tool_call|>"@, s),
        !occurs_in("<|tool_response>"@, s),
        !occurs_in("<tool_response|>"@, s),
        !occurs_in("<|tool>"@, s),
        !occurs_in("<tool|>"@, s),
        !occurs_in("<|channel>"@, s),
        !occurs_in("<channel|>"@, s),
        !occurs_in("<|think|>"@, s),
    ensures
        escaped(s) == s,
{
    assert forall|i: int| 0 <= i < control_tokens().len() implies !occurs_in(
        #[trigger] control_tokens()[i],
        s,
    ) by {
        assert(i == 0 || i == 1 || i == 2 || i == 3 || i == 4 || i == 5 || i == 6 || i == 7 || i == 8
            || i == 9 || i == 10);
    }
    law_escape_keeps_plain_content(s);
}

/// A token closes at its end and nowhere before.
proof fn lemma_tokens_close_once(i: int)
    requires
        0 <= i < control_tokens().len(),
    ensures
        control_tokens()[i].last() == '>',
        forall|k: int|
            0 <= k < control_tokens()[i].len() - 1 ==> #[trigger] control_tokens()[i][k] != '>',
{
    reveal_strlit("<|turn>");
    reveal_strlit("<turn|>");
    reveal_strlit("<|tool_call>");
    reveal_strlit("<tool_call|>");
    reveal_strlit("<|tool_response>");
    reveal_strlit("<tool_response|>");
    reveal_strlit("<|tool>");
    reveal_strlit("<tool|>");
    reveal_strlit("<|channel>");
    reveal_strlit("<channel|>");
    reveal_strlit("<|think|>");
    assert(i == 0 || i == 1 || i == 2 || i == 3 || i == 4 || i == 5 || i == 6 || i == 7 || i == 8
        || i == 9 || i == 10);
}

/// A token is taken out of content and leaves what is around it.
pub proof fn law_token_is_taken_out_alone(front: Seq<char>, i: int, back: Seq<char>)
    requires
        0 <= i < control_tokens().len(),
        forall|k: int| 0 <= k < front.len() ==> #[trigger] front[k] != '<',
        forall|k: int| 0 <= k < back.len() ==> #[trigger] back[k] != '<',
    ensures
        escaped(front + control_tokens()[i] + back) == front + back,
{
    let t = control_tokens()[i];
    assert(front + t + back =~= front + (t + back));
    law_escape_keeps_text_in_front(front, t + back);
    lemma_pass_takes_token(i, back, control_tokens().len() as int);
    assert(control_tokens().take(control_tokens().len() as int) =~= control_tokens());
    lemma_tokens_open_once(i);
    assert forall|k: int| 0 <= k < control_tokens().len() implies !occurs_in(
        #[trigger] control_tokens()[k],
        back,
    ) by {
        lemma_tokens_open_once(k);
        lemma_no_token_without_opening(back, control_tokens()[k]);
    }
    law_escape_keeps_plain_content(back);
}

proof fn lemma_no_token_without_opening(s: Seq<char>, p: Seq<char>)
    requires
        forall|k: int| 0 <= k < s.len() ==> #[trigger] s[k] != '<',
        p.len() > 0,
        p[0] == '<',
    ensures
        !occurs_in(p, s),
{
    assert forall|j: int| !occurs_at(p, s, j) by {
        if occurs_at(p, s, j) {
            assert(s.subrange(j, j + p.len())[0] == s[j]);
        }
    }
}

#[verifier::rlimit(40)]
proof fn lemma_pass_takes_token(i: int, back: Seq<char>, n: int)
    requires
        0 <= i < control_tokens().len(),
        0 <= n <= control_tokens().len(),
        forall|k: int| 0 <= k < back.len() ==> #[trigger] back[k] != '<',
    ensures
        without_all(control_tokens()[i] + back, control_tokens().take(n)) == if i < n {
            back
        } else {
            control_tokens()[i] + back
        },
    decreases n,
{
    let t = control_tokens()[i];
    if n > 0 {
        lemma_pass_takes_token(i, back, n - 1);
        let list = control_tokens().take(n);
        assert(list.drop_last() =~= control_tokens().take(n - 1));
        let p = control_tokens()[n - 1];
        assert(list.last() == p);
        lemma_tokens_open_once(n - 1);
        lemma_tokens_open_once(i);
        lemma_tokens_close_once(n - 1);
        lemma_tokens_close_once(i);
        if i < n - 1 {
            lemma_no_token_without_opening(back, p);
            lemma_without_absent(back, p);
        } else if i == n - 1 {
            assert(p.is_prefix_of(t + back));
            assert((t + back).skip(p.len() as int) =~= back);
            lemma_no_token_without_opening(back, p);
            lemma_without_absent(back, p);
        } else {
            lemma_tokens_differ(i, n - 1);
            assert forall|j: int| !occurs_at(p, t + back, j) by {
                if occurs_at(p, t + back, j) {
                    let found = (t + back).subrange(j, j + p.len());
                    assert(found[0] == (t + back)[j]);
                    if j > 0 {
                        if j < t.len() {
                            assert((t + back)[j] == t[j]);
                        } else {
                            assert((t + back)[j] == back[j - t.len()]);
                        }
                    } else if p.len() < t.len() {
                        assert(found[p.len() - 1] == t[p.len() - 1]);
                    } else if p.len() > t.len() {
                        assert(found[t.len() - 1] == t[t.len() - 1]);
                        assert(p[t.len() - 1] != '>');
                    } else {
                        assert(found =~= t);
                    }
                }
            }
            lemma_without_absent(t + back, p);
        }
    } else {
        assert(control_tokens().take(0) =~= Seq::<Seq<char>>::empty());
    }
}

#[verifier::rlimit(40)]
proof fn lemma_tokens_differ(i: int, j: int)
    requires
        0 <= j < i < control_tokens().len(),
    ensures
        control_tokens()[i] != control_tokens()[j],
{
    reveal_strlit("<|turn>");
    reveal_strlit("<turn|>");
    reveal_strlit("<|tool_call>");
    reveal_strlit("<tool_call|>");
    reveal_strlit("<|tool_response>");
    reveal_strlit("<tool_response|>");
    reveal_strlit("<|tool>");
    reveal_strlit("<tool|>");
    reveal_strlit("<|channel>");
    reveal_strlit("<channel|>");
    reveal_strlit("<|think|>");
    assert("<|turn>"@.len() == 7);
    assert("<|turn>"@[1] == '|');
    assert("<|turn>"@[2] == 't');
    assert("<turn|>"@.len() == 7);
    assert("<turn|>"@[1] == 't');
    assert("<turn|>"@[2] == 'u');
    assert("<|tool_call>"@.len() == 12);
    assert("<|tool_call>"@[1] == '|');
    assert("<|tool_call>"@[2] == 't');
    assert("<tool_call|>"@.len() == 12);
    assert("<tool_call|>"@[1] == 't');
    assert("<tool_call|>"@[2] == 'o');
    assert("<|tool_response>"@.len() == 16);
    assert("<|tool_response>"@[1] == '|');
    assert("<|tool_response>"@[2] == 't');
    assert("<tool_response|>"@.len() == 16);
    assert("<tool_response|>"@[1] == 't');
    assert("<tool_response|>"@[2] == 'o');
    assert("<|tool>"@.len() == 7);
    assert("<|tool>"@[1] == '|');
    assert("<|tool>"@[2] == 't');
    assert("<tool|>"@.len() == 7);
    assert("<tool|>"@[1] == 't');
    assert("<tool|>"@[2] == 'o');
    assert("<|channel>"@.len() == 10);
    assert("<|channel>"@[1] == '|');
    assert("<|channel>"@[2] == 'c');
    assert("<channel|>"@.len() == 10);
    assert("<channel|>"@[1] == 'c');
    assert("<channel|>"@[2] == 'h');
    assert("<|think|>"@.len() == 9);
    assert("<|think|>"@[1] == '|');
    assert("<|think|>"@[2] == 't');
    assert("<tool|>"@[5] == '|');
    assert("<|tool>"@[5] == 'l');
    assert(i == 0 || i == 1 || i == 2 || i == 3 || i == 4 || i == 5 || i == 6 || i == 7 || i == 8
        || i == 9 || i == 10);
    assert(j == 0 || j == 1 || j == 2 || j == 3 || j == 4 || j == 5 || j == 6 || j == 7 || j == 8
        || j == 9 || j == 10);
}

} // verus!
