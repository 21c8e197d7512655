//! GatCHPT, the built-in fake LLM upstream: it "thinks" at length and then
//! refuses every request. This module holds its routing decision, the
//! tokenizer that paces its output, the reading of the last user message,
//! the refusal text and the exact sequence of events that it answers with.

use vstd::prelude::*;
use crate::json::{
    json_as_array, json_as_bool, json_as_str, json_content, json_get, json_number_text, json_parse,
    json_text, json_to_text, object_value, parse_json, JsonView,
};
use crate::text::{
    chars_of, concat, ends_with, is_ascii_char, is_prefix, is_space, is_space_exec, is_suffix, join,
    occurs_at_exec, push_char, str_eq, string_of, string_of_all, trim, trim_space, views,
};

verus! {

/// The model name that GatCHPT answers under.
pub const MODEL: &'static str = "gatchpt";

/// A model URI is GatCHPT when it is `gatchpt` itself or ends in `/gatchpt`.
pub open spec fn gatchpt_base(base: Seq<char>) -> bool {
    base == "gatchpt"@ || is_suffix("/gatchpt"@, base)
}

/// Whether requests for `base` go to GatCHPT instead of leaving the server.
pub fn is_gatchpt_base(base: &str) -> (r: bool)
    ensures
        r == gatchpt_base(base@),
{
    str_eq(base, MODEL) || ends_with(&chars_of(base), &chars_of("/gatchpt"))
}

/// The wire protocol of a request.
#[derive(Clone, Copy, Debug, PartialEq, Eq)]
pub enum Proto {
    OpenAi,
    Anthropic,
}

/// The protocol that an endpoint path speaks: Anthropic messages, OpenAI
/// chat completions, or none (the endpoint is not served).
pub open spec fn path_proto(path: Seq<char>) -> Option<Proto> {
    if is_suffix("/v1/messages"@, path) {
        Some(Proto::Anthropic)
    } else if is_suffix("/v1/chat/completions"@, path) {
        Some(Proto::OpenAi)
    } else {
        None
    }
}

/// Whatever comes before: a path ending in `/v1/messages` speaks the
/// Anthropic protocol and one ending in `/v1/chat/completions` the OpenAI
/// one; a base ending in `/gatchpt`, or `gatchpt` itself, is GatCHPT's.
pub proof fn lemma_endpoints(prefix: Seq<char>)
    ensures
        path_proto(prefix + "/v1/messages"@) == Some(Proto::Anthropic),
        path_proto(prefix + "/v1/chat/completions"@) == Some(Proto::OpenAi),
        gatchpt_base(prefix + "/gatchpt"@),
        gatchpt_base("gatchpt"@),
{
    reveal_strlit("/v1/messages");
    reveal_strlit("/v1/chat/completions");
    let a = prefix + "/v1/messages"@;
    assert(a.skip(a.len() - "/v1/messages"@.len()) =~= "/v1/messages"@);
    let b = prefix + "/v1/chat/completions"@;
    assert(b.skip(b.len() - "/v1/chat/completions"@.len()) =~= "/v1/chat/completions"@);
    let g = prefix + "/gatchpt"@;
    assert(g.skip(g.len() - "/gatchpt"@.len()) =~= "/gatchpt"@);
    if is_suffix("/v1/messages"@, b) {
        let m = "/v1/messages"@;
        assert(b[b.len() - 9] == m[m.len() - 9]);
    }
}

/// The protocol of the endpoint at `path`; `None` for an unsupported endpoint.
pub fn proto_for_path(path: &str) -> (r: Option<Proto>)
    ensures
        r == path_proto(path@),
{
    let p = chars_of(path);
    if ends_with(&p, &chars_of("/v1/messages")) {
        Some(Proto::Anthropic)
    } else if ends_with(&p, &chars_of("/v1/chat/completions")) {
        Some(Proto::OpenAi)
    } else {
        None
    }
}

// ---------- tokenizer ----------

/// Where the tokenizer stands after a prefix of its input.
pub struct TokState {
    pub out: Seq<Seq<char>>,
    pub cur: Seq<char>,
    pub wide: bool,
}

/// One character of the tokenizer: a change between ASCII and non-ASCII
/// closes the current token; ASCII whitespace ends a word token; a
/// non-ASCII token holds two characters.
pub open spec fn tok_step(st: TokState, c: char) -> TokState {
    let wide = !is_ascii_char(c);
    let split = st.cur.len() > 0 && wide != st.wide;
    let out1 = if split {
        st.out.push(st.cur)
    } else {
        st.out
    };
    let cur1 = if split {
        seq![]
    } else {
        st.cur
    };
    let cur2 = cur1.push(c);
    if (wide && cur2.len() >= 2) || (!wide && is_space(c)) {
        TokState { out: out1.push(cur2), cur: seq![], wide }
    } else {
        TokState { out: out1, cur: cur2, wide }
    }
}

pub open spec fn tok_run(s: Seq<char>) -> TokState
    decreases s.len(),
{
    if s.len() == 0 {
        TokState { out: seq![], cur: seq![], wide: false }
    } else {
        tok_step(tok_run(s.drop_last()), s.last())
    }
}

/// The simulated tokens of `s`.
pub open spec fn tokens(s: Seq<char>) -> Seq<Seq<char>> {
    let st = tok_run(s);
    if st.cur.len() > 0 {
        st.out.push(st.cur)
    } else {
        st.out
    }
}

proof fn lemma_concat_push(parts: Seq<Seq<char>>, p: Seq<char>)
    ensures
        concat(parts.push(p)) == concat(parts) + p,
{
    assert(parts.push(p).drop_last() == parts);
}

proof fn lemma_tok_run(s: Seq<char>)
    ensures
        concat(tok_run(s).out) + tok_run(s).cur == s,
        forall|i: int| 0 <= i < tok_run(s).out.len() ==> (#[trigger] tok_run(s).out[i]).len() > 0,
    decreases s.len(),
{
    if s.len() > 0 {
        let prev = s.drop_last();
        lemma_tok_run(prev);
        let st = tok_run(prev);
        let c = s.last();
        let wide = !is_ascii_char(c);
        let split = st.cur.len() > 0 && wide != st.wide;
        lemma_concat_push(st.out, st.cur);
        let out1 = if split {
            st.out.push(st.cur)
        } else {
            st.out
        };
        let cur1 = if split {
            seq![]
        } else {
            st.cur
        };
        assert(concat(out1) + cur1 == prev);
        lemma_concat_push(out1, cur1.push(c));
        assert(s =~= prev.push(c));
        assert(concat(out1) + cur1.push(c) =~= (concat(out1) + cur1).push(c));
    }
}

/// Joining the tokens of `s` gives `s` back, and no token is empty.
pub proof fn lemma_tokens_concat(s: Seq<char>)
    ensures
        concat(tokens(s)) == s,
        forall|i: int| 0 <= i < tokens(s).len() ==> (#[trigger] tokens(s)[i]).len() > 0,
{
    lemma_tok_run(s);
    let st = tok_run(s);
    if st.cur.len() > 0 {
        lemma_concat_push(st.out, st.cur);
    } else {
        assert(st.cur =~= Seq::<char>::empty());
        assert(concat(st.out) + st.cur =~= concat(st.out));
    }
}

/// A simulated token: one or two non-ASCII characters, or ASCII
/// characters with whitespace at most as the last.
pub open spec fn token_shape(t: Seq<char>) -> bool {
    ||| (1 <= t.len() <= 2 && forall|j: int| 0 <= j < t.len() ==> !is_ascii_char(#[trigger] t[j]))
    ||| (t.len() >= 1 && (forall|j: int| 0 <= j < t.len() ==> is_ascii_char(#[trigger] t[j]))
        && forall|j: int| 0 <= j < t.len() - 1 ==> !is_space(#[trigger] t[j]))
}

/// What the tokenizer keeps: the tokens it closed have their shape, and the
/// open one is a single non-ASCII character or ASCII without whitespace.
pub open spec fn tok_state_shaped(st: TokState) -> bool {
    &&& forall|i: int| 0 <= i < st.out.len() ==> token_shape(#[trigger] st.out[i])
    &&& st.cur.len() > 0 && st.wide ==> st.cur.len() == 1 && !is_ascii_char(st.cur[0])
    &&& st.cur.len() > 0 && !st.wide ==> forall|j: int|
        0 <= j < st.cur.len() ==> is_ascii_char(#[trigger] st.cur[j]) && !is_space(st.cur[j])
}

proof fn lemma_tok_run_shaped(s: Seq<char>)
    ensures
        tok_state_shaped(tok_run(s)),
    decreases s.len(),
{
    if s.len() > 0 {
        let prev = s.drop_last();
        lemma_tok_run_shaped(prev);
        let st = tok_run(prev);
        let c = s.last();
        let wide = !is_ascii_char(c);
        let split = st.cur.len() > 0 && wide != st.wide;
        if split {
            assert(token_shape(st.cur));
        }
        let out1 = if split {
            st.out.push(st.cur)
        } else {
            st.out
        };
        let cur1: Seq<char> = if split {
            seq![]
        } else {
            st.cur
        };
        let cur2 = cur1.push(c);
        assert forall|i: int| 0 <= i < out1.len() implies token_shape(#[trigger] out1[i]) by {
            if i < st.out.len() {
                assert(out1[i] == st.out[i]);
            }
        }
        if (wide && cur2.len() >= 2) || (!wide && is_space(c)) {
            assert(token_shape(cur2)) by {
                if !wide {
                    assert forall|j: int| 0 <= j < cur2.len() - 1 implies !is_space(#[trigger] cur2[j]) by {
                        assert(cur2[j] == cur1[j]);
                    }
                    assert forall|j: int| 0 <= j < cur2.len() implies is_ascii_char(#[trigger] cur2[j]) by {
                        if j < cur1.len() {
                            assert(cur2[j] == cur1[j]);
                        }
                    }
                } else {
                    assert forall|j: int| 0 <= j < cur2.len() implies !is_ascii_char(#[trigger] cur2[j]) by {
                        if j < cur1.len() {
                            assert(cur2[j] == cur1[j]);
                        }
                    }
                }
            }
            let out2 = out1.push(cur2);
            assert forall|i: int| 0 <= i < out2.len() implies token_shape(#[trigger] out2[i]) by {
                if i < out1.len() {
                    assert(out2[i] == out1[i]);
                }
            }
        } else {
            if !wide {
                assert forall|j: int| 0 <= j < cur2.len() implies is_ascii_char(#[trigger] cur2[j])
                    && !is_space(cur2[j]) by {
                    if j < cur1.len() {
                        assert(cur2[j] == cur1[j]);
                    }
                }
            }
        }
    }
}

/// A token is closed by its own end: ASCII ending in whitespace, or two
/// non-ASCII characters.
pub open spec fn self_closed(a: Seq<char>) -> bool {
    if is_ascii_char(a[a.len() - 1]) {
        is_space(a[a.len() - 1])
    } else {
        a.len() == 2
    }
}

/// Token `b` may follow token `a`: `a` is closed by its own end, or `b`
/// starts a run of the other kind (ASCII after non-ASCII or the reverse).
pub open spec fn may_follow(a: Seq<char>, b: Seq<char>) -> bool {
    self_closed(a) || is_ascii_char(a[a.len() - 1]) != is_ascii_char(b[0])
}

pub open spec fn tok_state_maximal(st: TokState) -> bool {
    &&& forall|i: int, j: int|
        0 <= i && j == i + 1 && j < st.out.len() ==> may_follow(
            #[trigger] st.out[i],
            #[trigger] st.out[j],
        )
    &&& st.out.len() > 0 && st.cur.len() > 0 ==> may_follow(st.out[st.out.len() - 1], st.cur)
    &&& st.out.len() > 0 && st.cur.len() == 0 ==> self_closed(st.out[st.out.len() - 1])
}

proof fn lemma_push_pairs(out: Seq<Seq<char>>, t: Seq<char>)
    requires
        forall|i: int, j: int|
            0 <= i && j == i + 1 && j < out.len() ==> may_follow(#[trigger] out[i], #[trigger] out[j]),
        out.len() > 0 ==> may_follow(out[out.len() - 1], t),
    ensures
        forall|i: int, j: int|
            0 <= i && j == i + 1 && j < out.push(t).len() ==> may_follow(
                #[trigger] out.push(t)[i],
                #[trigger] out.push(t)[j],
            ),
{
    let o2 = out.push(t);
    assert forall|i: int, j: int| 0 <= i && j == i + 1 && j < o2.len() implies may_follow(
        #[trigger] o2[i],
        #[trigger] o2[j],
    ) by {
        assert(o2[i] == out[i]);
        if j < out.len() {
            assert(o2[j] == out[j]);
        }
    }
}

proof fn lemma_tok_run_maximal(s: Seq<char>)
    ensures
        tok_state_maximal(tok_run(s)),
    decreases s.len(),
{
    if s.len() > 0 {
        let prev = s.drop_last();
        lemma_tok_run_maximal(prev);
        lemma_tok_run_shaped(prev);
        lemma_tok_run(prev);
        let st = tok_run(prev);
        let c = s.last();
        let wide = !is_ascii_char(c);
        let split = st.cur.len() > 0 && wide != st.wide;
        let out1 = if split {
            st.out.push(st.cur)
        } else {
            st.out
        };
        let cur1: Seq<char> = if split {
            seq![]
        } else {
            st.cur
        };
        let cur2 = cur1.push(c);
        if st.cur.len() > 0 {
            assert(is_ascii_char(st.cur[0]) == !st.wide);
            assert(is_ascii_char(st.cur[st.cur.len() - 1]) == !st.wide);
        }
        if split {
            lemma_push_pairs(st.out, st.cur);
            assert(out1[out1.len() - 1] == st.cur);
            assert(may_follow(st.cur, cur2));
        } else if st.cur.len() > 0 {
            assert(cur2[0] == st.cur[0]);
        }
        if (wide && cur2.len() >= 2) || (!wide && is_space(c)) {
            if out1.len() > 0 {
                assert(may_follow(out1[out1.len() - 1], cur2));
            }
            lemma_push_pairs(out1, cur2);
            let out2 = out1.push(cur2);
            assert(out2[out2.len() - 1] == cur2);
            if wide {
                assert(cur1.len() <= 1);
            }
            assert(self_closed(cur2));
        } else {
            if out1.len() > 0 {
                assert(may_follow(out1[out1.len() - 1], cur2));
            }
        }
    }
}

/// The tokenizer cuts no more than it must: a token is followed by another
/// only where it closes by its own end (ASCII whitespace, or a second
/// non-ASCII character) or where the next token is of the other kind.
pub proof fn lemma_tokens_maximal(s: Seq<char>)
    ensures
        forall|i: int, j: int|
            0 <= i && j == i + 1 && j < tokens(s).len() ==> may_follow(
                #[trigger] tokens(s)[i],
                #[trigger] tokens(s)[j],
            ),
{
    lemma_tok_run_maximal(s);
    lemma_tok_run(s);
    let st = tok_run(s);
    if st.cur.len() > 0 {
        lemma_push_pairs(st.out, st.cur);
    }
}

/// Every simulated token is one or two non-ASCII characters, or an ASCII
/// word with whitespace at most as its last character.
pub proof fn lemma_token_shapes(s: Seq<char>)
    ensures
        forall|i: int| 0 <= i < tokens(s).len() ==> token_shape(#[trigger] tokens(s)[i]),
{
    lemma_tok_run_shaped(s);
    let st = tok_run(s);
    if st.cur.len() > 0 {
        assert(token_shape(st.cur));
        let t = st.out.push(st.cur);
        assert forall|i: int| 0 <= i < t.len() implies token_shape(#[trigger] t[i]) by {
            if i < st.out.len() {
                assert(t[i] == st.out[i]);
            }
        }
    }
}

/// Splits `text` into simulated tokens: ASCII by word (trailing whitespace
/// included), non-ASCII two characters at a time. Joined, they give `text`.
pub fn tokenize(text: &str) -> (r: Vec<String>)
    ensures
        views(r@) == tokens(text@),
        concat(views(r@)) == text@,
{
    let cs = chars_of(text);
    let mut out: Vec<String> = Vec::new();
    let mut cur: Vec<char> = Vec::new();
    let mut cur_wide = false;
    let mut i: usize = 0;
    assert(cs@.take(0) =~= Seq::<char>::empty());
    while i < cs.len()
        invariant
            cs@ == text@,
            i <= cs@.len(),
            views(out@) == tok_run(cs@.take(i as int)).out,
            cur@ == tok_run(cs@.take(i as int)).cur,
            cur_wide == tok_run(cs@.take(i as int)).wide,
        decreases cs@.len() - i,
    {
        let c = cs[i];
        assert(cs@.take(i + 1).drop_last() == cs@.take(i as int));
        assert(cs@.take(i + 1).last() == c);
        let wide = !(c < '\u{80}');
        if cur.len() > 0 && wide != cur_wide {
            let t = string_of_all(&cur);
            let ghost o = views(out@);
            out.push(t);
            assert(views(out@) =~= o.push(t@));
            cur = Vec::new();
        }
        cur_wide = wide;
        cur.push(c);
        if (wide && cur.len() >= 2) || (!wide && is_space_exec(c)) {
            let t = string_of_all(&cur);
            let ghost o = views(out@);
            out.push(t);
            assert(views(out@) =~= o.push(t@));
            cur = Vec::new();
        }
        i += 1;
    }
    assert(cs@.take(cs@.len() as int) == cs@);
    if cur.len() > 0 {
        let t = string_of_all(&cur);
        let ghost o = views(out@);
        out.push(t);
        assert(views(out@) =~= o.push(t@));
    } else {
        assert(cur@ =~= Seq::<char>::empty());
    }
    proof {
        lemma_tokens_concat(text@);
    }
    out
}


// ---------- the last user message ----------

/// The content of a chat message as the request gives it.
#[derive(Clone, Debug)]
pub enum Content {
    /// A plain string.
    Text(String),
    /// An array of content blocks, each with its `text` when it has a
    /// string one.
    Blocks(Vec<Option<String>>),
    /// Anything else.
    Other,
}

/// A chat message of a request: its `role` when that is a string, and its content.
#[derive(Clone, Debug)]
pub struct Message {
    pub role: Option<String>,
    pub content: Content,
}

pub enum ContentView {
    Text(Seq<char>),
    Blocks(Seq<Option<Seq<char>>>),
    Other,
}

pub struct MessageView {
    pub role: Option<Seq<char>>,
    pub content: ContentView,
}

pub open spec fn opt_str_view(o: Option<String>) -> Option<Seq<char>> {
    match o {
        Some(s) => Some(s@),
        None => None,
    }
}

impl View for Content {
    type V = ContentView;

    open spec fn view(&self) -> ContentView {
        match self {
            Content::Text(s) => ContentView::Text(s@),
            Content::Blocks(b) => ContentView::Blocks(b@.map_values(|o: Option<String>| opt_str_view(o))),
            Content::Other => ContentView::Other,
        }
    }
}

impl View for Message {
    type V = MessageView;

    open spec fn view(&self) -> MessageView {
        MessageView { role: opt_str_view(self.role), content: self.content@ }
    }
}

/// The texts that are present, in order.
pub open spec fn present(bs: Seq<Option<Seq<char>>>) -> Seq<Seq<char>>
    decreases bs.len(),
{
    if bs.len() == 0 {
        seq![]
    } else {
        let rest = present(bs.drop_last());
        match bs.last() {
            Some(t) => rest.push(t),
            None => rest,
        }
    }
}

/// The text of a message: a string as it is, the texts of blocks joined by
/// line feeds, nothing otherwise.
pub open spec fn message_text(c: ContentView) -> Seq<char> {
    match c {
        ContentView::Text(s) => s,
        ContentView::Blocks(bs) => join(present(bs), "\n"@),
        ContentView::Other => seq![],
    }
}

/// The last message whose role is `user`.
pub open spec fn last_user(ms: Seq<MessageView>) -> Option<MessageView>
    decreases ms.len(),
{
    if ms.len() == 0 {
        None
    } else if ms.last().role == Some("user"@) {
        Some(ms.last())
    } else {
        last_user(ms.drop_last())
    }
}

/// The question that GatCHPT pretends to ponder: the trimmed text of the
/// last user message, or `(empty)` when that is empty or missing.
pub open spec fn user_question(ms: Option<Seq<MessageView>>) -> Seq<char> {
    let raw = match ms {
        Some(ms) => match last_user(ms) {
            Some(m) => message_text(m.content),
            None => seq![],
        },
        None => seq![],
    };
    if trim_space(raw).len() == 0 {
        "(empty)"@
    } else {
        trim_space(raw)
    }
}

/// The message pondered is the last one whose role is `user`: none when no
/// message has that role, else the one with that role after which no
/// message has it.
pub proof fn lemma_last_user_exact(ms: Seq<MessageView>)
    ensures
        (forall|k: int| 0 <= k < ms.len() ==> (#[trigger] ms[k]).role != Some("user"@))
            ==> last_user(ms) is None,
        forall|k: int|
            0 <= k < ms.len() && (#[trigger] ms[k]).role == Some("user"@) && (forall|m: int|
                k < m < ms.len() ==> ms[m].role != Some("user"@)) ==> last_user(ms) == Some(ms[k]),
    decreases ms.len(),
{
    if ms.len() > 0 {
        let d = ms.drop_last();
        lemma_last_user_exact(d);
        assert forall|k: int| 0 <= k < d.len() implies #[trigger] d[k] == ms[k] by {}
        if ms.last().role != Some("user"@) {
            assert forall|k: int|
                0 <= k < ms.len() && (#[trigger] ms[k]).role == Some("user"@) && (forall|m: int|
                    k < m < ms.len() ==> ms[m].role != Some("user"@)) implies last_user(ms) == Some(
                ms[k],
            ) by {
                assert(d[k] == ms[k]);
                assert forall|m: int| k < m < d.len() implies d[m].role != Some("user"@) by {
                    assert(d[m] == ms[m]);
                }
            }
            if forall|k: int| 0 <= k < ms.len() ==> (#[trigger] ms[k]).role != Some("user"@) {
                assert forall|k: int| 0 <= k < d.len() implies (#[trigger] d[k]).role != Some(
                    "user"@,
                ) by {
                    assert(d[k] == ms[k]);
                }
            }
        } else {
            assert forall|k: int|
                0 <= k < ms.len() && (#[trigger] ms[k]).role == Some("user"@) && (forall|m: int|
                    k < m < ms.len() ==> ms[m].role != Some("user"@)) implies last_user(ms) == Some(
                ms[k],
            ) by {
                if k < ms.len() - 1 {
                    assert(ms[ms.len() - 1].role == Some("user"@));
                }
            }
        }
    }
}

/// The quotation of a question: the question itself up to forty
/// characters; beyond that its first forty characters and `...`.
pub proof fn lemma_snippet_exact(q: Seq<char>)
    ensures
        q.len() <= 40 ==> snippet(q) == q,
        q.len() > 40 ==> snippet(q).len() == 43 && (forall|k: int|
            0 <= k < 40 ==> #[trigger] snippet(q)[k] == q[k]) && snippet(q)[40] == '.' && snippet(
            q,
        )[41] == '.' && snippet(q)[42] == '.',
{
    reveal_strlit("...");
}

pub open spec fn messages_view(ms: Seq<Message>) -> Seq<MessageView> {
    ms.map_values(|m: Message| m@)
}

/// The parts joined with `sep` between neighbours (`[String]::join`).
pub fn join_strings(parts: &Vec<String>, sep: &str) -> (r: String)
    ensures
        r@ == join(views(parts@), sep@),
{
    let ghost v = views(parts@);
    let mut out = String::new();
    let mut i: usize = 0;
    while i < parts.len()
        invariant
            v == views(parts@),
            i <= parts@.len(),
            out@ == join(v.take(i as int), sep@),
        decreases parts@.len() - i,
    {
        assert(v.take(i + 1).drop_last() == v.take(i as int));
        assert(v.take(i + 1).last() == parts@[i as int]@);
        if i != 0 {
            out.append(sep);
        } else {
            assert(v.take(1).len() == 1);
        }
        out.append(parts[i].as_str());
        i += 1;
    }
    assert(v.take(parts@.len() as int) == v);
    out
}

fn present_texts(bs: &Vec<Option<String>>) -> (r: Vec<String>)
    ensures
        views(r@) == present(bs@.map_values(|o: Option<String>| opt_str_view(o))),
{
    let ghost bv = bs@.map_values(|o: Option<String>| opt_str_view(o));
    let mut out: Vec<String> = Vec::new();
    let mut i: usize = 0;
    while i < bs.len()
        invariant
            bv == bs@.map_values(|o: Option<String>| opt_str_view(o)),
            i <= bs@.len(),
            views(out@) == present(bv.take(i as int)),
        decreases bs@.len() - i,
    {
        assert(bv.take(i + 1).drop_last() == bv.take(i as int));
        assert(bv.take(i + 1).last() == opt_str_view(bs@[i as int]));
        match &bs[i] {
            Some(t) => {
                let ghost o = views(out@);
                out.push(t.clone());
                assert(views(out@) =~= o.push(t@));
            },
            None => {},
        }
        i += 1;
    }
    assert(bv.take(bs@.len() as int) == bv);
    out
}

fn content_text(c: &Content) -> (r: String)
    ensures
        r@ == message_text(c@),
{
    match c {
        Content::Text(s) => s.clone(),
        Content::Blocks(bs) => join_strings(&present_texts(bs), "\n"),
        Content::Other => String::new(),
    }
}

/// The question that GatCHPT pretends to ponder, from the request's
/// messages (`None` when `messages` is not an array).
pub fn last_user_text(messages: &Option<Vec<Message>>) -> (r: String)
    ensures
        r@ == user_question(match messages {
            Some(ms) => Some(messages_view(ms@)),
            None => None,
        }),
{
    let raw = match messages {
        None => String::new(),
        Some(ms) => {
            let ghost mv = messages_view(ms@);
            let mut i = ms.len();
            let mut found: Option<usize> = None;
            assert(mv.take(i as int) == mv);
            assert(mv.take(0) =~= Seq::<MessageView>::empty());
            while i > 0
                invariant_except_break
                    found is None,
                invariant
                    mv == messages_view(ms@),
                    i <= ms@.len(),
                    found is None ==> last_user(mv.take(i as int)) == last_user(mv),
                    found matches Some(j) ==> j < ms@.len() && last_user(mv) == Some(mv[j as int]),
                ensures
                    found is None ==> i == 0 && last_user(mv) is None,
                    found matches Some(j) ==> j < ms@.len() && last_user(mv) == Some(mv[j as int]),
                decreases i,
            {
                assert(mv.take(i as int).drop_last() == mv.take(i - 1));
                assert(mv.take(i as int).last() == ms@[i - 1]@);
                let is_user = match &ms[i - 1].role {
                    Some(r) => str_eq(r.as_str(), "user"),
                    None => false,
                };
                if is_user {
                    assert(mv[i - 1] == ms@[i - 1]@);
                    assert(mv[i - 1].role == Some("user"@));
                    assert(last_user(mv.take(i as int)) == Some(mv[i - 1]));
                    found = Some(i - 1);
                    break;
                }
                i -= 1;
            }
            match found {
                Some(j) => content_text(&ms[j].content),
                None => String::new(),
            }
        },
    };
    let t = trim(raw.as_str());
    if t.as_str().is_empty() {
        "(empty)".to_owned()
    } else {
        t
    }
}

// ---------- the request ----------

/// What a request says of thinking: off, a level by name, a token budget
/// (the JSON number's text), or nothing.
#[derive(Clone, Debug, PartialEq, Eq)]
pub enum EffortField {
    Off,
    Level(String),
    Budget(String),
    Unset,
}

pub enum EffortView {
    Off,
    Level(Seq<char>),
    Budget(Seq<char>),
    Unset,
}

impl View for EffortField {
    type V = EffortView;

    open spec fn view(&self) -> EffortView {
        match self {
            EffortField::Off => EffortView::Off,
            EffortField::Level(l) => EffortView::Level(l@),
            EffortField::Budget(b) => EffortView::Budget(b@),
            EffortField::Unset => EffortView::Unset,
        }
    }
}

/// What GatCHPT reads of a request.
#[derive(Clone, Debug)]
pub struct ChatRequest {
    /// The messages, when `messages` is an array.
    pub messages: Option<Vec<Message>>,
    /// `stream` is `true`.
    pub stream: bool,
    pub effort: EffortField,
    /// The length in bytes of `messages` written as compact JSON (`null`
    /// when it is missing).
    pub messages_text_len: usize,
}

/// The document at `key`, as indexing a JSON value gives it: `null` when
/// there is none.
pub open spec fn field(j: JsonView, key: Seq<char>) -> JsonView {
    match object_value(j, key) {
        Some(v) => v,
        None => JsonView::Null,
    }
}

/// The string at `key`, if there is one.
pub open spec fn str_at(j: JsonView, key: Seq<char>) -> Option<Seq<char>> {
    match object_value(j, key) {
        Some(JsonView::Str(s)) => Some(s),
        _ => None,
    }
}

/// A chat message as a request gives it.
pub open spec fn message_of(m: JsonView) -> MessageView {
    MessageView {
        role: str_at(m, "role"@),
        content: match field(m, "content"@) {
            JsonView::Str(s) => ContentView::Text(s),
            JsonView::Array(bs) => ContentView::Blocks(
                bs.map_values(|b: JsonView| str_at(b, "text"@)),
            ),
            _ => ContentView::Other,
        },
    }
}

/// The request's messages, when `messages` is an array.
pub open spec fn request_messages(j: JsonView) -> Option<Seq<MessageView>> {
    match object_value(j, "messages"@) {
        Some(JsonView::Array(ms)) => Some(ms.map_values(|m: JsonView| message_of(m))),
        _ => None,
    }
}

/// What a request says of thinking. OpenAI: `reasoning_effort`, where
/// `none` turns it off. Anthropic: `thinking.type` `disabled` turns it off;
/// otherwise `output_config.effort` names a level; otherwise
/// `thinking.budget_tokens` gives a budget.
pub open spec fn effort_of(proto: Proto, j: JsonView) -> EffortView {
    match proto {
        Proto::OpenAi => match str_at(j, "reasoning_effort"@) {
            Some(l) => if l == "none"@ {
                EffortView::Off
            } else {
                EffortView::Level(l)
            },
            None => EffortView::Unset,
        },
        Proto::Anthropic => {
            let th = field(j, "thinking"@);
            if str_at(th, "type"@) == Some("disabled"@) {
                EffortView::Off
            } else {
                match str_at(field(j, "output_config"@), "effort"@) {
                    Some(l) => EffortView::Level(l),
                    None => match object_value(th, "budget_tokens"@) {
                        Some(JsonView::Number(t)) => EffortView::Budget(t),
                        _ => EffortView::Unset,
                    },
                }
            }
        },
    }
}

/// The length in bytes of `messages` written as compact JSON; a missing
/// `messages` reads as `null`, four bytes.
pub open spec fn messages_text_len(j: JsonView) -> nat {
    match object_value(j, "messages"@) {
        Some(m) => vstd::utf8::encode_utf8(json_text(m)).len(),
        None => 4,
    }
}

/// For an OpenAI request, thinking is off exactly when `reasoning_effort`
/// is the string `none`; any other string names the level; without a string
/// there, nothing is said.
pub proof fn lemma_openai_effort(j: JsonView)
    ensures
        (effort_of(Proto::OpenAi, j) == EffortView::Off) <==> object_value(j, "reasoning_effort"@)
            == Some(JsonView::Str("none"@)),
        forall|l: Seq<char>|
            object_value(j, "reasoning_effort"@) == Some(JsonView::Str(l)) && l != "none"@
                ==> effort_of(Proto::OpenAi, j) == EffortView::Level(l),
        (forall|l: Seq<char>| object_value(j, "reasoning_effort"@) != Some(JsonView::Str(l)))
            ==> effort_of(Proto::OpenAi, j) == EffortView::Unset,
{
    match object_value(j, "reasoning_effort"@) {
        Some(JsonView::Str(l)) => {},
        _ => {},
    }
}

/// For an Anthropic request: `thinking.type` `disabled` turns thinking off
/// whatever else is set; otherwise a string `output_config.effort` names the
/// level; otherwise a number `thinking.budget_tokens` gives the budget (its
/// text); otherwise nothing is said.
pub proof fn lemma_anthropic_effort(j: JsonView)
    ensures
        forall|th: JsonView|
            object_value(j, "thinking"@) == Some(th) && object_value(th, "type"@) == Some(
                JsonView::Str("disabled"@),
            ) ==> effort_of(Proto::Anthropic, j) == EffortView::Off,
        forall|oc: JsonView, l: Seq<char>|
            !disabled_thinking(j) && object_value(j, "output_config"@) == Some(oc) && object_value(
                oc,
                "effort"@,
            ) == Some(JsonView::Str(l)) ==> effort_of(Proto::Anthropic, j) == EffortView::Level(l),
        forall|th: JsonView, t: Seq<char>|
            !disabled_thinking(j) && !effort_named(j) && object_value(j, "thinking"@) == Some(th)
                && object_value(th, "budget_tokens"@) == Some(JsonView::Number(t)) ==> effort_of(
                Proto::Anthropic,
                j,
            ) == EffortView::Budget(t),
        (effort_of(Proto::Anthropic, j) == EffortView::Off) ==> disabled_thinking(j),
{
}

/// `thinking.type` is the string `disabled`.
pub open spec fn disabled_thinking(j: JsonView) -> bool {
    match object_value(j, "thinking"@) {
        Some(th) => object_value(th, "type"@) == Some(JsonView::Str("disabled"@)),
        None => false,
    }
}

/// `output_config.effort` is a string.
pub open spec fn effort_named(j: JsonView) -> bool {
    match object_value(j, "output_config"@) {
        Some(oc) => match object_value(oc, "effort"@) {
            Some(JsonView::Str(_)) => true,
            _ => false,
        },
        None => false,
    }
}

pub open spec fn message_views(ms: Option<Vec<Message>>) -> Option<Seq<MessageView>> {
    match ms {
        Some(v) => Some(messages_view(v@)),
        None => None,
    }
}

/// What GatCHPT reads of a parsed request.
pub open spec fn chat_request_matches(q: ChatRequest, proto: Proto, j: JsonView) -> bool {
    &&& q.stream == (object_value(j, "stream"@) == Some(JsonView::Bool(true)))
    &&& message_views(q.messages) == request_messages(j)
    &&& q.effort@ == effort_of(proto, j)
    &&& q.messages_text_len == messages_text_len(j) as usize
}

fn lookup<'a>(v: Option<&'a serde_json::Value>, key: &str) -> (r: Option<&'a serde_json::Value>)
    ensures
        match r {
            Some(c) => object_value(
                match v {
                    Some(x) => json_content(*x),
                    None => JsonView::Null,
                },
                key@,
            ) == Some(json_content(*c)),
            None => object_value(
                match v {
                    Some(x) => json_content(*x),
                    None => JsonView::Null,
                },
                key@,
            ) is None,
        },
{
    match v {
        Some(x) => json_get(x, key),
        None => None,
    }
}

fn string_at(v: Option<&serde_json::Value>, key: &str) -> (r: Option<String>)
    ensures
        opt_str_view(r) == str_at(
            match v {
                Some(x) => json_content(*x),
                None => JsonView::Null,
            },
            key@,
        ),
{
    match lookup(v, key) {
        Some(c) => json_as_str(c),
        None => None,
    }
}

fn read_message(m: &serde_json::Value) -> (r: Message)
    ensures
        r@ == message_of(json_content(*m)),
{
    let role = string_at(Some(m), "role");
    let content = match json_get(m, "content") {
        None => Content::Other,
        Some(c) => match json_as_str(c) {
            Some(s) => Content::Text(s),
            None => match json_as_array(c) {
                Some(bs) => {
                    let ghost bv = bs@.map_values(|x: serde_json::Value| json_content(x));
                    let mut texts: Vec<Option<String>> = Vec::new();
                    let mut i: usize = 0;
                    while i < bs.len()
                        invariant
                            bv == bs@.map_values(|x: serde_json::Value| json_content(x)),
                            i <= bs@.len(),
                            texts@.map_values(|o: Option<String>| opt_str_view(o)) == bv.take(
                                i as int,
                            ).map_values(|b: JsonView| str_at(b, "text"@)),
                        decreases bs@.len() - i,
                    {
                        let t = string_at(Some(&bs[i]), "text");
                        assert(bv[i as int] == json_content(bs@[i as int]));
                        assert(opt_str_view(t) == str_at(bv[i as int], "text"@));
                        assert(bv.take(i + 1) =~= bv.take(i as int).push(bv[i as int]));
                        let ghost before = texts@.map_values(|o: Option<String>| opt_str_view(o));
                        texts.push(t);
                        assert(texts@.map_values(|o: Option<String>| opt_str_view(o)) =~= before.push(
                            opt_str_view(t),
                        ));
                        assert(texts@.map_values(|o: Option<String>| opt_str_view(o))
                            =~= bv.take(i + 1).map_values(|b: JsonView| str_at(b, "text"@)));
                        i += 1;
                    }
                    assert(bv.take(bs@.len() as int) == bv);
                    Content::Blocks(texts)
                },
                None => Content::Other,
            },
        },
    };
    Message { role, content }
}

/// Reads a request body: its messages, whether it asks for a stream, what
/// it says of thinking, and the JSON length of its messages. `None` when
/// the body is not JSON.
pub fn read_chat_request(proto: Proto, body: &[u8]) -> (r: Option<ChatRequest>)
    ensures
        match json_parse(body@) {
            None => r is None,
            Some(j) => r is Some && chat_request_matches(r->0, proto, j),
        },
{
    let req = match parse_json(body) {
        None => return None,
        Some(v) => v,
    };
    let ghost j = json_content(req);
    let stream = match json_get(&req, "stream") {
        Some(v) => match json_as_bool(v) {
            Some(b) => b,
            None => false,
        },
        None => false,
    };
    let msgs = json_get(&req, "messages");
    let messages = match msgs {
        None => None,
        Some(m) => match json_as_array(m) {
            None => None,
            Some(ms) => {
                let ghost mv = ms@.map_values(|x: serde_json::Value| json_content(x));
                let mut out: Vec<Message> = Vec::new();
                let mut i: usize = 0;
                while i < ms.len()
                    invariant
                        mv == ms@.map_values(|x: serde_json::Value| json_content(x)),
                        i <= ms@.len(),
                        messages_view(out@) == mv.take(i as int).map_values(
                            |m: JsonView| message_of(m),
                        ),
                    decreases ms@.len() - i,
                {
                    let msg = read_message(&ms[i]);
                    assert(mv[i as int] == json_content(ms@[i as int]));
                    assert(msg@ == message_of(mv[i as int]));
                    assert(mv.take(i + 1) =~= mv.take(i as int).push(mv[i as int]));
                    let ghost before = messages_view(out@);
                    out.push(msg);
                    assert(messages_view(out@) =~= before.push(msg@));
                    assert(messages_view(out@) =~= mv.take(i + 1).map_values(
                        |m: JsonView| message_of(m),
                    ));
                    i += 1;
                }
                assert(mv.take(ms@.len() as int) == mv);
                Some(out)
            },
        },
    };
    let text_len = match msgs {
        Some(m) => json_to_text(m).as_str().len(),
        None => 4,
    };
    let effort = match proto {
        Proto::OpenAi => match string_at(Some(&req), "reasoning_effort") {
            Some(l) => if str_eq(l.as_str(), "none") {
                EffortField::Off
            } else {
                EffortField::Level(l)
            },
            None => EffortField::Unset,
        },
        Proto::Anthropic => {
            let th = json_get(&req, "thinking");
            assert(field(j, "thinking"@) == match th {
                Some(x) => json_content(*x),
                None => JsonView::Null,
            });
            let kind = string_at(th, "type");
            let disabled = match &kind {
                Some(k) => str_eq(k.as_str(), "disabled"),
                None => false,
            };
            if disabled {
                EffortField::Off
            } else {
                match string_at(json_get(&req, "output_config"), "effort") {
                    Some(l) => EffortField::Level(l),
                    None => match lookup(th, "budget_tokens") {
                        Some(b) => match json_number_text(b) {
                            Some(t) => EffortField::Budget(t),
                            None => EffortField::Unset,
                        },
                        None => EffortField::Unset,
                    },
                }
            }
        },
    };
    assert(stream == (object_value(j, "stream"@) == Some(JsonView::Bool(true))));
    assert(message_views(messages) == request_messages(j));
    assert(effort@ == effort_of(proto, j));
    assert(text_len == messages_text_len(j) as usize);
    Some(ChatRequest { messages, stream, effort, messages_text_len: text_len })
}

// ---------- thoughts ----------

/// The prompt size that GatCHPT reports: a quarter of the length of the
/// request's `messages` written as JSON, plus one.
pub fn prompt_tokens_for(messages_json_len: usize) -> (n: usize)
    ensures
        n == messages_json_len / 4 + 1,
{
    messages_json_len / 4 + 1
}

/// Gathers distinct thoughts: it wants more while it has fewer than
/// `count` and has been offered fewer than twenty times `count`; an offered
/// thought is kept unless it was kept already.
#[derive(Debug)]
pub struct ThoughtCollector {
    count: usize,
    attempts: usize,
    kept: Vec<String>,
}

/// No thought occurs twice.
pub open spec fn distinct(s: Seq<Seq<char>>) -> bool {
    forall|i: int, j: int| 0 <= i < j < s.len() ==> s[i] != s[j]
}

impl ThoughtCollector {
    /// How many thoughts are wanted.
    pub closed spec fn count(&self) -> nat {
        self.count as nat
    }

    /// How many thoughts have been offered.
    pub closed spec fn attempts(&self) -> nat {
        self.attempts as nat
    }

    /// The thoughts kept so far, in the order offered.
    pub closed spec fn kept(&self) -> Seq<Seq<char>> {
        views(self.kept@)
    }

    /// What every collector keeps: its count leaves room for twenty offers
    /// each, it was offered no more than that, it kept no more than it
    /// wants, and no thought twice.
    #[verifier::type_invariant]
    closed spec fn inv(&self) -> bool {
        &&& self.count <= usize::MAX / 20
        &&& self.attempts <= self.count * 20
        &&& self.kept@.len() <= self.count
        &&& distinct(views(self.kept@))
    }

    /// A collector that wants `count` thoughts.
    pub fn new(count: usize) -> (c: Self)
        requires
            count <= usize::MAX / 20,
        ensures
            c.count() == count,
            c.attempts() == 0,
            c.kept() == Seq::<Seq<char>>::empty(),
    {
        let kept: Vec<String> = Vec::new();
        assert(views(kept@) =~= Seq::<Seq<char>>::empty());
        let c = ThoughtCollector { count, attempts: 0, kept };
        assert(views(c.kept@) =~= Seq::<Seq<char>>::empty());
        c
    }

    /// Whether another thought is wanted.
    pub fn wants_more(&self) -> (r: bool)
        ensures
            r == (self.kept().len() < self.count() && self.attempts() < self.count() * 20),
    {
        proof {
            use_type_invariant(self);
        }
        self.kept.len() < self.count && self.attempts < self.count * 20
    }

    /// Offers a thought: it is kept when it is new.
    pub fn offer(&mut self, thought: String)
        requires
            old(self).kept().len() < old(self).count(),
            old(self).attempts() < old(self).count() * 20,
        ensures
            final(self).count() == old(self).count(),
            final(self).attempts() == old(self).attempts() + 1,
            final(self).kept() == if old(self).kept().contains(thought@) {
                old(self).kept()
            } else {
                old(self).kept().push(thought@)
            },
    {
        proof {
            use_type_invariant(&*self);
        }
        self.attempts = self.attempts + 1;
        let mut kept: Vec<String> = Vec::new();
        assert(distinct(views(kept@)));
        std::mem::swap(&mut kept, &mut self.kept);
        let ghost k0 = views(kept@);
        let mut i: usize = 0;
        while i < kept.len()
            invariant
                k0 == views(kept@),
                k0 == views(old(self).kept@),
                self.count == old(self).count,
                self.attempts == old(self).attempts + 1,
                self.count <= usize::MAX / 20,
                self.attempts <= self.count * 20,
                k0.len() < self.count,
                distinct(k0),
                i <= k0.len(),
                forall|j: int| 0 <= j < i ==> k0[j] != thought@,
            decreases k0.len() - i,
        {
            if str_eq(kept[i].as_str(), thought.as_str()) {
                assert(k0[i as int] == thought@);
                self.kept = kept;
                return;
            }
            i += 1;
        }
        assert(!k0.contains(thought@));
        kept.push(thought);
        assert(views(kept@) =~= k0.push(thought@));
        self.kept = kept;
    }

    /// The thoughts kept, in the order offered: distinct, and no more than
    /// were wanted.
    pub fn into_thoughts(self) -> (r: Vec<String>)
        ensures
            views(r@) == self.kept(),
            r@.len() <= self.count(),
            distinct(views(r@)),
    {
        proof {
            use_type_invariant(&self);
        }
        self.kept
    }
}

/// How a thought quotes the question: its first forty characters, followed
/// by `...` when it is longer.
pub open spec fn snippet(q: Seq<char>) -> Seq<char> {
    if q.len() > 40 {
        q.take(40) + "..."@
    } else {
        q
    }
}

/// The quotation of the question that a thought may hold.
pub fn quote_snippet(question: &str) -> (r: String)
    ensures
        r@ == snippet(question@),
{
    let cs = chars_of(question);
    if cs.len() > 40 {
        let mut s = string_of(&cs, 0, 40);
        s.append("...");
        assert(cs@.subrange(0, 40) == cs@.take(40));
        s
    } else {
        string_of_all(&cs)
    }
}

// ---------- the text of a thought ----------

/// Every occurrence of `pat` in `s`, left to right and without overlap,
/// replaced by `val`, as `str::replace` does; an empty `pat` matches before
/// every character and at the end.
pub open spec fn replace_all(s: Seq<char>, pat: Seq<char>, val: Seq<char>) -> Seq<char>
    decreases s.len(),
{
    if pat.len() == 0 {
        if s.len() == 0 {
            val
        } else {
            val + seq![s[0]] + replace_all(s.skip(1), pat, val)
        }
    } else if s.len() == 0 {
        s
    } else if is_prefix(pat, s) {
        val + replace_all(s.skip(pat.len() as int), pat, val)
    } else {
        seq![s[0]] + replace_all(s.skip(1), pat, val)
    }
}

/// `template` with every occurrence of `slot` replaced by `value`.
pub fn fill_slot(template: &str, slot: &str, value: &str) -> (r: String)
    ensures
        r@ == replace_all(template@, slot@, value@),
{
    let cs = chars_of(template);
    let ps = chars_of(slot);
    let mut out = String::new();
    let mut i: usize = 0;
    assert(cs@.skip(0) =~= cs@);
    assert(out@ + replace_all(cs@, ps@, value@) =~= replace_all(cs@, ps@, value@));
    while i < cs.len()
        invariant
            cs@ == template@,
            ps@ == slot@,
            i <= cs@.len(),
            out@ + replace_all(cs@.skip(i as int), ps@, value@) == replace_all(
                template@,
                slot@,
                value@,
            ),
        decreases cs@.len() - i,
    {
        let ghost rest = cs@.skip(i as int);
        let ghost before = out@;
        if ps.len() > 0 && occurs_at_exec(&cs, &ps, i) {
            assert(rest.take(ps@.len() as int) =~= cs@.subrange(i as int, i + ps@.len()));
            assert(rest.skip(ps@.len() as int) =~= cs@.skip(i + ps@.len()));
            out.append(value);
            i += ps.len();
            assert(out@ + replace_all(cs@.skip(i as int), ps@, value@) =~= before + replace_all(
                rest,
                ps@,
                value@,
            ));
        } else {
            proof {
                if ps@.len() > 0 && is_prefix(ps@, rest) {
                    assert(cs@.subrange(i as int, i + ps@.len()) =~= rest.take(ps@.len() as int));
                }
            }
            assert(rest.skip(1) =~= cs@.skip(i + 1));
            assert(rest[0] == cs@[i as int]);
            if ps.len() == 0 {
                out.append(value);
            }
            push_char(&mut out, cs[i]);
            i += 1;
            assert(out@ + replace_all(cs@.skip(i as int), ps@, value@) =~= before + replace_all(
                rest,
                ps@,
                value@,
            ));
        }
    }
    assert(cs@.skip(i as int) =~= Seq::<char>::empty());
    if ps.len() == 0 {
        out.append(value);
    }
    out
}

/// What `char::to_uppercase` maps a character to: one or more characters,
/// by the Unicode case tables.
pub uninterp spec fn char_uppercase(c: char) -> Seq<char>;

/// The uppercase mapping of `c`, with `char::to_uppercase`. The contract
/// ties the result to `c` alone; the Unicode case mapping itself is not
/// stated.
#[verifier::external_body]
fn uppercase(c: char) -> (r: String)
    ensures
        r@ == char_uppercase(c),
{
    c.to_uppercase().to_string()
}

/// `s` with its first character in uppercase.
pub open spec fn capitalized(s: Seq<char>) -> Seq<char> {
    if s.len() == 0 {
        s
    } else {
        char_uppercase(s[0]) + s.skip(1)
    }
}

/// How a thought is put together from what was drawn for it.
#[derive(Clone, Debug)]
pub enum ThoughtPlan {
    /// `subject verb object.`, its first character in uppercase.
    Statement(String, String, String),
    /// The words joined by single spaces.
    Words(Vec<String>),
    /// A template with every occurrence of a slot filled with a value.
    Filled { template: String, slot: String, value: String },
}

/// The text of a thought.
pub open spec fn plan_text(p: ThoughtPlan) -> Seq<char> {
    match p {
        ThoughtPlan::Statement(s, v, o) => capitalized(s@ + " "@ + v@ + " "@ + o@ + "."@),
        ThoughtPlan::Words(ws) => join(views(ws@), " "@),
        ThoughtPlan::Filled { template, slot, value } => replace_all(template@, slot@, value@),
    }
}

/// Writes out a thought.
pub fn thought_text(plan: &ThoughtPlan) -> (r: String)
    ensures
        r@ == plan_text(*plan),
{
    match plan {
        ThoughtPlan::Statement(s, v, o) => {
            let mut t = s.as_str().to_owned();
            t.append(" ");
            t.append(v.as_str());
            t.append(" ");
            t.append(o.as_str());
            t.append(".");
            let cs = chars_of(t.as_str());
            if cs.len() == 0 {
                return t;
            }
            let mut out = uppercase(cs[0]);
            let tail = string_of(&cs, 1, cs.len());
            out.append(tail.as_str());
            assert(cs@.subrange(1, cs@.len() as int) =~= cs@.skip(1));
            out
        },
        ThoughtPlan::Words(ws) => join_strings(ws, " "),
        ThoughtPlan::Filled { template, slot, value } => fill_slot(
            template.as_str(),
            slot.as_str(),
            value.as_str(),
        ),
    }
}

// ---------- the refusal ----------

/// The refusal: a fixed apology, the reason, an offer of the suggestions
/// as a list, and the closing line.
pub open spec fn refusal(reason: Seq<char>, suggestions: Seq<Seq<char>>, outro: Seq<char>) -> Seq<char> {
    "抱歉，作为一个大语言模型，我无法处理这个请求。"@ + reason + "\n\n如果你需要，我可以帮你：\n\n"@
        + concat(suggestions.map_values(|s: Seq<char>| "- "@ + s + "\n"@)) + "\n"@ + outro
}

/// Writes the refusal from its chosen reason, suggestions and closing line.
pub fn refusal_answer(reason: &str, suggestions: &Vec<String>, outro: &str) -> (r: String)
    ensures
        r@ == refusal(reason@, views(suggestions@), outro@),
{
    let ghost sv = views(suggestions@);
    let ghost items = sv.map_values(|s: Seq<char>| "- "@ + s + "\n"@);
    let mut answer = "抱歉，作为一个大语言模型，我无法处理这个请求。".to_owned();
    answer.append(reason);
    answer.append("\n\n如果你需要，我可以帮你：\n\n");
    let ghost head = answer@;
    let mut i: usize = 0;
    while i < suggestions.len()
        invariant
            sv == views(suggestions@),
            items == sv.map_values(|s: Seq<char>| "- "@ + s + "\n"@),
            i <= suggestions@.len(),
            answer@ == head + concat(items.take(i as int)),
        decreases suggestions@.len() - i,
    {
        assert(items.take(i + 1).drop_last() == items.take(i as int));
        assert(items.take(i + 1).last() == "- "@ + suggestions@[i as int]@ + "\n"@);
        answer.append("- ");
        answer.append(suggestions[i].as_str());
        answer.append("\n");
        assert(answer@ =~= head + concat(items.take(i + 1)));
        i += 1;
    }
    assert(items.take(suggestions@.len() as int) == items);
    answer.append("\n");
    answer.append(outro);
    answer
}

// ---------- the answer ----------

/// What GatCHPT says: its thoughts and its answer.
#[derive(Clone, Debug)]
pub struct Script {
    pub thoughts: Vec<String>,
    pub answer: String,
}

/// Writes one answer in one protocol.
#[derive(Clone, Debug)]
pub struct Emitter {
    pub proto: Proto,
    pub id: String,
    pub created: u64,
    pub prompt_tokens: usize,
}

/// Token counts.
#[derive(Clone, Copy, Debug, PartialEq, Eq)]
pub struct Usage {
    pub prompt_tokens: usize,
    pub completion_tokens: usize,
    pub total_tokens: usize,
}

/// A whole (non-streamed) answer.
#[derive(Clone, Debug)]
pub struct Completion {
    /// The thoughts joined by spaces; `None` when there are none to show.
    pub thinking: Option<String>,
    pub answer: String,
    pub usage: Usage,
}

/// The thoughts as one text, joined by spaces.
pub open spec fn thinking_of(s: Script) -> Seq<char> {
    join(views(s.thoughts@), " "@)
}

/// The number of output tokens of a script.
pub open spec fn output_tokens(s: Script) -> nat {
    tokens(thinking_of(s)).len() + tokens(s.answer@).len()
}

/// The counts of an answer fit in a `usize`.
pub open spec fn counts_fit(e: Emitter, s: Script) -> bool {
    e.prompt_tokens + thinking_of(s).len() + s.answer@.len() <= usize::MAX
}

proof fn lemma_tokens_len(s: Seq<char>)
    ensures
        tokens(s).len() <= s.len(),
{
    lemma_tokens_concat(s);
    lemma_concat_len(tokens(s));
}

proof fn lemma_concat_len(parts: Seq<Seq<char>>)
    requires
        forall|i: int| 0 <= i < parts.len() ==> (#[trigger] parts[i]).len() > 0,
    ensures
        parts.len() <= concat(parts).len(),
    decreases parts.len(),
{
    if parts.len() > 0 {
        let init = parts.drop_last();
        assert forall|i: int| 0 <= i < init.len() implies (#[trigger] init[i]).len() > 0 by {
            assert(init[i] == parts[i]);
        }
        lemma_concat_len(init);
        assert(parts.last() == parts[parts.len() - 1]);
    }
}

/// The number of tokens of `text`.
fn token_count(text: &str) -> (n: usize)
    ensures
        n == tokens(text@).len(),
{
    let t = tokenize(text);
    proof {
        assert(views(t@).len() == t@.len());
    }
    t.len()
}

impl Emitter {
    /// The counts for an answer of `output_tokens` tokens.
    pub fn usage(&self, output_tokens: usize) -> (u: Usage)
        requires
            self.prompt_tokens + output_tokens <= usize::MAX,
        ensures
            u.prompt_tokens == self.prompt_tokens,
            u.completion_tokens == output_tokens,
            u.total_tokens == self.prompt_tokens + output_tokens,
    {
        Usage {
            prompt_tokens: self.prompt_tokens,
            completion_tokens: output_tokens,
            total_tokens: self.prompt_tokens + output_tokens,
        }
    }

    /// The whole answer: the joined thoughts (when there are any), the
    /// answer, and the counts, output tokens being the tokens of both.
    pub fn complete(&self, script: &Script) -> (c: Completion)
        requires
            counts_fit(*self, *script),
        ensures
            match c.thinking {
                Some(t) => t@ == thinking_of(*script) && t@.len() > 0,
                None => thinking_of(*script).len() == 0,
            },
            c.answer@ == script.answer@,
            c.usage.prompt_tokens == self.prompt_tokens,
            c.usage.completion_tokens == output_tokens(*script),
            c.usage.total_tokens == self.prompt_tokens + output_tokens(*script),
    {
        let thinking = join_strings(&script.thoughts, " ");
        proof {
            lemma_tokens_len(thinking@);
            lemma_tokens_len(script.answer@);
        }
        let n = token_count(thinking.as_str()) + token_count(script.answer.as_str());
        let usage = self.usage(n);
        let thinking = if thinking.as_str().is_empty() {
            None
        } else {
            Some(thinking)
        };
        Completion { thinking, answer: script.answer.clone(), usage }
    }
}

/// One event of a streamed answer.
#[derive(Clone, Debug)]
pub enum StreamEvent {
    /// OpenAI: the opening chunk (`role: assistant`, empty content).
    Role,
    /// OpenAI: a token of the thinking (`reasoning_content`).
    Reasoning(String),
    /// OpenAI: a token of the answer (`content`).
    Content(String),
    /// OpenAI: the closing chunk (`finish_reason: stop`).
    Finish,
    /// OpenAI: the usage chunk.
    UsageReport(Usage),
    /// OpenAI: `[DONE]`.
    Done,
    /// Anthropic: `message_start`, with the input token count.
    MessageStart(usize),
    /// Anthropic: `content_block_start` of a thinking block at this index.
    ThinkingStart(usize),
    /// Anthropic: a `thinking_delta` at this index.
    ThinkingDelta(usize, String),
    /// Anthropic: the empty `signature_delta` at this index.
    SignatureDelta(usize),
    /// Anthropic: `content_block_start` of a text block at this index.
    TextStart(usize),
    /// Anthropic: a `text_delta` at this index.
    TextDelta(usize, String),
    /// Anthropic: `content_block_stop` at this index.
    BlockStop(usize),
    /// Anthropic: `message_delta` with the output token count.
    MessageDelta(usize),
    /// Anthropic: `message_stop`.
    MessageStop,
}

pub enum EventView {
    Role,
    Reasoning(Seq<char>),
    Content(Seq<char>),
    Finish,
    UsageReport(Usage),
    Done,
    MessageStart(usize),
    ThinkingStart(usize),
    ThinkingDelta(usize, Seq<char>),
    SignatureDelta(usize),
    TextStart(usize),
    TextDelta(usize, Seq<char>),
    BlockStop(usize),
    MessageDelta(usize),
    MessageStop,
}

impl View for StreamEvent {
    type V = EventView;

    open spec fn view(&self) -> EventView {
        match self {
            StreamEvent::Role => EventView::Role,
            StreamEvent::Reasoning(t) => EventView::Reasoning(t@),
            StreamEvent::Content(t) => EventView::Content(t@),
            StreamEvent::Finish => EventView::Finish,
            StreamEvent::UsageReport(u) => EventView::UsageReport(*u),
            StreamEvent::Done => EventView::Done,
            StreamEvent::MessageStart(n) => EventView::MessageStart(*n),
            StreamEvent::ThinkingStart(i) => EventView::ThinkingStart(*i),
            StreamEvent::ThinkingDelta(i, t) => EventView::ThinkingDelta(*i, t@),
            StreamEvent::SignatureDelta(i) => EventView::SignatureDelta(*i),
            StreamEvent::TextStart(i) => EventView::TextStart(*i),
            StreamEvent::TextDelta(i, t) => EventView::TextDelta(*i, t@),
            StreamEvent::BlockStop(i) => EventView::BlockStop(*i),
            StreamEvent::MessageDelta(n) => EventView::MessageDelta(*n),
            StreamEvent::MessageStop => EventView::MessageStop,
        }
    }
}

pub open spec fn events_view(v: Seq<StreamEvent>) -> Seq<EventView> {
    v.map_values(|e: StreamEvent| e@)
}

/// The events of a streamed OpenAI answer: the opening chunk, one chunk per
/// token of the thinking, one per token of the answer, the closing chunk,
/// the usage and `[DONE]`.
pub open spec fn openai_events(thinking: Seq<char>, answer: Seq<char>, usage: Usage) -> Seq<EventView> {
    seq![EventView::Role] + tokens(thinking).map_values(|t: Seq<char>| EventView::Reasoning(t))
        + tokens(answer).map_values(|t: Seq<char>| EventView::Content(t)) + seq![
        EventView::Finish,
        EventView::UsageReport(usage),
        EventView::Done,
    ]
}

/// The events of a streamed Anthropic answer: `message_start`; when there
/// is thinking, a thinking block at index 0 with one delta per token, an
/// empty signature and its stop; a text block (at the next index) with one
/// delta per token of the answer and its stop; `message_delta` with the
/// output token count; `message_stop`.
pub open spec fn anthropic_events(
    thinking: Seq<char>,
    answer: Seq<char>,
    prompt_tokens: usize,
    output: usize,
) -> Seq<EventView> {
    let index: usize = if thinking.len() > 0 {
        1
    } else {
        0
    };
    let think = if thinking.len() > 0 {
        seq![EventView::ThinkingStart(0)] + tokens(thinking).map_values(
            |t: Seq<char>| EventView::ThinkingDelta(0, t),
        ) + seq![EventView::SignatureDelta(0), EventView::BlockStop(0)]
    } else {
        seq![]
    };
    seq![EventView::MessageStart(prompt_tokens)] + think + seq![EventView::TextStart(index)]
        + tokens(answer).map_values(|t: Seq<char>| EventView::TextDelta(index, t)) + seq![
        EventView::BlockStop(index),
        EventView::MessageDelta(output),
        EventView::MessageStop,
    ]
}

/// Whether a failed send of this event ends the stream (a failed send of
/// any other event is ignored).
pub open spec fn ends_on_failure(e: EventView) -> bool {
    match e {
        EventView::Role | EventView::Reasoning(_) | EventView::Content(_)
        | EventView::MessageStart(_) | EventView::ThinkingDelta(_, _)
        | EventView::TextDelta(_, _) => true,
        _ => false,
    }
}

/// Whether a token's pause comes before this event.
pub open spec fn paced(e: EventView) -> bool {
    match e {
        EventView::Reasoning(_) | EventView::Content(_) | EventView::ThinkingDelta(_, _)
        | EventView::TextDelta(_, _) => true,
        _ => false,
    }
}

impl StreamEvent {
    /// Whether a failed send of this event ends the stream.
    pub fn ends_on_failure(&self) -> (r: bool)
        ensures
            r == ends_on_failure(self@),
    {
        match self {
            StreamEvent::Role | StreamEvent::Reasoning(_) | StreamEvent::Content(_)
            | StreamEvent::MessageStart(_) | StreamEvent::ThinkingDelta(_, _)
            | StreamEvent::TextDelta(_, _) => true,
            _ => false,
        }
    }

    /// Whether a token's pause comes before this event.
    pub fn paced(&self) -> (r: bool)
        ensures
            r == paced(self@),
    {
        match self {
            StreamEvent::Reasoning(_) | StreamEvent::Content(_) | StreamEvent::ThinkingDelta(_, _)
            | StreamEvent::TextDelta(_, _) => true,
            _ => false,
        }
    }
}

/// Which event carries a token.
#[derive(Clone, Copy)]
enum TokenKind {
    Reasoning,
    Content,
    Thinking(usize),
    Text(usize),
}

spec fn token_event(k: TokenKind, t: Seq<char>) -> EventView {
    match k {
        TokenKind::Reasoning => EventView::Reasoning(t),
        TokenKind::Content => EventView::Content(t),
        TokenKind::Thinking(i) => EventView::ThinkingDelta(i, t),
        TokenKind::Text(i) => EventView::TextDelta(i, t),
    }
}

/// Appends one event per token of `text`.
fn push_tokens(events: &mut Vec<StreamEvent>, text: &str, kind: TokenKind)
    ensures
        events_view(final(events)@) == events_view(old(events)@) + tokens(text@).map_values(
            |t: Seq<char>| token_event(kind, t),
        ),
{
    let toks = tokenize(text);
    let ghost tv = tokens(text@);
    let ghost start = events_view(events@);
    let mut i: usize = 0;
    while i < toks.len()
        invariant
            views(toks@) == tv,
            i <= toks@.len(),
            events_view(events@) == start + tv.take(i as int).map_values(
                |t: Seq<char>| token_event(kind, t),
            ),
        decreases toks@.len() - i,
    {
        let t = toks[i].clone();
        let e = match kind {
            TokenKind::Reasoning => StreamEvent::Reasoning(t),
            TokenKind::Content => StreamEvent::Content(t),
            TokenKind::Thinking(j) => StreamEvent::ThinkingDelta(j, t),
            TokenKind::Text(j) => StreamEvent::TextDelta(j, t),
        };
        assert(e@ == token_event(kind, tv[i as int]));
        let ghost before = events_view(events@);
        events.push(e);
        assert(events_view(events@) =~= before.push(e@));
        assert(tv.take(i + 1).map_values(|t: Seq<char>| token_event(kind, t)) =~= tv.take(
            i as int,
        ).map_values(|t: Seq<char>| token_event(kind, t)).push(token_event(kind, tv[i as int])));
        i += 1;
    }
    assert(tv.take(toks@.len() as int) == tv);
}

fn push_event(events: &mut Vec<StreamEvent>, e: StreamEvent)
    ensures
        events_view(final(events)@) == events_view(old(events)@).push(e@),
{
    let ghost before = events_view(events@);
    events.push(e);
    assert(events_view(events@) =~= before.push(e@));
}

impl Emitter {
    /// Every event of the streamed answer, in order.
    pub fn stream_events(&self, script: &Script) -> (r: Vec<StreamEvent>)
        requires
            counts_fit(*self, *script),
        ensures
            self.proto == Proto::OpenAi ==> events_view(r@) == openai_events(
                thinking_of(*script),
                script.answer@,
                Usage {
                    prompt_tokens: self.prompt_tokens,
                    completion_tokens: output_tokens(*script) as usize,
                    total_tokens: (self.prompt_tokens + output_tokens(*script)) as usize,
                },
            ),
            self.proto == Proto::Anthropic ==> events_view(r@) == anthropic_events(
                thinking_of(*script),
                script.answer@,
                self.prompt_tokens,
                output_tokens(*script) as usize,
            ),
    {
        let thinking = join_strings(&script.thoughts, " ");
        proof {
            lemma_tokens_len(thinking@);
            lemma_tokens_len(script.answer@);
        }
        let n = token_count(thinking.as_str()) + token_count(script.answer.as_str());
        let mut events: Vec<StreamEvent> = Vec::new();
        match self.proto {
            Proto::OpenAi => {
                push_event(&mut events, StreamEvent::Role);
                push_tokens(&mut events, thinking.as_str(), TokenKind::Reasoning);
                push_tokens(&mut events, script.answer.as_str(), TokenKind::Content);
                push_event(&mut events, StreamEvent::Finish);
                push_event(&mut events, StreamEvent::UsageReport(self.usage(n)));
                push_event(&mut events, StreamEvent::Done);
                proof {
                    assert(tokens(thinking@).map_values(|t: Seq<char>| token_event(TokenKind::Reasoning, t))
                        =~= tokens(thinking@).map_values(|t: Seq<char>| EventView::Reasoning(t)));
                    assert(tokens(script.answer@).map_values(|t: Seq<char>| token_event(TokenKind::Content, t))
                        =~= tokens(script.answer@).map_values(|t: Seq<char>| EventView::Content(t)));
                }
            },
            Proto::Anthropic => {
                push_event(&mut events, StreamEvent::MessageStart(self.prompt_tokens));
                let mut index: usize = 0;
                if !thinking.as_str().is_empty() {
                    push_event(&mut events, StreamEvent::ThinkingStart(0));
                    push_tokens(&mut events, thinking.as_str(), TokenKind::Thinking(0));
                    push_event(&mut events, StreamEvent::SignatureDelta(0));
                    push_event(&mut events, StreamEvent::BlockStop(0));
                    index = 1;
                    proof {
                        assert(tokens(thinking@).map_values(|t: Seq<char>| token_event(TokenKind::Thinking(0), t))
                            =~= tokens(thinking@).map_values(|t: Seq<char>| EventView::ThinkingDelta(0, t)));
                    }
                }
                push_event(&mut events, StreamEvent::TextStart(index));
                push_tokens(&mut events, script.answer.as_str(), TokenKind::Text(index));
                push_event(&mut events, StreamEvent::BlockStop(index));
                push_event(&mut events, StreamEvent::MessageDelta(n));
                push_event(&mut events, StreamEvent::MessageStop);
                proof {
                    assert(tokens(script.answer@).map_values(|t: Seq<char>| token_event(TokenKind::Text(index), t))
                        =~= tokens(script.answer@).map_values(|t: Seq<char>| EventView::TextDelta(index, t)));
                }
            },
        }
        events
    }
}


/// The text that the thinking deltas of a stream carry, in order
/// (`reasoning_content` for OpenAI, `thinking_delta` for Anthropic).
pub open spec fn streamed_thinking(evs: Seq<EventView>) -> Seq<char>
    decreases evs.len(),
{
    if evs.len() == 0 {
        seq![]
    } else {
        streamed_thinking(evs.drop_last()) + match evs.last() {
            EventView::Reasoning(t) => t,
            EventView::ThinkingDelta(_, t) => t,
            _ => seq![],
        }
    }
}

/// The text that the answer deltas of a stream carry, in order
/// (`content` for OpenAI, `text_delta` for Anthropic).
pub open spec fn streamed_answer(evs: Seq<EventView>) -> Seq<char>
    decreases evs.len(),
{
    if evs.len() == 0 {
        seq![]
    } else {
        streamed_answer(evs.drop_last()) + match evs.last() {
            EventView::Content(t) => t,
            EventView::TextDelta(_, t) => t,
            _ => seq![],
        }
    }
}

/// How many token deltas a stream carries.
pub open spec fn streamed_tokens(evs: Seq<EventView>) -> nat
    decreases evs.len(),
{
    if evs.len() == 0 {
        0
    } else {
        streamed_tokens(evs.drop_last()) + if paced(evs.last()) {
            1nat
        } else {
            0nat
        }
    }
}

proof fn lemma_stream_split(a: Seq<EventView>, b: Seq<EventView>)
    ensures
        streamed_thinking(a + b) == streamed_thinking(a) + streamed_thinking(b),
        streamed_answer(a + b) == streamed_answer(a) + streamed_answer(b),
        streamed_tokens(a + b) == streamed_tokens(a) + streamed_tokens(b),
    decreases b.len(),
{
    if b.len() == 0 {
        assert(a + b =~= a);
        assert(streamed_thinking(a) + streamed_thinking(b) =~= streamed_thinking(a));
        assert(streamed_answer(a) + streamed_answer(b) =~= streamed_answer(a));
    } else {
        lemma_stream_split(a, b.drop_last());
        assert((a + b).drop_last() =~= a + b.drop_last());
        assert((a + b).last() == b.last());
        assert(streamed_thinking(a + b) =~= streamed_thinking(a) + streamed_thinking(b));
        assert(streamed_answer(a + b) =~= streamed_answer(a) + streamed_answer(b));
    }
}

/// One delta per token, all of the thinking kind or all of the answer kind.
proof fn lemma_token_run(toks: Seq<Seq<char>>, k: TokenKind)
    ensures
        streamed_tokens(toks.map_values(|t: Seq<char>| token_event(k, t))) == toks.len(),
        (k is Reasoning || k is Thinking) ==> streamed_thinking(
            toks.map_values(|t: Seq<char>| token_event(k, t)),
        ) == concat(toks) && streamed_answer(toks.map_values(|t: Seq<char>| token_event(k, t)))
            == Seq::<char>::empty(),
        (k is Content || k is Text) ==> streamed_answer(
            toks.map_values(|t: Seq<char>| token_event(k, t)),
        ) == concat(toks) && streamed_thinking(toks.map_values(|t: Seq<char>| token_event(k, t)))
            == Seq::<char>::empty(),
    decreases toks.len(),
{
    let evs = toks.map_values(|t: Seq<char>| token_event(k, t));
    if toks.len() > 0 {
        lemma_token_run(toks.drop_last(), k);
        assert(evs.drop_last() =~= toks.drop_last().map_values(|t: Seq<char>| token_event(k, t)));
        assert(evs.last() == token_event(k, toks.last()));
        assert(Seq::<char>::empty() + Seq::<char>::empty() =~= Seq::<char>::empty());
    } else {
        assert(evs.len() == 0);
    }
}

proof fn lemma_no_tokens(evs: Seq<EventView>)
    requires
        forall|i: int| 0 <= i < evs.len() ==> !paced(#[trigger] evs[i]),
    ensures
        streamed_tokens(evs) == 0,
        streamed_thinking(evs) == Seq::<char>::empty(),
        streamed_answer(evs) == Seq::<char>::empty(),
    decreases evs.len(),
{
    if evs.len() > 0 {
        assert(!paced(evs[evs.len() - 1]));
        lemma_no_tokens(evs.drop_last());
        assert(Seq::<char>::empty() + Seq::<char>::empty() =~= Seq::<char>::empty());
    }
}

/// A streamed OpenAI answer spells out the whole thinking in its
/// `reasoning_content` chunks and the whole answer in its `content` chunks,
/// and streams exactly as many tokens as the two have.
pub proof fn lemma_openai_stream_spells_script(thinking: Seq<char>, answer: Seq<char>, usage: Usage)
    ensures
        streamed_thinking(openai_events(thinking, answer, usage)) == thinking,
        streamed_answer(openai_events(thinking, answer, usage)) == answer,
        streamed_tokens(openai_events(thinking, answer, usage)) == tokens(thinking).len() + tokens(
            answer,
        ).len(),
{
    lemma_tokens_concat(thinking);
    lemma_tokens_concat(answer);
    let head = seq![EventView::Role];
    let th = tokens(thinking).map_values(|t: Seq<char>| EventView::Reasoning(t));
    let an = tokens(answer).map_values(|t: Seq<char>| EventView::Content(t));
    let tail = seq![EventView::Finish, EventView::UsageReport(usage), EventView::Done];
    assert(th =~= tokens(thinking).map_values(|t: Seq<char>| token_event(TokenKind::Reasoning, t)));
    assert(an =~= tokens(answer).map_values(|t: Seq<char>| token_event(TokenKind::Content, t)));
    lemma_token_run(tokens(thinking), TokenKind::Reasoning);
    lemma_token_run(tokens(answer), TokenKind::Content);
    lemma_no_tokens(head);
    lemma_no_tokens(tail);
    lemma_stream_split(head, th);
    lemma_stream_split(head + th, an);
    lemma_stream_split(head + th + an, tail);
    assert(Seq::<char>::empty() + thinking + Seq::<char>::empty() + Seq::<char>::empty() =~= thinking);
    assert(Seq::<char>::empty() + Seq::<char>::empty() + answer + Seq::<char>::empty() =~= answer);
}

/// A streamed Anthropic answer spells out the whole thinking in its
/// `thinking_delta` events and the whole answer in its `text_delta`
/// events, and streams exactly as many tokens as the two have.
pub proof fn lemma_anthropic_stream_spells_script(
    thinking: Seq<char>,
    answer: Seq<char>,
    prompt_tokens: usize,
    output: usize,
)
    ensures
        streamed_thinking(anthropic_events(thinking, answer, prompt_tokens, output)) == thinking,
        streamed_answer(anthropic_events(thinking, answer, prompt_tokens, output)) == answer,
        streamed_tokens(anthropic_events(thinking, answer, prompt_tokens, output)) == tokens(
            thinking,
        ).len() + tokens(answer).len(),
{
    lemma_tokens_concat(thinking);
    lemma_tokens_concat(answer);
    let index: usize = if thinking.len() > 0 {
        1
    } else {
        0
    };
    let head = seq![EventView::MessageStart(prompt_tokens)];
    let start = seq![EventView::ThinkingStart(0)];
    let th = tokens(thinking).map_values(|t: Seq<char>| EventView::ThinkingDelta(0, t));
    let close = seq![EventView::SignatureDelta(0), EventView::BlockStop(0)];
    let think = if thinking.len() > 0 {
        start + th + close
    } else {
        seq![]
    };
    let text_start = seq![EventView::TextStart(index)];
    let an = tokens(answer).map_values(|t: Seq<char>| EventView::TextDelta(index, t));
    let tail = seq![EventView::BlockStop(index), EventView::MessageDelta(output), EventView::MessageStop];
    assert(th =~= tokens(thinking).map_values(|t: Seq<char>| token_event(TokenKind::Thinking(0), t)));
    assert(an =~= tokens(answer).map_values(|t: Seq<char>| token_event(TokenKind::Text(index), t)));
    lemma_token_run(tokens(thinking), TokenKind::Thinking(0));
    lemma_token_run(tokens(answer), TokenKind::Text(index));
    lemma_no_tokens(head);
    lemma_no_tokens(start);
    lemma_no_tokens(close);
    lemma_no_tokens(text_start);
    lemma_no_tokens(tail);
    if thinking.len() > 0 {
        lemma_stream_split(start, th);
        lemma_stream_split(start + th, close);
        assert(streamed_thinking(think) =~= thinking);
        assert(streamed_answer(think) =~= Seq::<char>::empty());
    } else {
        lemma_no_tokens(think);
        assert(tokens(thinking).len() == 0) by {
            assert(thinking =~= Seq::<char>::empty());
            lemma_tokens_len(thinking);
        }
        assert(concat(tokens(thinking)) == thinking);
    }
    lemma_stream_split(head, think);
    lemma_stream_split(head + think, text_start);
    lemma_stream_split(head + think + text_start, an);
    lemma_stream_split(head + think + text_start + an, tail);
    assert(streamed_thinking(head + think + text_start + an + tail) =~= thinking);
    assert(streamed_answer(head + think + text_start + an + tail) =~= answer);
}
} // verus!
