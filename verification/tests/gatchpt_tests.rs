use panopticon::gatchpt::{
    is_gatchpt_base, join_strings, last_user_text, prompt_tokens_for, proto_for_path, quote_snippet, refusal_answer,
    tokenize, read_chat_request, fill_slot, thought_text, ThoughtPlan, Content, EffortField, Emitter, Message, Proto, Script, StreamEvent, ThoughtCollector, MODEL,
};

fn msg(role: Option<&str>, content: Content) -> Message {
    Message { role: role.map(|r| r.to_string()), content }
}

fn strs(v: &[&str]) -> Vec<String> {
    v.iter().map(|x| x.to_string()).collect()
}

#[test]
fn gatchpt_bases() {
    assert_eq!(MODEL, "gatchpt");
    assert!(is_gatchpt_base("gatchpt"));
    assert!(is_gatchpt_base("https://example.com/gatchpt"));
    assert!(is_gatchpt_base("/gatchpt"));
    assert!(!is_gatchpt_base("https://example.com/gatchpt/"));
    assert!(!is_gatchpt_base("xgatchpt"));
    assert!(!is_gatchpt_base("GATCHPT"));
}

#[test]
fn endpoint_protocols() {
    assert_eq!(proto_for_path("/gatchpt/v1/messages"), Some(Proto::Anthropic));
    assert_eq!(proto_for_path("/gatchpt/v1/chat/completions"), Some(Proto::OpenAi));
    assert_eq!(proto_for_path("/v1/models"), None);
    assert_eq!(proto_for_path("/v1/messages/"), None);
}

#[test]
fn tokens_by_word_and_wide_pairs() {
    assert_eq!(tokenize("Hello, world! 你好世界"), strs(&["Hello, ", "world! ", "你好", "世界"]));
    assert_eq!(tokenize("ab你c"), strs(&["ab", "你", "c"]));
    assert_eq!(tokenize("a  b"), strs(&["a ", " ", "b"]));
    assert_eq!(tokenize("你好吗"), strs(&["你好", "吗"]));
    assert_eq!(tokenize("line\nnext"), strs(&["line\n", "next"]));
    assert!(tokenize("").is_empty());
}

#[test]
fn tokens_join_back_to_the_text() {
    for text in ["Hello, world! 你好世界", "抱歉，作为一个大语言模型。\n\n- a\n", "  x  ", "😊ok", ""] {
        let toks = tokenize(text);
        assert_eq!(toks.concat(), text);
        assert!(toks.iter().all(|t| !t.is_empty()));
    }
}

#[test]
fn join_with_separator() {
    assert_eq!(join_strings(&strs(&["a", "b", "c"]), " "), "a b c");
    assert_eq!(join_strings(&strs(&["a"]), "\n"), "a");
    assert_eq!(join_strings(&vec![], "\n"), "");
}

#[test]
fn last_user_message_text() {
    let ms = vec![
        msg(Some("user"), Content::Text("first".into())),
        msg(Some("assistant"), Content::Text("reply".into())),
        msg(Some("user"), Content::Blocks(vec![Some("  hello".into()), None, Some("world  ".into())])),
        msg(Some("assistant"), Content::Text("later".into())),
    ];
    assert_eq!(last_user_text(&Some(ms)), "hello\nworld");
    assert_eq!(last_user_text(&None), "(empty)");
    assert_eq!(last_user_text(&Some(vec![])), "(empty)");
    assert_eq!(last_user_text(&Some(vec![msg(Some("user"), Content::Text(" \t\n".into()))])), "(empty)");
    assert_eq!(last_user_text(&Some(vec![msg(Some("user"), Content::Other)])), "(empty)");
    assert_eq!(last_user_text(&Some(vec![msg(None, Content::Text("x".into()))])), "(empty)");
    assert_eq!(last_user_text(&Some(vec![msg(Some("User"), Content::Text("x".into()))])), "(empty)");
    assert_eq!(last_user_text(&Some(vec![msg(Some("user"), Content::Text("\u{3000}问题\u{a0}".into()))])), "问题");
}

#[test]
fn refusal_text() {
    let a = refusal_answer("理由。", &strs(&["甲", "乙", "丙"]), "再见");
    assert_eq!(
        a,
        "抱歉，作为一个大语言模型，我无法处理这个请求。理由。\n\n如果你需要，我可以帮你：\n\n- 甲\n- 乙\n- 丙\n\n再见"
    );
}

fn emitter(proto: Proto) -> Emitter {
    Emitter { proto, id: "gatchpt-1".into(), created: 7, prompt_tokens: 5 }
}

fn script() -> Script {
    Script { thoughts: strs(&["Hmm.", "Yes."]), answer: "No 不行".into() }
}

fn dbg(v: &[StreamEvent]) -> Vec<String> {
    v.iter().map(|e| format!("{e:?}")).collect()
}

#[test]
fn complete_counts_tokens() {
    let c = emitter(Proto::OpenAi).complete(&script());
    assert_eq!(c.thinking.as_deref(), Some("Hmm. Yes."));
    assert_eq!(c.answer, "No 不行");
    assert_eq!(c.usage.prompt_tokens, 5);
    assert_eq!(c.usage.completion_tokens, 4);
    assert_eq!(c.usage.total_tokens, 9);
    let quiet = Script { thoughts: vec![], answer: "x".into() };
    let c = emitter(Proto::Anthropic).complete(&quiet);
    assert!(c.thinking.is_none());
    assert_eq!(c.usage.completion_tokens, 1);
}

#[test]
fn openai_stream_events() {
    let ev = emitter(Proto::OpenAi).stream_events(&script());
    assert_eq!(
        dbg(&ev),
        vec![
            "Role",
            "Reasoning(\"Hmm. \")",
            "Reasoning(\"Yes.\")",
            "Content(\"No \")",
            "Content(\"不行\")",
            "Finish",
            "UsageReport(Usage { prompt_tokens: 5, completion_tokens: 4, total_tokens: 9 })",
            "Done",
        ]
    );
    assert!(ev[0].ends_on_failure() && !ev[0].paced());
    assert!(ev[1].ends_on_failure() && ev[1].paced());
    assert!(!ev[5].ends_on_failure() && !ev[5].paced());
}

#[test]
fn anthropic_stream_events() {
    let ev = emitter(Proto::Anthropic).stream_events(&script());
    assert_eq!(
        dbg(&ev),
        vec![
            "MessageStart(5)",
            "ThinkingStart(0)",
            "ThinkingDelta(0, \"Hmm. \")",
            "ThinkingDelta(0, \"Yes.\")",
            "SignatureDelta(0)",
            "BlockStop(0)",
            "TextStart(1)",
            "TextDelta(1, \"No \")",
            "TextDelta(1, \"不行\")",
            "BlockStop(1)",
            "MessageDelta(4)",
            "MessageStop",
        ]
    );
    let quiet = Script { thoughts: vec![], answer: "ok".into() };
    let ev = emitter(Proto::Anthropic).stream_events(&quiet);
    assert_eq!(
        dbg(&ev),
        vec!["MessageStart(5)", "TextStart(0)", "TextDelta(0, \"ok\")", "BlockStop(0)", "MessageDelta(1)", "MessageStop"]
    );
    assert!(ev[0].ends_on_failure());
    assert!(!ev[1].ends_on_failure());
    assert!(ev[2].ends_on_failure() && ev[2].paced());
}

#[test]
fn streamed_text_spells_the_answer() {
    let ev = emitter(Proto::OpenAi).stream_events(&script());
    let mut thinking = String::new();
    let mut answer = String::new();
    let mut n = 0;
    for e in &ev {
        match e {
            StreamEvent::Reasoning(t) => { thinking.push_str(t); n += 1; }
            StreamEvent::Content(t) => { answer.push_str(t); n += 1; }
            StreamEvent::UsageReport(u) => assert_eq!(u.completion_tokens, n),
            _ => {}
        }
    }
    assert_eq!(thinking, "Hmm. Yes.");
    assert_eq!(answer, "No 不行");
}

#[test]
fn prompt_token_estimate() {
    assert_eq!(prompt_tokens_for(0), 1);
    assert_eq!(prompt_tokens_for(3), 1);
    assert_eq!(prompt_tokens_for(4), 2);
    assert_eq!(prompt_tokens_for(41), 11);
}

#[test]
fn collector_keeps_distinct_thoughts() {
    let mut c = ThoughtCollector::new(2);
    assert!(c.wants_more());
    c.offer("a".into());
    c.offer("a".into());
    assert!(c.wants_more());
    c.offer("b".into());
    assert!(!c.wants_more());
    assert_eq!(c.into_thoughts(), strs(&["a", "b"]));
}

#[test]
fn collector_gives_up_after_twenty_offers_each() {
    let mut c = ThoughtCollector::new(2);
    let mut offers = 0;
    while c.wants_more() {
        c.offer("same".into());
        offers += 1;
    }
    assert_eq!(offers, 40);
    assert_eq!(c.into_thoughts(), strs(&["same"]));
    let c = ThoughtCollector::new(0);
    assert!(!c.wants_more());
}

#[test]
fn question_quotes() {
    assert_eq!(quote_snippet("short"), "short");
    let forty = "a".repeat(40);
    assert_eq!(quote_snippet(&forty), forty);
    let long = "问".repeat(41);
    assert_eq!(quote_snippet(&long), format!("{}...", "问".repeat(40)));
}

#[test]
fn request_not_json() {
    assert!(read_chat_request(Proto::OpenAi, b"{not json").is_none());
    assert!(read_chat_request(Proto::Anthropic, b"").is_none());
}

#[test]
fn request_messages_and_stream() {
    let body = br#"{"messages":[{"role":"user","content":"hi"},{"role":"assistant","content":[{"type":"text","text":"a"},{"type":"image"}]},{"content":5}],"stream":true}"#;
    let req = read_chat_request(Proto::OpenAi, body).unwrap();
    assert!(req.stream);
    let ms = req.messages.as_ref().unwrap();
    assert_eq!(ms.len(), 3);
    assert_eq!(format!("{:?}", ms[0]), format!("{:?}", msg(Some("user"), Content::Text("hi".to_string()))));
    assert_eq!(
        format!("{:?}", ms[1]),
        format!("{:?}", msg(Some("assistant"), Content::Blocks(vec![Some("a".to_string()), None])))
    );
    assert_eq!(format!("{:?}", ms[2]), format!("{:?}", msg(None, Content::Other)));
    assert_eq!(last_user_text(&req.messages), "hi");
    let text = r#"[{"role":"user","content":"hi"},{"role":"assistant","content":[{"type":"text","text":"a"},{"type":"image"}]},{"content":5}]"#;
    assert_eq!(req.messages_text_len, text.len());
    assert_eq!(req.effort, EffortField::Unset);
}

#[test]
fn request_without_messages() {
    let req = read_chat_request(Proto::OpenAi, br#"{"stream":"yes"}"#).unwrap();
    assert!(!req.stream);
    assert!(req.messages.is_none());
    assert_eq!(req.messages_text_len, 4);
    let req = read_chat_request(Proto::OpenAi, br#"{"messages": [ ], "stream": false}"#).unwrap();
    assert!(!req.stream);
    assert_eq!(req.messages.as_ref().map(|m| m.len()), Some(0));
    assert_eq!(req.messages_text_len, 2);
    assert_eq!(prompt_tokens_for(req.messages_text_len), 1);
    let req = read_chat_request(Proto::Anthropic, "{\"messages\":\"é\"}".as_bytes()).unwrap();
    assert!(req.messages.is_none());
    assert_eq!(req.messages_text_len, 4);
}

#[test]
fn request_effort_openai() {
    let e = |b: &[u8]| read_chat_request(Proto::OpenAi, b).unwrap().effort;
    assert_eq!(e(br#"{"reasoning_effort":"none"}"#), EffortField::Off);
    assert_eq!(e(br#"{"reasoning_effort":"low"}"#), EffortField::Level("low".to_string()));
    assert_eq!(e(br#"{"reasoning_effort":3}"#), EffortField::Unset);
    assert_eq!(e(br#"{"thinking":{"type":"disabled"}}"#), EffortField::Unset);
}

#[test]
fn request_effort_anthropic() {
    let e = |b: &[u8]| read_chat_request(Proto::Anthropic, b).unwrap().effort;
    assert_eq!(
        e(br#"{"thinking":{"type":"disabled","budget_tokens":100},"output_config":{"effort":"high"}}"#),
        EffortField::Off
    );
    assert_eq!(
        e(br#"{"thinking":{"type":"enabled","budget_tokens":100},"output_config":{"effort":"high"}}"#),
        EffortField::Level("high".to_string())
    );
    assert_eq!(e(br#"{"thinking":{"type":"enabled","budget_tokens":16000}}"#), EffortField::Budget("16000".to_string()));
    assert_eq!(e(br#"{"thinking":{"budget_tokens":2.5}}"#), EffortField::Budget("2.5".to_string()));
    assert_eq!(e(br#"{"thinking":{"budget_tokens":"many"}}"#), EffortField::Unset);
    assert_eq!(e(br#"{"reasoning_effort":"none"}"#), EffortField::Unset);
}

#[test]
fn slots_filled_like_str_replace() {
    assert_eq!(fill_slot("Hold on. {n} might matter; {n}!", "{n}", "beam search"), "Hold on. beam search might matter; beam search!");
    assert_eq!(fill_slot("no slot here", "{q}", "x"), "no slot here");
    assert_eq!(fill_slot("{q}{q}", "{q}", "\"q\""), "\"q\"\"q\"");
    assert_eq!(fill_slot("aaa", "aa", "b"), "ba");
    assert_eq!(fill_slot("abc", "", "-"), "abc".replace("", "-"));
    assert_eq!(fill_slot("", "", "-"), "-");
    assert_eq!(fill_slot("评分 {risk} 边界", "{risk}", "0.5"), "评分 0.5 边界");
}

#[test]
fn thought_texts() {
    let s = |x: &str| x.to_string();
    let st = ThoughtPlan::Statement(s("the attention mechanism"), s("suggests"), s("beam search"));
    assert_eq!(thought_text(&st), "The attention mechanism suggests beam search.");
    let st = ThoughtPlan::Statement(s("ärger"), s("complicates"), s("this"));
    assert_eq!(thought_text(&st), "Ärger complicates this.");
    let w = ThoughtPlan::Words(strs(&["Is", "beam search", "safe to engage with at face value?"]));
    assert_eq!(thought_text(&w), "Is beam search safe to engage with at face value?");
    let f = ThoughtPlan::Filled {
        template: s("Hmm, re-reading the input: \"{q}\", I need to reconsider."),
        slot: s("{q}"),
        value: quote_snippet("hello"),
    };
    assert_eq!(thought_text(&f), "Hmm, re-reading the input: \"hello\", I need to reconsider.");
}
