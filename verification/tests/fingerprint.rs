use reliable_provider::fingerprint::{
    cache_key_chat, cache_key_history, context_fingerprint, frame_messages, history_key_from,
    role_from_name, role_text, serialize_history, ChatMessage, Role,
};
use reliable_provider::settings::EngineSettings;

#[test]
fn chat_key_writes_each_part_behind_its_length() {
    assert_eq!(
        cache_key_chat(Some("sys"), "hello", "m", "0.0000", "ctx"),
        "chat|3:sys5:hello1:m6:0.00003:ctx"
    );
    assert_eq!(
        cache_key_chat(None, "hello", "m", &format!("{:.4}", 0.7), "ctx"),
        "chat|0:5:hello1:m6:0.70003:ctx"
    );
    assert_eq!(cache_key_chat(None, "", "", "", ""), "chat|0:0:0:0:0:");
    // Lengths count characters, not bytes.
    assert_eq!(
        cache_key_chat(Some("\u{e9}\u{1F600}"), "0123456789ab", "", "", ""),
        "chat|2:\u{e9}\u{1F600}12:0123456789ab0:0:0:"
    );
}

#[test]
fn parts_that_join_alike_get_different_keys() {
    let pairs = [
        (("a|b", "c"), ("a", "b|c")),
        (("a", "b"), ("ab", "")),
        (("", "ab"), ("ab", "")),
        (("1:a", ""), ("a", "1:")),
        (("1", ":a0:"), ("1:", "a0:")),
        (("3:abc", "x"), ("abc", "3:x")),
        (("0:", ""), ("", "0:")),
    ];
    for ((s1, m1), (s2, m2)) in pairs {
        assert_ne!(
            cache_key_chat(Some(s1), m1, "m", "0.0000", "c"),
            cache_key_chat(Some(s2), m2, "m", "0.0000", "c"),
            "{:?} {:?} / {:?} {:?}",
            s1,
            m1,
            s2,
            m2
        );
    }
    assert_ne!(
        cache_key_chat(None, "q", "m|0.5000", "", "c"),
        cache_key_chat(None, "q", "m", "0.5000|", "c")
    );
    assert_ne!(
        history_key_from("[]|m", "", "t", "c"),
        history_key_from("[]", "m|", "t", "c")
    );
    assert_ne!(
        cache_key_chat(None, "", "", "", ""),
        history_key_from("", "", "", "")
    );
}

#[test]
fn provider_chains_that_join_alike_get_different_contexts() {
    let none = EngineSettings::none();
    let one = vec!["a,b".to_string()];
    let two = vec!["a".to_string(), "b".to_string()];
    assert_ne!(context_fingerprint(&one, &none), context_fingerprint(&two, &none));
    let empty: Vec<String> = vec![];
    let blank = vec!["".to_string()];
    assert_ne!(context_fingerprint(&empty, &none), context_fingerprint(&blank, &none));
    let mut left = EngineSettings::none();
    left.provider_id = Some("x;base_url=y".to_string());
    let mut right = EngineSettings::none();
    right.provider_id = Some("x".to_string());
    right.provider_base_url = Some("y".to_string());
    assert_ne!(context_fingerprint(&two, &left), context_fingerprint(&two, &right));
    // An absent setting and an empty one count alike.
    let mut blank_id = EngineSettings::none();
    blank_id.provider_id = Some("".to_string());
    assert_eq!(context_fingerprint(&two, &blank_id), context_fingerprint(&two, &none));
}

#[test]
fn absent_and_empty_system_prompt_share_a_key() {
    assert_eq!(
        cache_key_chat(None, "a", "m", "1.0000", "c"),
        cache_key_chat(Some(""), "a", "m", "1.0000", "c")
    );
}

#[test]
fn chat_key_changes_with_each_part() {
    let base = cache_key_chat(Some("s"), "a", "m", "0.5000", "c");
    assert_ne!(base, cache_key_chat(Some("t"), "a", "m", "0.5000", "c"));
    assert_ne!(base, cache_key_chat(Some("s"), "b", "m", "0.5000", "c"));
    assert_ne!(base, cache_key_chat(Some("s"), "a", "n", "0.5000", "c"));
    assert_ne!(base, cache_key_chat(Some("s"), "a", "m", "0.5001", "c"));
    assert_ne!(base, cache_key_chat(Some("s"), "a", "m", "0.5000", "d"));
}

#[test]
fn history_is_serialized_as_json_array_role_first() {
    let messages = vec![ChatMessage::system("system"), ChatMessage::user("hello")];
    assert_eq!(
        serialize_history(&messages),
        "[{\"role\":\"system\",\"content\":\"system\"},{\"role\":\"user\",\"content\":\"hello\"}]"
    );
    assert_eq!(serialize_history(&vec![]), "[]");
}

#[test]
fn history_serialization_is_valid_json_with_the_same_fields() {
    let messages = vec![
        ChatMessage::system("be \"brief\""),
        ChatMessage::user("line1\nline2\ttab \\ slash \u{1} \u{e9} \u{1F600}"),
        ChatMessage::assistant(""),
        ChatMessage::tool("{\"k\":[1,2]}"),
    ];
    let json = serialize_history(&messages);
    let parsed: serde_json::Value = serde_json::from_str(&json).unwrap();
    let items = parsed.as_array().unwrap();
    assert_eq!(items.len(), 4);
    let roles = ["system", "user", "assistant", "tool"];
    for (i, item) in items.iter().enumerate() {
        let object = item.as_object().unwrap();
        assert_eq!(object.len(), 2);
        assert_eq!(object.get("role").unwrap().as_str().unwrap(), roles[i]);
        assert_eq!(
            object.get("content").unwrap().as_str().unwrap(),
            messages[i].content
        );
    }
}

#[test]
fn content_is_escaped_by_the_json_rules() {
    let messages = vec![ChatMessage::user("a\"b\\c\nd")];
    assert_eq!(
        serialize_history(&messages),
        "[{\"role\":\"user\",\"content\":\"a\\\"b\\\\c\\nd\"}]"
    );
}

#[test]
fn frame_messages_frames_what_it_is_given() {
    let parts = vec![
        (Role::User, "\"hi\"".to_string()),
        (Role::Tool, "\"x\"".to_string()),
    ];
    assert_eq!(
        frame_messages(&parts),
        "[{\"role\":\"user\",\"content\":\"hi\"},{\"role\":\"tool\",\"content\":\"x\"}]"
    );
    assert_eq!(frame_messages(&vec![]), "[]");
    assert_eq!(
        frame_messages(&vec![(Role::Assistant, "\"\"".to_string())]),
        "[{\"role\":\"assistant\",\"content\":\"\"}]"
    );
}

#[test]
fn roles_have_their_lower_case_names() {
    assert_eq!(role_text(Role::System), "system");
    assert_eq!(role_text(Role::User), "user");
    assert_eq!(role_text(Role::Assistant), "assistant");
    assert_eq!(role_text(Role::Tool), "tool");
}

#[test]
fn history_key_frames_the_serialized_conversation() {
    let messages = vec![ChatMessage::user("hello")];
    assert_eq!(
        cache_key_history(&messages, "test", "0.0000", "ctx"),
        "history|35:[{\"role\":\"user\",\"content\":\"hello\"}]4:test6:0.00003:ctx"
    );
    assert_eq!(history_key_from("[]", "m", "t", "c"), "history|2:[]1:m1:t1:c");
}

#[test]
fn history_key_depends_on_order_and_role() {
    let a = vec![ChatMessage::user("x"), ChatMessage::assistant("y")];
    let b = vec![ChatMessage::assistant("y"), ChatMessage::user("x")];
    let c = vec![ChatMessage::user("x"), ChatMessage::tool("y")];
    let ka = cache_key_history(&a, "m", "0.0000", "");
    assert_ne!(ka, cache_key_history(&b, "m", "0.0000", ""));
    assert_ne!(ka, cache_key_history(&c, "m", "0.0000", ""));
    assert_eq!(ka, cache_key_history(&a.clone(), "m", "0.0000", ""));
}

#[test]
fn context_lists_the_chain_and_every_setting() {
    let names = vec!["primary".to_string(), "fallback".to_string()];
    assert_eq!(
        context_fingerprint(&names, &EngineSettings::none()),
        "19:7:primary8:fallback0:0:0:0:0:0:0:0:"
    );
    let mut s = EngineSettings::none();
    s.provider_id = Some("id".to_string());
    s.provider_base_url = Some("https://x/v1".to_string());
    s.tool_schema_hash = Some("abc".to_string());
    s.system_prompt_version = Some("v2".to_string());
    s.provider_auth_style = Some("bearer".to_string());
    s.provider_top_p = Some("0.9".to_string());
    s.provider_max_tokens = Some("512".to_string());
    s.provider_cache_context = Some("extra".to_string());
    assert_eq!(
        context_fingerprint(&vec![], &s),
        "0:2:id12:https://x/v13:abc2:v26:bearer3:0.93:5125:extra"
    );
}

#[test]
fn role_names_are_read_back_exactly() {
    for role in [Role::System, Role::User, Role::Assistant, Role::Tool] {
        assert_eq!(role_from_name(role_text(role)), Some(role));
    }
    for name in ["", "System", "USER", "user ", "developer", "tools"] {
        assert_eq!(role_from_name(name), None, "{:?}", name);
    }
}
