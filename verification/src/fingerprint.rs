//! Request fingerprints: the text under which a response is cached and
//! under which concurrent requests are coalesced. Every part of a
//! fingerprint is written behind its length, so that a fingerprint
//! determines its parts and no two requests that differ share one.

use crate::settings::{text_or_empty, EngineSettings};
use crate::text::{
    append_sized, join, joined, lemma_sized_all_push, lemma_sized_all_unique, sized, sized_all,
    views,
};
use vstd::prelude::*;
use vstd::string::StringExecFns;

verus! {

/// Who speaks in a message of a conversation.
#[derive(Clone, Copy, Debug, PartialEq, Eq, Structural)]
pub enum Role {
    System,
    User,
    Assistant,
    Tool,
}

/// One message of a conversation.
#[derive(Clone, Debug)]
pub struct ChatMessage {
    pub role: Role,
    pub content: String,
}

/// The name of a role in a serialized message.
pub open spec fn role_name(role: Role) -> Seq<char> {
    match role {
        Role::System => "system"@,
        Role::User => "user"@,
        Role::Assistant => "assistant"@,
        Role::Tool => "tool"@,
    }
}

/// What `serde_json::to_string` makes of a text: the text as a JSON string
/// with its quotes, or `None` where serialization fails.
pub uninterp spec fn json_string(text: Seq<char>) -> Option<Seq<char>>;

/// One serialized message, given its content as a JSON string: an object
/// with the role first and the content second.
pub open spec fn message_json(role: Role, quoted_content: Seq<char>) -> Seq<char> {
    "{\"role\":\""@ + role_name(role) + "\",\"content\":"@ + quoted_content + "}"@
}

/// The serialized messages of `parts`, each given by its role and its
/// content as a JSON string.
pub open spec fn messages_json(parts: Seq<(Role, Seq<char>)>) -> Seq<Seq<char>> {
    parts.map_values(|p: (Role, Seq<char>)| message_json(p.0, p.1))
}

/// A serialized conversation: a JSON array of the serialized messages.
pub open spec fn framed(parts: Seq<(Role, Seq<char>)>) -> Seq<char> {
    "["@ + joined(messages_json(parts), ","@) + "]"@
}

/// Every content of `messages` serializes.
pub open spec fn all_serialize(messages: Seq<ChatMessage>) -> bool {
    forall|i: int| 0 <= i < messages.len() ==> json_string(#[trigger] messages[i].content@) is Some
}

/// The roles of `messages`, each with its content as a JSON string.
pub open spec fn quoted_parts(messages: Seq<ChatMessage>) -> Seq<(Role, Seq<char>)> {
    messages.map_values(|m: ChatMessage| (m.role, json_string(m.content@).unwrap()))
}

/// The serialized form of a conversation: its messages in order, each with
/// its fields in the order role, content. A conversation with a content
/// that does not serialize has the empty text for its serialized form.
pub open spec fn history_json(messages: Seq<ChatMessage>) -> Seq<char> {
    if all_serialize(messages) {
        framed(quoted_parts(messages))
    } else {
        Seq::empty()
    }
}

/// The fingerprint of a single-turn request: its kind, then each part
/// behind its length, so that requests with the same fingerprint agree in
/// every part.
pub open spec fn chat_key(
    system_prompt: Seq<char>,
    message: Seq<char>,
    model: Seq<char>,
    temperature: Seq<char>,
    context: Seq<char>,
) -> Seq<char> {
    "chat|"@ + sized_all(seq![system_prompt, message, model, temperature, context])
}

/// The fingerprint of a request with a serialized conversation: its kind,
/// then each part behind its length.
pub open spec fn history_key(
    messages_json: Seq<char>,
    model: Seq<char>,
    temperature: Seq<char>,
    context: Seq<char>,
) -> Seq<char> {
    "history|"@ + sized_all(seq![messages_json, model, temperature, context])
}

/// The settings that shape a response, in the order in which a fingerprint
/// lists them; an absent one counts as the empty text.
pub open spec fn context_settings(settings: EngineSettings) -> Seq<Seq<char>> {
    seq![
        text_or_empty(settings.provider_id),
        text_or_empty(settings.provider_base_url),
        text_or_empty(settings.tool_schema_hash),
        text_or_empty(settings.system_prompt_version),
        text_or_empty(settings.provider_auth_style),
        text_or_empty(settings.provider_top_p),
        text_or_empty(settings.provider_max_tokens),
        text_or_empty(settings.provider_cache_context),
    ]
}

/// The part of every fingerprint that is fixed when an engine is built: the
/// provider chain, then the settings that shape a response, each behind its
/// length.
pub open spec fn context_text(provider_names: Seq<Seq<char>>, settings: EngineSettings) -> Seq<
    char,
> {
    sized_all(seq![sized_all(provider_names)] + context_settings(settings))
}

/// Requests with the same fingerprint agree in every part: no two
/// single-turn requests that differ in system prompt, message, model,
/// temperature or context share a fingerprint.
pub proof fn theorem_chat_key_determines_parts(
    system_prompt: Seq<char>,
    message: Seq<char>,
    model: Seq<char>,
    temperature: Seq<char>,
    context: Seq<char>,
    other_system_prompt: Seq<char>,
    other_message: Seq<char>,
    other_model: Seq<char>,
    other_temperature: Seq<char>,
    other_context: Seq<char>,
)
    requires
        chat_key(system_prompt, message, model, temperature, context) == chat_key(
            other_system_prompt,
            other_message,
            other_model,
            other_temperature,
            other_context,
        ),
    ensures
        system_prompt == other_system_prompt,
        message == other_message,
        model == other_model,
        temperature == other_temperature,
        context == other_context,
{
    let parts = seq![system_prompt, message, model, temperature, context];
    let others = seq![
        other_system_prompt,
        other_message,
        other_model,
        other_temperature,
        other_context,
    ];
    let kind = "chat|"@;
    assert((kind + sized_all(parts)).skip(kind.len() as int) =~= sized_all(parts));
    assert((kind + sized_all(others)).skip(kind.len() as int) =~= sized_all(others));
    lemma_sized_all_unique(parts, others);
    assert(parts[0] == others[0]);
    assert(parts[1] == others[1]);
    assert(parts[2] == others[2]);
    assert(parts[3] == others[3]);
    assert(parts[4] == others[4]);
}

/// Requests with the same fingerprint agree in every part: no two requests
/// that differ in serialized conversation, model, temperature or context
/// share a fingerprint.
pub proof fn theorem_history_key_determines_parts(
    messages_json: Seq<char>,
    model: Seq<char>,
    temperature: Seq<char>,
    context: Seq<char>,
    other_messages_json: Seq<char>,
    other_model: Seq<char>,
    other_temperature: Seq<char>,
    other_context: Seq<char>,
)
    requires
        history_key(messages_json, model, temperature, context) == history_key(
            other_messages_json,
            other_model,
            other_temperature,
            other_context,
        ),
    ensures
        messages_json == other_messages_json,
        model == other_model,
        temperature == other_temperature,
        context == other_context,
{
    let parts = seq![messages_json, model, temperature, context];
    let others = seq![other_messages_json, other_model, other_temperature, other_context];
    let kind = "history|"@;
    assert((kind + sized_all(parts)).skip(kind.len() as int) =~= sized_all(parts));
    assert((kind + sized_all(others)).skip(kind.len() as int) =~= sized_all(others));
    lemma_sized_all_unique(parts, others);
    assert(parts[0] == others[0]);
    assert(parts[1] == others[1]);
    assert(parts[2] == others[2]);
    assert(parts[3] == others[3]);
}

/// A single-turn request and a request with a conversation never share a
/// fingerprint.
pub proof fn theorem_kinds_of_key_differ(
    system_prompt: Seq<char>,
    message: Seq<char>,
    messages_json: Seq<char>,
    model: Seq<char>,
    temperature: Seq<char>,
    context: Seq<char>,
)
    ensures
        chat_key(system_prompt, message, model, temperature, context) != history_key(
            messages_json,
            model,
            temperature,
            context,
        ),
{
    reveal_strlit("chat|");
    reveal_strlit("history|");
    let chat = chat_key(system_prompt, message, model, temperature, context);
    let history = history_key(messages_json, model, temperature, context);
    assert(chat[0] == 'c');
    assert(history[0] == 'h');
}

/// Engines with the same fixed part have the same provider chain and the
/// same settings that shape a response.
pub proof fn theorem_context_determines_parts(
    provider_names: Seq<Seq<char>>,
    settings: EngineSettings,
    other_names: Seq<Seq<char>>,
    other_settings: EngineSettings,
)
    requires
        context_text(provider_names, settings) == context_text(other_names, other_settings),
    ensures
        provider_names == other_names,
        context_settings(settings) == context_settings(other_settings),
{
    let parts = seq![sized_all(provider_names)] + context_settings(settings);
    let others = seq![sized_all(other_names)] + context_settings(other_settings);
    lemma_sized_all_unique(parts, others);
    assert(parts[0] == others[0]);
    lemma_sized_all_unique(provider_names, other_names);
    assert(context_settings(settings) =~= parts.skip(1));
    assert(context_settings(other_settings) =~= others.skip(1));
}

impl ChatMessage {
    /// A message of the system.
    pub fn system(content: &str) -> (m: Self)
        ensures
            m.role == Role::System,
            m.content@ == content@,
    {
        ChatMessage { role: Role::System, content: content.to_owned() }
    }

    /// A message of the user.
    pub fn user(content: &str) -> (m: Self)
        ensures
            m.role == Role::User,
            m.content@ == content@,
    {
        ChatMessage { role: Role::User, content: content.to_owned() }
    }

    /// A message of the assistant.
    pub fn assistant(content: &str) -> (m: Self)
        ensures
            m.role == Role::Assistant,
            m.content@ == content@,
    {
        ChatMessage { role: Role::Assistant, content: content.to_owned() }
    }

    /// A message of a tool.
    pub fn tool(content: &str) -> (m: Self)
        ensures
            m.role == Role::Tool,
            m.content@ == content@,
    {
        ChatMessage { role: Role::Tool, content: content.to_owned() }
    }
}

/// The name of `role` in a serialized message.
pub fn role_text(role: Role) -> (name: &'static str)
    ensures
        name@ == role_name(role),
{
    match role {
        Role::System => "system",
        Role::User => "user",
        Role::Assistant => "assistant",
        Role::Tool => "tool",
    }
}

/// The role that `name` names, if it names one.
pub fn role_from_name(name: &str) -> (role: Option<Role>)
    ensures
        match role {
            Some(r) => role_name(r) == name@,
            None => forall|r: Role| role_name(r) != name@,
        },
{
    let name = name.to_owned();
    if name == role_text(Role::System).to_owned() {
        Some(Role::System)
    } else if name == role_text(Role::User).to_owned() {
        Some(Role::User)
    } else if name == role_text(Role::Assistant).to_owned() {
        Some(Role::Assistant)
    } else if name == role_text(Role::Tool).to_owned() {
        Some(Role::Tool)
    } else {
        None
    }
}

/// The text of an optional setting, empty where it is absent.
fn or_empty(value: &Option<String>) -> (text: &str)
    ensures
        text@ == text_or_empty(*value),
{
    match value {
        Some(text) => text.as_str(),
        None => {
            proof {
                reveal_strlit("");
            }
            assert(""@ =~= Seq::<char>::empty());
            ""
        },
    }
}

/// Builds the part of every fingerprint that is fixed when an engine is
/// built: the provider chain and the settings that shape a response.
pub fn context_fingerprint(provider_names: &Vec<String>, settings: &EngineSettings) -> (text:
    String)
    ensures
        text@ == context_text(views(provider_names@), *settings),
{
    let ghost names = views(provider_names@);
    let mut chain = String::new();
    let mut i: usize = 0;
    while i < provider_names.len()
        invariant
            i <= provider_names.len(),
            names == views(provider_names@),
            chain@ == sized_all(names.take(i as int)),
        decreases provider_names.len() - i,
    {
        proof {
            lemma_sized_all_push(names.take(i as int), names[i as int]);
            assert(names.take(i as int).push(names[i as int]) =~= names.take(i + 1));
        }
        append_sized(&mut chain, provider_names[i].as_str());
        i = i + 1;
    }
    assert(names.take(i as int) =~= names);
    let ghost wanted = seq![sized_all(names)] + context_settings(*settings);
    let mut text = String::new();
    append_sized(&mut text, chain.as_str());
    append_sized(&mut text, or_empty(&settings.provider_id));
    append_sized(&mut text, or_empty(&settings.provider_base_url));
    append_sized(&mut text, or_empty(&settings.tool_schema_hash));
    append_sized(&mut text, or_empty(&settings.system_prompt_version));
    append_sized(&mut text, or_empty(&settings.provider_auth_style));
    append_sized(&mut text, or_empty(&settings.provider_top_p));
    append_sized(&mut text, or_empty(&settings.provider_max_tokens));
    append_sized(&mut text, or_empty(&settings.provider_cache_context));
    proof {
        lemma_sized_all_written(wanted, 9);
        assert(wanted.take(9) =~= wanted);
        assert(text@ =~= written(wanted, 9)) by {
            reveal_with_fuel(written, 10);
        }
    }
    text
}

/// What is written after the first `count` of `parts`, each behind its
/// length, one appended to the other.
spec fn written(parts: Seq<Seq<char>>, count: nat) -> Seq<char>
    decreases count,
{
    if count == 0 {
        Seq::empty()
    } else {
        written(parts, (count - 1) as nat) + sized(parts[count - 1])
    }
}

/// Appending the parts one by one writes the list.
proof fn lemma_sized_all_written(parts: Seq<Seq<char>>, count: nat)
    requires
        count <= parts.len(),
    ensures
        written(parts, count) == sized_all(parts.take(count as int)),
    decreases count,
{
    if count > 0 {
        lemma_sized_all_written(parts, (count - 1) as nat);
        lemma_sized_all_push(parts.take(count - 1), parts[count - 1]);
        assert(parts.take(count - 1).push(parts[count - 1]) =~= parts.take(count as int));
    }
}

/// Builds the fingerprint of a single-turn request.
///
/// `temperature` is the sampling temperature written with four decimals;
/// `context` is the engine's fixed part. An absent system prompt counts as
/// the empty text.
pub fn cache_key_chat(
    system_prompt: Option<&str>,
    message: &str,
    model: &str,
    temperature: &str,
    context: &str,
) -> (key: String)
    ensures
        key@ == chat_key(
            match system_prompt {
                Some(s) => s@,
                None => Seq::empty(),
            },
            message@,
            model@,
            temperature@,
            context@,
        ),
{
    let system: &str = match system_prompt {
        Some(s) => s,
        None => {
            proof {
                reveal_strlit("");
            }
            assert(""@ =~= Seq::<char>::empty());
            ""
        },
    };
    let ghost parts = seq![system@, message@, model@, temperature@, context@];
    let mut written_parts = String::new();
    append_sized(&mut written_parts, system);
    append_sized(&mut written_parts, message);
    append_sized(&mut written_parts, model);
    append_sized(&mut written_parts, temperature);
    append_sized(&mut written_parts, context);
    proof {
        lemma_sized_all_written(parts, 5);
        assert(parts.take(5) =~= parts);
        assert(written_parts@ =~= written(parts, 5)) by {
            reveal_with_fuel(written, 6);
        }
    }
    let mut key = String::new();
    key.append("chat|");
    key.append(written_parts.as_str());
    key
}

/// Builds the fingerprint of a request from its serialized conversation.
pub fn history_key_from(messages_json: &str, model: &str, temperature: &str, context: &str) -> (key:
    String)
    ensures
        key@ == history_key(messages_json@, model@, temperature@, context@),
{
    let ghost parts = seq![messages_json@, model@, temperature@, context@];
    let mut written_parts = String::new();
    append_sized(&mut written_parts, messages_json);
    append_sized(&mut written_parts, model);
    append_sized(&mut written_parts, temperature);
    append_sized(&mut written_parts, context);
    proof {
        lemma_sized_all_written(parts, 4);
        assert(parts.take(4) =~= parts);
        assert(written_parts@ =~= written(parts, 4)) by {
            reveal_with_fuel(written, 5);
        }
    }
    let mut key = String::new();
    key.append("history|");
    key.append(written_parts.as_str());
    key
}

/// Writes a conversation as a JSON array, given each message by its role
/// and its content as a JSON string.
pub fn frame_messages(parts: &Vec<(Role, String)>) -> (json: String)
    ensures
        json@ == framed(parts@.map_values(|p: (Role, String)| (p.0, p.1@))),
{
    let ghost all = parts@.map_values(|p: (Role, String)| (p.0, p.1@));
    let mut items: Vec<String> = Vec::new();
    let mut i: usize = 0;
    while i < parts.len()
        invariant
            i <= parts.len(),
            all == parts@.map_values(|p: (Role, String)| (p.0, p.1@)),
            views(items@) == messages_json(all).take(i as int),
        decreases parts.len() - i,
    {
        let mut item = String::new();
        item.append("{\"role\":\"");
        item.append(role_text(parts[i].0));
        item.append("\",\"content\":");
        item.append(parts[i].1.as_str());
        item.append("}");
        proof {
            assert(item@ =~= message_json(all[i as int].0, all[i as int].1));
            let grown = views(items@.push(item));
            let wanted = messages_json(all).take(i + 1);
            assert(views(items@).len() == i);
            assert forall|j: int| 0 <= j < grown.len() implies grown[j] == wanted[j] by {
                if j < i {
                    assert(views(items@)[j] == messages_json(all).take(i as int)[j]);
                }
            }
            assert(grown =~= wanted);
        }
        items.push(item);
        i = i + 1;
    }
    assert(messages_json(all).take(i as int) =~= messages_json(all));
    let body = join(&items, ",");
    let mut json = String::new();
    json.append("[");
    json.append(body.as_str());
    json.append("]");
    json
}

/// Serializes a conversation for its fingerprint.
pub fn serialize_history(messages: &Vec<ChatMessage>) -> (json: String)
    ensures
        json@ == history_json(messages@),
{
    let mut parts: Vec<(Role, String)> = Vec::new();
    let mut i: usize = 0;
    while i < messages.len()
        invariant
            i <= messages.len(),
            all_serialize(messages@.take(i as int)),
            parts@.map_values(|p: (Role, String)| (p.0, p.1@)) == quoted_parts(
                messages@.take(i as int),
            ),
        decreases messages.len() - i,
    {
        match to_json_string(messages[i].content.as_str()) {
            Ok(quoted) => {
                proof {
                    let longer = messages@.take(i + 1);
                    assert forall|j: int| 0 <= j < longer.len() implies json_string(
                        #[trigger] longer[j].content@,
                    ) is Some by {
                        if j < i {
                            assert(longer[j] == messages@.take(i as int)[j]);
                        }
                    }
                    let shorter = messages@.take(i as int);
                    let before = parts@.map_values(|p: (Role, String)| (p.0, p.1@));
                    let grown = parts@.push((messages[i as int].role, quoted)).map_values(
                        |p: (Role, String)| (p.0, p.1@),
                    );
                    let wanted = quoted_parts(longer);
                    assert(before.len() == i);
                    assert forall|j: int| 0 <= j < grown.len() implies grown[j] == wanted[j] by {
                        if j < i {
                            assert(before[j] == quoted_parts(shorter)[j]);
                            assert(shorter[j] == longer[j]);
                        }
                    }
                    assert(grown =~= wanted);
                }
                parts.push((messages[i].role, quoted));
            },
            Err(_) => {
                assert(!all_serialize(messages@));
                return String::new();
            },
        }
        i = i + 1;
    }
    assert(messages@.take(i as int) =~= messages@);
    frame_messages(&parts)
}

/// Builds the fingerprint of a request with a conversation.
pub fn cache_key_history(
    messages: &Vec<ChatMessage>,
    model: &str,
    temperature: &str,
    context: &str,
) -> (key: String)
    ensures
        key@ == history_key(history_json(messages@), model@, temperature@, context@),
{
    let json = serialize_history(messages);
    history_key_from(json.as_str(), model, temperature, context)
}

/// `serde_json::Error`, carried through as an opaque value.
#[verifier::external_type_specification]
#[verifier::external_body]
pub struct ExJsonError(serde_json::Error);

/// `serde_json::to_string` on a text: the text as a JSON string. The
/// outcome is a function of the text alone, named `json_string`.
#[verifier::external_body]
fn to_json_string(text: &str) -> (r: Result<String, serde_json::Error>)
    ensures
        match r {
            Ok(quoted) => json_string(text@) == Some(quoted@),
            Err(_) => json_string(text@) is None,
        },
{
    serde_json::to_string(text)
}

} // verus!
