//! What a request to DeepSeek asks for once it is put into the form that the upstream takes.
use crate::deepseek_compat::{normalized, paired_body, repaired_body, replayed_body};
use crate::deepseek_normal_laws::{other_settings_are_kept, settings_become_normal, well_keyed, with_normal_settings};
use crate::json::JsonV;
use crate::json_model::{key_index_is, with_gives};
use vstd::prelude::*;

verus! {

/// The most tokens that a model of DeepSeek is asked for.
pub open spec fn most_tokens(model: Seq<char>) -> int {
    if model == "deepseek-v4-pro"@ {
        65_536
    } else if model == "deepseek-v4-flash"@ {
        32_768
    } else {
        8_192
    }
}

proof fn messages_alone_change(calm: JsonV, key: Seq<char>)
    requires
        calm is Object,
        key != "messages"@,
    ensures
        paired_body(repaired_body(replayed_body(calm))).get(key) == calm.get(key),
{
    let a = replayed_body(calm);
    assert(a is Object && a.get(key) == calm.get(key)) by {
        if let Some(messages) = calm.items_at("messages"@) {
            assert forall|value: JsonV| (#[trigger] calm.with("messages"@, value)) is Object && calm.with("messages"@, value).get(
                key,
            ) == calm.get(key) by {
                with_gives(calm, "messages"@, value);
            }
        }
    }
    let b = repaired_body(a);
    assert(b is Object && b.get(key) == a.get(key)) by {
        assert forall|value: JsonV| (#[trigger] a.with("messages"@, value)) is Object && a.with("messages"@, value).get(key)
            == a.get(key) by {
            with_gives(a, "messages"@, value);
        }
    }
    let c = paired_body(b);
    assert(c.get(key) == b.get(key)) by {
        assert forall|value: JsonV| (#[trigger] b.with("messages"@, value)) is Object && b.with("messages"@, value).get(key)
            == b.get(key) by {
            with_gives(b, "messages"@, value);
        }
    }
}

/// A request asks for no more tokens than the model gives and than were asked for, and for as many where both allow it.
/// Where one tool must be called it does not think; a model is left to adapt its thinking where that was automatic; and
/// where it does not think, nothing is said of the effort.
pub proof fn settings_fit_the_upstream(body: JsonV, model: Seq<char>, rules: Seq<Seq<char>>)
    requires
        well_keyed(body),
        body is Object,
    ensures
        ({
            let sent = normalized(body, model, rules).0;
            &&& body.unsigned_at("max_tokens"@) matches Some(asked) ==> (sent.unsigned_at("max_tokens"@) matches Some(n) && n
                <= asked && n <= most_tokens(model) && (asked <= most_tokens(model) ==> n == asked) && (asked > most_tokens(model)
                ==> n == most_tokens(model)))
            &&& body.get("max_tokens"@) is None ==> sent.get("max_tokens"@) is None
            &&& body.get("tool_choice"@) matches Some(choice) ==> choice.text_at("type"@) == Some("tool"@) ==> (sent.get(
                "thinking"@,
            ) matches Some(thinking) && thinking.text_at("type"@) == Some("disabled"@))
            &&& body.get("tool_choice"@) is None ==> (body.get("thinking"@) matches Some(thinking) ==> if thinking.text_at("type"@)
                == Some("auto"@) {
                sent.get("thinking"@) matches Some(now) && now.text_at("type"@) == Some("adaptive"@)
            } else {
                sent.get("thinking"@) == Some(thinking)
            })
            &&& body.get("tool_choice"@) is None && body.get("thinking"@) is None ==> sent.get("thinking"@) is None
            &&& sent.get("thinking"@) matches Some(thinking) ==> thinking.text_at("type"@) == Some("disabled"@) ==> sent.get(
                "reasoning_effort"@,
            ) is None
        }),
{
    reveal_strlit("type");
    reveal_strlit("messages");
    reveal_strlit("thinking");
    reveal_strlit("reasoning_effort");
    reveal_strlit("max_tokens");
    assert("messages"@.len() == 8 && "thinking"@.len() == 8 && "messages"@[0] == 'm' && "thinking"@[0] == 't');
    assert("reasoning_effort"@.len() == 16 && "max_tokens"@.len() == 10);
    other_settings_are_kept(body, model, rules, "tool_choice"@);
    settings_become_normal(body, model);
    let calm = with_normal_settings(body, model);
    let sent = normalized(body, model, rules).0;
    assert(sent == paired_body(repaired_body(replayed_body(calm))));
    messages_alone_change(calm, "reasoning_effort"@);
    messages_alone_change(calm, "thinking"@);
    let off = crate::deepseek_compat::disabled_thinking()->Object_0;
    assert(off.len() == 1 && off[0].0 == "type"@);
    key_index_is(off, "type"@, 0);
    if let Some(thinking) = body.get("thinking"@) {
        if thinking.text_at("type"@) == Some("auto"@) {
            with_gives(thinking, "type"@, JsonV::Str("adaptive"@));
        }
    }
}

} // verus!
