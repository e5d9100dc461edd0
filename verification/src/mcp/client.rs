//! What goes to a server and what comes back from it.

use vstd::prelude::*;

use crate::error;
use crate::error::AgentError;
use crate::json;
use crate::json::{Json, JsonNode};
use crate::text;

verus! {

/// The texts among the parts of a reply. A part that is no text is nothing here.
pub open spec fn texts_in(parts: Seq<Option<String>>) -> Seq<Seq<char>>
    decreases parts.len(),
{
    if parts.len() == 0 {
        Seq::empty()
    } else {
        match parts.last() {
            Some(t) => texts_in(parts.drop_last()).push(t@),
            None => texts_in(parts.drop_last()),
        }
    }
}

/// The text of a reply: its texts, one below the other, or what it shows as a whole where it
/// has none.
pub open spec fn reply_text(parts: Seq<Option<String>>, shown: Seq<char>) -> Seq<char> {
    if texts_in(parts).len() == 0 {
        shown
    } else {
        text::joined(texts_in(parts), "\n"@)
    }
}

/// The text of a reply. `parts` holds the texts of its parts, and `shown` the reply as a
/// whole.
pub fn extract_reply(parts: &[Option<String>], shown: &str) -> (r: String)
    ensures
        r@ == reply_text(parts@, shown@),
{
    let mut texts: Vec<String> = Vec::new();
    let mut i: usize = 0;
    assert(text::views(texts@) =~= texts_in(parts@.take(0)));
    while i < parts.len()
        invariant
            i <= parts@.len(),
            text::views(texts@) == texts_in(parts@.take(i as int)),
        decreases parts@.len() - i,
    {
        assert(parts@.take(i + 1).drop_last() =~= parts@.take(i as int));
        assert(parts@.take(i + 1).last() == parts@[i as int]);
        let ghost before = text::views(texts@);
        if let Some(t) = &parts[i] {
            let t = t.clone();
            texts.push(t);
            assert(text::views(texts@) =~= before.push(t@));
        }
        i += 1;
    }
    assert(parts@.take(parts@.len() as int) =~= parts@);
    assert(text::views(texts@).len() == texts@.len());
    if texts.len() == 0 {
        shown.to_string()
    } else {
        text::join(&texts, "\n")
    }
}

/// The members of the arguments of a call, each with the text of its value. Arguments that
/// are no object are refused.
pub fn call_arguments(args: &Json) -> (r: Result<Vec<(String, String)>, AgentError>)
    ensures
        match json::json_value(args@) {
            Ok(json::JsonView::Object(members)) => r is Ok && json::pairs(r->Ok_0@) == members,
            _ => r is Err && r->Err_0@ == error::ErrorView::Other(
                "Tool arguments must be a JSON object"@,
            ),
        },
{
    match json::parse(args.text.as_str()) {
        Ok(JsonNode::Object(members)) => Ok(members),
        _ => Err(AgentError::Other("Tool arguments must be a JSON object".to_string())),
    }
}

} // verus!
