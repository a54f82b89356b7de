//! Answers to requests.
use vstd::prelude::*;
use crate::json::{
    has_members, json_str, lemma_says, object1, object2, says, Json, JsonView,
};

verus! {

broadcast use vstd::string::group_string_axioms;

/// An answer: a status code and a body.
#[derive(Debug, PartialEq, Eq)]
pub struct Reply {
    pub status: u16,
    pub body: Json,
}

/// What a `Reply` holds.
pub struct ReplyView {
    pub status: u16,
    pub body: JsonView,
}

impl View for Reply {
    type V = ReplyView;

    open spec fn view(&self) -> ReplyView {
        ReplyView { status: self.status, body: self.body@ }
    }
}

/// An answer that says what went wrong.
pub open spec fn error_view(status: u16, message: Seq<char>) -> ReplyView {
    ReplyView { status, body: JsonView::Object(seq![("error"@, JsonView::Str(message))]) }
}

/// An answer that says what went wrong.
pub fn error_reply(status: u16, message: &str) -> (r: Reply)
    ensures
        r@ == error_view(status, message@),
{
    Reply { status, body: object1("error", json_str(message)) }
}

/// An answer that says what went wrong with which tool.
pub open spec fn tool_error_view(status: u16, message: Seq<char>, tool: Seq<char>) -> ReplyView {
    ReplyView {
        status,
        body: JsonView::Object(
            seq![("error"@, JsonView::Str(message)), ("tool"@, JsonView::Str(tool))],
        ),
    }
}

/// An answer that says what went wrong with which tool.
pub fn tool_error_reply(status: u16, message: &str, tool: &str) -> (r: Reply)
    ensures
        r@ == tool_error_view(status, message@, tool@),
{
    Reply { status, body: object2("error", json_str(message), "tool", json_str(tool)) }
}

/// An error says what went wrong, and with which tool where there is one; nothing
/// else, and under the status that it was given.
pub proof fn errors_say_what_went_wrong(status: u16, message: Seq<char>, tool: Seq<char>)
    ensures
        error_view(status, message).status == status,
        says(error_view(status, message).body, "error"@, JsonView::Str(message)),
        has_members(error_view(status, message).body, 1),
        tool_error_view(status, message, tool).status == status,
        says(tool_error_view(status, message, tool).body, "error"@, JsonView::Str(message)),
        says(tool_error_view(status, message, tool).body, "tool"@, JsonView::Str(tool)),
        has_members(tool_error_view(status, message, tool).body, 2),
{
    let one = seq![("error"@, JsonView::Str(message))];
    lemma_says(one);
    assert(one[0].0 == "error"@);
    let two = seq![("error"@, JsonView::Str(message)), ("tool"@, JsonView::Str(tool))];
    lemma_says(two);
    assert(two[0].0 == "error"@);
    assert(two[1].0 == "tool"@);
}

} // verus!
