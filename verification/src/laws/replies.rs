//! What a reply of the endpoint means, and what is sent to it.
use crate::json::Json;
use crate::model::ErrorView;
use crate::numeral::decimal_text;
use crate::scraper::{body_json, http_failure, reply_outcome, request_json};
use crate::text::utf8_lossy;
use vstd::prelude::*;
use vstd::string::*;

verus! {

/// Whether a reply reports no error: it is no object, or its `error` member is absent, null or
/// false.
pub open spec fn is_free_of_error(reply: Json) -> bool {
    match reply {
        Json::Object(members) => !members.contains_key("error"@) || members["error"@] == Json::Null
            || members["error"@] == Json::Bool(false),
        _ => true,
    }
}

/// A successful reply without an error yields its `result` member, whatever other members it
/// has and whatever the result is.
pub proof fn result_member_is_the_result(
    status: u16,
    members: Map<Seq<char>, Json>,
    raw: Seq<u8>,
)
    requires
        200 <= status < 300,
        is_free_of_error(Json::Object(members)),
        members.contains_key("result"@),
    ensures
        reply_outcome(status, Some(Json::Object(members)), raw) == Ok::<
            Json,
            ErrorView,
        >(members["result"@]),
{
}

/// A successful reply without an error and without a `result` member is the result itself.
pub proof fn reply_without_result_is_the_result(status: u16, reply: Json, raw: Seq<u8>)
    requires
        200 <= status < 300,
        is_free_of_error(reply),
        match reply {
            Json::Object(members) => !members.contains_key("result"@),
            _ => true,
        },
    ensures
        reply_outcome(status, Some(reply), raw) == Ok::<Json, ErrorView>(reply),
{
}

/// The body of a successful reply that is not JSON is the result, as a text.
pub proof fn unreadable_body_is_the_result(status: u16, raw: Seq<u8>)
    requires
        200 <= status < 300,
    ensures
        reply_outcome(status, None, raw) == Ok::<Json, ErrorView>(
            Json::Text(utf8_lossy(raw)),
        ),
{
}

/// A successful reply with an `error` member other than null and false is an error, whatever
/// its result. The members of that member that are there are taken over; a message that is not
/// a text and a code that is not there have their stand-ins. There is no status.
pub proof fn error_member_is_the_error(status: u16, members: Map<Seq<char>, Json>, raw: Seq<u8>)
    requires
        200 <= status < 300,
        members.contains_key("error"@),
        members["error"@] != Json::Null,
        members["error"@] != Json::Bool(false),
    ensures
        reply_outcome(status, Some(Json::Object(members)), raw) is Err,
        reply_outcome(status, Some(Json::Object(members)), raw)->Err_0.status is None,
        match members["error"@] {
            Json::Object(inner) => {
                let error = reply_outcome(status, Some(Json::Object(members)), raw)->Err_0;
                &&& inner.contains_key("message"@) && inner["message"@] is Text
                    ==> Json::Text(error.message) == inner["message"@]
                &&& !(inner.contains_key("message"@) && inner["message"@] is Text) ==> error.message
                    == "RPC returned an error"@
                &&& inner.contains_key("code"@) ==> error.code == Some(inner["code"@])
                &&& !inner.contains_key("code"@) ==> error.code == Some(Json::Text("RPC_ERROR"@))
                &&& inner.contains_key("data"@) ==> error.body == Some(inner["data"@])
                &&& !inner.contains_key("data"@) ==> error.body is None
            },
            _ => {
                let error = reply_outcome(status, Some(Json::Object(members)), raw)->Err_0;
                &&& error.message == "RPC returned an error"@
                &&& error.code == Some(Json::Text("RPC_ERROR"@))
                &&& error.body is None
            },
        },
{
}

/// A reply with any other status is an error that carries the status and the body, as JSON
/// where it is that and as a text where not. What the body says does not matter.
pub proof fn other_status_is_an_error(status: u16, parsed: Option<Json>, raw: Seq<u8>)
    requires
        status < 200 || status >= 300,
    ensures
        reply_outcome(status, parsed, raw) is Err,
        reply_outcome(status, parsed, raw)->Err_0.message == "RPC HTTP request failed with "@
            + decimal_text(status as nat),
        reply_outcome(status, parsed, raw)->Err_0.code == Some(Json::Text("RPC_HTTP_ERROR"@)),
        reply_outcome(status, parsed, raw)->Err_0.status == Some(status),
        parsed is Some ==> reply_outcome(status, parsed, raw)->Err_0.body == parsed,
        parsed is None ==> reply_outcome(status, parsed, raw)->Err_0.body == Some(
            Json::Text(utf8_lossy(raw)),
        ),
{
}

/// Which of the successful statuses a reply has does not matter.
pub proof fn successful_statuses_are_alike(
    status: u16,
    other: u16,
    parsed: Option<Json>,
    raw: Seq<u8>,
)
    requires
        200 <= status < 300,
        200 <= other < 300,
    ensures
        reply_outcome(status, parsed, raw) == reply_outcome(other, parsed, raw),
{
}

/// A failure on the level of HTTP has the code that says so, and what else it is given.
pub proof fn http_failure_carries_what_it_is_given(
    message: Seq<char>,
    status: Option<u16>,
    body: Option<Json>,
)
    ensures
        http_failure(message, status, body).message == message,
        http_failure(message, status, body).code == Some(Json::Text("RPC_HTTP_ERROR"@)),
        http_failure(message, status, body).status == status,
        http_failure(message, status, body).body == body,
{
}

/// A body is taken as what it was read as, and otherwise as its text.
pub proof fn body_is_json_or_text(parsed: Option<Json>, raw: Seq<u8>)
    ensures
        parsed is Some ==> body_json(parsed, raw) == parsed->0,
        parsed is None ==> body_json(parsed, raw) == Json::Text(utf8_lossy(raw)),
{
}

/// The request is a JSON-RPC 2.0 call of the method without parameters, under the given id,
/// and has no other member.
pub proof fn request_calls_the_method(id: Seq<char>, key: Seq<char>)
    ensures
        request_json(id).get("jsonrpc"@) == Some(Json::Text("2.0"@)),
        request_json(id).get("id"@) == Some(Json::Text(id)),
        request_json(id).get("method"@) == Some(Json::Text("admin_getThrottleController"@)),
        request_json(id).get("params"@) == Some(Json::Array(Seq::empty())),
        request_json(id).get(key) is Some ==> key == "jsonrpc"@ || key == "id"@ || key == "method"@
            || key == "params"@,
{
    reveal_strlit("jsonrpc");
    reveal_strlit("id");
    reveal_strlit("method");
    reveal_strlit("params");
    assert("jsonrpc"@.len() == 7 && "id"@.len() == 2 && "method"@.len() == 6 && "params"@.len() == 6);
    assert("method"@[0] == 'm' && "params"@[0] == 'p');
}

} // verus!
