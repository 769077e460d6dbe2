//! Requests, replies and errors as the documents that cross the boundary
//! between host and guest.

use vstd::prelude::*;
use vstd::string::*;

use crate::engine::{is_request_key, request_of, stray_request_key};
use crate::error::{plugin_failure, PluginError, PluginFailure};
use crate::guest::{
    error_of, guest_outcome, only_keys, protocol_failure, reply_meaning, RequestEnvelope,
    RequestModel, ResponseEnvelope, ResponseModel,
};
use crate::json::{
    json_members, lemma_array_view, lookup, member_is_found, Json, JsonValue, Member,
};
use crate::manifest::GuestExport;

verus! {

/// The document of an error: its texts, and its details when it has some.
pub open spec fn error_json(error: PluginFailure) -> Json {
    let code = ("code"@, Json::String(error.code));
    let message = ("message"@, Json::String(error.message));
    let phase = ("phase"@, Json::String(error.phase));
    Json::Object(
        match error.details {
            Some(details) => seq![code, ("details"@, details), message, phase],
            None => seq![code, message, phase],
        },
    )
}

impl PluginError {
    /// This error as a document.
    pub fn document(&self) -> (result: JsonValue)
        ensures
            result@ == error_json(self@),
    {
        let code = JsonValue::String(self.code.clone());
        let message = JsonValue::String(self.message.clone());
        let phase = JsonValue::String(self.phase.clone());
        let mut members: Vec<Member> = Vec::new();
        members.push(Member { key: "code".to_owned(), value: code });
        if let Some(details) = &self.details {
            members.push(Member { key: "details".to_owned(), value: details.clone() });
        }
        members.push(Member { key: "message".to_owned(), value: message });
        members.push(Member { key: "phase".to_owned(), value: phase });
        let result = JsonValue::Object(members);
        proof {
            lemma_array_view(result);
            assert(json_members(members@) =~= error_json(self@)->Object_0);
        }
        result
    }
}

/// The document of a request.
pub open spec fn request_json(request: RequestModel) -> Json {
    Json::Object(
        seq![
            ("context"@, request.context),
            ("payload"@, request.payload),
            ("requestId"@, Json::String(request.request_id)),
        ],
    )
}

impl RequestEnvelope {
    /// This request as a document.
    pub fn document(&self) -> (result: JsonValue)
        ensures
            result@ == request_json(self@),
    {
        let id = JsonValue::String(self.request_id.clone());
        let members = vec![
            Member { key: "context".to_owned(), value: self.context.clone() },
            Member { key: "payload".to_owned(), value: self.payload.clone() },
            Member { key: "requestId".to_owned(), value: id },
        ];
        let result = JsonValue::Object(members);
        proof {
            lemma_array_view(result);
            assert(json_members(members@) =~= request_json(self@)->Object_0);
        }
        result
    }
}

/// The document of a reply: what it holds, and nothing for what it lacks.
pub open spec fn response_json(response: ResponseModel) -> Json {
    let error = match response.error {
        Some(error) => seq![("error"@, error_json(error))],
        None => Seq::empty(),
    };
    let result = match response.result {
        Some(result) => seq![("result"@, result)],
        None => Seq::empty(),
    };
    Json::Object(error + seq![("requestId"@, Json::String(response.request_id))] + result)
}

impl ResponseEnvelope {
    /// This reply as a document.
    pub fn document(&self) -> (result: JsonValue)
        ensures
            result@ == response_json(self@),
    {
        let mut members: Vec<Member> = Vec::new();
        if let Some(error) = &self.error {
            members.push(Member { key: "error".to_owned(), value: error.document() });
        }
        let id = JsonValue::String(self.request_id.clone());
        members.push(Member { key: "requestId".to_owned(), value: id });
        if let Some(result) = &self.result {
            members.push(Member { key: "result".to_owned(), value: result.clone() });
        }
        let result = JsonValue::Object(members);
        proof {
            lemma_array_view(result);
            assert(json_members(members@) =~= response_json(self@)->Object_0);
        }
        result
    }
}

/// The document of what a host call gave: a result or an error.
pub open spec fn host_reply_json(reply: Result<Json, PluginFailure>) -> Json {
    match reply {
        Ok(value) => Json::Object(seq![("result"@, value)]),
        Err(failure) => Json::Object(seq![("error"@, error_json(failure))]),
    }
}

/// What a host call gave as a document.
pub fn host_reply(reply: &Result<JsonValue, PluginError>) -> (result: JsonValue)
    ensures
        result@ == host_reply_json(guest_outcome(*reply)),
{
    let member = match reply {
        Ok(value) => Member { key: "result".to_owned(), value: value.clone() },
        Err(error) => Member { key: "error".to_owned(), value: error.document() },
    };
    let members = vec![member];
    let result = JsonValue::Object(members);
    proof {
        lemma_array_view(result);
        assert(json_members(members@) =~= host_reply_json(guest_outcome(*reply))->Object_0);
    }
    result
}

proof fn envelope_keys()
    ensures
        "code"@.len() == 4,
        "details"@.len() == 7 && "details"@[0] == 'd',
        "message"@.len() == 7 && "message"@[0] == 'm',
        "phase"@.len() == 5 && "phase"@[0] == 'p',
        "context"@.len() == 7,
        "payload"@.len() == 7,
        "context"@[0] == 'c' && "payload"@[0] == 'p',
        "requestId"@.len() == 9,
        "error"@.len() == 5 && "error"@[0] == 'e',
        "result"@.len() == 6,
{
    reveal_strlit("code");
    reveal_strlit("details");
    reveal_strlit("message");
    reveal_strlit("phase");
    reveal_strlit("context");
    reveal_strlit("payload");
    reveal_strlit("requestId");
    reveal_strlit("error");
    reveal_strlit("result");
}

/// The document of a request reads as the request.
pub proof fn requests_read_back(request: RequestModel)
    ensures
        request_of(request_json(request)) == Ok::<RequestModel, Seq<char>>(request),
{
    let members = request_json(request)->Object_0;
    envelope_keys();
    assert forall|i: int, j: int| 0 <= i < j < members.len() implies (#[trigger] members[i]).0 != (
    #[trigger] members[j]).0 by {}
    member_is_found(members, 0);
    member_is_found(members, 1);
    member_is_found(members, 2);
    assert(is_request_key(members[0].0) && is_request_key(members[1].0) && is_request_key(
        members[2].0,
    ));
    reveal_with_fuel(stray_request_key, 4);
}

/// The document of an error reads as the error; details that are null read as
/// none.
pub proof fn errors_read_back(error: PluginFailure)
    requires
        error.details != Some(Json::Null),
    ensures
        error_of(error_json(error)) == Some(error),
{
    let members = error_json(error)->Object_0;
    envelope_keys();
    assert forall|i: int, j: int| 0 <= i < j < members.len() implies (#[trigger] members[i]).0 != (
    #[trigger] members[j]).0 by {}
    member_is_found(members, 0);
    member_is_found(members, 1);
    member_is_found(members, 2);
    match error.details {
        Some(_) => {
            member_is_found(members, 3);
        },
        None => {
            crate::json::lookup_finds_a_member(members, "details"@);
        },
    }
    assert(only_keys(members, true));
}

/// A caller gets the result that a guest replied with.
pub proof fn successful_replies_are_understood(
    export: GuestExport,
    request_id: Seq<char>,
    result: Json,
)
    ensures
        reply_meaning(
            export,
            request_id,
            response_json(ResponseModel { request_id, result: Some(result), error: None }),
        ) == Ok::<Json, PluginFailure>(result),
{
    let response = ResponseModel { request_id, result: Some(result), error: None };
    let members = response_json(response)->Object_0;
    envelope_keys();
    assert(members =~= seq![("requestId"@, Json::String(request_id)), ("result"@, result)]);
    member_is_found(members, 0);
    assert(members[0].0 != members[1].0);
    member_is_found(members, 1);
    crate::json::lookup_finds_a_member(members, "error"@);
    assert(lookup(members, "error"@) is None);
    assert(only_keys(members, false));
}

/// A caller learns that a guest refused, and no more; an error of another
/// phase breaks the protocol.
pub proof fn refusals_are_understood(
    export: GuestExport,
    request_id: Seq<char>,
    error: PluginFailure,
)
    ensures
        reply_meaning(
            export,
            request_id,
            response_json(ResponseModel { request_id, result: None, error: Some(error) }),
        ) == Err::<Json, PluginFailure>(
            if error.phase == export.spec_phase() {
                plugin_failure(
                    "GUEST_REJECTED"@,
                    "guest rejected request"@,
                    export.spec_phase(),
                )
            } else {
                protocol_failure("guest error phase does not match invoked export"@, export)
            },
        ),
{
    let response = ResponseModel { request_id, result: None, error: Some(error) };
    let members = response_json(response)->Object_0;
    envelope_keys();
    assert(members =~= seq![
        ("error"@, error_json(error)),
        ("requestId"@, Json::String(request_id)),
    ]);
    member_is_found(members, 0);
    assert(members[0].0 != members[1].0);
    member_is_found(members, 1);
    crate::json::lookup_finds_a_member(members, "result"@);
    assert(lookup(members, "result"@) is None);
    assert(only_keys(members, false));
    let plain = PluginFailure {
        details: if error.details == Some(Json::Null) {
            None
        } else {
            error.details
        },
        ..error
    };
    if error.details == Some(Json::Null) {
        let inner = error_json(error)->Object_0;
        assert forall|i: int, j: int| 0 <= i < j < inner.len() implies (#[trigger] inner[i]).0 != (
        #[trigger] inner[j]).0 by {}
        member_is_found(inner, 0);
        member_is_found(inner, 1);
        member_is_found(inner, 2);
        member_is_found(inner, 3);
        assert(only_keys(inner, true));
    } else {
        errors_read_back(error);
    }
    assert(error_of(error_json(error)) == Some(plain));
}

}
