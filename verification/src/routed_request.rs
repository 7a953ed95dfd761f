//! The request behind a route: what tells this worker what it was asked to do,
//! since neither the listing of eligible routes nor a claim carries it.

use crate::error;
use crate::error::{WorkerError, WorkerErrorView};
use crate::json;
use crate::json::Value;
use crate::wire::Shape;
use vstd::prelude::*;

verus! {

/// A request that the kernel accepted and routed to this service.
#[derive(Clone, Debug, Eq, PartialEq)]
pub struct RoutedRequest {
    pub request_id: String,
    pub source_service_id: String,
    pub action: String,
    pub scope: String,
    pub artifact_schema_version_id: String,
    pub permission_policy_schema_version_id: String,
    pub accepted_at: i64,
}

/// A [`RoutedRequest`] with its texts as character sequences.
pub struct RoutedRequestView {
    pub request_id: Seq<char>,
    pub source_service_id: Seq<char>,
    pub action: Seq<char>,
    pub scope: Seq<char>,
    pub artifact_schema_version_id: Seq<char>,
    pub permission_policy_schema_version_id: Seq<char>,
    pub accepted_at: i64,
}

impl View for RoutedRequest {
    type V = RoutedRequestView;

    open spec fn view(&self) -> RoutedRequestView {
        RoutedRequestView {
            request_id: self.request_id@,
            source_service_id: self.source_service_id@,
            action: self.action@,
            scope: self.scope@,
            artifact_schema_version_id: self.artifact_schema_version_id@,
            permission_policy_schema_version_id: self.permission_policy_schema_version_id@,
            accepted_at: self.accepted_at,
        }
    }
}

/// The routed request that a JSON text holds, or the first thing that is wrong with the text.
pub open spec fn routed_request_of(json: Seq<u8>) -> Result<RoutedRequestView, Seq<char>> {
    match json::record_in(json, Shape::RoutedRequest) {
        Err(message) => Err(message),
        Ok(fields) => Ok(
            RoutedRequestView {
                request_id: json::text_in(fields, 0),
                source_service_id: json::text_in(fields, 1),
                action: json::text_in(fields, 2),
                scope: json::text_in(fields, 3),
                artifact_schema_version_id: json::text_in(fields, 4),
                permission_policy_schema_version_id: json::text_in(fields, 5),
                accepted_at: json::number_in(fields, 6),
            },
        ),
    }
}

/// Reads a routed request out of its JSON text.
pub fn decode_routed_request(json: &[u8]) -> (decoded: Result<RoutedRequest, String>)
    ensures
        json::decoded_view(decoded) == routed_request_of(json@),
{
    let fields: Vec<Option<Value>> = json::read_record(json, Shape::RoutedRequest)?;
    proof {
        json::law_a_record_has_all_its_fields(json@, 0, Shape::RoutedRequest);
    }
    Ok(
        RoutedRequest {
            request_id: json::text_of(&fields, 0),
            source_service_id: json::text_of(&fields, 1),
            action: json::text_of(&fields, 2),
            scope: json::text_of(&fields, 3),
            artifact_schema_version_id: json::text_of(&fields, 4),
            permission_policy_schema_version_id: json::text_of(&fields, 5),
            accepted_at: json::number_of(&fields, 6),
        },
    )
}

/// Every outcome of reading the request behind a route. A route that belongs to
/// another service and one that does not exist are both `NotFound`.
#[derive(Clone, Debug, Eq, PartialEq)]
pub enum RoutedRequestOutcome {
    Found(RoutedRequest),
    NotFound,
}

/// A [`RoutedRequestOutcome`] with the request by its view.
pub enum RoutedRequestOutcomeView {
    Found(RoutedRequestView),
    NotFound,
}

impl View for RoutedRequestOutcome {
    type V = RoutedRequestOutcomeView;

    open spec fn view(&self) -> RoutedRequestOutcomeView {
        match self {
            RoutedRequestOutcome::Found(request) => RoutedRequestOutcomeView::Found(request@),
            RoutedRequestOutcome::NotFound => RoutedRequestOutcomeView::NotFound,
        }
    }
}

/// What reading a routed request came to, from the status of the answer and the
/// request in its body, which matters with status 200 only.
pub open spec fn routed_request_answer(
    status: u16,
    decoded: Result<RoutedRequestView, Seq<char>>,
) -> Result<RoutedRequestOutcomeView, WorkerErrorView> {
    if status == 200 {
        match decoded {
            Ok(request) => Ok(RoutedRequestOutcomeView::Found(request)),
            Err(message) => Err(WorkerErrorView::MalformedResponse(message)),
        }
    } else if status == 404 {
        Ok(RoutedRequestOutcomeView::NotFound)
    } else {
        Err(WorkerErrorView::UnexpectedStatus(status))
    }
}

/// Classifies the answer to a read of a routed request whose body has been
/// decoded.
pub fn classify_routed_request(
    status: u16,
    decoded: Result<RoutedRequest, String>,
) -> (outcome: Result<RoutedRequestOutcome, WorkerError>)
    ensures
        error::result_view(outcome) == routed_request_answer(status, json::decoded_view(decoded)),
{
    match status {
        200 => match decoded {
            Ok(request) => Ok(RoutedRequestOutcome::Found(request)),
            Err(message) => Err(WorkerError::MalformedResponse(message)),
        },
        404 => Ok(RoutedRequestOutcome::NotFound),
        other => Err(WorkerError::UnexpectedStatus(other)),
    }
}

/// Reads the answer to a read of a routed request.
pub fn parse_routed_request_response(status: u16, body: &[u8]) -> (outcome: Result<
    RoutedRequestOutcome,
    WorkerError,
>)
    ensures
        error::result_view(outcome) == routed_request_answer(status, routed_request_of(body@)),
{
    classify_routed_request(status, decode_routed_request(body))
}

/// The fields of a routed request are the values that were read.
proof fn lemma_routed_request_lists_its_fields(json: Seq<u8>)
    ensures
        json::record_in(json, Shape::RoutedRequest) matches Ok(fields) ==> {
            let it = routed_request_of(json)->Ok_0;
            &&& fields.len() == 7
            &&& fields[0] == Some(json::ValueView::Text(it.request_id))
            &&& fields[1] == Some(json::ValueView::Text(it.source_service_id))
            &&& fields[2] == Some(json::ValueView::Text(it.action))
            &&& fields[3] == Some(json::ValueView::Text(it.scope))
            &&& fields[4] == Some(json::ValueView::Text(it.artifact_schema_version_id))
            &&& fields[5] == Some(json::ValueView::Text(it.permission_policy_schema_version_id))
            &&& fields[6] == Some(json::ValueView::Number(it.accepted_at))
        },
{
    json::law_a_record_has_all_its_fields(json, 0, Shape::RoutedRequest);
    if let Ok(fields) = json::record_in(json, Shape::RoutedRequest) {
        assert(fields[0] is Some);
        assert(fields[1] is Some);
        assert(fields[2] is Some);
        assert(fields[3] is Some);
        assert(fields[4] is Some);
        assert(fields[5] is Some);
        assert(fields[6] is Some);
    }
}

/// A text is read as one if and only if it is a record of one.
proof fn lemma_routed_request_holds(json: Seq<u8>)
    ensures
        routed_request_of(json) matches Ok(it) ==> json::body_holds(
            json,
            Shape::RoutedRequest,
            seq![
                json::ValueView::Text(it.request_id),
                json::ValueView::Text(it.source_service_id),
                json::ValueView::Text(it.action),
                json::ValueView::Text(it.scope),
                json::ValueView::Text(it.artifact_schema_version_id),
                json::ValueView::Text(it.permission_policy_schema_version_id),
                json::ValueView::Number(it.accepted_at),
            ],
        ),
        routed_request_of(json) is Err ==> forall|values: Seq<json::ValueView>|
            !(#[trigger] json::body_holds(json, Shape::RoutedRequest, values)),
{
    let values = json::law_a_body_that_is_read_holds_values(json, Shape::RoutedRequest);
    if let Ok(it) = routed_request_of(json) {
        let listed = seq![
            json::ValueView::Text(it.request_id),
            json::ValueView::Text(it.source_service_id),
            json::ValueView::Text(it.action),
            json::ValueView::Text(it.scope),
            json::ValueView::Text(it.artifact_schema_version_id),
            json::ValueView::Text(it.permission_policy_schema_version_id),
            json::ValueView::Number(it.accepted_at),
        ];
        assert(listed =~= values) by {
            lemma_routed_request_lists_its_fields(json);
        }
    } else {
        assert forall|values: Seq<json::ValueView>| !(#[trigger] json::body_holds(
            json,
            Shape::RoutedRequest,
            values,
        )) by {
            json::law_a_body_is_read_as_it_stands(json, Shape::RoutedRequest, values);
        }
    }
}

/// A record that is an object has a member of each field's name.
proof fn lemma_routed_request_members(json: Seq<u8>, it: RoutedRequestView)
    requires
        json::record_holds(
            json,
            0,
            Shape::RoutedRequest,
            seq![
                json::ValueView::Text(it.request_id),
                json::ValueView::Text(it.source_service_id),
                json::ValueView::Text(it.action),
                json::ValueView::Text(it.scope),
                json::ValueView::Text(it.artifact_schema_version_id),
                json::ValueView::Text(it.permission_policy_schema_version_id),
                json::ValueView::Number(it.accepted_at),
            ],
        ),
        json[json::space_end(json, 0)] == 0x7b,
    ensures
        json::text_member(json, "request_id"@, it.request_id),
        json::text_member(json, "source_service_id"@, it.source_service_id),
        json::text_member(json, "action"@, it.action),
        json::text_member(json, "scope"@, it.scope),
        json::text_member(json, "artifact_schema_version_id"@, it.artifact_schema_version_id),
        json::text_member(
            json,
            "permission_policy_schema_version_id"@,
            it.permission_policy_schema_version_id,
        ),
        json::number_member(json, "accepted_at"@, it.accepted_at),
{
    let listed = seq![
        json::ValueView::Text(it.request_id),
        json::ValueView::Text(it.source_service_id),
        json::ValueView::Text(it.action),
        json::ValueView::Text(it.scope),
        json::ValueView::Text(it.artifact_schema_version_id),
        json::ValueView::Text(it.permission_policy_schema_version_id),
        json::ValueView::Number(it.accepted_at),
    ];
    json::law_each_value_has_its_member(json, 0, Shape::RoutedRequest, listed);
    assert(listed[0] == json::ValueView::Text(it.request_id));
    assert(listed[1] == json::ValueView::Text(it.source_service_id));
    assert(listed[2] == json::ValueView::Text(it.action));
    assert(listed[3] == json::ValueView::Text(it.scope));
    assert(listed[4] == json::ValueView::Text(it.artifact_schema_version_id));
    assert(listed[5] == json::ValueView::Text(it.permission_policy_schema_version_id));
    assert(listed[6] == json::ValueView::Number(it.accepted_at));
}

/// A routed request is decoded if and only if the text is a record of one, and each of
/// its fields is then what stands in the text for it, whole: by the field's name where
/// the record is an object, and by its position where it is an array.
pub proof fn law_routed_request_is_decoded_whole(
    json: &[u8],
    decoded: Result<RoutedRequest, String>,
)
    requires
        call_ensures(decode_routed_request, (json,), decoded),
    ensures
        decoded matches Ok(it) ==> json::body_holds(
            json@,
            Shape::RoutedRequest,
            seq![
                json::ValueView::Text(it.request_id@),
                json::ValueView::Text(it.source_service_id@),
                json::ValueView::Text(it.action@),
                json::ValueView::Text(it.scope@),
                json::ValueView::Text(it.artifact_schema_version_id@),
                json::ValueView::Text(it.permission_policy_schema_version_id@),
                json::ValueView::Number(it.accepted_at),
            ],
        ),
        decoded is Err ==> forall|values: Seq<json::ValueView>|
            !(#[trigger] json::body_holds(json@, Shape::RoutedRequest, values)),
        decoded matches Ok(it) ==> json@[json::space_end(json@, 0)] == 0x7b ==> {
            &&& json::text_member(json@, "request_id"@, it.request_id@)
            &&& json::text_member(json@, "source_service_id"@, it.source_service_id@)
            &&& json::text_member(json@, "action"@, it.action@)
            &&& json::text_member(json@, "scope"@, it.scope@)
            &&& json::text_member(
                json@,
                "artifact_schema_version_id"@,
                it.artifact_schema_version_id@,
            )
            &&& json::text_member(
                json@,
                "permission_policy_schema_version_id"@,
                it.permission_policy_schema_version_id@,
            )
            &&& json::number_member(json@, "accepted_at"@, it.accepted_at)
        },
{
    lemma_routed_request_holds(json@);
    if let Ok(it) = decoded {
        assert(routed_request_of(json@) == Ok::<_, Seq<char>>(it@));
        if json@[json::space_end(json@, 0)] == 0x7b {
            lemma_routed_request_members(json@, it@);
        }
    }
}

/// What a read came to is told by the status alone, whatever the body holds, but with
/// status 200, where it is the request in the body or what is wrong with it.
pub proof fn law_a_read_is_told_by_its_status(
    status: u16,
    body: &[u8],
    outcome: Result<RoutedRequestOutcome, WorkerError>,
    decoded: Result<RoutedRequest, String>,
)
    requires
        call_ensures(parse_routed_request_response, (status, body), outcome),
        call_ensures(decode_routed_request, (body,), decoded),
    ensures
        status == 404 <==> outcome matches Ok(RoutedRequestOutcome::NotFound),
        status != 200 && status != 404 ==> (outcome matches Err(
            WorkerError::UnexpectedStatus(told),
        ) && told == status),
        status == 200 ==> match decoded {
            Ok(request) => outcome matches Ok(RoutedRequestOutcome::Found(told)) && told@
                == request@,
            Err(message) => outcome matches Err(WorkerError::MalformedResponse(told)) && told@
                == message@,
        },
{
}

/// What is wrong with the text of a routed request is what is wrong with it as a record of one.
pub proof fn law_a_refused_routed_request_tells_what_is_wrong(
    json: &[u8],
    decoded: Result<RoutedRequest, String>,
    read: Result<Vec<Option<Value>>, String>,
)
    requires
        call_ensures(decode_routed_request, (json,), decoded),
        call_ensures(json::read_record, (json, Shape::RoutedRequest), read),
    ensures
        decoded is Ok <==> read is Ok,
        decoded matches Err(told) ==> (read matches Err(said) && told@ == said@),
{
}

}
