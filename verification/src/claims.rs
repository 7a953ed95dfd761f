//! The kernel's work claims: the two operations this worker performs on them,
//! claiming and completing, and every answer the kernel can give to each.

use crate::error;
use crate::error::{WorkerError, WorkerErrorView};
use crate::json;
use crate::json::Value;
use crate::text;
use crate::wire::Shape;
use vstd::prelude::*;

verus! {

/// The body of a claim attempt.
pub struct ClaimRequest {
    pub lease_seconds: i64,
}

impl ClaimRequest {
    /// The request in JSON.
    pub fn to_json(&self) -> (body: Vec<u8>)
        ensures
            body@ == vstd::utf8::encode_utf8(
                json::integer_object("lease_seconds"@, self.lease_seconds as int),
            ),
    {
        json::write_integer_object("lease_seconds", self.lease_seconds)
    }
}

/// The body of an action that only the current holder of a claim may take.
pub struct FencedActionRequest {
    pub fencing_token: i64,
}

impl FencedActionRequest {
    /// The request in JSON.
    pub fn to_json(&self) -> (body: Vec<u8>)
        ensures
            body@ == vstd::utf8::encode_utf8(
                json::integer_object("fencing_token"@, self.fencing_token as int),
            ),
    {
        json::write_integer_object("fencing_token", self.fencing_token)
    }
}

/// A claim on a route, as the kernel describes it.
#[derive(Clone, Debug, Eq, PartialEq)]
pub struct WorkClaim {
    pub claim_id: String,
    pub route_id: String,
    pub worker_service_id: String,
    pub worker_instance_id: String,
    pub fencing_token: i64,
    pub status: String,
    pub claimed_at: i64,
    pub lease_expires_at: i64,
}

/// A [`WorkClaim`] with its texts as character sequences.
pub struct WorkClaimView {
    pub claim_id: Seq<char>,
    pub route_id: Seq<char>,
    pub worker_service_id: Seq<char>,
    pub worker_instance_id: Seq<char>,
    pub fencing_token: i64,
    pub status: Seq<char>,
    pub claimed_at: i64,
    pub lease_expires_at: i64,
}

impl View for WorkClaim {
    type V = WorkClaimView;

    open spec fn view(&self) -> WorkClaimView {
        WorkClaimView {
            claim_id: self.claim_id@,
            route_id: self.route_id@,
            worker_service_id: self.worker_service_id@,
            worker_instance_id: self.worker_instance_id@,
            fencing_token: self.fencing_token,
            status: self.status@,
            claimed_at: self.claimed_at,
            lease_expires_at: self.lease_expires_at,
        }
    }
}

/// The claim that a JSON text holds, or the first thing that is wrong with the text.
pub open spec fn work_claim_of(json: Seq<u8>) -> Result<WorkClaimView, Seq<char>> {
    match json::record_in(json, Shape::WorkClaim) {
        Err(message) => Err(message),
        Ok(fields) => Ok(
            WorkClaimView {
                claim_id: json::text_in(fields, 0),
                route_id: json::text_in(fields, 1),
                worker_service_id: json::text_in(fields, 2),
                worker_instance_id: json::text_in(fields, 3),
                fencing_token: json::number_in(fields, 4),
                status: json::text_in(fields, 5),
                claimed_at: json::number_in(fields, 6),
                lease_expires_at: json::number_in(fields, 7),
            },
        ),
    }
}

/// Reads a claim out of its JSON text.
pub fn decode_work_claim(json: &[u8]) -> (decoded: Result<WorkClaim, String>)
    ensures
        json::decoded_view(decoded) == work_claim_of(json@),
{
    let fields: Vec<Option<Value>> = json::read_record(json, Shape::WorkClaim)?;
    proof {
        json::law_a_record_has_all_its_fields(json@, 0, Shape::WorkClaim);
    }
    Ok(
        WorkClaim {
            claim_id: json::text_of(&fields, 0),
            route_id: json::text_of(&fields, 1),
            worker_service_id: json::text_of(&fields, 2),
            worker_instance_id: json::text_of(&fields, 3),
            fencing_token: json::number_of(&fields, 4),
            status: json::text_of(&fields, 5),
            claimed_at: json::number_of(&fields, 6),
            lease_expires_at: json::number_of(&fields, 7),
        },
    )
}

/// Every outcome of a claim attempt. `AlreadyClaimed` and `RouteNotFound` are no
/// failures of this worker: the kernel, the sole arbiter, rejected an attempt
/// that lost a race or aimed at a route that this service does not own.
#[derive(Clone, Debug, Eq, PartialEq)]
pub enum ClaimOutcome {
    Claimed(WorkClaim),
    AlreadyClaimed,
    RouteNotFound,
}

/// A [`ClaimOutcome`] with the claim by its view.
pub enum ClaimOutcomeView {
    Claimed(WorkClaimView),
    AlreadyClaimed,
    RouteNotFound,
}

impl View for ClaimOutcome {
    type V = ClaimOutcomeView;

    open spec fn view(&self) -> ClaimOutcomeView {
        match self {
            ClaimOutcome::Claimed(claim) => ClaimOutcomeView::Claimed(claim@),
            ClaimOutcome::AlreadyClaimed => ClaimOutcomeView::AlreadyClaimed,
            ClaimOutcome::RouteNotFound => ClaimOutcomeView::RouteNotFound,
        }
    }
}

/// What a claim attempt came to, from the status of the answer and the claim in
/// its body, which matters with status 201 only.
pub open spec fn claim_answer(status: u16, decoded: Result<WorkClaimView, Seq<char>>) -> Result<
    ClaimOutcomeView,
    WorkerErrorView,
> {
    if status == 201 {
        match decoded {
            Ok(claim) => Ok(ClaimOutcomeView::Claimed(claim)),
            Err(message) => Err(WorkerErrorView::MalformedResponse(message)),
        }
    } else if status == 409 {
        Ok(ClaimOutcomeView::AlreadyClaimed)
    } else if status == 404 {
        Ok(ClaimOutcomeView::RouteNotFound)
    } else {
        Err(WorkerErrorView::UnexpectedStatus(status))
    }
}

/// Classifies the answer to a claim attempt whose body has been decoded.
pub fn classify_claim(status: u16, decoded: Result<WorkClaim, String>) -> (outcome: Result<
    ClaimOutcome,
    WorkerError,
>)
    ensures
        error::result_view(outcome) == claim_answer(status, json::decoded_view(decoded)),
{
    match status {
        201 => match decoded {
            Ok(claim) => Ok(ClaimOutcome::Claimed(claim)),
            Err(message) => Err(WorkerError::MalformedResponse(message)),
        },
        409 => Ok(ClaimOutcome::AlreadyClaimed),
        404 => Ok(ClaimOutcome::RouteNotFound),
        other => Err(WorkerError::UnexpectedStatus(other)),
    }
}

/// Reads the answer to a claim attempt.
pub fn parse_claim_response(status: u16, body: &[u8]) -> (outcome: Result<
    ClaimOutcome,
    WorkerError,
>)
    ensures
        error::result_view(outcome) == claim_answer(status, work_claim_of(body@)),
{
    classify_claim(status, decode_work_claim(body))
}

/// Every outcome of completing a claim. `Fenced` means that another claim
/// superseded this one after it expired, `NotFound` that the kernel knows no such
/// claim; there is nothing for this worker to recover in either.
#[derive(Clone, Debug, Eq, PartialEq)]
pub enum CompleteOutcome {
    Completed(WorkClaim),
    Fenced,
    NotFound,
}

/// A [`CompleteOutcome`] with the claim by its view.
pub enum CompleteOutcomeView {
    Completed(WorkClaimView),
    Fenced,
    NotFound,
}

impl View for CompleteOutcome {
    type V = CompleteOutcomeView;

    open spec fn view(&self) -> CompleteOutcomeView {
        match self {
            CompleteOutcome::Completed(claim) => CompleteOutcomeView::Completed(claim@),
            CompleteOutcome::Fenced => CompleteOutcomeView::Fenced,
            CompleteOutcome::NotFound => CompleteOutcomeView::NotFound,
        }
    }
}

/// What completing a claim came to, from the status of the answer and the claim
/// in its body, which matters with status 200 only.
pub open spec fn complete_answer(status: u16, decoded: Result<WorkClaimView, Seq<char>>) -> Result<
    CompleteOutcomeView,
    WorkerErrorView,
> {
    if status == 200 {
        match decoded {
            Ok(claim) => Ok(CompleteOutcomeView::Completed(claim)),
            Err(message) => Err(WorkerErrorView::MalformedResponse(message)),
        }
    } else if status == 409 {
        Ok(CompleteOutcomeView::Fenced)
    } else if status == 404 {
        Ok(CompleteOutcomeView::NotFound)
    } else {
        Err(WorkerErrorView::UnexpectedStatus(status))
    }
}

/// Classifies the answer to a completion whose body has been decoded.
pub fn classify_completion(status: u16, decoded: Result<WorkClaim, String>) -> (outcome: Result<
    CompleteOutcome,
    WorkerError,
>)
    ensures
        error::result_view(outcome) == complete_answer(status, json::decoded_view(decoded)),
{
    match status {
        200 => match decoded {
            Ok(claim) => Ok(CompleteOutcome::Completed(claim)),
            Err(message) => Err(WorkerError::MalformedResponse(message)),
        },
        409 => Ok(CompleteOutcome::Fenced),
        404 => Ok(CompleteOutcome::NotFound),
        other => Err(WorkerError::UnexpectedStatus(other)),
    }
}

/// Reads the answer to a completion.
pub fn parse_complete_response(status: u16, body: &[u8]) -> (outcome: Result<
    CompleteOutcome,
    WorkerError,
>)
    ensures
        error::result_view(outcome) == complete_answer(status, work_claim_of(body@)),
{
    classify_completion(status, decode_work_claim(body))
}

/// The fields of a claim are the values that were read.
proof fn lemma_work_claim_lists_its_fields(json: Seq<u8>)
    ensures
        json::record_in(json, Shape::WorkClaim) matches Ok(fields) ==> {
            let it = work_claim_of(json)->Ok_0;
            &&& fields.len() == 8
            &&& fields[0] == Some(json::ValueView::Text(it.claim_id))
            &&& fields[1] == Some(json::ValueView::Text(it.route_id))
            &&& fields[2] == Some(json::ValueView::Text(it.worker_service_id))
            &&& fields[3] == Some(json::ValueView::Text(it.worker_instance_id))
            &&& fields[4] == Some(json::ValueView::Number(it.fencing_token))
            &&& fields[5] == Some(json::ValueView::Text(it.status))
            &&& fields[6] == Some(json::ValueView::Number(it.claimed_at))
            &&& fields[7] == Some(json::ValueView::Number(it.lease_expires_at))
        },
{
    json::law_a_record_has_all_its_fields(json, 0, Shape::WorkClaim);
    if let Ok(fields) = json::record_in(json, Shape::WorkClaim) {
        assert(fields[0] is Some);
        assert(fields[1] is Some);
        assert(fields[2] is Some);
        assert(fields[3] is Some);
        assert(fields[4] is Some);
        assert(fields[5] is Some);
        assert(fields[6] is Some);
        assert(fields[7] is Some);
    }
}

/// A text is read as one if and only if it is a record of one.
proof fn lemma_work_claim_holds(json: Seq<u8>)
    ensures
        work_claim_of(json) matches Ok(it) ==> json::body_holds(
            json,
            Shape::WorkClaim,
            seq![
                json::ValueView::Text(it.claim_id),
                json::ValueView::Text(it.route_id),
                json::ValueView::Text(it.worker_service_id),
                json::ValueView::Text(it.worker_instance_id),
                json::ValueView::Number(it.fencing_token),
                json::ValueView::Text(it.status),
                json::ValueView::Number(it.claimed_at),
                json::ValueView::Number(it.lease_expires_at),
            ],
        ),
        work_claim_of(json) is Err ==> forall|values: Seq<json::ValueView>|
            !(#[trigger] json::body_holds(json, Shape::WorkClaim, values)),
{
    let values = json::law_a_body_that_is_read_holds_values(json, Shape::WorkClaim);
    if let Ok(it) = work_claim_of(json) {
        let listed = seq![
            json::ValueView::Text(it.claim_id),
            json::ValueView::Text(it.route_id),
            json::ValueView::Text(it.worker_service_id),
            json::ValueView::Text(it.worker_instance_id),
            json::ValueView::Number(it.fencing_token),
            json::ValueView::Text(it.status),
            json::ValueView::Number(it.claimed_at),
            json::ValueView::Number(it.lease_expires_at),
        ];
        assert(listed =~= values) by {
            lemma_work_claim_lists_its_fields(json);
        }
    } else {
        assert forall|values: Seq<json::ValueView>| !(#[trigger] json::body_holds(
            json,
            Shape::WorkClaim,
            values,
        )) by {
            json::law_a_body_is_read_as_it_stands(json, Shape::WorkClaim, values);
        }
    }
}

/// A record that is an object has a member of each field's name.
proof fn lemma_work_claim_members(json: Seq<u8>, it: WorkClaimView)
    requires
        json::record_holds(
            json,
            0,
            Shape::WorkClaim,
            seq![
                json::ValueView::Text(it.claim_id),
                json::ValueView::Text(it.route_id),
                json::ValueView::Text(it.worker_service_id),
                json::ValueView::Text(it.worker_instance_id),
                json::ValueView::Number(it.fencing_token),
                json::ValueView::Text(it.status),
                json::ValueView::Number(it.claimed_at),
                json::ValueView::Number(it.lease_expires_at),
            ],
        ),
        json[json::space_end(json, 0)] == 0x7b,
    ensures
        json::text_member(json, "claim_id"@, it.claim_id),
        json::text_member(json, "route_id"@, it.route_id),
        json::text_member(json, "worker_service_id"@, it.worker_service_id),
        json::text_member(json, "worker_instance_id"@, it.worker_instance_id),
        json::number_member(json, "fencing_token"@, it.fencing_token),
        json::text_member(json, "status"@, it.status),
        json::number_member(json, "claimed_at"@, it.claimed_at),
        json::number_member(json, "lease_expires_at"@, it.lease_expires_at),
{
    let listed = seq![
        json::ValueView::Text(it.claim_id),
        json::ValueView::Text(it.route_id),
        json::ValueView::Text(it.worker_service_id),
        json::ValueView::Text(it.worker_instance_id),
        json::ValueView::Number(it.fencing_token),
        json::ValueView::Text(it.status),
        json::ValueView::Number(it.claimed_at),
        json::ValueView::Number(it.lease_expires_at),
    ];
    json::law_each_value_has_its_member(json, 0, Shape::WorkClaim, listed);
    assert(listed[0] == json::ValueView::Text(it.claim_id));
    assert(listed[1] == json::ValueView::Text(it.route_id));
    assert(listed[2] == json::ValueView::Text(it.worker_service_id));
    assert(listed[3] == json::ValueView::Text(it.worker_instance_id));
    assert(listed[4] == json::ValueView::Number(it.fencing_token));
    assert(listed[5] == json::ValueView::Text(it.status));
    assert(listed[6] == json::ValueView::Number(it.claimed_at));
    assert(listed[7] == json::ValueView::Number(it.lease_expires_at));
}

/// A claim is decoded if and only if the text is a record of one, and each of
/// its fields is then what stands in the text for it, whole: by the field's name where
/// the record is an object, and by its position where it is an array.
pub proof fn law_work_claim_is_decoded_whole(json: &[u8], decoded: Result<WorkClaim, String>)
    requires
        call_ensures(decode_work_claim, (json,), decoded),
    ensures
        decoded matches Ok(it) ==> json::body_holds(
            json@,
            Shape::WorkClaim,
            seq![
                json::ValueView::Text(it.claim_id@),
                json::ValueView::Text(it.route_id@),
                json::ValueView::Text(it.worker_service_id@),
                json::ValueView::Text(it.worker_instance_id@),
                json::ValueView::Number(it.fencing_token),
                json::ValueView::Text(it.status@),
                json::ValueView::Number(it.claimed_at),
                json::ValueView::Number(it.lease_expires_at),
            ],
        ),
        decoded is Err ==> forall|values: Seq<json::ValueView>|
            !(#[trigger] json::body_holds(json@, Shape::WorkClaim, values)),
        decoded matches Ok(it) ==> json@[json::space_end(json@, 0)] == 0x7b ==> {
            &&& json::text_member(json@, "claim_id"@, it.claim_id@)
            &&& json::text_member(json@, "route_id"@, it.route_id@)
            &&& json::text_member(json@, "worker_service_id"@, it.worker_service_id@)
            &&& json::text_member(json@, "worker_instance_id"@, it.worker_instance_id@)
            &&& json::number_member(json@, "fencing_token"@, it.fencing_token)
            &&& json::text_member(json@, "status"@, it.status@)
            &&& json::number_member(json@, "claimed_at"@, it.claimed_at)
            &&& json::number_member(json@, "lease_expires_at"@, it.lease_expires_at)
        },
{
    lemma_work_claim_holds(json@);
    if let Ok(it) = decoded {
        assert(work_claim_of(json@) == Ok::<_, Seq<char>>(it@));
        if json@[json::space_end(json@, 0)] == 0x7b {
            lemma_work_claim_members(json@, it@);
        }
    }
}

/// What a claim attempt came to is told by the status alone, whatever the body holds,
/// but with status 201, where it is the claim in the body or what is wrong with it.
pub proof fn law_a_claim_attempt_is_told_by_its_status(
    status: u16,
    body: &[u8],
    outcome: Result<ClaimOutcome, WorkerError>,
    decoded: Result<WorkClaim, String>,
)
    requires
        call_ensures(parse_claim_response, (status, body), outcome),
        call_ensures(decode_work_claim, (body,), decoded),
    ensures
        status == 409 <==> outcome matches Ok(ClaimOutcome::AlreadyClaimed),
        status == 404 <==> outcome matches Ok(ClaimOutcome::RouteNotFound),
        status != 201 && status != 404 && status != 409 ==> (outcome matches Err(
            WorkerError::UnexpectedStatus(told),
        ) && told == status),
        status == 201 ==> match decoded {
            Ok(claim) => outcome matches Ok(ClaimOutcome::Claimed(told)) && told@ == claim@,
            Err(message) => outcome matches Err(WorkerError::MalformedResponse(told)) && told@
                == message@,
        },
{
}

/// What a completion came to is told by the status alone, whatever the body holds, but
/// with status 200, where it is the claim in the body or what is wrong with it.
pub proof fn law_a_completion_is_told_by_its_status(
    status: u16,
    body: &[u8],
    outcome: Result<CompleteOutcome, WorkerError>,
    decoded: Result<WorkClaim, String>,
)
    requires
        call_ensures(parse_complete_response, (status, body), outcome),
        call_ensures(decode_work_claim, (body,), decoded),
    ensures
        status == 409 <==> outcome matches Ok(CompleteOutcome::Fenced),
        status == 404 <==> outcome matches Ok(CompleteOutcome::NotFound),
        status != 200 && status != 404 && status != 409 ==> (outcome matches Err(
            WorkerError::UnexpectedStatus(told),
        ) && told == status),
        status == 200 ==> match decoded {
            Ok(claim) => outcome matches Ok(CompleteOutcome::Completed(told)) && told@ == claim@,
            Err(message) => outcome matches Err(WorkerError::MalformedResponse(told)) && told@
                == message@,
        },
{
}

/// The body of a claim attempt carries the lease, and that of a completion the fencing
/// token, under its name and as a number that reads back as it.
pub proof fn law_request_bodies_carry_their_number(
    claim: &ClaimRequest,
    action: &FencedActionRequest,
    claim_body: Vec<u8>,
    action_body: Vec<u8>,
)
    requires
        call_ensures(ClaimRequest::to_json, (claim,), claim_body),
        call_ensures(FencedActionRequest::to_json, (action,), action_body),
    ensures
        exists|number: Seq<char>|
            {
                &&& text::signed_number(number) == Some(claim.lease_seconds as int)
                &&& vstd::utf8::decode_utf8(claim_body@) == "{\"lease_seconds\":"@ + #[trigger] (
                number + seq!['}'])
            },
        exists|number: Seq<char>|
            {
                &&& text::signed_number(number) == Some(action.fencing_token as int)
                &&& vstd::utf8::decode_utf8(action_body@) == "{\"fencing_token\":"@ + #[trigger] (
                number + seq!['}'])
            },
{
    reveal_strlit("{\"");
    reveal_strlit("\":");
    reveal_strlit("}");
    reveal_strlit("lease_seconds");
    reveal_strlit("fencing_token");
    reveal_strlit("{\"lease_seconds\":");
    reveal_strlit("{\"fencing_token\":");
    let lease = text::decimal(claim.lease_seconds as int);
    let token = text::decimal(action.fencing_token as int);
    text::law_decimal_reads_back(claim.lease_seconds as int);
    text::law_decimal_reads_back(action.fencing_token as int);
    let a = json::integer_object("lease_seconds"@, claim.lease_seconds as int);
    let b = json::integer_object("fencing_token"@, action.fencing_token as int);
    vstd::utf8::encode_utf8_decode_utf8(a);
    vstd::utf8::encode_utf8_decode_utf8(b);
    assert(a =~= "{\"lease_seconds\":"@ + (lease + seq!['}']));
    assert(b =~= "{\"fencing_token\":"@ + (token + seq!['}']));
}

/// What is wrong with the text of a work claim is what is wrong with it as a record of one.
pub proof fn law_a_refused_work_claim_tells_what_is_wrong(
    json: &[u8],
    decoded: Result<WorkClaim, String>,
    read: Result<Vec<Option<Value>>, String>,
)
    requires
        call_ensures(decode_work_claim, (json,), decoded),
        call_ensures(json::read_record, (json, Shape::WorkClaim), read),
    ensures
        decoded is Ok <==> read is Ok,
        decoded matches Err(told) ==> (read matches Err(said) && told@ == said@),
{
}

}
