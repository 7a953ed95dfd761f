//! The calls that this worker makes into the kernel: which there are, what each
//! asks for on the wire, and the port through which they are made.
//!
//! A call is signed as a whole, with this process's own credential, and the kernel
//! takes the caller's identity from the signature alone. What is to be signed is
//! put together here, apart from signing and sending it.

use crate::claims;
use crate::claims::{
    ClaimOutcome, ClaimOutcomeView, ClaimRequest, CompleteOutcome, CompleteOutcomeView,
    FencedActionRequest,
};
use crate::error;
use crate::error::{WorkerError, WorkerErrorView};
use crate::instance_lease;
use crate::json;
use crate::routed_request;
use crate::routed_request::{RoutedRequestOutcome, RoutedRequestOutcomeView};
use crate::routes;
use crate::routes::{EligibleRoute, EligibleRouteView};
use crate::text;
use vstd::prelude::*;
use vstd::string::*;

verus! {

/// How long a signature stays valid.
pub const SIGNATURE_VALIDITY_SECONDS: i64 = 30;

/// The content type of every call.
pub const JSON_CONTENT_TYPE: &'static str = "application/json";

/// The kernel operations that this worker needs, behind an interface, so that a
/// pass can be made against any kernel.
pub trait KernelPort {
    /// Lists the routes that this service may claim, oldest first.
    fn eligible_routes(&self) -> Result<Vec<EligibleRoute>, WorkerError>;

    /// Tries to claim a route for `lease_seconds`.
    fn propose_claim(&self, route_id: &str, lease_seconds: i64) -> Result<
        ClaimOutcome,
        WorkerError,
    >;

    /// Reads the request behind a route.
    fn routed_request(&self, route_id: &str) -> Result<RoutedRequestOutcome, WorkerError>;

    /// Completes a claim.
    fn complete_claim(&self, claim_id: &str, fencing_token: i64) -> Result<
        CompleteOutcome,
        WorkerError,
    >;
}

/// One call into the kernel.
#[derive(Clone, Debug, Eq, PartialEq)]
pub enum KernelCall {
    EligibleRoutes,
    ProposeClaim { route_id: String, lease_seconds: i64 },
    RoutedRequest { route_id: String },
    CompleteClaim { claim_id: String, fencing_token: i64 },
}

/// A [`KernelCall`] with its texts as character sequences.
pub enum KernelCallView {
    EligibleRoutes,
    ProposeClaim { route_id: Seq<char>, lease_seconds: i64 },
    RoutedRequest { route_id: Seq<char> },
    CompleteClaim { claim_id: Seq<char>, fencing_token: i64 },
}

impl View for KernelCall {
    type V = KernelCallView;

    open spec fn view(&self) -> KernelCallView {
        match self {
            KernelCall::EligibleRoutes => KernelCallView::EligibleRoutes,
            KernelCall::ProposeClaim { route_id, lease_seconds } => KernelCallView::ProposeClaim {
                route_id: route_id@,
                lease_seconds: *lease_seconds,
            },
            KernelCall::RoutedRequest { route_id } => KernelCallView::RoutedRequest {
                route_id: route_id@,
            },
            KernelCall::CompleteClaim { claim_id, fencing_token } => {
                KernelCallView::CompleteClaim { claim_id: claim_id@, fencing_token: *fencing_token }
            },
        }
    }
}

/// The outcome of a call.
#[derive(Debug)]
pub enum KernelReply {
    EligibleRoutes(Result<Vec<EligibleRoute>, WorkerError>),
    ProposeClaim(Result<ClaimOutcome, WorkerError>),
    RoutedRequest(Result<RoutedRequestOutcome, WorkerError>),
    CompleteClaim(Result<CompleteOutcome, WorkerError>),
}

/// A [`KernelReply`] by its views.
pub enum KernelReplyView {
    EligibleRoutes(Result<Seq<EligibleRouteView>, WorkerErrorView>),
    ProposeClaim(Result<ClaimOutcomeView, WorkerErrorView>),
    RoutedRequest(Result<RoutedRequestOutcomeView, WorkerErrorView>),
    CompleteClaim(Result<CompleteOutcomeView, WorkerErrorView>),
}

impl View for KernelReply {
    type V = KernelReplyView;

    open spec fn view(&self) -> KernelReplyView {
        match self {
            KernelReply::EligibleRoutes(result) => KernelReplyView::EligibleRoutes(
                routes::routes_result_view(*result),
            ),
            KernelReply::ProposeClaim(result) => KernelReplyView::ProposeClaim(
                error::result_view(*result),
            ),
            KernelReply::RoutedRequest(result) => KernelReplyView::RoutedRequest(
                error::result_view(*result),
            ),
            KernelReply::CompleteClaim(result) => KernelReplyView::CompleteClaim(
                error::result_view(*result),
            ),
        }
    }
}

/// Whether `reply` is of the kind that answers `call`.
pub open spec fn reply_fits(call: KernelCallView, reply: KernelReplyView) -> bool {
    match call {
        KernelCallView::EligibleRoutes => reply is EligibleRoutes,
        KernelCallView::ProposeClaim { .. } => reply is ProposeClaim,
        KernelCallView::RoutedRequest { .. } => reply is RoutedRequest,
        KernelCallView::CompleteClaim { .. } => reply is CompleteClaim,
    }
}

/// Whether the port may give `reply` when its method for `call` is called with
/// the arguments that the call holds.
pub open spec fn port_gives<P: KernelPort>(
    port: &P,
    call: KernelCallView,
    reply: KernelReplyView,
) -> bool {
    match call {
        KernelCallView::EligibleRoutes => exists|result: Result<Vec<EligibleRoute>, WorkerError>|
            {
                &&& #[trigger] call_ensures(P::eligible_routes, (port,), result)
                &&& reply == KernelReply::EligibleRoutes(result)@
            },
        KernelCallView::ProposeClaim { route_id, lease_seconds } => exists|
            id: &str,
            result: Result<ClaimOutcome, WorkerError>,
        |
            {
                &&& id@ == route_id
                &&& #[trigger] call_ensures(P::propose_claim, (port, id, lease_seconds), result)
                &&& reply == KernelReply::ProposeClaim(result)@
            },
        KernelCallView::RoutedRequest { route_id } => exists|
            id: &str,
            result: Result<RoutedRequestOutcome, WorkerError>,
        |
            {
                &&& id@ == route_id
                &&& #[trigger] call_ensures(P::routed_request, (port, id), result)
                &&& reply == KernelReply::RoutedRequest(result)@
            },
        KernelCallView::CompleteClaim { claim_id, fencing_token } => exists|
            id: &str,
            result: Result<CompleteOutcome, WorkerError>,
        |
            {
                &&& id@ == claim_id
                &&& #[trigger] call_ensures(P::complete_claim, (port, id, fencing_token), result)
                &&& reply == KernelReply::CompleteClaim(result)@
            },
    }
}

/// Makes a call through a port.
pub fn perform<P: KernelPort>(port: &P, call: &KernelCall) -> (reply: KernelReply)
    ensures
        port_gives(port, call@, reply@),
        reply_fits(call@, reply@),
{
    match call {
        KernelCall::EligibleRoutes => {
            let result = port.eligible_routes();
            assert(call_ensures(P::eligible_routes, (port,), result));
            KernelReply::EligibleRoutes(result)
        },
        KernelCall::ProposeClaim { route_id, lease_seconds } => {
            let id = route_id.as_str();
            let result = port.propose_claim(id, *lease_seconds);
            assert(call_ensures(P::propose_claim, (port, id, *lease_seconds), result));
            KernelReply::ProposeClaim(result)
        },
        KernelCall::RoutedRequest { route_id } => {
            let id = route_id.as_str();
            let result = port.routed_request(id);
            assert(call_ensures(P::routed_request, (port, id), result));
            KernelReply::RoutedRequest(result)
        },
        KernelCall::CompleteClaim { claim_id, fencing_token } => {
            let id = claim_id.as_str();
            let result = port.complete_claim(id, *fencing_token);
            assert(call_ensures(P::complete_claim, (port, id, *fencing_token), result));
            KernelReply::CompleteClaim(result)
        },
    }
}

/// Everything of a call that its signature covers.
#[derive(Clone, Debug, Eq, PartialEq)]
pub struct OutboundRequest {
    pub method: &'static str,
    /// The kernel's host and, if needed, port; never a scheme or path.
    pub authority: String,
    pub path: String,
    pub content_type: &'static str,
    pub body: Vec<u8>,
    pub request_id: u128,
    /// When the signature is made.
    pub created_at: i64,
    /// When the signature stops being valid.
    pub expires_at: i64,
}

/// An [`OutboundRequest`] with its texts as sequences.
pub struct OutboundRequestView {
    pub method: Seq<char>,
    pub authority: Seq<char>,
    pub path: Seq<char>,
    pub content_type: Seq<char>,
    pub body: Seq<u8>,
    pub request_id: u128,
    pub created_at: int,
    pub expires_at: int,
}

impl View for OutboundRequest {
    type V = OutboundRequestView;

    open spec fn view(&self) -> OutboundRequestView {
        OutboundRequestView {
            method: self.method@,
            authority: self.authority@,
            path: self.path@,
            content_type: self.content_type@,
            body: self.body@,
            request_id: self.request_id,
            created_at: self.created_at as int,
            expires_at: self.expires_at as int,
        }
    }
}

/// The request with the given method, path and body, signed at `now`.
pub open spec fn signable(
    method: Seq<char>,
    authority: Seq<char>,
    path: Seq<char>,
    body: Seq<u8>,
    request_id: u128,
    now: int,
) -> OutboundRequestView {
    OutboundRequestView {
        method,
        authority,
        path,
        content_type: "application/json"@,
        body,
        request_id,
        created_at: now,
        expires_at: now + SIGNATURE_VALIDITY_SECONDS,
    }
}

/// Puts together a read.
pub fn build_get(authority: &str, path: &str, request_id: u128, now: i64) -> (request:
    OutboundRequest)
    requires
        now + SIGNATURE_VALIDITY_SECONDS <= i64::MAX,
    ensures
        request@ == signable("GET"@, authority@, path@, Seq::empty(), request_id, now as int),
{
    let request = OutboundRequest {
        method: "GET",
        authority: authority.to_owned(),
        path: path.to_owned(),
        content_type: JSON_CONTENT_TYPE,
        body: Vec::new(),
        request_id,
        created_at: now,
        expires_at: now + SIGNATURE_VALIDITY_SECONDS,
    };
    assert(request@.body =~= Seq::empty());
    request
}

/// Puts together a write.
pub fn build_post(authority: &str, path: &str, body: Vec<u8>, request_id: u128, now: i64) -> (request:
    OutboundRequest)
    requires
        now + SIGNATURE_VALIDITY_SECONDS <= i64::MAX,
    ensures
        request@ == signable("POST"@, authority@, path@, body@, request_id, now as int),
{
    OutboundRequest {
        method: "POST",
        authority: authority.to_owned(),
        path: path.to_owned(),
        content_type: JSON_CONTENT_TYPE,
        body,
        request_id,
        created_at: now,
        expires_at: now + SIGNATURE_VALIDITY_SECONDS,
    }
}

/// Where the claims on a route are made.
pub open spec fn claims_path(route_id: Seq<char>) -> Seq<char> {
    "/v1/routes/"@ + route_id + "/claims"@
}

/// Where the request behind a route is read.
pub open spec fn routed_request_path(route_id: Seq<char>) -> Seq<char> {
    "/v1/routes/"@ + route_id + "/request"@
}

/// Where a claim is completed.
pub open spec fn completion_path(claim_id: Seq<char>) -> Seq<char> {
    "/v1/claims/"@ + claim_id + "/complete"@
}

/// The request that a call makes on the wire.
pub open spec fn request_for(
    call: KernelCallView,
    authority: Seq<char>,
    request_id: u128,
    now: int,
) -> OutboundRequestView {
    match call {
        KernelCallView::EligibleRoutes => signable(
            "GET"@,
            authority,
            routes::ELIGIBLE_ROUTES_PATH@,
            Seq::empty(),
            request_id,
            now,
        ),
        KernelCallView::ProposeClaim { route_id, lease_seconds } => signable(
            "POST"@,
            authority,
            claims_path(route_id),
            vstd::utf8::encode_utf8(
                json::integer_object("lease_seconds"@, lease_seconds as int),
            ),
            request_id,
            now,
        ),
        KernelCallView::RoutedRequest { route_id } => signable(
            "GET"@,
            authority,
            routed_request_path(route_id),
            Seq::empty(),
            request_id,
            now,
        ),
        KernelCallView::CompleteClaim { claim_id, fencing_token } => signable(
            "POST"@,
            authority,
            completion_path(claim_id),
            vstd::utf8::encode_utf8(
                json::integer_object("fencing_token"@, fencing_token as int),
            ),
            request_id,
            now,
        ),
    }
}

/// The reply to a call, from the status and the body of the kernel's answer.
pub open spec fn reply_in(call: KernelCallView, status: u16, body: Seq<u8>) -> KernelReplyView {
    match call {
        KernelCallView::EligibleRoutes => KernelReplyView::EligibleRoutes(
            routes::eligible_routes_answer(status, routes::eligible_routes_of(body)),
        ),
        KernelCallView::ProposeClaim { .. } => KernelReplyView::ProposeClaim(
            claims::claim_answer(status, claims::work_claim_of(body)),
        ),
        KernelCallView::RoutedRequest { .. } => KernelReplyView::RoutedRequest(
            routed_request::routed_request_answer(status, routed_request::routed_request_of(body)),
        ),
        KernelCallView::CompleteClaim { .. } => KernelReplyView::CompleteClaim(
            claims::complete_answer(status, claims::work_claim_of(body)),
        ),
    }
}

/// The reply to a call that could not be made.
pub open spec fn failed_reply(call: KernelCallView, failure: WorkerErrorView) -> KernelReplyView {
    match call {
        KernelCallView::EligibleRoutes => KernelReplyView::EligibleRoutes(Err(failure)),
        KernelCallView::ProposeClaim { .. } => KernelReplyView::ProposeClaim(Err(failure)),
        KernelCallView::RoutedRequest { .. } => KernelReplyView::RoutedRequest(Err(failure)),
        KernelCallView::CompleteClaim { .. } => KernelReplyView::CompleteClaim(Err(failure)),
    }
}

impl KernelCall {
    /// Puts together the request that the call makes.
    pub fn to_request(&self, authority: &str, request_id: u128, now: i64) -> (request:
        OutboundRequest)
        requires
            now + SIGNATURE_VALIDITY_SECONDS <= i64::MAX,
        ensures
            request@ == request_for(self@, authority@, request_id, now as int),
    {
        match self {
            KernelCall::EligibleRoutes => build_get(
                authority,
                routes::ELIGIBLE_ROUTES_PATH,
                request_id,
                now,
            ),
            KernelCall::ProposeClaim { route_id, lease_seconds } => {
                let path = "/v1/routes/".to_owned().concat(route_id.as_str()).concat("/claims");
                let body = ClaimRequest { lease_seconds: *lease_seconds }.to_json();
                build_post(authority, path.as_str(), body, request_id, now)
            },
            KernelCall::RoutedRequest { route_id } => {
                let path = "/v1/routes/".to_owned().concat(route_id.as_str()).concat("/request");
                build_get(authority, path.as_str(), request_id, now)
            },
            KernelCall::CompleteClaim { claim_id, fencing_token } => {
                let path = "/v1/claims/".to_owned().concat(claim_id.as_str()).concat("/complete");
                let body = FencedActionRequest { fencing_token: *fencing_token }.to_json();
                build_post(authority, path.as_str(), body, request_id, now)
            },
        }
    }
    /// Reads the kernel's answer to the call.
    pub fn read_reply(&self, status: u16, body: &[u8]) -> (reply: KernelReply)
        ensures
            reply@ == reply_in(self@, status, body@),
    {
        match self {
            KernelCall::EligibleRoutes => KernelReply::EligibleRoutes(
                routes::parse_eligible_routes(status, body),
            ),
            KernelCall::ProposeClaim { .. } => KernelReply::ProposeClaim(
                claims::parse_claim_response(status, body),
            ),
            KernelCall::RoutedRequest { .. } => KernelReply::RoutedRequest(
                routed_request::parse_routed_request_response(status, body),
            ),
            KernelCall::CompleteClaim { .. } => KernelReply::CompleteClaim(
                claims::parse_complete_response(status, body),
            ),
        }
    }

    /// Gives the call up: its reply is the failure.
    pub fn fail(&self, failure: WorkerError) -> (reply: KernelReply)
        ensures
            reply@ == failed_reply(self@, failure@),
    {
        match self {
            KernelCall::EligibleRoutes => KernelReply::EligibleRoutes(Err(failure)),
            KernelCall::ProposeClaim { .. } => KernelReply::ProposeClaim(Err(failure)),
            KernelCall::RoutedRequest { .. } => KernelReply::RoutedRequest(Err(failure)),
            KernelCall::CompleteClaim { .. } => KernelReply::CompleteClaim(Err(failure)),
        }
    }
}

/// Puts together the renewal of this process's own lease.
pub fn renewal_request(authority: &str, expected_revision: i64, request_id: u128, now: i64) -> (request:
    OutboundRequest)
    requires
        now + SIGNATURE_VALIDITY_SECONDS <= i64::MAX,
    ensures
        request@ == signable(
            "POST"@,
            authority@,
            instance_lease::RENEW_INSTANCE_PATH@,
            vstd::utf8::encode_utf8(
                json::integer_object("expected_revision"@, expected_revision as int),
            ),
            request_id,
            now as int,
        ),
{
    build_post(
        authority,
        instance_lease::RENEW_INSTANCE_PATH,
        instance_lease::renewal_request_body(expected_revision),
        request_id,
        now,
    )
}

/// Whatever the kernel answers to a call, and where it does not answer at all, the
/// reply is one to that call.
pub proof fn law_a_call_gets_its_own_reply(
    call: KernelCallView,
    status: u16,
    body: Seq<u8>,
    failure: WorkerErrorView,
)
    ensures
        reply_fits(call, reply_in(call, status, body)),
        reply_fits(call, failed_reply(call, failure)),
{
}

/// A lost race, an unknown route and a stale fencing token are answers, not
/// failures, whatever their bodies hold.
pub proof fn law_refusals_are_no_failures(
    route_id: Seq<char>,
    lease_seconds: i64,
    claim_id: Seq<char>,
    fencing_token: i64,
    body: Seq<u8>,
)
    ensures
        reply_in(KernelCallView::ProposeClaim { route_id, lease_seconds }, 409, body)
            == KernelReplyView::ProposeClaim(Ok(ClaimOutcomeView::AlreadyClaimed)),
        reply_in(KernelCallView::ProposeClaim { route_id, lease_seconds }, 404, body)
            == KernelReplyView::ProposeClaim(Ok(ClaimOutcomeView::RouteNotFound)),
        reply_in(KernelCallView::RoutedRequest { route_id }, 404, body)
            == KernelReplyView::RoutedRequest(Ok(RoutedRequestOutcomeView::NotFound)),
        reply_in(KernelCallView::CompleteClaim { claim_id, fencing_token }, 409, body)
            == KernelReplyView::CompleteClaim(Ok(CompleteOutcomeView::Fenced)),
        reply_in(KernelCallView::CompleteClaim { claim_id, fencing_token }, 404, body)
            == KernelReplyView::CompleteClaim(Ok(CompleteOutcomeView::NotFound)),
{
}

/// Every call is signed for the kernel it goes to and for the same time; a read
/// carries no body.
pub proof fn law_every_call_is_signed_alike(
    call: KernelCallView,
    authority: Seq<char>,
    request_id: u128,
    now: int,
)
    ensures
        ({
            let request = request_for(call, authority, request_id, now);
            &&& request.authority == authority
            &&& request.content_type == "application/json"@
            &&& request.request_id == request_id
            &&& request.created_at == now
            &&& request.expires_at == now + SIGNATURE_VALIDITY_SECONDS
            &&& (call is EligibleRoutes || call is RoutedRequest) ==> request.method == "GET"@
                && request.body.len() == 0
            &&& (call is ProposeClaim || call is CompleteClaim) ==> request.method == "POST"@
        }),
{
}

/// What is signed has every part of the request in it: requests that are the same for
/// the signature have the same method, authority, path, body, ID and time.
pub proof fn law_what_is_signed_has_every_part(
    method: (Seq<char>, Seq<char>),
    authority: (Seq<char>, Seq<char>),
    path: (Seq<char>, Seq<char>),
    body: (Seq<u8>, Seq<u8>),
    request_id: (u128, u128),
    now: (int, int),
)
    requires
        signable(method.0, authority.0, path.0, body.0, request_id.0, now.0) == signable(
            method.1,
            authority.1,
            path.1,
            body.1,
            request_id.1,
            now.1,
        ),
    ensures
        method.0 == method.1,
        authority.0 == authority.1,
        path.0 == path.1,
        body.0 == body.1,
        request_id.0 == request_id.1,
        now.0 == now.1,
{
}

/// Texts that agree around `a` and `b`, and as wholes, agree in `a` and `b`.
proof fn lemma_same_middle(before: Seq<char>, a: Seq<char>, b: Seq<char>, after: Seq<char>)
    ensures
        before + a + after == before + b + after ==> a == b,
{
    let whole_a = before + a + after;
    let whole_b = before + b + after;
    if whole_a == whole_b {
        assert(whole_a.len() == before.len() + a.len() + after.len());
        assert(whole_b.len() == before.len() + b.len() + after.len());
        let from = before.len() as int;
        let end = from + a.len();
        assert(whole_a.subrange(from, end) =~= a);
        assert(whole_b.subrange(from, end) =~= b);
    }
}

/// The paths tell the calls apart, and each path names one route or claim.
proof fn lemma_paths_name_their_target(a: Seq<char>, b: Seq<char>)
    ensures
        claims_path(a) == claims_path(b) ==> a == b,
        routed_request_path(a) == routed_request_path(b) ==> a == b,
        completion_path(a) == completion_path(b) ==> a == b,
        claims_path(a) != completion_path(b),
        routed_request_path(a) != routes::ELIGIBLE_ROUTES_PATH@,
{
    reveal_strlit("/v1/routes/");
    reveal_strlit("/v1/claims/");
    reveal_strlit("/claims");
    reveal_strlit("/request");
    reveal_strlit("/complete");
    reveal_strlit("/v1/routes/eligible");
    lemma_same_middle("/v1/routes/"@, a, b, "/claims"@);
    lemma_same_middle("/v1/routes/"@, a, b, "/request"@);
    lemma_same_middle("/v1/claims/"@, a, b, "/complete"@);
    assert(claims_path(a)[4] == 'r');
    assert(completion_path(b)[4] == 'c');
    let read = routed_request_path(a);
    let listing = routes::ELIGIBLE_ROUTES_PATH@;
    assert(read[read.len() - 1] == 't');
    assert(listing[listing.len() - 1] == 'e');
}

/// A one-member body carries its number: bodies that are alike carry the same one.
proof fn lemma_body_carries_its_number(name: Seq<char>, a: int, b: int)
    requires
        vstd::utf8::encode_utf8(json::integer_object(name, a)) == vstd::utf8::encode_utf8(
            json::integer_object(name, b),
        ),
    ensures
        a == b,
{
    vstd::utf8::encode_utf8_decode_utf8(json::integer_object(name, a));
    vstd::utf8::encode_utf8_decode_utf8(json::integer_object(name, b));
    lemma_same_middle("{\""@ + name + "\":"@, text::decimal(a), text::decimal(b), "}"@);
    text::law_decimal_reads_back(a);
    text::law_decimal_reads_back(b);
}

/// A request on the wire stands for one call: it names the route or the claim that
/// the call is about, and carries its lease or its fencing token.
pub proof fn law_a_request_stands_for_one_call(
    a: KernelCallView,
    b: KernelCallView,
    authority: Seq<char>,
    request_id: u128,
    now: int,
)
    requires
        request_for(a, authority, request_id, now) == request_for(b, authority, request_id, now),
    ensures
        a == b,
{
    reveal_strlit("GET");
    reveal_strlit("POST");
    assert("GET"@.len() != "POST"@.len());
    match a {
        KernelCallView::EligibleRoutes => {
            if let KernelCallView::RoutedRequest { route_id } = b {
                lemma_paths_name_their_target(route_id, route_id);
            }
        },
        KernelCallView::ProposeClaim { route_id: ra, lease_seconds: la } => {
            if let KernelCallView::ProposeClaim { route_id: rb, lease_seconds: lb } = b {
                lemma_paths_name_their_target(ra, rb);
                lemma_body_carries_its_number("lease_seconds"@, la as int, lb as int);
            } else if let KernelCallView::CompleteClaim { claim_id, fencing_token } = b {
                lemma_paths_name_their_target(ra, claim_id);
            }
        },
        KernelCallView::RoutedRequest { route_id: ra } => {
            if let KernelCallView::RoutedRequest { route_id: rb } = b {
                lemma_paths_name_their_target(ra, rb);
            } else {
                lemma_paths_name_their_target(ra, ra);
            }
        },
        KernelCallView::CompleteClaim { claim_id: ca, fencing_token: fa } => {
            if let KernelCallView::CompleteClaim { claim_id: cb, fencing_token: fb } = b {
                lemma_paths_name_their_target(ca, cb);
                lemma_body_carries_its_number("fencing_token"@, fa as int, fb as int);
            } else if let KernelCallView::ProposeClaim { route_id, lease_seconds } = b {
                lemma_paths_name_their_target(route_id, ca);
            }
        },
    }
}

/// Whether a body carries a number under a name, and nothing else: what stands between
/// the name and the closing mark reads back as the number.
pub open spec fn carries(body: Seq<u8>, before: Seq<char>, value: int) -> bool {
    exists|number: Seq<char>|
        {
            &&& text::signed_number(number) == Some(value)
            &&& vstd::utf8::decode_utf8(body) == before + #[trigger] (number + seq!['}'])
        }
}

/// The body of one number carries it.
proof fn lemma_integer_object_carries(name: Seq<char>, value: int)
    ensures
        carries(
            vstd::utf8::encode_utf8(json::integer_object(name, value)),
            seq!['{', '"'] + name + seq!['"', ':'],
            value,
        ),
{
    reveal_strlit("{\"");
    reveal_strlit("\":");
    reveal_strlit("}");
    let object = json::integer_object(name, value);
    let number = text::decimal(value);
    text::law_decimal_reads_back(value);
    vstd::utf8::encode_utf8_decode_utf8(object);
    assert(object =~= seq!['{', '"'] + name + seq!['"', ':'] + (number + seq!['}']));
}

/// Every call goes to the kernel that is asked, under the ID that it was given, as JSON,
/// signed from now on for thirty seconds. A read has no body, and its path names the
/// route; a write names the route or the claim, whole, and carries its number.
pub proof fn law_what_a_call_puts_on_the_wire(
    call: &KernelCall,
    authority: &str,
    request_id: u128,
    now: i64,
    request: OutboundRequest,
)
    requires
        now + 30 <= i64::MAX,
        call_ensures(KernelCall::to_request, (call, authority, request_id, now), request),
    ensures
        request.authority@ == authority@,
        request.content_type@ == "application/json"@,
        request.request_id == request_id,
        request.created_at == now,
        request.expires_at == now + 30,
        match call {
            KernelCall::EligibleRoutes => {
                &&& request.method@ == "GET"@
                &&& request.path@ == "/v1/routes/eligible"@
                &&& request.body@.len() == 0
            },
            KernelCall::ProposeClaim { route_id, lease_seconds } => {
                &&& request.method@ == "POST"@
                &&& request.path@ == "/v1/routes/"@ + route_id@ + "/claims"@
                &&& carries(request.body@, "{\"lease_seconds\":"@, *lease_seconds as int)
            },
            KernelCall::RoutedRequest { route_id } => {
                &&& request.method@ == "GET"@
                &&& request.path@ == "/v1/routes/"@ + route_id@ + "/request"@
                &&& request.body@.len() == 0
            },
            KernelCall::CompleteClaim { claim_id, fencing_token } => {
                &&& request.method@ == "POST"@
                &&& request.path@ == "/v1/claims/"@ + claim_id@ + "/complete"@
                &&& carries(request.body@, "{\"fencing_token\":"@, *fencing_token as int)
            },
        },
{
    reveal_strlit("lease_seconds");
    reveal_strlit("fencing_token");
    reveal_strlit("{\"lease_seconds\":");
    reveal_strlit("{\"fencing_token\":");
    assert(seq!['{', '"'] + "lease_seconds"@ + seq!['"', ':'] =~= "{\"lease_seconds\":"@);
    assert(seq!['{', '"'] + "fencing_token"@ + seq!['"', ':'] =~= "{\"fencing_token\":"@);
    match call {
        KernelCall::ProposeClaim { route_id, lease_seconds } => {
            lemma_integer_object_carries("lease_seconds"@, *lease_seconds as int);
        },
        KernelCall::CompleteClaim { claim_id, fencing_token } => {
            lemma_integer_object_carries("fencing_token"@, *fencing_token as int);
        },
        _ => {},
    }
}

/// A read and a write carry what they were given, as it is: authority, path, body and
/// ID. They are signed from now on for thirty seconds.
pub proof fn law_requests_carry_what_they_were_given(
    authority: &str,
    path: &str,
    body: Vec<u8>,
    request_id: u128,
    now: i64,
    read: OutboundRequest,
    write: OutboundRequest,
)
    requires
        now + 30 <= i64::MAX,
        call_ensures(build_get, (authority, path, request_id, now), read),
        call_ensures(build_post, (authority, path, body, request_id, now), write),
    ensures
        read.method@ == "GET"@ && write.method@ == "POST"@,
        read.authority@ == authority@ && write.authority@ == authority@,
        read.path@ == path@ && write.path@ == path@,
        read.content_type@ == "application/json"@ && write.content_type@ == "application/json"@,
        read.body@.len() == 0 && write.body@ == body@,
        read.request_id == request_id && write.request_id == request_id,
        read.created_at == now && write.created_at == now,
        read.expires_at == now + 30 && write.expires_at == now + 30,
{
    assert(read@.body.len() == 0);
    assert(write@.body == body@);
}

/// A renewal goes to the kernel that is asked, signed as every call is, and carries the
/// revision that is expected.
pub proof fn law_what_a_renewal_puts_on_the_wire(
    authority: &str,
    expected_revision: i64,
    request_id: u128,
    now: i64,
    request: OutboundRequest,
)
    requires
        now + 30 <= i64::MAX,
        call_ensures(renewal_request, (authority, expected_revision, request_id, now), request),
    ensures
        request.method@ == "POST"@,
        request.authority@ == authority@,
        request.path@ == "/v1/instances/renew"@,
        request.content_type@ == "application/json"@,
        request.request_id == request_id,
        request.created_at == now,
        request.expires_at == now + 30,
        carries(request.body@, "{\"expected_revision\":"@, expected_revision as int),
{
    reveal_strlit("expected_revision");
    reveal_strlit("{\"expected_revision\":");
    assert(seq!['{', '"'] + "expected_revision"@ + seq!['"', ':'] =~= "{\"expected_revision\":"@);
    lemma_integer_object_carries("expected_revision"@, expected_revision as int);
}

/// The answer to a call is read as an answer to that call is, and as no other.
pub proof fn law_a_reply_is_read_for_its_call(
    call: &KernelCall,
    status: u16,
    body: &[u8],
    reply: KernelReply,
    listing: Result<Vec<EligibleRoute>, WorkerError>,
    claiming: Result<ClaimOutcome, WorkerError>,
    reading: Result<RoutedRequestOutcome, WorkerError>,
    completing: Result<CompleteOutcome, WorkerError>,
)
    requires
        call_ensures(KernelCall::read_reply, (call, status, body), reply),
        call_ensures(routes::parse_eligible_routes, (status, body), listing),
        call_ensures(claims::parse_claim_response, (status, body), claiming),
        call_ensures(routed_request::parse_routed_request_response, (status, body), reading),
        call_ensures(claims::parse_complete_response, (status, body), completing),
    ensures
        match call {
            KernelCall::EligibleRoutes => reply matches KernelReply::EligibleRoutes(told)
                && routes::routes_result_view(told) == routes::routes_result_view(listing),
            KernelCall::ProposeClaim { .. } => reply matches KernelReply::ProposeClaim(told)
                && error::result_view(told) == error::result_view(claiming),
            KernelCall::RoutedRequest { .. } => reply matches KernelReply::RoutedRequest(told)
                && error::result_view(told) == error::result_view(reading),
            KernelCall::CompleteClaim { .. } => reply matches KernelReply::CompleteClaim(told)
                && error::result_view(told) == error::result_view(completing),
        },
{
}

/// A call that could not be made has its failure for a reply.
pub proof fn law_a_failed_call_tells_its_failure(
    call: &KernelCall,
    failure: WorkerError,
    reply: KernelReply,
)
    requires
        call_ensures(KernelCall::fail, (call, failure), reply),
    ensures
        match call {
            KernelCall::EligibleRoutes => reply matches KernelReply::EligibleRoutes(Err(told))
                && told@ == failure@,
            KernelCall::ProposeClaim { .. } => reply matches KernelReply::ProposeClaim(Err(told))
                && told@ == failure@,
            KernelCall::RoutedRequest { .. } => reply matches KernelReply::RoutedRequest(Err(told))
                && told@ == failure@,
            KernelCall::CompleteClaim { .. } => reply matches KernelReply::CompleteClaim(Err(told))
                && told@ == failure@,
        },
{
}

/// Making a call is calling the port's method for it, with what the call holds, whole,
/// and the reply is what that method gave.
pub proof fn law_a_call_is_made_as_it_says<P: KernelPort>(
    port: &P,
    call: &KernelCall,
    reply: KernelReply,
)
    requires
        call_ensures(perform::<P>, (port, call), reply),
    ensures
        match call {
            KernelCall::EligibleRoutes => exists|result: Result<Vec<EligibleRoute>, WorkerError>|
                {
                    &&& #[trigger] call_ensures(P::eligible_routes, (port,), result)
                    &&& reply@ == KernelReply::EligibleRoutes(result)@
                },
            KernelCall::ProposeClaim { route_id, lease_seconds } => exists|
                id: &str,
                result: Result<ClaimOutcome, WorkerError>,
            |
                {
                    &&& id@ == route_id@
                    &&& #[trigger] call_ensures(
                        P::propose_claim,
                        (port, id, *lease_seconds),
                        result,
                    )
                    &&& reply@ == KernelReply::ProposeClaim(result)@
                },
            KernelCall::RoutedRequest { route_id } => exists|
                id: &str,
                result: Result<RoutedRequestOutcome, WorkerError>,
            |
                {
                    &&& id@ == route_id@
                    &&& #[trigger] call_ensures(P::routed_request, (port, id), result)
                    &&& reply@ == KernelReply::RoutedRequest(result)@
                },
            KernelCall::CompleteClaim { claim_id, fencing_token } => exists|
                id: &str,
                result: Result<CompleteOutcome, WorkerError>,
            |
                {
                    &&& id@ == claim_id@
                    &&& #[trigger] call_ensures(
                        P::complete_claim,
                        (port, id, *fencing_token),
                        result,
                    )
                    &&& reply@ == KernelReply::CompleteClaim(result)@
                },
        },
{
}

}
