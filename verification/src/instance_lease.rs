//! The lease of this process's own registration with the kernel, and its renewal.
//! A lease is short and cannot be extended once it has expired, so it is renewed
//! well before.

use crate::error;
use crate::error::{WorkerError, WorkerErrorView};
use crate::json;
use crate::json::Value;
use crate::text;
use crate::wire::Shape;
use vstd::prelude::*;

verus! {

/// Where the kernel renews the lease of an instance.
pub const RENEW_INSTANCE_PATH: &'static str = "/v1/instances/renew";

/// How many seconds before the expiry of a lease its renewal is due: room for
/// several attempts.
pub const RENEWAL_MARGIN_SECONDS: i64 = 20;

/// The body of a renewal in JSON.
pub fn renewal_request_body(expected_revision: i64) -> (body: Vec<u8>)
    ensures
        body@ == vstd::utf8::encode_utf8(
            json::integer_object("expected_revision"@, expected_revision as int),
        ),
{
    json::write_integer_object("expected_revision", expected_revision)
}

/// The lease that a renewal granted.
#[derive(Clone, Debug, Eq, PartialEq)]
pub struct RenewedLease {
    pub lease_expires_at: i64,
    pub lease_revision: i64,
}

impl View for RenewedLease {
    type V = RenewedLease;

    open spec fn view(&self) -> RenewedLease {
        *self
    }
}

/// The renewed lease that a JSON text holds, or the first thing that is wrong with the text.
pub open spec fn renewed_lease_of(json: Seq<u8>) -> Result<RenewedLease, Seq<char>> {
    match json::record_in(json, Shape::RenewedLease) {
        Err(message) => Err(message),
        Ok(fields) => Ok(
            RenewedLease {
                lease_expires_at: json::number_in(fields, 0),
                lease_revision: json::number_in(fields, 1),
            },
        ),
    }
}

/// Reads a renewed lease out of its JSON text.
pub fn decode_renewed_lease(json: &[u8]) -> (decoded: Result<RenewedLease, String>)
    ensures
        json::decoded_view(decoded) == renewed_lease_of(json@),
{
    let fields: Vec<Option<Value>> = json::read_record(json, Shape::RenewedLease)?;
    proof {
        json::law_a_record_has_all_its_fields(json@, 0, Shape::RenewedLease);
    }
    Ok(
        RenewedLease {
            lease_expires_at: json::number_of(&fields, 0),
            lease_revision: json::number_of(&fields, 1),
        },
    )
}

/// The renewed lease, from the status of the answer and the lease in its body,
/// which matters with status 200 only.
pub open spec fn renewal_answer(status: u16, decoded: Result<RenewedLease, Seq<char>>) -> Result<
    RenewedLease,
    WorkerErrorView,
> {
    if status != 200 {
        Err(WorkerErrorView::UnexpectedStatus(status))
    } else {
        match decoded {
            Ok(lease) => Ok(lease),
            Err(message) => Err(WorkerErrorView::MalformedResponse(message)),
        }
    }
}

/// Classifies the answer to a renewal whose body has been decoded.
pub fn classify_renewal(status: u16, decoded: Result<RenewedLease, String>) -> (renewed: Result<
    RenewedLease,
    WorkerError,
>)
    ensures
        error::result_view(renewed) == renewal_answer(status, json::decoded_view(decoded)),
{
    if status != 200 {
        return Err(WorkerError::UnexpectedStatus(status));
    }
    match decoded {
        Ok(lease) => Ok(lease),
        Err(message) => Err(WorkerError::MalformedResponse(message)),
    }
}

/// Reads the answer to a renewal.
pub fn parse_renewal_response(status: u16, body: &[u8]) -> (renewed: Result<
    RenewedLease,
    WorkerError,
>)
    ensures
        error::result_view(renewed) == renewal_answer(status, renewed_lease_of(body@)),
{
    classify_renewal(status, decode_renewed_lease(body))
}

/// This process's own registration lease, known from the last answer to an
/// enrollment or a renewal.
#[derive(Clone, Copy, Debug)]
pub struct InstanceLease {
    pub revision: i64,
    pub expires_at: i64,
}

impl InstanceLease {
    /// Whether the lease is to be renewed at the time `now`.
    pub open spec fn is_due(self, now: int) -> bool {
        now >= self.expires_at - RENEWAL_MARGIN_SECONDS
    }

    /// The lease after an attempt to renew it.
    pub open spec fn after_renewal(self, renewed: Result<RenewedLease, WorkerErrorView>) -> Self {
        match renewed {
            Ok(lease) => InstanceLease {
                revision: lease.lease_revision,
                expires_at: lease.lease_expires_at,
            },
            Err(_) => self,
        }
    }

    /// Tells whether the lease is to be renewed now.
    pub fn renewal_due(&self, now: i64) -> (due: bool)
        requires
            self.expires_at - RENEWAL_MARGIN_SECONDS >= i64::MIN,
        ensures
            due == self.is_due(now as int),
    {
        !(now < self.expires_at - RENEWAL_MARGIN_SECONDS)
    }

    /// Takes over the answer to a renewal. A failed renewal changes nothing.
    pub fn take_renewal(&mut self, renewed: &Result<RenewedLease, WorkerError>)
        ensures
            *final(self) == old(self).after_renewal(error::result_view(*renewed)),
    {
        match renewed {
            Ok(lease) => {
                self.revision = lease.lease_revision;
                self.expires_at = lease.lease_expires_at;
            },
            Err(_) => {},
        }
    }
}

/// The revision to renew with at the time `now`: none where this process holds no
/// lease of its own, or where the lease is not due.
pub open spec fn revision_due(lease: Option<InstanceLease>, now: int) -> Option<i64> {
    match lease {
        Some(lease) if lease.is_due(now) => Some(lease.revision),
        _ => None,
    }
}

/// Decides whether to renew now, and with which revision.
pub fn renewal_to_make(lease: &Option<InstanceLease>, now: i64) -> (revision: Option<i64>)
    requires
        lease matches Some(lease) ==> lease.expires_at - RENEWAL_MARGIN_SECONDS >= i64::MIN,
    ensures
        revision == revision_due(*lease, now as int),
{
    match lease {
        Some(lease) => if lease.renewal_due(now) {
            Some(lease.revision)
        } else {
            None
        },
        None => None,
    }
}

/// A lease that is not due for renewal is good for longer than the margin.
pub proof fn law_a_lease_not_due_outlasts_the_margin(lease: InstanceLease, now: int)
    requires
        !lease.is_due(now),
    ensures
        lease.expires_at - now > RENEWAL_MARGIN_SECONDS,
        revision_due(Some(lease), now) is None,
{
}

/// A lease falls due before it expires: at any time in the margin its renewal is
/// made, with the revision that the kernel gave last.
pub proof fn law_renewal_is_due_before_expiry(lease: InstanceLease, now: int)
    requires
        lease.expires_at - RENEWAL_MARGIN_SECONDS <= now < lease.expires_at,
    ensures
        revision_due(Some(lease), now) == Some(lease.revision),
{
}

/// Once due, a lease stays due at all later times, for as long as every attempt
/// to renew it fails, and each attempt is made with the same revision.
pub proof fn law_a_failed_renewal_is_retried(
    lease: InstanceLease,
    failure: WorkerErrorView,
    now: int,
    later: int,
)
    requires
        lease.is_due(now),
        now <= later,
    ensures
        revision_due(Some(lease.after_renewal(Err(failure))), later) == revision_due(
            Some(lease),
            now,
        ),
{
}

/// After a renewal the next one is made with the revision that it granted, and
/// not before the margin of the expiry that it granted.
pub proof fn law_a_renewal_sets_revision_and_expiry(
    lease: InstanceLease,
    renewed: RenewedLease,
    now: int,
)
    ensures
        revision_due(Some(lease.after_renewal(Ok(renewed))), now) == (if now
            >= renewed.lease_expires_at - RENEWAL_MARGIN_SECONDS {
            Some(renewed.lease_revision)
        } else {
            None
        }),
{
}

/// A process without a lease of its own never renews.
pub proof fn law_no_lease_no_renewal(now: int)
    ensures
        revision_due(None, now) is None,
{
}

/// The fields of a renewed lease are the values that were read.
proof fn lemma_renewed_lease_lists_its_fields(json: Seq<u8>)
    ensures
        json::record_in(json, Shape::RenewedLease) matches Ok(fields) ==> {
            let it = renewed_lease_of(json)->Ok_0;
            &&& fields.len() == 2
            &&& fields[0] == Some(json::ValueView::Number(it.lease_expires_at))
            &&& fields[1] == Some(json::ValueView::Number(it.lease_revision))
        },
{
    json::law_a_record_has_all_its_fields(json, 0, Shape::RenewedLease);
    if let Ok(fields) = json::record_in(json, Shape::RenewedLease) {
        assert(fields[0] is Some);
        assert(fields[1] is Some);
    }
}

/// A text is read as one if and only if it is a record of one.
proof fn lemma_renewed_lease_holds(json: Seq<u8>)
    ensures
        renewed_lease_of(json) matches Ok(it) ==> json::body_holds(
            json,
            Shape::RenewedLease,
            seq![
                json::ValueView::Number(it.lease_expires_at),
                json::ValueView::Number(it.lease_revision),
            ],
        ),
        renewed_lease_of(json) is Err ==> forall|values: Seq<json::ValueView>|
            !(#[trigger] json::body_holds(json, Shape::RenewedLease, values)),
{
    let values = json::law_a_body_that_is_read_holds_values(json, Shape::RenewedLease);
    if let Ok(it) = renewed_lease_of(json) {
        let listed = seq![
            json::ValueView::Number(it.lease_expires_at),
            json::ValueView::Number(it.lease_revision),
        ];
        assert(listed =~= values) by {
            lemma_renewed_lease_lists_its_fields(json);
        }
    } else {
        assert forall|values: Seq<json::ValueView>| !(#[trigger] json::body_holds(
            json,
            Shape::RenewedLease,
            values,
        )) by {
            json::law_a_body_is_read_as_it_stands(json, Shape::RenewedLease, values);
        }
    }
}

/// A record that is an object has a member of each field's name.
proof fn lemma_renewed_lease_members(json: Seq<u8>, it: RenewedLease)
    requires
        json::record_holds(
            json,
            0,
            Shape::RenewedLease,
            seq![
                json::ValueView::Number(it.lease_expires_at),
                json::ValueView::Number(it.lease_revision),
            ],
        ),
        json[json::space_end(json, 0)] == 0x7b,
    ensures
        json::number_member(json, "lease_expires_at"@, it.lease_expires_at),
        json::number_member(json, "lease_revision"@, it.lease_revision),
{
    let listed = seq![
        json::ValueView::Number(it.lease_expires_at),
        json::ValueView::Number(it.lease_revision),
    ];
    json::law_each_value_has_its_member(json, 0, Shape::RenewedLease, listed);
    assert(listed[0] == json::ValueView::Number(it.lease_expires_at));
    assert(listed[1] == json::ValueView::Number(it.lease_revision));
}

/// A renewed lease is decoded if and only if the text is a record of one, and each of
/// its fields is then what stands in the text for it, whole: by the field's name where
/// the record is an object, and by its position where it is an array.
pub proof fn law_renewed_lease_is_decoded_whole(json: &[u8], decoded: Result<RenewedLease, String>)
    requires
        call_ensures(decode_renewed_lease, (json,), decoded),
    ensures
        decoded matches Ok(it) ==> json::body_holds(
            json@,
            Shape::RenewedLease,
            seq![
                json::ValueView::Number(it.lease_expires_at),
                json::ValueView::Number(it.lease_revision),
            ],
        ),
        decoded is Err ==> forall|values: Seq<json::ValueView>|
            !(#[trigger] json::body_holds(json@, Shape::RenewedLease, values)),
        decoded matches Ok(it) ==> json@[json::space_end(json@, 0)] == 0x7b ==> {
            &&& json::number_member(json@, "lease_expires_at"@, it.lease_expires_at)
            &&& json::number_member(json@, "lease_revision"@, it.lease_revision)
        },
{
    lemma_renewed_lease_holds(json@);
    if let Ok(it) = decoded {
        assert(renewed_lease_of(json@) == Ok::<_, Seq<char>>(it));
        if json@[json::space_end(json@, 0)] == 0x7b {
            lemma_renewed_lease_members(json@, it);
        }
    }
}

/// What a renewal came to is told by the status alone, whatever the body holds, but
/// with status 200, where it is the lease in the body or what is wrong with it.
pub proof fn law_a_renewal_is_told_by_its_status(
    status: u16,
    body: &[u8],
    renewed: Result<RenewedLease, WorkerError>,
    decoded: Result<RenewedLease, String>,
)
    requires
        call_ensures(parse_renewal_response, (status, body), renewed),
        call_ensures(decode_renewed_lease, (body,), decoded),
    ensures
        status != 200 ==> (renewed matches Err(WorkerError::UnexpectedStatus(told)) && told
            == status),
        status == 200 ==> match decoded {
            Ok(lease) => renewed matches Ok(told) && told == lease,
            Err(message) => renewed matches Err(WorkerError::MalformedResponse(told)) && told@
                == message@,
        },
{
}

/// The body of a renewal carries the expected revision under its name, as a number that
/// reads back as it.
pub proof fn law_a_renewal_body_carries_the_revision(expected_revision: i64, body: Vec<u8>)
    requires
        call_ensures(renewal_request_body, (expected_revision,), body),
    ensures
        exists|number: Seq<char>|
            {
                &&& text::signed_number(number) == Some(expected_revision as int)
                &&& vstd::utf8::decode_utf8(body@) == "{\"expected_revision\":"@ + #[trigger] (
                number + seq!['}'])
            },
{
    reveal_strlit("{\"");
    reveal_strlit("\":");
    reveal_strlit("}");
    reveal_strlit("expected_revision");
    reveal_strlit("{\"expected_revision\":");
    let revision = text::decimal(expected_revision as int);
    text::law_decimal_reads_back(expected_revision as int);
    let object = json::integer_object("expected_revision"@, expected_revision as int);
    vstd::utf8::encode_utf8_decode_utf8(object);
    assert(object =~= "{\"expected_revision\":"@ + (revision + seq!['}']));
}

/// A lease is due from twenty seconds before its expiry on, and never before; and the
/// renewal is made with the revision of the lease.
pub proof fn law_due_means_within_the_margin(
    lease: InstanceLease,
    now: i64,
    due: bool,
    revision: Option<i64>,
)
    requires
        lease.expires_at - 20 >= i64::MIN,
        call_ensures(InstanceLease::renewal_due, (&lease, now), due),
        call_ensures(renewal_to_make, (&Some(lease), now), revision),
    ensures
        due <==> lease.expires_at - now <= 20,
        revision == (if lease.expires_at - now <= 20 {
            Some(lease.revision)
        } else {
            None
        }),
{
}

/// After a renewal the lease is the one that was granted, and after a renewal that failed
/// it is what it was.
pub proof fn law_a_lease_is_what_was_granted_last(
    lease: InstanceLease,
    granted: RenewedLease,
    failure: WorkerErrorView,
)
    ensures
        lease.after_renewal(Ok(granted)).revision == granted.lease_revision,
        lease.after_renewal(Ok(granted)).expires_at == granted.lease_expires_at,
        lease.after_renewal(Err(failure)) == lease,
{
}

/// What is wrong with the text of a renewed lease is what is wrong with it as a record of one.
pub proof fn law_a_refused_renewed_lease_tells_what_is_wrong(
    json: &[u8],
    decoded: Result<RenewedLease, String>,
    read: Result<Vec<Option<Value>>, String>,
)
    requires
        call_ensures(decode_renewed_lease, (json,), decoded),
        call_ensures(json::read_record, (json, Shape::RenewedLease), read),
    ensures
        decoded is Ok <==> read is Ok,
        decoded matches Err(told) ==> (read matches Err(said) && told@ == said@),
{
}

/// Taking over a renewal sets the revision and the expiry that it granted; taking over
/// one that failed changes nothing.
pub proof fn law_a_renewal_is_taken_over_whole(
    lease: &mut InstanceLease,
    renewed: &Result<RenewedLease, WorkerError>,
)
    requires
        call_ensures(InstanceLease::take_renewal, (lease, renewed), ()),
    ensures
        match renewed {
            Ok(granted) => {
                &&& final(lease).revision == granted.lease_revision
                &&& final(lease).expires_at == granted.lease_expires_at
            },
            Err(_) => *final(lease) == *old(lease),
        },
{
}

}
