//! The records of the kernel's wire format, field for field.

use vstd::prelude::*;

verus! {

/// A record of the wire format.
#[derive(Clone, Copy, Debug)]
pub enum Shape {
    WorkClaim,
    EligibleRoute,
    EligibleRouteListResponse,
    RoutedRequest,
    RenewedLease,
}

/// What the value of a field is.
#[derive(Clone, Copy, Debug)]
pub enum Kind {
    /// A string.
    Text,
    /// A 64-bit signed integer.
    Number,
    /// A list of records.
    Records(Shape),
}

impl Kind {
    /// How deep records are nested in a value, counted so that a record is deeper
    /// than each of its fields, and a list deeper than its records.
    pub open spec fn depth(self) -> nat {
        match self {
            Kind::Records(element) => element.depth() + 1,
            _ => 0,
        }
    }
}

impl Shape {
    /// What the record is called where it is missed.
    pub open spec fn title(self) -> Seq<char> {
        match self {
            Shape::WorkClaim => "struct WorkClaim"@,
            Shape::EligibleRoute => "struct EligibleRoute"@,
            Shape::EligibleRouteListResponse => "struct EligibleRouteListResponse"@,
            Shape::RoutedRequest => "struct RoutedRequest"@,
            Shape::RenewedLease => "struct RenewedLease"@,
        }
    }

    /// The names of the fields, in the order of the record.
    pub open spec fn names(self) -> Seq<Seq<char>> {
        match self {
            Shape::WorkClaim => seq![
                "claim_id"@,
                "route_id"@,
                "worker_service_id"@,
                "worker_instance_id"@,
                "fencing_token"@,
                "status"@,
                "claimed_at"@,
                "lease_expires_at"@,
            ],
            Shape::EligibleRoute => seq![
                "route_id"@,
                "request_id"@,
                "subscription_id"@,
                "destination_service_id"@,
                "created_at"@,
            ],
            Shape::EligibleRouteListResponse => seq!["routes"@],
            Shape::RoutedRequest => seq![
                "request_id"@,
                "source_service_id"@,
                "action"@,
                "scope"@,
                "artifact_schema_version_id"@,
                "permission_policy_schema_version_id"@,
                "accepted_at"@,
            ],
            Shape::RenewedLease => seq!["lease_expires_at"@, "lease_revision"@],
        }
    }

    /// What the values of the fields are, in the order of the record.
    pub open spec fn kinds(self) -> Seq<Kind> {
        match self {
            Shape::WorkClaim => seq![
                Kind::Text,
                Kind::Text,
                Kind::Text,
                Kind::Text,
                Kind::Number,
                Kind::Text,
                Kind::Number,
                Kind::Number,
            ],
            Shape::EligibleRoute => seq![
                Kind::Text,
                Kind::Text,
                Kind::Text,
                Kind::Text,
                Kind::Number,
            ],
            Shape::EligibleRouteListResponse => seq![Kind::Records(Shape::EligibleRoute)],
            Shape::RoutedRequest => seq![
                Kind::Text,
                Kind::Text,
                Kind::Text,
                Kind::Text,
                Kind::Text,
                Kind::Text,
                Kind::Number,
            ],
            Shape::RenewedLease => seq![Kind::Number, Kind::Number],
        }
    }

    /// How deep records are nested in the record; see [`Kind::depth`].
    pub open spec fn depth(self) -> nat {
        match self {
            Shape::EligibleRouteListResponse => 3,
            _ => 1,
        }
    }

    /// Names the record as it is called where it is missed.
    pub fn write_title(self) -> (title: &'static str)
        ensures
            title@ == self.title(),
    {
        match self {
            Shape::WorkClaim => "struct WorkClaim",
            Shape::EligibleRoute => "struct EligibleRoute",
            Shape::EligibleRouteListResponse => "struct EligibleRouteListResponse",
            Shape::RoutedRequest => "struct RoutedRequest",
            Shape::RenewedLease => "struct RenewedLease",
        }
    }

    /// Lists the fields.
    pub fn list_fields(self) -> (fields: Vec<(&'static str, Kind)>)
        ensures
            fields@.len() == self.names().len(),
            fields@.len() == self.kinds().len(),
            forall|i: int|
                0 <= i < fields@.len() ==> (#[trigger] fields@[i]).0@ == self.names()[i]
                    && fields@[i].1 == self.kinds()[i],
    {
        match self {
            Shape::WorkClaim => vec![
                ("claim_id", Kind::Text),
                ("route_id", Kind::Text),
                ("worker_service_id", Kind::Text),
                ("worker_instance_id", Kind::Text),
                ("fencing_token", Kind::Number),
                ("status", Kind::Text),
                ("claimed_at", Kind::Number),
                ("lease_expires_at", Kind::Number),
            ],
            Shape::EligibleRoute => vec![
                ("route_id", Kind::Text),
                ("request_id", Kind::Text),
                ("subscription_id", Kind::Text),
                ("destination_service_id", Kind::Text),
                ("created_at", Kind::Number),
            ],
            Shape::EligibleRouteListResponse => vec![
                ("routes", Kind::Records(Shape::EligibleRoute)),
            ],
            Shape::RoutedRequest => vec![
                ("request_id", Kind::Text),
                ("source_service_id", Kind::Text),
                ("action", Kind::Text),
                ("scope", Kind::Text),
                ("artifact_schema_version_id", Kind::Text),
                ("permission_policy_schema_version_id", Kind::Text),
                ("accepted_at", Kind::Number),
            ],
            Shape::RenewedLease => vec![
                ("lease_expires_at", Kind::Number),
                ("lease_revision", Kind::Number),
            ],
        }
    }
}

/// A record has as many names as kinds, and is deeper than each of its fields.
pub proof fn lemma_shape(shape: Shape)
    ensures
        shape.names().len() == shape.kinds().len(),
        forall|i: int|
            0 <= i < shape.kinds().len() ==> (#[trigger] shape.kinds()[i]).depth() < shape.depth(),
{
}

/// No two fields of a record have the same name.
pub proof fn law_names_differ(shape: Shape)
    ensures
        forall|i: int, j: int|
            0 <= i < j < shape.names().len() ==> shape.names()[i] != shape.names()[j],
{
    match shape {
        Shape::WorkClaim => {
            reveal_strlit("claim_id");
            reveal_strlit("route_id");
            reveal_strlit("worker_service_id");
            reveal_strlit("worker_instance_id");
            reveal_strlit("fencing_token");
            reveal_strlit("status");
            reveal_strlit("claimed_at");
            reveal_strlit("lease_expires_at");
            assert("claim_id"@[0] != "route_id"@[0]);
        },
        Shape::EligibleRoute => {
            reveal_strlit("route_id");
            reveal_strlit("request_id");
            reveal_strlit("subscription_id");
            reveal_strlit("destination_service_id");
            reveal_strlit("created_at");
            assert("request_id"@[0] != "created_at"@[0]);
        },
        Shape::EligibleRouteListResponse => {},
        Shape::RoutedRequest => {
            reveal_strlit("request_id");
            reveal_strlit("source_service_id");
            reveal_strlit("action");
            reveal_strlit("scope");
            reveal_strlit("artifact_schema_version_id");
            reveal_strlit("permission_policy_schema_version_id");
            reveal_strlit("accepted_at");
        },
        Shape::RenewedLease => {
            reveal_strlit("lease_expires_at");
            reveal_strlit("lease_revision");
        },
    }
    let n = shape.names();
    assert forall|i: int, j: int| 0 <= i < j < n.len() implies n[i] != n[j] by {
        assert(n[i].len() != n[j].len() || n[i][0] != n[j][0]);
    }
}

/// The wire format: the fields of each record, with their names and kinds, in the order
/// in which they stand where the record is an array, and what the record is called.
pub proof fn law_the_wire_format(
    shape: Shape,
    fields: Vec<(&'static str, Kind)>,
    title: &'static str,
)
    requires
        call_ensures(Shape::list_fields, (shape,), fields),
        call_ensures(Shape::write_title, (shape,), title),
    ensures
        match shape {
            Shape::WorkClaim => {
                &&& fields@.len() == 8
                &&& fields@[0].0@ == "claim_id"@
                &&& fields@[0].1 == Kind::Text
                &&& fields@[1].0@ == "route_id"@
                &&& fields@[1].1 == Kind::Text
                &&& fields@[2].0@ == "worker_service_id"@
                &&& fields@[2].1 == Kind::Text
                &&& fields@[3].0@ == "worker_instance_id"@
                &&& fields@[3].1 == Kind::Text
                &&& fields@[4].0@ == "fencing_token"@
                &&& fields@[4].1 == Kind::Number
                &&& fields@[5].0@ == "status"@
                &&& fields@[5].1 == Kind::Text
                &&& fields@[6].0@ == "claimed_at"@
                &&& fields@[6].1 == Kind::Number
                &&& fields@[7].0@ == "lease_expires_at"@
                &&& fields@[7].1 == Kind::Number
                &&& title@ == "struct WorkClaim"@
            },
            Shape::EligibleRoute => {
                &&& fields@.len() == 5
                &&& fields@[0].0@ == "route_id"@
                &&& fields@[0].1 == Kind::Text
                &&& fields@[1].0@ == "request_id"@
                &&& fields@[1].1 == Kind::Text
                &&& fields@[2].0@ == "subscription_id"@
                &&& fields@[2].1 == Kind::Text
                &&& fields@[3].0@ == "destination_service_id"@
                &&& fields@[3].1 == Kind::Text
                &&& fields@[4].0@ == "created_at"@
                &&& fields@[4].1 == Kind::Number
                &&& title@ == "struct EligibleRoute"@
            },
            Shape::EligibleRouteListResponse => {
                &&& fields@.len() == 1
                &&& fields@[0].0@ == "routes"@
                &&& fields@[0].1 == Kind::Records(Shape::EligibleRoute)
                &&& title@ == "struct EligibleRouteListResponse"@
            },
            Shape::RoutedRequest => {
                &&& fields@.len() == 7
                &&& fields@[0].0@ == "request_id"@
                &&& fields@[0].1 == Kind::Text
                &&& fields@[1].0@ == "source_service_id"@
                &&& fields@[1].1 == Kind::Text
                &&& fields@[2].0@ == "action"@
                &&& fields@[2].1 == Kind::Text
                &&& fields@[3].0@ == "scope"@
                &&& fields@[3].1 == Kind::Text
                &&& fields@[4].0@ == "artifact_schema_version_id"@
                &&& fields@[4].1 == Kind::Text
                &&& fields@[5].0@ == "permission_policy_schema_version_id"@
                &&& fields@[5].1 == Kind::Text
                &&& fields@[6].0@ == "accepted_at"@
                &&& fields@[6].1 == Kind::Number
                &&& title@ == "struct RoutedRequest"@
            },
            Shape::RenewedLease => {
                &&& fields@.len() == 2
                &&& fields@[0].0@ == "lease_expires_at"@
                &&& fields@[0].1 == Kind::Number
                &&& fields@[1].0@ == "lease_revision"@
                &&& fields@[1].1 == Kind::Number
                &&& title@ == "struct RenewedLease"@
            },
        },
{
    let n = fields@.len() as int;
    assert forall|i: int| 0 <= i < n implies (#[trigger] fields@[i]).0@ == shape.names()[i]
        && fields@[i].1 == shape.kinds()[i] by {}
}

}
