//! The listing of the routes that this service may claim. Route IDs stay the
//! plain strings that they are in the kernel's JSON.

use crate::error::{WorkerError, WorkerErrorView};
use crate::json;
use crate::json::{Value, ValueView};
use crate::wire::Shape;
use vstd::prelude::*;

verus! {

/// Where the kernel lists the eligible routes.
pub const ELIGIBLE_ROUTES_PATH: &'static str = "/v1/routes/eligible";

/// A route that this service may claim now.
#[derive(Clone, Debug, Eq, PartialEq)]
pub struct EligibleRoute {
    pub route_id: String,
    pub request_id: String,
    pub subscription_id: String,
    pub destination_service_id: String,
    pub created_at: i64,
}

/// An [`EligibleRoute`] with its texts as character sequences.
pub struct EligibleRouteView {
    pub route_id: Seq<char>,
    pub request_id: Seq<char>,
    pub subscription_id: Seq<char>,
    pub destination_service_id: Seq<char>,
    pub created_at: i64,
}

impl View for EligibleRoute {
    type V = EligibleRouteView;

    open spec fn view(&self) -> EligibleRouteView {
        EligibleRouteView {
            route_id: self.route_id@,
            request_id: self.request_id@,
            subscription_id: self.subscription_id@,
            destination_service_id: self.destination_service_id@,
            created_at: self.created_at,
        }
    }
}

/// The route whose fields were read.
pub open spec fn eligible_route_in(fields: Seq<Option<ValueView>>) -> EligibleRouteView {
    EligibleRouteView {
        route_id: json::text_in(fields, 0),
        request_id: json::text_in(fields, 1),
        subscription_id: json::text_in(fields, 2),
        destination_service_id: json::text_in(fields, 3),
        created_at: json::number_in(fields, 4),
    }
}

/// The route that a JSON text holds at `at`, or the first thing that is wrong there.
#[verifier::opaque]
pub open spec fn eligible_route_at(json: Seq<u8>, at: int) -> Result<
    EligibleRouteView,
    Seq<char>,
> {
    match json::record_at(json, at, Shape::EligibleRoute) {
        Ok((fields, _)) => Ok(eligible_route_in(fields)),
        Err(message) => Err(message),
    }
}

/// Reads the route that a JSON text holds at `at`.
fn decode_eligible_route_at(json: &[u8], at: usize) -> (decoded: Result<EligibleRoute, String>)
    requires
        at <= json@.len(),
    ensures
        json::decoded_view(decoded) == eligible_route_at(json@, at as int),
{
    proof {
        reveal(eligible_route_at);
    }
    let (fields, _): (Vec<Option<Value>>, usize) = json::read_record_at(
        json,
        at,
        Shape::EligibleRoute,
    )?;
    proof {
        json::law_a_record_has_all_its_fields(json@, at as int, Shape::EligibleRoute);
    }
    Ok(
        EligibleRoute {
            route_id: json::text_of(&fields, 0),
            request_id: json::text_of(&fields, 1),
            subscription_id: json::text_of(&fields, 2),
            destination_service_id: json::text_of(&fields, 3),
            created_at: json::number_of(&fields, 4),
        },
    )
}

/// A list of routes by their views.
pub open spec fn routes_view(routes: Seq<EligibleRoute>) -> Seq<EligibleRouteView> {
    routes.map_values(|route: EligibleRoute| route@)
}

/// Where the routes of a listing start, in the order of the listing; or the first
/// thing that is wrong with it.
pub open spec fn listed_places(json: Seq<u8>) -> Result<Seq<int>, Seq<char>> {
    match json::record_in(json, Shape::EligibleRouteListResponse) {
        Ok(fields) => Ok(fields[0]->Some_0->Places_0),
        Err(message) => Err(message),
    }
}

/// The routes that a listing in JSON holds, in the order of the listing; or the first
/// thing that is wrong with it.
pub open spec fn eligible_routes_of(json: Seq<u8>) -> Result<Seq<EligibleRouteView>, Seq<char>> {
    match listed_places(json) {
        Ok(places) => Ok(
            Seq::new(places.len(), |i: int| eligible_route_at(json, places[i])->Ok_0),
        ),
        Err(message) => Err(message),
    }
}

/// Routes that were decoded, or the message that says what is wrong.
pub open spec fn decoded_routes_view(decoded: Result<Vec<EligibleRoute>, String>) -> Result<
    Seq<EligibleRouteView>,
    Seq<char>,
> {
    match decoded {
        Ok(routes) => Ok(routes_view(routes@)),
        Err(message) => Err(message@),
    }
}

/// The places of a listing are those of routes, one after the other.
proof fn lemma_listed_places(json: Seq<u8>)
    ensures
        json::record_in(json, Shape::EligibleRouteListResponse) matches Ok(fields) ==> {
            &&& fields.len() == 1
            &&& fields[0] matches Some(ValueView::Places(places))
            &&& json::are_records(json, Shape::EligibleRoute, places)
        },
{
    json::law_a_record_has_all_its_fields(json, 0, Shape::EligibleRouteListResponse);
    if let Ok(fields) = json::record_in(json, Shape::EligibleRouteListResponse) {
        assert(fields[0] is Some);
    }
}

/// The routes that a JSON text holds at `places`.
spec fn routes_at(json: Seq<u8>, places: Seq<int>) -> Seq<EligibleRouteView> {
    Seq::new(places.len(), |i: int| eligible_route_at(json, places[i])->Ok_0)
}

/// Reads the routes that a JSON text holds at `places`.
fn decode_routes_at(json: &[u8], places: &Vec<usize>) -> (routes: Vec<EligibleRoute>)
    requires
        forall|i: int|
            0 <= i < places@.len() ==> #[trigger] places@[i] <= json@.len() && eligible_route_at(
                json@,
                places@[i] as int,
            ) is Ok,
    ensures
        routes_view(routes@) == routes_at(json@, json::places_view(places@)),
{
    let ghost expected = routes_at(json@, json::places_view(places@));
    let mut routes: Vec<EligibleRoute> = Vec::new();
    let mut i: usize = 0;
    while i < places.len()
        invariant
            i <= places@.len(),
            forall|i: int|
                0 <= i < places@.len() ==> #[trigger] places@[i] <= json@.len()
                    && eligible_route_at(json@, places@[i] as int) is Ok,
            expected == routes_at(json@, json::places_view(places@)),
            routes_view(routes@) =~= expected.take(i as int),
        decreases places.len() - i,
    {
        if let Ok(route) = decode_eligible_route_at(json, places[i]) {
            let ghost before = routes@;
            routes.push(route);
            assert(routes_view(routes@) =~= routes_view(before).push(route@));
        }
        i += 1;
    }
    assert(expected.take(i as int) =~= expected);
    routes
}

/// Reads a listing of eligible routes out of its JSON text.
pub fn decode_eligible_routes(json: &[u8]) -> (decoded: Result<Vec<EligibleRoute>, String>)
    ensures
        decoded_routes_view(decoded) == eligible_routes_of(json@),
{
    let fields: Vec<Option<Value>> = json::read_record(json, Shape::EligibleRouteListResponse)?;
    proof {
        lemma_listed_places(json@);
        assert(json::fields_view(fields@)[0] is Some);
    }
    match &fields[0] {
        Some(Value::Places(places)) => {
            let ghost all = json::places_view(places@);
            assert forall|i: int| 0 <= i < places@.len() implies #[trigger] places@[i]
                <= json@.len() && eligible_route_at(json@, places@[i] as int) is Ok by {
                reveal(eligible_route_at);
                assert(all[i] == places@[i]);
            }
            Ok(decode_routes_at(json, places))
        },
        _ => Ok(Vec::new()),
    }
}

/// The eligible routes, from the status of the answer and the listing in its
/// body, which matters with status 200 only.
pub open spec fn eligible_routes_answer(
    status: u16,
    decoded: Result<Seq<EligibleRouteView>, Seq<char>>,
) -> Result<Seq<EligibleRouteView>, WorkerErrorView> {
    if status != 200 {
        Err(WorkerErrorView::UnexpectedStatus(status))
    } else {
        match decoded {
            Ok(routes) => Ok(routes),
            Err(message) => Err(WorkerErrorView::MalformedResponse(message)),
        }
    }
}

/// A list of routes, or the error in its place, by their views.
pub open spec fn routes_result_view(result: Result<Vec<EligibleRoute>, WorkerError>) -> Result<
    Seq<EligibleRouteView>,
    WorkerErrorView,
> {
    match result {
        Ok(routes) => Ok(routes_view(routes@)),
        Err(error) => Err(error@),
    }
}

/// Classifies the answer to a listing whose body has been decoded.
pub fn classify_eligible_routes(
    status: u16,
    decoded: Result<Vec<EligibleRoute>, String>,
) -> (routes: Result<Vec<EligibleRoute>, WorkerError>)
    ensures
        routes_result_view(routes) == eligible_routes_answer(status, decoded_routes_view(decoded)),
{
    if status != 200 {
        return Err(WorkerError::UnexpectedStatus(status));
    }
    match decoded {
        Ok(routes) => Ok(routes),
        Err(message) => Err(WorkerError::MalformedResponse(message)),
    }
}

/// Reads the answer to a listing of eligible routes. The kernel lists the oldest
/// route first, and the order is kept.
pub fn parse_eligible_routes(status: u16, body: &[u8]) -> (routes: Result<
    Vec<EligibleRoute>,
    WorkerError,
>)
    ensures
        routes_result_view(routes) == eligible_routes_answer(status, eligible_routes_of(body@)),
{
    classify_eligible_routes(status, decode_eligible_routes(body))
}

/// A listing is taken as it is: with status 200 there is one route for each record of
/// the list, with that record's fields, in the order in which the records stand in the
/// body, and nothing is sorted, dropped or merged. With another status no body counts.
pub proof fn law_the_listing_is_kept(status: u16, body: Seq<u8>, places: Seq<int>)
    requires
        listed_places(body) == Ok::<_, Seq<char>>(places),
    ensures
        status != 200 ==> eligible_routes_answer(status, eligible_routes_of(body)) == Err::<
            Seq<EligibleRouteView>,
            _,
        >(WorkerErrorView::UnexpectedStatus(status)),
        status == 200 ==> (eligible_routes_answer(status, eligible_routes_of(body)) matches Ok(
            routes,
        ) && {
            &&& routes.len() == places.len()
            &&& forall|i: int|
                0 <= i < places.len() ==> eligible_route_at(body, #[trigger] places[i]) == Ok::<
                    _,
                    Seq<char>,
                >(routes[i])
        }),
        forall|i: int, j: int| 0 <= i < j < places.len() ==> places[i] < places[j],
{
    reveal(eligible_route_at);
    lemma_listed_places(body);
}

/// Whether a text has, from `at` on, a record of the route.
pub open spec fn route_stands(json: Seq<u8>, at: int, route: EligibleRouteView) -> bool {
    json::record_holds(
        json,
        at,
        Shape::EligibleRoute,
        seq![
            json::ValueView::Text(route.route_id),
            json::ValueView::Text(route.request_id),
            json::ValueView::Text(route.subscription_id),
            json::ValueView::Text(route.destination_service_id),
            json::ValueView::Number(route.created_at),
        ],
    )
}

/// A route that is read stands in the text, whole.
proof fn lemma_route_stands(json: Seq<u8>, at: int)
    requires
        0 <= at <= json.len(),
    ensures
        eligible_route_at(json, at) matches Ok(route) ==> {
            &&& route_stands(json, at, route)
            &&& json[json::space_end(json, at)] == 0x7b ==> {
                &&& json::text_member(json, "route_id"@, route.route_id)
                &&& json::text_member(json, "request_id"@, route.request_id)
                &&& json::text_member(json, "subscription_id"@, route.subscription_id)
                &&& json::text_member(json, "destination_service_id"@, route.destination_service_id)
                &&& json::number_member(json, "created_at"@, route.created_at)
            }
        },
{
    reveal(eligible_route_at);
    json::law_a_record_has_all_its_fields(json, at, Shape::EligibleRoute);
    if let Ok((fields, end)) = json::record_at(json, at, Shape::EligibleRoute) {
        let route = eligible_route_in(fields);
        let values = seq![
            json::ValueView::Text(route.route_id),
            json::ValueView::Text(route.request_id),
            json::ValueView::Text(route.subscription_id),
            json::ValueView::Text(route.destination_service_id),
            json::ValueView::Number(route.created_at),
        ];
        assert forall|i: int| 0 <= i < values.len() implies fields[i] == Some(
            #[trigger] values[i],
        ) by {
            assert(fields[i] is Some);
        }
        assert(Seq::new(values.len(), |i: int| Some(values[i])) =~= fields);
        json::law_a_record_is_read_as_it_stands(json, at, Shape::EligibleRoute, values, end);
        reveal(json::record_holds);
        if json[json::space_end(json, at)] == 0x7b {
            json::law_each_value_has_its_member(json, at, Shape::EligibleRoute, values);
            assert(values[0] == json::ValueView::Text(route.route_id));
            assert(values[1] == json::ValueView::Text(route.request_id));
            assert(values[2] == json::ValueView::Text(route.subscription_id));
            assert(values[3] == json::ValueView::Text(route.destination_service_id));
            assert(values[4] == json::ValueView::Number(route.created_at));
        }
    }
}

/// Whether a whole text is a record with a list of records, which start at `places`.
pub open spec fn lists_places(json: Seq<u8>, places: Seq<int>) -> bool {
    json::body_holds(
        json,
        Shape::EligibleRouteListResponse,
        seq![json::ValueView::Places(places)],
    )
}

/// With any status other than 200 a listing is refused with that status, whatever the
/// body is: a refusal is never taken for an empty listing.
pub proof fn law_a_refused_listing_is_no_listing(
    status: u16,
    body: &[u8],
    routes: Result<Vec<EligibleRoute>, WorkerError>,
)
    requires
        call_ensures(parse_eligible_routes, (status, body), routes),
        status != 200,
    ensures
        routes matches Err(WorkerError::UnexpectedStatus(told)) && told == status,
{
}

/// The routes that are read from a listing are those that stand in it.
proof fn lemma_listing_stands(json: Seq<u8>)
    ensures
        listed_places(json) matches Ok(places) ==> {
            &&& lists_places(json, places)
            &&& forall|i: int, j: int| 0 <= i < j < places.len() ==> places[i] < places[j]
            &&& forall|i: int|
                0 <= i < places.len() ==> 0 <= #[trigger] places[i] < json.len() && route_stands(
                    json,
                    places[i],
                    eligible_routes_of(json)->Ok_0[i],
                )
        },
{
    let shape = Shape::EligibleRouteListResponse;
    lemma_listed_places(json);
    let values = json::law_a_body_that_is_read_holds_values(json, shape);
    if let Ok(places) = listed_places(json) {
        assert(json::record_in(json, shape)->Ok_0[0] == Some(values[0]));
        assert(values =~= seq![json::ValueView::Places(places)]);
        assert forall|i: int| 0 <= i < places.len() implies 0 <= #[trigger] places[i] < json.len()
            && route_stands(json, places[i], eligible_routes_of(json)->Ok_0[i]) by {
            assert(json::are_records(json, Shape::EligibleRoute, places));
            lemma_listed_route_stands(json, places[i]);
        }
    }
}

/// A record of a list is read as the route that stands there.
proof fn lemma_listed_route_stands(json: Seq<u8>, at: int)
    requires
        0 <= at < json.len(),
        json::record_at(json, at, Shape::EligibleRoute) is Ok,
    ensures
        route_stands(json, at, eligible_route_at(json, at)->Ok_0),
{
    reveal(eligible_route_at);
    lemma_route_stands(json, at);
}

/// A text that is not read as a listing is none.
proof fn lemma_no_listing_stands(json: Seq<u8>)
    requires
        listed_places(json) is Err,
    ensures
        forall|values: Seq<json::ValueView>|
            !(#[trigger] json::body_holds(json, Shape::EligibleRouteListResponse, values)),
{
    assert forall|values: Seq<json::ValueView>| !(#[trigger] json::body_holds(
        json,
        Shape::EligibleRouteListResponse,
        values,
    )) by {
        json::law_a_body_is_read_as_it_stands(json, Shape::EligibleRouteListResponse, values);
    }
}

/// With status 200 the routes are those of the list in the body, if and only if the
/// body is a record with such a list: as many, in the order in which they stand there,
/// and each with the texts and the number that stand there for it, whole. Any other
/// body is malformed.
pub proof fn law_a_listing_is_what_the_body_holds(
    body: &[u8],
    routes: Result<Vec<EligibleRoute>, WorkerError>,
)
    requires
        call_ensures(parse_eligible_routes, (200u16, body), routes),
    ensures
        routes matches Ok(list) ==> exists|places: Seq<int>|
            {
                &&& #[trigger] lists_places(body@, places)
                &&& list@.len() == places.len()
                &&& forall|i: int, j: int| 0 <= i < j < places.len() ==> places[i] < places[j]
                &&& forall|i: int|
                    0 <= i < places.len() ==> 0 <= #[trigger] places[i] < body@.len()
                        && route_stands(body@, places[i], list@[i]@)
            },
        routes matches Err(error) ==> {
            &&& error is MalformedResponse
            &&& forall|values: Seq<json::ValueView>|
                !(#[trigger] json::body_holds(
                    body@,
                    Shape::EligibleRouteListResponse,
                    values,
                ))
        },
{
    lemma_listing_stands(body@);
    if let Ok(list) = routes {
        let places = listed_places(body@)->Ok_0;
        assert(routes_result_view(routes) == eligible_routes_answer(
            200,
            eligible_routes_of(body@),
        ));
        assert(routes_view(list@) == eligible_routes_of(body@)->Ok_0);
        assert(routes_view(list@).len() == places.len());
        assert forall|i: int| 0 <= i < places.len() implies 0 <= #[trigger] places[i]
            < body@.len() && route_stands(body@, places[i], list@[i]@) by {
            assert(routes_view(list@)[i] == list@[i]@);
        }
        assert(lists_places(body@, places));
    } else {
        lemma_no_listing_stands(body@);
    }
}

/// Where a route is read from an object, each of its fields is the string or the integer
/// at the member of the field's name.
pub proof fn law_a_route_is_read_by_name(json: Seq<u8>, at: int, route: EligibleRouteView)
    requires
        0 <= at <= json.len(),
        eligible_route_at(json, at) == Ok::<_, Seq<char>>(route),
        json[json::space_end(json, at)] == 0x7b,
    ensures
        json::text_member(json, "route_id"@, route.route_id),
        json::text_member(json, "request_id"@, route.request_id),
        json::text_member(json, "subscription_id"@, route.subscription_id),
        json::text_member(json, "destination_service_id"@, route.destination_service_id),
        json::number_member(json, "created_at"@, route.created_at),
{
    lemma_route_stands(json, at);
}

/// What is wrong with the text of a listing is what is wrong with it as a record of one.
pub proof fn law_a_refused_listing_tells_what_is_wrong(
    json: &[u8],
    decoded: Result<Vec<EligibleRoute>, String>,
    read: Result<Vec<Option<Value>>, String>,
)
    requires
        call_ensures(decode_eligible_routes, (json,), decoded),
        call_ensures(json::read_record, (json, Shape::EligibleRouteListResponse), read),
    ensures
        decoded is Ok <==> read is Ok,
        decoded matches Err(told) ==> (read matches Err(said) && told@ == said@),
{
    lemma_listed_places(json@);
}

}
