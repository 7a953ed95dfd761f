use infernal_worker_simple::error::WorkerError;
use infernal_worker_simple::routes::{
    classify_eligible_routes, decode_eligible_routes,
    parse_eligible_routes, EligibleRoute, ELIGIBLE_ROUTES_PATH,
};

#[test]
fn parses_the_kernels_actual_eligible_route_wire_shape() {
    let body = br#"{"routes":[{"route_id":"r1","request_id":"q1","subscription_id":"s1","destination_service_id":"d1","created_at":100}]}"#;

    let routes = parse_eligible_routes(200, body).unwrap();

    assert_eq!(
        routes,
        vec![EligibleRoute {
            route_id: "r1".to_owned(),
            request_id: "q1".to_owned(),
            subscription_id: "s1".to_owned(),
            destination_service_id: "d1".to_owned(),
            created_at: 100,
        }]
    );
}

#[test]
fn parses_an_empty_eligible_set() {
    let routes = parse_eligible_routes(200, br#"{"routes":[]}"#).unwrap();

    assert!(routes.is_empty());
}

#[test]
fn rejects_a_non_200_status() {
    assert!(matches!(
        parse_eligible_routes(503, b"{}"),
        Err(WorkerError::UnexpectedStatus(503))
    ));
}

#[test]
fn rejects_malformed_json() {
    assert!(matches!(
        parse_eligible_routes(200, b"not json"),
        Err(WorkerError::MalformedResponse(_))
    ));
}

#[test]
fn the_order_of_the_listing_is_kept() {
    let body = br#"{"routes":[
        {"route_id":"old","request_id":"q","subscription_id":"s","destination_service_id":"d","created_at":1},
        ["new","q","s","d",2],
        {"route_id":"newer","request_id":"q","subscription_id":"s","destination_service_id":"d","created_at":0}
    ],"more":[]}"#;
    let routes = parse_eligible_routes(200, body).unwrap();
    let ids: Vec<&str> = routes.iter().map(|route| route.route_id.as_str()).collect();
    assert_eq!(ids, ["old", "new", "newer"]);
    assert_eq!(routes[1].created_at, 2);
    assert_eq!(ELIGIBLE_ROUTES_PATH, "/v1/routes/eligible");
}

#[test]
fn one_bad_route_spoils_the_listing() {
    let body = br#"{"routes":[["a","q","s","d",1],["b","q","s","d"]]}"#;
    assert!(matches!(
        parse_eligible_routes(200, body),
        Err(WorkerError::MalformedResponse(_))
    ));
    assert!(decode_eligible_routes(br#"{"routes":{}}"#).is_err());
    assert_eq!(
        decode_eligible_routes(b"{}").unwrap_err(),
        "missing field `routes` at line 1 column 2"
    );
    assert!(decode_eligible_routes(br#"{"routes":[],"routes":[]}"#).is_err());
}

#[test]
fn a_decoded_listing_matters_with_its_own_status_only() {
    assert!(matches!(
        classify_eligible_routes(204, Ok(Vec::new())),
        Err(WorkerError::UnexpectedStatus(204))
    ));
    assert!(matches!(
        classify_eligible_routes(200, Err("w".to_owned())),
        Err(WorkerError::MalformedResponse(message)) if message == "w"
    ));
    assert!(classify_eligible_routes(200, Ok(Vec::new())).unwrap().is_empty());
}
