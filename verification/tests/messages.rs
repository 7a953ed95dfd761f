//! The library reports the same of every body as a reader that hands the whole body
//! to `serde_json`, record by record and field by field.

use std::fmt;

use infernal_worker_simple::claims::decode_work_claim;
use infernal_worker_simple::instance_lease::decode_renewed_lease;
use infernal_worker_simple::routed_request::decode_routed_request;
use infernal_worker_simple::routes::decode_eligible_routes;
use serde::de::{
    Deserialize, DeserializeSeed, Deserializer, Error, IgnoredAny, MapAccess, SeqAccess, Visitor,
};

#[derive(Clone, Copy)]
enum Field {
    Text(&'static str),
    Number(&'static str),
    Routes(&'static str),
}

impl Field {
    fn name(self) -> &'static str {
        match self {
            Field::Text(name) | Field::Number(name) | Field::Routes(name) => name,
        }
    }
}

/// Reads a record, and writes its values down one after the other.
#[derive(Clone, Copy)]
struct Record {
    title: &'static str,
    fields: &'static [Field],
}

const CLAIM: Record = Record {
    title: "struct WorkClaim",
    fields: &[
        Field::Text("claim_id"),
        Field::Text("route_id"),
        Field::Text("worker_service_id"),
        Field::Text("worker_instance_id"),
        Field::Number("fencing_token"),
        Field::Text("status"),
        Field::Number("claimed_at"),
        Field::Number("lease_expires_at"),
    ],
};

const ROUTE: Record = Record {
    title: "struct EligibleRoute",
    fields: &[
        Field::Text("route_id"),
        Field::Text("request_id"),
        Field::Text("subscription_id"),
        Field::Text("destination_service_id"),
        Field::Number("created_at"),
    ],
};

const LISTING: Record = Record {
    title: "struct EligibleRouteListResponse",
    fields: &[Field::Routes("routes")],
};

const REQUEST: Record = Record {
    title: "struct RoutedRequest",
    fields: &[
        Field::Text("request_id"),
        Field::Text("source_service_id"),
        Field::Text("action"),
        Field::Text("scope"),
        Field::Text("artifact_schema_version_id"),
        Field::Text("permission_policy_schema_version_id"),
        Field::Number("accepted_at"),
    ],
};

const LEASE: Record = Record {
    title: "struct RenewedLease",
    fields: &[
        Field::Number("lease_expires_at"),
        Field::Number("lease_revision"),
    ],
};

struct Routes;

impl<'de> Visitor<'de> for Routes {
    type Value = String;

    fn expecting(&self, formatter: &mut fmt::Formatter<'_>) -> fmt::Result {
        formatter.write_str("a sequence")
    }

    fn visit_seq<A: SeqAccess<'de>>(self, mut seq: A) -> Result<String, A::Error> {
        let mut routes = String::new();
        while let Some(route) = seq.next_element_seed(ROUTE)? {
            routes += &format!("[{route}]");
        }
        Ok(routes)
    }
}

impl<'de> DeserializeSeed<'de> for Field {
    type Value = String;

    fn deserialize<D: Deserializer<'de>>(self, deserializer: D) -> Result<String, D::Error> {
        match self {
            Field::Text(_) => Ok(format!("{:?},", String::deserialize(deserializer)?)),
            Field::Number(_) => Ok(format!("{},", i64::deserialize(deserializer)?)),
            Field::Routes(_) => deserializer.deserialize_seq(Routes),
        }
    }
}

impl<'de> Visitor<'de> for Record {
    type Value = String;

    fn expecting(&self, formatter: &mut fmt::Formatter<'_>) -> fmt::Result {
        formatter.write_str(self.title)
    }

    fn visit_seq<A: SeqAccess<'de>>(self, mut seq: A) -> Result<String, A::Error> {
        let mut values = String::new();
        for (i, field) in self.fields.iter().enumerate() {
            match seq.next_element_seed(*field)? {
                Some(value) => values += &value,
                None => {
                    let expected = match self.fields.len() {
                        1 => format!("{} with 1 element", self.title),
                        n => format!("{} with {n} elements", self.title),
                    };
                    return Err(Error::invalid_length(i, &expected.as_str()));
                }
            }
        }
        Ok(values)
    }

    fn visit_map<A: MapAccess<'de>>(self, mut map: A) -> Result<String, A::Error> {
        let mut values: Vec<Option<String>> = vec![None; self.fields.len()];
        while let Some(key) = map.next_key::<String>()? {
            match self.fields.iter().position(|field| field.name() == key) {
                Some(i) => {
                    if values[i].is_some() {
                        return Err(Error::duplicate_field(self.fields[i].name()));
                    }
                    values[i] = Some(map.next_value_seed(self.fields[i])?);
                }
                None => {
                    map.next_value::<IgnoredAny>()?;
                }
            }
        }
        let mut all = String::new();
        for (value, field) in values.into_iter().zip(self.fields) {
            match value {
                Some(value) => all += &value,
                None => return Err(Error::missing_field(field.name())),
            }
        }
        Ok(all)
    }
}

impl<'de> DeserializeSeed<'de> for Record {
    type Value = String;

    fn deserialize<D: Deserializer<'de>>(self, deserializer: D) -> Result<String, D::Error> {
        deserializer.deserialize_struct("record", &[], self)
    }
}

fn expected(record: Record, body: &[u8]) -> Result<String, String> {
    let mut deserializer = serde_json::Deserializer::from_slice(body);
    let values = record
        .deserialize(&mut deserializer)
        .map_err(|error| error.to_string())?;
    deserializer.end().map_err(|error| error.to_string())?;
    Ok(values)
}

fn check_claim(body: &[u8]) {
    let read = decode_work_claim(body).map(|c| {
        format!(
            "{:?},{:?},{:?},{:?},{},{:?},{},{},",
            c.claim_id,
            c.route_id,
            c.worker_service_id,
            c.worker_instance_id,
            c.fencing_token,
            c.status,
            c.claimed_at,
            c.lease_expires_at
        )
    });
    assert_eq!(read, expected(CLAIM, body), "{}", body.escape_ascii());
}

fn check_listing(body: &[u8]) {
    let read = decode_eligible_routes(body).map(|routes| {
        let mut all = String::new();
        for r in routes {
            all += &format!(
                "[{:?},{:?},{:?},{:?},{},]",
                r.route_id, r.request_id, r.subscription_id, r.destination_service_id, r.created_at
            );
        }
        all
    });
    assert_eq!(read, expected(LISTING, body), "{}", body.escape_ascii());
}

fn check_request(body: &[u8]) {
    let read = decode_routed_request(body).map(|r| {
        format!(
            "{:?},{:?},{:?},{:?},{:?},{:?},{},",
            r.request_id,
            r.source_service_id,
            r.action,
            r.scope,
            r.artifact_schema_version_id,
            r.permission_policy_schema_version_id,
            r.accepted_at
        )
    });
    assert_eq!(read, expected(REQUEST, body), "{}", body.escape_ascii());
}

fn check_lease(body: &[u8]) {
    let read = decode_renewed_lease(body)
        .map(|l| format!("{},{},", l.lease_expires_at, l.lease_revision));
    assert_eq!(read, expected(LEASE, body), "{}", body.escape_ascii());
}

/// Calls `check` on bodies that differ from `body` in one place, and on as many again
/// that differ in a few.
fn vary(body: &[u8], check: fn(&[u8])) {
    let bytes = b"{}[],:\" \n\\u019-.eEtnx\x00\x1f\x7f\xc3\xff";
    check(body);
    for at in 0..=body.len() {
        check(&body[..at]);
        for byte in bytes {
            let mut inserted = body.to_vec();
            inserted.insert(at, *byte);
            check(&inserted);
        }
        if at < body.len() {
            let mut shorter = body.to_vec();
            shorter.remove(at);
            check(&shorter);
            for byte in bytes {
                let mut changed = body.to_vec();
                changed[at] = *byte;
                check(&changed);
            }
        }
    }
    let mut state: u64 = 1;
    let mut next = |n: usize| {
        state = state.wrapping_mul(6_364_136_223_846_793_005).wrapping_add(1);
        (state >> 33) as usize % n
    };
    for _ in 0..2 * body.len() * bytes.len() {
        let mut changed = body.to_vec();
        for _ in 0..1 + next(4) {
            let at = next(changed.len());
            match next(4) {
                0 => changed[at] = bytes[next(bytes.len())],
                1 => changed.insert(at, bytes[next(bytes.len())]),
                2 if changed.len() > 1 => {
                    changed.remove(at);
                }
                _ => {
                    // A stretch of the body once more, somewhere else.
                    let end = (at + 1 + next(24)).min(changed.len());
                    let stretch = changed[at..end].to_vec();
                    let to = next(changed.len());
                    changed.splice(to..to, stretch);
                }
            }
        }
        check(&changed);
    }
}

#[test]
fn a_lease_is_reported_alike() {
    vary(
        br#"{"service_id":"s1","lease_expires_at":70,"more":{"x":[1,null,true]},"lease_revision":2}"#,
        check_lease,
    );
    vary(b" {\n\"lease_revision\" : -2 ,\n\t\"lease_expires_at\":\n70 } \n", check_lease);
    vary(b"[70, 2]", check_lease);
    for body in [
        "", " ", "null", "true", "7", "-", "-1.5", "\"a map\"", "\"x\ny\"", "not json", "[]",
        "{}", "[1]", "[1,2,3]", "[1,2,]", "[1,2", "[1,2}", "[1 2]", "[\"1\",2]", "[,1]", "[1,,2]",
        "{\"lease_revision\":1,\"lease_revision\":2}",
        "{\"lease_revision\":1,\"lease_revision\"}",
        "{\"lease_revision\":1,\"lease_revision\" \n ,",
        "{\"lease_revision\":1,\"lease_revision\"",
        "{\"lease_revision\":9223372036854775808}",
        "{\"lease_revision\":1,\"lease_expires_at\":1e3}",
        "{\"lease_revision\":1,\"lease_expires_at\":-0}",
        "{\"lease_revision\":1,\"lease_expires_at\":1}x",
        "{\"lease_revision\":1,\"lease_expires_at\":1x}",
        "{\"lease_revision\":1,\n\"lease_expires_at\":\"one\"}",
        "{\"lease_revision\":1,\"\\ud800\":1}",
        "{\"a\":\"\\ud800\",\"lease_revision\":1,\"lease_expires_at\":1}",
    ] {
        check_lease(body.as_bytes());
    }
}

#[test]
fn a_listing_is_reported_alike() {
    vary(
        br#"{"routes":[{"route_id":"r","request_id":"q","subscription_id":"s","destination_service_id":"d","created_at":1}]}"#,
        check_listing,
    );
    vary(
        b"{\"a\":0,\"routes\" :\n[ [\"r\",\"q\",\"s\",\"d\",1],\n[\"r\",\"q\",\"s\",\"d\",2] ]}",
        check_listing,
    );
    vary(br#"[[["r","q","s","d",1]]]"#, check_listing);
    for body in [
        "{\"routes\":{}}", "{\"routes\":null}", "{\"routes\":[1]}", "{\"routes\":[[]]}",
        "{\"routes\":[{}]}", "{\"routes\":[],\"routes\":[]}", "{\"routes\":[],}", "[]", "[[],[]]",
        "{\"routes\":", "{\"routes\":[\"a map\"]}",
    ] {
        check_listing(body.as_bytes());
    }
}

#[test]
fn a_claim_is_reported_alike() {
    vary(
        br#"{"claim_id":"c1","route_id":"r","worker_service_id":"w","worker_instance_id":"\u00e4","fencing_token":1,"status":"","claimed_at":10,"lease_expires_at":310}"#,
        check_claim,
    );
    vary(br#"["c","r","w","i",1,"active",10,310]"#, check_claim);
}

#[test]
fn a_request_is_reported_alike() {
    vary(br#"["q","s","a","c","a1","p1",10]"#, check_request);
    check_request(br#"{"request_id":"q","action":"a"}"#);
    check_request(br#"{"request_id":"q","action":"a","scope":{}}"#);
}
