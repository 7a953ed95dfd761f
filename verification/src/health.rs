//! What a supervisor can probe in a process that otherwise only calls out.
//!
//! Readiness and liveness both follow from one fact: when this process last
//! completed a pass against the kernel. A pass that fails does not count, so a
//! worker whose every call is rejected goes stale and is reported unhealthy,
//! first not ready, and long after that not live. Being restarted, and so
//! enrolled again, is the only way out of an expired instance lease.

use crate::clock;
use crate::error::WorkerError;
use crate::text;
use vstd::prelude::*;
use vstd::string::*;

verus! {

/// When the work loop last succeeded. Zero means not yet. The work loop and the
/// probes look at one and the same heartbeat; whoever runs them shares it.
#[derive(Debug)]
pub struct Heartbeat {
    last: i64,
}

impl View for Heartbeat {
    type V = i64;

    closed spec fn view(&self) -> i64 {
        self.last
    }
}

/// Seconds from `last` to `now`, within what an `i64` holds; `None` where nothing
/// has succeeded yet.
pub open spec fn age_of(last: i64, now: i64) -> Option<int> {
    if last == 0 {
        None
    } else if now - last > i64::MAX {
        Some(i64::MAX as int)
    } else if now - last < i64::MIN {
        Some(i64::MIN as int)
    } else {
        Some(now - last)
    }
}

/// The time of the last success after a pass that ended at the time `at`: only a
/// pass without an error counts.
pub open spec fn last_after_pass(last: i64, succeeded: bool, at: i64) -> i64 {
    if succeeded {
        at
    } else {
        last
    }
}

/// The time of the last success after several passes, each with whether it
/// succeeded and when it ended.
pub open spec fn last_after_passes(last: i64, passes: Seq<(bool, i64)>) -> i64
    decreases passes.len(),
{
    if passes.len() == 0 {
        last
    } else {
        last_after_pass(
            last_after_passes(last, passes.drop_last()),
            passes.last().0,
            passes.last().1,
        )
    }
}

impl Heartbeat {
    /// A heartbeat with no success yet.
    pub fn new() -> (heartbeat: Self)
        ensures
            heartbeat@ == 0,
    {
        Heartbeat { last: 0 }
    }

    /// Records a success at the time `at`.
    pub fn record_success(&mut self, at: i64)
        ensures
            final(self)@ == at,
    {
        self.last = at;
    }

    /// Records how a pass that ended at the time `at` went. Only a pass without an
    /// error counts.
    pub fn record_pass<T>(&mut self, pass: &Result<T, WorkerError>, at: i64)
        ensures
            final(self)@ == last_after_pass(old(self)@, pass is Ok, at),
    {
        match pass {
            Ok(_) => self.record_success(at),
            Err(_) => {},
        }
    }

    /// The time of the last success, or zero.
    pub fn last_success(&self) -> (at: i64)
        ensures
            at == self@,
    {
        self.last
    }

    /// Age in seconds of the last success, or `None` when nothing has succeeded yet.
    pub fn age(&self, now: i64) -> (age: Option<i64>)
        ensures
            match age {
                Some(seconds) => age_of(self@, now) == Some(seconds as int),
                None => age_of(self@, now) is None,
            },
    {
        match self.last_success() {
            0 => None,
            last => match now.checked_sub(last) {
                Some(age) => Some(age),
                None => Some(
                    if now > last {
                        i64::MAX
                    } else {
                        i64::MIN
                    },
                ),
            },
        }
    }
}

impl Default for Heartbeat {
    fn default() -> (heartbeat: Self)
        ensures
            heartbeat@ == 0,
    {
        Heartbeat::new()
    }
}

/// How stale the last successful pass may be before readiness fails.
pub const DEFAULT_READY_STALE_SECONDS: i64 = 30;

/// How stale it may be before liveness fails and the container is restarted. Much
/// longer than readiness: a restart throws away a working enrollment, so it must
/// not be the answer to a brief hiccup.
pub const DEFAULT_LIVE_STALE_SECONDS: i64 = 150;

/// How old the last success may be for each probe.
pub struct Thresholds {
    pub ready_stale_seconds: i64,
    pub live_stale_seconds: i64,
}

impl Default for Thresholds {
    fn default() -> (thresholds: Self)
        ensures
            thresholds.ready_stale_seconds == DEFAULT_READY_STALE_SECONDS,
            thresholds.live_stale_seconds == DEFAULT_LIVE_STALE_SECONDS,
    {
        Thresholds {
            ready_stale_seconds: DEFAULT_READY_STALE_SECONDS,
            live_stale_seconds: DEFAULT_LIVE_STALE_SECONDS,
        }
    }
}

/// The answer to a liveness probe: status line and body. A process that has not
/// succeeded yet is still starting, and counts as live.
pub open spec fn liveness(last: i64, thresholds: Thresholds, now: i64) -> (Seq<char>, Seq<char>) {
    match age_of(last, now) {
        None => ("200 OK"@, "starting\n"@),
        Some(age) => if age <= thresholds.live_stale_seconds {
            ("200 OK"@, "ok\n"@)
        } else {
            (
                "503 Service Unavailable"@,
                "no successful pass for "@ + text::decimal(age) + "s\n"@,
            )
        },
    }
}

/// The answer to a readiness probe: status line and body.
pub open spec fn readiness(last: i64, thresholds: Thresholds, now: i64) -> (Seq<char>, Seq<char>) {
    match age_of(last, now) {
        None => ("503 Service Unavailable"@, "no successful pass yet\n"@),
        Some(age) => if age <= thresholds.ready_stale_seconds {
            ("200 OK"@, "ok\n"@)
        } else {
            (
                "503 Service Unavailable"@,
                "last successful pass "@ + text::decimal(age) + "s ago\n"@,
            )
        },
    }
}

/// The answer to a probe of `path`: status line and body.
pub open spec fn probe_answer(
    path: Seq<char>,
    last: i64,
    thresholds: Thresholds,
    now: i64,
) -> (Seq<char>, Seq<char>) {
    if path == "/health/live"@ {
        liveness(last, thresholds, now)
    } else if path == "/health/ready"@ {
        readiness(last, thresholds, now)
    } else {
        ("404 Not Found"@, "not found\n"@)
    }
}

/// Decides the answer to a probe.
pub fn evaluate(path: &str, heartbeat: &Heartbeat, thresholds: &Thresholds, now: i64) -> (answer: (
    &'static str,
    String,
))
    ensures
        (answer.0@, answer.1@) == probe_answer(path@, heartbeat@, *thresholds, now),
{
    if text::same_text(path, "/health/live") {
        match heartbeat.age(now) {
            None => ("200 OK", "starting\n".to_owned()),
            Some(age) => if age <= thresholds.live_stale_seconds {
                ("200 OK", "ok\n".to_owned())
            } else {
                (
                    "503 Service Unavailable",
                    "no successful pass for ".to_owned().concat(
                        text::signed_text(age).as_str(),
                    ).concat("s\n"),
                )
            },
        }
    } else if text::same_text(path, "/health/ready") {
        match heartbeat.age(now) {
            None => ("503 Service Unavailable", "no successful pass yet\n".to_owned()),
            Some(age) => if age <= thresholds.ready_stale_seconds {
                ("200 OK", "ok\n".to_owned())
            } else {
                (
                    "503 Service Unavailable",
                    "last successful pass ".to_owned().concat(
                        text::signed_text(age).as_str(),
                    ).concat("s ago\n"),
                )
            },
        }
    } else {
        ("404 Not Found", "not found\n".to_owned())
    }
}

/// What `String::from_utf8_lossy` makes of bytes.
pub uninterp spec fn lossy_text(bytes: Seq<u8>) -> Seq<char>;

/// `String::from_utf8_lossy`. Claimed: the text depends on the bytes alone, and
/// bytes that are UTF-8 are decoded as they stand. What replaces other bytes is
/// left unsaid.
#[verifier::external_body]
fn decode_lossy(bytes: &[u8]) -> (decoded: String)
    ensures
        decoded@ == lossy_text(bytes@),
        vstd::utf8::valid_utf8(bytes@) ==> decoded@ == vstd::utf8::decode_utf8(bytes@),
{
    String::from_utf8_lossy(bytes).into_owned()
}

/// An HTTP answer with a plain text body, after which the connection is closed.
pub open spec fn http_answer(status: Seq<char>, body: Seq<char>) -> Seq<char> {
    "HTTP/1.1 "@ + status + "\r\nContent-Type: text/plain\r\nContent-Length: "@ + text::decimal(
        vstd::utf8::encode_utf8(body).len() as int,
    ) + "\r\nConnection: close\r\n\r\n"@ + body
}

/// Writes the HTTP answer with the given status and body.
pub fn write_http_answer(status: &str, body: &str) -> (answer: String)
    ensures
        answer@ == http_answer(status@, body@),
{
    let length: usize = body.as_bytes().len();
    "HTTP/1.1 ".to_owned().concat(status).concat(
        "\r\nContent-Type: text/plain\r\nContent-Length: ",
    ).concat(text::unsigned_text(length as u128).as_str()).concat(
        "\r\nConnection: close\r\n\r\n",
    ).concat(body)
}

/// The HTTP answer to the text of a request: the path is the second word of the
/// request line, or empty where there is none.
pub open spec fn request_answer(
    request: Seq<char>,
    last: i64,
    thresholds: Thresholds,
    now: i64,
) -> Seq<char> {
    let (status, body) = probe_answer(
        text::second_word_of_first_line(request),
        last,
        thresholds,
        now,
    );
    http_answer(status, body)
}

/// Answers the text of a request.
pub fn answer_request(
    request: &str,
    heartbeat: &Heartbeat,
    thresholds: &Thresholds,
    now: i64,
) -> (answer: String)
    ensures
        answer@ == request_answer(request@, heartbeat@, *thresholds, now),
{
    let path = text::second_word(request);
    let (status, body) = evaluate(path.as_str(), heartbeat, thresholds, now);
    write_http_answer(status, body.as_str())
}

/// Answers the bytes of a request with the bytes to send back.
pub fn respond(
    request: &[u8],
    heartbeat: &Heartbeat,
    thresholds: &Thresholds,
    now: i64,
) -> (answer: Vec<u8>)
    ensures
        answer@ == vstd::utf8::encode_utf8(
            request_answer(lossy_text(request@), heartbeat@, *thresholds, now),
        ),
        vstd::utf8::valid_utf8(request@) ==> answer@ == vstd::utf8::encode_utf8(
            request_answer(vstd::utf8::decode_utf8(request@), heartbeat@, *thresholds, now),
        ),
{
    let text = decode_lossy(request);
    answer_request(text.as_str(), heartbeat, thresholds, now).as_str().as_bytes_vec()
}

/// The time that a clock reading stands for: 0 before the epoch, and the low 64
/// bits of the reading, as a signed number, after it.
pub open spec fn wrapped_seconds(elapsed: Option<u64>) -> int {
    match elapsed {
        Some(seconds) => if seconds <= i64::MAX {
            seconds as int
        } else {
            seconds - 0x1_0000_0000_0000_0000
        },
        None => 0,
    }
}

/// Turns a clock reading into a time.
pub fn wrap_seconds(elapsed: Option<u64>) -> (time: i64)
    ensures
        time == wrapped_seconds(elapsed),
{
    match elapsed {
        Some(seconds) => {
            assert(seconds <= 0x7fff_ffff_ffff_ffff ==> seconds as i64 == seconds) by (bit_vector);
            assert(seconds > 0x7fff_ffff_ffff_ffff ==> seconds as i64 == seconds
                - 0x1_0000_0000_0000_0000) by (bit_vector);
            seconds as i64
        },
        None => 0,
    }
}

/// The current time in seconds since the Unix epoch.
pub fn now_seconds() -> (now: i64)
    ensures
        exists|elapsed: Option<u64>| #[trigger]
            clock::is_reading(elapsed) && now == wrapped_seconds(elapsed),
{
    let elapsed: Option<u64> = clock::reading();
    wrap_seconds(elapsed)
}

/// A process that has never succeeded is live but not ready, at any time and
/// whatever the thresholds.
pub proof fn law_never_succeeded_is_live_but_not_ready(thresholds: Thresholds, now: i64)
    ensures
        probe_answer("/health/live"@, 0, thresholds, now).0 == "200 OK"@,
        probe_answer("/health/ready"@, 0, thresholds, now).0 == "503 Service Unavailable"@,
{
    reveal_strlit("/health/live");
    reveal_strlit("/health/ready");
    assert("/health/live"@[8] != "/health/ready"@[8]);
}

/// Where liveness allows at least the age that readiness allows, whoever is ready
/// is live: a probe that fails liveness failed readiness before.
pub proof fn law_ready_implies_live(last: i64, thresholds: Thresholds, now: i64)
    requires
        thresholds.ready_stale_seconds <= thresholds.live_stale_seconds,
        probe_answer("/health/ready"@, last, thresholds, now).0 == "200 OK"@,
    ensures
        probe_answer("/health/live"@, last, thresholds, now).0 == "200 OK"@,
{
    reveal_strlit("/health/live");
    reveal_strlit("/health/ready");
    reveal_strlit("200 OK");
    reveal_strlit("503 Service Unavailable");
    assert("/health/live"@[8] != "/health/ready"@[8]);
    assert("200 OK"@.len() != "503 Service Unavailable"@.len());
}

/// The default thresholds let liveness be slacker than readiness.
pub proof fn law_default_liveness_is_slacker()
    ensures
        DEFAULT_LIVE_STALE_SECONDS > DEFAULT_READY_STALE_SECONDS,
{
}

/// While no pass succeeds, a probe that failed keeps failing, whatever its path.
pub proof fn law_stale_stays_stale(
    path: Seq<char>,
    last: i64,
    thresholds: Thresholds,
    now: i64,
    later: i64,
)
    requires
        now <= later,
        probe_answer(path, last, thresholds, now).0 == "503 Service Unavailable"@,
    ensures
        probe_answer(path, last, thresholds, later).0 == "503 Service Unavailable"@,
{
    reveal_strlit("200 OK");
    reveal_strlit("404 Not Found");
    reveal_strlit("503 Service Unavailable");
    assert("200 OK"@.len() != "503 Service Unavailable"@.len());
    assert("404 Not Found"@.len() != "503 Service Unavailable"@.len());
}

/// Passes that fail leave the time of the last success as it is.
pub proof fn law_failed_passes_do_not_count(last: i64, passes: Seq<(bool, i64)>)
    requires
        forall|i: int| 0 <= i < passes.len() ==> !(#[trigger] passes[i]).0,
    ensures
        last_after_passes(last, passes) == last,
    decreases passes.len(),
{
    if passes.len() > 0 {
        assert(!passes[passes.len() - 1].0);
        assert forall|i: int| 0 <= i < passes.drop_last().len() implies !(
        #[trigger] passes.drop_last()[i]).0 by {
            assert(passes.drop_last()[i] == passes[i]);
        }
        law_failed_passes_do_not_count(last, passes.drop_last());
    }
}

/// A worker whose passes all fail since its success at `last` is reported not
/// ready once the readiness threshold is over, and not live once the liveness
/// threshold is over.
pub proof fn law_a_stuck_worker_is_reported(
    last: i64,
    passes: Seq<(bool, i64)>,
    thresholds: Thresholds,
    now: i64,
)
    requires
        last != 0,
        forall|i: int| 0 <= i < passes.len() ==> !(#[trigger] passes[i]).0,
    ensures
        thresholds.ready_stale_seconds < i64::MAX && now - last > thresholds.ready_stale_seconds
            ==> readiness(last_after_passes(last, passes), thresholds, now).0
            == "503 Service Unavailable"@,
        thresholds.live_stale_seconds < i64::MAX && now - last > thresholds.live_stale_seconds
            ==> liveness(last_after_passes(last, passes), thresholds, now).0
            == "503 Service Unavailable"@,
{
    law_failed_passes_do_not_count(last, passes);
}

/// A worker that never had a successful pass is not ready, however many it made.
pub proof fn law_a_worker_that_only_failed_is_not_ready(
    passes: Seq<(bool, i64)>,
    thresholds: Thresholds,
    now: i64,
)
    requires
        forall|i: int| 0 <= i < passes.len() ==> !(#[trigger] passes[i]).0,
    ensures
        readiness(last_after_passes(0, passes), thresholds, now).0 == "503 Service Unavailable"@,
{
    law_failed_passes_do_not_count(0, passes);
}

/// A success at a time other than zero makes the process ready and live for as
/// long as the thresholds allow, whatever came before.
pub proof fn law_a_recent_success_is_healthy(at: i64, thresholds: Thresholds, now: i64)
    requires
        at != 0,
    ensures
        now - at <= thresholds.ready_stale_seconds ==> readiness(at, thresholds, now).0
            == "200 OK"@,
        now - at <= thresholds.live_stale_seconds ==> liveness(at, thresholds, now).0 == "200 OK"@,
{
}

/// Any other path is not found, whatever the state of the worker.
pub proof fn law_other_paths_are_not_found(
    path: Seq<char>,
    last: i64,
    thresholds: Thresholds,
    now: i64,
)
    requires
        path != "/health/live"@,
        path != "/health/ready"@,
    ensures
        probe_answer(path, last, thresholds, now).0 == "404 Not Found"@,
{
}

/// A success counts from the time at which it came, whatever came before it.
pub proof fn law_a_success_counts(last: i64, passes: Seq<(bool, i64)>, at: i64)
    ensures
        last_after_pass(last, true, at) == at,
        last_after_pass(last, false, at) == last,
        last_after_passes(last, passes.push((true, at))) == at,
{
    assert(passes.push((true, at)).drop_last() =~= passes);
}

/// The age is how long ago the last success was, as far as that is a time, and nothing
/// where there was none.
pub proof fn law_the_age_of_the_last_success(heartbeat: &Heartbeat, now: i64, age: Option<i64>)
    requires
        call_ensures(Heartbeat::age, (heartbeat, now), age),
    ensures
        heartbeat@ == 0 <==> age is None,
        age matches Some(seconds) ==> {
            &&& i64::MIN <= now - heartbeat@ <= i64::MAX ==> seconds == now - heartbeat@
            &&& now - heartbeat@ > i64::MAX ==> seconds == i64::MAX
            &&& now - heartbeat@ < i64::MIN ==> seconds == i64::MIN
        },
{
}

/// What a probe says: a process that never succeeded is starting, and not ready. One
/// that did is fine as long as its last success is no older than the threshold, and is
/// reported after that, with the age in seconds. Another path is not found.
pub proof fn law_what_a_probe_says(
    path: &str,
    heartbeat: &Heartbeat,
    thresholds: &Thresholds,
    now: i64,
    age: Option<i64>,
    said: (&'static str, String),
)
    requires
        call_ensures(Heartbeat::age, (heartbeat, now), age),
        call_ensures(evaluate, (path, heartbeat, thresholds, now), said),
    ensures
        path@ == "/health/live"@ ==> match age {
            None => said.0@ == "200 OK"@ && said.1@ == "starting\n"@,
            Some(age) => if age <= thresholds.live_stale_seconds {
                said.0@ == "200 OK"@ && said.1@ == "ok\n"@
            } else {
                &&& said.0@ == "503 Service Unavailable"@
                &&& exists|number: Seq<char>|
                    {
                        &&& text::signed_number(number) == Some(age as int)
                        &&& said.1@ == #[trigger] ("no successful pass for "@ + number) + "s\n"@
                    }
            },
        },
        path@ == "/health/ready"@ ==> match age {
            None => said.0@ == "503 Service Unavailable"@ && said.1@ == "no successful pass yet\n"@,
            Some(age) => if age <= thresholds.ready_stale_seconds {
                said.0@ == "200 OK"@ && said.1@ == "ok\n"@
            } else {
                &&& said.0@ == "503 Service Unavailable"@
                &&& exists|number: Seq<char>|
                    {
                        &&& text::signed_number(number) == Some(age as int)
                        &&& said.1@ == #[trigger] ("last successful pass "@ + number) + "s ago\n"@
                    }
            },
        },
        path@ != "/health/live"@ && path@ != "/health/ready"@ ==> said.0@ == "404 Not Found"@
            && said.1@ == "not found\n"@,
{
    reveal_strlit("/health/live");
    reveal_strlit("/health/ready");
    assert("/health/live"@[8] != "/health/ready"@[8]);
    if let Some(age) = age {
        let number = text::decimal(age as int);
        text::law_decimal_reads_back(age as int);
        assert("no successful pass for "@ + number == "no successful pass for "@ + number);
        assert("last successful pass "@ + number == "last successful pass "@ + number);
    }
}

/// An answer has the status in its first line, tells the length of its body in bytes,
/// and ends with the body, whole.
pub proof fn law_an_answer_carries_status_and_body(status: &str, body: &str, answer: String)
    requires
        call_ensures(write_http_answer, (status, body), answer),
    ensures
        exists|length: Seq<char>|
            {
                &&& text::unsigned_number(length) == Some(
                    vstd::utf8::encode_utf8(body@).len() as int,
                )
                &&& answer@ == "HTTP/1.1 "@ + status@
                    + "\r\nContent-Type: text/plain\r\nContent-Length: "@ + #[trigger] (length
                    + "\r\nConnection: close\r\n\r\n"@) + body@
            },
{
    let length = text::decimal(vstd::utf8::encode_utf8(body@).len() as int);
    text::law_decimal_reads_back(vstd::utf8::encode_utf8(body@).len() as int);
    let tail = length + "\r\nConnection: close\r\n\r\n"@;
    assert("HTTP/1.1 "@ + status@ + "\r\nContent-Type: text/plain\r\nContent-Length: "@ + tail
        + body@ =~= http_answer(status@, body@));
}

/// The answer to a request is the answer to the probe of its path, written as every
/// answer is: it starts with a line of the probe's status, and ends with the probe's body
/// after an empty line.
pub proof fn law_the_answer_is_that_of_the_probe(
    request: &str,
    path: &str,
    heartbeat: &Heartbeat,
    thresholds: &Thresholds,
    now: i64,
    said: (&'static str, String),
    body: &str,
    written: String,
    answer: String,
    word: String,
)
    requires
        call_ensures(text::second_word, (request,), word),
        path@ == word@,
        body@ == said.1@,
        call_ensures(write_http_answer, (said.0, body), written),
        call_ensures(evaluate, (path, heartbeat, thresholds, now), said),
        call_ensures(answer_request, (request, heartbeat, thresholds, now), answer),
    ensures
        answer@ == written@,
        ({
            let line = "HTTP/1.1 "@ + said.0@ + "\r\n"@;
            &&& line.len() <= answer@.len()
            &&& answer@.take(line.len() as int) == line
        }),
        ({
            let end = "\r\n\r\n"@ + said.1@;
            &&& end.len() <= answer@.len()
            &&& answer@.skip(answer@.len() - end.len()) == end
        }),
{
    lemma_answer_ends(said.0@, said.1@);
}

/// How an answer starts and ends.
proof fn lemma_answer_ends(status: Seq<char>, body: Seq<char>)
    ensures
        ({
            let answer = http_answer(status, body);
            let line = "HTTP/1.1 "@ + status + "\r\n"@;
            let end = "\r\n\r\n"@ + body;
            &&& line.len() <= answer.len()
            &&& answer.take(line.len() as int) == line
            &&& end.len() <= answer.len()
            &&& answer.skip(answer.len() - end.len()) == end
        }),
{
    reveal_strlit("HTTP/1.1 ");
    reveal_strlit("\r\n");
    reveal_strlit("\r\n\r\n");
    reveal_strlit("\r\nContent-Type: text/plain\r\nContent-Length: ");
    reveal_strlit("\r\nConnection: close\r\n\r\n");
    let answer = http_answer(status, body);
    let line = "HTTP/1.1 "@ + status + "\r\n"@;
    let end = "\r\n\r\n"@ + body;
    let front = "HTTP/1.1 "@ + status;
    let kind = "\r\nContent-Type: text/plain\r\nContent-Length: "@;
    let length = text::decimal(vstd::utf8::encode_utf8(body).len() as int);
    let close = "\r\nConnection: close\r\n\r\n"@;
    assert(answer =~= front + (kind + (length + (close + body))));
    assert(answer =~= (front + (kind + length)) + (close + body));
    assert(kind.take(2) =~= "\r\n"@);
    assert(answer.take(line.len() as int) =~= line);
    assert(close.skip(close.len() - 4) =~= "\r\n\r\n"@);
    assert((close + body).skip(close.len() - 4) =~= end);
    assert(answer.skip(answer.len() - end.len()) =~= end);
}

/// Over HTTP, a worker whose last success is older than a threshold is told from one
/// whose is not: the first line of the answer to a probe says so, whatever the method,
/// and whatever follows the path. No age is beyond the greatest threshold there is.
pub proof fn law_staleness_is_told_over_http(
    method: Seq<char>,
    path: Seq<char>,
    rest: Seq<char>,
    lines: Seq<char>,
    request: &str,
    heartbeat: &Heartbeat,
    thresholds: &Thresholds,
    now: i64,
    answer: String,
)
    requires
        text::is_word(method),
        method.len() > 0,
        rest.len() > 0 ==> text::is_white_space(rest[0]),
        forall|i: int| 0 <= i < rest.len() ==> #[trigger] rest[i] != '\n',
        lines.len() > 0 ==> lines[0] == '\n',
        request@ == method + seq![' '] + path + rest + lines,
        call_ensures(answer_request, (request, heartbeat, thresholds, now), answer),
        thresholds.live_stale_seconds < i64::MAX,
        thresholds.ready_stale_seconds < i64::MAX,
    ensures
        path == "/health/live"@ ==> ({
            let line = if heartbeat@ == 0 || now - heartbeat@ <= thresholds.live_stale_seconds {
                "HTTP/1.1 200 OK\r\n"@
            } else {
                "HTTP/1.1 503 Service Unavailable\r\n"@
            };
            line.len() <= answer@.len() && answer@.take(line.len() as int) == line
        }),
        path == "/health/ready"@ ==> ({
            let line = if heartbeat@ != 0 && now - heartbeat@ <= thresholds.ready_stale_seconds {
                "HTTP/1.1 200 OK\r\n"@
            } else {
                "HTTP/1.1 503 Service Unavailable\r\n"@
            };
            line.len() <= answer@.len() && answer@.take(line.len() as int) == line
        }),
{
    reveal_strlit("/health/live");
    reveal_strlit("/health/ready");
    assert("/health/live"@[8] != "/health/ready"@[8]);
    reveal_strlit("HTTP/1.1 ");
    reveal_strlit("\r\n");
    reveal_strlit("200 OK");
    reveal_strlit("503 Service Unavailable");
    reveal_strlit("HTTP/1.1 200 OK\r\n");
    reveal_strlit("HTTP/1.1 503 Service Unavailable\r\n");
    if path == "/health/live"@ || path == "/health/ready"@ {
        let gap = seq![' '];
        let lead = Seq::<char>::empty();
        assert(lead + method + gap + path + rest + lines =~= request@);
        assert(text::is_word(path));
        text::lemma_second_word_of(lead, method, gap, path, rest, lines);
        let (status, body) = probe_answer(path, heartbeat@, *thresholds, now);
        lemma_answer_ends(status, body);
        assert("HTTP/1.1 "@ + "200 OK"@ + "\r\n"@ =~= "HTTP/1.1 200 OK\r\n"@);
        assert("HTTP/1.1 "@ + "503 Service Unavailable"@ + "\r\n"@
            =~= "HTTP/1.1 503 Service Unavailable\r\n"@);
    }
}

/// Bytes that are a text are answered as that text is, in bytes, and other bytes as the
/// text that `String::from_utf8_lossy` makes of them.
pub proof fn law_bytes_are_answered_as_text(
    bytes: &[u8],
    request: &str,
    heartbeat: &Heartbeat,
    thresholds: &Thresholds,
    now: i64,
    sent: Vec<u8>,
    answer: String,
)
    requires
        if vstd::utf8::valid_utf8(bytes@) {
            request@ == vstd::utf8::decode_utf8(bytes@)
        } else {
            request@ == lossy_text(bytes@)
        },
        call_ensures(respond, (bytes, heartbeat, thresholds, now), sent),
        call_ensures(answer_request, (request, heartbeat, thresholds, now), answer),
    ensures
        sent@ == vstd::utf8::encode_utf8(answer@),
        vstd::utf8::decode_utf8(sent@) == answer@,
{
    vstd::utf8::encode_utf8_decode_utf8(answer@);
}

/// A reading is taken as its low 64 bits, as a signed number.
pub proof fn law_a_reading_is_wrapped(elapsed: Option<u64>, time: i64)
    requires
        call_ensures(wrap_seconds, (elapsed,), time),
    ensures
        elapsed is None ==> time == 0,
        elapsed matches Some(seconds) ==> time == seconds || time
            == seconds - 0x1_0000_0000_0000_0000,
{
}

/// The probes go by what the clock says.
pub proof fn law_the_probes_read_the_clock(now: i64)
    requires
        call_ensures(now_seconds, (), now),
    ensures
        exists|elapsed: Option<u64>| #[trigger]
            clock::is_reading(elapsed) && match elapsed {
                Some(seconds) => now == seconds || now == seconds - 0x1_0000_0000_0000_0000,
                None => now == 0,
            },
{
}

/// A pass that went well is recorded at the time at which it ended, and one that failed
/// leaves the heartbeat as it was; what is recorded is what is told.
pub proof fn law_only_a_success_is_recorded<T>(
    heartbeat: &mut Heartbeat,
    recorded: &mut Heartbeat,
    pass: &Result<T, WorkerError>,
    at: i64,
    read: &Heartbeat,
    told: i64,
)
    requires
        call_ensures(Heartbeat::record_pass::<T>, (heartbeat, pass, at), ()),
        call_ensures(Heartbeat::record_success, (recorded, at), ()),
        call_ensures(Heartbeat::last_success, (read,), told),
    ensures
        pass is Ok ==> final(heartbeat)@ == at,
        pass is Err ==> final(heartbeat)@ == old(heartbeat)@,
        final(recorded)@ == at,
        told == read@,
{
}

/// A heartbeat starts with no success, and by default readiness is lost after thirty
/// seconds without one, and liveness after a hundred and fifty.
pub proof fn law_what_probes_start_with(
    heartbeat: Heartbeat,
    age: Option<i64>,
    now: i64,
    otherwise: Heartbeat,
    thresholds: Thresholds,
)
    requires
        call_ensures(Heartbeat::new, (), heartbeat),
        call_ensures(Heartbeat::age, (&heartbeat, now), age),
        call_ensures(Heartbeat::default, (), otherwise),
        call_ensures(Thresholds::default, (), thresholds),
    ensures
        age is None,
        otherwise@ == heartbeat@,
        thresholds.ready_stale_seconds == 30,
        thresholds.live_stale_seconds == 150,
{
}

}
