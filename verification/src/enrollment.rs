//! Enrolling this process with the kernel: what an operator configures for it, and
//! what is submitted.

use crate::error;
use crate::error::{WorkerError, WorkerErrorView};
use crate::text;
use base64::Engine;
use vstd::prelude::*;
use vstd::string::*;

verus! {

/// How many bytes an enrollment challenge has.
pub const CHALLENGE_LENGTH: usize = 32;

/// The character of base64url that stands for six bits.
pub open spec fn base64url_symbol(bits: int) -> char {
    if bits < 26 {
        ('A' as int + bits) as char
    } else if bits < 52 {
        ('a' as int + bits - 26) as char
    } else if bits < 62 {
        ('0' as int + bits - 52) as char
    } else if bits == 62 {
        '-'
    } else {
        '_'
    }
}

/// The base64url form of bytes, without padding: four characters for every three
/// bytes, and two or three for one or two bytes at the end.
pub open spec fn base64url(bytes: Seq<u8>) -> Seq<char>
    decreases bytes.len(),
{
    if bytes.len() == 0 {
        Seq::empty()
    } else if bytes.len() == 1 {
        seq![base64url_symbol(bytes[0] as int / 4), base64url_symbol(bytes[0] % 4 * 16)]
    } else if bytes.len() == 2 {
        seq![
            base64url_symbol(bytes[0] as int / 4),
            base64url_symbol(bytes[0] % 4 * 16 + bytes[1] / 16),
            base64url_symbol(bytes[1] % 16 * 4),
        ]
    } else {
        seq![
            base64url_symbol(bytes[0] as int / 4),
            base64url_symbol(bytes[0] % 4 * 16 + bytes[1] / 16),
            base64url_symbol(bytes[1] % 16 * 4 + bytes[2] / 64),
            base64url_symbol(bytes[2] as int % 64),
        ] + base64url(bytes.skip(3))
    }
}

/// `base64`'s `URL_SAFE_NO_PAD` engine, decoding. Claimed: it gives bytes whose
/// base64url form is the text, and fails only on a text that is the form of none;
/// it takes neither padding nor bits left over at the end.
#[verifier::external_body]
fn decode_base64url(encoded: &str) -> (decoded: Option<Vec<u8>>)
    ensures
        match decoded {
            Some(bytes) => base64url(bytes@) == encoded@,
            None => forall|bytes: Seq<u8>| #[trigger] base64url(bytes) != encoded@,
        },
{
    base64::engine::general_purpose::URL_SAFE_NO_PAD.decode(encoded).ok()
}

/// Different bits have different characters.
proof fn lemma_symbols_differ(a: int, b: int)
    requires
        0 <= a < 64,
        0 <= b < 64,
        base64url_symbol(a) == base64url_symbol(b),
    ensures
        a == b,
{
}

/// How long the base64url form of bytes is.
proof fn lemma_base64url_len(bytes: Seq<u8>)
    ensures
        base64url(bytes).len() == (bytes.len() * 4 + 2) / 3,
    decreases bytes.len(),
{
    if bytes.len() >= 3 {
        lemma_base64url_len(bytes.skip(3));
    }
}

/// Bytes that have the same base64url form are the same: a challenge is read as
/// the bytes that were encoded, and as no others.
pub proof fn law_base64url_stands_for_one(a: Seq<u8>, b: Seq<u8>)
    requires
        base64url(a) == base64url(b),
    ensures
        a == b,
    decreases a.len(),
{
    lemma_base64url_len(a);
    lemma_base64url_len(b);
    assert(a.len() == b.len());
    let text = base64url(a);
    if a.len() == 0 {
        assert(a =~= b);
    } else {
        assert(text[0] == base64url_symbol(a[0] as int / 4));
        assert(text[0] == base64url_symbol(b[0] as int / 4));
        lemma_symbols_differ(a[0] as int / 4, b[0] as int / 4);
        if a.len() == 1 {
            assert(text[1] == base64url_symbol(a[0] % 4 * 16));
            assert(text[1] == base64url_symbol(b[0] % 4 * 16));
            lemma_symbols_differ(a[0] % 4 * 16, b[0] % 4 * 16);
            assert(a =~= b);
        } else {
            assert(text[1] == base64url_symbol(a[0] % 4 * 16 + a[1] / 16));
            assert(text[1] == base64url_symbol(b[0] % 4 * 16 + b[1] / 16));
            lemma_symbols_differ(a[0] % 4 * 16 + a[1] / 16, b[0] % 4 * 16 + b[1] / 16);
            assert(a[0] == b[0]);
            if a.len() == 2 {
                assert(text[2] == base64url_symbol(a[1] % 16 * 4));
                assert(text[2] == base64url_symbol(b[1] % 16 * 4));
                lemma_symbols_differ(a[1] % 16 * 4, b[1] % 16 * 4);
                assert(a =~= b);
            } else {
                assert(text[2] == base64url_symbol(a[1] % 16 * 4 + a[2] / 64));
                assert(text[2] == base64url_symbol(b[1] % 16 * 4 + b[2] / 64));
                lemma_symbols_differ(a[1] % 16 * 4 + a[2] / 64, b[1] % 16 * 4 + b[2] / 64);
                assert(text[3] == base64url_symbol(a[2] as int % 64));
                assert(text[3] == base64url_symbol(b[2] as int % 64));
                lemma_symbols_differ(a[2] as int % 64, b[2] as int % 64);
                assert(a[1] == b[1]);
                assert(a[2] == b[2]);
                assert(text.skip(4) =~= base64url(a.skip(3)));
                assert(text.skip(4) =~= base64url(b.skip(3)));
                law_base64url_stands_for_one(a.skip(3), b.skip(3));
                assert forall|i: int| 0 <= i < a.len() implies a[i] == b[i] by {
                    if i >= 3 {
                        assert(a.skip(3)[i - 3] == a[i]);
                        assert(b.skip(3)[i - 3] == b[i]);
                    }
                }
                assert(a =~= b);
            }
        }
    }
}

/// The challenge that a text is the base64url form of, if it is one.
pub open spec fn challenge_of(value: Seq<char>) -> Option<Seq<u8>> {
    if exists|bytes: Seq<u8>| bytes.len() == CHALLENGE_LENGTH && #[trigger] base64url(bytes) == value {
        Some(
            choose|bytes: Seq<u8>|
                bytes.len() == CHALLENGE_LENGTH && #[trigger] base64url(bytes) == value,
        )
    } else {
        None
    }
}

/// A text is the form of one challenge at most.
pub proof fn law_a_text_holds_one_challenge(value: Seq<char>, bytes: Seq<u8>)
    requires
        bytes.len() == CHALLENGE_LENGTH,
    ensures
        challenge_of(value) == Some(bytes) <==> base64url(bytes) == value,
{
    if base64url(bytes) == value {
        law_base64url_stands_for_one(bytes, challenge_of(value)->Some_0);
    }
}

/// Takes decoded bytes as a challenge, which they are if there are as many as a
/// challenge has.
pub fn challenge_from(decoded: Option<Vec<u8>>) -> (challenge: Result<
    [u8; CHALLENGE_LENGTH],
    WorkerError,
>)
    ensures
        match challenge {
            Ok(bytes) => decoded matches Some(decoded) && bytes@ == decoded@,
            Err(error) => error@ is InvalidEnrollmentChallenge && (decoded matches Some(decoded)
                ==> decoded@.len() != CHALLENGE_LENGTH),
        },
{
    match decoded {
        Some(decoded) => {
            if decoded.len() != CHALLENGE_LENGTH {
                return Err(WorkerError::InvalidEnrollmentChallenge);
            }
            let mut bytes: [u8; CHALLENGE_LENGTH] = [0u8; CHALLENGE_LENGTH];
            let mut i: usize = 0;
            while i < CHALLENGE_LENGTH
                invariant
                    i <= CHALLENGE_LENGTH,
                    decoded@.len() == CHALLENGE_LENGTH,
                    bytes@.len() == CHALLENGE_LENGTH,
                    forall|k: int| 0 <= k < i ==> bytes@[k] == decoded@[k],
                decreases CHALLENGE_LENGTH - i,
            {
                bytes[i] = decoded[i];
                i += 1;
            }
            assert(bytes@ =~= decoded@);
            Ok(bytes)
        },
        None => Err(WorkerError::InvalidEnrollmentChallenge),
    }
}

/// Decodes the text of a challenge.
pub fn decode_challenge(value: &str) -> (challenge: Result<[u8; CHALLENGE_LENGTH], WorkerError>)
    ensures
        match challenge {
            Ok(bytes) => base64url(bytes@) == value@ && challenge_of(value@) == Some(bytes@),
            Err(error) => error@ is InvalidEnrollmentChallenge && challenge_of(value@) is None,
        },
{
    let decoded: Option<Vec<u8>> = decode_base64url(value);
    proof {
        if decoded is Some {
            let found = decoded->Some_0@;
            if let Some(bytes) = challenge_of(value@) {
                law_base64url_stands_for_one(bytes, found);
            }
            if found.len() == CHALLENGE_LENGTH {
                law_a_text_holds_one_challenge(value@, found);
            }
        }
    }
    challenge_from(decoded)
}

/// How an operator asked for this process to be enrolled.
#[derive(Clone, Debug, Eq, PartialEq)]
pub struct EnrollmentPlan {
    /// The challenge, still in base64url.
    pub challenge: String,
    /// This process's own HTTPS endpoint, which the kernel records.
    pub endpoint: String,
    /// The UID of this process's Pod.
    pub pod_uid: String,
    /// Where the workload token is to be read.
    pub token_path: String,
}

/// An [`EnrollmentPlan`] with its texts as character sequences.
pub struct EnrollmentPlanView {
    pub challenge: Seq<char>,
    pub endpoint: Seq<char>,
    pub pod_uid: Seq<char>,
    pub token_path: Seq<char>,
}

impl View for EnrollmentPlan {
    type V = EnrollmentPlanView;

    open spec fn view(&self) -> EnrollmentPlanView {
        EnrollmentPlanView {
            challenge: self.challenge@,
            endpoint: self.endpoint@,
            pod_uid: self.pod_uid@,
            token_path: self.token_path@,
        }
    }
}

/// What is submitted to enroll this process.
#[derive(Clone, Debug, Eq, PartialEq)]
pub struct Enrollment {
    pub challenge: [u8; CHALLENGE_LENGTH],
    pub endpoint: String,
    pub pod_uid: String,
    pub workload_token: String,
}

/// An [`Enrollment`] with its texts as sequences.
pub struct EnrollmentView {
    pub challenge: Seq<u8>,
    pub endpoint: Seq<char>,
    pub pod_uid: Seq<char>,
    pub workload_token: Seq<char>,
}

impl View for Enrollment {
    type V = EnrollmentView;

    open spec fn view(&self) -> EnrollmentView {
        EnrollmentView {
            challenge: self.challenge@,
            endpoint: self.endpoint@,
            pod_uid: self.pod_uid@,
            workload_token: self.workload_token@,
        }
    }
}

impl EnrollmentPlanView {
    /// What is submitted where the token file holds `token_file`. White space around
    /// the token is no part of it.
    pub open spec fn submission(self, token_file: Seq<char>) -> Result<
        EnrollmentView,
        WorkerErrorView,
    > {
        match challenge_of(self.challenge) {
            Some(challenge) => Ok(
                EnrollmentView {
                    challenge,
                    endpoint: self.endpoint,
                    pod_uid: self.pod_uid,
                    workload_token: text::trimmed(token_file),
                },
            ),
            None => Err(WorkerErrorView::InvalidEnrollmentChallenge),
        }
    }
}

impl EnrollmentPlan {
    /// Puts together what is submitted, from what the token file holds.
    pub fn submission(self, token_file: &str) -> (submission: Result<Enrollment, WorkerError>)
        ensures
            error::result_view(submission) == self@.submission(token_file@),
    {
        let workload_token = text::trim(token_file);
        match decode_challenge(self.challenge.as_str()) {
            Ok(challenge) => Ok(
                Enrollment {
                    challenge,
                    endpoint: self.endpoint,
                    pod_uid: self.pod_uid,
                    workload_token,
                },
            ),
            Err(error) => Err(error),
        }
    }
}

/// The characters of base64url, in the order of the bits that they stand for.
pub open spec fn base64url_alphabet() -> Seq<char> {
    "ABCDEFGHIJKLMNOPQRSTUVWXYZabcdefghijklmnopqrstuvwxyz0123456789-_"@
}

/// Six bits have the character of their number in the alphabet.
pub proof fn law_symbols_are_the_alphabet(bits: int)
    requires
        0 <= bits < 64,
    ensures
        base64url_alphabet().len() == 64,
        base64url_symbol(bits) == base64url_alphabet()[bits],
{
    reveal_strlit("ABCDEFGHIJKLMNOPQRSTUVWXYZabcdefghijklmnopqrstuvwxyz0123456789-_");
}

/// Base64url writes the bits of bytes in order, six to a character: three bytes are four
/// characters of the same number, two are three with two bits of zero at the end, and
/// one is two with four. What follows three bytes is written after them.
pub proof fn law_base64url_writes_the_bits(a: u8, b: u8, c: u8, rest: Seq<u8>)
    ensures
        exists|s: int, t: int|
            {
                &&& 0 <= s < 64
                &&& 0 <= t < 64
                &&& s * 64 + t == a * 16
                &&& #[trigger] base64url(seq![a]) == seq![
                    #[trigger] base64url_symbol(s),
                    #[trigger] base64url_symbol(t),
                ]
            },
        exists|s: int, t: int, u: int|
            {
                &&& 0 <= s < 64
                &&& 0 <= t < 64
                &&& 0 <= u < 64
                &&& (s * 64 + t) * 64 + u == (a * 256 + b) * 4
                &&& base64url(seq![a, b]) == seq![
                    #[trigger] base64url_symbol(s),
                    #[trigger] base64url_symbol(t),
                    #[trigger] base64url_symbol(u),
                ]
            },
        exists|s: int, t: int, u: int, v: int|
            {
                &&& 0 <= s < 64
                &&& 0 <= t < 64
                &&& 0 <= u < 64
                &&& 0 <= v < 64
                &&& ((s * 64 + t) * 64 + u) * 64 + v == (a * 256 + b) * 256 + c
                &&& base64url(seq![a, b, c] + rest) == seq![
                    #[trigger] base64url_symbol(s),
                    #[trigger] base64url_symbol(t),
                    #[trigger] base64url_symbol(u),
                    #[trigger] base64url_symbol(v),
                ] + base64url(rest)
            },
        base64url(Seq::empty()).len() == 0,
{
    let one = seq![a];
    let two = seq![a, b];
    let three = seq![a, b, c] + rest;
    let s = a as int / 4;
    assert(base64url(one) =~= seq![base64url_symbol(s), base64url_symbol(a % 4 * 16)]);
    let t = a % 4 * 16 + b / 16;
    assert(base64url(two) =~= seq![
        base64url_symbol(s),
        base64url_symbol(t),
        base64url_symbol(b % 16 * 4),
    ]);
    assert(three.skip(3) =~= rest);
    assert(three[0] == a && three[1] == b && three[2] == c);
    assert(base64url(three) =~= seq![
        base64url_symbol(s),
        base64url_symbol(t),
        base64url_symbol(b % 16 * 4 + c / 64),
        base64url_symbol(c as int % 64),
    ] + base64url(rest));
}

/// A challenge is decoded if and only if the text is the base64url form of one, and then
/// as the bytes that were encoded.
pub proof fn law_a_challenge_is_decoded(
    value: &str,
    challenge: Result<[u8; CHALLENGE_LENGTH], WorkerError>,
)
    requires
        call_ensures(decode_challenge, (value,), challenge),
    ensures
        challenge matches Ok(bytes) ==> bytes@.len() == 32 && value@ == base64url(bytes@),
        challenge matches Err(failure) ==> failure is InvalidEnrollmentChallenge,
        forall|bytes: Seq<u8>|
            bytes.len() == 32 && value@ == #[trigger] base64url(bytes) ==> (
            challenge matches Ok(decoded) && decoded@ == bytes),
{
    assert forall|bytes: Seq<u8>|
        bytes.len() == 32 && value@ == #[trigger] base64url(bytes) implies (
    challenge matches Ok(decoded) && decoded@ == bytes) by {
        law_a_text_holds_one_challenge(value@, bytes);
    }
}

/// Decoded bytes are a challenge if and only if there are 32 of them, and then as they
/// are.
pub proof fn law_a_challenge_has_its_length(
    decoded: Option<Vec<u8>>,
    challenge: Result<[u8; CHALLENGE_LENGTH], WorkerError>,
)
    requires
        call_ensures(challenge_from, (decoded,), challenge),
    ensures
        challenge matches Ok(bytes) ==> (decoded matches Some(decoded) && bytes@ == decoded@),
        challenge is Ok <==> (decoded matches Some(decoded) && decoded@.len() == 32),
        challenge matches Err(failure) ==> failure is InvalidEnrollmentChallenge,
{
}

/// What is submitted is what was planned: the challenge that the plan's text is the form
/// of, the endpoint and the Pod UID as they are, and the token without the white space
/// around it. It fails only for a challenge that is none.
pub proof fn law_what_is_submitted_was_planned(
    plan: EnrollmentPlan,
    token_file: &str,
    token: String,
    submission: Result<Enrollment, WorkerError>,
)
    requires
        call_ensures(EnrollmentPlan::submission, (plan, token_file), submission),
        call_ensures(text::trim, (token_file,), token),
    ensures
        match submission {
            Ok(enrollment) => {
                &&& plan.challenge@ == base64url(enrollment.challenge@)
                &&& enrollment.endpoint@ == plan.endpoint@
                &&& enrollment.pod_uid@ == plan.pod_uid@
                &&& enrollment.workload_token@ == token@
            },
            Err(failure) => {
                &&& failure is InvalidEnrollmentChallenge
                &&& forall|bytes: Seq<u8>|
                    bytes.len() == 32 ==> plan.challenge@ != #[trigger] base64url(bytes)
            },
        },
{
    match submission {
        Ok(enrollment) => {
            law_a_text_holds_one_challenge(plan.challenge@, enrollment.challenge@);
        },
        Err(failure) => {
            assert forall|bytes: Seq<u8>| bytes.len() == 32 implies plan.challenge@
                != #[trigger] base64url(bytes) by {
                law_a_text_holds_one_challenge(plan.challenge@, bytes);
            }
        },
    }
}

}
