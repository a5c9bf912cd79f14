use vstd::prelude::*;
use vstd::string::*;
use vstd::utf8::encode_utf8;
use crate::outcome::{classify, classify_spec, ProbeOutcome};
use crate::tasks::ProbeTask;

verus! {

/// Where every probe is sent.
pub const ENDPOINT: &'static str = "https://android.googleapis.com/auth";

/// The client identifier that every probe carries.
pub const USER_AGENT: &'static str = "GoogleAuth/1.4";

/// The content type of every probe.
pub const CONTENT_TYPE: &'static str = "application/x-www-form-urlencoded";

/// The most requests that are ever sent for one task.
pub const MAX_ATTEMPTS: u32 = 10;

/// The pause between one failed request and the next, in seconds.
pub const RETRY_DELAY_SECS: u64 = 1;

/// The form body of a probe, from the bytes of its four values.
pub open spec fn request_body_spec(
    package_name: Seq<u8>,
    probe_value: Seq<u8>,
    signature_hex: Seq<u8>,
    credential: Seq<u8>,
) -> Seq<u8> {
    "app=".spec_bytes() + package_name + "&service=oauth2:".spec_bytes() + probe_value
        + "&client_sig=".spec_bytes() + signature_hex + "&Token=".spec_bytes() + credential
}

/// Builds the form body of the probe for a task. The values are written as
/// they are, in the order package, scope, signature, credential.
pub fn request_body(task: &ProbeTask) -> (body: Vec<u8>)
    ensures
        body@ == request_body_spec(
            encode_utf8(task.identity.package()),
            encode_utf8(task.probe_value@),
            encode_utf8(task.identity.signature_text()),
            encode_utf8(task.auth_credential@),
        ),
{
    let mut body: Vec<u8> = Vec::new();
    body.extend_from_slice("app=".as_bytes());
    body.extend_from_slice(task.identity.package_name().as_str().as_bytes());
    body.extend_from_slice("&service=oauth2:".as_bytes());
    body.extend_from_slice(task.probe_value.as_str().as_bytes());
    body.extend_from_slice("&client_sig=".as_bytes());
    body.extend_from_slice(task.identity.signature_hex().as_str().as_bytes());
    body.extend_from_slice("&Token=".as_bytes());
    body.extend_from_slice(task.auth_credential.as_str().as_bytes());
    proof {
        assert(body@ =~= request_body_spec(
            encode_utf8(task.identity.package()),
            encode_utf8(task.probe_value@),
            encode_utf8(task.identity.signature_text()),
            encode_utf8(task.auth_credential@),
        ));
    }
    body
}

/// How one request ended.
#[derive(Debug)]
pub enum Attempt {
    /// A response arrived; this is its text.
    Answered(String),
    /// The request failed in transport: no response arrived.
    Failed,
}

impl Attempt {
    /// The bytes of the response, where one arrived.
    pub open spec fn answer(&self) -> Option<Seq<u8>> {
        match self {
            Attempt::Answered(text) => Some(encode_utf8(text@)),
            Attempt::Failed => None,
        }
    }
}

/// What to do after a request has ended.
#[derive(Clone, Copy, Debug, PartialEq, Eq, Structural)]
pub enum Decision {
    /// Wait for this many seconds, then send the request again.
    Retry { delay_secs: u64 },
    /// The task is done, with this outcome.
    Finish(ProbeOutcome),
}

/// The decision after the request numbered `attempts_made` (counting from
/// one) has ended with `answer`. A response ends the task whatever it says;
/// a transport failure is retried while the budget lasts.
pub open spec fn decide(attempts_made: nat, answer: Option<Seq<u8>>) -> Decision {
    match answer {
        Some(body) => Decision::Finish(classify_spec(body)),
        None => if attempts_made < MAX_ATTEMPTS {
            Decision::Retry { delay_secs: RETRY_DELAY_SECS }
        } else {
            Decision::Finish(ProbeOutcome::TransientFailure)
        },
    }
}

/// Decides what follows a request: `attempts_made` counts the requests sent
/// for the probe so far, the one that just ended included.
pub fn after_attempt(attempts_made: u32, attempt: &Attempt) -> (decision: Decision)
    ensures
        decision == decide(attempts_made as nat, attempt.answer()),
{
    match attempt {
        Attempt::Answered(text) => Decision::Finish(classify(text.as_str())),
        Attempt::Failed => {
            if attempts_made < MAX_ATTEMPTS {
                Decision::Retry { delay_secs: RETRY_DELAY_SECS }
            } else {
                Decision::Finish(ProbeOutcome::TransientFailure)
            }
        },
    }
}

/// A task's run from the point where `made` requests have been sent and all
/// of them failed: `supply(k)` is how request `k + 1` ends. The result is
/// the outcome and the number of requests sent in all.
pub open spec fn probe_run(supply: spec_fn(nat) -> Option<Seq<u8>>, made: nat) -> (
    ProbeOutcome,
    nat,
)
    decreases MAX_ATTEMPTS - made,
{
    match decide(made + 1, supply(made)) {
        Decision::Finish(outcome) => (outcome, made + 1),
        Decision::Retry { .. } => probe_run(supply, made + 1),
    }
}

/// The first `count` requests all fail in transport.
pub open spec fn all_fail(supply: spec_fn(nat) -> Option<Seq<u8>>, count: nat) -> bool {
    forall|k: nat| k < count ==> (#[trigger] supply(k)).is_none()
}

proof fn lemma_probe_run_from(supply: spec_fn(nat) -> Option<Seq<u8>>, made: nat)
    requires
        made < MAX_ATTEMPTS,
        all_fail(supply, made),
    ensures
        made < probe_run(supply, made).1 <= MAX_ATTEMPTS,
        all_fail(supply, MAX_ATTEMPTS as nat) <==> probe_run(supply, made).0
            == ProbeOutcome::TransientFailure,
        all_fail(supply, MAX_ATTEMPTS as nat) ==> probe_run(supply, made).1 == MAX_ATTEMPTS,
        !all_fail(supply, MAX_ATTEMPTS as nat) ==> {
            let sent = probe_run(supply, made).1;
            all_fail(supply, (sent - 1) as nat) && supply((sent - 1) as nat).is_some()
                && probe_run(supply, made).0 == classify_spec(
                supply((sent - 1) as nat).unwrap(),
            )
        },
    decreases MAX_ATTEMPTS - made,
{
    match supply(made) {
        Some(body) => {
            assert(!all_fail(supply, MAX_ATTEMPTS as nat));
        },
        None => {
            if made + 1 < MAX_ATTEMPTS {
                assert(all_fail(supply, made + 1)) by {
                    assert forall|k: nat| k < made + 1 implies (#[trigger] supply(k)).is_none() by {
                        if k < made {
                        }
                    }
                }
                lemma_probe_run_from(supply, made + 1);
            } else {
                assert(all_fail(supply, MAX_ATTEMPTS as nat)) by {
                    assert forall|k: nat| k < MAX_ATTEMPTS implies (#[trigger] supply(k)).is_none() by {
                        if k < made {
                        }
                    }
                }
            }
        },
    }
}

/// However the requests of a task end, the task is done after at least one
/// and at most ten of them. It ends as a transient failure exactly when ten
/// requests in a row fail in transport; otherwise it ends with the first
/// response, classified, and no request follows that response.
pub proof fn lemma_probe_terminates(supply: spec_fn(nat) -> Option<Seq<u8>>)
    ensures
        1 <= probe_run(supply, 0).1 <= MAX_ATTEMPTS,
        all_fail(supply, MAX_ATTEMPTS as nat) <==> probe_run(supply, 0).0
            == ProbeOutcome::TransientFailure,
        all_fail(supply, MAX_ATTEMPTS as nat) ==> probe_run(supply, 0).1 == MAX_ATTEMPTS,
        !all_fail(supply, MAX_ATTEMPTS as nat) ==> {
            let sent = probe_run(supply, 0).1;
            all_fail(supply, (sent - 1) as nat) && supply((sent - 1) as nat).is_some()
                && probe_run(supply, 0).0 == classify_spec(supply((sent - 1) as nat).unwrap())
        },
{
    lemma_probe_run_from(supply, 0);
}

} // verus!
