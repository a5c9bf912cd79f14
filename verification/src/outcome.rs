use vstd::prelude::*;
use vstd::string::*;

verus! {

/// What one probe established about an identity.
#[derive(Clone, Copy, Debug, PartialEq, Eq, Structural)]
pub enum ProbeOutcome {
    /// The service answered and the answer held no rejection marker.
    Approved,
    /// The service answered with a rejection marker.
    Rejected,
    /// No answer was received within the attempt budget.
    TransientFailure,
}

/// The marker the service sends for a client that is flagged restricted.
pub open spec fn restricted_marker() -> Seq<u8> {
    "Error=RESTRICTED_CLIENT".spec_bytes()
}

/// The marker the service sends for a package and signature pair that is
/// not a registered client.
pub open spec fn unregistered_marker() -> Seq<u8> {
    "Error=UNREGISTERED_ON_API_CONSOLE".spec_bytes()
}

/// `needle` stands in `hay` at offset `at`, byte for byte.
pub open spec fn occurs_at(hay: Seq<u8>, needle: Seq<u8>, at: int) -> bool {
    0 <= at && at + needle.len() <= hay.len() && hay.subrange(at, at + needle.len()) == needle
}

/// `needle` is a contiguous part of `hay`.
pub open spec fn contains_bytes(hay: Seq<u8>, needle: Seq<u8>) -> bool {
    exists|at: int| occurs_at(hay, needle, at)
}

/// A response body carries at least one rejection marker.
pub open spec fn is_rejection(body: Seq<u8>) -> bool {
    contains_bytes(body, restricted_marker()) || contains_bytes(body, unregistered_marker())
}

/// The outcome that a received body stands for: rejected exactly when a
/// marker occurs in it, approved otherwise.
pub open spec fn classify_spec(body: Seq<u8>) -> ProbeOutcome {
    if is_rejection(body) {
        ProbeOutcome::Rejected
    } else {
        ProbeOutcome::Approved
    }
}

fn matches_at(hay: &[u8], needle: &[u8], at: usize) -> (same: bool)
    requires
        at + needle@.len() <= hay@.len(),
    ensures
        same == occurs_at(hay@, needle@, at as int),
{
    let n: usize = hay.len();
    let m: usize = needle.len();
    let mut k: usize = 0;
    while k < m
        invariant
            k <= m,
            m == needle@.len(),
            n == hay@.len(),
            at + m <= n,
            forall|j: int| 0 <= j < k ==> hay@[at + j] == needle@[j],
        decreases m - k,
    {
        if hay[at + k] != needle[k] {
            proof {
                let part = hay@.subrange(at as int, at + m);
                assert(part[k as int] == hay@[at + k]);
            }
            return false;
        }
        k += 1;
    }
    proof {
        assert(hay@.subrange(at as int, at + m) =~= needle@);
    }
    true
}

/// Tells whether `needle` occurs in `hay` as a contiguous run of bytes.
/// The comparison is exact: no case folding, no normalisation.
pub fn contains_marker(hay: &[u8], needle: &[u8]) -> (found: bool)
    ensures
        found == contains_bytes(hay@, needle@),
{
    let n: usize = hay.len();
    let m: usize = needle.len();
    if m > n {
        return false;
    }
    let last: usize = n - m;
    let mut at: usize = 0;
    loop
        invariant
            n == hay@.len(),
            m == needle@.len(),
            last == n - m,
            at <= last,
            forall|k: int| 0 <= k < at ==> !occurs_at(hay@, needle@, k),
        decreases last - at,
    {
        if matches_at(hay, needle, at) {
            return true;
        }
        if at == last {
            return false;
        }
        at += 1;
    }
}

/// Classifies the text of a received response. Every text is either
/// approved or rejected; a transient failure is never the answer to a
/// response that arrived.
pub fn classify(body: &str) -> (outcome: ProbeOutcome)
    ensures
        outcome == classify_spec(body.spec_bytes()),
        outcome != ProbeOutcome::TransientFailure,
{
    let bytes = body.as_bytes();
    if contains_marker(bytes, "Error=RESTRICTED_CLIENT".as_bytes()) {
        ProbeOutcome::Rejected
    } else if contains_marker(bytes, "Error=UNREGISTERED_ON_API_CONSOLE".as_bytes()) {
        ProbeOutcome::Rejected
    } else {
        ProbeOutcome::Approved
    }
}

} // verus!
