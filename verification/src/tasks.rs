use vstd::prelude::*;
use vstd::slice::slice_to_vec;
use crate::identity::Identity;
use crate::signature::{hex_bytes, is_hex_text, parse_signature};

verus! {

/// The scope that a discovery probe asks for.
pub const DISCOVERY_SCOPE: &'static str = "https://www.googleapis.com/auth/peopleapi.readwrite";

/// One probe to make: whom to probe for, what to ask, and the credential to
/// ask with.
#[derive(Debug)]
pub struct ProbeTask {
    pub identity: Identity,
    pub probe_value: String,
    pub auth_credential: String,
}

/// A candidate signature that is not well-formed hexadecimal, by its place
/// in the list of candidates.
#[derive(Clone, Copy, Debug, PartialEq, Eq, Structural)]
pub struct MalformedCandidate {
    pub index: usize,
}

/// Where the pair of row `row` and column `col` stands in a table written
/// out row by row.
pub open spec fn cell(row: int, col: int, width: int) -> int {
    row * width + col
}

/// The identity is the one of this package name and signature text.
pub open spec fn identity_is(id: Identity, package_name: Seq<char>, signature_hex: Seq<char>) -> bool {
    id.package() == package_name && id.signature_text() == signature_hex && id.signature_bytes()
        == hex_bytes(signature_hex)
}

/// The task asks `probe_value` of the identity `of`, with `credential`.
pub open spec fn task_is(
    task: ProbeTask,
    of: Identity,
    probe_value: Seq<char>,
    credential: Seq<char>,
) -> bool {
    task.identity.package() == of.package() && task.identity.signature_text()
        == of.signature_text() && task.identity.signature_bytes() == of.signature_bytes()
        && task.probe_value@ == probe_value && task.auth_credential@ == credential
}

proof fn lemma_cell_in_table(row: int, col: int, rows: int, width: int)
    requires
        0 <= row < rows,
        0 <= col < width,
    ensures
        0 <= cell(row, col, width) < rows * width,
{
    assert(row * width + col < rows * width && 0 <= row * width) by (nonlinear_arith)
        requires
            0 <= row < rows,
            0 <= col < width,
    ;
}

proof fn lemma_next_row(row: int, width: int)
    ensures
        (row + 1) * width == row * width + width,
{
    assert((row + 1) * width == row * width + width) by (nonlinear_arith);
}

fn decode_candidates(signatures: &Vec<String>) -> (r: Result<Vec<Vec<u8>>, MalformedCandidate>)
    ensures
        r.is_ok() == (forall|j: int|
            0 <= j < signatures@.len() ==> is_hex_text(#[trigger] signatures@[j]@)),
        r.is_ok() ==> r.unwrap()@.len() == signatures@.len() && forall|j: int|
            0 <= j < signatures@.len() ==> (#[trigger] r.unwrap()@[j])@ == hex_bytes(
                signatures@[j]@,
            ),
        r.is_err() ==> r.unwrap_err().index < signatures@.len() && !is_hex_text(
            signatures@[r.unwrap_err().index as int]@,
        ) && forall|j: int|
            0 <= j < r.unwrap_err().index ==> is_hex_text(#[trigger] signatures@[j]@),
{
    let m: usize = signatures.len();
    let mut decoded: Vec<Vec<u8>> = Vec::new();
    let mut j: usize = 0;
    while j < m
        invariant
            j <= m,
            m == signatures@.len(),
            decoded@.len() == j,
            forall|k: int| 0 <= k < j ==> is_hex_text(#[trigger] signatures@[k]@),
            forall|k: int| 0 <= k < j ==> (#[trigger] decoded@[k])@ == hex_bytes(signatures@[k]@),
        decreases m - j,
    {
        match parse_signature(signatures[j].as_str()) {
            Ok(bytes) => {
                decoded.push(bytes);
            },
            Err(_) => {
                return Err(MalformedCandidate { index: j });
            },
        }
        j += 1;
    }
    Ok(decoded)
}

/// Pairs every package name with every candidate signature, package by
/// package, the signatures of one package in the order given. One malformed
/// signature refuses the whole list, whatever the packages are; the error
/// names the first such signature.
pub fn discovery_identities(packages: &Vec<String>, signatures: &Vec<String>) -> (r: Result<
    Vec<Identity>,
    MalformedCandidate,
>)
    ensures
        r.is_ok() == (forall|j: int|
            0 <= j < signatures@.len() ==> is_hex_text(#[trigger] signatures@[j]@)),
        r.is_ok() ==> r.unwrap()@.len() == packages@.len() * signatures@.len() && forall|
            i: int,
            j: int,
        |
            #![trigger cell(i, j, signatures@.len() as int)]
            0 <= i < packages@.len() && 0 <= j < signatures@.len() ==> identity_is(
                r.unwrap()@[cell(i, j, signatures@.len() as int)],
                packages@[i]@,
                signatures@[j]@,
            ),
        r.is_err() ==> r.unwrap_err().index < signatures@.len() && !is_hex_text(
            signatures@[r.unwrap_err().index as int]@,
        ) && forall|j: int|
            0 <= j < r.unwrap_err().index ==> is_hex_text(#[trigger] signatures@[j]@),
{
    let decoded = match decode_candidates(signatures) {
        Ok(d) => d,
        Err(e) => {
            return Err(e);
        },
    };
    let n: usize = packages.len();
    let m: usize = signatures.len();
    let mut out: Vec<Identity> = Vec::new();
    let mut i: usize = 0;
    while i < n
        invariant
            i <= n,
            n == packages@.len(),
            m == signatures@.len(),
            decoded@.len() == m,
            forall|k: int| 0 <= k < m ==> is_hex_text(#[trigger] signatures@[k]@),
            forall|k: int| 0 <= k < m ==> (#[trigger] decoded@[k])@ == hex_bytes(signatures@[k]@),
            out@.len() == i * m,
            forall|a: int, b: int|
                #![trigger cell(a, b, m as int)]
                0 <= a < i && 0 <= b < m ==> identity_is(
                    out@[cell(a, b, m as int)],
                    packages@[a]@,
                    signatures@[b]@,
                ),
        decreases n - i,
    {
        let mut j: usize = 0;
        while j < m
            invariant
                i < n,
                j <= m,
                n == packages@.len(),
                m == signatures@.len(),
                decoded@.len() == m,
                forall|k: int| 0 <= k < m ==> is_hex_text(#[trigger] signatures@[k]@),
                forall|k: int|
                    0 <= k < m ==> (#[trigger] decoded@[k])@ == hex_bytes(signatures@[k]@),
                out@.len() == i * m + j,
                forall|a: int, b: int|
                    #![trigger cell(a, b, m as int)]
                    (0 <= a < i && 0 <= b < m) || (a == i && 0 <= b < j) ==> identity_is(
                        out@[cell(a, b, m as int)],
                        packages@[a]@,
                        signatures@[b]@,
                    ),
            decreases m - j,
        {
            let ghost before = out@;
            let id = Identity::from_decoded(
                packages[i].as_str(),
                signatures[j].as_str(),
                slice_to_vec(decoded[j].as_slice()),
            );
            out.push(id);
            proof {
                assert forall|a: int, b: int|
                    #![trigger cell(a, b, m as int)]
                    (0 <= a < i && 0 <= b < m) || (a == i && 0 <= b < j + 1) implies identity_is(
                    out@[cell(a, b, m as int)],
                    packages@[a]@,
                    signatures@[b]@,
                ) by {
                    if a < i {
                        lemma_cell_in_table(a, b, i as int, m as int);
                        assert(out@[cell(a, b, m as int)] == before[cell(a, b, m as int)]);
                    } else if b < j {
                        assert(out@[cell(a, b, m as int)] == before[cell(a, b, m as int)]);
                    }
                }
            }
            j += 1;
        }
        proof {
            lemma_next_row(i as int, m as int);
        }
        i += 1;
    }
    Ok(out)
}

/// Builds one task for every identity and every probe value, identity by
/// identity, the probe values of one identity in the order given.
pub fn enumerate_tasks(identities: &Vec<Identity>, probe_values: &Vec<String>, credential: &str) -> (tasks:
    Vec<ProbeTask>)
    ensures
        tasks@.len() == identities@.len() * probe_values@.len(),
        forall|i: int, j: int|
            #![trigger cell(i, j, probe_values@.len() as int)]
            0 <= i < identities@.len() && 0 <= j < probe_values@.len() ==> task_is(
                tasks@[cell(i, j, probe_values@.len() as int)],
                identities@[i],
                probe_values@[j]@,
                credential@,
            ),
{
    let n: usize = identities.len();
    let m: usize = probe_values.len();
    let mut out: Vec<ProbeTask> = Vec::new();
    let mut i: usize = 0;
    while i < n
        invariant
            i <= n,
            n == identities@.len(),
            m == probe_values@.len(),
            out@.len() == i * m,
            forall|a: int, b: int|
                #![trigger cell(a, b, m as int)]
                0 <= a < i && 0 <= b < m ==> task_is(
                    out@[cell(a, b, m as int)],
                    identities@[a],
                    probe_values@[b]@,
                    credential@,
                ),
        decreases n - i,
    {
        let mut j: usize = 0;
        while j < m
            invariant
                i < n,
                j <= m,
                n == identities@.len(),
                m == probe_values@.len(),
                out@.len() == i * m + j,
                forall|a: int, b: int|
                    #![trigger cell(a, b, m as int)]
                    (0 <= a < i && 0 <= b < m) || (a == i && 0 <= b < j) ==> task_is(
                        out@[cell(a, b, m as int)],
                        identities@[a],
                        probe_values@[b]@,
                        credential@,
                    ),
            decreases m - j,
        {
            let ghost before = out@;
            let task = ProbeTask {
                identity: identities[i].duplicate(),
                probe_value: probe_values[j].clone(),
                auth_credential: credential.to_owned(),
            };
            out.push(task);
            proof {
                assert forall|a: int, b: int|
                    #![trigger cell(a, b, m as int)]
                    (0 <= a < i && 0 <= b < m) || (a == i && 0 <= b < j + 1) implies task_is(
                    out@[cell(a, b, m as int)],
                    identities@[a],
                    probe_values@[b]@,
                    credential@,
                ) by {
                    if a < i {
                        lemma_cell_in_table(a, b, i as int, m as int);
                        assert(out@[cell(a, b, m as int)] == before[cell(a, b, m as int)]);
                    } else if b < j {
                        assert(out@[cell(a, b, m as int)] == before[cell(a, b, m as int)]);
                    }
                }
            }
            j += 1;
        }
        proof {
            lemma_next_row(i as int, m as int);
        }
        i += 1;
    }
    out
}

/// The tasks of a discovery run: one for every package name and candidate
/// signature, each asking for the discovery scope. No task is built when a
/// candidate signature is malformed.
pub fn enumerate_discovery(packages: &Vec<String>, signatures: &Vec<String>, credential: &str) -> (r:
    Result<Vec<ProbeTask>, MalformedCandidate>)
    ensures
        r.is_ok() == (forall|j: int|
            0 <= j < signatures@.len() ==> is_hex_text(#[trigger] signatures@[j]@)),
        r.is_ok() ==> r.unwrap()@.len() == packages@.len() * signatures@.len() && forall|
            i: int,
            j: int,
        |
            #![trigger cell(i, j, signatures@.len() as int)]
            0 <= i < packages@.len() && 0 <= j < signatures@.len() ==> {
                let task = r.unwrap()@[cell(i, j, signatures@.len() as int)];
                identity_is(task.identity, packages@[i]@, signatures@[j]@) && task.probe_value@
                    == DISCOVERY_SCOPE@ && task.auth_credential@ == credential@
            },
        r.is_err() ==> r.unwrap_err().index < signatures@.len() && !is_hex_text(
            signatures@[r.unwrap_err().index as int]@,
        ) && forall|j: int|
            0 <= j < r.unwrap_err().index ==> is_hex_text(#[trigger] signatures@[j]@),
{
    let identities = match discovery_identities(packages, signatures) {
        Ok(ids) => ids,
        Err(e) => {
            return Err(e);
        },
    };
    let mut scope: Vec<String> = Vec::new();
    scope.push(DISCOVERY_SCOPE.to_owned());
    let tasks = enumerate_tasks(&identities, &scope, credential);
    proof {
        let m = signatures@.len() as int;
        assert(tasks@.len() == identities@.len() * 1);
        assert forall|i: int, j: int|
            #![trigger cell(i, j, m)]
            0 <= i < packages@.len() && 0 <= j < m implies {
            let task = tasks@[cell(i, j, m)];
            identity_is(task.identity, packages@[i]@, signatures@[j]@) && task.probe_value@
                == DISCOVERY_SCOPE@ && task.auth_credential@ == credential@
        } by {
            let k = cell(i, j, m);
            lemma_cell_in_table(i, j, packages@.len() as int, m);
            assert(cell(k, 0, 1) == k);
            assert(task_is(tasks@[cell(k, 0, 1)], identities@[k], scope@[0]@, credential@));
            assert(identity_is(identities@[cell(i, j, m)], packages@[i]@, signatures@[j]@));
        }
    }
    Ok(tasks)
}

} // verus!
