use vstd::prelude::*;
use vstd::multiset::Multiset;
use vstd::slice::slice_to_vec;
use vstd::utf8::encode_utf8;
use crate::identity::{same_bytes, Identity, IdentityKey};
use crate::outcome::ProbeOutcome;
use crate::tasks::ProbeTask;
use crate::token::{generate_spatula, token_of};

verus! {

/// One approval as a value: the package name, the signature bytes and the
/// probe value that was approved for them.
pub type ApprovalKey = (Seq<char>, Seq<u8>, Seq<char>);

/// One approved probe, as a worker notes it.
#[derive(Debug)]
pub struct Approval {
    pub identity: Identity,
    pub probe_value: String,
}

impl Approval {
    /// The approval as a value.
    pub open spec fn key(&self) -> ApprovalKey {
        (self.identity.package(), self.identity.signature_bytes(), self.probe_value@)
    }
}

/// What one worker has gathered: its approvals, in the order in which it
/// made them.
#[derive(Debug)]
pub struct WorkerPartial {
    pub entries: Vec<Approval>,
}

impl View for WorkerPartial {
    type V = Seq<ApprovalKey>;

    open spec fn view(&self) -> Seq<ApprovalKey> {
        Seq::new(self.entries@.len(), |i: int| self.entries@[i].key())
    }
}

impl WorkerPartial {
    /// A worker that has gathered nothing yet.
    pub fn new() -> (partial: WorkerPartial)
        ensures
            partial@ == Seq::<ApprovalKey>::empty(),
    {
        let partial = WorkerPartial { entries: Vec::new() };
        proof {
            assert(partial@ =~= Seq::<ApprovalKey>::empty());
        }
        partial
    }

    /// Notes the outcome of a task: an approval is appended, any other
    /// outcome leaves the worker's list as it was.
    pub fn record(&mut self, task: &ProbeTask, outcome: ProbeOutcome)
        ensures
            outcome == ProbeOutcome::Approved ==> final(self)@ == old(self)@.push(
                (task.identity.package(), task.identity.signature_bytes(), task.probe_value@),
            ),
            outcome != ProbeOutcome::Approved ==> final(self)@ == old(self)@,
    {
        match outcome {
            ProbeOutcome::Approved => {
                let ghost before = self@;
                let entry = Approval {
                    identity: task.identity.duplicate(),
                    probe_value: task.probe_value.clone(),
                };
                self.entries.push(entry);
                proof {
                    assert(self@ =~= before.push(
                        (task.identity.package(), task.identity.signature_bytes(), task.probe_value@),
                    ));
                }
            },
            _ => {},
        }
    }
}

/// What is known of one identity at the end of a run.
#[derive(Debug)]
pub struct AggregatedRecord {
    pub package_name: String,
    pub signature: Vec<u8>,
    pub token: Option<Vec<u8>>,
    pub approved_values: Vec<String>,
}

impl AggregatedRecord {
    /// The identity that the record is about.
    pub open spec fn key(&self) -> IdentityKey {
        (self.package_name@, self.signature@)
    }

    /// The value is among the approved values of the record.
    pub open spec fn holds(&self, value: Seq<char>) -> bool {
        exists|j: int|
            0 <= j < self.approved_values@.len() && (#[trigger] self.approved_values@[j])@ == value
    }

    /// The record is about the identity of the approval, and holds its value.
    pub open spec fn has(&self, approval: ApprovalKey) -> bool {
        self.key() == (approval.0, approval.1) && self.holds(approval.2)
    }

    /// The record holds at least one value and none twice, and carries the
    /// token of its identity exactly when tokens are minted.
    pub open spec fn wf(&self, mint_tokens: bool) -> bool {
        &&& self.approved_values@.len() > 0
        &&& forall|a: int, b: int|
            0 <= a < b < self.approved_values@.len() ==> (#[trigger] self.approved_values@[a])@
                != (#[trigger] self.approved_values@[b])@
        &&& mint_tokens ==> self.token.is_some() && self.token.unwrap()@ == token_of(
            encode_utf8(self.package_name@),
            self.signature@,
        )
        &&& !mint_tokens ==> self.token.is_none()
    }

    /// Tells whether the value is among the approved values.
    pub fn contains(&self, value: &String) -> (found: bool)
        ensures
            found == self.holds(value@),
    {
        let n: usize = self.approved_values.len();
        let mut j: usize = 0;
        while j < n
            invariant
                j <= n,
                n == self.approved_values@.len(),
                forall|k: int| 0 <= k < j ==> (#[trigger] self.approved_values@[k])@ != value@,
            decreases n - j,
        {
            if self.approved_values[j] == *value {
                return true;
            }
            j += 1;
        }
        false
    }
}

/// What an identity's record says, as a value.
pub struct RecordView {
    pub token: Option<Seq<u8>>,
    pub approved_values: Set<Seq<char>>,
}

/// The final mapping that a set of approvals stands for: an identity has an
/// entry exactly when something was approved for it, and the entry holds
/// all that was.
pub open spec fn mapping_of(approvals: Set<ApprovalKey>, mint_tokens: bool) -> Map<
    IdentityKey,
    RecordView,
> {
    Map::new(
        |k: IdentityKey| exists|v: Seq<char>| approvals.contains((k.0, k.1, v)),
        |k: IdentityKey|
            RecordView {
                token: if mint_tokens {
                    Some(token_of(encode_utf8(k.0), k.1))
                } else {
                    None
                },
                approved_values: Set::new(|v: Seq<char>| approvals.contains((k.0, k.1, v))),
            },
    )
}

/// The approvals after a worker's list has been merged into `acc`.
pub open spec fn merged(acc: Set<ApprovalKey>, partial: Seq<ApprovalKey>) -> Set<ApprovalKey> {
    acc.union(partial.to_set())
}

/// The approvals after the workers' lists have been merged one after the
/// other, starting from nothing.
pub open spec fn aggregated(partials: Seq<Seq<ApprovalKey>>) -> Set<ApprovalKey>
    decreases partials.len(),
{
    if partials.len() == 0 {
        Set::empty()
    } else {
        merged(aggregated(partials.drop_last()), partials.last())
    }
}

/// Some worker's list holds the approval.
pub open spec fn occurs(partials: Seq<Seq<ApprovalKey>>, t: ApprovalKey) -> bool {
    exists|w: int, i: int|
        0 <= w < partials.len() && 0 <= i < partials[w].len() && #[trigger] partials[w][i] == t
}

/// The workers' lists as values.
pub open spec fn views_of(partials: Seq<WorkerPartial>) -> Seq<Seq<ApprovalKey>> {
    Seq::new(partials.len(), |w: int| partials[w]@)
}

/// Aggregation gathers exactly the approvals that some worker's list holds.
pub proof fn lemma_aggregated_is_union(partials: Seq<Seq<ApprovalKey>>)
    ensures
        forall|t: ApprovalKey| aggregated(partials).contains(t) <==> occurs(partials, t),
    decreases partials.len(),
{
    if partials.len() > 0 {
        let front = partials.drop_last();
        let last = partials.last();
        lemma_aggregated_is_union(front);
        assert forall|t: ApprovalKey| aggregated(partials).contains(t) <==> occurs(
            partials,
            t,
        ) by {
            if occurs(front, t) {
                let (w, i) = choose|w: int, i: int|
                    0 <= w < front.len() && 0 <= i < front[w].len() && #[trigger] front[w][i] == t;
                assert(partials[w][i] == t);
            }
            if last.to_set().contains(t) {
                let i = choose|i: int| 0 <= i < last.len() && last[i] == t;
                assert(partials[partials.len() - 1][i] == t);
            }
            if occurs(partials, t) {
                let (w, i) = choose|w: int, i: int|
                    0 <= w < partials.len() && 0 <= i < partials[w].len()
                        && #[trigger] partials[w][i] == t;
                if w < front.len() {
                    assert(front[w][i] == t);
                } else {
                    assert(last[i] == t);
                    assert(last.contains(t));
                }
            }
        }
    }
}

/// Order-independence: two deliveries that hand the workers the same
/// approvals, split among the workers and ordered within each list in
/// whatever way, aggregate to the same approvals and to the same final
/// mapping.
pub proof fn lemma_aggregation_order_independent(
    first: Seq<Seq<ApprovalKey>>,
    second: Seq<Seq<ApprovalKey>>,
    mint_tokens: bool,
)
    requires
        forall|t: ApprovalKey| occurs(first, t) <==> occurs(second, t),
    ensures
        aggregated(first) == aggregated(second),
        mapping_of(aggregated(first), mint_tokens) == mapping_of(aggregated(second), mint_tokens),
{
    lemma_aggregated_is_union(first);
    lemma_aggregated_is_union(second);
    assert forall|t: ApprovalKey| aggregated(first).contains(t) <==> aggregated(second).contains(
        t,
    ) by {
        assert(aggregated(first).contains(t) <==> occurs(first, t));
        assert(aggregated(second).contains(t) <==> occurs(second, t));
    }
    assert(aggregated(first) =~= aggregated(second));
}

/// All that was handed to the workers, each approval as often as it was
/// noted, whoever noted it and in whatever place of a list.
pub open spec fn delivered(partials: Seq<Seq<ApprovalKey>>) -> Multiset<ApprovalKey>
    decreases partials.len(),
{
    if partials.len() == 0 {
        Multiset::empty()
    } else {
        delivered(partials.drop_last()).add(partials.last().to_multiset())
    }
}

proof fn lemma_delivered_is_occurs(partials: Seq<Seq<ApprovalKey>>, t: ApprovalKey)
    ensures
        delivered(partials).count(t) > 0 <==> occurs(partials, t),
    decreases partials.len(),
{
    if partials.len() > 0 {
        let front = partials.drop_last();
        let last = partials.last();
        lemma_delivered_is_occurs(front, t);
        vstd::seq_lib::to_multiset_contains(last, t);
        if occurs(front, t) {
            let (w, i) = choose|w: int, i: int|
                0 <= w < front.len() && 0 <= i < front[w].len() && #[trigger] front[w][i] == t;
            assert(partials[w][i] == t);
        }
        if last.contains(t) {
            let i = choose|i: int| 0 <= i < last.len() && last[i] == t;
            assert(partials[partials.len() - 1][i] == t);
        }
        if occurs(partials, t) {
            let (w, i) = choose|w: int, i: int|
                0 <= w < partials.len() && 0 <= i < partials[w].len() && #[trigger] partials[w][i]
                    == t;
            if w < front.len() {
                assert(front[w][i] == t);
            } else {
                assert(last[i] == t);
                assert(last.contains(t));
            }
        }
    }
}

/// Order-independence under permutation: when the same approvals are
/// delivered, each as often, but to other workers and in another order, the
/// final mapping is the same.
pub proof fn lemma_aggregation_permutation_independent(
    first: Seq<Seq<ApprovalKey>>,
    second: Seq<Seq<ApprovalKey>>,
    mint_tokens: bool,
)
    requires
        delivered(first) == delivered(second),
    ensures
        aggregated(first) == aggregated(second),
        mapping_of(aggregated(first), mint_tokens) == mapping_of(aggregated(second), mint_tokens),
{
    assert forall|t: ApprovalKey| occurs(first, t) <==> occurs(second, t) by {
        lemma_delivered_is_occurs(first, t);
        lemma_delivered_is_occurs(second, t);
    }
    lemma_aggregation_order_independent(first, second, mint_tokens);
}

/// Idempotent merge: merging a worker's list a second time changes neither
/// the approvals nor the final mapping.
pub proof fn lemma_merge_idempotent(
    acc: Set<ApprovalKey>,
    partial: Seq<ApprovalKey>,
    mint_tokens: bool,
)
    ensures
        merged(merged(acc, partial), partial) == merged(acc, partial),
        mapping_of(merged(merged(acc, partial), partial), mint_tokens) == mapping_of(
            merged(acc, partial),
            mint_tokens,
        ),
{
    assert(merged(merged(acc, partial), partial) =~= merged(acc, partial));
}

/// Commutative merge: two workers' lists may be merged in either order.
pub proof fn lemma_merge_commutes(
    acc: Set<ApprovalKey>,
    one: Seq<ApprovalKey>,
    other: Seq<ApprovalKey>,
)
    ensures
        merged(merged(acc, one), other) == merged(merged(acc, other), one),
{
    assert(merged(merged(acc, one), other) =~= merged(merged(acc, other), one));
}

/// Every record is well-formed and no two records are about the same
/// identity.
pub open spec fn records_wf(records: Seq<AggregatedRecord>, mint_tokens: bool) -> bool {
    &&& forall|i: int| 0 <= i < records.len() ==> (#[trigger] records[i]).wf(mint_tokens)
    &&& forall|a: int, b: int|
        0 <= a < b < records.len() ==> (#[trigger] records[a]).key() != (#[trigger] records[b]).key()
}

/// Every approval that the records hold.
pub open spec fn approvals_of(records: Seq<AggregatedRecord>) -> Set<ApprovalKey> {
    Set::new(|t: ApprovalKey| exists|i: int| 0 <= i < records.len() && (#[trigger] records[i]).has(t))
}

fn find_record(records: &Vec<AggregatedRecord>, package_name: &String, signature: &[u8]) -> (at:
    Option<usize>)
    ensures
        at.is_some() ==> at.unwrap() < records@.len() && records@[at.unwrap() as int].key() == (
            package_name@,
            signature@,
        ),
        at.is_none() ==> forall|i: int|
            0 <= i < records@.len() ==> (#[trigger] records@[i]).key() != (
                package_name@,
                signature@,
            ),
{
    let n: usize = records.len();
    let mut i: usize = 0;
    while i < n
        invariant
            i <= n,
            n == records@.len(),
            forall|k: int|
                0 <= k < i ==> (#[trigger] records@[k]).key() != (package_name@, signature@),
        decreases n - i,
    {
        if records[i].package_name == *package_name && same_bytes(
            records[i].signature.as_slice(),
            signature,
        ) {
            return Some(i);
        }
        i += 1;
    }
    None
}

fn insert_value(
    records: &mut Vec<AggregatedRecord>,
    mint_tokens: bool,
    package_name: &String,
    signature: &[u8],
    value: &String,
)
    requires
        records_wf(old(records)@, mint_tokens),
    ensures
        records_wf(final(records)@, mint_tokens),
        approvals_of(final(records)@) == approvals_of(old(records)@).insert(
            (package_name@, signature@, value@),
        ),
{
    let ghost before = records@;
    let ghost t: ApprovalKey = (package_name@, signature@, value@);
    match find_record(records, package_name, signature) {
        Some(i) => {
            if records[i].contains(value) {
                proof {
                    assert(records@[i as int].has(t));
                    assert(approvals_of(records@) =~= approvals_of(records@).insert(t));
                }
            } else {
                let mut rec = records.remove(i);
                let ghost old_rec = rec;
                rec.approved_values.push(value.clone());
                let ghost new_rec = rec;
                records.insert(i, rec);
                proof {
                    assert(records@ =~= before.update(i as int, new_rec));
                    assert(new_rec.key() == old_rec.key());
                    assert(new_rec.approved_values@ == old_rec.approved_values@.push(
                        new_rec.approved_values@[old_rec.approved_values@.len() as int],
                    ));
                    assert(new_rec.wf(mint_tokens));
                    assert forall|k: int| 0 <= k < records@.len() implies (
                    #[trigger] records@[k]).wf(mint_tokens) by {
                        if k != i {
                            assert(records@[k] == before[k]);
                        }
                    }
                    assert forall|a: int, b: int|
                        0 <= a < b < records@.len() implies (
                    #[trigger] records@[a]).key() != (#[trigger] records@[b]).key() by {
                        assert(records@[a].key() == before[a].key());
                        assert(records@[b].key() == before[b].key());
                    }
                    assert forall|x: ApprovalKey|
                        approvals_of(records@).contains(x) <==> approvals_of(before).insert(
                            t,
                        ).contains(x) by {
                        if approvals_of(records@).contains(x) {
                            let k = choose|k: int|
                                0 <= k < records@.len() && (#[trigger] records@[k]).has(
                                    x,
                                );
                            if k != i {
                                assert(before[k].has(x));
                            } else {
                                let j = choose|j: int|
                                    0 <= j < new_rec.approved_values@.len() && (
                                    #[trigger] new_rec.approved_values@[j])@ == x.2;
                                if j < old_rec.approved_values@.len() {
                                    assert(old_rec.approved_values@[j]@ == x.2);
                                    assert(before[i as int].has(x));
                                } else {
                                    assert(x == t);
                                }
                            }
                        }
                        if approvals_of(before).contains(x) {
                            let k = choose|k: int|
                                0 <= k < before.len() && (#[trigger] before[k]).has(x);
                            if k != i {
                                assert(records@[k].has(x));
                            } else {
                                let j = choose|j: int|
                                    0 <= j < old_rec.approved_values@.len() && (
                                    #[trigger] old_rec.approved_values@[j])@ == x.2;
                                assert(new_rec.approved_values@[j]@ == x.2);
                                assert(records@[i as int].has(x));
                            }
                        }
                        if x == t {
                            let j = old_rec.approved_values@.len() as int;
                            assert(new_rec.approved_values@[j]@ == t.2);
                            assert(records@[i as int].has(x));
                        }
                    }
                    assert(approvals_of(records@) =~= approvals_of(before).insert(t));
                }
            }
        },
        None => {
            let token = if mint_tokens {
                Some(
                    generate_spatula(
                        package_name.as_str(),
                        signature,
                    ),
                )
            } else {
                None
            };
            let mut values: Vec<String> = Vec::new();
            values.push(value.clone());
            let rec = AggregatedRecord {
                package_name: package_name.clone(),
                signature: slice_to_vec(signature),
                token,
                approved_values: values,
            };
            let ghost new_rec = rec;
            records.push(rec);
            proof {
                let n = before.len() as int;
                assert(new_rec.approved_values@[0]@ == t.2);
                assert(new_rec.wf(mint_tokens));
                assert forall|k: int| 0 <= k < records@.len() implies (
                #[trigger] records@[k]).wf(mint_tokens) by {
                    if k < n {
                        assert(records@[k] == before[k]);
                    }
                }
                assert forall|a: int, b: int|
                    0 <= a < b < records@.len() implies (
                #[trigger] records@[a]).key() != (#[trigger] records@[b]).key() by {
                    assert(records@[a] == before[a]);
                    if b < n {
                        assert(records@[b] == before[b]);
                    }
                }
                assert forall|x: ApprovalKey|
                    approvals_of(records@).contains(x) <==> approvals_of(before).insert(t).contains(
                        x,
                    ) by {
                    if approvals_of(records@).contains(x) {
                        let k = choose|k: int|
                            0 <= k < records@.len() && (#[trigger] records@[k]).has(x);
                        if k < n {
                            assert(before[k].has(x));
                        } else {
                            let j = choose|j: int|
                                0 <= j < new_rec.approved_values@.len() && (
                                #[trigger] new_rec.approved_values@[j])@ == x.2;
                            assert(x == t);
                        }
                    }
                    if approvals_of(before).contains(x) {
                        let k = choose|k: int|
                            0 <= k < before.len() && (#[trigger] before[k]).has(x);
                        assert(records@[k].has(x));
                    }
                    if x == t {
                        assert(records@[n].has(x));
                    }
                }
                assert(approvals_of(records@) =~= approvals_of(before).insert(t));
            }
        },
    }
}

/// The records are the final mapping: every record is the entry of its
/// identity, with the same values and the same token, and every entry has
/// its record.
pub proof fn lemma_records_are_the_mapping(records: Seq<AggregatedRecord>, mint_tokens: bool)
    requires
        records_wf(records, mint_tokens),
    ensures
        forall|i: int|
            0 <= i < records.len() ==> {
                let rec = #[trigger] records[i];
                let entry = mapping_of(approvals_of(records), mint_tokens)[rec.key()];
                mapping_of(approvals_of(records), mint_tokens).dom().contains(rec.key())
                    && entry.approved_values == Set::new(|v: Seq<char>| rec.holds(v)) && (
                entry.token.is_some() <==> rec.token.is_some()) && (rec.token.is_some()
                    ==> entry.token.unwrap() == rec.token.unwrap()@)
            },
        forall|k: IdentityKey|
            mapping_of(approvals_of(records), mint_tokens).dom().contains(k) ==> exists|i: int|
                0 <= i < records.len() && (#[trigger] records[i]).key() == k,
{
    let approvals = approvals_of(records);
    let mapping = mapping_of(approvals, mint_tokens);
    assert forall|i: int| 0 <= i < records.len() implies {
        let rec = #[trigger] records[i];
        let entry = mapping[rec.key()];
        mapping.dom().contains(rec.key()) && entry.approved_values == Set::new(
            |v: Seq<char>| rec.holds(v),
        ) && (entry.token.is_some() <==> rec.token.is_some()) && (rec.token.is_some()
            ==> entry.token.unwrap() == rec.token.unwrap()@)
    } by {
        let rec = records[i];
        let k = rec.key();
        assert(rec.wf(mint_tokens));
        let v0 = rec.approved_values@[0]@;
        assert(rec.has((k.0, k.1, v0)));
        assert(approvals.contains((k.0, k.1, v0)));
        assert forall|v: Seq<char>| approvals.contains((k.0, k.1, v)) <==> rec.holds(v) by {
            if approvals.contains((k.0, k.1, v)) {
                let j = choose|j: int|
                    0 <= j < records.len() && (#[trigger] records[j]).has((k.0, k.1, v));
                assert(records[j].key() == k);
                assert(j == i);
            }
            if rec.holds(v) {
                assert(rec.has((k.0, k.1, v)));
            }
        }
        assert(mapping[k].approved_values =~= Set::new(|v: Seq<char>| rec.holds(v)));
    }
    assert forall|k: IdentityKey| mapping.dom().contains(k) implies exists|i: int|
        0 <= i < records.len() && (#[trigger] records[i]).key() == k by {
        let v = choose|v: Seq<char>| approvals.contains((k.0, k.1, v));
        let i = choose|i: int| 0 <= i < records.len() && (#[trigger] records[i]).has((k.0, k.1, v));
        assert(records[i].key() == k);
    }
}

/// The records of a run, one for each identity with at least one approval.
/// The records are always well-formed, and no two of them are about the
/// same identity.
#[derive(Debug)]
pub struct Aggregator {
    records: Vec<AggregatedRecord>,
    mint_tokens: bool,
}

impl View for Aggregator {
    type V = Map<IdentityKey, RecordView>;

    /// The final mapping: what the approvals gathered so far stand for.
    open spec fn view(&self) -> Map<IdentityKey, RecordView> {
        mapping_of(self.approvals(), self.mints_tokens())
    }
}

impl Aggregator {
    #[verifier::type_invariant]
    spec fn well_formed(self) -> bool {
        records_wf(self.records@, self.mint_tokens)
    }

    /// The records, one for each identity with at least one approval.
    pub closed spec fn records_view(&self) -> Seq<AggregatedRecord> {
        self.records@
    }

    /// Whether every record carries the token of its identity.
    pub closed spec fn mints_tokens(&self) -> bool {
        self.mint_tokens
    }

    /// Every approval gathered so far.
    pub open spec fn approvals(&self) -> Set<ApprovalKey> {
        approvals_of(self.records_view())
    }

    /// An aggregator without records. With `mint_tokens` every record that
    /// is made later carries the token of its identity.
    pub fn new(mint_tokens: bool) -> (agg: Aggregator)
        ensures
            agg.mints_tokens() == mint_tokens,
            agg.records_view() == Seq::<AggregatedRecord>::empty(),
            agg.approvals() == Set::<ApprovalKey>::empty(),
    {
        let agg = Aggregator { records: Vec::new(), mint_tokens };
        proof {
            assert(agg.records_view() =~= Seq::<AggregatedRecord>::empty());
            assert(agg.approvals() =~= Set::<ApprovalKey>::empty());
        }
        agg
    }

    /// Whether every record carries the token of its identity.
    pub fn mint_tokens(&self) -> (mint: bool)
        ensures
            mint == self.mints_tokens(),
    {
        self.mint_tokens
    }

    /// The records: well-formed, and one for each identity.
    pub fn records(&self) -> (records: &Vec<AggregatedRecord>)
        ensures
            records@ == self.records_view(),
            records_wf(records@, self.mints_tokens()),
    {
        proof {
            use_type_invariant(self);
        }
        &self.records
    }

    /// Gives the records away: well-formed, and one for each identity.
    pub fn into_records(self) -> (records: Vec<AggregatedRecord>)
        ensures
            records@ == self.records_view(),
            records_wf(records@, self.mints_tokens()),
    {
        proof {
            use_type_invariant(&self);
        }
        self.records
    }

    /// The place of the record of an identity, if there is one.
    pub fn position(&self, package_name: &String, signature: &[u8]) -> (at: Option<usize>)
        ensures
            at.is_some() ==> at.unwrap() < self.records_view().len() && self.records_view()[at.unwrap() as int].key()
                == (package_name@, signature@),
            at.is_none() ==> forall|i: int|
                0 <= i < self.records_view().len() ==> (#[trigger] self.records_view()[i]).key()
                    != (package_name@, signature@),
            at.is_some() <==> exists|v: Seq<char>|
                self.approvals().contains((package_name@, signature@, v)),
    {
        proof {
            use_type_invariant(self);
            lemma_records_are_the_mapping(self.records@, self.mint_tokens);
        }
        let at = find_record(&self.records, package_name, signature);
        proof {
            let k: IdentityKey = (package_name@, signature@);
            if at.is_some() {
                assert(self@.dom().contains(self.records@[at.unwrap() as int].key()));
            }
            if exists|v: Seq<char>| self.approvals().contains((package_name@, signature@, v)) {
                assert(self@.dom().contains(k));
            }
        }
        at
    }

    /// Adds one approval. A value that the identity's record already holds
    /// changes nothing; an identity without a record gets one.
    pub fn insert(&mut self, approval: &Approval)
        ensures
            final(self).mints_tokens() == old(self).mints_tokens(),
            final(self).approvals() == old(self).approvals().insert(approval.key()),
    {
        proof {
            use_type_invariant(&*self);
        }
        let mut records: Vec<AggregatedRecord> = Vec::new();
        std::mem::swap(&mut records, &mut self.records);
        insert_value(
            &mut records,
            self.mint_tokens,
            approval.identity.package_name(),
            approval.identity.signature().as_slice(),
            &approval.probe_value,
        );
        self.records = records;
    }

    /// Merges what one worker has gathered: the approvals afterwards are
    /// those from before together with the worker's, each once.
    pub fn merge(&mut self, partial: &WorkerPartial)
        ensures
            final(self).mints_tokens() == old(self).mints_tokens(),
            final(self).approvals() == merged(old(self).approvals(), partial@),
    {
        let n: usize = partial.entries.len();
        let mut i: usize = 0;
        while i < n
            invariant
                i <= n,
                n == partial.entries@.len(),
                self.mints_tokens() == old(self).mints_tokens(),
                forall|x: ApprovalKey|
                    self.approvals().contains(x) <==> old(self).approvals().contains(x) || exists|
                        k: int,
                    |
                        0 <= k < i && #[trigger] partial@[k] == x,
            decreases n - i,
        {
            let ghost prev = self.approvals();
            self.insert(&partial.entries[i]);
            proof {
                assert(partial@[i as int] == partial.entries@[i as int].key());
                assert forall|x: ApprovalKey|
                    self.approvals().contains(x) <==> old(self).approvals().contains(x) || exists|
                        k: int,
                    |
                        0 <= k < i + 1 && #[trigger] partial@[k] == x by {
                    if prev.contains(x) && !old(self).approvals().contains(x) {
                        let k = choose|k: int| 0 <= k < i && #[trigger] partial@[k] == x;
                        assert(0 <= k < i + 1 && partial@[k] == x);
                    }
                    if exists|k: int| 0 <= k < i + 1 && #[trigger] partial@[k] == x {
                        let k = choose|k: int| 0 <= k < i + 1 && #[trigger] partial@[k] == x;
                        if k < i {
                            assert(prev.contains(x));
                        }
                    }
                }
            }
            i += 1;
        }
        proof {
            assert forall|x: ApprovalKey|
                self.approvals().contains(x) <==> merged(old(self).approvals(), partial@).contains(
                    x,
                ) by {
                if partial@.to_set().contains(x) {
                    let k = choose|k: int| 0 <= k < partial@.len() && partial@[k] == x;
                    assert(0 <= k < i && partial@[k] == x);
                }
                if exists|k: int| 0 <= k < i && #[trigger] partial@[k] == x {
                    let k = choose|k: int| 0 <= k < i && #[trigger] partial@[k] == x;
                    assert(partial@.contains(x));
                }
            }
            assert(self.approvals() =~= merged(old(self).approvals(), partial@));
        }
    }

    /// Merges the lists of all workers, starting from nothing.
    pub fn aggregate(partials: &Vec<WorkerPartial>, mint_tokens: bool) -> (agg: Aggregator)
        ensures
            agg.mints_tokens() == mint_tokens,
            agg.approvals() == aggregated(views_of(partials@)),
    {
        let mut agg = Aggregator::new(mint_tokens);
        let n: usize = partials.len();
        let mut w: usize = 0;
        while w < n
            invariant
                w <= n,
                n == partials@.len(),
                agg.mints_tokens() == mint_tokens,
                agg.approvals() == aggregated(views_of(partials@).take(w as int)),
            decreases n - w,
        {
            agg.merge(&partials[w]);
            proof {
                let all = views_of(partials@);
                assert(all.take(w + 1).drop_last() =~= all.take(w as int));
                assert(all.take(w + 1).last() == partials@[w as int]@);
            }
            w += 1;
        }
        proof {
            assert(views_of(partials@).take(n as int) =~= views_of(partials@));
        }
        agg
    }
}

/// Some record among `records` is about the package `t.0` and holds the
/// value `t.2`: the record is one of the first `rows`, or it is record
/// `rows` and the value is one of its first `cols`.
spec fn package_holds(
    records: Seq<AggregatedRecord>,
    rows: int,
    cols: int,
    t: ApprovalKey,
) -> bool {
    exists|a: int, b: int|
        0 <= a < records.len() && 0 <= b < records[a].approved_values@.len() && (a < rows || (a
            == rows && b < cols)) && records[a].package_name@ == t.0 && (
        #[trigger] records[a].approved_values@[b])@ == t.2
}

impl Aggregator {
    /// Gathers the approved values by package name alone, whatever the
    /// signature: the result has one record for each package, under the
    /// empty signature, with every value that was approved for the package
    /// under some signature, each once.
    pub fn by_package(&self) -> (out: Aggregator)
        ensures
            !out.mints_tokens(),
            forall|t: ApprovalKey|
                out.approvals().contains(t) <==> t.1 == Seq::<u8>::empty() && exists|s: Seq<u8>|
                    self.approvals().contains((t.0, s, t.2)),
    {
        proof {
            use_type_invariant(self);
        }
        let mut out: Vec<AggregatedRecord> = Vec::new();
        let empty: Vec<u8> = Vec::new();
        proof {
            assert(approvals_of(out@) =~= Set::<ApprovalKey>::empty());
        }
        let n: usize = self.records.len();
        let mut i: usize = 0;
        while i < n
            invariant
                i <= n,
                n == self.records@.len(),
                records_wf(out@, false),
                empty@ == Seq::<u8>::empty(),
                forall|t: ApprovalKey|
                    approvals_of(out@).contains(t) <==> t.1 == Seq::<u8>::empty() && package_holds(
                        self.records@,
                        i as int,
                        0,
                        t,
                    ),
            decreases n - i,
        {
            let m: usize = self.records[i].approved_values.len();
            let mut j: usize = 0;
            while j < m
                invariant
                    i < n,
                    j <= m,
                    n == self.records@.len(),
                    m == self.records@[i as int].approved_values@.len(),
                    records_wf(out@, false),
                    empty@ == Seq::<u8>::empty(),
                    forall|t: ApprovalKey|
                        approvals_of(out@).contains(t) <==> t.1 == Seq::<u8>::empty() && package_holds(
                            self.records@,
                            i as int,
                            j as int,
                            t,
                        ),
                decreases m - j,
            {
                let ghost prev = approvals_of(out@);
                insert_value(
                    &mut out,
                    false,
                    &self.records[i].package_name,
                    empty.as_slice(),
                    &self.records[i].approved_values[j],
                );
                proof {
                    let recs = self.records@;
                    let e: ApprovalKey = (
                        recs[i as int].package_name@,
                        Seq::<u8>::empty(),
                        recs[i as int].approved_values@[j as int]@,
                    );
                    assert forall|t: ApprovalKey|
                        approvals_of(out@).contains(t) <==> t.1 == Seq::<u8>::empty() && package_holds(
                            recs,
                            i as int,
                            j + 1,
                            t,
                        ) by {
                        if prev.contains(t) {
                            let (a, b) = choose|a: int, b: int|
                                0 <= a < recs.len() && 0 <= b < recs[a].approved_values@.len() && (a
                                    < i || (a == i && b < j)) && recs[a].package_name@ == t.0 && (
                                #[trigger] recs[a].approved_values@[b])@ == t.2;
                            assert(recs[a].approved_values@[b]@ == t.2);
                        }
                        if t == e {
                            assert(recs[i as int].approved_values@[j as int]@ == t.2);
                        }
                        if t.1 == Seq::<u8>::empty() && package_holds(recs, i as int, j + 1, t) {
                            let (a, b) = choose|a: int, b: int|
                                0 <= a < recs.len() && 0 <= b < recs[a].approved_values@.len() && (a
                                    < i || (a == i && b < j + 1)) && recs[a].package_name@ == t.0
                                    && (#[trigger] recs[a].approved_values@[b])@ == t.2;
                            if a == i && b == j {
                                assert(t == e);
                            } else {
                                assert(recs[a].approved_values@[b]@ == t.2);
                                assert(package_holds(recs, i as int, j as int, t));
                            }
                        }
                    }
                }
                j += 1;
            }
            proof {
                let recs = self.records@;
                assert forall|t: ApprovalKey|
                    package_holds(recs, i as int, m as int, t) <==> package_holds(
                        recs,
                        i + 1,
                        0,
                        t,
                    ) by {
                    if package_holds(recs, i as int, m as int, t) {
                        let (a, b) = choose|a: int, b: int|
                            0 <= a < recs.len() && 0 <= b < recs[a].approved_values@.len() && (a < i
                                || (a == i && b < m)) && recs[a].package_name@ == t.0 && (
                            #[trigger] recs[a].approved_values@[b])@ == t.2;
                        assert(recs[a].approved_values@[b]@ == t.2);
                    }
                    if package_holds(recs, i + 1, 0, t) {
                        let (a, b) = choose|a: int, b: int|
                            0 <= a < recs.len() && 0 <= b < recs[a].approved_values@.len() && (a < i
                                + 1 || (a == i + 1 && b < 0)) && recs[a].package_name@ == t.0 && (
                            #[trigger] recs[a].approved_values@[b])@ == t.2;
                        assert(recs[a].approved_values@[b]@ == t.2);
                    }
                }
            }
            i += 1;
        }
        proof {
            let recs = self.records@;
            assert forall|t: ApprovalKey|
                package_holds(recs, n as int, 0, t) <==> exists|s: Seq<u8>|
                    self.approvals().contains((t.0, s, t.2)) by {
                if package_holds(recs, n as int, 0, t) {
                    let (a, b) = choose|a: int, b: int|
                        0 <= a < recs.len() && 0 <= b < recs[a].approved_values@.len() && (a < n
                            || (a == n && b < 0)) && recs[a].package_name@ == t.0 && (
                        #[trigger] recs[a].approved_values@[b])@ == t.2;
                    let s = recs[a].signature@;
                    assert(recs[a].approved_values@[b]@ == t.2);
                    assert(recs[a].holds(t.2));
                    assert(recs[a].has((t.0, s, t.2)));
                    assert(self.approvals().contains((t.0, s, t.2)));
                }
                if exists|s: Seq<u8>| self.approvals().contains((t.0, s, t.2)) {
                    let s = choose|s: Seq<u8>| self.approvals().contains((t.0, s, t.2));
                    let a = choose|a: int|
                        0 <= a < recs.len() && (#[trigger] recs[a]).has((t.0, s, t.2));
                    let b = choose|b: int|
                        0 <= b < recs[a].approved_values@.len() && (
                        #[trigger] recs[a].approved_values@[b])@ == t.2;
                    assert(recs[a].approved_values@[b]@ == t.2);
                    assert(package_holds(recs, n as int, 0, t));
                }
            }
        }
        Aggregator { records: out, mint_tokens: false }
    }
}

} // verus!
