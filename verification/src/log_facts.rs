use vstd::prelude::*;
use crate::kv::{
    committed_key, entry_key, entry_keys_differ, kv_apply, latest_key, KvOutcome, KvRequestView,
    KvState,
};
use crate::log::{
    call_at, claim_request, commit_write, committed_read, committed_value, found, step_after,
    window_len, window_read, SendStep,
};

verus! {

/// The linearizable service after the claims of `candidates` for `key`,
/// applied one after the other in the order in which the service took them.
pub open spec fn after_claims(state: KvState, key: Seq<char>, candidates: Seq<i64>) -> KvState
    decreases candidates.len(),
{
    if candidates.len() == 0 {
        state
    } else {
        kv_apply(
            after_claims(state, key, candidates.drop_last()),
            claim_request(key, candidates.last()),
        ).0
    }
}

/// Whether claim `i` of the history took effect, that is, whether the
/// append that made it was given `candidates[i]` as its offset.
pub open spec fn claim_won(state: KvState, key: Seq<char>, candidates: Seq<i64>, i: int) -> bool {
    kv_apply(after_claims(state, key, candidates.take(i)), claim_request(key, candidates[i])).1
        == KvOutcome::Swapped
}

proof fn lemma_marker_floor(
    state: KvState,
    key: Seq<char>,
    candidates: Seq<i64>,
    i: int,
    j: int,
)
    requires
        0 <= i < j <= candidates.len(),
        forall|k: int| 0 <= k < candidates.len() ==> candidates[k] != i64::MIN,
        claim_won(state, key, candidates, i),
    ensures
        after_claims(state, key, candidates.take(j)).contains_key(latest_key(key)),
        after_claims(state, key, candidates.take(j))[latest_key(key)] >= candidates[i],
    decreases j,
{
    let upto = candidates.take(j);
    assert(upto.drop_last() =~= candidates.take(j - 1));
    assert(upto.last() == candidates[j - 1]);
    if j > i + 1 {
        lemma_marker_floor(state, key, candidates, i, j - 1);
    }
}

/// An append holds an offset only after its claim of that offset took
/// effect: the step that stores the entry at `offset` is reached from the
/// claim of `offset`, on the outcome that says the swap was made, and from
/// nowhere else.
pub proof fn offset_comes_from_a_won_claim(step: SendStep, outcome: KvOutcome, offset: i64)
    requires
        step_after(step, outcome) == (SendStep::StoreMessage { offset }),
    ensures
        step == (SendStep::Claim { candidate: offset }),
        outcome == KvOutcome::Swapped,
{
}

/// Offsets are handed out once. In any history of claims for one key, taken
/// by the linearizable service in some order, two claims that both took
/// effect carry different offsets, however the appends that made them were
/// interleaved. (A candidate equal to the least `i64` is left out: below it
/// the expected previous value wraps round.)
pub proof fn offsets_are_distinct(
    state: KvState,
    key: Seq<char>,
    candidates: Seq<i64>,
    i: int,
    j: int,
)
    requires
        0 <= i < j < candidates.len(),
        forall|k: int| 0 <= k < candidates.len() ==> candidates[k] != i64::MIN,
        claim_won(state, key, candidates, i),
        claim_won(state, key, candidates, j),
    ensures
        candidates[i] != candidates[j],
{
    lemma_marker_floor(state, key, candidates, i, j);
}

/// Every slot of a window whose read found a value is among the entries of
/// the poll, with its offset.
pub proof fn found_holds_present(from: i64, outcomes: Seq<KvOutcome>, n: nat, d: int, v: i64)
    requires
        0 <= d < n,
        d < outcomes.len(),
        outcomes[d] == KvOutcome::Value(v),
    ensures
        found(from, outcomes, n).contains(((from + d) as i64, v)),
    decreases n,
{
    let before = found(from, outcomes, (n - 1) as nat);
    if d == n - 1 {
        assert(found(from, outcomes, n) == before.push(((from + d) as i64, v)));
        assert(found(from, outcomes, n)[before.len() as int] == (((from + d) as i64, v)));
    } else {
        found_holds_present(from, outcomes, (n - 1) as nat, d, v);
        let at = choose|k: int| 0 <= k < before.len() && before[k] == (((from + d) as i64, v));
        assert(found(from, outcomes, n)[at] == before[at]);
    }
}

/// The entries of a poll are only what its reads found: an absent offset
/// adds nothing and takes nothing away from the slots around it.
pub proof fn found_holds_only_present(from: i64, outcomes: Seq<KvOutcome>, n: nat, k: int)
    requires
        0 <= k < found(from, outcomes, n).len(),
    ensures
        exists|d: int|
            0 <= d < n && d < outcomes.len() && #[trigger] outcomes[d] == KvOutcome::Value(
                found(from, outcomes, n)[k].1,
            ) && found(from, outcomes, n)[k].0 == (from + d) as i64,
    decreases n,
{
    let before = found(from, outcomes, (n - 1) as nat);
    if k < before.len() {
        found_holds_present_prefix(from, outcomes, n);
        found_holds_only_present(from, outcomes, (n - 1) as nat, k);
    } else {
        let d = n - 1;
        assert(outcomes[d] == KvOutcome::Value(found(from, outcomes, n)[k].1));
    }
}

proof fn found_holds_present_prefix(from: i64, outcomes: Seq<KvOutcome>, n: nat)
    requires
        n > 0,
    ensures
        found(from, outcomes, (n - 1) as nat).is_prefix_of(found(from, outcomes, n)),
{
}

/// An entry that an append stored is found again: once the write of the
/// entry at `offset` has reached the sequential service, a poll of the same
/// key from `offset` reads it in its first slot and returns
/// `(offset, msg)` among its entries.
pub proof fn sent_entry_is_polled(
    state: KvState,
    key: Seq<char>,
    msg: i64,
    offset: i64,
    outcomes: Seq<KvOutcome>,
)
    requires
        outcomes.len() > 0,
        outcomes[0] == kv_apply(
            kv_apply(state, call_at(key, msg, SendStep::StoreMessage { offset })->0.request).0,
            window_read(key, offset, 0).request,
        ).1,
    ensures
        found(offset, outcomes, window_len(offset)).contains((offset, msg)),
{
    found_holds_present(offset, outcomes, window_len(offset), 0, msg);
}

/// The same for any poll whose window holds the offset: a poll of the key
/// from `from`, with `from <= offset` and `offset` within the window, reads
/// the entry in slot `offset - from` and returns `(offset, msg)`.
pub proof fn sent_entry_is_polled_within_window(
    state: KvState,
    key: Seq<char>,
    msg: i64,
    offset: i64,
    from: i64,
    outcomes: Seq<KvOutcome>,
)
    requires
        from <= offset < from + window_len(from),
        offset - from < outcomes.len(),
        outcomes[offset - from] == kv_apply(
            kv_apply(state, call_at(key, msg, SendStep::StoreMessage { offset })->0.request).0,
            window_read(key, from, offset - from).request,
        ).1,
    ensures
        found(from, outcomes, window_len(from)).contains((offset, msg)),
{
    found_holds_present(from, outcomes, window_len(from), offset - from, msg);
}

/// The entries of a poll come in the order of their offsets, each offset
/// once: an entry stands in the result exactly once.
pub proof fn found_offsets_increase(from: i64, outcomes: Seq<KvOutcome>, n: nat, i: int, j: int)
    requires
        n <= window_len(from),
        0 <= i < j < found(from, outcomes, n).len(),
    ensures
        found(from, outcomes, n)[i].0 < found(from, outcomes, n)[j].0,
    decreases n,
{
    let before = found(from, outcomes, (n - 1) as nat);
    found_holds_present_prefix(from, outcomes, n);
    if j < before.len() {
        found_offsets_increase(from, outcomes, (n - 1) as nat, i, j);
    } else {
        found_holds_only_present(from, outcomes, (n - 1) as nat, i);
        assert(found(from, outcomes, n)[i] == before[i]);
    }
}

/// An entry stays where it is when another entry of the same key is
/// stored: the write at a different offset goes to a different key of the
/// service, so the first entry is read back as it was written.
pub proof fn entry_survives_other_offsets(
    state: KvState,
    key: Seq<char>,
    msg: i64,
    offset: i64,
    other_msg: i64,
    other_offset: i64,
)
    requires
        other_offset != offset,
    ensures
        kv_apply(
            kv_apply(
                kv_apply(state, call_at(key, msg, SendStep::StoreMessage { offset })->0.request).0,
                call_at(key, other_msg, SendStep::StoreMessage { offset: other_offset })->0.request,
            ).0,
            KvRequestView::Read { key: entry_key(key, offset) },
        ).1 == KvOutcome::Value(msg),
{
    if entry_key(key, other_offset) == entry_key(key, offset) {
        entry_keys_differ(key, other_offset, offset);
    }
}

/// A commit is read back, and the last commit wins: after the write of a
/// commit of `first` and then of `second` for one key, listing the key
/// gives `second`, whether it is above or below `first`.
pub proof fn commit_round_trip(state: KvState, key: Seq<char>, first: i64, second: i64)
    ensures
        committed_value(
            kv_apply(
                kv_apply(state, commit_write(key, first).request).0,
                committed_read(key).request,
            ).1,
        ) == first,
        committed_value(
            kv_apply(
                kv_apply(
                    kv_apply(state, commit_write(key, first).request).0,
                    commit_write(key, second).request,
                ).0,
                committed_read(key).request,
            ).1,
        ) == second,
{
}

/// A key whose marker was never written lists as 0.
pub proof fn uncommitted_lists_zero(state: KvState, key: Seq<char>)
    requires
        !state.contains_key(committed_key(key)),
    ensures
        committed_value(kv_apply(state, committed_read(key).request).1) == 0,
{
}

} // verus!
