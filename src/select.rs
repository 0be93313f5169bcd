use vstd::prelude::*;

use crate::record::JobRecord;

verus! {

/// Index of the record that checkout takes from `live`: the highest priority
/// among the eligible records, the earliest position among equal priorities.
pub open spec fn best(live: Seq<JobRecord>, types: Seq<String>, now: i64) -> Option<int>
    decreases live.len(),
{
    if live.len() == 0 {
        None
    } else {
        let prev = best(live.drop_last(), types, now);
        let i = live.len() - 1;
        if live[i].is_eligible(types, now) && (prev is None || live[prev->0].priority
            < live[i].priority) {
            Some(i)
        } else {
            prev
        }
    }
}

/// What `best` picks: an eligible record that no eligible record outranks,
/// and that no earlier record of equal priority precedes; nothing only when
/// nothing is eligible.
pub proof fn lemma_best(live: Seq<JobRecord>, types: Seq<String>, now: i64)
    ensures
        best(live, types, now) is None <==> forall|j: int|
            0 <= j < live.len() ==> !(#[trigger] live[j]).is_eligible(types, now),
        best(live, types, now) is Some ==> {
            let i = best(live, types, now)->0;
            &&& 0 <= i < live.len()
            &&& live[i].is_eligible(types, now)
            &&& forall|j: int|
                0 <= j < live.len() && (#[trigger] live[j]).is_eligible(types, now)
                    ==> live[j].priority <= live[i].priority
            &&& forall|j: int|
                0 <= j < i && (#[trigger] live[j]).is_eligible(types, now) ==> live[j].priority
                    < live[i].priority
        },
    decreases live.len(),
{
    if live.len() > 0 {
        let init = live.drop_last();
        let last = live.len() - 1;
        lemma_best(init, types, now);
        assert forall|j: int| 0 <= j < init.len() implies #[trigger] init[j] == live[j] by {}
        let prev = best(init, types, now);
        if prev is None {
            assert forall|j: int| 0 <= j < last implies !(#[trigger] live[j]).is_eligible(
                types,
                now,
            ) by {
                assert(init[j] == live[j]);
            }
        } else {
            let p = prev->0;
            assert(init[p] == live[p]);
            assert forall|j: int|
                0 <= j < last && (#[trigger] live[j]).is_eligible(types, now) implies live[j].priority
                <= live[p].priority && (j < p ==> live[j].priority < live[p].priority) by {
                assert(init[j] == live[j]);
            }
        }
    }
}

/// Position of the record that checkout takes, as `best` describes it.
pub fn select_next(live: &Vec<JobRecord>, types: &Vec<String>, now: i64) -> (r: Option<usize>)
    ensures
        r matches Some(i) ==> best(live@, types@, now) == Some(i as int) && i < live@.len(),
        r is None ==> best(live@, types@, now) is None,
{
    let mut found: Option<usize> = None;
    let mut k: usize = 0;
    while k < live.len()
        invariant
            k <= live.len(),
            found matches Some(i) ==> best(live@.take(k as int), types@, now) == Some(i as int)
                && i < k,
            found is None ==> best(live@.take(k as int), types@, now) is None,
        decreases live.len() - k,
    {
        proof {
            assert(live@.take(k + 1).drop_last() =~= live@.take(k as int));
        }
        if live[k].eligible(types, now) {
            match found {
                None => {
                    found = Some(k);
                },
                Some(i) => {
                    if live[i].priority < live[k].priority {
                        found = Some(k);
                    }
                },
            }
        }
        k = k + 1;
    }
    proof {
        assert(live@.take(live.len() as int) =~= live@);
    }
    found
}

} // verus!
