//! The bookkeeping of a map whose items are worked on by several workers:
//! handing out items with their indices, and putting results in their places.

use vstd::prelude::*;

verus! {

/// Takes the last item off the queue, together with its index.
pub fn next_job<T>(queue: &mut Vec<T>) -> (job: Option<(usize, T)>)
    ensures
        match job {
            Some((index, item)) => old(queue)@.len() > 0 && index == old(queue)@.len() - 1
                && item == old(queue)@[index as int] && final(queue)@ == old(queue)@.drop_last(),
            None => old(queue)@.len() == 0 && final(queue)@ == old(queue)@,
        },
{
    if queue.len() == 0 {
        return None;
    }
    let index = queue.len() - 1;
    match queue.pop() {
        Some(item) => {
            assert(queue@ =~= old(queue)@.drop_last());
            Some((index, item))
        },
        None => None,
    }
}

/// As many empty places as there are items.
pub fn empty_slots<U>(len: usize) -> (slots: Vec<Option<U>>)
    ensures
        slots@.len() == len,
        forall|i: int| 0 <= i < len ==> (#[trigger] slots@[i]) is None,
{
    let mut slots: Vec<Option<U>> = Vec::new();
    let mut i: usize = 0;
    while i < len
        invariant
            i <= len,
            slots@.len() == i,
            forall|k: int| 0 <= k < i ==> (#[trigger] slots@[k]) is None,
        decreases len - i,
    {
        slots.push(None);
        i = i + 1;
    }
    slots
}

/// Puts the result for the item with this index in its place. An index
/// beyond the places is refused and changes nothing.
pub fn place<U>(slots: &mut Vec<Option<U>>, index: usize, result: U) -> (placed: bool)
    ensures
        placed == (index < old(slots)@.len()),
        placed ==> final(slots)@ == old(slots)@.update(index as int, Some(result)),
        !placed ==> final(slots)@ == old(slots)@,
{
    if index < slots.len() {
        slots.set(index, Some(result));
        true
    } else {
        false
    }
}

/// The results in the order of their items, once every place is filled.
pub fn finish<U>(slots: Vec<Option<U>>) -> (results: Option<Vec<U>>)
    ensures
        match results {
            Some(list) => list@.len() == slots@.len() && forall|i: int|
                #![trigger slots@[i]]
                #![trigger list@[i]]
                0 <= i < slots@.len() ==> slots@[i] == Some(list@[i]),
            None => exists|i: int| 0 <= i < slots@.len() && (#[trigger] slots@[i]) is None,
        },
{
    let ghost all = slots@;
    let mut rest = slots;
    let mut reversed: Vec<U> = Vec::new();
    while rest.len() > 0
        invariant
            all == slots@,
            rest@.len() + reversed@.len() == all.len(),
            rest@ == all.subrange(0, rest@.len() as int),
            forall|k: int|
                0 <= k < reversed@.len() ==> all[all.len() - 1 - k] == Some(#[trigger] reversed@[k]),
        decreases rest@.len(),
    {
        let ghost at = rest@.len() - 1;
        match rest.pop() {
            Some(Some(result)) => {
                assert(all[at] == Some(result));
                reversed.push(result);
                assert(rest@ =~= all.subrange(0, rest@.len() as int));
            },
            _ => {
                assert(slots@[at] is None);
                return None;
            },
        }
    }
    let mut list: Vec<U> = Vec::new();
    while reversed.len() > 0
        invariant
            reversed@.len() + list@.len() == all.len(),
            forall|k: int|
                0 <= k < reversed@.len() ==> all[all.len() - 1 - k] == Some(#[trigger] reversed@[k]),
            forall|k: int| 0 <= k < list@.len() ==> (#[trigger] all[k]) == Some(list@[k]),
        decreases reversed@.len(),
    {
        let ghost at = reversed@.len() - 1;
        match reversed.pop() {
            Some(result) => {
                assert(all[all.len() - 1 - at] == Some(result));
                list.push(result);
            },
            None => {},
        }
    }
    Some(list)
}

/// Maps every item through `f` by the steps that the workers take: each
/// item leaves the queue with its index, and its result goes to the place
/// with that index.
pub fn map_all<T, U, F: Fn(T) -> U>(input: Vec<T>, f: F) -> (output: Vec<U>)
    requires
        forall|i: int| 0 <= i < input@.len() ==> call_requires(f, (#[trigger] input@[i],)),
    ensures
        output@.len() == input@.len(),
        forall|i: int| 0 <= i < input@.len() ==> call_ensures(f, (input@[i],), #[trigger] output@[i]),
{
    let mut queue = input;
    let ghost all = queue@;
    let mut slots: Vec<Option<U>> = empty_slots(queue.len());
    loop
        invariant
            slots@.len() == all.len(),
            queue@ == all.subrange(0, queue@.len() as int),
            queue@.len() <= all.len(),
            forall|i: int| 0 <= i < all.len() ==> call_requires(f, (#[trigger] all[i],)),
            forall|i: int| 0 <= i < queue@.len() ==> (#[trigger] slots@[i]) is None,
            forall|i: int|
                queue@.len() <= i < all.len() ==> ((#[trigger] slots@[i]) matches Some(r)
                    && call_ensures(f, (all[i],), r)),
        ensures
            queue@.len() == 0,
            slots@.len() == all.len(),
            forall|i: int|
                0 <= i < all.len() ==> ((#[trigger] slots@[i]) matches Some(r) && call_ensures(
                    f,
                    (all[i],),
                    r,
                )),
        decreases queue@.len(),
    {
        match next_job(&mut queue) {
            None => {
                break ;
            },
            Some((index, item)) => {
                assert(item == all[index as int]);
                let result = f(item);
                place(&mut slots, index, result);
                assert(queue@ =~= all.subrange(0, queue@.len() as int));
            },
        }
    }
    let ghost filled = slots@;
    match finish(slots) {
        Some(output) => {
            assert forall|i: int| 0 <= i < all.len() implies call_ensures(
                f,
                (all[i],),
                #[trigger] output@[i],
            ) by {
                assert(filled[i] == Some(output@[i]));
            }
            output
        },
        None => {
            proof {
                let i = choose|i: int| 0 <= i < filled.len() && (#[trigger] filled[i]) is None;
                assert(filled[i] is Some);
            }
            Vec::new()
        },
    }
}

} // verus!
