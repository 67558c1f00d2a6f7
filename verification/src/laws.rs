//! What holds of merging and of the wire form, whatever the values.

use vstd::prelude::*;
use crate::decode::{decodes_as, list_decodes_as};
use crate::encode::{serialized, serialized_list};
use crate::feed_state::{
    genuinely_new, intake_cap, merge_report, merged, retained, FeedStateView,
};
use crate::item::ItemView;
use crate::subscription::SubscriptionView;
use crate::wire::{list_fits, Wire};

verus! {

/// Decoding what was encoded gives the subscription back: whatever
/// `deserialize` returns for the bytes that `serialize` wrote for a
/// subscription that can be written is that subscription, equal in every
/// field, the state included.
pub proof fn lemma_round_trip(sub: SubscriptionView, decoded: Option<SubscriptionView>)
    requires
        sub.fits(),
        decodes_as(serialized(sub), decoded),
    ensures
        decoded == Some(sub),
{
}

/// Decoding what was encoded gives the list back: whatever `vec_deserialize`
/// returns for the bytes that `vec_serialize` wrote for a list that can be
/// written is that list, with equal subscriptions in the same order.
pub proof fn lemma_list_round_trip(
    subs: Seq<SubscriptionView>,
    decoded: Option<Seq<SubscriptionView>>,
)
    requires
        list_fits(subs),
        list_decodes_as(serialized_list(subs), decoded),
    ensures
        decoded == Some(subs),
{
}

/// Encoding what was decoded gives the bytes back: a byte string that
/// `deserialize` accepts is, byte for byte, what `serialize` writes for the
/// subscription it was decoded to.
pub proof fn lemma_decoded_bytes(bytes: Seq<u8>, sub: SubscriptionView)
    requires
        decodes_as(bytes, Some(sub)),
    ensures
        serialized(sub) == bytes,
{
}

/// Encoding what was decoded gives the bytes back: a byte string that
/// `vec_deserialize` accepts is, byte for byte, what `vec_serialize` writes
/// for the list it was decoded to.
pub proof fn lemma_decoded_list_bytes(bytes: Seq<u8>, subs: Seq<SubscriptionView>)
    requires
        list_decodes_as(bytes, Some(subs)),
    ensures
        serialized_list(subs) == bytes,
{
}

/// No wire form is empty, so no bytes at all can only mean that nothing
/// could be written.
pub proof fn lemma_wire_not_empty(sub: SubscriptionView, subs: Seq<SubscriptionView>)
    ensures
        sub.wire().len() > 0,
        crate::wire::list_wire(subs).len() > 0,
{
}

/// Where nothing of a sequence passes a filter, nothing is left of it.
proof fn lemma_filter_nothing<A>(s: Seq<A>, pred: spec_fn(A) -> bool)
    requires
        forall|i: int| 0 <= i < s.len() ==> !pred(#[trigger] s[i]),
    ensures
        s.filter(pred) == Seq::<A>::empty(),
    decreases s.len(),
{
    reveal(Seq::filter);
    if s.len() > 0 {
        lemma_filter_nothing(s.drop_last(), pred);
    }
}

/// Where everything of a sequence passes a filter, all of it is left.
proof fn lemma_filter_everything<A>(s: Seq<A>, pred: spec_fn(A) -> bool)
    requires
        forall|i: int| 0 <= i < s.len() ==> pred(#[trigger] s[i]),
    ensures
        s.filter(pred) == s,
    decreases s.len(),
{
    reveal(Seq::filter);
    if s.len() > 0 {
        lemma_filter_everything(s.drop_last(), pred);
        assert(s.drop_last().push(s.last()) =~= s);
    }
}

/// Merging one item that is not yet among the entries, under a backlog
/// limit of zero, takes it in: the highest number goes up by exactly one, the
/// item becomes the first entry, and the queue gains exactly that item at
/// its end, so that a queue that was empty holds it alone.
pub proof fn lemma_merge_single_new(state: FeedStateView, item: ItemView)
    requires
        !state.entries.contains(item),
        state.latest_entry_number < u64::MAX,
    ensures
        ({
            let after = merged(state, seq![item], Some(0u64));
            &&& after.latest_entry_number == state.latest_entry_number + 1
            &&& after.entries.first() == item
            &&& after.entries == seq![item] + state.entries
            &&& after.queue == state.queue.push(item)
            &&& merge_report(state, seq![item], Some(0u64)).new_count == 1
        }),
{
    let batch = seq![item];
    let pred = |i: ItemView| !state.entries.contains(i);
    lemma_filter_everything(batch, pred);
    let kept = retained(state.entries, batch, Some(0u64));
    assert(kept == batch);
    assert(kept.reverse() =~= batch);
    assert(state.queue + batch =~= state.queue.push(item));
}

/// Merging takes nothing away and takes nothing in twice: the entries that
/// were there stay, after the ones taken in; nothing that is taken in was
/// among them; the queue and the summary log only grow at their ends; the
/// highest number does not go down; and every item of the batch is counted
/// once, as taken in, as already recorded, or as beyond the limit.
pub proof fn lemma_merge_keeps(state: FeedStateView, batch: Seq<ItemView>, limit: Option<u64>)
    requires
        state.latest_entry_number + batch.len() <= u64::MAX,
        batch.len() <= usize::MAX,
    ensures
        ({
            let after = merged(state, batch, limit);
            let report = merge_report(state, batch, limit);
            let kept = retained(state.entries, batch, limit);
            &&& after.entries.subrange(kept.len() as int, after.entries.len() as int)
                == state.entries
            &&& kept.len() > 0 ==> after.entries.first() == kept.first()
            &&& forall|i: int|
                0 <= i < kept.len() ==> !state.entries.contains(#[trigger] kept[i])
                    && batch.contains(kept[i])
            &&& state.queue.is_prefix_of(after.queue)
            &&& state.summary_queue.is_prefix_of(after.summary_queue)
            &&& after.latest_entry_number == state.latest_entry_number + report.new_count
            &&& after.latest_entry_number >= state.latest_entry_number
            &&& report.new_count + report.skipped_duplicate_count + report.skipped_backlog_count
                == batch.len()
            &&& intake_cap(limit) matches Some(cap) ==> report.new_count <= cap
        }),
{
    let after = merged(state, batch, limit);
    let fresh = genuinely_new(state.entries, batch);
    let kept = retained(state.entries, batch, limit);
    let pred = |i: ItemView| !state.entries.contains(i);
    batch.lemma_filter_len(pred);
    assert(after.entries.subrange(kept.len() as int, after.entries.len() as int)
        =~= state.entries);
    assert forall|i: int| 0 <= i < kept.len() implies !state.entries.contains(
        #[trigger] kept[i],
    ) && batch.contains(kept[i]) by {
        assert(kept[i] == fresh[i]);
        batch.lemma_filter_pred(pred, i);
        assert(fresh.contains(fresh[i]));
        batch.lemma_filter_contains_rev(pred, fresh[i]);
    }
}

/// Merging the same batch a second time takes nothing in and changes
/// nothing, provided that the first merge left none of the batch's new items
/// out for the backlog limit: those it left out are new again the next time.
pub proof fn lemma_merge_twice(state: FeedStateView, batch: Seq<ItemView>, limit: Option<u64>)
    requires
        state.latest_entry_number + batch.len() <= u64::MAX,
        batch.len() <= usize::MAX,
        merge_report(state, batch, limit).skipped_backlog_count == 0,
    ensures
        ({
            let once = merged(state, batch, limit);
            &&& merge_report(once, batch, limit).new_count == 0
            &&& merge_report(once, batch, limit).skipped_duplicate_count == batch.len()
            &&& merged(once, batch, limit).latest_entry_number == once.latest_entry_number
            &&& merged(once, batch, limit) == once
        }),
{
    let pred = |i: ItemView| !state.entries.contains(i);
    let fresh = genuinely_new(state.entries, batch);
    let kept = retained(state.entries, batch, limit);
    batch.lemma_filter_len(pred);
    assert(kept == fresh);
    let once = merged(state, batch, limit);
    let again = |i: ItemView| !once.entries.contains(i);
    assert forall|i: int| 0 <= i < batch.len() implies !again(#[trigger] batch[i]) by {
        if state.entries.contains(batch[i]) {
            let k = choose|k: int| 0 <= k < state.entries.len() && state.entries[k] == batch[i];
            assert(once.entries[fresh.len() + k] == batch[i]);
        } else {
            batch.lemma_filter_contains(pred, i);
            let k = choose|k: int| 0 <= k < fresh.len() && fresh[k] == batch[i];
            assert(once.entries[k] == batch[i]);
        }
    }
    lemma_filter_nothing(batch, again);
    let none = retained(once.entries, batch, limit);
    assert(none =~= Seq::empty());
    let twice = merged(once, batch, limit);
    assert(twice.entries =~= once.entries);
    assert(none.reverse() =~= Seq::empty());
    assert(twice.queue =~= once.queue);
    assert(twice.summary_queue =~= once.summary_queue);
}

} // verus!
