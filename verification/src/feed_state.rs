//! What is remembered of one feed between fetches.

use vstd::prelude::*;
use crate::item::{clone_items, same_items, Item, ItemView};

verus! {

/// How one item was reported during a run.
#[derive(Debug)]
pub struct SessionSummaryRecord {
    /// Whether the item was acted on in the present run, as opposed to being
    /// carried over from an earlier one.
    pub is_current_session: bool,
    /// The number the item was given when it was taken in.
    pub sequence_number: u64,
    /// The name under which the item is reported.
    pub name: String,
}

/// The mathematical value of a [`SessionSummaryRecord`].
pub struct SessionSummaryRecordView {
    pub is_current_session: bool,
    pub sequence_number: u64,
    pub name: Seq<char>,
}

impl View for SessionSummaryRecord {
    type V = SessionSummaryRecordView;

    open spec fn view(&self) -> SessionSummaryRecordView {
        SessionSummaryRecordView {
            is_current_session: self.is_current_session,
            sequence_number: self.sequence_number,
            name: self.name@,
        }
    }
}

impl DeepView for SessionSummaryRecord {
    type V = SessionSummaryRecordView;

    open spec fn deep_view(&self) -> SessionSummaryRecordView {
        self@
    }
}

impl SessionSummaryRecord {
    /// A record made during the present run.
    pub fn new(sequence_number: u64, name: String) -> (r: SessionSummaryRecord)
        ensures
            r@ == (SessionSummaryRecordView {
                is_current_session: true,
                sequence_number,
                name: name@,
            }),
    {
        SessionSummaryRecord { is_current_session: true, sequence_number, name }
    }
}

impl Default for SessionSummaryRecord {
    /// A record with no name and the number zero, not of the present run.
    fn default() -> (r: SessionSummaryRecord)
        ensures
            r@ == (SessionSummaryRecordView {
                is_current_session: false,
                sequence_number: 0,
                name: Seq::empty(),
            }),
    {
        SessionSummaryRecord { is_current_session: false, sequence_number: 0, name: String::new() }
    }
}

impl Clone for SessionSummaryRecord {
    fn clone(&self) -> (r: SessionSummaryRecord)
        ensures
            r@ == self@,
    {
        SessionSummaryRecord {
            is_current_session: self.is_current_session,
            sequence_number: self.sequence_number,
            name: self.name.clone(),
        }
    }
}

impl PartialEq for SessionSummaryRecord {
    fn eq(&self, other: &SessionSummaryRecord) -> (r: bool) {
        self.is_current_session == other.is_current_session && self.sequence_number
            == other.sequence_number && self.name == other.name
    }
}

impl vstd::std_specs::cmp::PartialEqSpecImpl for SessionSummaryRecord {
    open spec fn obeys_eq_spec() -> bool {
        true
    }

    open spec fn eq_spec(&self, other: &SessionSummaryRecord) -> bool {
        self@ == other@
    }
}

/// A copy of a list of records.
pub fn clone_records(list: &Vec<SessionSummaryRecord>) -> (r: Vec<SessionSummaryRecord>)
    ensures
        r.deep_view() == list.deep_view(),
{
    let mut out: Vec<SessionSummaryRecord> = Vec::new();
    let mut i: usize = 0;
    while i < list.len()
        invariant
            i <= list.len(),
            out.len() == i,
            forall|j: int| 0 <= j < i ==> out[j]@ == list[j]@,
        decreases list.len() - i,
    {
        out.push(list[i].clone());
        i += 1;
    }
    assert(out.deep_view() =~= list.deep_view());
    out
}

/// Whether two lists hold equal records in the same order.
pub fn same_records(a: &Vec<SessionSummaryRecord>, b: &Vec<SessionSummaryRecord>) -> (r: bool)
    ensures
        r == (a.deep_view() == b.deep_view()),
{
    if a.len() != b.len() {
        assert(a.deep_view().len() != b.deep_view().len());
        return false;
    }
    let mut i: usize = 0;
    while i < a.len()
        invariant
            i <= a.len(),
            a.len() == b.len(),
            forall|j: int| 0 <= j < i ==> a[j]@ == b[j]@,
        decreases a.len() - i,
    {
        if a[i] != b[i] {
            assert(a.deep_view()[i as int] != b.deep_view()[i as int]);
            return false;
        }
        i += 1;
    }
    assert(a.deep_view() =~= b.deep_view());
    true
}

/// Progress through one feed: the items taken in so far, newest first, the
/// items still waiting to be acted on, the highest number given out, and the
/// log of what was reported.
#[derive(Debug)]
pub struct FeedState {
    entries: Vec<Item>,
    queue: Vec<Item>,
    latest_entry_number: u64,
    summary_queue: Vec<SessionSummaryRecord>,
}

/// The mathematical value of a [`FeedState`].
pub struct FeedStateView {
    /// Items taken in, newest first.
    pub entries: Seq<ItemView>,
    /// Items taken in and not yet acted on, oldest first.
    pub queue: Seq<ItemView>,
    /// The highest number given to an item so far.
    pub latest_entry_number: u64,
    /// What was reported, in the order it was reported.
    pub summary_queue: Seq<SessionSummaryRecordView>,
}

impl FeedStateView {
    /// The state of a feed of which nothing has been seen.
    pub open spec fn empty() -> FeedStateView {
        FeedStateView {
            entries: Seq::empty(),
            queue: Seq::empty(),
            latest_entry_number: 0,
            summary_queue: Seq::empty(),
        }
    }
}

impl View for FeedState {
    type V = FeedStateView;

    closed spec fn view(&self) -> FeedStateView {
        FeedStateView {
            entries: self.entries.deep_view(),
            queue: self.queue.deep_view(),
            latest_entry_number: self.latest_entry_number,
            summary_queue: self.summary_queue.deep_view(),
        }
    }
}

impl DeepView for FeedState {
    type V = FeedStateView;

    open spec fn deep_view(&self) -> FeedStateView {
        self@
    }
}

/// What one merge did with the items it was handed.
#[derive(Clone, Copy, Debug, PartialEq, Eq, Structural)]
pub struct MergeResult {
    /// Items taken in.
    pub new_count: usize,
    /// Items left out because they were already recorded.
    pub skipped_duplicate_count: usize,
    /// Items left out because they were beyond the backlog limit.
    pub skipped_backlog_count: usize,
}

/// The most items one merge may take in, if there is such a bound. A limit
/// of zero, like no limit at all, sets none.
pub open spec fn intake_cap(backlog_limit: Option<u64>) -> Option<nat> {
    match backlog_limit {
        Some(limit) => if limit > 0 {
            Some(limit as nat)
        } else {
            None
        },
        None => None,
    }
}

/// The items of `batch` that do not occur in `known`, in batch order.
pub open spec fn genuinely_new(known: Seq<ItemView>, batch: Seq<ItemView>) -> Seq<ItemView> {
    batch.filter(|item: ItemView| !known.contains(item))
}

/// The items that a merge takes in: the genuinely new ones, cut down to the
/// first so many in batch order when there are more than the intake cap.
pub open spec fn retained(
    known: Seq<ItemView>,
    batch: Seq<ItemView>,
    backlog_limit: Option<u64>,
) -> Seq<ItemView> {
    let fresh = genuinely_new(known, batch);
    match intake_cap(backlog_limit) {
        Some(cap) => if fresh.len() > cap {
            fresh.take(cap as int)
        } else {
            fresh
        },
        None => fresh,
    }
}

/// The records written for the items taken in. Numbers are given from the
/// last item of `kept` to the first, starting after `latest`.
pub open spec fn summary_of(kept: Seq<ItemView>, latest: u64) -> Seq<SessionSummaryRecordView> {
    Seq::new(
        kept.len(),
        |j: int|
            SessionSummaryRecordView {
                is_current_session: true,
                sequence_number: (latest + 1 + j) as u64,
                name: kept[kept.len() - 1 - j].title,
            },
    )
}

/// The state after merging `batch` into `state`.
pub open spec fn merged(
    state: FeedStateView,
    batch: Seq<ItemView>,
    backlog_limit: Option<u64>,
) -> FeedStateView {
    let kept = retained(state.entries, batch, backlog_limit);
    FeedStateView {
        entries: kept + state.entries,
        queue: state.queue + kept.reverse(),
        latest_entry_number: (state.latest_entry_number + kept.len()) as u64,
        summary_queue: state.summary_queue + summary_of(kept, state.latest_entry_number),
    }
}

/// The counts reported by merging `batch` into `state`.
pub open spec fn merge_report(
    state: FeedStateView,
    batch: Seq<ItemView>,
    backlog_limit: Option<u64>,
) -> MergeResult {
    let fresh = genuinely_new(state.entries, batch);
    let kept = retained(state.entries, batch, backlog_limit);
    MergeResult {
        new_count: kept.len() as usize,
        skipped_duplicate_count: (batch.len() - fresh.len()) as usize,
        skipped_backlog_count: (fresh.len() - kept.len()) as usize,
    }
}

/// Whether `list` holds an item equal to `item`.
pub fn contains_item(list: &Vec<Item>, item: &Item) -> (r: bool)
    ensures
        r == list.deep_view().contains(item@),
{
    let mut i: usize = 0;
    while i < list.len()
        invariant
            i <= list.len(),
            forall|j: int| 0 <= j < i ==> list[j]@ != item@,
        decreases list.len() - i,
    {
        if list[i] == *item {
            assert(list.deep_view()[i as int] == item@);
            return true;
        }
        i += 1;
    }
    assert forall|j: int| 0 <= j < list.deep_view().len() implies list.deep_view()[j]
        != item@ by {
        assert(list.deep_view()[j] == list[j]@);
    }
    false
}

/// Copies of the items of `batch` that do not occur in `known`, in batch order.
fn select_new(known: &Vec<Item>, batch: &Vec<Item>) -> (r: Vec<Item>)
    ensures
        r.deep_view() == genuinely_new(known.deep_view(), batch.deep_view()),
        r.len() <= batch.len(),
{
    let ghost pred = |item: ItemView| !known.deep_view().contains(item);
    let mut fresh: Vec<Item> = Vec::new();
    let mut i: usize = 0;
    proof {
        reveal(Seq::filter);
        assert(batch.deep_view().take(0) =~= Seq::empty());
        assert(fresh.deep_view() =~= Seq::empty());
    }
    while i < batch.len()
        invariant
            i <= batch.len(),
            pred == (|item: ItemView| !known.deep_view().contains(item)),
            fresh.deep_view() == batch.deep_view().take(i as int).filter(pred),
            fresh.len() <= i,
        decreases batch.len() - i,
    {
        let ghost before = fresh.deep_view();
        let ghost head = batch.deep_view().take(i as int);
        let ghost next = batch.deep_view().take(i + 1);
        proof {
            reveal(Seq::filter);
            assert(next.drop_last() =~= head);
            assert(next.last() == batch[i as int]@);
        }
        if !contains_item(known, &batch[i]) {
            fresh.push(batch[i].clone());
            assert(fresh.deep_view() =~= before.push(batch[i as int]@));
        }
        i += 1;
    }
    assert(batch.deep_view().take(i as int) =~= batch.deep_view());
    fresh
}

impl FeedState {
    /// The state of a feed of which nothing has been seen.
    pub fn new() -> (r: FeedState)
        ensures
            r@ == FeedStateView::empty(),
    {
        let r = FeedState {
            entries: Vec::new(),
            queue: Vec::new(),
            latest_entry_number: 0,
            summary_queue: Vec::new(),
        };
        assert(r@.entries =~= Seq::empty());
        assert(r@.queue =~= Seq::empty());
        assert(r@.summary_queue =~= Seq::empty());
        r
    }

    /// A state with exactly the given contents.
    pub(crate) fn from_parts(
        entries: Vec<Item>,
        queue: Vec<Item>,
        latest_entry_number: u64,
        summary_queue: Vec<SessionSummaryRecord>,
    ) -> (r: FeedState)
        ensures
            r@ == (FeedStateView {
                entries: entries.deep_view(),
                queue: queue.deep_view(),
                latest_entry_number,
                summary_queue: summary_queue.deep_view(),
            }),
    {
        FeedState { entries, queue, latest_entry_number, summary_queue }
    }

    /// The items taken in so far, newest first.
    pub fn entries(&self) -> (r: &Vec<Item>)
        ensures
            r.deep_view() == self@.entries,
    {
        &self.entries
    }

    /// The items waiting to be acted on, oldest first.
    pub fn queue(&self) -> (r: &Vec<Item>)
        ensures
            r.deep_view() == self@.queue,
    {
        &self.queue
    }

    /// The highest number given to an item so far.
    pub fn latest_entry_number(&self) -> (r: u64)
        ensures
            r == self@.latest_entry_number,
    {
        self.latest_entry_number
    }

    /// What was reported, in the order it was reported.
    pub fn summary_queue(&self) -> (r: &Vec<SessionSummaryRecord>)
        ensures
            r.deep_view() == self@.summary_queue,
    {
        &self.summary_queue
    }

    /// Folds a fetched batch into the state.
    ///
    /// The items of the batch that are not yet among the entries are the new
    /// ones; an item counts as recorded when an entry has the same title and
    /// the same locations. Where a backlog limit above zero is given and there
    /// are more new items than that, only the first so many of them, in batch
    /// order, are taken in. The items taken in go to the front of the
    /// entries in batch order, and to the end of the queue and of the summary
    /// log in the opposite order, each with the next free number.
    pub fn merge(&mut self, new_items: &Vec<Item>, backlog_limit: Option<u64>) -> (r: MergeResult)
        requires
            old(self)@.latest_entry_number + new_items.len() <= u64::MAX,
        ensures
            final(self)@ == merged(old(self)@, new_items.deep_view(), backlog_limit),
            r == merge_report(old(self)@, new_items.deep_view(), backlog_limit),
            final(self)@.latest_entry_number == old(self)@.latest_entry_number + r.new_count,
            final(self)@.latest_entry_number >= old(self)@.latest_entry_number,
    {
        let ghost before = self@;
        let ghost batch = new_items.deep_view();
        let mut fresh = select_new(&self.entries, new_items);
        let found: usize = fresh.len();
        let mut count: usize = found;
        match backlog_limit {
            Some(limit) => {
                if limit > 0 && limit < found as u64 {
                    count = limit as usize;
                }
            },
            None => {},
        }
        fresh.truncate(count);
        let ghost kept = fresh.deep_view();
        assert(kept =~= retained(before.entries, batch, backlog_limit));
        let mut j: usize = 0;
        while j < count
            invariant
                j <= count,
                count == fresh.len(),
                kept == fresh.deep_view(),
                before.latest_entry_number + count <= u64::MAX,
                self.latest_entry_number == before.latest_entry_number + j,
                self.entries.deep_view() == before.entries,
                self.queue.deep_view() == before.queue + kept.reverse().take(j as int),
                self.summary_queue.deep_view() == before.summary_queue + summary_of(
                    kept,
                    before.latest_entry_number,
                ).take(j as int),
            decreases count - j,
        {
            let ghost queue_before = self.queue.deep_view();
            let ghost log_before = self.summary_queue.deep_view();
            let item = &fresh[count - 1 - j];
            let number: u64 = self.latest_entry_number + 1;
            let record = SessionSummaryRecord::new(number, item.title().clone());
            let copy = item.clone();
            self.queue.push(copy);
            self.summary_queue.push(record);
            self.latest_entry_number = number;
            proof {
                assert(self.queue.deep_view() =~= queue_before.push(copy@));
                assert(self.summary_queue.deep_view() =~= log_before.push(record@));
                assert(kept.reverse().take(j + 1) =~= kept.reverse().take(j as int).push(copy@));
                assert(summary_of(kept, before.latest_entry_number).take(j + 1) =~= summary_of(
                    kept,
                    before.latest_entry_number,
                ).take(j as int).push(record@));
                assert(self.queue.deep_view() =~= before.queue + kept.reverse().take(j + 1));
                assert(self.summary_queue.deep_view() =~= before.summary_queue + summary_of(
                    kept,
                    before.latest_entry_number,
                ).take(j + 1));
            }
            j += 1;
        }
        proof {
            assert(kept.reverse().take(count as int) =~= kept.reverse());
            assert(summary_of(kept, before.latest_entry_number).take(count as int) =~= summary_of(
                kept,
                before.latest_entry_number,
            ));
        }
        fresh.append(&mut self.entries);
        self.entries = fresh;
        assert(self.entries.deep_view() =~= kept + before.entries);
        MergeResult {
            new_count: count,
            skipped_duplicate_count: new_items.len() - found,
            skipped_backlog_count: found - count,
        }
    }
}

impl Default for FeedState {
    /// The state of a feed of which nothing has been seen.
    fn default() -> (r: FeedState)
        ensures
            r@ == FeedStateView::empty(),
    {
        FeedState::new()
    }
}

impl Clone for FeedState {
    fn clone(&self) -> (r: FeedState)
        ensures
            r@ == self@,
    {
        FeedState {
            entries: clone_items(&self.entries),
            queue: clone_items(&self.queue),
            latest_entry_number: self.latest_entry_number,
            summary_queue: clone_records(&self.summary_queue),
        }
    }
}

impl PartialEq for FeedState {
    fn eq(&self, other: &FeedState) -> (r: bool) {
        same_items(&self.entries, &other.entries) && same_items(&self.queue, &other.queue)
            && self.latest_entry_number == other.latest_entry_number && same_records(
            &self.summary_queue,
            &other.summary_queue,
        )
    }
}

impl vstd::std_specs::cmp::PartialEqSpecImpl for FeedState {
    open spec fn obeys_eq_spec() -> bool {
        true
    }

    open spec fn eq_spec(&self, other: &FeedState) -> bool {
        self@ == other@
    }
}

} // verus!
