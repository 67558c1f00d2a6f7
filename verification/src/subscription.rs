//! A subscription to one feed.

use vstd::prelude::*;
use crate::feed_state::{merge_report, merged, FeedState, FeedStateView, MergeResult};
use crate::item::{Item, ItemView};

verus! {

/// A subscription: where the feed is, what it is called, where its files go,
/// the user's policy for it, and the progress made through it.
#[derive(Debug)]
pub struct Subscription {
    url: String,
    original_url: String,
    name: String,
    directory: String,
    backlog_limit: Option<u64>,
    use_title_as_filename: Option<bool>,
    feed_state: FeedState,
}

/// The mathematical value of a [`Subscription`].
pub struct SubscriptionView {
    /// Where the feed is fetched from now. May be rewritten, for instance
    /// when the feed has moved.
    pub url: Seq<char>,
    /// Where the feed was when the subscription was made. Never changes.
    pub original_url: Seq<char>,
    /// The display name.
    pub name: Seq<char>,
    /// Where the files of this feed are kept.
    pub directory: Seq<char>,
    /// How much of the backlog to take in at once. Zero and `None` set no
    /// bound.
    pub backlog_limit: Option<u64>,
    /// Whether files are named after item titles.
    pub use_title_as_filename: Option<bool>,
    /// The progress made through the feed.
    pub feed_state: FeedStateView,
}

/// The directory of a subscription that was made without one. It stands in
/// until the real storage path is known.
pub open spec fn placeholder_directory() -> Seq<char> {
    "fakedir"@
}

/// The directory that a subscription gets: the one given, or the placeholder.
pub fn process_directory(directory: Option<&str>) -> (r: String)
    ensures
        r@ == match directory {
            Some(given) => given@,
            None => placeholder_directory(),
        },
{
    match directory {
        Some(given) => given.to_owned(),
        None => "fakedir".to_owned(),
    }
}

impl View for Subscription {
    type V = SubscriptionView;

    closed spec fn view(&self) -> SubscriptionView {
        SubscriptionView {
            url: self.url@,
            original_url: self.original_url@,
            name: self.name@,
            directory: self.directory@,
            backlog_limit: self.backlog_limit,
            use_title_as_filename: self.use_title_as_filename,
            feed_state: self.feed_state@,
        }
    }
}

impl DeepView for Subscription {
    type V = SubscriptionView;

    open spec fn deep_view(&self) -> SubscriptionView {
        self@
    }
}

/// The title of the first of `entries`, or nothing where there is none.
pub open spec fn first_title(entries: Seq<ItemView>) -> Seq<char> {
    if entries.len() == 0 {
        Seq::empty()
    } else {
        entries.first().title
    }
}

/// The title of the last of `entries`, or nothing where there is none.
pub open spec fn last_title(entries: Seq<ItemView>) -> Seq<char> {
    if entries.len() == 0 {
        Seq::empty()
    } else {
        entries.last().title
    }
}

impl Subscription {
    /// A subscription of which nothing has been fetched yet. Its backlog
    /// limit is zero, its files are not named after titles, and `url` is on
    /// record as the place it started from. Without a directory it gets the
    /// placeholder.
    pub fn new(url: &str, name: &str, directory: Option<&str>) -> (r: Subscription)
        ensures
            r@ == (SubscriptionView {
                url: url@,
                original_url: url@,
                name: name@,
                directory: match directory {
                    Some(given) => given@,
                    None => placeholder_directory(),
                },
                backlog_limit: Some(0u64),
                use_title_as_filename: Some(false),
                feed_state: FeedStateView::empty(),
            }),
    {
        Subscription {
            url: url.to_owned(),
            original_url: url.to_owned(),
            name: name.to_owned(),
            directory: process_directory(directory),
            backlog_limit: Some(0),
            use_title_as_filename: Some(false),
            feed_state: FeedState::new(),
        }
    }

    /// A subscription with exactly the given contents.
    pub(crate) fn from_parts(
        url: String,
        original_url: String,
        name: String,
        directory: String,
        backlog_limit: Option<u64>,
        use_title_as_filename: Option<bool>,
        feed_state: FeedState,
    ) -> (r: Subscription)
        ensures
            r@ == (SubscriptionView {
                url: url@,
                original_url: original_url@,
                name: name@,
                directory: directory@,
                backlog_limit,
                use_title_as_filename,
                feed_state: feed_state@,
            }),
    {
        Subscription {
            url,
            original_url,
            name,
            directory,
            backlog_limit,
            use_title_as_filename,
            feed_state,
        }
    }

    /// Where the feed is fetched from now.
    pub fn url(&self) -> (r: &String)
        ensures
            r@ == self@.url,
    {
        &self.url
    }

    /// Where the feed was when the subscription was made.
    pub fn original_url(&self) -> (r: &String)
        ensures
            r@ == self@.original_url,
    {
        &self.original_url
    }

    /// The display name.
    pub fn name(&self) -> (r: &String)
        ensures
            r@ == self@.name,
    {
        &self.name
    }

    /// Where the files of this feed are kept.
    pub fn directory(&self) -> (r: &String)
        ensures
            r@ == self@.directory,
    {
        &self.directory
    }

    /// How much of the backlog to take in at once.
    pub fn backlog_limit(&self) -> (r: Option<u64>)
        ensures
            r == self@.backlog_limit,
    {
        self.backlog_limit
    }

    /// Whether files are named after item titles.
    pub fn use_title_as_filename(&self) -> (r: Option<bool>)
        ensures
            r == self@.use_title_as_filename,
    {
        self.use_title_as_filename
    }

    /// Points the subscription at another place to fetch from. Where it
    /// started from stays on record.
    pub fn set_url(&mut self, url: String)
        ensures
            final(self)@ == (SubscriptionView { url: url@, ..old(self)@ }),
    {
        self.url = url;
    }

    /// Gives the subscription another display name.
    pub fn set_name(&mut self, name: String)
        ensures
            final(self)@ == (SubscriptionView { name: name@, ..old(self)@ }),
    {
        self.name = name;
    }

    /// Puts the real storage path in the place of the directory held so far.
    pub fn set_directory(&mut self, directory: String)
        ensures
            final(self)@ == (SubscriptionView { directory: directory@, ..old(self)@ }),
    {
        self.directory = directory;
    }

    /// Sets how much of the backlog to take in at once.
    pub fn set_backlog_limit(&mut self, backlog_limit: Option<u64>)
        ensures
            final(self)@ == (SubscriptionView { backlog_limit, ..old(self)@ }),
    {
        self.backlog_limit = backlog_limit;
    }

    /// Sets whether files are named after item titles.
    pub fn set_use_title_as_filename(&mut self, use_title_as_filename: Option<bool>)
        ensures
            final(self)@ == (SubscriptionView { use_title_as_filename, ..old(self)@ }),
    {
        self.use_title_as_filename = use_title_as_filename;
    }

    /// The progress made through the feed.
    pub fn feed_state(&self) -> (r: &FeedState)
        ensures
            r@ == self@.feed_state,
    {
        &self.feed_state
    }

    /// The highest number given to an item of this feed so far.
    pub fn get_latest_entry_number(&self) -> (r: u64)
        ensures
            r == self@.feed_state.latest_entry_number,
    {
        self.feed_state.latest_entry_number()
    }

    /// The title of the oldest entry kept, or the empty string where there is
    /// none.
    pub fn get_earliest_entry_name(&self) -> (r: String)
        ensures
            r@ == last_title(self@.feed_state.entries),
    {
        let entries = self.feed_state.entries();
        if entries.len() == 0 {
            String::new()
        } else {
            let entry = &entries[entries.len() - 1];
            assert(entries.deep_view().last() == entry@);
            entry.title().clone()
        }
    }

    /// The title of the newest entry, or the empty string where there is
    /// none.
    pub fn get_latest_entry_name(&self) -> (r: String)
        ensures
            r@ == first_title(self@.feed_state.entries),
    {
        let entries = self.feed_state.entries();
        if entries.len() == 0 {
            String::new()
        } else {
            let entry = &entries[0];
            assert(entries.deep_view().first() == entry@);
            entry.title().clone()
        }
    }

    /// Folds a fetched batch into the subscription's state, under the
    /// subscription's own backlog limit. Nothing but the state changes.
    pub fn merge(&mut self, new_items: &Vec<Item>) -> (r: MergeResult)
        requires
            old(self)@.feed_state.latest_entry_number + new_items.len() <= u64::MAX,
        ensures
            final(self)@ == (SubscriptionView {
                feed_state: merged(
                    old(self)@.feed_state,
                    new_items.deep_view(),
                    old(self)@.backlog_limit,
                ),
                ..old(self)@
            }),
            r == merge_report(
                old(self)@.feed_state,
                new_items.deep_view(),
                old(self)@.backlog_limit,
            ),
    {
        let limit = self.backlog_limit;
        self.feed_state.merge(new_items, limit)
    }
}

impl Clone for Subscription {
    fn clone(&self) -> (r: Subscription)
        ensures
            r@ == self@,
    {
        Subscription {
            url: self.url.clone(),
            original_url: self.original_url.clone(),
            name: self.name.clone(),
            directory: self.directory.clone(),
            backlog_limit: self.backlog_limit,
            use_title_as_filename: self.use_title_as_filename,
            feed_state: self.feed_state.clone(),
        }
    }
}

impl PartialEq for Subscription {
    /// Two subscriptions are equal when every field agrees, the state
    /// included.
    fn eq(&self, other: &Subscription) -> (r: bool) {
        self.url == other.url && self.original_url == other.original_url && self.name
            == other.name && self.directory == other.directory && self.backlog_limit
            == other.backlog_limit && self.use_title_as_filename == other.use_title_as_filename
            && self.feed_state == other.feed_state
    }
}

impl vstd::std_specs::cmp::PartialEqSpecImpl for Subscription {
    open spec fn obeys_eq_spec() -> bool {
        true
    }

    open spec fn eq_spec(&self, other: &Subscription) -> bool {
        self@ == other@
    }
}

} // verus!
