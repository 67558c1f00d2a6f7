//! One entry of a feed.

use vstd::prelude::*;

verus! {

/// One entry observed in a feed: its title and the places it can be fetched
/// from, in the order the feed gave them. Fixed once built.
#[derive(Debug)]
pub struct Item {
    title: String,
    urls: Vec<String>,
}

/// The mathematical value of an [`Item`].
pub struct ItemView {
    pub title: Seq<char>,
    pub urls: Seq<Seq<char>>,
}

impl View for Item {
    type V = ItemView;

    closed spec fn view(&self) -> ItemView {
        ItemView { title: self.title@, urls: self.urls.deep_view() }
    }
}

impl DeepView for Item {
    type V = ItemView;

    open spec fn deep_view(&self) -> ItemView {
        self@
    }
}

/// A copy of a list of strings.
pub fn clone_strings(list: &Vec<String>) -> (r: Vec<String>)
    ensures
        r.deep_view() == list.deep_view(),
{
    let mut out: Vec<String> = Vec::new();
    let mut i: usize = 0;
    while i < list.len()
        invariant
            i <= list.len(),
            out.len() == i,
            forall|j: int| 0 <= j < i ==> out[j]@ == list[j]@,
        decreases list.len() - i,
    {
        out.push(list[i].clone());
        i += 1;
    }
    assert(out.deep_view() =~= list.deep_view());
    out
}

/// Whether two lists hold the same strings in the same order.
pub fn same_strings(a: &Vec<String>, b: &Vec<String>) -> (r: bool)
    ensures
        r == (a.deep_view() == b.deep_view()),
{
    if a.len() != b.len() {
        assert(a.deep_view().len() != b.deep_view().len());
        return false;
    }
    let mut i: usize = 0;
    while i < a.len()
        invariant
            i <= a.len(),
            a.len() == b.len(),
            forall|j: int| 0 <= j < i ==> a[j]@ == b[j]@,
        decreases a.len() - i,
    {
        if a[i] != b[i] {
            assert(a.deep_view()[i as int] != b.deep_view()[i as int]);
            return false;
        }
        i += 1;
    }
    assert(a.deep_view() =~= b.deep_view());
    true
}

/// A copy of a list of items.
pub fn clone_items(list: &Vec<Item>) -> (r: Vec<Item>)
    ensures
        r.deep_view() == list.deep_view(),
{
    let mut out: Vec<Item> = Vec::new();
    let mut i: usize = 0;
    while i < list.len()
        invariant
            i <= list.len(),
            out.len() == i,
            forall|j: int| 0 <= j < i ==> out[j]@ == list[j]@,
        decreases list.len() - i,
    {
        out.push(list[i].clone());
        i += 1;
    }
    assert(out.deep_view() =~= list.deep_view());
    out
}

/// Whether two lists hold equal items in the same order.
pub fn same_items(a: &Vec<Item>, b: &Vec<Item>) -> (r: bool)
    ensures
        r == (a.deep_view() == b.deep_view()),
{
    if a.len() != b.len() {
        assert(a.deep_view().len() != b.deep_view().len());
        return false;
    }
    let mut i: usize = 0;
    while i < a.len()
        invariant
            i <= a.len(),
            a.len() == b.len(),
            forall|j: int| 0 <= j < i ==> a[j]@ == b[j]@,
        decreases a.len() - i,
    {
        if a[i] != b[i] {
            assert(a.deep_view()[i as int] != b.deep_view()[i as int]);
            return false;
        }
        i += 1;
    }
    assert(a.deep_view() =~= b.deep_view());
    true
}

impl Item {
    /// An item with the given title, which may be empty, and locations.
    pub fn new(title: String, urls: Vec<String>) -> (r: Item)
        ensures
            r@ == (ItemView { title: title@, urls: urls.deep_view() }),
    {
        Item { title, urls }
    }

    /// The title.
    pub fn title(&self) -> (r: &String)
        ensures
            r@ == self@.title,
    {
        &self.title
    }

    /// The locations, in feed order.
    pub fn urls(&self) -> (r: &Vec<String>)
        ensures
            r.deep_view() == self@.urls,
    {
        &self.urls
    }
}

impl Default for Item {
    /// The item with an empty title and no locations.
    fn default() -> (r: Item)
        ensures
            r@ == (ItemView { title: Seq::empty(), urls: Seq::empty() }),
    {
        let r = Item { title: String::new(), urls: Vec::new() };
        assert(r@.urls =~= Seq::empty());
        r
    }
}

impl Clone for Item {
    fn clone(&self) -> (r: Item)
        ensures
            r@ == self@,
    {
        Item { title: self.title.clone(), urls: clone_strings(&self.urls) }
    }
}

impl PartialEq for Item {
    /// Two items are equal when title and locations agree exactly.
    fn eq(&self, other: &Item) -> (r: bool) {
        self.title == other.title && same_strings(&self.urls, &other.urls)
    }
}

impl vstd::std_specs::cmp::PartialEqSpecImpl for Item {
    open spec fn obeys_eq_spec() -> bool {
        true
    }

    open spec fn eq_spec(&self, other: &Item) -> bool {
        self@ == other@
    }
}

} // verus!
