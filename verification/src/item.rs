//! The persisted resource record and the page assembled from it. Items
//! are owned by the primary store; the cache only ever holds a serialized
//! snapshot of a page of them.

use vstd::prelude::*;

verus! {

/// One persisted record: an identifier, a title, a body.
#[derive(Debug)]
pub struct Item {
    pub id: u64,
    pub title: String,
    pub content: String,
}

/// The mathematical shape of an [`Item`]: its identifier and the
/// character sequences of its text fields.
pub struct ItemModel {
    pub id: u64,
    pub title: Seq<char>,
    pub content: Seq<char>,
}

impl View for Item {
    type V = ItemModel;

    open spec fn view(&self) -> ItemModel {
        ItemModel { id: self.id, title: self.title@, content: self.content@ }
    }
}

impl DeepView for Item {
    type V = ItemModel;

    open spec fn deep_view(&self) -> ItemModel {
        self.view()
    }
}

impl Clone for Item {
    fn clone(&self) -> (r: Self)
        ensures
            r@ == self@,
    {
        Item { id: self.id, title: self.title.clone(), content: self.content.clone() }
    }
}

/// Where a served page came from: the key-value cache, or the
/// authoritative store.
#[derive(Clone, Copy, PartialEq, Eq, Structural, Debug)]
pub enum Source {
    Cache,
    Primary,
}

/// A served collection page: a bounded, ordered run of items together
/// with its provenance tag.
pub struct CollectionPage {
    pub items: Vec<Item>,
    pub source: Source,
}

impl CollectionPage {
    /// The item sequence as its mathematical model.
    pub open spec fn items_model(&self) -> Seq<ItemModel> {
        self.items.deep_view()
    }
}

/// Text fields short enough, and a count small enough, for every number
/// the codec writes to fit in a `u64`. Every item held by executable code
/// satisfies this; the bound only matters to statements over arbitrary
/// mathematical item sequences.
pub open spec fn item_bounded(i: ItemModel) -> bool {
    i.title.len() <= u64::MAX && i.content.len() <= u64::MAX
}

pub open spec fn items_bounded(items: Seq<ItemModel>) -> bool {
    items.len() <= u64::MAX && forall|k: int| 0 <= k < items.len() ==> item_bounded(
        #[trigger] items[k],
    )
}

} // verus!
