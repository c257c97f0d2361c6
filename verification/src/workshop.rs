//! Workshop items as the remote catalog describes them.

use vstd::prelude::*;

verus! {

/// A tag attached to a workshop item.
pub struct WorkshopItemTag {
    /// The text of the tag.
    pub tag: String,
}

impl View for WorkshopItemTag {
    type V = Seq<char>;

    open spec fn view(&self) -> Seq<char> {
        self.tag@
    }
}

impl Clone for WorkshopItemTag {
    fn clone(&self) -> (res: Self)
        ensures
            res@ == self@,
    {
        WorkshopItemTag { tag: self.tag.clone() }
    }
}

/// The mathematical value of a workshop item: what the remote catalog says
/// about one published file at the moment it was asked.
pub ghost struct RemoteItem {
    pub id: Seq<char>,
    pub filename: Seq<char>,
    pub byte_size: nat,
    pub download_url: Seq<char>,
    pub title: Seq<char>,
    pub description: Seq<char>,
    pub created_at: nat,
    pub last_updated_at: nat,
    pub tags: Seq<Seq<char>>,
}

/// A published file of the workshop, as fetched from the remote catalog.
pub struct WorkshopItem {
    /// The identifier of the item.
    pub publishedfileid: String,
    /// The name under which the file was published.
    pub filename: String,
    /// The size of the file in bytes.
    pub file_size: usize,
    /// Where the file is fetched from.
    pub file_url: String,
    /// The title of the item.
    pub title: String,
    /// What the publisher says about the item.
    pub description: String,
    /// When the item was published, in seconds since the epoch.
    pub time_created: usize,
    /// When the item was last updated, in seconds since the epoch.
    pub time_updated: usize,
    /// The tags of the item.
    pub tags: Vec<WorkshopItemTag>,
}

impl View for WorkshopItem {
    type V = RemoteItem;

    open spec fn view(&self) -> RemoteItem {
        RemoteItem {
            id: self.publishedfileid@,
            filename: self.filename@,
            byte_size: self.file_size as nat,
            download_url: self.file_url@,
            title: self.title@,
            description: self.description@,
            created_at: self.time_created as nat,
            last_updated_at: self.time_updated as nat,
            tags: self.tags@.map_values(|t: WorkshopItemTag| t@),
        }
    }
}

/// The values of a list of items, in order.
pub open spec fn items_of(list: Seq<WorkshopItem>) -> Seq<RemoteItem> {
    list.map_values(|item: WorkshopItem| item@)
}

/// Copies a list of tags, tag by tag.
fn clone_tags(tags: &Vec<WorkshopItemTag>) -> (res: Vec<WorkshopItemTag>)
    ensures
        res@.map_values(|t: WorkshopItemTag| t@) == tags@.map_values(|t: WorkshopItemTag| t@),
{
    let mut res: Vec<WorkshopItemTag> = Vec::new();
    let mut i: usize = 0;
    while i < tags.len()
        invariant
            i <= tags.len(),
            res@.len() == i,
            forall|k: int| 0 <= k < i ==> res@[k]@ == tags@[k]@,
        decreases tags.len() - i,
    {
        res.push(tags[i].clone());
        i += 1;
    }
    assert(res@.map_values(|t: WorkshopItemTag| t@) =~= tags@.map_values(|t: WorkshopItemTag| t@));
    res
}

impl Clone for WorkshopItem {
    fn clone(&self) -> (res: Self)
        ensures
            res@ == self@,
    {
        WorkshopItem {
            publishedfileid: self.publishedfileid.clone(),
            filename: self.filename.clone(),
            file_size: self.file_size,
            file_url: self.file_url.clone(),
            title: self.title.clone(),
            description: self.description.clone(),
            time_created: self.time_created,
            time_updated: self.time_updated,
            tags: clone_tags(&self.tags),
        }
    }
}

} // verus!
