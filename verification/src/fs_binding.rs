//! What the scripts' `fs.readdir` answers for the entries of a directory.
use vstd::prelude::*;

verus! {

/// A directory entry as read: its path and file name, and, when its
/// metadata could be read, whether it is a file and whether it is a
/// directory.
#[derive(Clone, Debug, PartialEq, Eq)]
pub struct DirEntryInfo {
    pub path: String,
    pub name: String,
    pub kind: Option<(bool, bool)>,
}

/// One element of the `readdir` answer.
#[derive(Clone, Debug, PartialEq, Eq)]
pub enum ListingItem {
    /// The entry's path.
    Path(String),
    /// The entry's details.
    Detail { is_file: bool, is_directory: bool, name: String, path: String },
}

/// The answer element for one entry: `None` when the entry is skipped (it
/// could not be read, or details were asked for and its metadata could not
/// be read).
pub open spec fn listing_item(entry: Option<DirEntryInfo>, detail: bool) -> Option<ListingItem> {
    match entry {
        None => None,
        Some(e) => if !detail {
            Some(ListingItem::Path(e.path))
        } else {
            match e.kind {
                None => None,
                Some(k) => Some(
                    ListingItem::Detail { is_file: k.0, is_directory: k.1, name: e.name, path: e.path },
                ),
            }
        },
    }
}

/// The answer for a directory's entries, in order.
pub open spec fn listing(entries: Seq<Option<DirEntryInfo>>, detail: bool) -> Seq<ListingItem>
    decreases entries.len(),
{
    if entries.len() == 0 {
        Seq::empty()
    } else {
        let prev = listing(entries.drop_last(), detail);
        match listing_item(entries.last(), detail) {
            Some(item) => prev.push(item),
            None => prev,
        }
    }
}

/// The entries that can be read.
pub open spec fn is_readable(e: Option<DirEntryInfo>) -> bool {
    e is Some
}

/// The entries that can be read and whose metadata can be read.
pub open spec fn has_metadata(e: Option<DirEntryInfo>) -> bool {
    e is Some && e.unwrap().kind is Some
}

/// The path element of a readable entry.
pub open spec fn path_item(e: Option<DirEntryInfo>) -> ListingItem {
    ListingItem::Path(e.unwrap().path)
}

/// The details element of an entry whose metadata could be read.
pub open spec fn detail_item(e: Option<DirEntryInfo>) -> ListingItem {
    ListingItem::Detail {
        is_file: e.unwrap().kind.unwrap().0,
        is_directory: e.unwrap().kind.unwrap().1,
        name: e.unwrap().name,
        path: e.unwrap().path,
    }
}

/// What a listing holds: without details, one path per readable entry,
/// whatever its kind (files and directories alike), in the entries' order;
/// with details, one kind/name/path record per entry whose metadata could
/// be read, in order.
pub proof fn lemma_listing_law(entries: Seq<Option<DirEntryInfo>>)
    ensures
        listing(entries, false) == entries.filter(|e: Option<DirEntryInfo>| is_readable(e)).map_values(
            |e: Option<DirEntryInfo>| path_item(e),
        ),
        listing(entries, true) == entries.filter(|e: Option<DirEntryInfo>| has_metadata(e)).map_values(
            |e: Option<DirEntryInfo>| detail_item(e),
        ),
    decreases entries.len(),
{
    let p1 = |e: Option<DirEntryInfo>| is_readable(e);
    let p2 = |e: Option<DirEntryInfo>| has_metadata(e);
    let f1 = |e: Option<DirEntryInfo>| path_item(e);
    let f2 = |e: Option<DirEntryInfo>| detail_item(e);
    reveal_with_fuel(Seq::<_>::filter, 1);
    if entries.len() == 0 {
        assert(entries.filter(p1).map_values(f1) =~= Seq::<ListingItem>::empty());
        assert(entries.filter(p2).map_values(f2) =~= Seq::<ListingItem>::empty());
    } else {
        let init = entries.drop_last();
        let e = entries.last();
        lemma_listing_law(init);
        if p1(e) {
            assert(entries.filter(p1) == init.filter(p1).push(e));
            assert(init.filter(p1).push(e).map_values(f1) =~= init.filter(p1).map_values(f1).push(
                f1(e),
            ));
        } else {
            assert(entries.filter(p1) == init.filter(p1));
        }
        if p2(e) {
            assert(entries.filter(p2) == init.filter(p2).push(e));
            assert(init.filter(p2).push(e).map_values(f2) =~= init.filter(p2).map_values(f2).push(
                f2(e),
            ));
        } else {
            assert(entries.filter(p2) == init.filter(p2));
        }
    }
}

/// The `readdir` answer: each readable entry's path, or with `detail` its
/// kind, name and path; entries that cannot be read (or whose metadata
/// cannot be read, with `detail`) are left out.
pub fn read_dir_listing(entries: Vec<Option<DirEntryInfo>>, detail: bool) -> (r: Vec<ListingItem>)
    ensures
        r@ == listing(entries@, detail),
        !detail ==> r@ == entries@.filter(|e: Option<DirEntryInfo>| is_readable(e)).map_values(
            |e: Option<DirEntryInfo>| path_item(e),
        ),
        detail ==> r@ == entries@.filter(|e: Option<DirEntryInfo>| has_metadata(e)).map_values(
            |e: Option<DirEntryInfo>| detail_item(e),
        ),
{
    let ghost all = entries@;
    let mut ret_array: Vec<ListingItem> = Vec::new();
    for item in it: entries
        invariant
            all == it.seq(),
            ret_array@ == listing(all.take(it.index() as int), detail),
    {
        let ghost k = it.index() as int;
        proof {
            assert(all.take(k + 1).drop_last() =~= all.take(k));
            assert(all.take(k + 1).last() == item);
        }
        match item {
            None => {},
            Some(item_v) => {
                if detail {
                    match item_v.kind {
                        None => {},
                        Some(kind) => {
                            ret_array.push(
                                ListingItem::Detail {
                                    is_file: kind.0,
                                    is_directory: kind.1,
                                    name: item_v.name,
                                    path: item_v.path,
                                },
                            );
                        },
                    }
                } else {
                    ret_array.push(ListingItem::Path(item_v.path));
                }
            },
        }
    }
    proof {
        assert(all.take(all.len() as int) =~= all);
        lemma_listing_law(all);
    }
    ret_array
}

} // verus!
