//! Deciding who gets told about a release, and the release cursor.
//!
//! A poll cycle hands the parsed feed to `process_feed`: items are walked
//! newest-first until the stored cursor's guid is met, each new item is
//! turned into a notification plan (or the error that stopped it), and
//! the cursor advances to the newest item's guid whether or not any
//! single plan failed.

use vstd::prelude::*;
use crate::feed::FeedItem;
use crate::feed::ItemV;
use crate::feed::SubsPlsChannel;
use crate::show::Show;
use crate::show::ShowV;
use crate::slug::spec_show_id;
use crate::slug::rss_category_to_show_id;
use crate::store::Store;
use crate::store::has_show;
use crate::store::subscribers;
use crate::store::distinct_show_ids;
use crate::strutil::str_eq;

verus! {

/// Why one release could not be turned into notifications.
#[derive(Debug, PartialEq, Eq, Structural, Clone, Copy)]
pub enum NotificationError {
    MappingShowIdError,
    DBUsersError,
    DBShowError,
}

/// Everything needed to notify the subscribers of one release.
pub struct NotificationData {
    pub users: Vec<i64>,
    pub show: Show,
    pub item: FeedItem,
}

/// The mathematical value of a `NotificationData`.
pub ghost struct NotificationDataV {
    pub users: Seq<i64>,
    pub show: ShowV,
    pub item: ItemV,
}

impl View for NotificationData {
    type V = NotificationDataV;

    open spec fn view(&self) -> NotificationDataV {
        NotificationDataV { users: self.users@, show: self.show@, item: self.item@ }
    }
}

/// The show that carries this identifier.
pub open spec fn show_with_id(shows: Seq<ShowV>, id: Seq<char>) -> ShowV {
    shows[choose|i: int| 0 <= i < shows.len() && shows[i].id == id]
}

/// The plan for one release: the canonical show id is derived from its
/// category — failing as a mapping error — then the subscribers and the
/// stored show are looked up — an absent show is a lookup error. A show
/// with no subscribers is a plan with no users, not an error.
pub open spec fn spec_plan_notification(
    shows: Seq<ShowV>,
    links: Seq<(i64, Seq<char>)>,
    item: ItemV,
) -> Result<NotificationDataV, NotificationError> {
    match spec_show_id(item.category) {
        None => Err(NotificationError::MappingShowIdError),
        Some(id) => if !has_show(shows, id) {
            Err(NotificationError::DBShowError)
        } else {
            Ok(
                NotificationDataV {
                    users: subscribers(links, id),
                    show: show_with_id(shows, id),
                    item,
                },
            )
        },
    }
}

/// How many items at the front of the feed are new: everything before
/// the first item whose guid equals the cursor.
pub open spec fn new_items_count(items: Seq<ItemV>, last: Seq<char>) -> int
    decreases items.len(),
{
    if items.len() == 0 {
        0
    } else if items[0].guid == last {
        0
    } else {
        1 + new_items_count(items.drop_first(), last)
    }
}

/// What "new" means: every item before the cut has a guid other than the
/// cursor's, and the item at the cut — when one exists — carries exactly
/// the cursor's guid. Items at or past the cut are never reprocessed.
pub proof fn lemma_new_items_count(items: Seq<ItemV>, last: Seq<char>)
    ensures
        0 <= new_items_count(items, last) <= items.len(),
        forall|j: int| 0 <= j < new_items_count(items, last) ==> items[j].guid != last,
        new_items_count(items, last) < items.len() ==> items[new_items_count(items, last)].guid
            == last,
    decreases items.len(),
{
    if items.len() > 0 && items[0].guid != last {
        let rest = items.drop_first();
        lemma_new_items_count(rest, last);
        assert forall|j: int| 0 <= j < new_items_count(items, last) implies items[j].guid
            != last by {
            if j > 0 {
                assert(rest[j - 1] == items[j]);
                assert(rest[j - 1].guid != last);
            }
        }
        if new_items_count(items, last) < items.len() {
            assert(items[new_items_count(items, last)] == rest[new_items_count(rest, last)]);
        }
    }
}

/// The plan for one release against the current store.
pub fn get_notification_data(store: &Store, item: &FeedItem) -> (r: Result<
    NotificationData,
    NotificationError,
>)
    requires
        store.wf(),
    ensures
        match r {
            Ok(d) => spec_plan_notification(store.spec_shows(), store.spec_links(), item@) == Ok::<
                NotificationDataV,
                NotificationError,
            >(d@),
            Err(e) => spec_plan_notification(store.spec_shows(), store.spec_links(), item@)
                == Err::<NotificationDataV, NotificationError>(e),
        },
{
    let show_id = match rss_category_to_show_id(item.category.as_str()) {
        None => {
            return Err(NotificationError::MappingShowIdError);
        },
        Some(id) => id,
    };
    let users = store.get_user_ids_for_show_id(show_id.as_str());
    let show = match store.get_show_from_show_id(show_id.as_str()) {
        None => {
            return Err(NotificationError::DBShowError);
        },
        Some(s) => s,
    };
    proof {
        let shows = store.spec_shows();
        let id = show_id@;
        let w = choose|i: int| 0 <= i < shows.len() && shows[i].id == id;
        let k = choose|i: int| 0 <= i < shows.len() && shows[i] == show@;
        assert(distinct_show_ids(shows));
        assert(shows[k].id == id);
        assert(shows[w] == shows[k]) by {
            if w != k {
                assert(shows[w].id == shows[k].id);
            }
        }
    }
    Ok(NotificationData { users, show, item: item.duplicate() })
}

/// The plans for every new item of the feed, newest first: items are
/// taken in feed order until one carries the cursor's guid.
pub fn plan_notifications(store: &Store, feed: &SubsPlsChannel, last_rss: &str) -> (r: Vec<
    Result<NotificationData, NotificationError>,
>)
    requires
        store.wf(),
    ensures
        r@.len() == new_items_count(feed@.items, last_rss@),
        forall|k: int|
            0 <= k < r@.len() ==> (match #[trigger] r@[k] {
                Ok(d) => spec_plan_notification(store.spec_shows(), store.spec_links(), feed@.items[k])
                    == Ok::<NotificationDataV, NotificationError>(d@),
                Err(e) => spec_plan_notification(store.spec_shows(), store.spec_links(), feed@.items[k])
                    == Err::<NotificationDataV, NotificationError>(e),
            }),
{
    let ghost items = feed@.items;
    let mut r: Vec<Result<NotificationData, NotificationError>> = Vec::new();
    let mut i: usize = 0;
    proof {
        assert(items.skip(0) =~= items);
    }
    while i < feed.items.len()
        invariant
            i <= feed.items@.len(),
            feed.items@.len() == items.len(),
            items == feed@.items,
            store.wf(),
            r@.len() == i,
            new_items_count(items, last_rss@) == i + new_items_count(
                items.skip(i as int),
                last_rss@,
            ),
            forall|j: int| 0 <= j < i ==> items[j].guid != last_rss@,
            forall|k: int|
                0 <= k < i ==> (match #[trigger] r@[k] {
                    Ok(d) => spec_plan_notification(store.spec_shows(), store.spec_links(), items[k])
                        == Ok::<NotificationDataV, NotificationError>(d@),
                    Err(e) => spec_plan_notification(store.spec_shows(), store.spec_links(), items[k])
                        == Err::<NotificationDataV, NotificationError>(e),
                }),
        decreases feed.items@.len() - i,
    {
        proof {
            let s = items.skip(i as int);
            assert(s[0] == items[i as int]);
            assert(s.drop_first() =~= items.skip(i + 1));
        }
        let guid_matches = str_eq(feed.items[i].guid.as_str(), last_rss);
        if guid_matches {
            proof {
                assert(new_items_count(items.skip(i as int), last_rss@) == 0);
            }
            return r;
        }
        let plan = get_notification_data(store, &feed.items[i]);
        r.push(plan);
        i += 1;
    }
    proof {
        assert(items.skip(items.len() as int) =~= Seq::<ItemV>::empty());
    }
    r
}

/// One poll cycle against a parsed feed: plan a notification for every
/// item newer than the stored cursor, then move the cursor to the newest
/// item's guid — whether or not any single plan failed. An empty feed
/// changes nothing.
pub fn process_feed(store: &mut Store, feed: &SubsPlsChannel) -> (r: Vec<
    Result<NotificationData, NotificationError>,
>)
    requires
        old(store).wf(),
    ensures
        final(store).wf(),
        final(store).spec_shows() == old(store).spec_shows(),
        final(store).spec_users() == old(store).spec_users(),
        final(store).spec_links() == old(store).spec_links(),
        feed@.items.len() == 0 ==> final(store).spec_guid() == old(store).spec_guid() && r@.len()
            == 0,
        feed@.items.len() > 0 ==> final(store).spec_guid() == feed@.items[0].guid,
        r@.len() == new_items_count(feed@.items, old(store).spec_guid()),
        forall|k: int|
            0 <= k < r@.len() ==> (match #[trigger] r@[k] {
                Ok(d) => spec_plan_notification(
                    old(store).spec_shows(),
                    old(store).spec_links(),
                    feed@.items[k],
                ) == Ok::<NotificationDataV, NotificationError>(d@),
                Err(e) => spec_plan_notification(
                    old(store).spec_shows(),
                    old(store).spec_links(),
                    feed@.items[k],
                ) == Err::<NotificationDataV, NotificationError>(e),
            }),
{
    if feed.items.len() == 0 {
        let r: Vec<Result<NotificationData, NotificationError>> = Vec::new();
        return r;
    }
    let last = store.get_guid();
    let plans = plan_notifications(store, feed, last.as_str());
    let newest = feed.items[0].guid.clone();
    store.save_guid(newest.as_str());
    plans
}

} // verus!
