//! The persisted state of the tracker: known shows, registered users, the
//! user/show watch links and the release cursor.
//!
//! The store is modelled as plain vectors with uniqueness invariants; the
//! surrounding program is free to keep it on any backing it likes and to
//! rebuild it through the constructors here.

use vstd::prelude::*;
use crate::show::Show;
use crate::show::ShowV;
use crate::strutil::str_eq;

verus! {

/// Some stored show carries this identifier.
pub open spec fn has_show(shows: Seq<ShowV>, id: Seq<char>) -> bool {
    exists|i: int| 0 <= i < shows.len() && shows[i].id == id
}

/// Some stored show carries this display name.
pub open spec fn has_show_name(shows: Seq<ShowV>, name: Seq<char>) -> bool {
    exists|i: int| 0 <= i < shows.len() && shows[i].name == name
}

/// First index at or after `k` of a show with this display name.
pub open spec fn find_name_from(shows: Seq<ShowV>, name: Seq<char>, k: int) -> Option<int>
    decreases shows.len() - k,
    when 0 <= k <= shows.len()
{
    if k >= shows.len() {
        None
    } else if shows[k].name == name {
        Some(k)
    } else {
        find_name_from(shows, name, k + 1)
    }
}

/// The first stored show with this display name.
pub open spec fn show_by_name(shows: Seq<ShowV>, name: Seq<char>) -> ShowV {
    shows[find_name_from(shows, name, 0)->Some_0]
}

/// The user currently watches the show.
pub open spec fn has_link(links: Seq<(i64, Seq<char>)>, user_id: i64, show_id: Seq<char>) -> bool {
    links.contains((user_id, show_id))
}

pub open spec fn distinct_show_ids(shows: Seq<ShowV>) -> bool {
    forall|i: int, j: int| 0 <= i < j < shows.len() ==> shows[i].id != shows[j].id
}

pub open spec fn all_shows_wf(shows: Seq<ShowV>) -> bool {
    forall|i: int| 0 <= i < shows.len() ==> shows[i].wf()
}

pub open spec fn distinct_seq<T>(s: Seq<T>) -> bool {
    forall|i: int, j: int| 0 <= i < j < s.len() ==> s[i] != s[j]
}

pub open spec fn links_view(links: Seq<(i64, String)>) -> Seq<(i64, Seq<char>)> {
    links.map_values(|l: (i64, String)| (l.0, l.1@))
}

/// All user ids subscribed to a show, in link order.
pub open spec fn subscribers(links: Seq<(i64, Seq<char>)>, show_id: Seq<char>) -> Seq<i64>
    decreases links.len(),
{
    if links.len() == 0 {
        Seq::empty()
    } else if links[0].1 == show_id {
        seq![links[0].0] + subscribers(links.drop_first(), show_id)
    } else {
        subscribers(links.drop_first(), show_id)
    }
}

/// The links that remain after one user/show pair is deleted.
pub open spec fn remove_pair(
    links: Seq<(i64, Seq<char>)>,
    user_id: i64,
    show_id: Seq<char>,
) -> Seq<(i64, Seq<char>)>
    decreases links.len(),
{
    if links.len() == 0 {
        Seq::empty()
    } else if links[0] == (user_id, show_id) {
        remove_pair(links.drop_first(), user_id, show_id)
    } else {
        seq![links[0]] + remove_pair(links.drop_first(), user_id, show_id)
    }
}

/// The links that remain after a user is removed with everything they watch.
pub open spec fn remove_user_links(links: Seq<(i64, Seq<char>)>, user_id: i64) -> Seq<
    (i64, Seq<char>),
>
    decreases links.len(),
{
    if links.len() == 0 {
        Seq::empty()
    } else if links[0].0 == user_id {
        remove_user_links(links.drop_first(), user_id)
    } else {
        seq![links[0]] + remove_user_links(links.drop_first(), user_id)
    }
}

/// The users that remain after one is removed.
pub open spec fn remove_user_id(users: Seq<i64>, user_id: i64) -> Seq<i64>
    decreases users.len(),
{
    if users.len() == 0 {
        Seq::empty()
    } else if users[0] == user_id {
        remove_user_id(users.drop_first(), user_id)
    } else {
        seq![users[0]] + remove_user_id(users.drop_first(), user_id)
    }
}

/// The shows of one user, in store order.
pub open spec fn user_shows(
    shows: Seq<ShowV>,
    links: Seq<(i64, Seq<char>)>,
    user_id: i64,
) -> Seq<ShowV>
    decreases shows.len(),
{
    if shows.len() == 0 {
        Seq::empty()
    } else if has_link(links, user_id, shows[0].id) {
        seq![shows[0]] + user_shows(shows.drop_first(), links, user_id)
    } else {
        user_shows(shows.drop_first(), links, user_id)
    }
}

pub proof fn lemma_remove_pair_membership(
    links: Seq<(i64, Seq<char>)>,
    user_id: i64,
    show_id: Seq<char>,
)
    ensures
        forall|p: (i64, Seq<char>)|
            remove_pair(links, user_id, show_id).contains(p) ==> links.contains(p) && p != (
            user_id,
            show_id,
            ),
    decreases links.len(),
{
    if links.len() > 0 {
        lemma_remove_pair_membership(links.drop_first(), user_id, show_id);
        assert forall|p: (i64, Seq<char>)|
            remove_pair(links, user_id, show_id).contains(p) implies links.contains(p) && p != (
            user_id,
            show_id,
        ) by {
            let r = remove_pair(links, user_id, show_id);
            let rest = remove_pair(links.drop_first(), user_id, show_id);
            if links[0] == (user_id, show_id) {
                assert(rest.contains(p));
            } else {
                if p == links[0] {
                    assert(links.contains(p)) by {
                        assert(links[0] == p);
                    }
                } else {
                    let k = choose|k: int| 0 <= k < r.len() && r[k] == p;
                    assert(rest[k - 1] == p);
                    assert(rest.contains(p));
                }
            }
            if links.drop_first().contains(p) {
                let k = choose|k: int| 0 <= k < links.drop_first().len() && links.drop_first()[k]
                    == p;
                assert(links[k + 1] == p);
            }
        }
    }
}

pub proof fn lemma_remove_pair_distinct(
    links: Seq<(i64, Seq<char>)>,
    user_id: i64,
    show_id: Seq<char>,
)
    requires
        distinct_seq(links),
    ensures
        distinct_seq(remove_pair(links, user_id, show_id)),
    decreases links.len(),
{
    if links.len() > 0 {
        let rest = links.drop_first();
        assert(forall|i: int, j: int|
            0 <= i < j < rest.len() ==> rest[i] == links[i + 1] && rest[j] == links[j + 1]);
        assert(distinct_seq(rest));
        lemma_remove_pair_distinct(rest, user_id, show_id);
        if links[0] != (user_id, show_id) {
            lemma_remove_pair_membership(rest, user_id, show_id);
            let r = remove_pair(links, user_id, show_id);
            let tail = remove_pair(rest, user_id, show_id);
            assert forall|i: int, j: int| 0 <= i < j < r.len() implies r[i] != r[j] by {
                if i == 0 {
                    if tail.contains(links[0]) {
                        assert(rest.contains(links[0]));
                        let k = choose|k: int| 0 <= k < rest.len() && rest[k] == links[0];
                        assert(links[k + 1] == links[0]);
                        assert(false);
                    }
                    assert(tail[j - 1] == r[j]);
                    assert(tail.contains(tail[j - 1]));
                } else {
                    assert(r[i] == tail[i - 1] && r[j] == tail[j - 1]);
                }
            }
        }
    }
}

pub proof fn lemma_remove_user_links_membership(links: Seq<(i64, Seq<char>)>, user_id: i64)
    ensures
        forall|p: (i64, Seq<char>)|
            remove_user_links(links, user_id).contains(p) ==> links.contains(p) && p.0 != user_id,
    decreases links.len(),
{
    if links.len() > 0 {
        lemma_remove_user_links_membership(links.drop_first(), user_id);
        assert forall|p: (i64, Seq<char>)|
            remove_user_links(links, user_id).contains(p) implies links.contains(p) && p.0
            != user_id by {
            let r = remove_user_links(links, user_id);
            let rest = remove_user_links(links.drop_first(), user_id);
            if links[0].0 == user_id {
                assert(rest.contains(p));
            } else {
                if p != links[0] {
                    let k = choose|k: int| 0 <= k < r.len() && r[k] == p;
                    assert(rest[k - 1] == p);
                    assert(rest.contains(p));
                }
            }
            if links.drop_first().contains(p) {
                let k = choose|k: int| 0 <= k < links.drop_first().len() && links.drop_first()[k]
                    == p;
                assert(links[k + 1] == p);
            }
        }
    }
}

pub proof fn lemma_remove_user_links_distinct(links: Seq<(i64, Seq<char>)>, user_id: i64)
    requires
        distinct_seq(links),
    ensures
        distinct_seq(remove_user_links(links, user_id)),
    decreases links.len(),
{
    if links.len() > 0 {
        let rest = links.drop_first();
        assert(forall|i: int, j: int|
            0 <= i < j < rest.len() ==> rest[i] == links[i + 1] && rest[j] == links[j + 1]);
        assert(distinct_seq(rest));
        lemma_remove_user_links_distinct(rest, user_id);
        if links[0].0 != user_id {
            lemma_remove_user_links_membership(rest, user_id);
            let r = remove_user_links(links, user_id);
            let tail = remove_user_links(rest, user_id);
            assert forall|i: int, j: int| 0 <= i < j < r.len() implies r[i] != r[j] by {
                if i == 0 {
                    if tail.contains(links[0]) {
                        assert(rest.contains(links[0]));
                        let k = choose|k: int| 0 <= k < rest.len() && rest[k] == links[0];
                        assert(links[k + 1] == links[0]);
                        assert(false);
                    }
                    assert(tail[j - 1] == r[j]);
                    assert(tail.contains(tail[j - 1]));
                } else {
                    assert(r[i] == tail[i - 1] && r[j] == tail[j - 1]);
                }
            }
        }
    }
}

pub proof fn lemma_remove_user_id_membership(users: Seq<i64>, user_id: i64)
    ensures
        forall|u: i64|
            remove_user_id(users, user_id).contains(u) ==> users.contains(u) && u != user_id,
    decreases users.len(),
{
    if users.len() > 0 {
        lemma_remove_user_id_membership(users.drop_first(), user_id);
        assert forall|u: i64|
            remove_user_id(users, user_id).contains(u) implies users.contains(u) && u
            != user_id by {
            let r = remove_user_id(users, user_id);
            let rest = remove_user_id(users.drop_first(), user_id);
            if users[0] == user_id {
                assert(rest.contains(u));
            } else {
                if u != users[0] {
                    let k = choose|k: int| 0 <= k < r.len() && r[k] == u;
                    assert(rest[k - 1] == u);
                    assert(rest.contains(u));
                }
            }
            if users.drop_first().contains(u) {
                let k = choose|k: int| 0 <= k < users.drop_first().len() && users.drop_first()[k]
                    == u;
                assert(users[k + 1] == u);
            }
        }
    }
}

pub proof fn lemma_remove_user_id_distinct(users: Seq<i64>, user_id: i64)
    requires
        distinct_seq(users),
    ensures
        distinct_seq(remove_user_id(users, user_id)),
    decreases users.len(),
{
    if users.len() > 0 {
        let rest = users.drop_first();
        assert(forall|i: int, j: int|
            0 <= i < j < rest.len() ==> rest[i] == users[i + 1] && rest[j] == users[j + 1]);
        assert(distinct_seq(rest));
        lemma_remove_user_id_distinct(rest, user_id);
        if users[0] != user_id {
            lemma_remove_user_id_membership(rest, user_id);
            let r = remove_user_id(users, user_id);
            let tail = remove_user_id(rest, user_id);
            assert forall|i: int, j: int| 0 <= i < j < r.len() implies r[i] != r[j] by {
                if i == 0 {
                    if tail.contains(users[0]) {
                        assert(rest.contains(users[0]));
                        let k = choose|k: int| 0 <= k < rest.len() && rest[k] == users[0];
                        assert(users[k + 1] == users[0]);
                        assert(false);
                    }
                    assert(tail[j - 1] == r[j]);
                    assert(tail.contains(tail[j - 1]));
                } else {
                    assert(r[i] == tail[i - 1] && r[j] == tail[j - 1]);
                }
            }
        }
    }
}

pub struct Store {
    shows: Vec<Show>,
    users: Vec<i64>,
    links: Vec<(i64, String)>,
    last_guid: String,
}

impl Store {
    pub closed spec fn spec_shows(&self) -> Seq<ShowV> {
        self.shows.deep_view()
    }

    pub closed spec fn spec_users(&self) -> Seq<i64> {
        self.users@
    }

    pub closed spec fn spec_links(&self) -> Seq<(i64, Seq<char>)> {
        links_view(self.links@)
    }

    pub closed spec fn spec_guid(&self) -> Seq<char> {
        self.last_guid@
    }

    /// Show identifiers are unique, user ids are unique, a user/show pair
    /// exists at most once, and every stored air time is in range.
    pub open spec fn wf(&self) -> bool {
        distinct_show_ids(self.spec_shows()) && all_shows_wf(self.spec_shows()) && distinct_seq(
            self.spec_users(),
        ) && distinct_seq(self.spec_links())
    }

    /// An empty store with an empty release cursor.
    pub fn new() -> (s: Store)
        ensures
            s.wf(),
            s.spec_shows() == Seq::<ShowV>::empty(),
            s.spec_users() == Seq::<i64>::empty(),
            s.spec_links() == Seq::<(i64, Seq<char>)>::empty(),
            s.spec_guid() == Seq::<char>::empty(),
    {
        let s = Store { shows: Vec::new(), users: Vec::new(), links: Vec::new(), last_guid: String::new() };
        proof {
            assert(s.spec_shows() =~= Seq::<ShowV>::empty());
            assert(s.spec_links() =~= Seq::<(i64, Seq<char>)>::empty());
        }
        s
    }

    fn find_show_index(&self, show_id: &str) -> (r: Option<usize>)
        ensures
            r is Some ==> r->Some_0 < self.spec_shows().len() && self.spec_shows()[r->Some_0 as int].id
                == show_id@,
            r is None ==> !has_show(self.spec_shows(), show_id@),
    {
        let mut i: usize = 0;
        while i < self.shows.len()
            invariant
                i <= self.spec_shows().len(),
                self.shows.len() == self.spec_shows().len(),
                forall|j: int| 0 <= j < i ==> self.spec_shows()[j].id != show_id@,
            decreases self.shows.len() - i,
        {
            if str_eq(self.shows[i].id.as_str(), show_id) {
                return Some(i);
            }
            i += 1;
        }
        None
    }

    /// Whether a show with this identifier has been stored.
    pub fn is_show_saved(&self, show_id: &str) -> (r: bool)
        ensures
            r == has_show(self.spec_shows(), show_id@),
    {
        match self.find_show_index(show_id) {
            Some(i) => {
                proof {
                    assert(has_show(self.spec_shows(), show_id@)) by {
                        assert(self.spec_shows()[i as int].id == show_id@);
                    }
                }
                true
            },
            None => false,
        }
    }

    /// The stored show with this identifier, if any.
    pub fn get_show_from_show_id(&self, show_id: &str) -> (r: Option<Show>)
        ensures
            r is Some <==> has_show(self.spec_shows(), show_id@),
            r is Some ==> r->Some_0@.id == show_id@ && self.spec_shows().contains(r->Some_0@),
    {
        match self.find_show_index(show_id) {
            Some(i) => {
                let s = self.shows[i].duplicate();
                proof {
                    assert(self.spec_shows()[i as int] == s@);
                    assert(self.spec_shows().contains(s@));
                    assert(has_show(self.spec_shows(), show_id@)) by {
                        assert(self.spec_shows()[i as int].id == show_id@);
                    }
                }
                Some(s)
            },
            None => None,
        }
    }

    /// The first stored show with this display name, if any.
    pub fn get_show_from_name(&self, show_name: &str) -> (r: Option<Show>)
        ensures
            r is Some <==> has_show_name(self.spec_shows(), show_name@),
            r is Some ==> r->Some_0@.name == show_name@ && self.spec_shows().contains(r->Some_0@)
                && find_name_from(self.spec_shows(), show_name@, 0) is Some && r->Some_0@
                == show_by_name(self.spec_shows(), show_name@),
    {
        let mut i: usize = 0;
        while i < self.shows.len()
            invariant
                i <= self.spec_shows().len(),
                self.shows.len() == self.spec_shows().len(),
                forall|j: int| 0 <= j < i ==> self.spec_shows()[j].name != show_name@,
                find_name_from(self.spec_shows(), show_name@, 0) == find_name_from(
                    self.spec_shows(),
                    show_name@,
                    i as int,
                ),
            decreases self.shows.len() - i,
        {
            if str_eq(self.shows[i].name.as_str(), show_name) {
                let s = self.shows[i].duplicate();
                proof {
                    assert(self.spec_shows()[i as int] == s@);
                    assert(self.spec_shows().contains(s@));
                    assert(find_name_from(self.spec_shows(), show_name@, i as int) == Some(
                        i as int,
                    ));
                    assert(has_show_name(self.spec_shows(), show_name@)) by {
                        assert(self.spec_shows()[i as int].name == show_name@);
                    }
                }
                return Some(s);
            }
            i += 1;
        }
        None
    }

    /// The identifiers of every stored show, in store order.
    pub fn get_all_show_ids(&self) -> (r: Vec<String>)
        ensures
            r.deep_view().len() == self.spec_shows().len(),
            forall|j: int|
                0 <= j < self.spec_shows().len() ==> r.deep_view()[j] == self.spec_shows()[j].id,
    {
        let mut r: Vec<String> = Vec::new();
        let mut i: usize = 0;
        while i < self.shows.len()
            invariant
                i <= self.spec_shows().len(),
                self.shows.len() == self.spec_shows().len(),
                r.deep_view().len() == i,
                forall|j: int| 0 <= j < i ==> r.deep_view()[j] == self.spec_shows()[j].id,
            decreases self.shows.len() - i,
        {
            let ghost prev = r.deep_view();
            r.push(self.shows[i].id.clone());
            proof {
                assert forall|j: int| 0 <= j < i + 1 implies r.deep_view()[j]
                    == self.spec_shows()[j].id by {
                    if j < i {
                        assert(r.deep_view()[j] == prev[j]);
                    }
                }
            }
            i += 1;
        }
        r
    }

    /// Stores a new show. Returns false and leaves the store unchanged when
    /// the identifier is already taken.
    pub fn insert_show(&mut self, show: &Show) -> (r: bool)
        requires
            old(self).wf(),
            show@.wf(),
        ensures
            final(self).wf(),
            r == !has_show(old(self).spec_shows(), show@.id),
            r ==> final(self).spec_shows() == old(self).spec_shows().push(show@),
            !r ==> final(self).spec_shows() == old(self).spec_shows(),
            final(self).spec_users() == old(self).spec_users(),
            final(self).spec_links() == old(self).spec_links(),
            final(self).spec_guid() == old(self).spec_guid(),
    {
        if self.is_show_saved(show.id.as_str()) {
            return false;
        }
        self.shows.push(show.duplicate());
        proof {
            assert(self.spec_shows() =~= old(self).spec_shows().push(show@));
        }
        true
    }

    /// Overwrites the stored show with the same identifier; without a match
    /// the store is unchanged.
    pub fn update_show(&mut self, show: &Show)
        requires
            old(self).wf(),
            show@.wf(),
        ensures
            final(self).wf(),
            final(self).spec_shows() == old(self).spec_shows().map_values(
                |s: ShowV| if s.id == show@.id { show@ } else { s },
            ),
            final(self).spec_users() == old(self).spec_users(),
            final(self).spec_links() == old(self).spec_links(),
            final(self).spec_guid() == old(self).spec_guid(),
    {
        let m = self.find_show_index(show.id.as_str());
        match m {
            Some(i) => {
                self.shows.remove(i);
                self.shows.insert(i, show.duplicate());
                proof {
                    assert(self.spec_shows() =~= old(self).spec_shows().update(i as int, show@));
                    assert(self.spec_shows() =~= old(self).spec_shows().map_values(
                        |s: ShowV| if s.id == show@.id { show@ } else { s },
                    )) by {
                        assert(forall|j: int|
                            0 <= j < old(self).spec_shows().len() && j != i
                                ==> old(self).spec_shows()[j].id != show@.id);
                    }
                }
            },
            None => {
                proof {
                    assert(self.spec_shows() =~= old(self).spec_shows().map_values(
                        |s: ShowV| if s.id == show@.id { show@ } else { s },
                    )) by {
                        assert(forall|j: int|
                            0 <= j < old(self).spec_shows().len()
                                ==> old(self).spec_shows()[j].id != show@.id);
                    }
                }
            },
        }
    }

    /// The ids of every user watching the show, in link order.
    pub fn get_user_ids_for_show_id(&self, show_id: &str) -> (r: Vec<i64>)
        ensures
            r@ == subscribers(self.spec_links(), show_id@),
    {
        let mut r: Vec<i64> = Vec::new();
        let mut i: usize = 0;
        proof {
            assert(self.spec_links().skip(0) =~= self.spec_links());
        }
        while i < self.links.len()
            invariant
                i <= self.links.len(),
                self.links.len() == self.spec_links().len(),
                subscribers(self.spec_links(), show_id@) == r@ + subscribers(
                    self.spec_links().skip(i as int),
                    show_id@,
                ),
            decreases self.links.len() - i,
        {
            let ghost pre = r@;
            proof {
                let s = self.spec_links().skip(i as int);
                assert(s.drop_first() =~= self.spec_links().skip(i + 1));
                assert(s[0] == self.spec_links()[i as int]);
            }
            if str_eq(self.links[i].1.as_str(), show_id) {
                r.push(self.links[i].0);
                proof {
                    let s = self.spec_links().skip(i as int);
                    assert(pre + subscribers(s, show_id@) =~= r@ + subscribers(
                        self.spec_links().skip(i + 1),
                        show_id@,
                    ));
                }
            }
            i += 1;
        }
        proof {
            assert(self.spec_links().skip(self.spec_links().len() as int) =~= Seq::<
                (i64, Seq<char>),
            >::empty());
            assert(r@ + Seq::<i64>::empty() =~= r@);
        }
        r
    }

    /// Whether the user already watches the show.
    pub fn does_user_show_exist(&self, user_id: i64, show_id: &str) -> (r: bool)
        ensures
            r == has_link(self.spec_links(), user_id, show_id@),
    {
        let mut i: usize = 0;
        while i < self.links.len()
            invariant
                i <= self.links.len(),
                self.links.len() == self.spec_links().len(),
                forall|j: int| 0 <= j < i ==> self.spec_links()[j] != (user_id, show_id@),
            decreases self.links.len() - i,
        {
            if self.links[i].0 == user_id && str_eq(self.links[i].1.as_str(), show_id) {
                proof {
                    assert(self.spec_links()[i as int] == (user_id, show_id@));
                    assert(has_link(self.spec_links(), user_id, show_id@));
                }
                return true;
            }
            i += 1;
        }
        proof {
            if has_link(self.spec_links(), user_id, show_id@) {
                let k = choose|k: int|
                    0 <= k < self.spec_links().len() && self.spec_links()[k] == (
                    user_id,
                    show_id@,
                    );
                assert(self.spec_links()[k] != (user_id, show_id@));
            }
        }
        false
    }

    /// Links a user to a show. Returns false and leaves the store unchanged
    /// when the link already exists.
    pub fn insert_user_show(&mut self, user_id: i64, show_id: &str) -> (r: bool)
        requires
            old(self).wf(),
        ensures
            final(self).wf(),
            r == !has_link(old(self).spec_links(), user_id, show_id@),
            r ==> final(self).spec_links() == old(self).spec_links().push((user_id, show_id@)),
            !r ==> final(self).spec_links() == old(self).spec_links(),
            final(self).spec_shows() == old(self).spec_shows(),
            final(self).spec_users() == old(self).spec_users(),
            final(self).spec_guid() == old(self).spec_guid(),
    {
        if self.does_user_show_exist(user_id, show_id) {
            return false;
        }
        self.links.push((user_id, String::from_str(show_id)));
        proof {
            assert(self.spec_links() =~= old(self).spec_links().push((user_id, show_id@)));
            let nl = self.spec_links();
            let ol = old(self).spec_links();
            assert forall|i: int, j: int| 0 <= i < j < nl.len() implies nl[i] != nl[j] by {
                if j == nl.len() - 1 {
                    assert(nl[i] == ol[i]);
                    if ol[i] == (user_id, show_id@) {
                        assert(ol.contains(ol[i]));
                    }
                }
            }
        }
        true
    }

    /// Unlinks a user from a show; without the link the store is unchanged.
    pub fn delete_user_show(&mut self, user_id: i64, show_id: &str)
        requires
            old(self).wf(),
        ensures
            final(self).wf(),
            final(self).spec_links() == remove_pair(old(self).spec_links(), user_id, show_id@),
            final(self).spec_shows() == old(self).spec_shows(),
            final(self).spec_users() == old(self).spec_users(),
            final(self).spec_guid() == old(self).spec_guid(),
    {
        let ghost ol = old(self).spec_links();
        let mut kept: Vec<(i64, String)> = Vec::new();
        let mut i: usize = 0;
        proof {
            assert(ol.skip(0) =~= ol);
        }
        while i < self.links.len()
            invariant
                i <= self.links.len(),
                self.links.len() == ol.len(),
                self.spec_links() == ol,
                remove_pair(ol, user_id, show_id@) == links_view(kept@) + remove_pair(
                    ol.skip(i as int),
                    user_id,
                    show_id@,
                ),
            decreases self.links.len() - i,
        {
            let ghost pre = links_view(kept@);
            proof {
                let s = ol.skip(i as int);
                assert(s.drop_first() =~= ol.skip(i + 1));
                assert(s[0] == ol[i as int]);
            }
            if !(self.links[i].0 == user_id && str_eq(self.links[i].1.as_str(), show_id)) {
                let u = self.links[i].0;
                let sid = self.links[i].1.clone();
                kept.push((u, sid));
                proof {
                    assert(links_view(kept@) =~= pre.push(ol[i as int]));
                    assert(pre + remove_pair(ol.skip(i as int), user_id, show_id@) =~= links_view(
                        kept@,
                    ) + remove_pair(ol.skip(i + 1), user_id, show_id@));
                }
            }
            i += 1;
        }
        self.links = kept;
        proof {
            assert(ol.skip(ol.len() as int) =~= Seq::<(i64, Seq<char>)>::empty());
            assert(self.spec_links() + Seq::<(i64, Seq<char>)>::empty() =~= self.spec_links());
            lemma_remove_pair_distinct(ol, user_id, show_id@);
        }
    }

    /// The shows a user watches, in store order.
    pub fn get_shows_for_user(&self, user_id: i64) -> (r: Vec<Show>)
        ensures
            r.deep_view() == user_shows(self.spec_shows(), self.spec_links(), user_id),
    {
        let mut r: Vec<Show> = Vec::new();
        let mut i: usize = 0;
        proof {
            assert(self.spec_shows().skip(0) =~= self.spec_shows());
        }
        while i < self.shows.len()
            invariant
                i <= self.shows.len(),
                self.shows.len() == self.spec_shows().len(),
                user_shows(self.spec_shows(), self.spec_links(), user_id) == r.deep_view()
                    + user_shows(self.spec_shows().skip(i as int), self.spec_links(), user_id),
            decreases self.shows.len() - i,
        {
            let ghost pre = r.deep_view();
            proof {
                let s = self.spec_shows().skip(i as int);
                assert(s.drop_first() =~= self.spec_shows().skip(i + 1));
                assert(s[0] == self.spec_shows()[i as int]);
            }
            if self.does_user_show_exist(user_id, self.shows[i].id.as_str()) {
                let s = self.shows[i].duplicate();
                r.push(s);
                proof {
                    assert(r.deep_view() =~= pre.push(self.spec_shows()[i as int]));
                    assert(pre + user_shows(
                        self.spec_shows().skip(i as int),
                        self.spec_links(),
                        user_id,
                    ) =~= r.deep_view() + user_shows(
                        self.spec_shows().skip(i + 1),
                        self.spec_links(),
                        user_id,
                    ));
                }
            }
            i += 1;
        }
        proof {
            assert(self.spec_shows().skip(self.spec_shows().len() as int) =~= Seq::<
                ShowV,
            >::empty());
            assert(r.deep_view() + Seq::<ShowV>::empty() =~= r.deep_view());
        }
        r
    }

    /// Whether the user has registered.
    pub fn is_user_registered(&self, user_id: i64) -> (r: bool)
        ensures
            r == self.spec_users().contains(user_id),
    {
        let mut i: usize = 0;
        while i < self.users.len()
            invariant
                i <= self.users.len(),
                self.users.len() == self.spec_users().len(),
                forall|j: int| 0 <= j < i ==> self.spec_users()[j] != user_id,
            decreases self.users.len() - i,
        {
            if self.users[i] == user_id {
                proof {
                    assert(self.spec_users().contains(user_id)) by {
                        assert(self.spec_users()[i as int] == user_id);
                    }
                }
                return true;
            }
            i += 1;
        }
        proof {
            if self.spec_users().contains(user_id) {
                let k = choose|k: int|
                    0 <= k < self.spec_users().len() && self.spec_users()[k] == user_id;
                assert(self.spec_users()[k] != user_id);
            }
        }
        false
    }

    /// Registers a user. Returns false and leaves the store unchanged when
    /// the user is already registered.
    pub fn insert_user(&mut self, user_id: i64) -> (r: bool)
        requires
            old(self).wf(),
        ensures
            final(self).wf(),
            r == !old(self).spec_users().contains(user_id),
            r ==> final(self).spec_users() == old(self).spec_users().push(user_id),
            !r ==> final(self).spec_users() == old(self).spec_users(),
            final(self).spec_shows() == old(self).spec_shows(),
            final(self).spec_links() == old(self).spec_links(),
            final(self).spec_guid() == old(self).spec_guid(),
    {
        if self.is_user_registered(user_id) {
            return false;
        }
        self.users.push(user_id);
        proof {
            let nu = self.spec_users();
            let ou = old(self).spec_users();
            assert forall|i: int, j: int| 0 <= i < j < nu.len() implies nu[i] != nu[j] by {
                if j == nu.len() - 1 {
                    if ou[i] == user_id {
                        assert(ou.contains(ou[i]));
                    }
                }
            }
        }
        true
    }

    /// Unregisters a user and drops every show link they held.
    pub fn remove_user(&mut self, user_id: i64)
        requires
            old(self).wf(),
        ensures
            final(self).wf(),
            final(self).spec_users() == remove_user_id(old(self).spec_users(), user_id),
            final(self).spec_links() == remove_user_links(old(self).spec_links(), user_id),
            final(self).spec_shows() == old(self).spec_shows(),
            final(self).spec_guid() == old(self).spec_guid(),
    {
        let ghost ol = old(self).spec_links();
        let ghost ou = old(self).spec_users();
        let mut kept: Vec<(i64, String)> = Vec::new();
        let mut i: usize = 0;
        proof {
            assert(ol.skip(0) =~= ol);
        }
        while i < self.links.len()
            invariant
                i <= self.links.len(),
                self.links.len() == ol.len(),
                self.spec_links() == ol,
                remove_user_links(ol, user_id) == links_view(kept@) + remove_user_links(
                    ol.skip(i as int),
                    user_id,
                ),
            decreases self.links.len() - i,
        {
            let ghost pre = links_view(kept@);
            proof {
                let s = ol.skip(i as int);
                assert(s.drop_first() =~= ol.skip(i + 1));
                assert(s[0] == ol[i as int]);
            }
            if self.links[i].0 != user_id {
                let u = self.links[i].0;
                let sid = self.links[i].1.clone();
                kept.push((u, sid));
                proof {
                    assert(links_view(kept@) =~= pre.push(ol[i as int]));
                    assert(pre + remove_user_links(ol.skip(i as int), user_id) =~= links_view(kept@)
                        + remove_user_links(ol.skip(i + 1), user_id));
                }
            }
            i += 1;
        }
        self.links = kept;
        let mut kept_users: Vec<i64> = Vec::new();
        let mut k: usize = 0;
        proof {
            assert(ou.skip(0) =~= ou);
        }
        while k < self.users.len()
            invariant
                k <= self.users.len(),
                self.users.len() == ou.len(),
                self.spec_users() == ou,
                remove_user_id(ou, user_id) == kept_users@ + remove_user_id(
                    ou.skip(k as int),
                    user_id,
                ),
            decreases self.users.len() - k,
        {
            let ghost pre = kept_users@;
            proof {
                let s = ou.skip(k as int);
                assert(s.drop_first() =~= ou.skip(k + 1));
                assert(s[0] == ou[k as int]);
            }
            if self.users[k] != user_id {
                kept_users.push(self.users[k]);
                proof {
                    assert(pre + remove_user_id(ou.skip(k as int), user_id) =~= kept_users@
                        + remove_user_id(ou.skip(k + 1), user_id));
                }
            }
            k += 1;
        }
        self.users = kept_users;
        proof {
            assert(ol.skip(ol.len() as int) =~= Seq::<(i64, Seq<char>)>::empty());
            assert(self.spec_links() + Seq::<(i64, Seq<char>)>::empty() =~= self.spec_links());
            assert(ou.skip(ou.len() as int) =~= Seq::<i64>::empty());
            assert(self.spec_users() + Seq::<i64>::empty() =~= self.spec_users());
            lemma_remove_user_links_distinct(ol, user_id);
            lemma_remove_user_id_distinct(ou, user_id);
        }
    }

    /// Every stored show, in store order.
    pub fn all_shows(&self) -> (r: Vec<Show>)
        ensures
            r.deep_view() == self.spec_shows(),
    {
        let mut r: Vec<Show> = Vec::new();
        let mut i: usize = 0;
        while i < self.shows.len()
            invariant
                i <= self.spec_shows().len(),
                self.shows.len() == self.spec_shows().len(),
                r.deep_view().len() == i,
                forall|j: int| 0 <= j < i ==> #[trigger] r.deep_view()[j] == self.spec_shows()[j],
            decreases self.shows.len() - i,
        {
            let ghost pre = r.deep_view();
            r.push(self.shows[i].duplicate());
            proof {
                assert forall|j: int| 0 <= j < i + 1 implies #[trigger] r.deep_view()[j]
                    == self.spec_shows()[j] by {
                    if j < i {
                        assert(r.deep_view()[j] == pre[j]);
                    }
                }
            }
            i += 1;
        }
        proof {
            assert(r.deep_view() =~= self.spec_shows());
        }
        r
    }

    /// Every registered user id, in store order.
    pub fn all_users(&self) -> (r: Vec<i64>)
        ensures
            r@ == self.spec_users(),
    {
        let mut r: Vec<i64> = Vec::new();
        let mut i: usize = 0;
        while i < self.users.len()
            invariant
                i <= self.spec_users().len(),
                self.users.len() == self.spec_users().len(),
                r@ =~= self.spec_users().take(i as int),
            decreases self.users.len() - i,
        {
            r.push(self.users[i]);
            proof {
                assert(r@ =~= self.spec_users().take(i + 1));
            }
            i += 1;
        }
        proof {
            assert(self.spec_users().take(self.spec_users().len() as int) =~= self.spec_users());
        }
        r
    }

    /// Every watch link, in store order.
    pub fn all_links(&self) -> (r: Vec<(i64, String)>)
        ensures
            links_view(r@) == self.spec_links(),
    {
        let mut r: Vec<(i64, String)> = Vec::new();
        let mut i: usize = 0;
        while i < self.links.len()
            invariant
                i <= self.spec_links().len(),
                self.links.len() == self.spec_links().len(),
                links_view(r@).len() == i,
                forall|j: int| 0 <= j < i ==> #[trigger] links_view(r@)[j] == self.spec_links()[j],
            decreases self.links.len() - i,
        {
            let ghost pre = links_view(r@);
            let u = self.links[i].0;
            let sid = self.links[i].1.clone();
            r.push((u, sid));
            proof {
                assert forall|j: int| 0 <= j < i + 1 implies #[trigger] links_view(r@)[j]
                    == self.spec_links()[j] by {
                    if j < i {
                        assert(links_view(r@)[j] == pre[j]);
                    }
                }
            }
            i += 1;
        }
        proof {
            assert(links_view(r@) =~= self.spec_links());
        }
        r
    }

    /// The guid of the most recently processed release.
    pub fn get_guid(&self) -> (r: String)
        ensures
            r@ == self.spec_guid(),
    {
        self.last_guid.clone()
    }

    /// Persists the guid of the most recently processed release.
    pub fn save_guid(&mut self, guid: &str)
        requires
            old(self).wf(),
        ensures
            final(self).wf(),
            final(self).spec_guid() == guid@,
            final(self).spec_shows() == old(self).spec_shows(),
            final(self).spec_users() == old(self).spec_users(),
            final(self).spec_links() == old(self).spec_links(),
    {
        self.last_guid = String::from_str(guid);
    }
}

} // verus!
