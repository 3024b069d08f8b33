//! User-facing watchlist operations: removing shows and building the
//! weekly schedule table.

use vstd::prelude::*;
use vstd::string::StrSliceExecFns;
use vstd::string::StringExecFns;
use crate::page::is_valid_url;
use crate::page::contains_http;
use crate::page::is_slug_char;
use crate::page::spec_contains_http;
use crate::page::spec_url_slug;
use crate::page::spec_valid_show_url;
use crate::page::url_prefix;
use crate::page::url_to_show_id;
use crate::show::AirTime;
use crate::show::Show;
use crate::show::ShowV;
use crate::store::Store;
use crate::store::has_link;
use crate::store::has_show_name;
use crate::store::remove_pair;
use crate::store::user_shows;
use crate::strutil::push_char;

verus! {

/// Every way removing a show from a watchlist can fail.
#[derive(Debug, PartialEq, Eq, Structural, Clone, Copy)]
pub enum RemoveFailure {
    InvalidIdentifier,
    ShowNotFound,
    DBError,
}

/// Removes one show from a user's watchlist. A well-formed show URL
/// removes the link it names — missing link: `ShowNotFound`; other text
/// containing `http` is rejected; anything else is tried as an exact
/// display name, and the named show's link is removed unconditionally.
pub fn remove_user_show(store: &mut Store, user_id: i64, identifier: &str) -> (r: Result<
    (),
    RemoveFailure,
>)
    requires
        old(store).wf(),
    ensures
        final(store).wf(),
        final(store).spec_shows() == old(store).spec_shows(),
        final(store).spec_users() == old(store).spec_users(),
        final(store).spec_guid() == old(store).spec_guid(),
        spec_valid_show_url(identifier@) ==> (if has_link(
            old(store).spec_links(),
            user_id,
            spec_url_slug(identifier@),
        ) {
            r is Ok && final(store).spec_links() == remove_pair(
                old(store).spec_links(),
                user_id,
                spec_url_slug(identifier@),
            )
        } else {
            r == Err::<(), RemoveFailure>(RemoveFailure::ShowNotFound) && final(store).spec_links()
                == old(store).spec_links()
        }),
        !spec_valid_show_url(identifier@) && spec_contains_http(identifier@) ==> r == Err::<
            (),
            RemoveFailure,
        >(RemoveFailure::InvalidIdentifier) && final(store).spec_links() == old(store).spec_links(),
        !spec_valid_show_url(identifier@) && !spec_contains_http(identifier@) ==> (if
        has_show_name(old(store).spec_shows(), identifier@) {
            r is Ok && final(store).spec_links() == remove_pair(
                old(store).spec_links(),
                user_id,
                crate::store::show_by_name(old(store).spec_shows(), identifier@).id,
            )
        } else {
            r == Err::<(), RemoveFailure>(RemoveFailure::ShowNotFound) && final(store).spec_links()
                == old(store).spec_links()
        }),
{
    if is_valid_url(identifier) {
        let show_id = match url_to_show_id(identifier) {
            Some(s) => s,
            None => {
                proof {
                    assert(false);
                }
                return Err(RemoveFailure::DBError);
            },
        };
        if store.does_user_show_exist(user_id, show_id.as_str()) {
            store.delete_user_show(user_id, show_id.as_str());
            Ok(())
        } else {
            Err(RemoveFailure::ShowNotFound)
        }
    } else if contains_http(identifier) {
        Err(RemoveFailure::InvalidIdentifier)
    } else {
        match store.get_show_from_name(identifier) {
            None => Err(RemoveFailure::ShowNotFound),
            Some(show) => {
                store.delete_user_show(user_id, show.id.as_str());
                Ok(())
            },
        }
    }
}

/// An identifier that can stand inside a show URL.
pub open spec fn valid_slug(id: Seq<char>) -> bool {
    id.len() > 0 && forall|i: int| 0 <= i < id.len() ==> is_slug_char(#[trigger] id[i])
}

/// Rebuilding a show URL around a slug gives a valid URL exactly when the
/// slug itself is well formed, and the URL names that slug.
proof fn lemma_built_url(id: Seq<char>)
    ensures
        valid_slug(id) ==> spec_valid_show_url(url_prefix() + id + seq!['/']) && spec_url_slug(
            url_prefix() + id + seq!['/'],
        ) == id,
        !valid_slug(id) ==> !spec_valid_show_url(url_prefix() + id + seq!['/']),
{
    let s = url_prefix() + id + seq!['/'];
    let plen = url_prefix().len();
    assert(s.len() == plen + id.len() + 1);
    assert(s[s.len() - 1] == '/');
    assert(s.take(plen as int) =~= url_prefix());
    assert(forall|i: int| 0 <= i < id.len() ==> s[plen + i] == id[i]);
    if valid_slug(id) {
        assert forall|i: int| plen <= i < s.len() - 1 implies is_slug_char(s[i]) by {
            assert(s[i] == id[i - plen]);
        }
        assert(spec_url_slug(s) =~= id);
    } else {
        if s.len() > plen + 1 {
            assert(id.len() > 0);
            let i = choose|i: int| 0 <= i < id.len() && !is_slug_char(#[trigger] id[i]);
            assert(s[plen + i] == id[i]);
            assert(!is_slug_char(s[plen + i]));
        }
    }
}

/// The non-airing shows among the first `n`.
pub open spec fn non_airing_upto(shows: Seq<ShowV>, n: int) -> Seq<ShowV>
    decreases n,
    when 0 <= n <= shows.len()
{
    if n <= 0 {
        Seq::empty()
    } else if !shows[n - 1].air_time.is_airing {
        non_airing_upto(shows, n - 1).push(shows[n - 1])
    } else {
        non_airing_upto(shows, n - 1)
    }
}

/// Index of the first show in the list whose identifier is not a valid
/// slug; the list's length when there is none.
pub open spec fn first_bad_slug(shows: Seq<ShowV>) -> int
    decreases shows.len(),
{
    if shows.len() == 0 {
        0
    } else if !valid_slug(shows[0].id) {
        0
    } else {
        1 + first_bad_slug(shows.drop_first())
    }
}

pub proof fn lemma_first_bad_slug(shows: Seq<ShowV>)
    ensures
        0 <= first_bad_slug(shows) <= shows.len(),
        forall|j: int| 0 <= j < first_bad_slug(shows) ==> valid_slug(#[trigger] shows[j].id),
        first_bad_slug(shows) < shows.len() ==> !valid_slug(shows[first_bad_slug(shows)].id),
    decreases shows.len(),
{
    if shows.len() > 0 && valid_slug(shows[0].id) {
        let rest = shows.drop_first();
        lemma_first_bad_slug(rest);
        assert forall|j: int| 0 <= j < first_bad_slug(shows) implies valid_slug(
            #[trigger] shows[j].id,
        ) by {
            if j > 0 {
                assert(rest[j - 1] == shows[j]);
                assert(valid_slug(rest[j - 1].id));
            }
        }
        if first_bad_slug(shows) < shows.len() {
            assert(shows[first_bad_slug(shows)] == rest[first_bad_slug(rest)]);
        }
    }
}

/// The links left after removing, in order, the link of each of the
/// first `n` listed shows for this user.
pub open spec fn remove_all_pairs(
    links: Seq<(i64, Seq<char>)>,
    user_id: i64,
    shows: Seq<ShowV>,
    n: int,
) -> Seq<(i64, Seq<char>)>
    decreases n,
    when 0 <= n <= shows.len()
{
    if n <= 0 {
        links
    } else {
        remove_pair(remove_all_pairs(links, user_id, shows, n - 1), user_id, shows[n - 1].id)
    }
}

proof fn lemma_remove_pair_keeps(links: Seq<(i64, Seq<char>)>, user_id: i64, show_id: Seq<char>)
    ensures
        forall|p: (i64, Seq<char>)|
            p != (user_id, show_id) ==> (remove_pair(links, user_id, show_id).contains(p)
                <==> links.contains(p)),
    decreases links.len(),
{
    if links.len() > 0 {
        let rest = links.drop_first();
        lemma_remove_pair_keeps(rest, user_id, show_id);
        assert forall|p: (i64, Seq<char>)| p != (user_id, show_id) implies (remove_pair(
            links,
            user_id,
            show_id,
        ).contains(p) <==> links.contains(p)) by {
            let r = remove_pair(links, user_id, show_id);
            let tail = remove_pair(rest, user_id, show_id);
            if links[0] == (user_id, show_id) {
                if links.contains(p) {
                    let k = choose|k: int| 0 <= k < links.len() && links[k] == p;
                    assert(k > 0);
                    assert(rest[k - 1] == p);
                    assert(rest.contains(p));
                }
                if rest.contains(p) {
                    let k = choose|k: int| 0 <= k < rest.len() && rest[k] == p;
                    assert(links[k + 1] == p);
                }
            } else {
                if links.contains(p) && p != links[0] {
                    let k = choose|k: int| 0 <= k < links.len() && links[k] == p;
                    assert(k > 0);
                    assert(rest[k - 1] == p);
                }
                if p == links[0] {
                    assert(r[0] == p);
                }
                if tail.contains(p) {
                    let k = choose|k: int| 0 <= k < tail.len() && tail[k] == p;
                    assert(r[k + 1] == p);
                }
                if r.contains(p) && p != links[0] {
                    let k = choose|k: int| 0 <= k < r.len() && r[k] == p;
                    assert(k > 0);
                    assert(tail[k - 1] == p);
                }
                if rest.contains(p) {
                    let k = choose|k: int| 0 <= k < rest.len() && rest[k] == p;
                    assert(links[k + 1] == p);
                }
            }
        }
    }
}

proof fn lemma_remove_all_keeps(
    links: Seq<(i64, Seq<char>)>,
    user_id: i64,
    shows: Seq<ShowV>,
    n: int,
    p: (i64, Seq<char>),
)
    requires
        0 <= n <= shows.len(),
        forall|j: int| 0 <= j < n ==> p != (user_id, #[trigger] shows[j].id),
    ensures
        remove_all_pairs(links, user_id, shows, n).contains(p) <==> links.contains(p),
    decreases n,
{
    if n > 0 {
        lemma_remove_all_keeps(links, user_id, shows, n - 1, p);
        lemma_remove_pair_keeps(remove_all_pairs(links, user_id, shows, n - 1), user_id, shows[n - 1].id);
    }
}

proof fn lemma_user_shows_facts(
    shows: Seq<ShowV>,
    links: Seq<(i64, Seq<char>)>,
    user_id: i64,
)
    requires
        crate::store::distinct_show_ids(shows),
    ensures
        forall|j: int|
            0 <= j < user_shows(shows, links, user_id).len() ==> has_link(
                links,
                user_id,
                #[trigger] user_shows(shows, links, user_id)[j].id,
            ),
        crate::store::distinct_show_ids(user_shows(shows, links, user_id)),
    decreases shows.len(),
{
    if shows.len() > 0 {
        let rest = shows.drop_first();
        assert(forall|i: int, j: int|
            0 <= i < j < rest.len() ==> rest[i] == shows[i + 1] && rest[j] == shows[j + 1]);
        assert(crate::store::distinct_show_ids(rest));
        lemma_user_shows_facts(rest, links, user_id);
        let us = user_shows(shows, links, user_id);
        let tail = user_shows(rest, links, user_id);
        if has_link(links, user_id, shows[0].id) {
            assert(us == seq![shows[0]] + tail);
            assert forall|j: int| 0 <= j < us.len() implies has_link(
                links,
                user_id,
                #[trigger] us[j].id,
            ) by {
                if j > 0 {
                    assert(us[j] == tail[j - 1]);
                    assert(has_link(links, user_id, tail[j - 1].id));
                }
            }
            lemma_user_shows_in(rest, links, user_id);
            assert forall|i: int, j: int| 0 <= i < j < us.len() implies us[i].id != us[j].id by {
                if i == 0 {
                    assert(us[j] == tail[j - 1]);
                    assert(rest.contains(tail[j - 1]));
                    let k = choose|k: int| 0 <= k < rest.len() && rest[k] == tail[j - 1];
                    assert(shows[k + 1] == tail[j - 1]);
                } else {
                    assert(us[i] == tail[i - 1] && us[j] == tail[j - 1]);
                }
            }
        } else {
            assert(us == tail);
        }
    }
}

proof fn lemma_remove_all_prefix_agree(
    links: Seq<(i64, Seq<char>)>,
    user_id: i64,
    s1: Seq<ShowV>,
    s2: Seq<ShowV>,
    n: int,
)
    requires
        0 <= n <= s1.len(),
        n <= s2.len(),
        forall|j: int| 0 <= j < n ==> s1[j] == s2[j],
    ensures
        remove_all_pairs(links, user_id, s1, n) == remove_all_pairs(links, user_id, s2, n),
    decreases n,
{
    if n > 0 {
        lemma_remove_all_prefix_agree(links, user_id, s1, s2, n - 1);
    }
}

proof fn lemma_non_airing_extend(shows: Seq<ShowV>, m: int, n: int)
    requires
        0 <= m <= n <= shows.len(),
    ensures
        non_airing_upto(shows, m).len() <= non_airing_upto(shows, n).len(),
        forall|j: int|
            0 <= j < non_airing_upto(shows, m).len() ==> #[trigger] non_airing_upto(shows, n)[j]
                == non_airing_upto(shows, m)[j],
    decreases n - m,
{
    if m < n {
        lemma_non_airing_extend(shows, m, n - 1);
    }
}

proof fn lemma_non_airing_members(shows: Seq<ShowV>, n: int)
    requires
        0 <= n <= shows.len(),
    ensures
        forall|j: int|
            0 <= j < non_airing_upto(shows, n).len() ==> exists|k: int|
                0 <= k < n && #[trigger] non_airing_upto(shows, n)[j] == shows[k]
                    && !shows[k].air_time.is_airing,
    decreases n,
{
    if n > 0 {
        lemma_non_airing_members(shows, n - 1);
        let na = non_airing_upto(shows, n);
        let prev = non_airing_upto(shows, n - 1);
        assert forall|j: int| 0 <= j < na.len() implies exists|k: int|
            0 <= k < n && #[trigger] na[j] == shows[k] && !shows[k].air_time.is_airing by {
            if j < prev.len() {
                let k = choose|k: int|
                    0 <= k < n - 1 && #[trigger] prev[j] == shows[k] && !shows[k].air_time.is_airing;
                assert(na[j] == shows[k] && !shows[k].air_time.is_airing);
            } else {
                assert(na[j] == shows[n - 1] && !shows[n - 1].air_time.is_airing);
            }
        }
    }
}

proof fn lemma_user_shows_in(shows: Seq<ShowV>, links: Seq<(i64, Seq<char>)>, user_id: i64)
    ensures
        forall|j: int|
            0 <= j < user_shows(shows, links, user_id).len() ==> shows.contains(
                #[trigger] user_shows(shows, links, user_id)[j],
            ),
    decreases shows.len(),
{
    if shows.len() > 0 {
        let rest = shows.drop_first();
        lemma_user_shows_in(rest, links, user_id);
        let us = user_shows(shows, links, user_id);
        let tail = user_shows(rest, links, user_id);
        assert forall|j: int| 0 <= j < us.len() implies shows.contains(#[trigger] us[j]) by {
            if has_link(links, user_id, shows[0].id) && j == 0 {
                assert(us[0] == shows[0]);
                assert(shows.contains(shows[0]));
            } else {
                let jj = if has_link(links, user_id, shows[0].id) {
                    j - 1
                } else {
                    j
                };
                assert(us[j] == tail[jj]);
                assert(rest.contains(tail[jj]));
                let k = choose|k: int| 0 <= k < rest.len() && rest[k] == tail[jj];
                assert(shows[k + 1] == tail[jj]);
            }
        }
    }
}

/// Removes every non-airing show from a user's watchlist, rebuilding each
/// show's URL and removing it as the user would. The removed shows are
/// returned in watchlist order; a stored identifier that cannot stand in
/// a URL aborts the sweep, keeping what was already removed.
pub fn remove_non_airing(store: &mut Store, user_id: i64) -> (r: Result<Vec<Show>, RemoveFailure>)
    requires
        old(store).wf(),
    ensures
        final(store).wf(),
        final(store).spec_shows() == old(store).spec_shows(),
        final(store).spec_users() == old(store).spec_users(),
        final(store).spec_guid() == old(store).spec_guid(),
        ({
            let us = user_shows(old(store).spec_shows(), old(store).spec_links(), user_id);
            let na = non_airing_upto(us, us.len() as int);
            let b = first_bad_slug(na);
            &&& (r is Ok <==> b == na.len())
            &&& (r is Ok ==> r->Ok_0.deep_view() == na && final(store).spec_links()
                == remove_all_pairs(old(store).spec_links(), user_id, na, na.len() as int))
            &&& (r is Err ==> r->Err_0 == RemoveFailure::InvalidIdentifier
                && final(store).spec_links() == remove_all_pairs(
                old(store).spec_links(),
                user_id,
                na,
                b,
            ))
        }),
{
    let ghost oshows = old(store).spec_shows();
    let ghost olinks = old(store).spec_links();
    let ghost us = user_shows(oshows, olinks, user_id);
    let ghost na_full = non_airing_upto(us, us.len() as int);
    let list = store.get_shows_for_user(user_id);
    let mut removed: Vec<Show> = Vec::new();
    let mut i: usize = 0;
    proof {
        assert(removed.deep_view() =~= Seq::<ShowV>::empty());
        assert(non_airing_upto(us, 0) =~= Seq::<ShowV>::empty());
    }
    while i < list.len()
        invariant
            i <= list@.len(),
            list.deep_view() == us,
            list@.len() == us.len(),
            store.wf(),
            store.spec_shows() == oshows,
            store.spec_users() == old(store).spec_users(),
            store.spec_guid() == old(store).spec_guid(),
            oshows == old(store).spec_shows(),
            olinks == old(store).spec_links(),
            us == user_shows(oshows, olinks, user_id),
            na_full == non_airing_upto(us, us.len() as int),
            crate::store::distinct_show_ids(oshows),
            removed.deep_view() == non_airing_upto(us, i as int),
            forall|j: int|
                0 <= j < i && !(#[trigger] us[j].air_time).is_airing ==> valid_slug(us[j].id),
            store.spec_links() == remove_all_pairs(
                olinks,
                user_id,
                non_airing_upto(us, i as int),
                non_airing_upto(us, i as int).len() as int,
            ),
        decreases list@.len() - i,
    {
        let ghost na_i = non_airing_upto(us, i as int);
        if !list[i].air_time.is_airing {
            let mut url = String::from_str("https://subsplease.org/shows/");
            url.append(list[i].id.as_str());
            push_char(&mut url, '/');
            proof {
                assert(list.deep_view()[i as int] == list@[i as int].deep_view());
                assert(url@ =~= url_prefix() + us[i as int].id + seq!['/']);
                lemma_built_url(us[i as int].id);
                lemma_user_shows_facts(oshows, olinks, user_id);
                lemma_non_airing_members(us, i as int);
                lemma_first_bad_slug(na_i);
                // the pair of the current show still stands in the store:
                // earlier removals touched only other identifiers
                assert forall|j: int| 0 <= j < na_i.len() implies (user_id, us[i as int].id) != (
                    user_id,
                    #[trigger] na_i[j].id,
                ) by {
                    let k = choose|k: int|
                        0 <= k < i && #[trigger] na_i[j] == us[k] && !us[k].air_time.is_airing;
                    assert(us[k].id != us[i as int].id);
                }
                lemma_remove_all_keeps(
                    olinks,
                    user_id,
                    na_i,
                    na_i.len() as int,
                    (user_id, us[i as int].id),
                );
                assert(has_link(olinks, user_id, us[i as int].id));
                assert(has_link(store.spec_links(), user_id, us[i as int].id));
                if valid_slug(us[i as int].id) {
                    assert(spec_url_slug(url@) == us[i as int].id);
                } else {
                    // the rebuilt URL still names http, so the removal is
                    // rejected as an invalid identifier
                    reveal_strlit("https://subsplease.org/shows/");
                    reveal_strlit("http");
                    assert(spec_contains_http(url@)) by {
                        let z: int = 0;
                        assert(url@.len() >= 30);
                        assert(url@.subrange(z, z + 4) =~= "http"@);
                    }
                }
            }
            let res = remove_user_show(store, user_id, url.as_str());
            match res {
                Ok(_) => {
                    let ghost pre = removed.deep_view();
                    removed.push(list[i].duplicate());
                    proof {
                        assert(removed.deep_view() =~= pre.push(us[i as int]));
                        assert(non_airing_upto(us, i + 1) == na_i.push(us[i as int]));
                        let na_n = non_airing_upto(us, i + 1);
                        lemma_remove_all_prefix_agree(
                            olinks,
                            user_id,
                            na_i,
                            na_n,
                            na_i.len() as int,
                        );
                        assert(na_n[na_n.len() - 1].id == us[i as int].id);
                        assert(store.spec_links() == remove_all_pairs(
                            olinks,
                            user_id,
                            na_n,
                            na_n.len() as int,
                        ));
                    }
                },
                Err(e) => {
                    proof {
                        assert(!valid_slug(us[i as int].id));
                        assert(e == RemoveFailure::InvalidIdentifier);
                        let na_n = non_airing_upto(us, i + 1);
                        assert(na_n == na_i.push(us[i as int]));
                        lemma_non_airing_extend(us, i + 1, us.len() as int);
                        lemma_first_bad_slug(na_full);
                        assert(forall|j: int|
                            0 <= j < na_i.len() ==> #[trigger] na_full[j] == na_i[j]);
                        assert(na_full[na_i.len() as int] == us[i as int]);
                        assert forall|j: int| 0 <= j < na_i.len() implies valid_slug(
                            #[trigger] na_full[j].id,
                        ) by {
                            lemma_non_airing_members(us, i as int);
                            let k = choose|k: int|
                                0 <= k < i && #[trigger] na_i[j] == us[k]
                                    && !us[k].air_time.is_airing;
                        }
                        assert(first_bad_slug(na_full) == na_i.len()) by {
                            lemma_first_bad_slug(na_full);
                            if first_bad_slug(na_full) < na_i.len() {
                                assert(valid_slug(na_full[first_bad_slug(na_full)].id));
                            }
                            if first_bad_slug(na_full) > na_i.len() {
                                assert(valid_slug(na_full[na_i.len() as int].id));
                            }
                        }
                        lemma_remove_all_prefix_agree(
                            olinks,
                            user_id,
                            na_i,
                            na_full,
                            na_i.len() as int,
                        );
                    }
                    return Err(e);
                },
            }
        } else {
            proof {
                assert(list.deep_view()[i as int] == list@[i as int].deep_view());
                assert(non_airing_upto(us, i + 1) == non_airing_upto(us, i as int));
            }
        }
        i += 1;
    }
    proof {
        lemma_first_bad_slug(na_full);
        if first_bad_slug(na_full) < na_full.len() {
            lemma_non_airing_members(us, us.len() as int);
            let j = first_bad_slug(na_full);
            let k = choose|k: int|
                0 <= k < us.len() && #[trigger] na_full[j] == us[k] && !us[k].air_time.is_airing;
            assert(valid_slug(us[k].id));
        }
    }
    Ok(removed)
}

/// The airing shows among the first `n`.
pub open spec fn airing_upto(shows: Seq<ShowV>, n: int) -> Seq<ShowV>
    decreases n,
    when 0 <= n <= shows.len()
{
    if n <= 0 {
        Seq::empty()
    } else if shows[n - 1].air_time.is_airing {
        airing_upto(shows, n - 1).push(shows[n - 1])
    } else {
        airing_upto(shows, n - 1)
    }
}

/// The distinct (hour, minute) pairs of the first `n` airing shows, in
/// first-appearance order.
pub open spec fn times_upto(airing: Seq<ShowV>, n: int) -> Seq<(i32, i32)>
    decreases n,
    when 0 <= n <= airing.len()
{
    if n <= 0 {
        Seq::empty()
    } else {
        let prev = times_upto(airing, n - 1);
        let t = (airing[n - 1].air_time.est_h, airing[n - 1].air_time.est_m);
        if prev.contains(t) {
            prev
        } else {
            prev.push(t)
        }
    }
}

/// The names of the first `n` airing shows that air on this day at this
/// time, in list order.
pub open spec fn names_matching_upto(
    airing: Seq<ShowV>,
    day: int,
    t: (i32, i32),
    n: int,
) -> Seq<Seq<char>>
    decreases n,
    when 0 <= n <= airing.len()
{
    if n <= 0 {
        Seq::empty()
    } else if airing[n - 1].air_time.est_week_day as int == day && airing[n - 1].air_time.est_h
        == t.0 && airing[n - 1].air_time.est_m == t.1 {
        names_matching_upto(airing, day, t, n - 1).push(airing[n - 1].name)
    } else {
        names_matching_upto(airing, day, t, n - 1)
    }
}

/// Texts joined by a comma and a space.
pub open spec fn join_comma(names: Seq<Seq<char>>) -> Seq<char>
    decreases names.len(),
{
    if names.len() == 0 {
        Seq::empty()
    } else if names.len() == 1 {
        names[0]
    } else {
        join_comma(names.drop_last()) + ", "@ + names.last()
    }
}

/// One cell of the schedule grid: the comma-joined names of every airing
/// show of the list that airs on this day at this time.
pub open spec fn cell_text(airing: Seq<ShowV>, day: int, t: (i32, i32)) -> Seq<char> {
    join_comma(names_matching_upto(airing, day, t, airing.len() as int))
}

proof fn lemma_airing_wf(shows: Seq<ShowV>, n: int)
    requires
        0 <= n <= shows.len(),
        forall|j: int| 0 <= j < shows.len() ==> (#[trigger] shows[j]).wf(),
    ensures
        forall|j: int|
            0 <= j < airing_upto(shows, n).len() ==> (#[trigger] airing_upto(shows, n)[j]).wf()
                && airing_upto(shows, n)[j].air_time.is_airing,
    decreases n,
{
    if n > 0 {
        lemma_airing_wf(shows, n - 1);
        let aa = airing_upto(shows, n);
        let prev = airing_upto(shows, n - 1);
        assert forall|j: int| 0 <= j < aa.len() implies (#[trigger] aa[j]).wf()
            && aa[j].air_time.is_airing by {
            if j < prev.len() {
                assert(aa[j] == prev[j]);
                assert(prev[j].wf() && prev[j].air_time.is_airing);
            } else {
                assert(aa[j] == shows[n - 1]);
            }
        }
    }
}

proof fn lemma_times_range(airing: Seq<ShowV>, n: int)
    requires
        0 <= n <= airing.len(),
        forall|j: int|
            0 <= j < airing.len() ==> (#[trigger] airing[j]).wf() && airing[j].air_time.is_airing,
    ensures
        forall|j: int|
            0 <= j < times_upto(airing, n).len() ==> 0 <= (#[trigger] times_upto(airing, n)[j]).0
                <= 23 && 0 <= times_upto(airing, n)[j].1 <= 59,
    decreases n,
{
    if n > 0 {
        lemma_times_range(airing, n - 1);
        let ts = times_upto(airing, n);
        let prev = times_upto(airing, n - 1);
        assert forall|j: int| 0 <= j < ts.len() implies 0 <= (#[trigger] ts[j]).0 <= 23 && 0
            <= ts[j].1 <= 59 by {
            if j < prev.len() {
                assert(ts[j] == prev[j]);
                assert(0 <= prev[j].0 <= 23 && 0 <= prev[j].1 <= 59);
            } else {
                assert(ts[j] == (airing[n - 1].air_time.est_h, airing[n - 1].air_time.est_m));
                assert(airing[n - 1].wf());
            }
        }
    }
}

proof fn lemma_user_shows_wf(shows: Seq<ShowV>, links: Seq<(i64, Seq<char>)>, user_id: i64)
    requires
        forall|j: int| 0 <= j < shows.len() ==> (#[trigger] shows[j]).wf(),
    ensures
        forall|j: int|
            0 <= j < user_shows(shows, links, user_id).len() ==> (#[trigger] user_shows(
                shows,
                links,
                user_id,
            )[j]).wf(),
    decreases shows.len(),
{
    if shows.len() > 0 {
        let rest = shows.drop_first();
        assert(forall|j: int| 0 <= j < rest.len() ==> rest[j] == #[trigger] shows[j + 1]);
        lemma_user_shows_wf(rest, links, user_id);
        let us = user_shows(shows, links, user_id);
        let tail = user_shows(rest, links, user_id);
        assert forall|j: int| 0 <= j < us.len() implies (#[trigger] us[j]).wf() by {
            if has_link(links, user_id, shows[0].id) {
                if j > 0 {
                    assert(us[j] == tail[j - 1]);
                    assert(tail[j - 1].wf());
                }
            } else {
                assert(us[j] == tail[j]);
                assert(tail[j].wf());
            }
        }
    }
}

/// The weekly schedule table of a user's tracked shows: seven weekday
/// rows aligned with the distinct release times of the airing shows,
/// and the non-airing shows listed separately.
pub struct ShowTable {
    pub release_times: Vec<String>,
    pub days: Vec<String>,
    pub shows: Vec<Vec<String>>,
    pub non_airing: Vec<String>,
}

/// The mathematical value of a `ShowTable`.
pub ghost struct TableV {
    pub release_times: Seq<Seq<char>>,
    pub days: Seq<Seq<char>>,
    pub shows: Seq<Seq<Seq<char>>>,
    pub non_airing: Seq<Seq<char>>,
}

impl View for ShowTable {
    type V = TableV;

    open spec fn view(&self) -> TableV {
        TableV {
            release_times: self.release_times.deep_view(),
            days: self.days.deep_view(),
            shows: self.shows.deep_view(),
            non_airing: self.non_airing.deep_view(),
        }
    }
}

fn times_contains(times: &Vec<(i32, i32)>, t: (i32, i32)) -> (r: bool)
    ensures
        r == times@.contains(t),
{
    let mut i: usize = 0;
    while i < times.len()
        invariant
            i <= times@.len(),
            forall|j: int| 0 <= j < i ==> times@[j] != t,
        decreases times@.len() - i,
    {
        if times[i].0 == t.0 && times[i].1 == t.1 {
            proof {
                assert(times@[i as int] == t);
            }
            return true;
        }
        i += 1;
    }
    proof {
        if times@.contains(t) {
            let k = choose|k: int| 0 <= k < times@.len() && times@[k] == t;
            assert(times@[k] != t);
        }
    }
    false
}

fn build_cell(airing: &Vec<Show>, day: i32, t: (i32, i32)) -> (r: String)
    ensures
        r@ == cell_text(airing.deep_view(), day as int, t),
{
    let ghost av = airing.deep_view();
    let mut cur = String::new();
    let mut any = false;
    let mut i: usize = 0;
    while i < airing.len()
        invariant
            i <= airing@.len(),
            airing@.len() == av.len(),
            av == airing.deep_view(),
            any <==> names_matching_upto(av, day as int, t, i as int).len() > 0,
            cur@ == join_comma(names_matching_upto(av, day as int, t, i as int)),
        decreases airing@.len() - i,
    {
        proof {
            assert(airing.deep_view()[i as int] == airing@[i as int].deep_view());
        }
        let at = &airing[i].air_time;
        if at.est_week_day == day && at.est_h == t.0 && at.est_m == t.1 {
            let ghost names = names_matching_upto(av, day as int, t, i as int);
            proof {
                assert(names_matching_upto(av, day as int, t, i + 1) == names.push(
                    av[i as int].name,
                ));
                if names.len() > 0 {
                    assert(names.push(av[i as int].name).drop_last() =~= names);
                }
            }
            if !any {
                cur = airing[i].name.clone();
                any = true;
            } else {
                cur.append(", ");
                cur.append(airing[i].name.as_str());
            }
        } else {
            proof {
                assert(names_matching_upto(av, day as int, t, i + 1) == names_matching_upto(
                    av,
                    day as int,
                    t,
                    i as int,
                ));
            }
        }
        i += 1;
    }
    cur
}

/// Builds the weekly schedule table for a user: the distinct release
/// times of their airing shows in first-appearance order, the seven
/// weekday labels Monday-first, for each day and time the comma-joined
/// names of the shows airing exactly then, and the names of the
/// non-airing shows.
pub fn generate_schedule(store: &Store, user_id: i64) -> (r: ShowTable)
    requires
        store.wf(),
    ensures
        ({
            let us = user_shows(store.spec_shows(), store.spec_links(), user_id);
            let airing = airing_upto(us, us.len() as int);
            let times = times_upto(airing, airing.len() as int);
            let na = non_airing_upto(us, us.len() as int);
            &&& r@.release_times.len() == times.len()
            &&& (forall|j: int|
                0 <= j < times.len() ==> #[trigger] r@.release_times[j] == crate::show::clock_stamp(
                    times[j].0 as int,
                    times[j].1 as int,
                ))
            &&& r@.days.len() == 7
            &&& (forall|d: int| 0 <= d < 7 ==> #[trigger] r@.days[d] == crate::show::weekday_name(d))
            &&& r@.shows.len() == 7
            &&& (forall|d: int| 0 <= d < 7 ==> #[trigger] r@.shows[d].len() == times.len())
            &&& (forall|d: int, j: int|
                0 <= d < 7 && 0 <= j < times.len() ==> #[trigger] r@.shows[d][j] == cell_text(
                    airing,
                    d,
                    times[j],
                ))
            &&& r@.non_airing.len() == na.len()
            &&& (forall|j: int| 0 <= j < na.len() ==> #[trigger] r@.non_airing[j] == na[j].name)
        }),
{
    let ghost shows0 = store.spec_shows();
    let ghost links0 = store.spec_links();
    let ghost us = user_shows(shows0, links0, user_id);
    let list = store.get_shows_for_user(user_id);
    let mut airing: Vec<Show> = Vec::new();
    let mut non_airing: Vec<String> = Vec::new();
    let mut i: usize = 0;
    proof {
        assert(airing.deep_view() =~= Seq::<ShowV>::empty());
        assert(non_airing.deep_view() =~= Seq::<Seq<char>>::empty());
    }
    while i < list.len()
        invariant
            i <= list@.len(),
            list.deep_view() == us,
            list@.len() == us.len(),
            airing.deep_view() == airing_upto(us, i as int),
            non_airing.deep_view().len() == non_airing_upto(us, i as int).len(),
            forall|j: int|
                0 <= j < non_airing_upto(us, i as int).len() ==> #[trigger] non_airing.deep_view()[j]
                    == non_airing_upto(us, i as int)[j].name,
        decreases list@.len() - i,
    {
        proof {
            assert(list.deep_view()[i as int] == list@[i as int].deep_view());
        }
        if list[i].air_time.is_airing {
            let ghost pre = airing.deep_view();
            airing.push(list[i].duplicate());
            proof {
                assert(airing.deep_view() =~= pre.push(us[i as int]));
            }
        } else {
            let ghost pre = non_airing.deep_view();
            non_airing.push(list[i].name.clone());
            proof {
                assert(non_airing.deep_view() =~= pre.push(us[i as int].name));
            }
        }
        i += 1;
    }
    let ghost av = airing.deep_view();
    let mut times: Vec<(i32, i32)> = Vec::new();
    let mut k: usize = 0;
    while k < airing.len()
        invariant
            k <= airing@.len(),
            airing@.len() == av.len(),
            av == airing.deep_view(),
            times@ == times_upto(av, k as int),
        decreases airing@.len() - k,
    {
        proof {
            assert(airing.deep_view()[k as int] == airing@[k as int].deep_view());
        }
        let t = (airing[k].air_time.est_h, airing[k].air_time.est_m);
        if !times_contains(&times, t) {
            times.push(t);
        }
        k += 1;
    }
    proof {
        lemma_user_shows_wf(shows0, links0, user_id);
        lemma_airing_wf(us, us.len() as int);
        lemma_times_range(av, av.len() as int);
    }
    let mut release_times: Vec<String> = Vec::new();
    let mut j: usize = 0;
    while j < times.len()
        invariant
            j <= times@.len(),
            forall|q: int| 0 <= q < times@.len() ==> 0 <= #[trigger] times@[q].0 <= 23 && 0
                <= times@[q].1 <= 59,
            release_times.deep_view().len() == j,
            forall|q: int|
                0 <= q < j ==> #[trigger] release_times.deep_view()[q] == crate::show::clock_stamp(
                    times@[q].0 as int,
                    times@[q].1 as int,
                ),
        decreases times@.len() - j,
    {
        let stamp = crate::show::format_clock(times[j].0, times[j].1);
        let ghost pre = release_times.deep_view();
        release_times.push(stamp);
        proof {
            assert forall|q: int| 0 <= q < j + 1 implies #[trigger] release_times.deep_view()[q]
                == crate::show::clock_stamp(times@[q].0 as int, times@[q].1 as int) by {
                if q < j {
                    assert(release_times.deep_view()[q] == pre[q]);
                }
            }
        }
        j += 1;
    }
    let labels = AirTime::weekdays();
    let mut days: Vec<String> = Vec::new();
    let mut grid: Vec<Vec<String>> = Vec::new();
    let mut d: usize = 0;
    while d < 7
        invariant
            d <= 7,
            av == airing.deep_view(),
            times@ == times_upto(av, av.len() as int),
            forall|q: int| 0 <= q < 7 ==> labels@[q]@ == crate::show::weekday_name(q),
            days.deep_view().len() == d,
            forall|q: int|
                0 <= q < d ==> #[trigger] days.deep_view()[q] == crate::show::weekday_name(q),
            grid.deep_view().len() == d,
            forall|q: int| 0 <= q < d ==> #[trigger] grid.deep_view()[q].len() == times@.len(),
            forall|q: int, j2: int|
                0 <= q < d && 0 <= j2 < times@.len() ==> #[trigger] grid.deep_view()[q][j2]
                    == cell_text(av, q, times@[j2]),
        decreases 7 - d,
    {
        let ghost pre_days = days.deep_view();
        days.push(String::from_str(labels[d]));
        let mut row: Vec<String> = Vec::new();
        let mut j2: usize = 0;
        while j2 < times.len()
            invariant
                j2 <= times@.len(),
                d < 7,
                av == airing.deep_view(),
                row.deep_view().len() == j2,
                forall|q: int|
                    0 <= q < j2 ==> #[trigger] row.deep_view()[q] == cell_text(
                        av,
                        d as int,
                        times@[q],
                    ),
            decreases times@.len() - j2,
        {
            let cell = build_cell(&airing, d as i32, times[j2]);
            let ghost pre_row = row.deep_view();
            row.push(cell);
            proof {
                assert forall|q: int| 0 <= q < j2 + 1 implies #[trigger] row.deep_view()[q]
                    == cell_text(av, d as int, times@[q]) by {
                    if q < j2 {
                        assert(row.deep_view()[q] == pre_row[q]);
                    }
                }
            }
            j2 += 1;
        }
        let ghost pre_grid = grid.deep_view();
        grid.push(row);
        proof {
            assert forall|q: int| 0 <= q < d + 1 implies #[trigger] days.deep_view()[q]
                == crate::show::weekday_name(q) by {
                if q < d {
                    assert(days.deep_view()[q] == pre_days[q]);
                }
            }
            assert forall|q: int, j3: int|
                0 <= q < d + 1 && 0 <= j3 < times@.len() implies #[trigger] grid.deep_view()[q][j3]
                == cell_text(av, q, times@[j3]) by {
                if q < d {
                    assert(grid.deep_view()[q] == pre_grid[q]);
                }
            }
            assert forall|q: int| 0 <= q < d + 1 implies #[trigger] grid.deep_view()[q].len()
                == times@.len() by {
                if q < d {
                    assert(grid.deep_view()[q] == pre_grid[q]);
                }
            }
        }
        d += 1;
    }
    ShowTable { release_times, days, shows: grid, non_airing }
}

/// The schedule table of a user who tracks exactly one airing show —
/// on Monday at 09:00, with a non-empty display name — and one
/// non-airing show: the airing show's name is the whole Monday text,
/// rendered as `"09:00 - <name>"`, every other weekday's text is empty,
/// and the non-airing show's name is the whole closing list. A show
/// whose display name is empty is left out by the premise: its cell is
/// empty and its slot would not be rendered at all.
pub proof fn lemma_schedule_one_airing_one_idle(a: ShowV, m: ShowV)
    requires
        a.air_time.is_airing,
        a.air_time.est_week_day == 0,
        a.air_time.est_h == 9,
        a.air_time.est_m == 0,
        a.name.len() > 0,
        !m.air_time.is_airing,
    ensures
        ({
            let us = seq![a, m];
            let airing = airing_upto(us, 2);
            let times = times_upto(airing, airing.len() as int);
            &&& airing =~= seq![a]
            &&& times =~= seq![(9i32, 0i32)]
            &&& non_airing_upto(us, 2) =~= seq![m]
            &&& cell_text(airing, 0, (9i32, 0i32)) == a.name
            &&& (forall|d: int|
                1 <= d < 7 ==> #[trigger] cell_text(airing, d, (9i32, 0i32)) == Seq::<
                    char,
                >::empty())
            &&& day_lines(seq![a.name], seq![crate::show::clock_stamp(9, 0)], 1)
                == crate::show::clock_stamp(9, 0) + " - "@ + a.name
            &&& (forall|d: int|
                1 <= d < 7 ==> #[trigger] day_lines(
                    seq![cell_text(airing, d, (9i32, 0i32))],
                    seq![crate::show::clock_stamp(9, 0)],
                    1,
                ) == Seq::<char>::empty())
            &&& join_comma(seq![m.name]) == m.name
        }),
{
    let us = seq![a, m];
    let airing = airing_upto(us, 2);
    assert(us.len() == 2 && us[0] == a && us[1] == m);
    assert(airing_upto(us, 0) =~= Seq::<ShowV>::empty());
    assert(airing_upto(us, 1) =~= Seq::<ShowV>::empty().push(a));
    assert(airing =~= seq![a]);
    assert(non_airing_upto(us, 0) =~= Seq::<ShowV>::empty());
    assert(non_airing_upto(us, 1) =~= Seq::<ShowV>::empty());
    assert(non_airing_upto(us, 2) =~= Seq::<ShowV>::empty().push(m));
    let times = times_upto(airing, 1);
    assert(times_upto(airing, 0) =~= Seq::<(i32, i32)>::empty());
    assert(times =~= seq![(9i32, 0i32)]);
    assert(names_matching_upto(airing, 0, (9i32, 0i32), 0) =~= Seq::<Seq<char>>::empty());
    assert(airing[0] == a);
    assert(names_matching_upto(airing, 0, (9i32, 0i32), 1) =~= Seq::<Seq<char>>::empty().push(
        a.name,
    ));
    assert(cell_text(airing, 0, (9i32, 0i32)) == join_comma(seq![a.name]));
    assert(join_comma(seq![a.name]) == a.name);
    assert forall|d: int| 1 <= d < 7 implies #[trigger] cell_text(airing, d, (9i32, 0i32)) == Seq::<
        char,
    >::empty() by {
        assert(names_matching_upto(airing, d, (9i32, 0i32), 0) =~= Seq::<Seq<char>>::empty());
        assert(a.air_time.est_week_day as int != d);
        assert(names_matching_upto(airing, d, (9i32, 0i32), 1) =~= Seq::<Seq<char>>::empty());
    }
    assert(day_lines(seq![a.name], seq![crate::show::clock_stamp(9, 0)], 0) =~= Seq::<
        char,
    >::empty());
    assert forall|d: int| 1 <= d < 7 implies #[trigger] day_lines(
        seq![cell_text(airing, d, (9i32, 0i32))],
        seq![crate::show::clock_stamp(9, 0)],
        1,
    ) == Seq::<char>::empty() by {
        assert(cell_text(airing, d, (9i32, 0i32)).len() == 0);
        assert(day_lines(
            seq![cell_text(airing, d, (9i32, 0i32))],
            seq![crate::show::clock_stamp(9, 0)],
            0,
        ) =~= Seq::<char>::empty());
    }
    assert(join_comma(seq![m.name]) == m.name);
}

pub open spec fn spec_min(a: int, b: int) -> int {
    if a <= b {
        a
    } else {
        b
    }
}

/// The printable text of one weekday, built from the first `n` slots:
/// one `"<HH:MM> - <names>"` line per slot with a non-empty cell, the
/// lines joined by newlines.
pub open spec fn day_lines(row: Seq<Seq<char>>, times: Seq<Seq<char>>, n: int) -> Seq<char>
    decreases n,
    when 0 <= n <= row.len() && n <= times.len()
{
    if n <= 0 {
        Seq::empty()
    } else {
        let prev = day_lines(row, times, n - 1);
        if row[n - 1].len() == 0 {
            prev
        } else if prev.len() == 0 {
            times[n - 1] + " - "@ + row[n - 1]
        } else {
            prev + "\n"@ + times[n - 1] + " - "@ + row[n - 1]
        }
    }
}

impl ShowTable {
    /// Renders the table: one (day, text) pair per weekday, the text a
    /// newline-joined `"<HH:MM> - <names>"` per populated slot — slots
    /// with no shows are skipped, not rendered as empty lines — and,
    /// when any non-airing shows exist, one closing pair that lists
    /// their names. Fails only when the grid holds fewer rows than
    /// there are days.
    pub fn get_printable_table(&self) -> (r: Result<Vec<(String, String)>, ()>)
        ensures
            r is Ok <==> self@.days.len() <= self@.shows.len(),
            r is Ok ==> ({
                let t = self@;
                let extra: int = if t.non_airing.len() > 0 {
                    1
                } else {
                    0
                };
                &&& r->Ok_0@.len() == t.days.len() + extra
                &&& (forall|i: int|
                    0 <= i < t.days.len() ==> ((#[trigger] r->Ok_0@[i]).0@ == t.days[i]
                        && r->Ok_0@[i].1@ == day_lines(
                        t.shows[i],
                        t.release_times,
                        spec_min(t.shows[i].len() as int, t.release_times.len() as int),
                    )))
                &&& (t.non_airing.len() > 0 ==> r->Ok_0@[t.days.len() as int].0@
                    == "Not currently airing:"@ && r->Ok_0@[t.days.len() as int].1@ == join_comma(
                    t.non_airing,
                ))
            }),
    {
        if self.days.len() > self.shows.len() {
            return Err(());
        }
        let mut res: Vec<(String, String)> = Vec::new();
        let mut i: usize = 0;
        while i < self.days.len()
            invariant
                i <= self@.days.len(),
                self@.days.len() <= self@.shows.len(),
                self.days@.len() == self@.days.len(),
                self.shows@.len() == self@.shows.len(),
                self.release_times@.len() == self@.release_times.len(),
                res@.len() == i,
                forall|q: int|
                    0 <= q < i ==> ((#[trigger] res@[q]).0@ == self@.days[q] && res@[q].1@
                        == day_lines(
                        self@.shows[q],
                        self@.release_times,
                        spec_min(
                            self@.shows[q].len() as int,
                            self@.release_times.len() as int,
                        ),
                    )),
            decreases self.days@.len() - i,
        {
            let ghost t = self@;
            let row_len = self.shows[i].len();
            let times_len = self.release_times.len();
            let n = if row_len <= times_len {
                row_len
            } else {
                times_len
            };
            proof {
                assert(self@.shows[i as int].len() == self.shows@[i as int].deep_view().len());
                assert(n == spec_min(
                    self@.shows[i as int].len() as int,
                    self@.release_times.len() as int,
                ));
            }
            let mut text = String::new();
            let mut j: usize = 0;
            while j < n
                invariant
                    j <= n,
                    i < t.days.len(),
                    t == self@,
                    t.days.len() <= t.shows.len(),
                    self.shows@.len() == t.shows.len(),
                    self.release_times@.len() == t.release_times.len(),
                    n <= t.shows[i as int].len(),
                    n <= t.release_times.len(),
                    text@ == day_lines(t.shows[i as int], t.release_times, j as int),
                decreases n - j,
            {
                proof {
                    assert(t.shows[i as int][j as int] == self.shows@[i as int].deep_view()[j as int]);
                    assert(t.release_times[j as int] == self.release_times@[j as int]@);
                }
                if !self.shows[i][j].as_str().is_empty() {
                    if !text.as_str().is_empty() {
                        text.append("\n");
                    }
                    text.append(self.release_times[j].as_str());
                    text.append(" - ");
                    text.append(self.shows[i][j].as_str());
                }
                j += 1;
            }
            let day = self.days[i].clone();
            res.push((day, text));
            i += 1;
        }
        if self.non_airing.len() > 0 {
            let mut joined = String::new();
            let mut q: usize = 0;
            while q < self.non_airing.len()
                invariant
                    q <= self@.non_airing.len(),
                    self.non_airing@.len() == self@.non_airing.len(),
                    joined@ == join_comma(self@.non_airing.take(q as int)),
                decreases self.non_airing@.len() - q,
            {
                proof {
                    let na = self@.non_airing;
                    assert(na.take(q + 1).drop_last() =~= na.take(q as int));
                    assert(na.take(q + 1).last() == na[q as int]);
                    assert(na[q as int] == self.non_airing@[q as int]@);
                }
                if q == 0 {
                    joined = self.non_airing[0].clone();
                } else {
                    joined.append(", ");
                    joined.append(self.non_airing[q].as_str());
                }
                q += 1;
            }
            proof {
                assert(self@.non_airing.take(self@.non_airing.len() as int) =~= self@.non_airing);
            }
            res.push((String::from_str("Not currently airing:"), joined));
        }
        Ok(res)
    }
}

} // verus!
