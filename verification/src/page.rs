//! Show pages: the accepted show-URL form, page scraping and the add flow.

use vstd::prelude::*;
use vstd::string::StrSliceExecFns;
use vstd::string::StringExecFns;
use crate::show::AirTime;
use crate::show::Show;
use crate::show::ShowV;
use crate::show::weekday_name;
use crate::store::Store;
use crate::store::has_link;
use crate::store::has_show;
use crate::strutil::str_eq;

verus! {

/// Characters allowed in a show identifier inside a URL.
pub open spec fn is_slug_char(c: char) -> bool {
    ('A' <= c && c <= 'Z') || ('a' <= c && c <= 'z') || ('0' <= c && c <= '9') || c == '_' || c
        == '-'
}

fn is_slug_char_exec(c: char) -> (r: bool)
    ensures
        r == is_slug_char(c),
{
    ('A' <= c && c <= 'Z') || ('a' <= c && c <= 'z') || ('0' <= c && c <= '9') || c == '_' || c
        == '-'
}

/// The fixed prefix of every accepted show URL.
pub open spec fn url_prefix() -> Seq<char> {
    "https://subsplease.org/shows/"@
}

/// An accepted show URL: the fixed prefix, a non-empty slug, one closing
/// slash and nothing else.
pub open spec fn spec_valid_show_url(s: Seq<char>) -> bool {
    &&& s.len() > url_prefix().len() + 1
    &&& s.take(url_prefix().len() as int) == url_prefix()
    &&& s[s.len() - 1] == '/'
    &&& forall|i: int| url_prefix().len() <= i < s.len() - 1 ==> is_slug_char(s[i])
}

/// The slug between the prefix and the closing slash.
pub open spec fn spec_url_slug(s: Seq<char>) -> Seq<char> {
    s.subrange(url_prefix().len() as int, s.len() - 1)
}

/// Whether a string is exactly the accepted show-URL form.
pub fn is_valid_url(url: &str) -> (r: bool)
    ensures
        r == spec_valid_show_url(url@),
{
    let prefix = "https://subsplease.org/shows/";
    proof {
        reveal_strlit("https://subsplease.org/shows/");
    }
    let plen = prefix.unicode_len();
    let n = url.unicode_len();
    if n < plen + 2 {
        return false;
    }
    let mut i: usize = 0;
    while i < plen
        invariant
            i <= plen,
            plen == url_prefix().len(),
            prefix@ == url_prefix(),
            n == url@.len(),
            n >= plen + 2,
            forall|j: int| 0 <= j < i ==> url@[j] == url_prefix()[j],
        decreases plen - i,
    {
        proof {
            reveal_strlit("https://subsplease.org/shows/");
        }
        if url.get_char(i) != prefix.get_char(i) {
            proof {
                assert(url@[i as int] != url_prefix()[i as int]);
                assert(url@.take(url_prefix().len() as int)[i as int] == url@[i as int]);
            }
            return false;
        }
        i += 1;
    }
    proof {
        assert(url@.take(url_prefix().len() as int) =~= url_prefix());
    }
    if url.get_char(n - 1) != '/' {
        return false;
    }
    let mut k: usize = plen;
    while k < n - 1
        invariant
            plen <= k <= n - 1,
            plen == url_prefix().len(),
            n == url@.len(),
            n >= plen + 2,
            url@.take(url_prefix().len() as int) == url_prefix(),
            url@[n - 1] == '/',
            forall|j: int| plen <= j < k ==> is_slug_char(url@[j]),
        decreases n - 1 - k,
    {
        if !is_slug_char_exec(url.get_char(k)) {
            return false;
        }
        k += 1;
    }
    true
}

/// The show identifier inside an accepted show URL.
pub fn url_to_show_id(url: &str) -> (r: Option<String>)
    ensures
        r is Some <==> spec_valid_show_url(url@),
        r is Some ==> r->Some_0@ == spec_url_slug(url@),
{
    if !is_valid_url(url) {
        return None;
    }
    let prefix = "https://subsplease.org/shows/";
    let plen = prefix.unicode_len();
    let n = url.unicode_len();
    let slug = url.substring_char(plen, n - 1);
    Some(String::from_str(slug))
}

/// Whether the text contains `http` anywhere.
pub open spec fn spec_contains_http(s: Seq<char>) -> bool {
    exists|i: int| 0 <= i <= s.len() - 4 && #[trigger] s.subrange(i, i + 4) == "http"@
}

pub fn contains_http(s: &str) -> (r: bool)
    ensures
        r == spec_contains_http(s@),
{
    proof {
        reveal_strlit("http");
    }
    let n = s.unicode_len();
    if n < 4 {
        proof {
            if spec_contains_http(s@) {
                let i = choose|i: int| 0 <= i <= s@.len() - 4 && #[trigger] s@.subrange(i, i + 4) == "http"@;
                assert(s@.subrange(i, i + 4).len() == 4);
            }
        }
        return false;
    }
    let mut i: usize = 0;
    while i <= n - 4
        invariant
            n == s@.len(),
            n >= 4,
            i <= n - 3,
            forall|j: int| 0 <= j < i ==> #[trigger] s@.subrange(j, j + 4) != "http"@,
        decreases n - i,
    {
        if s.get_char(i) == 'h' && s.get_char(i + 1) == 't' && s.get_char(i + 2) == 't'
            && s.get_char(i + 3) == 'p' {
            proof {
                reveal_strlit("http");
                assert(s@.subrange(i as int, i + 4) =~= "http"@);
            }
            return true;
        }
        proof {
            reveal_strlit("http");
            assert(s@.subrange(i as int, i + 4) != "http"@) by {
                if s@.subrange(i as int, i + 4) == "http"@ {
                    assert(s@.subrange(i as int, i + 4)[0] == 'h');
                    assert(s@.subrange(i as int, i + 4)[1] == 't');
                    assert(s@.subrange(i as int, i + 4)[2] == 't');
                    assert(s@.subrange(i as int, i + 4)[3] == 'p');
                }
            }
        }
        i += 1;
    }
    proof {
        if spec_contains_http(s@) {
            let j = choose|j: int| 0 <= j <= s@.len() - 4 && #[trigger] s@.subrange(j, j + 4) == "http"@;
            assert(s@.subrange(j, j + 4) != "http"@);
        }
    }
    false
}

/// What a single pattern match binds to a key, a function of the pattern,
/// the document and the key alone.
pub uninterp spec fn pattern_capture_of(
    pattern: Seq<char>,
    data: Seq<char>,
    key: Seq<char>,
) -> Option<Seq<char>>;

/// Relies on easy_scraper::Pattern::new and Pattern::matches: the first
/// match's binding for `key`, or nothing when the pattern does not build
/// or does not match. Matching depends only on the three arguments.
/// Only the three fixed page patterns are admitted: on other patterns
/// the matcher can abort (its text-node matching asserts on text such as
/// `}}a{{` and builds a regex from pattern text unescaped), so nothing
/// is claimed for them.
#[verifier::external_body]
fn pattern_first_capture(pattern: &str, data: &str, key: &str) -> (r: Option<String>)
    requires
        pattern@ == im_pattern() || pattern@ == synopsis_pattern() || pattern@ == name_pattern(),
    ensures
        r is Some <==> pattern_capture_of(pattern@, data@, key@) is Some,
        r is Some ==> Some(r->Some_0@) == pattern_capture_of(pattern@, data@, key@),
{
    let p = match easy_scraper::Pattern::new(pattern) {
        Ok(p) => p,
        Err(_) => return None,
    };
    let ms = p.matches(data);
    Some(ms.get(0)?.get(key)?.to_string())
}

pub open spec fn im_pattern() -> Seq<char> {
    r##"<img class="img-responsive img-center" src="{{url}}" />"##@
}

pub open spec fn synopsis_pattern() -> Seq<char> {
    r##"<div class="series-syn">
                        <p>{{synopsis}}</p>
                     </div>"##@
}

pub open spec fn name_pattern() -> Seq<char> {
    r##"<h1 class="entry-title">{{name}}</h1>"##@
}

/// What extracting a show page yields: the image URL (made absolute), the
/// synopsis and the display name, or nothing as soon as one of the three
/// patterns has no match.
pub open spec fn spec_image_synopsis_name(data: Seq<char>) -> Option<
    (Seq<char>, Seq<char>, Seq<char>),
> {
    match pattern_capture_of(im_pattern(), data, "url"@) {
        None => None,
        Some(url) => match pattern_capture_of(synopsis_pattern(), data, "synopsis"@) {
            None => None,
            Some(synopsis) => match pattern_capture_of(name_pattern(), data, "name"@) {
                None => None,
                Some(name) => Some(("https://subsplease.org"@ + url, synopsis, name)),
            },
        },
    }
}

/// Extracts image URL, synopsis and display name from a show page.
pub fn get_image_synopsis_and_name(data: &str) -> (r: Option<(String, String, String)>)
    ensures
        r is Some <==> spec_image_synopsis_name(data@) is Some,
        r is Some ==> Some((r->Some_0.0@, r->Some_0.1@, r->Some_0.2@))
            == spec_image_synopsis_name(data@),
{
    let url = match pattern_first_capture(
        r##"<img class="img-responsive img-center" src="{{url}}" />"##,
        data,
        "url",
    ) {
        None => return None,
        Some(u) => u,
    };
    let synopsis = match pattern_first_capture(
        r##"<div class="series-syn">
                        <p>{{synopsis}}</p>
                     </div>"##,
        data,
        "synopsis",
    ) {
        None => return None,
        Some(s) => s,
    };
    let name = match pattern_first_capture(
        r##"<h1 class="entry-title">{{name}}</h1>"##,
        data,
        "name",
    ) {
        None => return None,
        Some(n) => n,
    };
    let mut image = String::from_str("https://subsplease.org");
    image.append(url.as_str());
    Some((image, synopsis, name))
}

/// One entry of the weekly schedule feed.
pub struct ScheduleEntry {
    pub title: String,
    pub page: String,
    pub image_url: String,
    pub time: String,
}

/// The mathematical value of a `ScheduleEntry`.
pub ghost struct EntryV {
    pub title: Seq<char>,
    pub page: Seq<char>,
    pub image_url: Seq<char>,
    pub time: Seq<char>,
}

impl View for ScheduleEntry {
    type V = EntryV;

    open spec fn view(&self) -> EntryV {
        EntryV {
            title: self.title@,
            page: self.page@,
            image_url: self.image_url@,
            time: self.time@,
        }
    }
}

impl DeepView for ScheduleEntry {
    type V = EntryV;

    open spec fn deep_view(&self) -> EntryV {
        self@
    }
}

/// One weekday of the schedule feed with its entries.
pub struct ScheduleDay {
    pub day: String,
    pub shows: Vec<ScheduleEntry>,
}

/// The mathematical value of a `ScheduleDay`.
pub ghost struct DayV {
    pub day: Seq<char>,
    pub shows: Seq<EntryV>,
}

impl View for ScheduleDay {
    type V = DayV;

    open spec fn view(&self) -> DayV {
        DayV { day: self.day@, shows: self.shows.deep_view() }
    }
}

impl DeepView for ScheduleDay {
    type V = DayV;

    open spec fn deep_view(&self) -> DayV {
        self@
    }
}

pub open spec fn is_digit(c: char) -> bool {
    '0' <= c && c <= '9'
}

pub open spec fn all_digits(s: Seq<char>) -> bool {
    forall|i: int| 0 <= i < s.len() ==> is_digit(s[i])
}

pub open spec fn digit_of(c: char) -> int {
    if c == '0' {
        0
    } else if c == '1' {
        1
    } else if c == '2' {
        2
    } else if c == '3' {
        3
    } else if c == '4' {
        4
    } else if c == '5' {
        5
    } else if c == '6' {
        6
    } else if c == '7' {
        7
    } else if c == '8' {
        8
    } else {
        9
    }
}

fn digit_of_exec(c: char) -> (r: i64)
    requires
        is_digit(c),
    ensures
        r == digit_of(c),
        0 <= r <= 9,
{
    match c {
        '0' => 0,
        '1' => 1,
        '2' => 2,
        '3' => 3,
        '4' => 4,
        '5' => 5,
        '6' => 6,
        '7' => 7,
        '8' => 8,
        _ => 9,
    }
}

pub open spec fn digits_acc(s: Seq<char>, acc: int) -> int
    decreases s.len(),
{
    if s.len() == 0 {
        acc
    } else {
        digits_acc(s.drop_first(), acc * 10 + digit_of(s[0]))
    }
}

proof fn lemma_digits_acc_mono(s: Seq<char>, acc: int)
    requires
        acc >= 0,
    ensures
        digits_acc(s, acc) >= acc,
    decreases s.len(),
{
    if s.len() > 0 {
        lemma_digits_acc_mono(s.drop_first(), acc * 10 + digit_of(s[0]));
    }
}

/// How one part of a `HH:MM` stamp is read: its decimal value when it is
/// all digits and fits a 32-bit integer, and zero otherwise.
pub open spec fn spec_parse_clock_part(s: Seq<char>) -> int {
    if s.len() > 0 && all_digits(s) && digits_acc(s, 0) <= 0x7fff_ffff {
        digits_acc(s, 0)
    } else {
        0
    }
}

/// Reads one part of a clock stamp.
pub fn parse_clock_part(s: &str) -> (r: i32)
    ensures
        r == spec_parse_clock_part(s@),
        0 <= r <= 0x7fff_ffff,
{
    let n = s.unicode_len();
    if n == 0 {
        return 0;
    }
    let mut acc: i64 = 0;
    let mut i: usize = 0;
    proof {
        assert(s@.skip(0) =~= s@);
    }
    while i < n
        invariant
            i <= n,
            n == s@.len(),
            n > 0,
            all_digits(s@.take(i as int)),
            0 <= acc <= 0x7fff_ffff,
            digits_acc(s@, 0) == digits_acc(s@.skip(i as int), acc as int),
        decreases n - i,
    {
        let c = s.get_char(i);
        proof {
            let t = s@.skip(i as int);
            assert(t[0] == s@[i as int]);
            assert(t.drop_first() =~= s@.skip(i + 1));
        }
        if !('0' <= c && c <= '9') {
            proof {
                assert(!all_digits(s@)) by {
                    assert(!is_digit(s@[i as int]));
                }
            }
            return 0;
        }
        acc = acc * 10 + digit_of_exec(c);
        proof {
            assert(all_digits(s@.take(i + 1))) by {
                assert(forall|j: int|
                    0 <= j < i + 1 ==> s@.take(i + 1)[j] == #[trigger] s@.take(i as int).push(
                        s@[i as int],
                    )[j]);
            }
        }
        if acc > 0x7fff_ffff {
            proof {
                if all_digits(s@) {
                    assert(forall|j: int|
                        0 <= j < s@.skip(i + 1).len() ==> is_digit(#[trigger] s@.skip(i + 1)[j]));
                    lemma_digits_acc_mono(s@.skip(i + 1), acc as int);
                    assert(digits_acc(s@, 0) > 0x7fff_ffff);
                }
            }
            return 0;
        }
        i += 1;
    }
    proof {
        assert(s@.take(n as int) =~= s@);
        assert(s@.skip(n as int) =~= Seq::<char>::empty());
    }
    acc as i32
}

/// The hour and minute read from a `HH:MM` stamp: the text before the
/// first colon and the text between the first and second colon, each read
/// as a decimal number and replaced by zero when it is out of range for
/// its place on a clock.
pub open spec fn clock_of(time: Seq<char>) -> (int, int) {
    let h0 = spec_parse_clock_part(clock_left(time));
    let m0 = spec_parse_clock_part(clock_right(time));
    (if 0 <= h0 <= 23 { h0 } else { 0 }, if 0 <= m0 <= 59 { m0 } else { 0 })
}

/// Index of the first colon, or -1 when there is none.
pub open spec fn first_colon(s: Seq<char>) -> int
    decreases s.len(),
{
    if s.len() == 0 {
        -1
    } else if s[0] == ':' {
        0
    } else {
        let rest = first_colon(s.drop_first());
        if rest < 0 {
            -1
        } else {
            rest + 1
        }
    }
}

proof fn lemma_first_colon(s: Seq<char>)
    ensures
        first_colon(s) < 0 ==> forall|j: int| 0 <= j < s.len() ==> s[j] != ':',
        first_colon(s) >= 0 ==> 0 <= first_colon(s) < s.len() && s[first_colon(s)] == ':'
            && forall|j: int| 0 <= j < first_colon(s) ==> s[j] != ':',
    decreases s.len(),
{
    if s.len() > 0 && s[0] != ':' {
        let rest = s.drop_first();
        lemma_first_colon(rest);
        if first_colon(rest) < 0 {
            assert forall|j: int| 0 <= j < s.len() implies s[j] != ':' by {
                if j > 0 {
                    assert(rest[j - 1] == s[j]);
                    assert(rest[j - 1] != ':');
                }
            }
        } else {
            let k = first_colon(rest);
            assert(s[k + 1] == rest[k]);
            assert forall|j: int| 0 <= j < k + 1 implies s[j] != ':' by {
                if j > 0 {
                    assert(rest[j - 1] == s[j]);
                    assert(rest[j - 1] != ':');
                }
            }
        }
    }
}

pub open spec fn clock_left(time: Seq<char>) -> Seq<char> {
    if first_colon(time) < 0 {
        time
    } else {
        time.take(first_colon(time))
    }
}

pub open spec fn clock_right(time: Seq<char>) -> Seq<char> {
    if first_colon(time) < 0 {
        Seq::empty()
    } else {
        let rest = time.skip(first_colon(time) + 1);
        if first_colon(rest) < 0 {
            rest
        } else {
            rest.take(first_colon(rest))
        }
    }
}

fn find_colon(s: &str) -> (r: Option<usize>)
    ensures
        r is Some <==> first_colon(s@) >= 0,
        r is Some ==> r->Some_0 == first_colon(s@) && r->Some_0 < s@.len(),
{
    let n = s.unicode_len();
    let mut i: usize = 0;
    while i < n
        invariant
            i <= n,
            n == s@.len(),
            forall|j: int| 0 <= j < i ==> s@[j] != ':',
        decreases n - i,
    {
        if s.get_char(i) == ':' {
            proof {
                lemma_first_colon(s@);
                if first_colon(s@) < 0 {
                    assert(s@[i as int] != ':');
                }
                assert(first_colon(s@) == i);
            }
            return Some(i);
        }
        i += 1;
    }
    proof {
        lemma_first_colon(s@);
        if first_colon(s@) >= 0 {
            assert(s@[first_colon(s@)] == ':');
        }
    }
    None
}

/// Reads a `HH:MM` stamp into an in-range hour and minute.
pub fn parse_clock(time: &str) -> (r: (i32, i32))
    ensures
        (r.0 as int, r.1 as int) == clock_of(time@),
        0 <= r.0 <= 23,
        0 <= r.1 <= 59,
{
    let n = time.unicode_len();
    let (left, right) = match find_colon(time) {
        None => {
            let all = time.substring_char(0, n);
            proof {
                assert(all@ =~= time@);
            }
            (String::from_str(all), String::new())
        },
        Some(c) => {
            let left = time.substring_char(0, c);
            let rest = time.substring_char(c + 1, n);
            proof {
                assert(left@ =~= time@.take(first_colon(time@)));
                assert(rest@ =~= time@.skip(first_colon(time@) + 1));
            }
            let rlen = rest.unicode_len();
            let right = match find_colon(rest) {
                None => rest,
                Some(c2) => {
                    let right = rest.substring_char(0, c2);
                    proof {
                        assert(right@ =~= rest@.take(first_colon(rest@)));
                    }
                    right
                },
            };
            (String::from_str(left), String::from_str(right))
        },
    };
    let h0 = parse_clock_part(left.as_str());
    let m0 = parse_clock_part(right.as_str());
    let h: i32 = if 0 <= h0 && h0 <= 23 {
        h0
    } else {
        0
    };
    let m: i32 = if 0 <= m0 && m0 <= 59 {
        m0
    } else {
        0
    };
    (h, m)
}

/// First index at or after `k` of a schedule day with the given name.
pub open spec fn find_day_from(days: Seq<DayV>, name: Seq<char>, k: int) -> Option<int>
    decreases days.len() - k,
    when 0 <= k <= days.len()
{
    if k >= days.len() {
        None
    } else if days[k].day == name {
        Some(k)
    } else {
        find_day_from(days, name, k + 1)
    }
}

/// First index at or after `k` of an entry whose page slug is `id`.
pub open spec fn find_page_from(entries: Seq<EntryV>, id: Seq<char>, k: int) -> Option<int>
    decreases entries.len() - k,
    when 0 <= k <= entries.len()
{
    if k >= entries.len() {
        None
    } else if entries[k].page == id {
        Some(k)
    } else {
        find_page_from(entries, id, k + 1)
    }
}

/// Walks the weekdays Monday-first from day `d` looking for the show in
/// the schedule. `None` means a weekday was missing from the schedule
/// altogether and the whole scrape fails; `Some(None)` means the show airs
/// on no day; `Some(Some((day, time)))` is the first day that lists it,
/// with the entry's raw time stamp.
pub open spec fn spec_air_search(days: Seq<DayV>, id: Seq<char>, d: int) -> Option<
    Option<(int, Seq<char>)>,
>
    decreases 7 - d,
    when 0 <= d <= 7
{
    if d >= 7 {
        Some(None)
    } else {
        match find_day_from(days, weekday_name(d), 0) {
            None => None,
            Some(k) => match find_page_from(days[k].shows, id, 0) {
                Some(e) => Some(Some((d, days[k].shows[e].time))),
                None => spec_air_search(days, id, d + 1),
            },
        }
    }
}

/// What scraping a show yields from its page text and the schedule feed:
/// nothing when a page pattern has no match or a weekday is missing from
/// the schedule; otherwise the show, airing at the first weekday whose
/// schedule lists its slug, with that entry's clock time.
pub open spec fn spec_scrape(id: Seq<char>, page: Seq<char>, days: Seq<DayV>) -> Option<ShowV> {
    match spec_image_synopsis_name(page) {
        None => None,
        Some(t) => match spec_air_search(days, id, 0) {
            None => None,
            Some(None) => Some(
                ShowV {
                    id,
                    name: t.2,
                    image_url: t.0,
                    synopsis: t.1,
                    air_time: AirTime {
                        is_airing: false,
                        est_week_day: -1i32,
                        est_h: -1i32,
                        est_m: -1i32,
                    },
                },
            ),
            Some(Some(hit)) => Some(
                ShowV {
                    id,
                    name: t.2,
                    image_url: t.0,
                    synopsis: t.1,
                    air_time: AirTime {
                        is_airing: true,
                        est_week_day: hit.0 as i32,
                        est_h: clock_of(hit.1).0 as i32,
                        est_m: clock_of(hit.1).1 as i32,
                    },
                },
            ),
        },
    }
}

fn find_day(schedule: &Vec<ScheduleDay>, name: &str) -> (r: Option<usize>)
    ensures
        r is Some <==> find_day_from(schedule.deep_view(), name@, 0) is Some,
        r is Some ==> Some(r->Some_0 as int) == find_day_from(schedule.deep_view(), name@, 0)
            && r->Some_0 < schedule@.len(),
{
    let ghost dv = schedule.deep_view();
    let mut k: usize = 0;
    while k < schedule.len()
        invariant
            k <= schedule@.len(),
            schedule@.len() == dv.len(),
            dv == schedule.deep_view(),
            find_day_from(dv, name@, 0) == find_day_from(dv, name@, k as int),
        decreases schedule@.len() - k,
    {
        if str_eq(schedule[k].day.as_str(), name) {
            proof {
                assert(find_day_from(dv, name@, k as int) == Some(k as int));
            }
            return Some(k);
        }
        k += 1;
    }
    None
}

fn find_page(entries: &Vec<ScheduleEntry>, id: &str) -> (r: Option<usize>)
    ensures
        r is Some <==> find_page_from(entries.deep_view(), id@, 0) is Some,
        r is Some ==> Some(r->Some_0 as int) == find_page_from(entries.deep_view(), id@, 0)
            && r->Some_0 < entries@.len(),
{
    let ghost dv = entries.deep_view();
    let mut k: usize = 0;
    while k < entries.len()
        invariant
            k <= entries@.len(),
            entries@.len() == dv.len(),
            dv == entries.deep_view(),
            find_page_from(dv, id@, 0) == find_page_from(dv, id@, k as int),
        decreases entries@.len() - k,
    {
        if str_eq(entries[k].page.as_str(), id) {
            proof {
                assert(find_page_from(dv, id@, k as int) == Some(k as int));
            }
            return Some(k);
        }
        k += 1;
    }
    None
}

/// Builds a show from its fetched page text and the fetched weekly
/// schedule.
pub fn scrape_show(show_id: &str, page_data: &str, schedule: &Vec<ScheduleDay>) -> (r: Option<
    Show,
>)
    ensures
        r is Some <==> spec_scrape(show_id@, page_data@, schedule.deep_view()) is Some,
        r is Some ==> Some(r->Some_0@) == spec_scrape(show_id@, page_data@, schedule.deep_view()),
        r is Some ==> r->Some_0@.wf(),
{
    let ghost days = schedule.deep_view();
    let triple = match get_image_synopsis_and_name(page_data) {
        None => {
            return None;
        },
        Some(t) => t,
    };
    let (image_url, synopsis, name) = triple;
    let mut d: usize = 0;
    let mut air = AirTime { is_airing: false, est_week_day: -1, est_h: -1, est_m: -1 };
    while d < 7 && !air.is_airing
        invariant
            d <= 7,
            days == schedule.deep_view(),
            !air.is_airing ==> air.est_week_day == -1 && air.est_h == -1 && air.est_m == -1,
            !air.is_airing ==> spec_air_search(days, show_id@, 0) == spec_air_search(
                days,
                show_id@,
                d as int,
            ),
            air.is_airing ==> (spec_air_search(days, show_id@, 0) matches Some(Some(hit))
                && air.est_week_day as int == hit.0 && air.est_h as int == clock_of(hit.1).0
                && air.est_m as int == clock_of(hit.1).1 && air.wf()),
        decreases 7 - d,
    {
        let labels = AirTime::weekdays();
        let k = match find_day(schedule, labels[d]) {
            None => {
                return None;
            },
            Some(k) => k,
        };
        match find_page(&schedule[k].shows, show_id) {
            Some(e) => {
                let clock = parse_clock(schedule[k].shows[e].time.as_str());
                air = AirTime {
                    is_airing: true,
                    est_week_day: d as i32,
                    est_h: clock.0,
                    est_m: clock.1,
                };
                proof {
                    assert(days[k as int].shows == schedule@[k as int].shows.deep_view());
                    assert(spec_air_search(days, show_id@, d as int) == Some(
                        Some((d as int, days[k as int].shows[e as int].time)),
                    ));
                }
            },
            None => {},
        }
        d += 1;
    }
    let show = Show {
        id: String::from_str(show_id),
        name,
        image_url,
        synopsis,
        air_time: air,
    };
    proof {
        if !air.is_airing {
            assert(spec_air_search(days, show_id@, 7) == Some(None::<(int, Seq<char>)>));
        }
    }
    Some(show)
}

/// One step of the periodic catalog refresh: a successful scrape
/// overwrites the stored record with the same identifier and the batch
/// goes on; a failed scrape changes nothing and aborts the rest of the
/// batch.
pub fn update_scraped_show(store: &mut Store, scraped: Option<Show>) -> (r: bool)
    requires
        old(store).wf(),
        scraped matches Some(s) ==> s@.wf(),
    ensures
        final(store).wf(),
        r == (scraped is Some),
        scraped matches Some(s) ==> final(store).spec_shows() == old(store).spec_shows().map_values(
            |x: ShowV| if x.id == s@.id { s@ } else { x },
        ),
        scraped is None ==> final(store).spec_shows() == old(store).spec_shows(),
        final(store).spec_users() == old(store).spec_users(),
        final(store).spec_links() == old(store).spec_links(),
        final(store).spec_guid() == old(store).spec_guid(),
{
    match scraped {
        None => false,
        Some(show) => {
            store.update_show(&show);
            true
        },
    }
}

/// Every way adding a show to a watchlist can fail.
#[derive(Debug, PartialEq, Eq, Structural, Clone, Copy)]
pub enum AddFailure {
    AlreadyAdded,
    InvalidUrl,
    ShowNotAvailable,
    NameNotFound,
    DatabaseError,
}

/// The first step of adding a show: either it finished, or the show is
/// unknown and its page must be scraped before `add_scraped_show` can
/// finish the job.
pub enum AddOutcome {
    Added(Show),
    NeedScrape(String),
    Failed(AddFailure),
}

/// Links a user to a show; a link that already exists is refused as
/// `AlreadyAdded`.
pub fn add_user_show(store: &mut Store, user_id: i64, show_id: &str) -> (r: Result<
    (),
    AddFailure,
>)
    requires
        old(store).wf(),
    ensures
        final(store).wf(),
        r is Ok <==> !has_link(old(store).spec_links(), user_id, show_id@),
        r is Ok ==> final(store).spec_links() == old(store).spec_links().push(
            (user_id, show_id@),
        ),
        r is Err ==> r->Err_0 == AddFailure::AlreadyAdded && final(store).spec_links() == old(store).spec_links(),
        final(store).spec_shows() == old(store).spec_shows(),
        final(store).spec_users() == old(store).spec_users(),
        final(store).spec_guid() == old(store).spec_guid(),
{
    if store.does_user_show_exist(user_id, show_id) {
        return Err(AddFailure::AlreadyAdded);
    }
    let _linked = store.insert_user_show(user_id, show_id);
    Ok(())
}

/// Adds a show to a user's watchlist from whatever identifier the user
/// handed in. A well-formed show URL whose show is already stored is
/// linked at once; one whose show is unknown asks the caller to scrape
/// it; anything else is rejected.
pub fn add_show(store: &mut Store, user_id: i64, identifier: &str) -> (r: AddOutcome)
    requires
        old(store).wf(),
    ensures
        final(store).wf(),
        final(store).spec_shows() == old(store).spec_shows(),
        final(store).spec_users() == old(store).spec_users(),
        final(store).spec_guid() == old(store).spec_guid(),
        !spec_valid_show_url(identifier@) ==> final(store).spec_links() == old(store).spec_links() && r == AddOutcome::Failed(
            if spec_contains_http(identifier@) {
                AddFailure::InvalidUrl
            } else {
                AddFailure::NameNotFound
            },
        ),
        spec_valid_show_url(identifier@) && !has_show(
            old(store).spec_shows(),
            spec_url_slug(identifier@),
        ) ==> final(store).spec_links() == old(store).spec_links() && (r matches
            AddOutcome::NeedScrape(s) && s@ == spec_url_slug(identifier@)),
        spec_valid_show_url(identifier@) && has_show(
            old(store).spec_shows(),
            spec_url_slug(identifier@),
        ) && has_link(old(store).spec_links(), user_id, spec_url_slug(identifier@)) ==> final(store).spec_links() == old(store).spec_links() && r == AddOutcome::Failed(
            AddFailure::AlreadyAdded,
        ),
        spec_valid_show_url(identifier@) && has_show(
            old(store).spec_shows(),
            spec_url_slug(identifier@),
        ) && !has_link(old(store).spec_links(), user_id, spec_url_slug(identifier@)) ==> final(store).spec_links() == old(store).spec_links().push((user_id, spec_url_slug(identifier@)))
            && (r matches AddOutcome::Added(s) && s@.id == spec_url_slug(identifier@) && old(store).spec_shows().contains(s@)),
{
    let show_id = match url_to_show_id(identifier) {
        None => {
            if contains_http(identifier) {
                return AddOutcome::Failed(AddFailure::InvalidUrl);
            } else {
                return AddOutcome::Failed(AddFailure::NameNotFound);
            }
        },
        Some(s) => s,
    };
    if !store.is_show_saved(show_id.as_str()) {
        return AddOutcome::NeedScrape(show_id);
    }
    let show = match store.get_show_from_show_id(show_id.as_str()) {
        Some(s) => s,
        None => {
            proof {
                assert(false);
            }
            return AddOutcome::Failed(AddFailure::DatabaseError);
        },
    };
    match add_user_show(store, user_id, show_id.as_str()) {
        Ok(_) => AddOutcome::Added(show),
        Err(e) => AddOutcome::Failed(e),
    }
}

/// Finishes adding a show that had to be scraped first: stores the
/// scraped show, then links the user to it. A failed scrape is reported
/// as `ShowNotAvailable` and changes nothing.
pub fn add_scraped_show(store: &mut Store, user_id: i64, scraped: Option<Show>) -> (r: Result<
    Show,
    AddFailure,
>)
    requires
        old(store).wf(),
        scraped matches Some(s) ==> s@.wf(),
    ensures
        final(store).wf(),
        final(store).spec_users() == old(store).spec_users(),
        final(store).spec_guid() == old(store).spec_guid(),
        scraped is None ==> final(store).spec_shows() == old(store).spec_shows() && final(store).spec_links() == old(store).spec_links() && r == Err::<Show, AddFailure>(
            AddFailure::ShowNotAvailable,
        ),
        scraped matches Some(s) ==> (if has_show(old(store).spec_shows(), s@.id) {
            final(store).spec_shows() == old(store).spec_shows() && final(store).spec_links()
                == old(store).spec_links() && r == Err::<Show, AddFailure>(
                AddFailure::DatabaseError,
            )
        } else {
            final(store).spec_shows() == old(store).spec_shows().push(s@) && (if has_link(
                old(store).spec_links(),
                user_id,
                s@.id,
            ) {
                final(store).spec_links() == old(store).spec_links() && r == Err::<
                    Show,
                    AddFailure,
                >(AddFailure::AlreadyAdded)
            } else {
                final(store).spec_links() == old(store).spec_links().push((user_id, s@.id)) && (
                r matches Ok(res) && res@ == s@)
            })
        }),
{
    let show = match scraped {
        None => {
            return Err(AddFailure::ShowNotAvailable);
        },
        Some(s) => s,
    };
    if !store.insert_show(&show) {
        return Err(AddFailure::DatabaseError);
    }
    match add_user_show(store, user_id, show.id.as_str()) {
        Ok(_) => Ok(show),
        Err(e) => Err(e),
    }
}

/// Adding the same show twice for the same user cannot duplicate the
/// link: after a successful add the link is present — so a second
/// `add_user_show` for the same pair is refused as `AlreadyAdded` by its
/// contract and leaves the store unchanged — and the store's links are
/// still pairwise distinct, so the pair exists at most once.
pub proof fn lemma_add_show_idempotent(
    links: Seq<(i64, Seq<char>)>,
    user_id: i64,
    show_id: Seq<char>,
)
    requires
        crate::store::distinct_seq(links),
        !has_link(links, user_id, show_id),
    ensures
        has_link(links.push((user_id, show_id)), user_id, show_id),
        crate::store::distinct_seq(links.push((user_id, show_id))),
{
    let after = links.push((user_id, show_id));
    assert(after[links.len() as int] == (user_id, show_id));
    assert(has_link(after, user_id, show_id));
    assert forall|i: int, j: int| 0 <= i < j < after.len() implies after[i] != after[j] by {
        if j == after.len() - 1 {
            assert(after[i] == links[i]);
            if links[i] == (user_id, show_id) {
                assert(links.contains(links[i]));
            }
        }
    }
}

} // verus!
