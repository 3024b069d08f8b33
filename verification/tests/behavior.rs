use subs_tracker::feed::FeedItem;
use subs_tracker::feed::RssParsingError;
use subs_tracker::feed::SubsPlsChannel;
use subs_tracker::notify::process_feed;
use subs_tracker::notify::NotificationError;
use subs_tracker::page::add_scraped_show;
use subs_tracker::page::add_show;
use subs_tracker::page::get_image_synopsis_and_name;
use subs_tracker::page::parse_clock;
use subs_tracker::page::scrape_show;
use subs_tracker::page::update_scraped_show;
use subs_tracker::page::url_to_show_id;
use subs_tracker::page::AddFailure;
use subs_tracker::page::AddOutcome;
use subs_tracker::page::ScheduleDay;
use subs_tracker::page::ScheduleEntry;
use subs_tracker::show::format_clock;
use subs_tracker::show::AirTime;
use subs_tracker::show::Show;
use subs_tracker::store::Store;
use subs_tracker::user_manager::generate_schedule;
use subs_tracker::user_manager::remove_non_airing;
use subs_tracker::user_manager::remove_user_show;
use subs_tracker::user_manager::RemoveFailure;
use subs_tracker::user_manager::ShowTable;

fn show(id: &str, name: &str, air: AirTime) -> Show {
    Show {
        id: id.to_string(),
        name: name.to_string(),
        image_url: format!("https://subsplease.org/img/{}.jpg", id),
        synopsis: format!("About {}.", name),
        air_time: air,
    }
}

fn airing(day: i32, h: i32, m: i32) -> AirTime {
    AirTime { is_airing: true, est_week_day: day, est_h: h, est_m: m }
}

fn not_airing() -> AirTime {
    AirTime { is_airing: false, est_week_day: -1, est_h: -1, est_m: -1 }
}

fn item(guid: &str, category: &str) -> FeedItem {
    FeedItem {
        title: format!("[Release] {}", category),
        link: "https://example.invalid/file.mkv".to_string(),
        guid: guid.to_string(),
        pub_date: "Sun, 18 Jul 2021 19:31:11 +0000".to_string(),
        category: category.to_string(),
        file_size: "1.09 GiB".to_string(),
    }
}

#[test]
fn normalization_is_idempotent_on_its_output() {
    let slug = rss("2.43 - Seiin Koukou Danshi Volley-bu - 1080");
    assert_eq!(slug, "2-43-seiin-koukou-danshi-volley-bu");
    let again = rss(&format!("{} - 1080", slug));
    assert_eq!(again, slug);
    let slug2 = rss("Megami-ryou no Ryoubo-kun. - 1080");
    assert_eq!(slug2, "megami-ryou-no-ryoubo-kun");
    assert_eq!(rss(&format!("{} - 720", slug2)), slug2);
}

fn rss(category: &str) -> String {
    subs_tracker::slug::rss_category_to_show_id(category).unwrap()
}

#[test]
fn normalization_without_dash_fails() {
    assert_eq!(subs_tracker::slug::rss_category_to_show_id("no dashes here"), None);
}

#[test]
fn cursor_marks_prefix_new_and_advances_even_on_failure() {
    let mut store = Store::new();
    store.save_guid("gC");
    let _ = store.insert_show(&show("show-a", "Show A", not_airing()));
    let _ = store.insert_user(7);
    let _ = store.insert_user_show(7, "show-a");
    let feed = SubsPlsChannel {
        title: "t".to_string(),
        description: "d".to_string(),
        items: vec![
            item("gA", "Show A - 1080"),
            item("gB", "nodash"),
            item("gC", "Show C - 1080"),
        ],
    };
    let plans = process_feed(&mut store, &feed);
    assert_eq!(plans.len(), 2);
    let first = plans[0].as_ref().unwrap();
    assert_eq!(first.users, vec![7]);
    assert_eq!(first.show.id, "show-a");
    assert_eq!(first.item.guid, "gA");
    assert_eq!(
        *plans[1].as_ref().err().unwrap(),
        NotificationError::MappingShowIdError
    );
    assert_eq!(store.get_guid(), "gA");
}

#[test]
fn cursor_unchanged_on_empty_feed() {
    let mut store = Store::new();
    store.save_guid("old");
    let feed = SubsPlsChannel {
        title: "t".to_string(),
        description: "d".to_string(),
        items: vec![],
    };
    let plans = process_feed(&mut store, &feed);
    assert!(plans.is_empty());
    assert_eq!(store.get_guid(), "old");
}

#[test]
fn unknown_show_is_a_lookup_error() {
    let mut store = Store::new();
    store.save_guid("g0");
    let feed = SubsPlsChannel {
        title: "t".to_string(),
        description: "d".to_string(),
        items: vec![item("g1", "Mystery Show - 1080")],
    };
    let plans = process_feed(&mut store, &feed);
    assert_eq!(plans.len(), 1);
    assert_eq!(*plans[0].as_ref().err().unwrap(), NotificationError::DBShowError);
}

#[test]
fn schedule_table_lists_airing_and_non_airing() {
    let mut store = Store::new();
    let _ = store.insert_show(&show("mono", "Monday Show", airing(0, 9, 0)));
    let _ = store.insert_show(&show("idle", "Idle Show", not_airing()));
    let _ = store.insert_user(1);
    let _ = store.insert_user_show(1, "mono");
    let _ = store.insert_user_show(1, "idle");
    let table = generate_schedule(&store, 1);
    let rows = table.get_printable_table().unwrap();
    assert_eq!(rows.len(), 8);
    assert_eq!(rows[0].0, "Monday");
    assert_eq!(rows[0].1, "09:00 - Monday Show");
    for d in 1..7 {
        assert_eq!(rows[d].1, "");
    }
    assert_eq!(rows[7].0, "Not currently airing:");
    assert!(rows[7].1.contains("Idle Show"));
}

#[test]
fn schedule_table_joins_shared_slots() {
    let mut store = Store::new();
    let _ = store.insert_show(&show("alpha", "Alpha", airing(0, 9, 0)));
    let _ = store.insert_show(&show("beta", "Beta", airing(0, 9, 0)));
    let _ = store.insert_show(&show("gamma", "Gamma", airing(2, 12, 30)));
    let _ = store.insert_user(1);
    let _ = store.insert_user_show(1, "alpha");
    let _ = store.insert_user_show(1, "beta");
    let _ = store.insert_user_show(1, "gamma");
    let rows = generate_schedule(&store, 1).get_printable_table().unwrap();
    assert_eq!(rows.len(), 7);
    assert_eq!(rows[0].1, "09:00 - Alpha, Beta");
    assert_eq!(rows[2].1, "12:30 - Gamma");
    assert_eq!(rows[1].1, "");
}

#[test]
fn add_known_show_links_without_scraping() {
    let mut store = Store::new();
    let _ = store.insert_show(&show("one-piece", "One Piece", airing(6, 2, 0)));
    let _ = store.insert_user(2);
    match add_show(&mut store, 2, "https://subsplease.org/shows/one-piece/") {
        AddOutcome::Added(s) => assert_eq!(s.name, "One Piece"),
        _ => panic!("a stored show must be linked at once"),
    }
    assert!(store.does_user_show_exist(2, "one-piece"));
}

#[test]
fn schedule_table_empty_watchlist() {
    let store = Store::new();
    let table = generate_schedule(&store, 42);
    let rows = table.get_printable_table().unwrap();
    assert_eq!(rows.len(), 7);
    for row in &rows {
        assert_eq!(row.1, "");
    }
}

#[test]
fn schedule_table_short_grid_is_rejected() {
    let table = ShowTable {
        release_times: vec![],
        days: vec!["Monday".to_string()],
        shows: vec![],
        non_airing: vec![],
    };
    assert!(table.get_printable_table().is_err());
}

#[test]
fn add_show_twice_is_refused_once() {
    let mut store = Store::new();
    let _ = store.insert_user(1);
    let url = "https://subsplease.org/shows/one-piece/";
    match add_show(&mut store, 1, url) {
        AddOutcome::NeedScrape(id) => assert_eq!(id, "one-piece"),
        _ => panic!("expected a scrape request for an unknown show"),
    }
    let scraped = show("one-piece", "One Piece", airing(6, 2, 0));
    let added = add_scraped_show(&mut store, 1, Some(scraped)).unwrap();
    assert_eq!(added.name, "One Piece");
    match add_show(&mut store, 1, url) {
        AddOutcome::Failed(f) => assert_eq!(f, AddFailure::AlreadyAdded),
        _ => panic!("expected the second add to be refused"),
    }
    assert_eq!(store.all_links().len(), 1);
}

#[test]
fn add_show_rejects_bad_identifiers() {
    let mut store = Store::new();
    match add_show(&mut store, 1, "http://subsplease.org/shows/one-piece/") {
        AddOutcome::Failed(f) => assert_eq!(f, AddFailure::InvalidUrl),
        _ => panic!("http must be rejected"),
    }
    match add_show(&mut store, 1, "One Piece") {
        AddOutcome::Failed(f) => assert_eq!(f, AddFailure::NameNotFound),
        _ => panic!("free text is not supported"),
    }
    assert_eq!(
        add_scraped_show(&mut store, 1, None).err().unwrap(),
        AddFailure::ShowNotAvailable
    );
}

#[test]
fn add_scraped_show_refuses_duplicate_identifier() {
    let mut store = Store::new();
    let _ = store.insert_show(&show("dup", "Dup", not_airing()));
    assert_eq!(
        add_scraped_show(&mut store, 1, Some(show("dup", "Dup", not_airing()))).err().unwrap(),
        AddFailure::DatabaseError
    );
}

#[test]
fn remove_show_by_url_and_by_name() {
    let mut store = Store::new();
    let _ = store.insert_show(&show("mono", "Monday Show", airing(0, 9, 0)));
    let _ = store.insert_user(1);
    let _ = store.insert_user_show(1, "mono");
    assert!(remove_user_show(&mut store, 1, "https://subsplease.org/shows/mono/").is_ok());
    assert!(!store.does_user_show_exist(1, "mono"));
    assert!(matches!(
        remove_user_show(&mut store, 1, "https://subsplease.org/shows/mono/"),
        Err(RemoveFailure::ShowNotFound)
    ));
    assert!(matches!(
        remove_user_show(&mut store, 1, "http://other/"),
        Err(RemoveFailure::InvalidIdentifier)
    ));
    let _ = store.insert_user_show(1, "mono");
    assert!(remove_user_show(&mut store, 1, "Monday Show").is_ok());
    assert!(!store.does_user_show_exist(1, "mono"));
    assert!(matches!(
        remove_user_show(&mut store, 1, "No Such Show"),
        Err(RemoveFailure::ShowNotFound)
    ));
}

#[test]
fn remove_non_airing_sweeps_watchlist() {
    let mut store = Store::new();
    let _ = store.insert_show(&show("mono", "Monday Show", airing(0, 9, 0)));
    let _ = store.insert_show(&show("idle", "Idle Show", not_airing()));
    let _ = store.insert_show(&show("gone", "Gone Show", not_airing()));
    let _ = store.insert_user(1);
    let _ = store.insert_user_show(1, "mono");
    let _ = store.insert_user_show(1, "idle");
    let _ = store.insert_user_show(1, "gone");
    let removed = remove_non_airing(&mut store, 1).unwrap();
    assert_eq!(removed.len(), 2);
    assert_eq!(removed[0].name, "Idle Show");
    assert_eq!(removed[1].name, "Gone Show");
    assert!(store.does_user_show_exist(1, "mono"));
    assert!(!store.does_user_show_exist(1, "idle"));
    assert!(!store.does_user_show_exist(1, "gone"));
}

#[test]
fn unregister_cascades_links() {
    let mut store = Store::new();
    let _ = store.insert_show(&show("mono", "Monday Show", airing(0, 9, 0)));
    let _ = store.insert_user(1);
    let _ = store.insert_user_show(1, "mono");
    assert!(store.is_user_registered(1));
    store.remove_user(1);
    assert!(!store.is_user_registered(1));
    assert!(!store.does_user_show_exist(1, "mono"));
    assert_eq!(store.get_user_ids_for_show_id("mono").len(), 0);
}

#[test]
fn update_scraped_show_overwrites_record() {
    let mut store = Store::new();
    let _ = store.insert_show(&show("mono", "Monday Show", airing(0, 9, 0)));
    assert!(update_scraped_show(&mut store, Some(show("mono", "Monday Show", airing(3, 21, 30)))));
    let got = store.get_show_from_show_id("mono").unwrap();
    assert_eq!(got.air_time.est_week_day, 3);
    assert_eq!(got.air_time.est_h, 21);
    assert!(!update_scraped_show(&mut store, None));
}

#[test]
fn air_time_rendering() {
    let at = airing(0, 9, 5);
    assert_eq!(at.to_weekday_string(), "Monday");
    assert_eq!(at.to_clock_stamp(), "09:05");
    assert_eq!(at.to_string(), "Monday, 09:05");
    let off = not_airing();
    assert_eq!(off.to_string(), "");
    assert_eq!(off.to_clock_stamp(), "");
    assert_eq!(format_clock(23, 59), "23:59");
}

#[test]
fn clock_parsing() {
    assert_eq!(parse_clock("22:30"), (22, 30));
    assert_eq!(parse_clock("ab:cd"), (0, 0));
    assert_eq!(parse_clock("7"), (7, 0));
    assert_eq!(parse_clock("99:99"), (0, 0));
    assert_eq!(parse_clock("12:34:56"), (12, 34));
    assert_eq!(parse_clock(""), (0, 0));
}

#[test]
fn url_slug_extraction() {
    assert_eq!(
        url_to_show_id("https://subsplease.org/shows/one-piece/").unwrap(),
        "one-piece"
    );
    assert_eq!(url_to_show_id("https://subsplease.org/shows/one-piece/extra"), None);
    assert_eq!(url_to_show_id("https://subsplease.org/shows//"), None);
}

#[test]
fn item_title_cannot_mask_missing_channel_title() {
    let doc = r##"<rss><channel><description>D</description>
        <item>
            <title>Item Title</title><link>l</link><guid>g</guid>
            <pubDate>p</pubDate><category>c - 1080</category><size>s</size>
        </item>
    </channel></rss>"##;
    assert_eq!(
        SubsPlsChannel::from_xml(doc).err().unwrap(),
        RssParsingError::RssTitleNotFound
    );
    let doc2 = r##"<rss><channel><title>T</title>
        <item>
            <title>Item Title</title><link>l</link><guid>g</guid>
            <pubDate>p</pubDate><category>c - 1080</category><size>s</size>
        </item>
    </channel></rss>"##;
    assert_eq!(
        SubsPlsChannel::from_xml(doc2).err().unwrap(),
        RssParsingError::RssDescriptionNotFound
    );
}

#[test]
fn day_text_joins_lines_with_single_newlines() {
    let mut store = Store::new();
    let _ = store.insert_show(&show("early", "Early", airing(0, 9, 0)));
    let _ = store.insert_show(&show("late", "Late", airing(0, 21, 15)));
    let _ = store.insert_user(1);
    let _ = store.insert_user_show(1, "early");
    let _ = store.insert_user_show(1, "late");
    let rows = generate_schedule(&store, 1).get_printable_table().unwrap();
    assert_eq!(rows[0].1, "09:00 - Early\n21:15 - Late");
}

#[test]
fn feed_error_variants() {
    assert_eq!(
        SubsPlsChannel::from_xml("definitely not markup").err().unwrap(),
        RssParsingError::InvalidRssFeed
    );
    let no_description = r##"<rss><channel><title>T</title></channel></rss>"##;
    assert_eq!(
        SubsPlsChannel::from_xml(no_description).err().unwrap(),
        RssParsingError::RssDescriptionNotFound
    );
    let item_missing = |inner: &str, expected: RssParsingError| {
        let doc = format!(
            r##"<rss><channel><title>T</title><description>D</description><item>{}</item></channel></rss>"##,
            inner
        );
        assert_eq!(SubsPlsChannel::from_xml(&doc).err().unwrap(), expected);
    };
    item_missing("", RssParsingError::ItemTitleNotFound);
    item_missing("<title>a</title>", RssParsingError::ItemLinkNotFound);
    item_missing("<title>a</title><link>l</link>", RssParsingError::ItemGuidNotFound);
    item_missing(
        "<title>a</title><link>l</link><guid>g</guid>",
        RssParsingError::ItemPubDateNotFound,
    );
    item_missing(
        "<title>a</title><link>l</link><guid>g</guid><pubDate>p</pubDate>",
        RssParsingError::ItemCategoryNotFound,
    );
    item_missing(
        "<title>a</title><link>l</link><guid>g</guid><pubDate>p</pubDate><category>c</category>",
        RssParsingError::ItemSizeNotFound,
    );
}

fn full_schedule(listed_day: &str, slug: &str, time: &str) -> Vec<ScheduleDay> {
    ["Monday", "Tuesday", "Wednesday", "Thursday", "Friday", "Saturday", "Sunday"]
        .iter()
        .map(|d| ScheduleDay {
            day: d.to_string(),
            shows: if *d == listed_day {
                vec![ScheduleEntry {
                    title: "One Piece".to_string(),
                    page: slug.to_string(),
                    image_url: "/img.jpg".to_string(),
                    time: time.to_string(),
                }]
            } else {
                vec![]
            },
        })
        .collect()
}

const PAGE: &str = r##"<html><body><h1 class="entry-title">One Piece</h1><img class="img-responsive img-center" src="/wp-content/op.jpg" /><div class="series-syn"><p>A long voyage.</p></div></body></html>"##;

#[test]
fn page_extraction_reads_all_three_fields() {
    let (image, synopsis, name) = get_image_synopsis_and_name(PAGE).unwrap();
    assert_eq!(image, "https://subsplease.org/wp-content/op.jpg");
    assert_eq!(synopsis, "A long voyage.");
    assert_eq!(name, "One Piece");
    assert!(get_image_synopsis_and_name("<html><body>nothing here</body></html>").is_none());
}

#[test]
fn scrape_show_finds_air_time() {
    let schedule = full_schedule("Saturday", "one-piece", "22:30");
    let scraped = scrape_show("one-piece", PAGE, &schedule).unwrap();
    assert_eq!(scraped.id, "one-piece");
    assert_eq!(scraped.name, "One Piece");
    assert!(scraped.air_time.is_airing);
    assert_eq!(scraped.air_time.est_week_day, 5);
    assert_eq!(scraped.air_time.est_h, 22);
    assert_eq!(scraped.air_time.est_m, 30);
}

#[test]
fn scrape_show_not_listed_is_not_airing() {
    let schedule = full_schedule("Saturday", "other-show", "22:30");
    let scraped = scrape_show("one-piece", PAGE, &schedule).unwrap();
    assert!(!scraped.air_time.is_airing);
    assert_eq!(scraped.air_time.est_week_day, -1);
}

#[test]
fn scrape_show_missing_weekday_fails() {
    let mut schedule = full_schedule("Saturday", "one-piece", "22:30");
    schedule.remove(0);
    assert!(scrape_show("one-piece", PAGE, &schedule).is_none());
}
