use subs_tracker::feed::RssParsingError;
use subs_tracker::feed::SubsPlsChannel;
use subs_tracker::page::is_valid_url;
use subs_tracker::slug::get_last_occurrence_index;
use subs_tracker::slug::rss_category_to_show_id;
use subs_tracker::strutil::split_at_fist_space;

#[test]
fn rss_title_to_show_id_test() {
    assert_eq!(
        rss_category_to_show_id("2.43 - Seiin Koukou Danshi Volley-bu - 1080"),
        Some("2-43-seiin-koukou-danshi-volley-bu".to_string())
    );
    assert_eq!(
        rss_category_to_show_id("Megami-ryou no Ryoubo-kun. - 1080"),
        Some("megami-ryou-no-ryoubo-kun".to_string())
    );
    assert_eq!(
        rss_category_to_show_id("Cheat Kusushi no Slow Life - Isekai ni Tsukurou Drugstore - 1080"),
        Some("cheat-kusushi-no-slow-life-isekai-ni-tsukurou-drugstore".to_string())
    );
    assert_eq!(
        rss_category_to_show_id("D_Cide Traumerei the Animation@ - 1080"),
        Some("d_cide-traumerei-the-animation".to_string())
    );
}

#[test]
fn gloi_test() {
    assert_eq!(get_last_occurrence_index("", '@'), None);
    assert_eq!(get_last_occurrence_index("a@la@basta", '@'), Some(4));
    assert_eq!(
        get_last_occurrence_index("Megami-ryou no Ryoubo-kun. - 1080", '-'),
        Some(27)
    );
    assert_eq!(get_last_occurrence_index("k!!!!!!!", 'k'), Some(0));
}

#[test]
fn test_is_valid_url() {
    assert!(is_valid_url("https://subsplease.org/shows/yami-shibai-9/"));
    assert!(is_valid_url("https://subsplease.org/shows/seirei-gensouki/"));
    assert!(is_valid_url("https://subsplease.org/shows/d_cide-traumerei-the-animation/"));
    assert!(!is_valid_url("https://google.com/"));
    assert!(!is_valid_url("lol https://subsplease.org/shows/d_cide-traumerei-the-animation/"));
    assert!(!is_valid_url("http://subsplease.org/shows/detective-conan/"));
    assert!(!is_valid_url("https://susbplease.org/shows/detective-conan/"));
    assert!(!is_valid_url("https://subsplease.org/shws/detective-conan/"));
    assert!(!is_valid_url("https://subsplease.org/shows//"));
}

#[test]
fn parse_test() {
    let ex_1 = r##"
            <rss version="2.0" xmlns:atom="http://www.w3.org/2005/Atom" xmlns:subsplease="https://subsplease.org/rss">
                <channel>
                    <title>SubsPlease RSS</title>
                    <description>RSS feed for SubsPlease releases (1080p)</description>
                    <link>https://subsplease.org</link>
                    <atom:link href="http://subsplease.org/rss" rel="self" type="application/rss+xml"/>
                    <item>
                        <title>[SubsPlease] Yami Shibai 9 - 02 (1080p) [C68BD8C2].mkv</title>
                        <link>test.rs</link>
                        <guid isPermaLink="false">TT75FZ2BERWLLJR2EF764LDMU53XASEV</guid>
                        <pubDate>Sun, 18 Jul 2021 19:31:11 +0000</pubDate>
                        <category>Yami Shibai 9 - 1080</category>
                        <subsplease:size>269.71 MiB</subsplease:size>
                    </item>
                    <item>
                        <title>[SubsPlease] Kingdom S3 - 14 (1080p) [E0FDE25E].mkv</title>
                        <link>test.rs</link>
                        <guid isPermaLink="false">LCSAY3AP3K5YDP3HZKSDDRLVQTNHR4WZ</guid>
                        <pubDate>Sun, 18 Jul 2021 18:58:32 +0000</pubDate>
                        <category>Kingdom S3 - 1080</category>
                        <subsplease:size>1.09 GiB</subsplease:size>
                    </item>
                </channel>
            </rss>
        "##;
    let correct_feed = SubsPlsChannel::from_xml(ex_1).unwrap();
    assert_eq!(correct_feed.title, "SubsPlease RSS");
    assert_eq!(correct_feed.description, "RSS feed for SubsPlease releases (1080p)");
    assert_eq!(correct_feed.items.len(), 2);
    assert_eq!(correct_feed.items[0].category, "Yami Shibai 9 - 1080");
    assert_eq!(correct_feed.items[1].file_size, "1.09 GiB");

    let ex_2 = r##"
            <rss version="2.0" xmlns:atom="http://www.w3.org/2005/Atom" xmlns:subsplease="https://subsplease.org/rss">
                <channel>
                    <description>RSS feed for SubsPlease releases (1080p)</description>
                    <link>https://subsplease.org</link>
                    <atom:link href="http://subsplease.org/rss" rel="self" type="application/rss+xml"/>
                </channel>
            </rss>
        "##;

    let title_missing = SubsPlsChannel::from_xml(ex_2);
    assert_eq!(title_missing.err().unwrap(), RssParsingError::RssTitleNotFound);

    let ex_3 = r##"
            <rss version="2.0" xmlns:atom="http://www.w3.org/2005/Atom" xmlns:subsplease="https://subsplease.org/rss">
                <channel>
                    <title>SubsPlease RSS</title>
                    <description>RSS feed for SubsPlease releases (1080p)</description>
                    <link>https://subsplease.org</link>
                    <atom:link href="http://subsplease.org/rss" rel="self" type="application/rss+xml"/>
                    <item>
                        <title>[SubsPlease] Yami Shibai 9 - 02 (1080p) [C68BD8C2].mkv</title>
                        <guid isPermaLink="false">TT75FZ2BERWLLJR2EF764LDMU53XASEV</guid>
                        <pubDate>Sun, 18 Jul 2021 19:31:11 +0000</pubDate>
                        <category>Yami Shibai 9 - 1080</category>
                        <subsplease:size>269.71 MiB</subsplease:size>
                    </item>
                </channel>
            </rss>
        "##;

    let item_missing_link = SubsPlsChannel::from_xml(ex_3);
    assert_eq!(item_missing_link.err().unwrap(), RssParsingError::ItemLinkNotFound);
}

#[test]
fn test_split() {
    assert_eq!(split_at_fist_space("add link"), ("add".to_string(), "link".to_string()));
    assert_eq!(split_at_fist_space("addlink"), ("addlink".to_string(), "".to_string()));
    assert_eq!(
        split_at_fist_space("add link and so on"),
        ("add".to_string(), "link and so on".to_string())
    );
}
