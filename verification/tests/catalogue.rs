use flate2::write::GzEncoder;
use flate2::Compression;
use std::io::Write;
use xpm::catalogue::{appstream_path, parse_appstream_xml, AppstreamData};
use xpm::html::{strip_html, strip_inline_tags};
use xpm::news::{parse_arch_rss, short_date, summarize};
use xpm::xml::{read_events, XmlEvent};

const DOCUMENT: &str = r#"<?xml version="1.0" encoding="UTF-8"?>
<components version="0.14">
  <component type="desktop-application">
    <id>org.example.App.desktop</id>
    <name>Example &amp; Co</name>
    <name xml:lang="de">Beispiel</name>
    <summary>An example</summary>
    <description><p>First paragraph.</p><ul><li>One</li><li>Two</li></ul></description>
    <developer><name>The Makers</name></developer>
    <categories><category>Network</category><category>Chat</category></categories>
    <icon type="cached" width="128" height="128">org.example.App.png</icon>
    <url type="homepage">https://example.org</url>
    <url type="bugtracker">https://example.org/bugs</url>
    <screenshots>
      <screenshot><image type="source">https://example.org/big.png</image></screenshot>
    </screenshots>
    <releases>
      <release version="2.0" date="2024-05-01"><description><p>New things.</p></description></release>
      <release version="1.0" date="2023-01-01"/>
    </releases>
  </component>
  <component type="addon">
    <id>org.example.App.Plugin</id>
    <name>Plugin</name>
    <summary>More</summary>
    <extends>org.example.App</extends>
  </component>
</components>
"#;

fn packed(text: &str) -> Vec<u8> {
    let mut e = GzEncoder::new(Vec::new(), Compression::default());
    e.write_all(text.as_bytes()).unwrap();
    e.finish().unwrap()
}

#[test]
fn a_catalogue_is_read() {
    let apps = parse_appstream_xml(&AppstreamData::Plain(DOCUMENT.as_bytes().to_vec()));
    assert_eq!(apps.len(), 2);
    let app = &apps[0];
    assert_eq!(app.app_id, "org.example.App.desktop");
    assert_eq!(app.name, "Example & Co");
    assert_eq!(app.summary, "An example");
    assert_eq!(app.categories, vec!["Network", "Chat"]);
    assert_eq!(app.icon_name, "org.example.App.png");
    assert_eq!(app.url_homepage, "https://example.org");
    assert_eq!(app.url_bugtracker, "https://example.org/bugs");
    assert_eq!(app.version, "2.0");
    assert!(app.description.contains("First paragraph."));
    assert!(app.description.contains("One") && app.description.contains("Two"));
    assert!(app.changelog.contains("New things."));
    assert_eq!(apps[1].extends, "org.example.App");
}

#[test]
fn every_application_has_its_own_release() {
    let document = r#"<components>
      <component><id>a</id><releases>
        <release version="2.0" date="2024-05-01"><description><p>A news.</p></description></release>
        <release version="1.0" date="2023-01-01"><description><p>A old.</p></description></release>
      </releases></component>
      <component><id>b</id></component>
      <component><id>c</id><releases>
        <release version="7.1" date="2024-06-01"><description><p>C news.</p></description></release>
      </releases></component>
    </components>"#;
    let apps = parse_appstream_xml(&AppstreamData::Plain(document.as_bytes().to_vec()));
    let versions: Vec<&str> = apps.iter().map(|a| a.version.as_str()).collect();
    assert_eq!(versions, vec!["2.0", "", "7.1"]);
    assert!(apps[0].changelog.contains("A news.") && !apps[0].changelog.contains("A old."));
    assert!(apps[2].changelog.contains("C news."));
    assert_eq!(apps[2].version_date, "2024-06-01");
}

#[test]
fn a_packed_catalogue_is_the_same() {
    let plain = parse_appstream_xml(&AppstreamData::Plain(DOCUMENT.as_bytes().to_vec()));
    let other = parse_appstream_xml(&AppstreamData::Packed(packed(DOCUMENT)));
    assert_eq!(format!("{:?}", plain), format!("{:?}", other));
}

#[test]
fn data_that_is_not_packed_gives_nothing() {
    assert!(parse_appstream_xml(&AppstreamData::Packed(DOCUMENT.as_bytes().to_vec())).is_empty());
    assert!(parse_appstream_xml(&AppstreamData::Missing).is_empty());
}

#[test]
fn an_error_ends_the_catalogue() {
    let broken = DOCUMENT.replace("<component type=\"addon\">", "</wrong><component type=\"addon\">");
    let apps = parse_appstream_xml(&AppstreamData::Plain(broken.into_bytes()));
    assert_eq!(apps.len(), 1);
    assert!(!apps[0].app_id.is_empty());
}

#[test]
fn the_path_of_a_catalogue() {
    assert_eq!(
        appstream_path("flathub"),
        "/var/lib/flatpak/appstream/flathub/x86_64/active/appstream.xml"
    );
}

#[test]
fn events_end_with_the_document() {
    let events = read_events(b"<a k=\"v\"> text &lt; </a>");
    assert!(matches!(events.last(), Some(XmlEvent::Eof)));
    match &events[0] {
        XmlEvent::Start(name, attributes) => {
            assert_eq!(name, b"a");
            let a = attributes[0].as_ref().unwrap();
            assert_eq!((a.key.as_slice(), a.value.as_slice()), (&b"k"[..], &b"v"[..]));
        }
        other => panic!("{:?}", other),
    }
    match &events[1] {
        XmlEvent::Text(Some(t)) => assert_eq!(t, "text <"),
        other => panic!("{:?}", other),
    }
    assert!(matches!(&events[2], XmlEvent::End(name) if name == b"a"));
    assert!(matches!(read_events(b"<a></b>").last(), Some(XmlEvent::Failure)));
}

#[test]
fn tags_are_stripped() {
    assert_eq!(strip_html("<p>Hello <b>world</b></p>"), "Hello world");
    assert_eq!(strip_html("no tags"), "no tags");
    assert_eq!(strip_inline_tags("a <em>b</em> c"), "a b c");
}

#[test]
fn stripped_descriptions_are_clean() {
    assert_eq!(strip_inline_tags(" <p>One</p> \n\n\n\n  Two <b\n>x</b>\nThree\n\n"), "One\n\nTwo x\nThree");
    for s in ["", "\n\n\n", "<<a>>b", "a\n \n\t\n<x>\nb\n", " a < b > c\n\n\n\nd "] {
        let r = strip_inline_tags(s);
        assert!(!r.contains('<') && !r.contains('>') && !r.contains("\n\n\n"), "{:?}", r);
        assert_eq!(r.trim(), r);
        assert!(r.split('\n').all(|l| l.trim() == l));
        assert_eq!(strip_inline_tags(&r), r);
    }
}

const FEED: &str = r#"<?xml version="1.0"?>
<rss version="2.0"><channel><title>Arch Linux: Recent news updates</title>
<item><title>First news</title><link>https://archlinux.org/news/1/</link>
<description>&lt;p&gt;Manual &lt;code&gt;intervention&lt;/code&gt; required&lt;/p&gt;</description>
<pubDate>Wed, 01 May 2024 10:00:00 +0000</pubDate></item>
<item><title>Second</title><link>https://archlinux.org/news/2/</link>
<description><![CDATA[<p>Short</p>]]></description>
<pubDate>Thu, 02 May 2024 10:00:00 +0000</pubDate></item>
</channel></rss>"#;

#[test]
fn news_are_read() {
    let items = parse_arch_rss(FEED);
    assert_eq!(items.len(), 2);
    assert_eq!(items[0].title, "First news");
    assert_eq!(items[0].link, "https://archlinux.org/news/1/");
    assert_eq!(items[0].summary, "Manual intervention required");
    assert_eq!(items[0].date, short_date("Wed, 01 May 2024 10:00:00 +0000"));
    assert_eq!(items[1].summary, "Short");
}

#[test]
fn no_feed_gives_no_news() {
    assert!(parse_arch_rss("").is_empty());
    assert!(parse_arch_rss("not xml").is_empty());
}

#[test]
fn summaries_are_short() {
    let long = "wörd ".repeat(200);
    let short = summarize(&long);
    assert_eq!(short.chars().count(), 400);
    assert!(short.ends_with("wörd…"));
    assert_eq!(summarize(&"x".repeat(400)), "x".repeat(400));
    assert_eq!(summarize("short"), "short");
}
