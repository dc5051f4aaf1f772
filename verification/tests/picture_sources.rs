use dank_gallery::feeds::{
    check_first_item, feed_image_urls, gallery_index, item_url, meme_urls, names_picture,
    pick_from_feed, pick_gallery_entry, pick_meme, GalleryEntry, ItemExtensions, PickError,
};

fn media_item(url: Option<&str>) -> ItemExtensions {
    let attrs: Vec<(String, String)> = match url {
        Some(u) => vec![("medium".to_string(), "image".to_string()), ("url".to_string(), u.to_string())],
        None => vec![("medium".to_string(), "image".to_string())],
    };
    vec![("media".to_string(), vec![("content".to_string(), vec![attrs])])]
}

const FEED: &str = r#"<?xml version="1.0"?>
<rss version="2.0" xmlns:media="http://search.yahoo.com/mrss/">
<channel><title>t</title><link>l</link><description>d</description>
<item><title>a</title><media:content url="https://x/a.jpg" medium="image"/></item>
<item><title>b</title></item>
<item><title>c</title><media:content url="https://x/c.jpg"/></item>
</channel></rss>"#;

#[test]
fn item_urls_come_from_first_media_content() {
    assert_eq!(item_url(&media_item(Some("https://x/1.jpg"))), Some("https://x/1.jpg".to_string()));
    assert_eq!(item_url(&media_item(None)), None);
    assert_eq!(item_url(&vec![]), None);
    let items = vec![media_item(Some("u1")), vec![], media_item(None), media_item(Some("u2"))];
    assert_eq!(feed_image_urls(&items), vec!["u1".to_string(), "u2".to_string()]);
}

#[test]
fn first_item_is_checked() {
    assert_eq!(check_first_item(&vec![]), Err(PickError::NoMedia));
    assert_eq!(check_first_item(&vec![("media".to_string(), vec![])]), Err(PickError::NoContent));
    assert_eq!(
        check_first_item(&vec![("media".to_string(), vec![("content".to_string(), vec![])])]),
        Err(PickError::NoIndex)
    );
    assert_eq!(check_first_item(&media_item(None)), Ok(()));
}

#[test]
fn feed_pictures_are_picked() {
    for _ in 0..10 {
        let u = pick_from_feed(FEED.as_bytes()).unwrap();
        assert!(u == "https://x/a.jpg" || u == "https://x/c.jpg");
    }
    assert_eq!(pick_from_feed(b"not xml at all"), Err(PickError::Unreadable));
    let empty = r#"<rss version="2.0"><channel><title>t</title></channel></rss>"#;
    assert_eq!(pick_from_feed(empty.as_bytes()), Err(PickError::EmptyChannel));
    let no_media = r#"<rss version="2.0"><channel><item><title>a</title></item></channel></rss>"#;
    assert_eq!(pick_from_feed(no_media.as_bytes()), Err(PickError::NoMedia));
}

#[test]
fn memes_are_pictures_only() {
    assert!(names_picture(&"https://i.redd.it/a.png".to_string()));
    assert!(names_picture(&"x.webp".to_string()));
    assert!(names_picture(&".jpg".to_string()));
    assert!(!names_picture(&"https://v.redd.it/a.gif".to_string()));
    assert!(!names_picture(&"a.jpeg".to_string()));
    let posts = vec![
        Some("a.png".to_string()),
        None,
        Some("b.gif".to_string()),
        Some("c.jpg".to_string()),
    ];
    assert_eq!(meme_urls(&posts), vec!["a.png".to_string(), "c.jpg".to_string()]);
    let u = pick_meme(&posts).unwrap();
    assert!(u == "a.png" || u == "c.jpg");
    assert_eq!(pick_meme(&vec![None, Some("x.mp4".to_string())]), None);
}

#[test]
fn gallery_entries_are_picked() {
    assert_eq!(gallery_index(7, 23), 2);
    assert_eq!(gallery_index(1, usize::MAX), 0);
    let entries = vec![
        GalleryEntry { id: 1, image_url: "a".to_string() },
        GalleryEntry { id: 2, image_url: "b".to_string() },
    ];
    let e = pick_gallery_entry(&entries).unwrap();
    assert!(e.id == 1 || e.id == 2);
    assert_eq!(pick_gallery_entry(&vec![]), None);
}
