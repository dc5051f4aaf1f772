//! Picking a picture for the frame from the picture server's sources: a photography feed
//! (RSS with Media RSS extensions), a set of meme subreddits, and a gallery. Each source
//! gives candidates, and one of them is chosen at random.
use vstd::prelude::*;
use vstd::string::StringExecFns;
use vstd::string::StringSliceAdditionalSpecFns;

verus! {

/// The attributes of one extension element, in key order.
pub type Attributes = Vec<(String, String)>;

/// The extensions of one feed item: for each namespace prefix, for each element name, the
/// attributes of every occurrence of the element (both levels in key order).
pub type ItemExtensions = Vec<(String, Vec<(String, Vec<Attributes>)>)>;

/// The attributes of an extension element, as text.
pub type AttributesView = Seq<(Seq<char>, Seq<char>)>;

/// The extensions of a feed item, as text.
pub type ExtensionsView = Seq<(Seq<char>, Seq<(Seq<char>, Seq<AttributesView>)>)>;

/// The extensions of the items of an RSS channel read by `rss::Channel::read_from` from
/// `xml`, or `None` when it fails.
pub uninterp spec fn rss_item_extensions(xml: Seq<u8>) -> Option<Seq<ExtensionsView>>;

/// The error type of `rss`.
#[verifier::external_type_specification]
#[verifier::external_body]
pub struct ExRssError(rss::Error);

/// Reads an RSS channel with `rss::Channel::read_from` and returns the extension map of each
/// item, converted entry by entry from its `BTreeMap`s (so keys come in order and each key
/// once). Claimed: the result is `rss_item_extensions` of the bytes.
#[verifier::external_body]
fn read_channel_extensions(xml: &[u8]) -> (res: Result<Vec<ItemExtensions>, rss::Error>)
    ensures
        res is Ok <==> rss_item_extensions(xml@) is Some,
        res matches Ok(items) ==> items.deep_view() == rss_item_extensions(xml@).unwrap(),
{
    rss::Channel::read_from(xml).map(|c| c.items().iter().map(|item| item.extensions().iter().map(
        |(ns, elems)| (ns.clone(), elems.iter().map(|(name, occ)| (name.clone(), occ.iter().map(
        |e| e.attrs().clone().into_iter().collect()).collect())).collect())).collect()).collect())
}

/// Wrapper of `rand::seq::IteratorRandom::choose` over the thread's generator: it returns
/// `None` exactly for an empty iterator, and otherwise one of its items; which one is
/// chance and is not stated.
#[verifier::external_body]
fn choose_from(items: Vec<String>) -> (res: Option<String>)
    ensures
        res is None <==> items@.len() == 0,
        res matches Some(x) ==> items@.contains(x),
{
    rand::seq::IteratorRandom::choose(items.into_iter(), &mut rand::thread_rng())
}

/// Wrapper of `rand::seq::SliceRandom::choose` over the thread's generator: it returns
/// `None` exactly for an empty slice, and otherwise one of its elements; which one is
/// chance and is not stated.
#[verifier::external_body]
fn choose_in(items: &[String]) -> (res: Option<&String>)
    ensures
        res is None <==> items@.len() == 0,
        res matches Some(x) ==> items@.contains(*x),
{
    rand::seq::SliceRandom::choose(items, &mut rand::thread_rng())
}

/// Wrapper of `rand::random::<usize>`: any number; nothing is stated of it.
#[verifier::external_body]
fn random_usize() -> (r: usize) {
    rand::random::<usize>()
}

/// The value of the first entry with key `key`, if any.
pub open spec fn lookup<V>(entries: Seq<(Seq<char>, V)>, key: Seq<char>) -> Option<V>
    decreases entries.len(),
{
    if entries.len() == 0 {
        None
    } else if entries[0].0 == key {
        Some(entries[0].1)
    } else {
        lookup(entries.drop_first(), key)
    }
}

/// The `media:content` occurrences of an item, if the item has the `media` namespace and
/// the element in it.
pub open spec fn media_contents(ext: ExtensionsView) -> Option<Seq<AttributesView>> {
    match lookup(ext, "media"@) {
        Some(elems) => lookup(elems, "content"@),
        None => None,
    }
}

/// The `url` attribute of an item's first `media:content`, if any.
pub open spec fn content_url(ext: ExtensionsView) -> Option<Seq<char>> {
    match media_contents(ext) {
        Some(occ) => if occ.len() > 0 {
            lookup(occ[0], "url"@)
        } else {
            None
        },
        None => None,
    }
}

/// The picture URLs of a feed: the `content_url` of every item that has one, in order.
pub open spec fn feed_urls(items: Seq<ExtensionsView>) -> Seq<Seq<char>>
    decreases items.len(),
{
    if items.len() == 0 {
        Seq::empty()
    } else {
        let rest = feed_urls(items.drop_last());
        match content_url(items.last()) {
            Some(u) => rest.push(u),
            None => rest,
        }
    }
}

/// Why no picture came from a source.
#[derive(Clone, Copy, PartialEq, Eq, Structural, Debug)]
pub enum PickError {
    /// The feed is not an RSS channel.
    Unreadable,
    /// The channel has no items (the server panics there).
    EmptyChannel,
    /// The first item has no `media` extension.
    NoMedia,
    /// The first item's `media` extension has no `content`.
    NoContent,
    /// The first item's `media:content` has no occurrence.
    NoIndex,
    /// No item has a picture URL.
    NoContentFound,
}

/// What the server checks of a feed's first item before it looks for pictures.
pub open spec fn first_item_check(first: ExtensionsView) -> Result<(), PickError> {
    match lookup(first, "media"@) {
        None => Err(PickError::NoMedia),
        Some(elems) => match lookup(elems, "content"@) {
            None => Err(PickError::NoContent),
            Some(occ) => if occ.len() == 0 {
                Err(PickError::NoIndex)
            } else {
                Ok(())
            },
        },
    }
}

/// Finds the first entry with key `key`.
pub fn find_entry<'a, V: DeepView>(entries: &'a Vec<(String, V)>, key: &String) -> (res: Option<
    &'a V,
>)
    ensures
        res.deep_view() == lookup(entries.deep_view(), key@),
{
    let mut i: usize = 0;
    assert(entries.deep_view().skip(0) =~= entries.deep_view());
    while i < entries.len()
        invariant
            i <= entries@.len(),
            lookup(entries.deep_view(), key@) == lookup(entries.deep_view().skip(i as int), key@),
        decreases entries@.len() - i,
    {
        let ghost rest = entries.deep_view().skip(i as int);
        assert(rest[0] == entries.deep_view()[i as int]);
        assert(rest.drop_first() =~= entries.deep_view().skip(i + 1));
        if entries[i].0 == *key {
            return Some(&entries[i].1);
        }
        i = i + 1;
    }
    None
}

/// The picture URL of a feed item: the `url` attribute of its first `media:content`.
pub fn item_url(ext: &ItemExtensions) -> (res: Option<String>)
    ensures
        res.deep_view() == content_url(ext.deep_view()),
{
    let media = String::from_str("media");
    let content = String::from_str("content");
    let url = String::from_str("url");
    match find_entry(ext, &media) {
        None => None,
        Some(elems) => match find_entry(elems, &content) {
            None => None,
            Some(occ) => {
                if occ.len() > 0 {
                    assert(occ.deep_view()[0] == occ[0].deep_view());
                    match find_entry(&occ[0], &url) {
                        Some(u) => Some(u.clone()),
                        None => None,
                    }
                } else {
                    None
                }
            },
        },
    }
}

/// Checks a feed's first item as the server does: it must have a `media:content` element
/// with at least one occurrence.
pub fn check_first_item(first: &ItemExtensions) -> (res: Result<(), PickError>)
    ensures
        res == first_item_check(first.deep_view()),
{
    let media = String::from_str("media");
    let content = String::from_str("content");
    match find_entry(first, &media) {
        None => Err(PickError::NoMedia),
        Some(elems) => match find_entry(elems, &content) {
            None => Err(PickError::NoContent),
            Some(occ) => {
                if occ.len() == 0 {
                    Err(PickError::NoIndex)
                } else {
                    Ok(())
                }
            },
        },
    }
}

/// The picture URLs of a feed's items, in order.
pub fn feed_image_urls(items: &Vec<ItemExtensions>) -> (urls: Vec<String>)
    ensures
        urls.deep_view() == feed_urls(items.deep_view()),
{
    let mut urls: Vec<String> = Vec::new();
    let mut i: usize = 0;
    while i < items.len()
        invariant
            i <= items@.len(),
            urls.deep_view() == feed_urls(items.deep_view().take(i as int)),
        decreases items@.len() - i,
    {
        let ghost before = urls.deep_view();
        let u = item_url(&items[i]);
        assert(items.deep_view().take(i + 1).drop_last() =~= items.deep_view().take(i as int));
        assert(items.deep_view().take(i + 1).last() == items[i as int].deep_view());
        match u {
            Some(s) => {
                urls.push(s);
                assert(urls.deep_view() =~= before.push(s@));
            },
            None => {},
        }
        i = i + 1;
    }
    assert(items.deep_view().take(items@.len() as int) =~= items.deep_view());
    urls
}

/// Picks a picture URL from a feed's items, as the server does: the first item must pass
/// `first_item_check`, and the URL is chosen at random among the items' picture URLs.
pub fn pick_from_items(items: &Vec<ItemExtensions>) -> (res: Result<String, PickError>)
    requires
        items@.len() > 0,
    ensures
        match first_item_check(items.deep_view()[0]) {
            Err(e) => res == Err::<String, PickError>(e),
            Ok(()) => match res {
                Ok(u) => feed_urls(items.deep_view()).contains(u@),
                Err(e) => e == PickError::NoContentFound && feed_urls(items.deep_view()).len()
                    == 0,
            },
        },
{
    assert(items.deep_view()[0] == items[0].deep_view());
    match check_first_item(&items[0]) {
        Err(e) => {
            return Err(e);
        },
        Ok(()) => {},
    }
    let urls = feed_image_urls(items);
    let ghost views = urls.deep_view();
    match choose_from(urls) {
        Some(u) => {
            proof {
                let i = choose|i: int| 0 <= i < urls@.len() && urls@[i] == u;
                assert(views[i] == u@);
            }
            Ok(u)
        },
        None => Err(PickError::NoContentFound),
    }
}

/// Picks a picture URL from the RSS feed `xml` (see `pick_from_items`). Fails when the feed
/// cannot be read, and on a channel without items.
pub fn pick_from_feed(xml: &[u8]) -> (res: Result<String, PickError>)
    ensures
        match rss_item_extensions(xml@) {
            None => res == Err::<String, PickError>(PickError::Unreadable),
            Some(items) => if items.len() == 0 {
                res == Err::<String, PickError>(PickError::EmptyChannel)
            } else {
                match first_item_check(items[0]) {
                    Err(e) => res == Err::<String, PickError>(e),
                    Ok(()) => match res {
                        Ok(u) => feed_urls(items).contains(u@),
                        Err(e) => e == PickError::NoContentFound && feed_urls(items).len() == 0,
                    },
                }
            },
        },
{
    match read_channel_extensions(xml) {
        Err(_) => Err(PickError::Unreadable),
        Ok(items) => {
            if items.len() == 0 {
                Err(PickError::EmptyChannel)
            } else {
                pick_from_items(&items)
            }
        },
    }
}

/// Whether `s` ends with `suffix`, byte for byte.
pub open spec fn ends_with(s: Seq<u8>, suffix: Seq<u8>) -> bool {
    s.len() >= suffix.len() && s.skip(s.len() - suffix.len()) == suffix
}

/// The picture suffixes the server accepts from the subreddits: `.png`, `.jpg`, `.webp`.
pub open spec fn picture_suffixes() -> Seq<Seq<u8>> {
    seq![
        seq![46u8, 112u8, 110u8, 103u8],
        seq![46u8, 106u8, 112u8, 103u8],
        seq![46u8, 119u8, 101u8, 98u8, 112u8],
    ]
}

/// Whether a post's URL names a picture.
pub open spec fn is_picture_url(u: Seq<char>) -> bool {
    exists|k: int| 0 <= k < 3 && ends_with(vstd::utf8::encode_utf8(u), #[trigger] picture_suffixes()[k])
}

/// The picture URLs among the posts' URLs, in order.
pub open spec fn picture_urls(posts: Seq<Option<Seq<char>>>) -> Seq<Seq<char>>
    decreases posts.len(),
{
    if posts.len() == 0 {
        Seq::empty()
    } else {
        let rest = picture_urls(posts.drop_last());
        match posts.last() {
            Some(u) => if is_picture_url(u) {
                rest.push(u)
            } else {
                rest
            },
            None => rest,
        }
    }
}

/// Whether `s` ends with `suffix`.
pub fn bytes_end_with(s: &[u8], suffix: &[u8]) -> (res: bool)
    ensures
        res == ends_with(s@, suffix@),
{
    let n = s.len();
    let m = suffix.len();
    if n < m {
        return false;
    }
    let mut i: usize = 0;
    while i < m
        invariant
            n == s@.len(),
            m == suffix@.len(),
            m <= n,
            i <= m,
            forall|j: int| 0 <= j < i ==> s@[n - m + j] == suffix@[j],
        decreases m - i,
    {
        if s[n - m + i] != suffix[i] {
            assert(s@.skip(n - m)[i as int] != suffix@[i as int]);
            return false;
        }
        i = i + 1;
    }
    assert(s@.skip(n - m) =~= suffix@);
    true
}

/// Whether a URL ends with one of the picture suffixes.
pub fn names_picture(u: &String) -> (res: bool)
    ensures
        res == is_picture_url(u@),
        res <==> (ends_with(vstd::utf8::encode_utf8(u@), seq![46u8, 112u8, 110u8, 103u8])
            || ends_with(vstd::utf8::encode_utf8(u@), seq![46u8, 106u8, 112u8, 103u8])
            || ends_with(vstd::utf8::encode_utf8(u@), seq![46u8, 119u8, 101u8, 98u8, 112u8])),
{
    let b = u.as_str().as_bytes();
    let png: Vec<u8> = vec![46u8, 112u8, 110u8, 103u8];
    let jpg: Vec<u8> = vec![46u8, 106u8, 112u8, 103u8];
    let webp: Vec<u8> = vec![46u8, 119u8, 101u8, 98u8, 112u8];
    assert(png@ =~= picture_suffixes()[0]);
    assert(jpg@ =~= picture_suffixes()[1]);
    assert(webp@ =~= picture_suffixes()[2]);
    let r = bytes_end_with(b, png.as_slice()) || bytes_end_with(b, jpg.as_slice())
        || bytes_end_with(b, webp.as_slice());
    assert(r == is_picture_url(u@)) by {
        if is_picture_url(u@) {
            let k = choose|k: int| 0 <= k < 3 && ends_with(vstd::utf8::encode_utf8(u@), #[trigger] picture_suffixes()[k]);
            assert(k == 0 || k == 1 || k == 2);
        }
    }
    r
}

/// The URLs of the posts that name pictures, in order.
pub fn meme_urls(posts: &Vec<Option<String>>) -> (urls: Vec<String>)
    ensures
        urls.deep_view() == picture_urls(posts.deep_view()),
{
    let mut urls: Vec<String> = Vec::new();
    let mut i: usize = 0;
    while i < posts.len()
        invariant
            i <= posts@.len(),
            urls.deep_view() == picture_urls(posts.deep_view().take(i as int)),
        decreases posts@.len() - i,
    {
        let ghost before = urls.deep_view();
        assert(posts.deep_view().take(i + 1).drop_last() =~= posts.deep_view().take(i as int));
        assert(posts.deep_view().take(i + 1).last() == posts[i as int].deep_view());
        match &posts[i] {
            Some(u) => {
                if names_picture(u) {
                    urls.push(u.clone());
                    assert(urls.deep_view() =~= before.push(u@));
                }
            },
            None => {},
        }
        i = i + 1;
    }
    assert(posts.deep_view().take(posts@.len() as int) =~= posts.deep_view());
    urls
}

/// Picks one of the posts' picture URLs at random, or `None` when no post names a picture
/// (the server panics there).
pub fn pick_meme(posts: &Vec<Option<String>>) -> (res: Option<String>)
    ensures
        res is None <==> picture_urls(posts.deep_view()).len() == 0,
        res matches Some(u) ==> picture_urls(posts.deep_view()).contains(u@),
{
    let urls = meme_urls(posts);
    let ghost views = urls.deep_view();
    match choose_in(urls.as_slice()) {
        Some(u) => {
            proof {
                let i = choose|i: int| 0 <= i < urls@.len() && urls@[i] == *u;
                assert(views[i] == u@);
            }
            Some(u.clone())
        },
        None => None,
    }
}

/// An entry of the gallery's listing.
#[derive(Clone, Debug, PartialEq, Eq)]
pub struct GalleryEntry {
    pub id: u64,
    pub image_url: String,
}

/// The entry the server takes for a random number `r`: the one at `r` modulo the count.
pub fn gallery_index(count: usize, r: usize) -> (i: usize)
    requires
        count > 0,
    ensures
        i == r % count,
        i < count,
{
    r % count
}

/// Picks a gallery entry at random, as the server does (a random number modulo the count),
/// or `None` for an empty listing (the server panics there).
pub fn pick_gallery_entry(entries: &Vec<GalleryEntry>) -> (res: Option<&GalleryEntry>)
    ensures
        res is None <==> entries@.len() == 0,
        res matches Some(e) ==> entries@.contains(*e),
        res matches Some(e) ==> exists|r: usize| gallery_pick(entries@, r) == Some(*e),
{
    if entries.len() == 0 {
        return None;
    }
    let r = random_usize();
    gallery_entry_at(entries, r)
}

/// The entry the server shows for the random draw `r`: the one at `r` modulo the count, or
/// none for an empty listing.
pub open spec fn gallery_pick(entries: Seq<GalleryEntry>, r: usize) -> Option<GalleryEntry> {
    if entries.len() == 0 {
        None
    } else {
        Some(entries[(r as int) % (entries.len() as int)])
    }
}

/// The entry for the random draw `r`: the one at `r` modulo the count.
pub fn gallery_entry_at(entries: &Vec<GalleryEntry>, r: usize) -> (res: Option<&GalleryEntry>)
    ensures
        match res {
            None => entries@.len() == 0,
            Some(e) => entries@.len() > 0 && *e == entries@[(r as int) % (entries@.len() as int)],
        },
        res matches Some(e) ==> gallery_pick(entries@, r) == Some(*e),
        res is None ==> gallery_pick(entries@, r) is None,
{
    if entries.len() == 0 {
        return None;
    }
    let i = gallery_index(entries.len(), r);
    Some(&entries[i])
}

/// Every entry of a listing is shown for some draw, and draws that differ by the count
/// show the same entry: the draw below the count picks the entry at that position, and
/// adding the count to a draw changes nothing.
pub proof fn law_gallery_pick_follows_draw(entries: Seq<GalleryEntry>, r: usize)
    requires
        entries.len() > 0,
    ensures
        r < entries.len() ==> gallery_pick(entries, r) == Some(entries[r as int]),
        r + entries.len() <= usize::MAX ==> gallery_pick(entries, (r + entries.len()) as usize)
            == gallery_pick(entries, r),
        gallery_pick(entries, r) matches Some(e) && entries.contains(e),
{
    let n = entries.len() as int;
    let ri = r as int;
    assert((ri + n) % n == ri % n) by (nonlinear_arith)
        requires
            n > 0,
            ri >= 0,
    ;
    assert(0 <= ri % n < n) by (nonlinear_arith)
        requires
            n > 0,
    ;
    if ri < n {
        assert(ri % n == ri) by (nonlinear_arith)
            requires
                0 <= ri < n,
        ;
    }
    if r + entries.len() <= usize::MAX {
        assert(((r + entries.len()) as usize) as int == ri + n);
    }
    assert(entries[ri % n] == entries[ri % n]);
}

/// The meme candidates are exactly the posts' URLs that end with a picture suffix, in the
/// posts' order: every candidate is a picture URL of some post, and every post with a
/// picture URL gives a candidate.
pub proof fn law_meme_candidates_are_pictures(posts: Seq<Option<Seq<char>>>)
    ensures
        forall|i: int|
            0 <= i < picture_urls(posts).len() ==> is_picture_url(#[trigger] picture_urls(posts)[i])
                && posts.contains(Some(picture_urls(posts)[i])),
        forall|j: int|
            0 <= j < posts.len() && (#[trigger] posts[j] matches Some(u) && is_picture_url(u))
                ==> picture_urls(posts).contains(posts[j].unwrap()),
    decreases posts.len(),
{
    if posts.len() > 0 {
        let init = posts.drop_last();
        law_meme_candidates_are_pictures(init);
        let rest = picture_urls(init);
        let all = picture_urls(posts);
        assert forall|i: int| 0 <= i < all.len() implies is_picture_url(#[trigger] all[i])
            && posts.contains(Some(all[i])) by {
            if i < rest.len() {
                assert(all[i] == rest[i]);
                let k = choose|k: int| 0 <= k < init.len() && init[k] == Some(rest[i]);
                assert(posts[k] == init[k]);
            } else {
                assert(posts[posts.len() - 1] == Some(all[i]));
            }
        }
        assert forall|j: int|
            0 <= j < posts.len() && (#[trigger] posts[j] matches Some(u) && is_picture_url(u))
            implies all.contains(posts[j].unwrap()) by {
            if j < posts.len() - 1 {
                assert(init[j] == posts[j]);
                let k = choose|k: int| 0 <= k < rest.len() && rest[k] == posts[j].unwrap();
                assert(all[k] == rest[k]);
            } else {
                assert(all[all.len() - 1] == posts[j].unwrap());
            }
        }
    }
}

/// Every feed candidate is the `url` of an item's first `media:content`, and every item that
/// has one gives a candidate.
pub proof fn law_feed_candidates_come_from_items(items: Seq<ExtensionsView>)
    ensures
        forall|i: int|
            0 <= i < feed_urls(items).len() ==> exists|k: int|
                0 <= k < items.len() && content_url(items[k]) == Some(
                    #[trigger] feed_urls(items)[i],
                ),
        forall|k: int|
            0 <= k < items.len() && (#[trigger] content_url(items[k])) is Some
                ==> feed_urls(items).contains(content_url(items[k]).unwrap()),
    decreases items.len(),
{
    if items.len() > 0 {
        let init = items.drop_last();
        law_feed_candidates_come_from_items(init);
        let rest = feed_urls(init);
        let all = feed_urls(items);
        assert forall|i: int| 0 <= i < all.len() implies exists|k: int|
            0 <= k < items.len() && content_url(items[k]) == Some(#[trigger] all[i]) by {
            if i < rest.len() {
                assert(all[i] == rest[i]);
                let k = choose|k: int|
                    0 <= k < init.len() && content_url(init[k]) == Some(#[trigger] rest[i]);
                assert(items[k] == init[k]);
            } else {
                assert(content_url(items[items.len() - 1]) == Some(all[i]));
            }
        }
        assert forall|k: int|
            0 <= k < items.len() && (#[trigger] content_url(items[k])) is Some implies all.contains(
            content_url(items[k]).unwrap(),
        ) by {
            if k < items.len() - 1 {
                assert(init[k] == items[k]);
                let m = choose|m: int| 0 <= m < rest.len() && rest[m] == content_url(init[k]).unwrap();
                assert(all[m] == rest[m]);
            } else {
                assert(all[all.len() - 1] == content_url(items[k]).unwrap());
            }
        }
    }
}

/// `ends_with` compares the last bytes: `s` ends with `suffix` exactly when it is at least
/// as long and each of its last `suffix.len()` bytes equals the suffix byte at that place.
pub proof fn law_ends_with_compares_last_bytes(s: Seq<u8>, suffix: Seq<u8>)
    ensures
        ends_with(s, suffix) <==> (s.len() >= suffix.len() && forall|i: int|
            0 <= i < suffix.len() ==> #[trigger] s[s.len() - suffix.len() + i] == suffix[i]),
{
    if s.len() >= suffix.len() {
        let t = s.skip(s.len() - suffix.len());
        if forall|i: int| 0 <= i < suffix.len() ==> #[trigger] s[s.len() - suffix.len() + i]
            == suffix[i] {
            assert forall|i: int| 0 <= i < suffix.len() implies t[i] == suffix[i] by {
                assert(t[i] == s[s.len() - suffix.len() + i]);
            }
            assert(t =~= suffix);
        }
        if t == suffix {
            assert forall|i: int| 0 <= i < suffix.len() implies #[trigger] s[s.len()
                - suffix.len() + i] == suffix[i] by {
                assert(t[i] == suffix[i]);
            }
        }
    }
}

/// A post names a picture exactly when the UTF-8 bytes of its URL end with `.png`, `.jpg`
/// or `.webp`, and with nothing else (so `.gif`, `.gifv`, `.jpeg` and `.mp4` are not
/// pictures).
pub proof fn law_picture_suffixes(u: Seq<char>)
    ensures
        is_picture_url(u) <==> (ends_with(vstd::utf8::encode_utf8(u), seq![46u8, 112u8, 110u8, 103u8])
            || ends_with(vstd::utf8::encode_utf8(u), seq![46u8, 106u8, 112u8, 103u8])
            || ends_with(vstd::utf8::encode_utf8(u), seq![46u8, 119u8, 101u8, 98u8, 112u8])),
{
    let b = vstd::utf8::encode_utf8(u);
    let png = seq![46u8, 112u8, 110u8, 103u8];
    let jpg = seq![46u8, 106u8, 112u8, 103u8];
    let webp = seq![46u8, 119u8, 101u8, 98u8, 112u8];
    assert(picture_suffixes()[0] =~= png);
    assert(picture_suffixes()[1] =~= jpg);
    assert(picture_suffixes()[2] =~= webp);
    if is_picture_url(u) {
        let k = choose|k: int| 0 <= k < 3 && ends_with(b, #[trigger] picture_suffixes()[k]);
        assert(k == 0 || k == 1 || k == 2);
    }
    if ends_with(b, png) {
        assert(ends_with(b, picture_suffixes()[0]));
    }
    if ends_with(b, jpg) {
        assert(ends_with(b, picture_suffixes()[1]));
    }
    if ends_with(b, webp) {
        assert(ends_with(b, picture_suffixes()[2]));
    }
}

/// `lookup` gives the value of the first entry with the key: its result is the value of an
/// entry with that key, no earlier entry has the key, and it is `None` only when no entry
/// has the key.
pub proof fn law_lookup_is_first_match<V>(entries: Seq<(Seq<char>, V)>, key: Seq<char>)
    ensures
        match lookup(entries, key) {
            Some(v) => exists|i: int|
                0 <= i < entries.len() && #[trigger] entries[i] == (key, v) && forall|j: int|
                    0 <= j < i ==> entries[j].0 != key,
            None => forall|i: int| 0 <= i < entries.len() ==> #[trigger] entries[i].0 != key,
        },
    decreases entries.len(),
{
    if entries.len() > 0 && entries[0].0 != key {
        let rest = entries.drop_first();
        law_lookup_is_first_match(rest, key);
        match lookup(rest, key) {
            Some(v) => {
                let i = choose|i: int|
                    0 <= i < rest.len() && #[trigger] rest[i] == (key, v) && forall|j: int|
                        0 <= j < i ==> rest[j].0 != key;
                assert(entries[i + 1] == (key, v));
                assert forall|j: int| 0 <= j < i + 1 implies entries[j].0 != key by {
                    if j > 0 {
                        assert(entries[j] == rest[j - 1]);
                    }
                }
            },
            None => {
                assert forall|i: int| 0 <= i < entries.len() implies #[trigger] entries[i].0
                    != key by {
                    if i > 0 {
                        assert(entries[i] == rest[i - 1]);
                    }
                }
            },
        }
    } else if entries.len() > 0 {
        assert(entries[0] == (key, entries[0].1));
    }
}

/// An item's picture URL comes from the first `media:content` occurrence: when the item
/// has the `media` namespace with a `content` element, the URL is the `url` attribute of
/// occurrence 0 (none when there is no occurrence), whatever the later occurrences hold;
/// without the namespace or the element there is no URL.
pub proof fn law_item_url_is_first_occurrence(ext: ExtensionsView)
    ensures
        match lookup(ext, "media"@) {
            None => content_url(ext) is None,
            Some(elems) => match lookup(elems, "content"@) {
                None => content_url(ext) is None,
                Some(occ) => content_url(ext) == if occ.len() > 0 {
                    lookup(occ[0], "url"@)
                } else {
                    None
                },
            },
        },
        forall|later: Seq<AttributesView>|
            media_contents(ext) is Some && media_contents(ext).unwrap().len() > 0 && later.len()
                > 0 && later[0] == media_contents(ext).unwrap()[0] ==> #[trigger] content_url(
                seq![("media"@, seq![("content"@, later)])],
            ) == content_url(ext),
{
    assert forall|later: Seq<AttributesView>|
        media_contents(ext) is Some && media_contents(ext).unwrap().len() > 0 && later.len()
            > 0 && later[0] == media_contents(ext).unwrap()[0] implies #[trigger] content_url(
        seq![("media"@, seq![("content"@, later)])],
    ) == content_url(ext) by {
        let e: ExtensionsView = seq![("media"@, seq![("content"@, later)])];
        let m: Seq<(Seq<char>, Seq<AttributesView>)> = seq![("content"@, later)];
        assert(e[0].0 == "media"@);
        assert(lookup(e, "media"@) == Some(m));
        assert(m[0].0 == "content"@);
        assert(lookup(m, "content"@) == Some(later));
    }
}

} // verus!
