//! Feed items: the entries of an RSS, Atom or JSON feed as the shell lists them.
use vstd::prelude::*;

use crate::feedscan::{feed_safe, feed_safe_exec};
use crate::ipc::{opt_view, FeedItem};
use crate::text::{decimal, decimal_chars, string_of};

verus! {

/// The parts of a feed entry that the shell reads, dates in RFC 3339.
#[derive(Debug, PartialEq, Eq)]
pub struct FeedEntry {
    pub title: Option<String>,
    pub first_link: Option<String>,
    pub published: Option<String>,
    pub updated: Option<String>,
}

/// The text of a [`FeedEntry`].
pub struct FeedEntryView {
    pub title: Option<Seq<char>>,
    pub first_link: Option<Seq<char>>,
    pub published: Option<Seq<char>>,
    pub updated: Option<Seq<char>>,
}

impl View for FeedEntry {
    type V = FeedEntryView;

    open spec fn view(&self) -> FeedEntryView {
        FeedEntryView {
            title: opt_view(self.title),
            first_link: opt_view(self.first_link),
            published: opt_view(self.published),
            updated: opt_view(self.updated),
        }
    }
}

/// The views of a list of entries.
pub open spec fn entry_views(s: Seq<FeedEntry>) -> Seq<FeedEntryView> {
    Seq::new(s.len(), |i: int| s[i]@)
}

/// What `feed_rs::parser::parse` makes of the document `doc`: its entries in
/// document order (title text, first link, publication and update dates in
/// RFC 3339), or the text of its error.
pub uninterp spec fn feed_entries(doc: Seq<u8>) -> Result<Seq<FeedEntryView>, Seq<char>>;

/// `feed_rs::parser::parse`, each entry read as its title's content, its
/// first link's `href`, and `to_rfc3339` of its dates. The contract names
/// the result. It is called only on documents it reads without panicking
/// (see [`feed_safe`]): it panics when an XML declaration that switches the
/// encoding is read late, and its time-value parser unwraps integer parses.
#[verifier::external_body]
fn parse_feed(doc: &[u8]) -> (r: Result<Vec<FeedEntry>, String>)
    requires
        feed_safe(doc@),
    ensures
        match (r, feed_entries(doc@)) {
            (Ok(v), Ok(s)) => entry_views(v@) == s,
            (Err(e), Err(m)) => e@ == m,
            _ => false,
        },
{
    let feed = feed_rs::parser::parse(doc).map_err(|e| e.to_string())?;
    Ok(
        feed.entries.iter().map(
            |e| FeedEntry {
                title: e.title.as_ref().map(|t| t.content.clone()),
                first_link: e.links.first().map(|l| l.href.clone()),
                published: e.published.map(|d| d.to_rfc3339()),
                updated: e.updated.map(|d| d.to_rfc3339()),
            },
        ).collect(),
    )
}

/// Why a feed's items could not be listed.
#[derive(Debug, PartialEq, Eq)]
pub enum FeedError {
    /// The feed answered with a status outside 200..300.
    Http(u16),
    /// The feed did not parse.
    Parse(String),
    /// The document holds what the parser cannot be trusted to read
    /// without panicking (see [`feed_safe`]): an XML declaration naming an
    /// encoding after the first 64 bytes, a switch of decoding that the
    /// bytes cannot follow (ISO-2022-JP escapes, UTF-16 after an opening
    /// declaration), or a time value whose numbers may not parse.
    Refused,
}

impl FeedError {
    /// The message shown for the error.
    pub fn message(&self) -> (r: String)
        ensures
            match self {
                FeedError::Http(s) => r@ == "feed HTTP "@ + decimal(*s as nat),
                FeedError::Parse(e) => r@ == "feed parse: "@ + e@,
                FeedError::Refused => r@ == "feed parse: document refused"@,
            },
    {
        match self {
            FeedError::Http(s) => {
                let mut m = String::from_str("feed HTTP ");
                let d = string_of(&decimal_chars(*s as usize));
                m.append(d.as_str());
                m
            },
            FeedError::Parse(e) => {
                let mut m = String::from_str("feed parse: ");
                m.append(e.as_str());
                m
            },
            FeedError::Refused => String::from_str("feed parse: document refused"),
        }
    }
}

/// The text of a [`FeedItem`].
pub struct FeedItemView {
    pub title: Seq<char>,
    pub link: Seq<char>,
    pub published: Option<Seq<char>>,
}

/// The item shown for an entry of the feed at `feed_url`: its title or
/// `(untitled)`, its first link when not empty or else the feed's URL, and
/// its publication date or else its update date.
pub open spec fn item_of(e: FeedEntryView, feed_url: Seq<char>) -> FeedItemView {
    FeedItemView {
        title: match e.title {
            Some(t) => t,
            None => "(untitled)"@,
        },
        link: match e.first_link {
            Some(l) => if l.len() > 0 {
                l
            } else {
                feed_url
            },
            None => feed_url,
        },
        published: match e.published {
            Some(p) => Some(p),
            None => e.updated,
        },
    }
}

/// The items of the first `limit` entries.
pub open spec fn items_of(entries: Seq<FeedEntryView>, feed_url: Seq<char>, limit: nat) -> Seq<
    FeedItemView,
> {
    let n = if limit < entries.len() {
        limit
    } else {
        entries.len()
    };
    Seq::new(n, |i: int| item_of(entries[i], feed_url))
}

/// The date listed for each item is its entry's publication date when it
/// has one, and otherwise its update date: an entry with only an update
/// date is listed with that date, and one with neither with none. The
/// first `min(limit, entries)` entries are listed, in order.
pub proof fn law_item_dates(entries: Seq<FeedEntryView>, feed_url: Seq<char>, limit: nat)
    ensures
        items_of(entries, feed_url, limit).len() == if limit < entries.len() {
            limit
        } else {
            entries.len()
        },
        forall|i: int|
            0 <= i < items_of(entries, feed_url, limit).len() ==> {
                let it = #[trigger] items_of(entries, feed_url, limit)[i];
                &&& entries[i].published matches Some(p) ==> it.published == Some(p)
                &&& entries[i].published is None ==> it.published == entries[i].updated
            },
{
}

/// Each listed item carries its entry's title, or `(untitled)` when the
/// entry has none, and its entry's first link when that is not empty, or
/// else the feed's own URL; item `i` is made of entry `i`.
pub proof fn law_item_titles_and_links(entries: Seq<FeedEntryView>, feed_url: Seq<char>, limit: nat)
    ensures
        forall|i: int|
            0 <= i < items_of(entries, feed_url, limit).len() ==> {
                let it = #[trigger] items_of(entries, feed_url, limit)[i];
                &&& entries[i].title is Some ==> it.title == entries[i].title.unwrap()
                &&& entries[i].title is None ==> it.title == "(untitled)"@
                &&& (entries[i].first_link is Some && entries[i].first_link.unwrap().len() > 0)
                    ==> it.link == entries[i].first_link.unwrap()
                &&& (entries[i].first_link is None || entries[i].first_link.unwrap().len() == 0)
                    ==> it.link == feed_url
            },
{
}

/// The views of a list of items.
pub open spec fn item_views(s: Seq<FeedItem>) -> Seq<FeedItemView> {
    Seq::new(
        s.len(),
        |i: int| item_view(s[i]),
    )
}

/// Whether an HTTP status is a success (200..300).
pub fn is_success(status: u16) -> (r: bool)
    ensures
        r == (200 <= status < 300),
{
    200 <= status && status < 300
}

/// The text of one item.
pub open spec fn item_view(it: FeedItem) -> FeedItemView {
    FeedItemView { title: it.title@, link: it.link@, published: opt_view(it.published) }
}

/// The item shown for one entry.
fn item_for(e: &FeedEntry, feed_url: &str) -> (r: FeedItem)
    ensures
        item_view(r) == item_of(e@, feed_url@),
{
    let title = match &e.title {
        Some(t) => t.clone(),
        None => {
            proof {
                reveal_strlit("(untitled)");
            }
            String::from_str("(untitled)")
        },
    };
    let link = match &e.first_link {
        Some(l) => if l.as_str().is_empty() {
            String::from_str(feed_url)
        } else {
            l.clone()
        },
        None => String::from_str(feed_url),
    };
    let published = match &e.published {
        Some(p) => Some(p.clone()),
        None => crate::ipc::clone_opt(&e.updated),
    };
    FeedItem { title, link, published }
}

/// Lists the items of a feed fetched from `feed_url` with `status` and
/// body `doc`: an error for a status outside 200..300, for a document the
/// parser cannot be trusted to read without panicking, or for a document that does
/// not parse, else the items of its first `limit` entries.
pub fn feed_items(status: u16, doc: &[u8], feed_url: &str, limit: usize) -> (r: Result<
    Vec<FeedItem>,
    FeedError,
>)
    ensures
        !(200 <= status < 300) ==> r == Err::<Vec<FeedItem>, FeedError>(FeedError::Http(status)),
        200 <= status < 300 && !feed_safe(doc@) ==> r == Err::<Vec<FeedItem>, FeedError>(
            FeedError::Refused,
        ),
        200 <= status < 300 && feed_safe(doc@) ==> match feed_entries(doc@) {
            Err(m) => r matches Err(FeedError::Parse(e)) && e@ == m,
            Ok(entries) => r matches Ok(v) && item_views(v@) == items_of(
                entries,
                feed_url@,
                limit as nat,
            ),
        },
{
    if !is_success(status) {
        return Err(FeedError::Http(status));
    }
    if !feed_safe_exec(doc) {
        return Err(FeedError::Refused);
    }
    let entries = match parse_feed(doc) {
        Ok(v) => v,
        Err(e) => return Err(FeedError::Parse(e)),
    };
    let n = if limit < entries.len() {
        limit
    } else {
        entries.len()
    };
    let mut out: Vec<FeedItem> = Vec::new();
    for i in 0..n
        invariant
            n <= entries@.len(),
            item_views(out@) == Seq::new(
                i as nat,
                |j: int| item_of(entry_views(entries@)[j], feed_url@),
            ),
    {
        let item = item_for(&entries[i], feed_url);
        let ghost before = out@;
        out.push(item);
        assert(item_views(out@) =~= item_views(before).push(item_view(item)));
        assert(entry_views(entries@)[i as int] == entries@[i as int]@);
        assert(item_views(out@) =~= Seq::new(
            (i + 1) as nat,
            |j: int| item_of(entry_views(entries@)[j], feed_url@),
        ));
    }
    Ok(out)
}

} // verus!
