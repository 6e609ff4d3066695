//! Reading an RSS feed into news records: which items are skipped and why,
//! and how each kept item's publication time is read.
use vstd::prelude::*;

use crate::clock::Timestamp;
use crate::text::{contains_seq, contains_str, opt_view, replace_seq, replace_str, string_views};

verus! {

/// The fields of an RSS item that the collector reads.
#[derive(Clone, Debug)]
pub struct FeedItem {
    pub title: Option<String>,
    pub link: Option<String>,
    pub pub_date: Option<String>,
    pub description: Option<String>,
}

/// An RSS item as plain values: title, link, publication date, description.
pub type FeedItemView = (Option<Seq<char>>, Option<Seq<char>>, Option<Seq<char>>, Option<Seq<char>>);

impl View for FeedItem {
    type V = FeedItemView;

    open spec fn view(&self) -> FeedItemView {
        (
            opt_view(self.title),
            opt_view(self.link),
            opt_view(self.pub_date),
            opt_view(self.description),
        )
    }
}

/// A feed that could not be read, with the reader's message.
#[derive(Clone, Debug)]
pub struct FeedError {
    pub message: String,
}

/// How an item's publication time was obtained.
#[derive(Clone, Copy, Debug, PartialEq, Eq, Structural)]
pub enum DateStatus {
    /// Read from the item's date.
    Parsed,
    /// The item's date could not be read; the collection time stands in.
    Unreadable,
    /// The item has no date; the collection time stands in.
    Missing,
}

/// A feed item that is to be stored unless its link is already known.
#[derive(Clone, Debug)]
pub struct NewsCandidate {
    pub title: String,
    pub link: String,
    pub published_at: Timestamp,
    pub date_status: DateStatus,
    pub description: String,
}

/// What the collector does with one feed item.
#[derive(Clone, Debug)]
pub enum ItemOutcome {
    /// Skipped: the item has no title.
    MissingTitle,
    /// Skipped: the title contains an exclusion word.
    Excluded { title: String },
    /// Skipped: the item has no link.
    MissingLink { title: String },
    /// Kept, to be stored unless its link is already known.
    Candidate(NewsCandidate),
}

/// The instant that chrono's `DateTime::parse_from_rfc2822` reads from a
/// string, as Unix seconds and subsecond nanoseconds; `None` where it refuses it.
pub uninterp spec fn spec_rfc2822_instant(s: Seq<char>) -> Option<(i64, u32)>;

/// The instant that chrono's `DateTime::parse_from_rfc3339` reads from a
/// string, as Unix seconds and subsecond nanoseconds; `None` where it refuses it.
pub uninterp spec fn spec_rfc3339_instant(s: Seq<char>) -> Option<(i64, u32)>;

pub open spec fn instant_of(p: Option<(i64, u32)>) -> Option<Timestamp> {
    match p {
        Some((secs, nanos)) => Some(Timestamp { secs, nanos }),
        None => None,
    }
}

/// Calls chrono's `DateTime::parse_from_rfc2822` and gives the instant it
/// reads as Unix seconds and nanoseconds. Claimed: the result is the named
/// value `spec_rfc2822_instant` of the input.
#[verifier::external_body]
fn parse_rfc2822(s: &str) -> (r: Option<Timestamp>)
    ensures
        r == instant_of(spec_rfc2822_instant(s@)),
{
    match chrono::DateTime::parse_from_rfc2822(s) {
        Ok(dt) => Some(Timestamp { secs: dt.timestamp(), nanos: dt.timestamp_subsec_nanos() }),
        Err(_) => None,
    }
}

/// Calls chrono's `DateTime::parse_from_rfc3339` and gives the instant it
/// reads as Unix seconds and nanoseconds. Claimed: the result is the named
/// value `spec_rfc3339_instant` of the input.
#[verifier::external_body]
fn parse_rfc3339(s: &str) -> (r: Option<Timestamp>)
    ensures
        r == instant_of(spec_rfc3339_instant(s@)),
{
    match chrono::DateTime::parse_from_rfc3339(s) {
        Ok(dt) => Some(Timestamp { secs: dt.timestamp(), nanos: dt.timestamp_subsec_nanos() }),
        Err(_) => None,
    }
}

/// The publication instant read from an RSS date: RFC 2822 first, then RFC
/// 2822 with every "GMT" written as "+0000", then RFC 3339.
pub open spec fn spec_pub_date(s: Seq<char>) -> Option<Timestamp> {
    let first = instant_of(spec_rfc2822_instant(s));
    let second = instant_of(spec_rfc2822_instant(replace_seq(s, "GMT"@, "+0000"@)));
    let third = instant_of(spec_rfc3339_instant(s));
    if first is Some {
        first
    } else if second is Some {
        second
    } else {
        third
    }
}

/// Reads an RSS publication date leniently: as RFC 2822, then as RFC 2822
/// with "GMT" written as "+0000", then as RFC 3339; `None` if all three fail.
pub fn parse_rss_pub_date(date: &str) -> (r: Option<Timestamp>)
    ensures
        r == spec_pub_date(date@),
{
    proof {
        reveal_strlit("GMT");
    }
    let first = parse_rfc2822(date);
    if first.is_some() {
        return first;
    }
    let normalized = replace_str(date, "GMT", "+0000");
    let second = parse_rfc2822(normalized.as_str());
    if second.is_some() {
        return second;
    }
    parse_rfc3339(date)
}

/// The items of the feed that rss's `Channel::read_from` reads from these
/// bytes, as plain values; `None` where it refuses them.
pub uninterp spec fn spec_feed_items(bytes: Seq<u8>) -> Option<Seq<FeedItemView>>;

pub open spec fn item_views(v: Seq<FeedItem>) -> Seq<FeedItemView> {
    v.map_values(|i: FeedItem| i@)
}

/// Calls rss's `Channel::read_from` on the bytes and copies out each item's
/// title, link, publication date and description. Claimed: the items are the
/// named value `spec_feed_items` of the bytes, and an error comes exactly
/// where that value is `None`; the error's message is left unsaid.
#[verifier::external_body]
fn read_feed_items(bytes: &[u8]) -> (r: Result<Vec<FeedItem>, FeedError>)
    ensures
        match r {
            Ok(v) => spec_feed_items(bytes@) == Some(item_views(v@)),
            Err(_) => spec_feed_items(bytes@) is None,
        },
{
    match rss::Channel::read_from(bytes) {
        Ok(channel) => Ok(
            channel.items().iter().map(
                |item| FeedItem {
                    title: item.title().map(|s| s.to_string()),
                    link: item.link().map(|s| s.to_string()),
                    pub_date: item.pub_date().map(|s| s.to_string()),
                    description: item.description().map(|s| s.to_string()),
                },
            ).collect(),
        ),
        Err(e) => Err(FeedError { message: format!("{}", e) }),
    }
}

/// A title that contains one of the exclusion words.
pub open spec fn spec_title_excluded(title: Seq<char>, words: Seq<Seq<char>>) -> bool {
    exists|i: int| 0 <= i < words.len() && contains_seq(title, #[trigger] words[i])
}

/// Whether `title` contains one of the exclusion words.
pub fn title_excluded(title: &str, words: &Vec<String>) -> (r: bool)
    ensures
        r == spec_title_excluded(title@, string_views(words@)),
{
    let ghost wv = string_views(words@);
    let mut i: usize = 0;
    while i < words.len()
        invariant
            wv == string_views(words@),
            i <= words.len(),
            forall|j: int| 0 <= j < i ==> !contains_seq(title@, #[trigger] wv[j]),
        decreases words.len() - i,
    {
        assert(wv[i as int] == words@[i as int]@);
        if contains_str(title, words[i].as_str()) {
            return true;
        }
        i = i + 1;
    }
    false
}

/// The publication time and how it was obtained: from the date where it can
/// be read, else the collection time `now`.
pub open spec fn spec_publication(pub_date: Option<Seq<char>>, now: Timestamp) -> (
    Timestamp,
    DateStatus,
) {
    match pub_date {
        None => (now, DateStatus::Missing),
        Some(s) => match spec_pub_date(s) {
            Some(t) => (t, DateStatus::Parsed),
            None => (now, DateStatus::Unreadable),
        },
    }
}

/// `r` is what the collector does with `item`: skip it without a title, with
/// an excluded title or without a link (in that order of checks), else keep it
/// with its publication time and its description (empty where it has none).
pub open spec fn spec_item_outcome(
    item: FeedItemView,
    words: Seq<Seq<char>>,
    now: Timestamp,
    r: ItemOutcome,
) -> bool {
    match item.0 {
        None => r is MissingTitle,
        Some(t) => if spec_title_excluded(t, words) {
            r matches ItemOutcome::Excluded { title } && title@ == t
        } else {
            match item.1 {
                None => r matches ItemOutcome::MissingLink { title } && title@ == t,
                Some(l) => r matches ItemOutcome::Candidate(c) && {
                    &&& c.title@ == t
                    &&& c.link@ == l
                    &&& (c.published_at, c.date_status) == spec_publication(item.2, now)
                    &&& c.description@ == match item.3 {
                        Some(d) => d,
                        None => Seq::<char>::empty(),
                    }
                },
            }
        },
    }
}

/// No item is kept whose title contains an exclusion word or that lacks a
/// title or a link: a kept item's title is free of every exclusion word, and
/// its title and link are the item's own.
pub proof fn lemma_kept_items_pass_filters(
    item: FeedItemView,
    words: Seq<Seq<char>>,
    now: Timestamp,
    r: ItemOutcome,
)
    requires
        spec_item_outcome(item, words, now, r),
    ensures
        r matches ItemOutcome::Candidate(c) ==> {
            &&& item.0 == Some(c.title@)
            &&& item.1 == Some(c.link@)
            &&& !spec_title_excluded(c.title@, words)
        },
{
}

/// A kept item's publication time: the instant read from its date where the
/// date can be read, and the collection time `now` where it has no date or an
/// unreadable one; its description is the item's, or empty where it has none.
pub proof fn lemma_kept_item_times(
    item: FeedItemView,
    words: Seq<Seq<char>>,
    now: Timestamp,
    r: ItemOutcome,
)
    requires
        spec_item_outcome(item, words, now, r),
    ensures
        r matches ItemOutcome::Candidate(c) ==> {
            &&& item.2 is None ==> c.published_at == now && c.date_status == DateStatus::Missing
            &&& item.2 matches Some(d) ==> match spec_pub_date(d) {
                Some(t) => c.published_at == t && c.date_status == DateStatus::Parsed,
                None => c.published_at == now && c.date_status == DateStatus::Unreadable,
            }
            &&& item.3 is None ==> c.description@.len() == 0
            &&& item.3 matches Some(d) ==> c.description@ == d
        },
{
}

/// An RSS date is read exactly when one of the three readings accepts it:
/// RFC 2822 as it stands, RFC 2822 with "GMT" written as "+0000", or RFC 3339;
/// and a date that RFC 2822 accepts as it stands is read that way.
pub proof fn lemma_pub_date_readings(s: Seq<char>)
    ensures
        spec_pub_date(s) is Some == (spec_rfc2822_instant(s) is Some || spec_rfc2822_instant(
            replace_seq(s, "GMT"@, "+0000"@),
        ) is Some || spec_rfc3339_instant(s) is Some),
        spec_rfc2822_instant(s) matches Some((secs, nanos)) ==> spec_pub_date(s) == Some(
            Timestamp { secs, nanos },
        ),
{
}

fn clone_string(s: &String) -> (r: String)
    ensures
        r@ == s@,
{
    s.clone()
}

/// What the collector does with one feed item, given the exclusion words and
/// the collection time.
pub fn classify_item(item: &FeedItem, words: &Vec<String>, now: Timestamp) -> (r: ItemOutcome)
    ensures
        spec_item_outcome(item@, string_views(words@), now, r),
{
    let title = match &item.title {
        Some(t) => clone_string(t),
        None => {
            return ItemOutcome::MissingTitle;
        },
    };
    if title_excluded(title.as_str(), words) {
        return ItemOutcome::Excluded { title };
    }
    let link = match &item.link {
        Some(l) => clone_string(l),
        None => {
            return ItemOutcome::MissingLink { title };
        },
    };
    let (published_at, date_status) = match &item.pub_date {
        Some(d) => match parse_rss_pub_date(d.as_str()) {
            Some(t) => (t, DateStatus::Parsed),
            None => (now, DateStatus::Unreadable),
        },
        None => (now, DateStatus::Missing),
    };
    let description = match &item.description {
        Some(d) => clone_string(d),
        None => String::new(),
    };
    ItemOutcome::Candidate(NewsCandidate { title, link, published_at, date_status, description })
}

/// What the collector does with each of the feed's items, in order.
pub fn classify_items(items: &Vec<FeedItem>, words: &Vec<String>, now: Timestamp) -> (r: Vec<
    ItemOutcome,
>)
    ensures
        r.len() == items.len(),
        forall|i: int|
            0 <= i < items.len() ==> spec_item_outcome(
                #[trigger] items@[i]@,
                string_views(words@),
                now,
                r@[i],
            ),
{
    let mut out: Vec<ItemOutcome> = Vec::new();
    let mut i: usize = 0;
    while i < items.len()
        invariant
            i <= items.len(),
            out.len() == i,
            forall|j: int|
                0 <= j < i ==> spec_item_outcome(
                    #[trigger] items@[j]@,
                    string_views(words@),
                    now,
                    out@[j],
                ),
        decreases items.len() - i,
    {
        let o = classify_item(&items[i], words, now);
        out.push(o);
        i = i + 1;
    }
    out
}

/// Reads a fetched feed and decides for each item, in order, whether it is
/// skipped or stored; an error where the feed cannot be read.
pub fn plan_feed_items(bytes: &[u8], words: &Vec<String>, now: Timestamp) -> (r: Result<
    Vec<ItemOutcome>,
    FeedError,
>)
    ensures
        match r {
            Ok(v) => match spec_feed_items(bytes@) {
                Some(items) => v.len() == items.len() && forall|i: int|
                    0 <= i < items.len() ==> spec_item_outcome(
                        #[trigger] items[i],
                        string_views(words@),
                        now,
                        v@[i],
                    ),
                None => false,
            },
            Err(_) => spec_feed_items(bytes@) is None,
        },
{
    let items = read_feed_items(bytes)?;
    let r = classify_items(&items, words, now);
    assert forall|i: int| 0 <= i < items.len() implies item_views(items@)[i] == items@[i]@ by {}
    Ok(r)
}

} // verus!
