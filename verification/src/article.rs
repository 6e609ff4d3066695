//! Extracting an article's sanitized body from a fetched page: the readable
//! content where it is long enough, else the page's paragraphs.
use vstd::prelude::*;

use crate::text::{byte_len, opt_view, string_views};

verus! {

/// The article HTML that legible's `parse` extracts from a page with the given
/// base URL, minimum article length and class-keeping choice; `None` where it
/// returns an error.
pub uninterp spec fn spec_readable_content(
    html: Seq<char>,
    url: Seq<char>,
    char_threshold: usize,
    keep_classes: bool,
) -> Option<Seq<char>>;

/// The HTML that ammonia's `clean` makes of its input.
pub uninterp spec fn spec_sanitized_html(html: Seq<char>) -> Seq<char>;

/// The text of every element that scraper selects with a CSS selector in a
/// parsed document, in document order; `None` where the selector does not parse.
pub uninterp spec fn spec_selected_texts(html: Seq<char>, selector: Seq<char>) -> Option<
    Seq<Seq<char>>,
>;

/// Calls legible's `parse` with options built from `char_threshold` and
/// `keep_classes` and gives the article's `content`. Claimed: the result is
/// the named value `spec_readable_content` of the arguments, `None` exactly
/// where legible returns an error.
#[verifier::external_body]
fn readable_content(html: &str, url: &str, char_threshold: usize, keep_classes: bool) -> (r:
    Option<String>)
    ensures
        opt_view(r) == spec_readable_content(html@, url@, char_threshold, keep_classes),
{
    let options = legible::Options::new().char_threshold(char_threshold).keep_classes(
        keep_classes,
    );
    match legible::parse(html, Some(url), Some(options)) {
        Ok(article) => Some(article.content),
        Err(_) => None,
    }
}

/// Calls ammonia's `clean`. Claimed: the result is the named value
/// `spec_sanitized_html` of the input.
#[verifier::external_body]
fn sanitize_html(html: &str) -> (r: String)
    ensures
        r@ == spec_sanitized_html(html@),
{
    ammonia::clean(html)
}

/// Calls scraper's `Html::parse_document`, `Selector::parse` and `select`, and
/// collects each selected element's text. Claimed: the texts are the named
/// value `spec_selected_texts` of the page and the selector, `None` exactly
/// where the selector does not parse.
#[verifier::external_body]
fn selected_texts(html: &str, selector: &str) -> (r: Option<Vec<String>>)
    ensures
        match r {
            Some(v) => spec_selected_texts(html@, selector@) == Some(
                string_views(v@),
            ),
            None => spec_selected_texts(html@, selector@) is None,
        },
{
    let document = scraper::Html::parse_document(html);
    match scraper::Selector::parse(selector) {
        Ok(sel) => Some(document.select(&sel).map(|el| el.text().collect::<String>()).collect()),
        Err(_) => None,
    }
}

/// A paragraph is kept when its text is longer than 20 bytes.
pub open spec fn paragraph_kept(t: Seq<char>) -> bool {
    byte_len(t) > 20
}

/// The kept paragraphs, in order.
pub open spec fn kept_paragraphs(texts: Seq<Seq<char>>) -> Seq<Seq<char>>
    decreases texts.len(),
{
    if texts.len() == 0 {
        Seq::empty()
    } else {
        let k = kept_paragraphs(texts.drop_last());
        if paragraph_kept(texts.last()) {
            k.push(texts.last())
        } else {
            k
        }
    }
}

/// Each paragraph wrapped in `<p>` tags, the wrapped paragraphs joined by newlines.
pub open spec fn paragraph_block(ps: Seq<Seq<char>>) -> Seq<char>
    decreases ps.len(),
{
    if ps.len() == 0 {
        Seq::empty()
    } else if ps.len() == 1 {
        "<p>"@ + ps[0] + "</p>"@
    } else {
        paragraph_block(ps.drop_last()) + "\n"@ + ("<p>"@ + ps.last() + "</p>"@)
    }
}

/// The fallback body: the kept paragraphs as HTML, or `None` where none is kept.
pub open spec fn spec_paragraph_html(texts: Seq<Seq<char>>) -> Option<Seq<char>> {
    let k = kept_paragraphs(texts);
    if k.len() == 0 {
        None
    } else {
        Some(paragraph_block(k))
    }
}

/// The article body: the sanitized readable content where legible finds more
/// than 100 bytes of it, else the sanitized kept `<p>` paragraphs, else `None`.
pub open spec fn spec_article(html: Seq<char>, url: Seq<char>) -> Option<Seq<char>> {
    let readable = spec_readable_content(html, url, 200, false);
    if readable is Some && byte_len(readable.unwrap()) > 100 {
        Some(spec_sanitized_html(readable.unwrap()))
    } else {
        match spec_selected_texts(html, "p"@) {
            None => None,
            Some(texts) => match spec_paragraph_html(texts) {
                None => None,
                Some(raw) => Some(spec_sanitized_html(raw)),
            },
        }
    }
}

/// The fallback body of a page, before sanitizing: the texts longer than 20
/// bytes, each wrapped in `<p>` tags, joined by newlines; `None` where no
/// text is that long.
pub fn paragraph_html(texts: &Vec<String>) -> (r: Option<String>)
    ensures
        opt_view(r) == spec_paragraph_html(string_views(texts@)),
{
    let ghost tv = string_views(texts@);
    let mut out = String::new();
    let mut kept: usize = 0;
    let mut i: usize = 0;
    assert(tv.take(0) =~= Seq::<Seq<char>>::empty());
    while i < texts.len()
        invariant
            tv == string_views(texts@),
            i <= texts.len(),
            kept == kept_paragraphs(tv.take(i as int)).len(),
            kept <= i,
            out@ == paragraph_block(kept_paragraphs(tv.take(i as int))),
        decreases texts.len() - i,
    {
        let t = texts[i].as_str();
        assert(tv.take(i + 1).drop_last() =~= tv.take(i as int));
        assert(tv.take(i + 1).last() == t@);
        assert(kept_paragraphs(tv.take(i + 1)) == if paragraph_kept(t@) {
            kept_paragraphs(tv.take(i as int)).push(t@)
        } else {
            kept_paragraphs(tv.take(i as int))
        });
        if t.len() > 20 {
            if kept > 0 {
                out.append("\n");
            }
            out.append("<p>");
            out.append(t);
            out.append("</p>");
            proof {
                let k = kept_paragraphs(tv.take(i as int));
                let k2 = k.push(t@);
                assert(k2.drop_last() =~= k);
                if kept == 0 {
                    assert(k2.len() == 1);
                    assert(out@ =~= "<p>"@ + k2[0] + "</p>"@);
                } else {
                    assert(out@ =~= paragraph_block(k) + "\n"@ + ("<p>"@ + k2.last() + "</p>"@));
                }
            }
            kept = kept + 1;
        }
        i = i + 1;
    }
    assert(tv.take(texts.len() as int) =~= tv);
    if kept == 0 {
        None
    } else {
        Some(out)
    }
}

/// Extracts a fetched page's article body, sanitized: legible's readable
/// content where it is longer than 100 bytes, else the page's `<p>` texts
/// longer than 20 bytes; `None` where neither gives anything.
pub fn extract_article(html: &str, url: &str) -> (r: Option<String>)
    ensures
        opt_view(r) == spec_article(html@, url@),
{
    match readable_content(html, url, 200, false) {
        Some(content) => {
            if content.as_str().len() > 100 {
                return Some(sanitize_html(content.as_str()));
            }
        },
        None => {},
    }
    match selected_texts(html, "p") {
        None => None,
        Some(texts) => match paragraph_html(&texts) {
            None => None,
            Some(raw) => Some(sanitize_html(raw.as_str())),
        },
    }
}

} // verus!
