//! The request and response bodies of the HTTP API and the checks the
//! handlers make on them before touching the database.
use vstd::prelude::*;

use crate::auth::{STATUS_BAD_REQUEST, STATUS_FORBIDDEN, STATUS_INTERNAL_ERROR, STATUS_NOT_FOUND, STATUS_OK};
use crate::text::{str_equal, trim_seq, trim_str};

verus! {

/// An administrator's ruling on a prediction whose data could not be fetched.
#[derive(Clone, Copy, Debug, PartialEq, Eq, Structural)]
pub struct OverrideRequest {
    pub outcome: i32,
}

/// An override is refused with 403 for a caller who is not `admin`, then
/// with 400 for an outcome other than 0 or 1.
pub open spec fn spec_override_check(role: Seq<char>, outcome: i32) -> Result<(), u16> {
    if role != "admin"@ {
        Err(STATUS_FORBIDDEN)
    } else if outcome != 0 && outcome != 1 {
        Err(STATUS_BAD_REQUEST)
    } else {
        Ok(())
    }
}

/// Only an administrator may override, and only with outcome 0 or 1: any
/// other caller is refused with 403 whatever the outcome, and an
/// administrator's other outcomes with 400.
pub proof fn lemma_override_only_by_admin(role: Seq<char>, outcome: i32)
    ensures
        spec_override_check(role, outcome) is Ok == (role == "admin"@ && (outcome == 0 || outcome
            == 1)),
        role != "admin"@ ==> spec_override_check(role, outcome) == Err::<(), u16>(403),
        role == "admin"@ && outcome != 0 && outcome != 1 ==> spec_override_check(role, outcome)
            == Err::<(), u16>(400),
{
}

/// A page holds 20 items by default, the size asked for up to 100, and never
/// more than 100; the first page is the default.
pub proof fn lemma_page_sizes(p: Pagination)
    ensures
        p.page_size() <= 100,
        p.per_page is None ==> p.page_size() == 20,
        p.per_page matches Some(n) ==> p.page_size() == if n <= 100 {
            n
        } else {
            100
        },
        p.page is None ==> p.page_number() == 1,
{
}

impl OverrideRequest {
    /// Whether a caller with `role` may apply this override.
    pub fn check(&self, role: &str) -> (r: Result<(), u16>)
        ensures
            r == spec_override_check(role@, self.outcome),
    {
        if !str_equal(role, "admin") {
            return Err(STATUS_FORBIDDEN);
        }
        if self.outcome != 0 && self.outcome != 1 {
            return Err(STATUS_BAD_REQUEST);
        }
        Ok(())
    }
}

/// The answer to an override from the update's result: 200 where exactly one
/// prediction was updated, 404 where none or several were, 500 where the
/// update failed (`None`).
pub fn override_status(rows_affected: Option<u64>) -> (r: u16)
    ensures
        r == match rows_affected {
            None => STATUS_INTERNAL_ERROR,
            Some(n) => if n == 1 {
                STATUS_OK
            } else {
                STATUS_NOT_FOUND
            },
        },
{
    match rows_affected {
        None => STATUS_INTERNAL_ERROR,
        Some(n) => if n == 1 {
            STATUS_OK
        } else {
            STATUS_NOT_FOUND
        },
    }
}

/// A request to create or replace a news source.
#[derive(Clone, Debug)]
pub struct CreateSourceRequest {
    pub name: String,
    pub url: String,
    pub feed_type: String,
    pub refresh_interval_sec: Option<i32>,
    pub enabled: Option<bool>,
    pub require_keywords: Option<Vec<String>>,
    pub exclude_keywords: Option<Vec<String>>,
}

/// The column values of a source row.
#[derive(Clone, Debug)]
pub struct SourceFields {
    pub name: String,
    pub url: String,
    pub feed_type: String,
    pub refresh_interval_sec: i32,
    pub enabled: bool,
    pub require_keywords: Vec<String>,
    pub exclude_keywords: Vec<String>,
}

/// A feed type that a source may have.
pub open spec fn known_feed_type(t: Seq<char>) -> bool {
    t == "rss"@ || t == "atom"@ || t == "api"@
}

/// A new source needs a name, a URL and one of the feed types `rss`, `atom`, `api`.
pub open spec fn source_request_valid(req: CreateSourceRequest) -> bool {
    &&& req.name@.len() > 0
    &&& req.url@.len() > 0
    &&& req.feed_type@.len() > 0
    &&& known_feed_type(req.feed_type@)
}

/// The feed types a source may have are exactly `rss`, `atom` and `api`: a
/// request with a name and a URL is valid exactly when its feed type is one
/// of these three words.
pub proof fn lemma_source_feed_types(req: CreateSourceRequest)
    ensures
        source_request_valid(req) == (req.name@.len() > 0 && req.url@.len() > 0 && (req.feed_type@
            == "rss"@ || req.feed_type@ == "atom"@ || req.feed_type@ == "api"@)),
{
    reveal_strlit("rss");
    reveal_strlit("atom");
    reveal_strlit("api");
}

/// A list that is absent reads as empty.
pub open spec fn list_or_empty(l: Option<Vec<String>>) -> Seq<String> {
    match l {
        Some(v) => v@,
        None => Seq::empty(),
    }
}

fn vec_or_empty(l: Option<Vec<String>>) -> (r: Vec<String>)
    ensures
        r@ == list_or_empty(l),
{
    match l {
        Some(v) => v,
        None => Vec::new(),
    }
}

impl CreateSourceRequest {
    /// Whether a source may be created from this request; 400 otherwise.
    pub fn validate(&self) -> (r: Result<(), u16>)
        ensures
            r is Ok <==> source_request_valid(*self),
            r is Err ==> r == Err::<(), u16>(STATUS_BAD_REQUEST),
    {
        if self.name.as_str().is_empty() || self.url.as_str().is_empty()
            || self.feed_type.as_str().is_empty() {
            return Err(STATUS_BAD_REQUEST);
        }
        let t = self.feed_type.as_str();
        if !(str_equal(t, "rss") || str_equal(t, "atom") || str_equal(t, "api")) {
            return Err(STATUS_BAD_REQUEST);
        }
        Ok(())
    }

    /// The row values the request writes: a refresh interval of 300 seconds,
    /// enabled, and empty keyword lists where the request gives none.
    pub fn into_fields(self) -> (r: SourceFields)
        ensures
            r.name == self.name,
            r.url == self.url,
            r.feed_type == self.feed_type,
            r.refresh_interval_sec == match self.refresh_interval_sec {
                Some(v) => v,
                None => 300i32,
            },
            r.enabled == match self.enabled {
                Some(b) => b,
                None => true,
            },
            r.require_keywords@ == list_or_empty(self.require_keywords),
            r.exclude_keywords@ == list_or_empty(self.exclude_keywords),
    {
        SourceFields {
            name: self.name,
            url: self.url,
            feed_type: self.feed_type,
            refresh_interval_sec: match self.refresh_interval_sec {
                Some(v) => v,
                None => 300,
            },
            enabled: match self.enabled {
                Some(b) => b,
                None => true,
            },
            require_keywords: vec_or_empty(self.require_keywords),
            exclude_keywords: vec_or_empty(self.exclude_keywords),
        }
    }
}

/// A source as the API lists it.
#[derive(Clone, Debug)]
pub struct SourceItem {
    pub id: i32,
    pub name: String,
    pub url: String,
    pub feed_type: String,
    pub refresh_interval_sec: i32,
    pub enabled: bool,
    pub require_keywords: Vec<String>,
    pub exclude_keywords: Vec<String>,
}

impl SourceItem {
    /// A source row as the API lists it: a missing refresh interval reads as
    /// 300 seconds, a missing flag as enabled, a missing list as empty.
    pub fn from_row(
        id: i32,
        name: String,
        url: String,
        feed_type: String,
        refresh_interval_sec: Option<i32>,
        enabled: Option<bool>,
        require_keywords: Option<Vec<String>>,
        exclude_keywords: Option<Vec<String>>,
    ) -> (r: SourceItem)
        ensures
            r.id == id,
            r.name == name,
            r.url == url,
            r.feed_type == feed_type,
            r.refresh_interval_sec == match refresh_interval_sec {
                Some(v) => v,
                None => 300i32,
            },
            r.enabled == match enabled {
                Some(b) => b,
                None => true,
            },
            r.require_keywords@ == list_or_empty(require_keywords),
            r.exclude_keywords@ == list_or_empty(exclude_keywords),
    {
        SourceItem {
            id,
            name,
            url,
            feed_type,
            refresh_interval_sec: match refresh_interval_sec {
                Some(v) => v,
                None => 300,
            },
            enabled: match enabled {
                Some(b) => b,
                None => true,
            },
            require_keywords: vec_or_empty(require_keywords),
            exclude_keywords: vec_or_empty(exclude_keywords),
        }
    }
}

/// The page of the news list a request asks for.
#[derive(Clone, Copy, Debug, PartialEq, Eq, Structural)]
pub struct Pagination {
    pub page: Option<u32>,
    pub per_page: Option<u32>,
}

impl Pagination {
    /// The requested page, 1 by default.
    pub open spec fn page_number(self) -> u32 {
        match self.page {
            Some(p) => p,
            None => 1u32,
        }
    }

    /// The page size: 20 by default, at most 100.
    pub open spec fn page_size(self) -> u32 {
        let asked = match self.per_page {
            Some(n) => n,
            None => 20u32,
        };
        if asked < 100 {
            asked
        } else {
            100u32
        }
    }

    /// The pages the list can serve: page 0 has no offset, and the offset of
    /// the page must fit in `u32`.
    pub open spec fn servable(self) -> bool {
        self.page_number() >= 1 && (self.page_number() - 1) * self.page_size() <= u32::MAX
    }

    /// The `LIMIT` and `OFFSET` of the page, as the `i32` values the query
    /// takes (the offset reinterpreted as `i32`, as `as i32` does).
    pub fn limit_offset(&self) -> (r: (i32, i32))
        requires
            self.servable(),
        ensures
            r.0 == self.page_size() as i32,
            r.1 == (((self.page_number() - 1) * self.page_size()) as u32) as i32,
    {
        let page: u32 = match self.page {
            Some(p) => p,
            None => 1,
        };
        let asked: u32 = match self.per_page {
            Some(n) => n,
            None => 20,
        };
        let per_page: u32 = if asked < 100 {
            asked
        } else {
            100
        };
        let offset: u32 = (page - 1) * per_page;
        (per_page as i32, offset as i32)
    }
}

/// The lesson a user writes after a confident prediction went wrong.
#[derive(Clone, Debug)]
pub struct PostMortemRequest {
    pub post_mortem: String,
}

impl PostMortemRequest {
    /// A post-mortem needs some text besides whitespace; 400 otherwise.
    pub fn validate(&self) -> (r: Result<(), u16>)
        ensures
            r == if trim_seq(self.post_mortem@).len() == 0 {
                Err::<(), u16>(STATUS_BAD_REQUEST)
            } else {
                Ok(())
            },
    {
        if trim_str(self.post_mortem.as_str()).is_empty() {
            Err(STATUS_BAD_REQUEST)
        } else {
            Ok(())
        }
    }
}

/// The answer to a submitted prediction.
#[derive(Clone, Copy, Debug)]
pub struct PredictionResponse {
    pub id: i32,
    pub message: &'static str,
}

/// The message that confirms a submitted prediction.
pub const SUBMITTED_MESSAGE: &'static str = "预测提交成功！";

impl PredictionResponse {
    /// The answer to the prediction stored under `id`.
    pub fn submitted(id: i32) -> (r: PredictionResponse)
        ensures
            r.id == id,
            r.message@ == SUBMITTED_MESSAGE@,
    {
        PredictionResponse { id, message: SUBMITTED_MESSAGE }
    }
}

/// A prediction must target a day after today (days numbered from 1 January
/// of year 1); 400 otherwise.
pub fn check_target_date(target_day: i32, today: i32) -> (r: Result<(), u16>)
    ensures
        r == if target_day <= today {
            Err::<(), u16>(STATUS_BAD_REQUEST)
        } else {
            Ok(())
        },
{
    if target_day <= today {
        Err(STATUS_BAD_REQUEST)
    } else {
        Ok(())
    }
}

} // verus!
