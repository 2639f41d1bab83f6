use vstd::prelude::*;
use vstd::string::*;
use crate::util::duration::{Duration, NANOS_PER_SECOND};
use crate::util::numbers::{parse_u64, parsed_unsigned};

verus! {

/// The status with which the catalog says that too many requests came.
pub const TOO_MANY_REQUESTS: u16 = 429;

/// One of the two headers that tell how many requests a minute are allowed
/// and how many were made.
#[derive(Clone, Copy, Debug, PartialEq, Eq, Structural)]
pub enum RateLimitHeader {
    /// `X-Discogs-Ratelimit`
    Limit,
    /// `X-Discogs-Ratelimit-Used`
    Used,
}

/// Why a request is given up.
#[derive(Clone, Copy, Debug, PartialEq, Eq, Structural)]
pub enum RequestError {
    /// The catalog answered with a status that is neither success nor "too
    /// many requests".
    UnexpectedStatus(u16),
    /// The catalog said "too many requests" without the header.
    NoRequiredHeader(RateLimitHeader),
    /// The header does not hold a number, or it allows no request at all.
    InvalidHeader(RateLimitHeader),
}

/// What to do after the catalog answered a request.
#[derive(Clone, Copy, Debug, PartialEq, Eq, Structural)]
pub enum RequestStep {
    /// The answer is the one that was asked for.
    Done,
    /// Wait this long, then send the same request again.
    RetryAfter(Duration),
    /// Give the request up.
    Fail(RequestError),
}

/// Whether a status says that the request succeeded.
pub open spec fn is_success(status: u16) -> bool {
    200 <= status < 300
}

/// How long to wait, in nanoseconds, before asking again when `limit`
/// requests a minute are allowed and `used` were made: a minute for each
/// request over the limit and one more, shared out over the limit.
pub open spec fn backoff_nanos(limit: nat, used: nat) -> nat
    recommends
        limit > 0,
{
    let over = if used > limit {
        (used - limit) as nat
    } else {
        0nat
    };
    (over + 1) * 60 * NANOS_PER_SECOND as nat / limit
}

/// What to do after an answer with the given status and rate-limit headers.
pub open spec fn request_step(
    status: u16,
    rate_limit: Option<Seq<char>>,
    rate_limit_used: Option<Seq<char>>,
) -> RequestStep {
    if is_success(status) {
        RequestStep::Done
    } else if status != TOO_MANY_REQUESTS {
        RequestStep::Fail(RequestError::UnexpectedStatus(status))
    } else if rate_limit is None {
        RequestStep::Fail(RequestError::NoRequiredHeader(RateLimitHeader::Limit))
    } else if parsed_unsigned(rate_limit->Some_0, u64::MAX as nat) is None || parsed_unsigned(
        rate_limit->Some_0,
        u64::MAX as nat,
    ) == Some(0nat) {
        RequestStep::Fail(RequestError::InvalidHeader(RateLimitHeader::Limit))
    } else if rate_limit_used is None {
        RequestStep::Fail(RequestError::NoRequiredHeader(RateLimitHeader::Used))
    } else if parsed_unsigned(rate_limit_used->Some_0, u64::MAX as nat) is None {
        RequestStep::Fail(RequestError::InvalidHeader(RateLimitHeader::Used))
    } else {
        RequestStep::RetryAfter(
            Duration {
                nanos: backoff_nanos(
                    parsed_unsigned(rate_limit->Some_0, u64::MAX as nat)->Some_0,
                    parsed_unsigned(rate_limit_used->Some_0, u64::MAX as nat)->Some_0,
                ) as u128,
            },
        )
    }
}

/// How long to wait before asking again when `rate_limit` requests a minute
/// are allowed and `rate_limit_used` were made.
pub fn backoff(rate_limit: u64, rate_limit_used: u64) -> (r: Duration)
    requires
        rate_limit > 0,
    ensures
        r.nanos == backoff_nanos(rate_limit as nat, rate_limit_used as nat),
{
    let over: u128 = if rate_limit_used > rate_limit {
        (rate_limit_used - rate_limit) as u128
    } else {
        0
    };
    assert((over + 1) * 60 * NANOS_PER_SECOND <= u128::MAX) by (nonlinear_arith)
        requires
            over <= u64::MAX,
            NANOS_PER_SECOND == 1_000_000_000,
    ;
    Duration { nanos: (over + 1) * 60 * NANOS_PER_SECOND / (rate_limit as u128) }
}

/// What to do after the catalog answered a request with the given status
/// and, where it sent them, the two rate-limit headers.
pub fn after_response(status: u16, rate_limit: Option<&str>, rate_limit_used: Option<&str>) -> (r:
    RequestStep)
    ensures
        r == request_step(status, rate_limit.deep_view(), rate_limit_used.deep_view()),
{
    if status >= 200 && status < 300 {
        return RequestStep::Done;
    }
    if status != TOO_MANY_REQUESTS {
        return RequestStep::Fail(RequestError::UnexpectedStatus(status));
    }
    let limit = match rate_limit {
        None => {
            return RequestStep::Fail(RequestError::NoRequiredHeader(RateLimitHeader::Limit));
        },
        Some(text) => match parse_u64(text) {
            Some(limit) if limit > 0 => limit,
            _ => {
                return RequestStep::Fail(RequestError::InvalidHeader(RateLimitHeader::Limit));
            },
        },
    };
    let used = match rate_limit_used {
        None => {
            return RequestStep::Fail(RequestError::NoRequiredHeader(RateLimitHeader::Used));
        },
        Some(text) => match parse_u64(text) {
            Some(used) => used,
            None => {
                return RequestStep::Fail(RequestError::InvalidHeader(RateLimitHeader::Used));
            },
        },
    };
    RequestStep::RetryAfter(backoff(limit, used))
}

/// The address of the catalog's search.
pub const SEARCH_URL: &'static str = "https://api.discogs.com/database/search";

/// The address under which the catalog keeps its releases, each by its id.
pub const RELEASES_URL: &'static str = "https://api.discogs.com/releases/";

/// The name of the header that tells how many requests a minute are allowed.
pub const RATE_LIMIT_HEADER: &'static str = "X-Discogs-Ratelimit";

/// The name of the header that tells how many requests were made.
pub const RATE_LIMIT_USED_HEADER: &'static str = "X-Discogs-Ratelimit-Used";

/// The name of one of the two rate-limit headers.
pub fn header_name(header: RateLimitHeader) -> (r: &'static str)
    ensures
        r@ == match header {
            RateLimitHeader::Limit => RATE_LIMIT_HEADER@,
            RateLimitHeader::Used => RATE_LIMIT_USED_HEADER@,
        },
{
    match header {
        RateLimitHeader::Limit => RATE_LIMIT_HEADER,
        RateLimitHeader::Used => RATE_LIMIT_USED_HEADER,
    }
}

/// The address of the release with the given id.
pub fn release_url(release_id: &str) -> (r: String)
    ensures
        r@ == RELEASES_URL@ + release_id@,
{
    let mut url = RELEASES_URL.to_owned();
    url.append(release_id);
    url
}

/// What the `Authorization` header holds for the given token.
pub fn authorization(discogs_token: &str) -> (r: String)
    ensures
        r@ == "Discogs token="@ + discogs_token@,
{
    let mut value = "Discogs token=".to_owned();
    value.append(discogs_token);
    value
}

} // verus!
