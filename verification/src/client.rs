//! Ingestion client decisions and the interpretation of the local API's
//! responses. The HTTP requests themselves happen outside the library;
//! these functions classify their outcomes and extract their payloads from
//! plain values.

use vstd::prelude::*;
use crate::text;

verus! {

/// Whether an ingestion response counts as success: any status in the 2xx
/// range. Anything else is logged and ignored — no retry, and no effect on
/// the cache or the run state, which were already updated.
pub fn ingest_success(status: u16) -> (r: bool)
    ensures
        r == (200 <= status < 300),
{
    200 <= status && status < 300
}

/// The row limit a fetch actually uses: the requested limit capped at 500,
/// or 100 where none was given.
pub fn effective_limit(limit: Option<u32>) -> (r: u32)
    ensures
        r == match limit {
            Some(l) => if l <= 500 {
                l
            } else {
                500
            },
            None => 100u32,
        },
{
    match limit {
        Some(l) => if l <= 500 {
            l
        } else {
            500
        },
        None => 100,
    }
}

/// The mathematical value of a `TweetRow`.
pub struct TweetRowModel {
    pub id: Option<u64>,
    pub tweet_id: Option<Seq<char>>,
    pub author_handle: Option<Seq<char>>,
    pub text: Option<Seq<char>>,
    pub url: Option<Seq<char>>,
    pub posted_at: Option<Seq<char>>,
    pub inserted_at: Option<Seq<char>>,
}

/// One stored row as the local API returns it; every field may be absent.
#[derive(Debug, PartialEq, Eq)]
pub struct TweetRow {
    pub id: Option<u64>,
    pub tweet_id: Option<String>,
    pub author_handle: Option<String>,
    pub text: Option<String>,
    pub url: Option<String>,
    pub posted_at: Option<String>,
    pub inserted_at: Option<String>,
}

impl View for TweetRow {
    type V = TweetRowModel;

    open spec fn view(&self) -> TweetRowModel {
        TweetRowModel {
            id: self.id,
            tweet_id: self.tweet_id.deep_view(),
            author_handle: self.author_handle.deep_view(),
            text: self.text.deep_view(),
            url: self.url.deep_view(),
            posted_at: self.posted_at.deep_view(),
            inserted_at: self.inserted_at.deep_view(),
        }
    }
}

impl DeepView for TweetRow {
    type V = TweetRowModel;

    open spec fn deep_view(&self) -> TweetRowModel {
        self.view()
    }
}

/// What a table-listing response yields: its error on a failure status
/// (with a fixed fallback message), else its tables, else its error again.
pub open spec fn tables_outcome(
    status: u16,
    tables: Option<Seq<Seq<char>>>,
    error: Option<Seq<char>>,
) -> Result<Seq<Seq<char>>, Seq<char>> {
    if status >= 400 {
        Err(
            match error {
                Some(e) => e,
                None => "API error"@,
            },
        )
    } else {
        match tables {
            Some(t) => Ok(t),
            None => Err(
                match error {
                    Some(e) => e,
                    None => "No tables key"@,
                },
            ),
        }
    }
}

/// Extracts the table list from a table-listing response.
pub fn tables_from_response(
    status: u16,
    tables: Option<Vec<String>>,
    error: Option<String>,
) -> (r: Result<Vec<String>, String>)
    ensures
        (match (r, tables_outcome(status, tables.deep_view(), error.deep_view())) {
            (Ok(t), Ok(ts)) => t.deep_view() == ts,
            (Err(e), Err(m)) => e@ == m,
            _ => false,
        }),
{
    if status >= 400 {
        Err(
            match error {
                Some(e) => e,
                None => String::from_str("API error"),
            },
        )
    } else {
        match tables {
            Some(t) => Ok(t),
            None => Err(
                match error {
                    Some(e) => e,
                    None => String::from_str("No tables key"),
                },
            ),
        }
    }
}

/// The registered reason phrase of an HTTP status code, or a fixed marker
/// where none is registered.
pub open spec fn reason_of(status: u16) -> Seq<char> {
    if status == 100 {
        "Continue"@
    } else if status == 101 {
        "Switching Protocols"@
    } else if status == 102 {
        "Processing"@
    } else if status == 103 {
        "Early Hints"@
    } else if status == 200 {
        "OK"@
    } else if status == 201 {
        "Created"@
    } else if status == 202 {
        "Accepted"@
    } else if status == 203 {
        "Non Authoritative Information"@
    } else if status == 204 {
        "No Content"@
    } else if status == 205 {
        "Reset Content"@
    } else if status == 206 {
        "Partial Content"@
    } else if status == 207 {
        "Multi-Status"@
    } else if status == 208 {
        "Already Reported"@
    } else if status == 226 {
        "IM Used"@
    } else if status == 300 {
        "Multiple Choices"@
    } else if status == 301 {
        "Moved Permanently"@
    } else if status == 302 {
        "Found"@
    } else if status == 303 {
        "See Other"@
    } else if status == 304 {
        "Not Modified"@
    } else if status == 305 {
        "Use Proxy"@
    } else if status == 307 {
        "Temporary Redirect"@
    } else if status == 308 {
        "Permanent Redirect"@
    } else if status == 400 {
        "Bad Request"@
    } else if status == 401 {
        "Unauthorized"@
    } else if status == 402 {
        "Payment Required"@
    } else if status == 403 {
        "Forbidden"@
    } else if status == 404 {
        "Not Found"@
    } else if status == 405 {
        "Method Not Allowed"@
    } else if status == 406 {
        "Not Acceptable"@
    } else if status == 407 {
        "Proxy Authentication Required"@
    } else if status == 408 {
        "Request Timeout"@
    } else if status == 409 {
        "Conflict"@
    } else if status == 410 {
        "Gone"@
    } else if status == 411 {
        "Length Required"@
    } else if status == 412 {
        "Precondition Failed"@
    } else if status == 413 {
        "Payload Too Large"@
    } else if status == 414 {
        "URI Too Long"@
    } else if status == 415 {
        "Unsupported Media Type"@
    } else if status == 416 {
        "Range Not Satisfiable"@
    } else if status == 417 {
        "Expectation Failed"@
    } else if status == 418 {
        "I'm a teapot"@
    } else if status == 421 {
        "Misdirected Request"@
    } else if status == 422 {
        "Unprocessable Entity"@
    } else if status == 423 {
        "Locked"@
    } else if status == 424 {
        "Failed Dependency"@
    } else if status == 425 {
        "Too Early"@
    } else if status == 426 {
        "Upgrade Required"@
    } else if status == 428 {
        "Precondition Required"@
    } else if status == 429 {
        "Too Many Requests"@
    } else if status == 431 {
        "Request Header Fields Too Large"@
    } else if status == 451 {
        "Unavailable For Legal Reasons"@
    } else if status == 500 {
        "Internal Server Error"@
    } else if status == 501 {
        "Not Implemented"@
    } else if status == 502 {
        "Bad Gateway"@
    } else if status == 503 {
        "Service Unavailable"@
    } else if status == 504 {
        "Gateway Timeout"@
    } else if status == 505 {
        "HTTP Version Not Supported"@
    } else if status == 506 {
        "Variant Also Negotiates"@
    } else if status == 507 {
        "Insufficient Storage"@
    } else if status == 508 {
        "Loop Detected"@
    } else if status == 510 {
        "Not Extended"@
    } else if status == 511 {
        "Network Authentication Required"@
    } else {
        "<unknown status code>"@
    }
}

/// The reason phrase belonging to a status code.
pub fn reason_phrase(status: u16) -> (r: &'static str)
    ensures
        r@ == reason_of(status),
{
    if status == 100 {
        "Continue"
    } else if status == 101 {
        "Switching Protocols"
    } else if status == 102 {
        "Processing"
    } else if status == 103 {
        "Early Hints"
    } else if status == 200 {
        "OK"
    } else if status == 201 {
        "Created"
    } else if status == 202 {
        "Accepted"
    } else if status == 203 {
        "Non Authoritative Information"
    } else if status == 204 {
        "No Content"
    } else if status == 205 {
        "Reset Content"
    } else if status == 206 {
        "Partial Content"
    } else if status == 207 {
        "Multi-Status"
    } else if status == 208 {
        "Already Reported"
    } else if status == 226 {
        "IM Used"
    } else if status == 300 {
        "Multiple Choices"
    } else if status == 301 {
        "Moved Permanently"
    } else if status == 302 {
        "Found"
    } else if status == 303 {
        "See Other"
    } else if status == 304 {
        "Not Modified"
    } else if status == 305 {
        "Use Proxy"
    } else if status == 307 {
        "Temporary Redirect"
    } else if status == 308 {
        "Permanent Redirect"
    } else if status == 400 {
        "Bad Request"
    } else if status == 401 {
        "Unauthorized"
    } else if status == 402 {
        "Payment Required"
    } else if status == 403 {
        "Forbidden"
    } else if status == 404 {
        "Not Found"
    } else if status == 405 {
        "Method Not Allowed"
    } else if status == 406 {
        "Not Acceptable"
    } else if status == 407 {
        "Proxy Authentication Required"
    } else if status == 408 {
        "Request Timeout"
    } else if status == 409 {
        "Conflict"
    } else if status == 410 {
        "Gone"
    } else if status == 411 {
        "Length Required"
    } else if status == 412 {
        "Precondition Failed"
    } else if status == 413 {
        "Payload Too Large"
    } else if status == 414 {
        "URI Too Long"
    } else if status == 415 {
        "Unsupported Media Type"
    } else if status == 416 {
        "Range Not Satisfiable"
    } else if status == 417 {
        "Expectation Failed"
    } else if status == 418 {
        "I'm a teapot"
    } else if status == 421 {
        "Misdirected Request"
    } else if status == 422 {
        "Unprocessable Entity"
    } else if status == 423 {
        "Locked"
    } else if status == 424 {
        "Failed Dependency"
    } else if status == 425 {
        "Too Early"
    } else if status == 426 {
        "Upgrade Required"
    } else if status == 428 {
        "Precondition Required"
    } else if status == 429 {
        "Too Many Requests"
    } else if status == 431 {
        "Request Header Fields Too Large"
    } else if status == 451 {
        "Unavailable For Legal Reasons"
    } else if status == 500 {
        "Internal Server Error"
    } else if status == 501 {
        "Not Implemented"
    } else if status == 502 {
        "Bad Gateway"
    } else if status == 503 {
        "Service Unavailable"
    } else if status == 504 {
        "Gateway Timeout"
    } else if status == 505 {
        "HTTP Version Not Supported"
    } else if status == 506 {
        "Variant Also Negotiates"
    } else if status == 507 {
        "Insufficient Storage"
    } else if status == 508 {
        "Loop Detected"
    } else if status == 510 {
        "Not Extended"
    } else if status == 511 {
        "Network Authentication Required"
    } else {
        "<unknown status code>"
    }
}

/// The status line of an HTTP response code: the code in decimal, a
/// space, and its reason phrase.
pub open spec fn status_line_of(status: u16) -> Seq<char> {
    text::dec_seq(status as nat) + seq![' '] + reason_of(status)
}

/// Renders the status line of a response code.
pub fn status_line(status: u16) -> (r: String)
    ensures
        r@ == status_line_of(status),
{
    let mut v = text::dec_chars(status as u64);
    v.push(' ');
    let phrase = text::chars_of(reason_phrase(status));
    v.extend_from_slice(phrase.as_slice());
    proof {
        assert(v@ =~= status_line_of(status));
    }
    text::string_of(&v)
}

/// What a row-fetch response yields; where the API gave neither rows nor
/// an error message, the failure carries the response's status line.
pub open spec fn tweets_outcome(
    status: u16,
    tweets: Option<Seq<TweetRowModel>>,
    error: Option<Seq<char>>,
) -> Result<Seq<TweetRowModel>, Seq<char>> {
    if status >= 400 {
        Err(
            match error {
                Some(e) => e,
                None => status_line_of(status),
            },
        )
    } else {
        match tweets {
            Some(t) => Ok(t),
            None => Err(
                match error {
                    Some(e) => e,
                    None => "No tweets key"@,
                },
            ),
        }
    }
}

/// Extracts the rows from a row-fetch response.
pub fn tweets_from_response(
    status: u16,
    tweets: Option<Vec<TweetRow>>,
    error: Option<String>,
) -> (r: Result<Vec<TweetRow>, String>)
    ensures
        (match (r, tweets_outcome(status, tweets.deep_view(), error.deep_view())) {
            (Ok(t), Ok(ts)) => t.deep_view() == ts,
            (Err(e), Err(m)) => e@ == m,
            _ => false,
        }),
{
    if status >= 400 {
        Err(
            match error {
                Some(e) => e,
                None => status_line(status),
            },
        )
    } else {
        match tweets {
            Some(t) => Ok(t),
            None => Err(
                match error {
                    Some(e) => e,
                    None => String::from_str("No tweets key"),
                },
            ),
        }
    }
}

/// What a create-table response yields: its error on a failure status
/// (with a fixed fallback message), else the created table's name.
pub open spec fn create_table_outcome(
    status: u16,
    table_name: Option<Seq<char>>,
    error: Option<Seq<char>>,
) -> Result<Seq<char>, Seq<char>> {
    if status >= 400 {
        Err(
            match error {
                Some(e) => e,
                None => "Unknown error"@,
            },
        )
    } else {
        match table_name {
            Some(t) => Ok(t),
            None => Err("No table_name in response"@),
        }
    }
}

/// Extracts the created table's name from a create-table response.
pub fn create_table_from_response(
    status: u16,
    table_name: Option<String>,
    error: Option<String>,
) -> (r: Result<String, String>)
    ensures
        (match (r, create_table_outcome(status, table_name.deep_view(), error.deep_view())) {
            (Ok(t), Ok(ts)) => t@ == ts,
            (Err(e), Err(m)) => e@ == m,
            _ => false,
        }),
{
    if status >= 400 {
        Err(
            match error {
                Some(e) => e,
                None => String::from_str("Unknown error"),
            },
        )
    } else {
        match table_name {
            Some(t) => Ok(t),
            None => Err(String::from_str("No table_name in response")),
        }
    }
}

} // verus!
