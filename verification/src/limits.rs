//! What a provider says of the limits of an account, read from the
//! headers of its answer.

use vstd::prelude::*;
use vstd::string::StringExecFns;
use crate::strings::{chars_of, starts_with_str, str_eq, string_of_range, text_opt, texts};

verus! {

/// What a list of headers says: each name with its value, or with `None`
/// for a value that is no text.
pub open spec fn headers_of(v: Seq<(String, Option<String>)>) -> Seq<(Seq<char>, Option<Seq<char>>)> {
    v.map_values(|h: (String, Option<String>)| (h.0@, text_opt(h.1)))
}

/// The value of the first header from position `from` on that is called
/// `name`; `-` if there is none or its value is no text.
pub open spec fn header_from(
    headers: Seq<(Seq<char>, Option<Seq<char>>)>,
    name: Seq<char>,
    from: int,
) -> Seq<char>
    decreases headers.len() - from,
{
    if from < 0 || from >= headers.len() {
        "-"@
    } else if headers[from].0 == name {
        match headers[from].1 {
            Some(v) => v,
            None => "-"@,
        }
    } else {
        header_from(headers, name, from + 1)
    }
}

fn header(headers: &[(String, Option<String>)], name: &str) -> (r: String)
    ensures
        r@ == header_from(headers_of(headers@), name@, 0),
{
    let mut i: usize = 0;
    while i < headers.len()
        invariant
            i <= headers.len(),
            header_from(headers_of(headers@), name@, 0) == header_from(
                headers_of(headers@),
                name@,
                i as int,
            ),
        decreases headers.len() - i,
    {
        assert(headers_of(headers@)[i as int] == (
            headers@[i as int].0@,
            text_opt(headers@[i as int].1),
        ));
        if str_eq(headers[i].0.as_str(), name) {
            return match &headers[i].1 {
                Some(v) => v.clone(),
                None => String::from_str("-"),
            };
        }
        i += 1;
    }
    String::from_str("-")
}

/// `n` spaces.
pub open spec fn spaces(n: int) -> Seq<char> {
    Seq::new(
        if n > 0 {
            n as nat
        } else {
            0
        },
        |i: int| ' ',
    )
}

/// The width to which the names of headers are filled up.
pub const NAME_WIDTH: usize = 28;

/// How a header of limits is shown: its name, filled up with spaces on
/// the left to `NAME_WIDTH` characters, a colon and its value.
pub open spec fn limit_entry(name: Seq<char>, value: Seq<char>) -> Seq<char> {
    spaces(NAME_WIDTH - name.len()) + name + ": "@ + value
}

/// The headers of limits among the first `n`: those whose name begins
/// with `x-ratelimit-` and whose value is text.
pub open spec fn limits_upto(headers: Seq<(Seq<char>, Option<Seq<char>>)>, n: int) -> Seq<Seq<char>>
    decreases n,
{
    if n <= 0 {
        Seq::empty()
    } else {
        let prev = limits_upto(headers, n - 1);
        let h = headers[n - 1];
        if "x-ratelimit-"@.is_prefix_of(h.0) && h.1 is Some {
            prev.push(limit_entry(h.0, h.1->0))
        } else {
            prev
        }
    }
}

/// The line that sums up one kind of limit.
pub open spec fn limit_summary(
    label: Seq<char>,
    remaining: Seq<char>,
    limit: Seq<char>,
    reset: Seq<char>,
) -> Seq<char> {
    label + "remaining="@ + remaining + " / limit="@ + limit + ", reset_in="@ + reset
}

/// What is shown of the limits of an account: a line for requests, a line
/// for tokens, and then every header of limits.
pub open spec fn rate_limits_of(headers: Seq<(Seq<char>, Option<Seq<char>>)>) -> Seq<Seq<char>> {
    seq![
        limit_summary(
            "Requests: "@,
            header_from(headers, "x-ratelimit-remaining-requests"@, 0),
            header_from(headers, "x-ratelimit-limit-requests"@, 0),
            header_from(headers, "x-ratelimit-reset-requests"@, 0),
        ),
        limit_summary(
            "Tokens:   "@,
            header_from(headers, "x-ratelimit-remaining-tokens"@, 0),
            header_from(headers, "x-ratelimit-limit-tokens"@, 0),
            header_from(headers, "x-ratelimit-reset-tokens"@, 0),
        ),
    ] + limits_upto(headers, headers.len() as int)
}

fn summary_line(label: &str, remaining: &str, limit: &str, reset: &str) -> (r: String)
    ensures
        r@ == limit_summary(label@, remaining@, limit@, reset@),
{
    let mut r = String::from_str(label);
    r.append("remaining=");
    r.append(remaining);
    r.append(" / limit=");
    r.append(limit);
    r.append(", reset_in=");
    r.append(reset);
    r
}

/// Shows the limits of an account as the headers of an answer give them.
pub fn rate_limits(headers: &[(String, Option<String>)]) -> (out: Vec<String>)
    ensures
        texts(out@) == rate_limits_of(headers_of(headers@)),
{
    let ghost hs = headers_of(headers@);
    let mut out: Vec<String> = Vec::new();
    out.push(
        summary_line(
            "Requests: ",
            header(headers, "x-ratelimit-remaining-requests").as_str(),
            header(headers, "x-ratelimit-limit-requests").as_str(),
            header(headers, "x-ratelimit-reset-requests").as_str(),
        ),
    );
    out.push(
        summary_line(
            "Tokens:   ",
            header(headers, "x-ratelimit-remaining-tokens").as_str(),
            header(headers, "x-ratelimit-limit-tokens").as_str(),
            header(headers, "x-ratelimit-reset-tokens").as_str(),
        ),
    );
    let ghost head = texts(out@);
    assert(head =~= rate_limits_of(hs).take(2));
    let mut i: usize = 0;
    assert(texts(out@) =~= head + limits_upto(hs, 0));
    while i < headers.len()
        invariant
            i <= headers.len(),
            hs == headers_of(headers@),
            texts(out@) == head + limits_upto(hs, i as int),
        decreases headers.len() - i,
    {
        assert(hs[i as int] == (headers@[i as int].0@, text_opt(headers@[i as int].1)));
        let name = chars_of(headers[i].0.as_str());
        if starts_with_str(name.as_slice(), "x-ratelimit-") {
            match &headers[i].1 {
                Some(v) => {
                    let mut e = String::new();
                    let mut k: usize = name.len();
                    while k < NAME_WIDTH
                        invariant
                            name@.len() <= k <= NAME_WIDTH || (k == name@.len() && k > NAME_WIDTH),
                            e@ =~= spaces(k - name@.len()),
                        decreases NAME_WIDTH - k,
                    {
                        e.push(' ');
                        k += 1;
                    }
                    assert(e@ =~= spaces(NAME_WIDTH - name@.len()));
                    e.append(headers[i].0.as_str());
                    e.append(": ");
                    e.append(v.as_str());
                    let ghost before = out@;
                    out.push(e);
                    assert(texts(out@) =~= texts(before).push(limit_entry(hs[i as int].0, v@)));
                },
                None => {},
            }
        }
        i += 1;
    }
    out
}

/// The position behind the last character of `s[..upto]` that is no `/`.
pub open spec fn slashes_start(s: Seq<char>, upto: int) -> int
    decreases upto,
{
    if upto <= 0 {
        0
    } else if s[upto - 1] == '/' {
        slashes_start(s, upto - 1)
    } else {
        upto
    }
}

/// The address under which a provider lists its models: the base
/// address without the slashes at its end, then `/models`.
pub open spec fn models_url_of(api_base: Seq<char>) -> Seq<char> {
    api_base.take(slashes_start(api_base, api_base.len() as int)) + "/models"@
}

/// The address under which the provider at `api_base` lists its models.
pub fn models_url(api_base: &str) -> (r: String)
    ensures
        r@ == models_url_of(api_base@),
{
    let c = chars_of(api_base);
    let mut to: usize = c.len();
    while to > 0 && c[to - 1] == '/'
        invariant
            to <= c.len(),
            slashes_start(c@, c@.len() as int) == slashes_start(c@, to as int),
        decreases to,
    {
        to -= 1;
    }
    let mut r = string_of_range(c.as_slice(), 0, to);
    r.append("/models");
    r
}

} // verus!
