//! What is asked of the channel, and how a failed request is described.
//!
//! The request itself is the caller's; these are the decisions around it.
//! A failure is described by its kind only: the messages reach a host's UI,
//! and a URL can carry a token.

use vstd::prelude::*;
use vstd::string::StringExecFns;

use crate::version::opt_view;

verus! {

/// The URL of one release of the channel, or of its current one.
pub open spec fn spec_release_url(releases_api: Seq<char>, tag: Option<Seq<char>>) -> Seq<char> {
    match tag {
        Some(t) => releases_api + "/tags/"@ + t,
        None => releases_api + "/latest"@,
    }
}

/// How a failed request is described, by the first kind that applies: a
/// timeout, a connection that could not be made, a status the channel
/// answered with (rendered by the caller), a body not in the expected shape,
/// and otherwise a plain failure.
pub open spec fn spec_failure_message(
    timed_out: bool,
    connect: bool,
    status: Option<Seq<char>>,
    decode: bool,
) -> Seq<char> {
    if timed_out {
        "the request timed out"@
    } else if connect {
        "the connection could not be established"@
    } else if status is Some {
        "the channel answered with status "@ + status->0
    } else if decode {
        "the index was not in the expected shape"@
    } else {
        "the request failed"@
    }
}

/// The URL of one release of the channel, or of its current one.
pub fn release_url(releases_api: &str, tag: Option<&str>) -> (r: String)
    ensures
        r@ == spec_release_url(releases_api@, opt_view(tag)),
{
    let mut url = releases_api.to_owned();
    match tag {
        Some(t) => {
            url.append("/tags/");
            url.append(t);
        },
        None => {
            url.append("/latest");
        },
    }
    url
}

/// How a failed request is described; see [`spec_failure_message`].
pub fn failure_message(timed_out: bool, connect: bool, status: Option<&str>, decode: bool) -> (r:
    String)
    ensures
        r@ == spec_failure_message(timed_out, connect, opt_view(status), decode),
{
    if timed_out {
        "the request timed out".to_owned()
    } else if connect {
        "the connection could not be established".to_owned()
    } else if let Some(code) = status {
        let mut message = "the channel answered with status ".to_owned();
        message.append(code);
        message
    } else if decode {
        "the index was not in the expected shape".to_owned()
    } else {
        "the request failed".to_owned()
    }
}

/// A failure's description names no address: it is one of the fixed
/// messages, or the status message carrying only the status text given.
pub proof fn lemma_failure_message_carries_only_the_status(
    timed_out: bool,
    connect: bool,
    status: Option<Seq<char>>,
    decode: bool,
)
    ensures
        (!timed_out && !connect && status is Some) ==> spec_failure_message(
            timed_out,
            connect,
            status,
            decode,
        ) == "the channel answered with status "@ + status->0,
        (timed_out || connect || status is None) ==> {
            let m = spec_failure_message(timed_out, connect, status, decode);
            ||| m == "the request timed out"@
            ||| m == "the connection could not be established"@
            ||| m == "the index was not in the expected shape"@
            ||| m == "the request failed"@
        },
{
}

} // verus!
