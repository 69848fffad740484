//! What is told of requests and answers when everything is to be told.

use vstd::prelude::*;
use vstd::string::*;

use crate::number::{decimal_text, u64_text};
use crate::text::{chars_of, text_of, trim, trimmed};

verus! {

/// The line that tells of a request, its query parameters shown as given.
pub open spec fn get_trace(url: Seq<char>, query: Seq<char>) -> Seq<char> {
    "[http] GET "@ + url + "  "@ + query + "\n"@
}

/// Tells of a request, its query parameters shown as given.
pub fn trace_get(url: &str, query: &str) -> (r: String)
    ensures
        r@ == get_trace(url@, query@),
        r@ == "[http] GET "@ + url@ + "  "@ + query@ + "\n"@,
{
    let mut out = "[http] GET ".to_owned();
    out.append(url);
    out.append("  ");
    out.append(query);
    out.append("\n");
    out
}

/// The line that tells of an upload.
pub open spec fn put_trace(url: Seq<char>, bytes: nat) -> Seq<char> {
    "[http] PUT "@ + url + "  bytes="@ + decimal_text(bytes) + "\n"@
}

/// Tells of an upload.
pub fn trace_put(url: &str, bytes: u64) -> (r: String)
    ensures
        r@ == put_trace(url@, bytes as nat),
        r@ == "[http] PUT "@ + url@ + "  bytes="@ + decimal_text(bytes as nat) + "\n"@,
{
    let mut out = "[http] PUT ".to_owned();
    out.append(url);
    out.append("  bytes=");
    out.append(u64_text(bytes).as_str());
    out.append("\n");
    out
}

/// The lines that tell of an answer: its status, and its body without white space at
/// either end.
pub open spec fn answer_trace(status: Seq<char>, body: Seq<char>) -> Seq<char> {
    "[http] "@ + status + " body: "@ + trimmed(body) + "\n"@
}

/// Tells of an answer.
pub fn trace_answer(status: &str, body: &str) -> (r: String)
    ensures
        r@ == answer_trace(status@, body@),
        r@ == "[http] "@ + status@ + " body: "@ + trimmed(body@) + "\n"@,
{
    let cs = chars_of(body);
    let mut out = "[http] ".to_owned();
    out.append(status);
    out.append(" body: ");
    out.append(text_of(trim(cs.as_slice())).as_str());
    out.append("\n");
    out
}

} // verus!
