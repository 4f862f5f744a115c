//! Posting a bundle to a running board: what is said before, and what is made of
//! the board's answer.

use vstd::prelude::*;

use crate::numbers::{characters, white_space};
use crate::text::{push_decimal_text, push_text, to_text};

verus! {

/// A text without the white space at its end.
pub open spec fn trimmed_end(text: Seq<char>) -> Seq<char>
    decreases text.len(),
{
    if text.len() > 0 && crate::numbers::is_white_space(text.last()) {
        trimmed_end(text.drop_last())
    } else {
        text
    }
}

/// The name of what `serde_json` makes of a text: nothing if it is not JSON, and
/// otherwise the same JSON over several lines, if that could be written.
pub uninterp spec fn pretty_json(text: Seq<char>) -> Option<Option<Seq<char>>>;

/// `serde_json::from_str`, read as a [`serde_json::Value`], and
/// `serde_json::to_string_pretty` of that value. Whether the text is JSON, and
/// how it is written again, depends on the text alone and is named
/// [`pretty_json`].
#[verifier::external_body]
fn pretty(text: &str) -> (res: Option<Option<String>>)
    ensures
        made_pretty(res) == pretty_json(text@),
{
    match serde_json::from_str::<serde_json::Value>(text) {
        Ok(json) => Some(serde_json::to_string_pretty(&json).ok()),
        Err(_) => None,
    }
}

/// The value of what was made of a text.
pub open spec fn made_pretty(pretty: Option<Option<String>>) -> Option<Option<Seq<char>>> {
    match pretty {
        Some(Some(text)) => Some(Some(text@)),
        Some(None) => Some(None),
        None => None,
    }
}

/// What is printed of an answer: JSON over several lines, and anything else as
/// it came, without the white space at its end. Nothing if the JSON could not be
/// written.
pub open spec fn shown(body: Seq<char>, pretty: Option<Option<Seq<char>>>) -> Option<Seq<char>> {
    match pretty {
        Some(text) => text,
        None => Some(trimmed_end(body)),
    }
}

/// A text without the white space at its end.
pub fn trim_end(text: &str) -> (res: &str)
    ensures
        res@ == trimmed_end(text@),
{
    let all = characters(text);
    let mut end: usize = all.len();
    proof {
        assert(all@.take(end as int) =~= all@);
    }
    while end > 0 && white_space(all[end - 1])
        invariant
            end <= all@.len(),
            trimmed_end(all@) == trimmed_end(all@.take(end as int)),
        decreases end,
    {
        proof {
            assert(all@.take(end as int).last() == all@[end - 1]);
            assert(all@.take(end as int).drop_last() =~= all@.take(end - 1));
        }
        end -= 1;
    }
    proof {
        if end > 0 {
            assert(all@.take(end as int).last() == all@[end - 1]);
        }
        assert(text@.subrange(0, end as int) =~= all@.take(end as int));
    }
    text.substring_char(0, end)
}

/// What is printed of an answer, by what was made of it.
pub fn show(body: &str, pretty: Option<Option<String>>) -> (res: Option<String>)
    ensures
        match res {
            Some(text) => shown(body@, made_pretty(pretty)) == Some(text@),
            None => shown(body@, made_pretty(pretty)) is None,
        },
{
    match pretty {
        Some(text) => text,
        None => Some(trim_end(body).to_owned()),
    }
}

/// What is printed of a board's answer.
pub fn reply_text(body: &str) -> (res: Option<String>)
    ensures
        match res {
            Some(text) => shown(body@, pretty_json(body@)) == Some(text@),
            None => shown(body@, pretty_json(body@)) is None,
        },
{
    show(body, pretty(body))
}

/// Whether an HTTP status says that a request was done.
pub open spec fn is_success(status: u16) -> bool {
    200 <= status < 300
}

/// A status says that a request was done exactly from 200 to 299.
pub proof fn which_statuses_are_a_success(status: u16)
    ensures
        is_success(status) <==> 200 <= status <= 299,
{
}

/// What a board answers an install that failed with is never a success: 400 for a
/// bundle that it refused, and 500 where the card failed it.
pub proof fn a_failed_install_is_no_success<E>(error: crate::apply::Error<E>, status: u16)
    requires
        status == if error is Bundle {
            400u16
        } else {
            500u16
        },
    ensures
        !is_success(status),
{
}

/// What is cut off the end of a text is white space, and all of it.
pub proof fn what_is_cut_off_is_white_space(text: Seq<char>)
    ensures
        ({
            let kept = trimmed_end(text);
            &&& kept.len() <= text.len()
            &&& text.take(kept.len() as int) == kept
            &&& forall|i: int|
                kept.len() <= i < text.len() ==> crate::numbers::is_white_space(#[trigger] text[i])
            &&& kept.len() > 0 ==> !crate::numbers::is_white_space(kept.last())
        }),
    decreases text.len(),
{
    if text.len() > 0 && crate::numbers::is_white_space(text.last()) {
        let fewer = text.drop_last();
        what_is_cut_off_is_white_space(fewer);
        let kept = trimmed_end(text);
        assert(text.take(kept.len() as int) =~= fewer.take(kept.len() as int));
        assert forall|i: int| kept.len() <= i < text.len() implies crate::numbers::is_white_space(
            #[trigger] text[i],
        ) by {
            if i < text.len() - 1 {
                assert(fewer[i] == text[i]);
            }
        }
    } else {
        assert(text.take(text.len() as int) =~= text);
    }
}

/// What is shown of an answer: its JSON laid out where it is JSON, and the answer
/// itself, but for white space at the end, where it is not.
pub proof fn what_is_shown_of_an_answer(body: Seq<char>, json: Seq<char>)
    ensures
        shown(body, Some(Some(json))) == Some(json),
        shown(body, Some(None)) == None::<Seq<char>>,
        shown(body, None) == Some(trimmed_end(body)),
{
}

/// Why an upload failed that the board did not accept.
pub open spec fn rejection(status: Seq<u8>) -> Seq<u8> {
    vstd::utf8::encode_utf8("the board rejected the bundle ("@) + status + vstd::utf8::encode_utf8(
        ")"@,
    )
}

/// Judges a board's answer by its HTTP status, which is also given in words.
pub fn verdict(status: u16, in_words: &str) -> (res: Result<(), String>)
    ensures
        res is Ok <==> 200 <= status <= 299,
        match res {
            Ok(_) => is_success(status),
            Err(text) => !is_success(status) && vstd::utf8::encode_utf8(text@) == rejection(
                vstd::utf8::encode_utf8(in_words@),
            ),
        },
        res matches Err(text) ==> vstd::utf8::encode_utf8(text@) == vstd::utf8::encode_utf8(
            "the board rejected the bundle ("@,
        ) + vstd::utf8::encode_utf8(in_words@) + vstd::utf8::encode_utf8(")"@),
{
    if 200 <= status && status < 300 {
        return Ok(());
    }
    let mut out: Vec<u8> = Vec::new();
    push_text(&mut out, "the board rejected the bundle (");
    push_text(&mut out, in_words);
    push_text(&mut out, ")");
    Err(to_text(&out))
}

/// What is printed before a bundle is posted.
pub fn upload_line(len: usize, url: &str) -> (res: String)
    ensures
        vstd::utf8::encode_utf8(res@) == vstd::utf8::encode_utf8("uploading "@)
            + crate::text::decimal(len as nat) + vstd::utf8::encode_utf8(" bytes to "@)
            + vstd::utf8::encode_utf8(url@),
{
    let mut out: Vec<u8> = Vec::new();
    push_text(&mut out, "uploading ");
    push_decimal_text(&mut out, len as u64);
    push_text(&mut out, " bytes to ");
    push_text(&mut out, url);
    to_text(&out)
}

} // verus!
