//! Looking for subtitles online: the requests to send, and what the answers
//! say.

use crate::json::{
    Json, element, element_of, int_in, int_of, json_of, member, member_of, parse_json, seen,
    text_in, text_of,
};
use crate::number::{decimal_int, law_signed_reads_back, parse_signed, write_int};
use crate::text::{
    from_chars, is_blank, push_all, push_text, split_once, starts_with, to_chars, trim,
};
use crate::text_facts::lemma_cut_at_first;
use vstd::prelude::*;
use vstd::utf8::encode_utf8;

verus! {

/// The service's address.
pub const API: &'static str = "https://api.opensubtitles.com/api/v1";

/// How the player presents itself to the service.
pub const UA: &'static str = "oxiplay v0.1.0";

/// A request to the service.
#[derive(Debug, PartialEq)]
pub enum Request {
    /// Search with this URL.
    Search { url: String },
    /// Ask at this URL for a download, with this body.
    Download { url: String, body: String },
    /// Fetch the subtitles at this URL.
    Fetch { url: String },
}

// ---- Encoding --------------------------------------------------------------

/// The upper-case hexadecimal digit for `d`, which is below sixteen.
pub open spec fn hex_char(d: int) -> char {
    if d < 10 {
        ('0' as u32 + d) as char
    } else {
        ('A' as u32 + d - 10) as char
    }
}

/// Whether a byte stands for itself in a query.
pub open spec fn is_plain(b: u8) -> bool {
    ||| 0x41 <= b <= 0x5a
    ||| 0x61 <= b <= 0x7a
    ||| 0x30 <= b <= 0x39
    ||| b == 0x2d
    ||| b == 0x5f
    ||| b == 0x2e
    ||| b == 0x7e
}

/// A byte as it is written in a query: spaces as plus signs, other bytes that
/// do not stand for themselves in hexadecimal.
pub open spec fn encoded_byte(b: u8) -> Seq<char> {
    if b == 0x20 {
        seq!['+']
    } else if is_plain(b) {
        seq![b as char]
    } else {
        seq!['%', hex_char(b as int / 16), hex_char(b as int % 16)]
    }
}

/// Bytes as they are written in a query.
pub open spec fn encoded(bytes: Seq<u8>) -> Seq<char>
    decreases bytes.len(),
{
    if bytes.len() == 0 {
        seq![]
    } else {
        encoded(bytes.drop_last()) + encoded_byte(bytes.last())
    }
}

/// The upper-case hexadecimal digit for `d`.
fn hex_digit(d: u8) -> (c: char)
    requires
        d < 16,
    ensures
        c == hex_char(d as int),
{
    if d < 10 {
        (0x30 + d) as char
    } else {
        (0x41 + (d - 10)) as char
    }
}

/// A text as it is written in a query.
pub fn urlencode(s: &str) -> (r: String)
    ensures
        r@ == encoded(encode_utf8(s@)),
{
    let bytes = s.as_bytes();
    let mut out: Vec<char> = Vec::new();
    let mut i: usize = 0;
    while i < bytes.len()
        invariant
            i <= bytes@.len(),
            out@ == encoded(bytes@.take(i as int)),
        decreases bytes@.len() - i,
    {
        let b: u8 = bytes[i];
        let ghost before = out@;
        assert(bytes@.take(i + 1).drop_last() == bytes@.take(i as int));
        if b == 0x20 {
            out.push('+');
        } else if (0x41 <= b && b <= 0x5a) || (0x61 <= b && b <= 0x7a) || (0x30 <= b && b <= 0x39)
            || b == 0x2d || b == 0x5f || b == 0x2e || b == 0x7e {
            out.push(b as char);
        } else {
            out.push('%');
            out.push(hex_digit(b / 16));
            out.push(hex_digit(b % 16));
        }
        assert(out@ =~= before + encoded_byte(b));
        i = i + 1;
    }
    assert(bytes@.take(bytes@.len() as int) == bytes@);
    from_chars(&out)
}

// ---- Requests --------------------------------------------------------------

/// The URL to search a title with.
pub open spec fn search_url(query: Seq<char>, language: Seq<char>) -> Seq<char> {
    API@ + "/subtitles?query="@ + encoded(encode_utf8(query)) + "&languages="@ + language
}

/// The first request to find the subtitles of a title; none without a key. The
/// answers are read by [`after_search`] and [`after_download`].
pub fn find(query: &str, language: &str, api_key: &str) -> (r: Option<Request>)
    ensures
        r matches Some(request) ==> request matches Request::Search { url } && url@ == search_url(
            query@,
            language@,
        ),
        r is None <==> trim(api_key@).len() == 0,
{
    let key = to_chars(api_key);
    if is_blank(&key) {
        return None;
    }
    let mut out = to_chars(API);
    push_text(&mut out, "/subtitles?query=");
    push_text(&mut out, urlencode(query).as_str());
    push_text(&mut out, "&languages=");
    push_text(&mut out, language);
    Some(Request::Search { url: from_chars(&out) })
}

/// The body of a download request.
pub open spec fn download_body(file_id: int) -> Seq<char> {
    "{\"file_id\":"@ + decimal_int(file_id) + "}"@
}

/// The request for the download of a file.
pub fn download_request(file_id: i64) -> (r: Request)
    ensures
        r matches Request::Download { url, body } && url@ == API@ + "/download"@ && body@
            == download_body(file_id as int),
{
    let mut url = to_chars(API);
    push_text(&mut url, "/download");
    let mut body = to_chars("{\"file_id\":");
    let digits = write_int(file_id);
    push_all(&mut body, &digits);
    push_text(&mut body, "}");
    Request::Download { url: from_chars(&url), body: from_chars(&body) }
}

// ---- Answers ---------------------------------------------------------------

/// The file of the best result of a search.
pub open spec fn top_file_id(v: Option<Json>) -> Option<i64> {
    let files = member(member(element(member(v, "data"@), 0), "attributes"@), "files"@);
    int_of(member(element(files, 0), "file_id"@))
}

/// The link that a download request is answered with.
pub open spec fn link_text(v: Option<Json>) -> Option<Seq<char>> {
    text_of(member(v, "link"@))
}

/// The file of the best result of a search, which was read as a document.
pub fn top_file_in(v: Option<&serde_json::Value>) -> (r: Option<i64>)
    ensures
        r == top_file_id(seen(v)),
{
    let first = element_of(member_of(v, "data"), 0);
    let files = member_of(member_of(first, "attributes"), "files");
    int_in(member_of(element_of(files, 0), "file_id"))
}

/// The link in the answer to a download request, which was read as a document.
pub fn link_in(v: Option<&serde_json::Value>) -> (r: Option<String>)
    ensures
        r matches Some(link) ==> link_text(seen(v)) == Some(link@),
        r is None ==> link_text(seen(v)) is None,
{
    match text_in(member_of(v, "link")) {
        Some(link) => Some(link.to_owned()),
        None => None,
    }
}

/// The file of the best result of a search.
pub fn parse_top_file_id(json: &str) -> (r: Option<i64>)
    ensures
        r == top_file_id(json_of(json@)),
{
    let v = parse_json(json);
    top_file_in(v.as_ref())
}

/// The link in the answer to a download request.
pub fn parse_download_link(json: &str) -> (r: Option<String>)
    ensures
        r matches Some(link) ==> link_text(json_of(json@)) == Some(link@),
        r is None ==> link_text(json_of(json@)) is None,
{
    let v = parse_json(json);
    link_in(v.as_ref())
}

/// The request that follows the answer to a search; none where it failed or
/// found nothing.
pub fn after_search(answer: Option<&str>) -> (r: Option<Request>)
    ensures
        r matches Some(request) ==> answer matches Some(json) && top_file_id(json_of(json@))
            matches Some(id) && request matches Request::Download { url, body } && url@ == API@
            + "/download"@ && body@ == download_body(id as int),
        r is None <==> answer is None || top_file_id(json_of(answer->0@)) is None,
{
    match answer {
        Some(json) => match parse_top_file_id(json) {
            Some(id) => Some(download_request(id)),
            None => None,
        },
        None => None,
    }
}

/// The request that follows the answer to a download request; none where it
/// failed or gave no link.
pub fn after_download(answer: Option<&str>) -> (r: Option<Request>)
    ensures
        r matches Some(request) ==> answer matches Some(json) && request matches Request::Fetch {
            url,
        } && link_text(json_of(json@)) == Some(url@),
        r is None <==> answer is None || link_text(json_of(answer->0@)) is None,
{
    match answer {
        Some(json) => match parse_download_link(json) {
            Some(url) => Some(Request::Fetch { url }),
            None => None,
        },
        None => None,
    }
}

/// Whether a character may stand in an encoded text.
pub open spec fn is_query_char(c: char) -> bool {
    c == '+' || c == '%' || ((c as u32) < 0x80 && is_plain(c as u8))
}

/// An encoded text holds nothing that means something in a URL but the plus and
/// the percent sign.
pub proof fn law_encoded_text_is_plain(bytes: Seq<u8>, i: int)
    requires
        0 <= i < encoded(bytes).len(),
    ensures
        is_query_char(encoded(bytes)[i]),
    decreases bytes.len(),
{
    let before = encoded(bytes.drop_last());
    if i < before.len() {
        law_encoded_text_is_plain(bytes.drop_last(), i);
    }
}

// ---- Laws ------------------------------------------------------------------

/// The value of an upper-case hexadecimal digit.
pub open spec fn hex_value(c: char) -> int {
    if '0' as u32 <= c as u32 <= '9' as u32 {
        c as u32 - '0' as u32
    } else {
        c as u32 - 'A' as u32 + 10
    }
}

/// The bytes that a server reads from a query: a plus sign is a space, and two
/// hexadecimal digits behind a percent sign are a byte.
pub open spec fn query_bytes(s: Seq<char>) -> Seq<u8>
    decreases s.len(),
{
    if s.len() == 0 {
        seq![]
    } else if s[0] == '+' {
        seq![0x20u8] + query_bytes(s.skip(1))
    } else if s[0] == '%' && s.len() >= 3 {
        seq![(hex_value(s[1]) * 16 + hex_value(s[2])) as u8] + query_bytes(s.skip(3))
    } else {
        seq![s[0] as u8] + query_bytes(s.skip(1))
    }
}

proof fn lemma_encoded_from_front(bytes: Seq<u8>)
    requires
        bytes.len() > 0,
    ensures
        encoded(bytes) == encoded_byte(bytes[0]) + encoded(bytes.skip(1)),
    decreases bytes.len(),
{
    let rest = bytes.skip(1);
    if bytes.len() == 1 {
        assert(bytes.drop_last() == Seq::<u8>::empty());
        assert(rest == Seq::<u8>::empty());
        assert(encoded(Seq::<u8>::empty()) == Seq::<char>::empty());
        assert(encoded(bytes) == encoded_byte(bytes[0]));
    } else {
        lemma_encoded_from_front(bytes.drop_last());
        assert(bytes.drop_last().skip(1) == rest.drop_last());
        assert(rest.last() == bytes.last());
        assert(encoded(rest) == encoded(rest.drop_last()) + encoded_byte(bytes.last()));
        assert(encoded(bytes) == encoded_byte(bytes[0]) + (encoded(rest.drop_last())
            + encoded_byte(bytes.last())));
    }
}

/// A server reads from an encoded text the bytes that were encoded.
pub proof fn law_encoded_bytes_are_read_back(bytes: Seq<u8>)
    ensures
        query_bytes(encoded(bytes)) == bytes,
    decreases bytes.len(),
{
    if bytes.len() > 0 {
        let b = bytes[0];
        let rest = bytes.skip(1);
        lemma_encoded_from_front(bytes);
        law_encoded_bytes_are_read_back(rest);
        let s = encoded(bytes);
        let tail = encoded(rest);
        if b == 0x20 || is_plain(b) {
            assert(s.skip(1) == tail);
            assert(s[0] == encoded_byte(b)[0]);
            assert(query_bytes(s) == seq![b] + query_bytes(tail));
        } else {
            let (high, low) = (b as int / 16, b as int % 16);
            assert(s.skip(3) == tail);
            assert(s[0] == '%' && s[1] == hex_char(high) && s[2] == hex_char(low));
            assert(hex_value(hex_char(high)) == high);
            assert(hex_value(hex_char(low)) == low);
            assert(query_bytes(s) == seq![b] + query_bytes(tail));
        }
        assert(seq![b] + rest == bytes);
    } else {
        assert(encoded(bytes) == Seq::<char>::empty());
    }
}

/// Nothing that separates the parts of a URL stands in an encoded text, nor any
/// character beyond ASCII; letters and digits stand for themselves.
pub proof fn law_encoded_text_separates_nothing(bytes: Seq<u8>, i: int, b: u8)
    requires
        0 <= i < encoded(bytes).len(),
    ensures
        ({
            let c = encoded(bytes)[i];
            &&& c != '&' && c != '=' && c != '#' && c != '?' && c != '/' && c != ' ' && c != ':'
            &&& (c as u32) < 0x80
        }),
        'a' as u32 <= b <= 'z' as u32 || '0' as u32 <= b <= '9' as u32 || 'A' as u32 <= b
            <= 'Z' as u32 ==> encoded(seq![b]) == seq![b as char],
    decreases bytes.len(),
{
    let before = encoded(bytes.drop_last());
    if i < before.len() {
        law_encoded_text_separates_nothing(bytes.drop_last(), i, b);
    }
    assert(seq![b].drop_last() == Seq::<u8>::empty());
    assert(encoded(Seq::<u8>::empty()) == Seq::<char>::empty());
    assert(encoded(seq![b]) == encoded_byte(b));
}

/// The file to download is the first one of the first result, and the link is what the
/// answer calls so.
pub proof fn law_first_result_is_taken(
    answer: Map<Seq<char>, Json>,
    result: Map<Seq<char>, Json>,
    attributes: Map<Seq<char>, Json>,
    file: Map<Seq<char>, Json>,
    id: i64,
    more: Seq<Json>,
    others: Seq<Json>,
    link: Seq<char>,
)
    requires
        answer.dom().contains("data"@),
        answer["data"@] == Json::Array(seq![Json::Object(result)] + more),
        result.dom().contains("attributes"@),
        result["attributes"@] == Json::Object(attributes),
        attributes.dom().contains("files"@),
        attributes["files"@] == Json::Array(seq![Json::Object(file)] + others),
        file.dom().contains("file_id"@),
        file["file_id"@] == Json::Int(id),
        answer.dom().contains("link"@),
        answer["link"@] == Json::Text(link),
    ensures
        top_file_id(Some(Json::Object(answer))) == Some(id),
        link_text(Some(Json::Object(answer))) == Some(link),
        top_file_id(None) is None,
        link_text(None) is None,
{
    assert((seq![Json::Object(result)] + more)[0] == Json::Object(result));
    assert((seq![Json::Object(file)] + others)[0] == Json::Object(file));
}

/// A server finds in the address of a search the title, and behind it the language.
pub proof fn law_search_names_the_title(query: Seq<char>, language: Seq<char>)
    ensures
        ({
            let url = search_url(query, language);
            let head = API@ + "/subtitles?query="@;
            &&& starts_with(url, head)
            &&& split_once(url.skip(head.len() as int), seq!['&']) matches Some((title, rest))
                && query_bytes(title) == encode_utf8(query) && rest == "languages="@ + language
        }),
{
    reveal_strlit("&languages=");
    reveal_strlit("languages=");
    let bytes = encode_utf8(query);
    let title = encoded(bytes);
    let head = API@ + "/subtitles?query="@;
    let url = search_url(query, language);
    let rest = "languages="@ + language;
    assert(url.subrange(0, head.len() as int) == head);
    assert(url.skip(head.len() as int) == title + seq!['&'] + rest);
    assert(!title.contains('&')) by {
        if title.contains('&') {
            let k = choose|k: int| 0 <= k < title.len() && title[k] == '&';
            law_encoded_text_separates_nothing(bytes, k, 0);
        }
    }
    lemma_cut_at_first(title, '&', rest);
    law_encoded_bytes_are_read_back(bytes);
}

/// A server finds in the body of a download the file.
pub proof fn law_download_names_the_file(id: i64)
    ensures
        ({
            let body = download_body(id as int);
            let head = "{\"file_id\":"@;
            &&& starts_with(body, head)
            &&& body.last() == '}'
            &&& parse_signed(body.subrange(head.len() as int, body.len() - 1)) == Some(id as int)
        }),
{
    reveal_strlit("}");
    let body = download_body(id as int);
    let head = "{\"file_id\":"@;
    assert(body.subrange(0, head.len() as int) == head);
    assert(body.subrange(head.len() as int, body.len() - 1) == decimal_int(id as int));
    law_signed_reads_back(id);
}

} // verus!
