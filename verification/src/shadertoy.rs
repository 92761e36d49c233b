//! Shadertoy client logic: shader ids from URLs, API request URLs, query
//! encoding, and the interpretation of API responses. The network round trip
//! itself is made by the caller.

use vstd::prelude::*;

use vstd::string::StringSliceAdditionalSpecFns;

use crate::text::{
    before_char, chars_equal, copy_range, has_substring, last_occurrence, lemma_before_char_prefix,
    lemma_before_char_take, lemma_last_occurrence_below_found, lemma_last_occurrence_is, occurs_at,
    push_char, push_str_chars, rfind, split_first, str_chars, string_from_chars, trim,
    trim_end_char, trim_end_matches, trim_ws,
};

verus! {

broadcast use vstd::string::group_string_axioms;

/// A shader fetched from Shadertoy.
pub struct ShadertoyShader {
    pub id: String,
    pub title: String,
    pub author: String,
    /// Concatenated image-pass code, ready to feed the renderer.
    pub image_code: String,
}

/// Why a Shadertoy request failed.
pub enum ShadertoyError {
    /// No API key is configured.
    NoKey,
    /// The shader does not exist or has no image pass.
    NotFound(String),
    /// Network or API failure.
    Api(String),
}

/// The body of a shader lookup answer.
pub struct RawResponse {
    pub shader: Option<RawShader>,
    pub error: Option<String>,
}

/// A shader as the API describes it.
pub struct RawShader {
    pub info: RawInfo,
    pub renderpass: Vec<RawPass>,
}

/// Descriptive fields of a shader.
pub struct RawInfo {
    pub id: String,
    pub name: String,
    pub username: String,
}

/// One render pass of a shader.
pub struct RawPass {
    pub code: String,
    pub kind: String,
}

/// The shader id named by a raw id or a Shadertoy URL: the text after the last
/// `/view/` up to the first `?` (the query), without trailing slashes; else the
/// text after the last `/embed/` up to the first `?`; else the input without
/// surrounding whitespace.
pub open spec fn spec_parse_id(input: Seq<char>) -> Seq<char> {
    match last_occurrence(input, "/view/"@) {
        Some(i) => trim_end_char(before_char(input.skip(i + "/view/"@.len()), '?'), '/'),
        None => match last_occurrence(input, "/embed/"@) {
            Some(i) => before_char(input.skip(i + "/embed/"@.len()), '?'),
            None => trim_ws(input),
        },
    }
}

/// Extract a shader id from a raw id or any shadertoy.com/view/<id> URL.
pub fn parse_id(input: &str) -> (id: String)
    ensures
        id@ == spec_parse_id(input@),
{
    let s = str_chars(input);
    let s = s.as_slice();
    let n = s.len();
    let view = str_chars("/view/");
    if let Some(i) = rfind(s, view.as_slice()) {
        proof {
            lemma_last_occurrence_below_found(s@, view@, s@.len() + 1int);
            assert(last_occurrence(s@, view@) == Some(i as int));
            assert(occurs_at(s@, view@, i as int));
        }
        let rest = copy_range(s, i + view.len(), n);
        assert(rest@ =~= s@.skip(i + view@.len()));
        let path = split_first(rest.as_slice(), '?');
        let r = trim_end_matches(path.as_slice(), '/');
        return string_from_chars(r.as_slice());
    }
    let embed = str_chars("/embed/");
    if let Some(i) = rfind(s, embed.as_slice()) {
        proof {
            lemma_last_occurrence_below_found(s@, embed@, s@.len() + 1int);
            assert(occurs_at(s@, embed@, i as int));
        }
        let rest = copy_range(s, i + embed.len(), n);
        assert(rest@ =~= s@.skip(i + embed@.len()));
        let r = split_first(rest.as_slice(), '?');
        return string_from_chars(r.as_slice());
    }
    let r = trim(s);
    string_from_chars(r.as_slice())
}

/// Bytes that a URL path segment carries as they are: ASCII letters, digits,
/// and `-`, `_`, `.`, `~`.
pub open spec fn is_unreserved(b: u8) -> bool {
    ||| 65 <= b <= 90
    ||| 97 <= b <= 122
    ||| 48 <= b <= 57
    ||| b == 45
    ||| b == 95
    ||| b == 46
    ||| b == 126
}

/// The uppercase hexadecimal digit for `n` (`0 <= n < 16`).
pub open spec fn hex_digit(n: int) -> char {
    if n < 10 {
        (48 + n) as char
    } else {
        (55 + n) as char
    }
}

/// One byte percent-encoded: unreserved bytes stand for themselves, others
/// become `%` followed by two uppercase hex digits.
pub open spec fn percent_encode_byte(b: u8) -> Seq<char> {
    if is_unreserved(b) {
        seq![b as char]
    } else {
        seq!['%', hex_digit((b / 16) as int), hex_digit((b % 16) as int)]
    }
}

/// A byte string percent-encoded byte by byte.
pub open spec fn percent_encode(bytes: Seq<u8>) -> Seq<char>
    decreases bytes.len(),
{
    if bytes.len() == 0 {
        Seq::empty()
    } else {
        percent_encode_byte(bytes[0]) + percent_encode(bytes.drop_first())
    }
}

fn hex_digit_char(d: u8) -> (c: char)
    requires
        d < 16,
    ensures
        c == hex_digit(d as int),
{
    if d < 10 {
        (48 + d) as char
    } else {
        (55 + d) as char
    }
}

/// Tiny percent-encoder for the query path segment: the UTF-8 bytes of `s`,
/// each unreserved byte as itself and every other byte as `%XX`. Decoding the
/// result gives the bytes of `s` back, and text made of unreserved bytes only
/// comes out unchanged.
pub fn urlencoding_min(s: &str) -> (r: String)
    ensures
        r@ == percent_encode(s.spec_bytes()),
        percent_decode(r@) == s.spec_bytes(),
        (forall|i: int|
            0 <= i < s.spec_bytes().len() ==> is_unreserved(#[trigger] s.spec_bytes()[i])) ==> r@
            == s@,
{
    let bytes = s.as_bytes();
    let mut r = String::new();
    let mut i: usize = 0;
    assert(bytes@.skip(0) =~= bytes@);
    while i < bytes.len()
        invariant
            i <= bytes@.len(),
            bytes@ == s.spec_bytes(),
            percent_encode(bytes@) == r@ + percent_encode(bytes@.skip(i as int)),
        decreases bytes@.len() - i,
    {
        let b = bytes[i];
        let ghost before = r@;
        if (65 <= b && b <= 90) || (97 <= b && b <= 122) || (48 <= b && b <= 57) || b == 45 || b
            == 95 || b == 46 || b == 126 {
            push_char(&mut r, b as char);
        } else {
            push_char(&mut r, '%');
            push_char(&mut r, hex_digit_char(b / 16));
            push_char(&mut r, hex_digit_char(b % 16));
        }
        assert(r@ =~= before + percent_encode_byte(b));
        assert(bytes@.skip(i as int).drop_first() =~= bytes@.skip(i + 1));
        i += 1;
    }
    assert(percent_encode(bytes@.skip(i as int)) =~= Seq::<char>::empty());
    assert(r@ + Seq::<char>::empty() =~= r@);
    proof {
        lemma_percent_decode_encode(s.spec_bytes());
        let bs = s.spec_bytes();
        if forall|i: int| 0 <= i < bs.len() ==> is_unreserved(#[trigger] bs[i]) {
            lemma_unreserved_utf8_is_ascii(s@);
            lemma_percent_encode_unreserved(bs);
        }
    }
    r
}

/// The API address of one shader.
pub open spec fn shader_api_url(id: Seq<char>, key: Seq<char>) -> Seq<char> {
    "https://www.shadertoy.com/api/v1/shaders/"@ + id + "?key="@ + key
}

/// The API address of a keyword search.
pub open spec fn search_api_url(query: Seq<char>, key: Seq<char>) -> Seq<char> {
    "https://www.shadertoy.com/api/v1/shaders/query/"@ + query + "?key="@ + key
}

/// The request address for the shader with id `id`.
pub fn shader_url(id: &str, key: &str) -> (url: String)
    ensures
        url@ == shader_api_url(id@, key@),
{
    let mut url = String::new();
    push_str_chars(&mut url, "https://www.shadertoy.com/api/v1/shaders/");
    push_str_chars(&mut url, id);
    push_str_chars(&mut url, "?key=");
    push_str_chars(&mut url, key);
    assert(url@ =~= shader_api_url(id@, key@));
    url
}

/// The request address for a keyword search; the query is percent-encoded.
pub fn search_url(query: &str, key: &str) -> (url: String)
    ensures
        url@ == search_api_url(percent_encode(query.spec_bytes()), key@),
{
    let q = urlencoding_min(query);
    let mut url = String::new();
    push_str_chars(&mut url, "https://www.shadertoy.com/api/v1/shaders/query/");
    push_str_chars(&mut url, q.as_str());
    push_str_chars(&mut url, "?key=");
    push_str_chars(&mut url, key);
    assert(url@ =~= search_api_url(q@, key@));
    url
}

/// The pass renders the image (its kind is `image`).
pub open spec fn is_image_pass(p: RawPass) -> bool {
    p.kind@ == "image"@
}

/// The codes of the image passes, concatenated in order.
pub open spec fn image_code_concat(passes: Seq<RawPass>) -> Seq<char>
    decreases passes.len(),
{
    if passes.len() == 0 {
        Seq::empty()
    } else {
        (if is_image_pass(passes[0]) {
            passes[0].code@
        } else {
            Seq::empty()
        }) + image_code_concat(passes.drop_first())
    }
}

/// The concatenated code of the image passes, or `None` when there is no image pass.
pub open spec fn image_pass_code(passes: Seq<RawPass>) -> Option<Seq<char>> {
    if exists|i: int| 0 <= i < passes.len() && #[trigger] is_image_pass(passes[i]) {
        Some(image_code_concat(passes))
    } else {
        None
    }
}

/// Concatenate the code of all `image` passes, in order.
fn find_image_pass(passes: &Vec<RawPass>) -> (code: Option<String>)
    ensures
        match code {
            Some(c) => image_pass_code(passes@) == Some(c@),
            None => image_pass_code(passes@) is None,
        },
{
    let image = str_chars("image");
    let mut acc = String::new();
    let mut found = false;
    let mut i: usize = 0;
    assert(passes@.skip(0) =~= passes@);
    while i < passes.len()
        invariant
            i <= passes@.len(),
            image@ == "image"@,
            image_code_concat(passes@) == acc@ + image_code_concat(passes@.skip(i as int)),
            found == exists|j: int| 0 <= j < i && #[trigger] is_image_pass(passes@[j]),
        decreases passes@.len() - i,
    {
        let kind = str_chars(passes[i].kind.as_str());
        assert(passes@.skip(i as int)[0] == passes@[i as int]);
        assert(passes@.skip(i as int).drop_first() =~= passes@.skip(i + 1));
        let ghost before = acc@;
        let is_image = chars_equal(kind.as_slice(), image.as_slice());
        assert(is_image == is_image_pass(passes@[i as int]));
        if is_image {
            push_str_chars(&mut acc, passes[i].code.as_str());
            found = true;
            assert(acc@ + image_code_concat(passes@.skip(i + 1)) =~= before + image_code_concat(
                passes@.skip(i as int),
            ));
        } else {
            assert(acc@ + image_code_concat(passes@.skip(i + 1)) =~= before + image_code_concat(
                passes@.skip(i as int),
            ));
        }
        i += 1;
    }
    assert(image_code_concat(passes@.skip(i as int)) =~= Seq::<char>::empty());
    assert(acc@ + Seq::<char>::empty() =~= acc@);
    if found {
        Some(acc)
    } else {
        None
    }
}

/// Interpret the answer to a shader lookup for id `id`: an API error becomes
/// `NotFound` with its message; a missing shader becomes `NotFound(id)`; a shader
/// without an image pass becomes `NotFound("<id> has no image pass")`; otherwise
/// the shader's id, name, author and the code of its image passes, concatenated
/// in order.
pub fn shader_from_response(id: &str, body: RawResponse) -> (r: Result<
    ShadertoyShader,
    ShadertoyError,
>)
    ensures
        match body.error {
            Some(e) => r matches Err(ShadertoyError::NotFound(m)) && m@ == e@,
            None => match body.shader {
                None => r matches Err(ShadertoyError::NotFound(m)) && m@ == id@,
                Some(sh) => match image_pass_code(sh.renderpass@) {
                    None => r matches Err(ShadertoyError::NotFound(m)) && m@ == id@
                        + " has no image pass"@,
                    Some(code) => r matches Ok(s) && s.id == sh.info.id && s.title
                        == sh.info.name && s.author == sh.info.username && s.image_code@
                        == code,
                },
            },
        },
{
    if let Some(err) = body.error {
        return Err(ShadertoyError::NotFound(err));
    }
    let sh = match body.shader {
        Some(sh) => sh,
        None => {
            let mut m = String::new();
            push_str_chars(&mut m, id);
            return Err(ShadertoyError::NotFound(m));
        },
    };
    match find_image_pass(&sh.renderpass) {
        Some(code) => Ok(
            ShadertoyShader {
                id: sh.info.id,
                title: sh.info.name,
                author: sh.info.username,
                image_code: code,
            },
        ),
        None => {
            let mut m = String::new();
            push_str_chars(&mut m, id);
            push_str_chars(&mut m, " has no image pass");
            Err(ShadertoyError::NotFound(m))
        },
    }
}

/// A `.../view/<id>` address, with or without a `?` query after the id, yields
/// `<id>`, whatever precedes `/view/`, for every id that holds no `?`, does not end
/// in `/`, and after which no later `/view/` begins.
pub proof fn lemma_parse_id_of_view_url(prefix: Seq<char>, id: Seq<char>, query: Seq<char>)
    requires
        !has_substring("view/"@ + id + query, "/view/"@),
        id.len() == 0 || id.last() != '/',
        forall|i: int| 0 <= i < id.len() ==> id[i] != '?',
        query.len() == 0 || query[0] == '?',
    ensures
        spec_parse_id(prefix + "/view/"@ + id + query) == id,
{
    reveal_strlit("/view/");
    reveal_strlit("view/");
    let view = "/view/"@;
    let s = prefix + view + id + query;
    let p = prefix.len() as int;
    let tail = "view/"@ + id + query;
    assert(s.subrange(p, p + 6) =~= view);
    assert forall|q: int| p < q implies !occurs_at(s, view, q) by {
        if occurs_at(s, view, q) {
            assert(tail.subrange(q - p - 1, q - p - 1 + 6) =~= s.subrange(q, q + 6));
            assert(occurs_at(tail, view, q - p - 1));
        }
    }
    lemma_last_occurrence_is(s, view, p);
    assert(s.skip(p + 6) =~= id + query);
    if query.len() == 0 {
        assert(id + query =~= id);
        lemma_before_char_take(id, '?', id.len() as int);
        assert(id.take(id.len() as int) =~= id);
    } else {
        lemma_before_char_prefix(id, query, '?');
    }
}

/// An `.../embed/<id>?<options>` address yields `<id>` when it holds no `/view/`,
/// no later `/embed/` begins after the one before `<id>`, and the id holds no `?`.
pub proof fn lemma_parse_id_of_embed_url(prefix: Seq<char>, id: Seq<char>, options: Seq<char>)
    requires
        !has_substring(prefix + "/embed/"@ + id + "?"@ + options, "/view/"@),
        !has_substring("embed/"@ + id + "?"@ + options, "/embed/"@),
        forall|i: int| 0 <= i < id.len() ==> id[i] != '?',
    ensures
        spec_parse_id(prefix + "/embed/"@ + id + "?"@ + options) == id,
{
    reveal_strlit("/embed/");
    reveal_strlit("embed/");
    reveal_strlit("?");
    let embed = "/embed/"@;
    let s = prefix + embed + id + "?"@ + options;
    let p = prefix.len() as int;
    let tail = "embed/"@ + id + "?"@ + options;
    if last_occurrence(s, "/view/"@) is Some {
        lemma_last_occurrence_below_found(s, "/view/"@, s.len() + 1int);
        assert(has_substring(s, "/view/"@));
    }
    assert(s.subrange(p, p + 7) =~= embed);
    assert forall|q: int| p < q implies !occurs_at(s, embed, q) by {
        if occurs_at(s, embed, q) {
            assert(tail.subrange(q - p - 1, q - p - 1 + 7) =~= s.subrange(q, q + 7));
            assert(occurs_at(tail, embed, q - p - 1));
        }
    }
    lemma_last_occurrence_is(s, embed, p);
    let rest = s.skip(p + 7);
    assert(rest =~= id + ("?"@ + options));
    lemma_before_char_prefix(id, "?"@ + options, '?');
}

/// Input holding neither `/view/` nor `/embed/` is taken as a raw id: only
/// surrounding whitespace is removed.
pub proof fn lemma_parse_id_of_raw_id(input: Seq<char>)
    requires
        !has_substring(input, "/view/"@),
        !has_substring(input, "/embed/"@),
    ensures
        spec_parse_id(input) == trim_ws(input),
{
    lemma_last_occurrence_below_found(input, "/view/"@, input.len() + 1int);
    lemma_last_occurrence_below_found(input, "/embed/"@, input.len() + 1int);
}

/// Text made of unreserved bytes only is carried through the encoder unchanged.
pub proof fn lemma_percent_encode_unreserved(bytes: Seq<u8>)
    requires
        forall|i: int| 0 <= i < bytes.len() ==> is_unreserved(#[trigger] bytes[i]),
    ensures
        percent_encode(bytes) == bytes.map_values(|b: u8| b as char),
    decreases bytes.len(),
{
    if bytes.len() > 0 {
        assert forall|i: int| 0 <= i < bytes.drop_first().len() implies is_unreserved(
            #[trigger] bytes.drop_first()[i],
        ) by {
            assert(bytes.drop_first()[i] == bytes[i + 1]);
        }
        lemma_percent_encode_unreserved(bytes.drop_first());
        assert(is_unreserved(bytes[0]));
        assert(seq![bytes[0] as char] + bytes.drop_first().map_values(|b: u8| b as char)
            =~= bytes.map_values(|b: u8| b as char));
    } else {
        assert(bytes.map_values(|b: u8| b as char) =~= Seq::<char>::empty());
    }
}

/// The encoding holds only unreserved characters, `%`, and uppercase hex digits,
/// so it never contains `/`, `?` or a space.
pub proof fn lemma_percent_encode_alphabet(bytes: Seq<u8>)
    ensures
        forall|i: int|
            0 <= i < percent_encode(bytes).len() ==> {
                let c = #[trigger] percent_encode(bytes)[i];
                c != '/' && c != '?' && c != ' ' && c != '&' && c != '#'
            },
    decreases bytes.len(),
{
    if bytes.len() > 0 {
        lemma_percent_encode_alphabet(bytes.drop_first());
        let head = percent_encode_byte(bytes[0]);
        let rest = percent_encode(bytes.drop_first());
        assert forall|i: int| 0 <= i < percent_encode(bytes).len() implies {
            let c = #[trigger] percent_encode(bytes)[i];
            c != '/' && c != '?' && c != ' ' && c != '&' && c != '#'
        } by {
            if i < head.len() {
                assert(percent_encode(bytes)[i] == head[i]);
            } else {
                assert(percent_encode(bytes)[i] == rest[i - head.len()]);
            }
        }
    }
}

/// Text whose UTF-8 bytes are all unreserved is ASCII, one byte per character:
/// a character outside ASCII starts its encoding with a byte of 0xC0 or more.
proof fn lemma_unreserved_utf8_is_ascii(chars: Seq<char>)
    requires
        forall|i: int|
            0 <= i < vstd::utf8::encode_utf8(chars).len() ==> is_unreserved(
                #[trigger] vstd::utf8::encode_utf8(chars)[i],
            ),
    ensures
        vstd::utf8::encode_utf8(chars).map_values(|b: u8| b as char) == chars,
    decreases chars.len(),
{
    let all = vstd::utf8::encode_utf8(chars);
    if chars.len() > 0 {
        let c0 = chars[0] as u32;
        let head = vstd::utf8::encode_scalar(c0);
        let rest = vstd::utf8::encode_utf8(chars.drop_first());
        assert(all == head + rest);
        assert(head.len() >= 1);
        assert(all[0] == head[0]);
        assert(is_unreserved(all[0]));
        if c0 > 0x7F {
            if vstd::utf8::has_width_2_encoding(c0) {
                assert((0xC0u8 | ((c0 >> 6) & 0x1F) as u8) >= 0xC0u8) by (bit_vector);
            } else if vstd::utf8::has_width_3_encoding(c0) {
                assert((0xE0u8 | ((c0 >> 12) & 0x0F) as u8) >= 0xC0u8) by (bit_vector);
            } else {
                assert((0xF0u8 | ((c0 >> 18) & 0x7) as u8) >= 0xC0u8) by (bit_vector);
            }
        }
        assert(((c0 & 0x7F) as u8) as u32 == c0) by (bit_vector)
            requires
                c0 <= 0x7F,
        ;
        vstd::utf8::char_u32_cast(chars[0], c0);
        assert(head.len() == 1);
        assert forall|k: int| 0 <= k < rest.len() implies is_unreserved(#[trigger] rest[k]) by {
            assert(all[1 + k] == rest[k]);
        }
        lemma_unreserved_utf8_is_ascii(chars.drop_first());
        let b0 = (c0 & 0x7F) as u8;
        assert(head[0] == b0);
        assert((b0 as char) == (c0 as char));
        assert forall|k: int| 0 <= k < chars.len() implies (all[k] as char) == #[trigger] chars[k] by {
            if k > 0 {
                assert(all[k] == rest[k - 1]);
                assert(rest.map_values(|b: u8| b as char)[k - 1] == chars.drop_first()[k - 1]);
            }
        }
        assert(all.map_values(|b: u8| b as char) =~= chars);
    } else {
        assert(all.map_values(|b: u8| b as char) =~= chars);
    }
}

/// The value of a hexadecimal digit, small or capital (0 for any other character).
pub open spec fn hex_value(c: char) -> int {
    let u = c as u32;
    if 48 <= u <= 57 {
        u - 48
    } else if 65 <= u <= 70 {
        u - 55
    } else if 97 <= u <= 102 {
        u - 87
    } else {
        0
    }
}

/// Percent-decoding of URL text: `%XY` is the byte `0xXY`, and every other
/// character stands for itself as a byte.
pub open spec fn percent_decode(s: Seq<char>) -> Seq<u8>
    decreases s.len(),
{
    if s.len() == 0 {
        Seq::empty()
    } else if s[0] == '%' && s.len() >= 3 {
        seq![(hex_value(s[1]) * 16 + hex_value(s[2])) as u8] + percent_decode(s.skip(3))
    } else {
        seq![s[0] as u8] + percent_decode(s.drop_first())
    }
}

/// Percent-decoding undoes the encoder: decoding the encoding of any byte
/// string gives the bytes back.
pub proof fn lemma_percent_decode_encode(bytes: Seq<u8>)
    ensures
        percent_decode(percent_encode(bytes)) == bytes,
    decreases bytes.len(),
{
    if bytes.len() > 0 {
        let b = bytes[0];
        let head = percent_encode_byte(b);
        let rest = percent_encode(bytes.drop_first());
        let enc = head + rest;
        lemma_percent_decode_encode(bytes.drop_first());
        assert(enc == percent_encode(bytes));
        if is_unreserved(b) {
            assert(enc[0] == b as char);
            assert((b as char) as u32 == b as u32);
            assert(enc.drop_first() =~= rest);
            assert((b as char) as u8 == b);
        } else {
            let hi = (b / 16) as int;
            let lo = (b % 16) as int;
            assert(0 <= hi < 16 && 0 <= lo < 16);
            assert(hex_value(hex_digit(hi)) == hi);
            assert(hex_value(hex_digit(lo)) == lo);
            assert(enc[0] == '%');
            assert(enc[1] == hex_digit(hi));
            assert(enc[2] == hex_digit(lo));
            assert(enc.skip(3) =~= rest);
            assert(hi * 16 + lo == b);
        }
        assert(seq![b] + bytes.drop_first() =~= bytes);
    } else {
        assert(percent_encode(bytes) =~= Seq::<char>::empty());
    }
}

} // verus!
