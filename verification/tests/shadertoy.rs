use shadereye::shadertoy::{
    parse_id, search_url, shader_from_response, shader_url, urlencoding_min, RawInfo, RawPass,
    RawResponse, RawShader, ShadertoyError,
};

#[test]
fn parses_id_from_url_and_raw() {
    assert_eq!(parse_id("https://www.shadertoy.com/view/Ms2SD1"), "Ms2SD1");
    assert_eq!(
        parse_id("https://www.shadertoy.com/embed/Ms2SD1?gui=true"),
        "Ms2SD1"
    );
    assert_eq!(parse_id("  Ms2SD1 "), "Ms2SD1");
}

#[test]
fn view_url_drops_trailing_slashes() {
    assert_eq!(parse_id("https://www.shadertoy.com/view/Ms2SD1//"), "Ms2SD1");
    assert_eq!(parse_id("https://www.shadertoy.com/view/"), "");
}

#[test]
fn view_url_drops_query() {
    assert_eq!(parse_id("https://www.shadertoy.com/view/Ms2SD1?gui=true"), "Ms2SD1");
    assert_eq!(parse_id("https://www.shadertoy.com/view/Ms2SD1/?a=1&b=2"), "Ms2SD1");
}

#[test]
fn last_view_segment_wins() {
    assert_eq!(parse_id("a/view/first/view/second"), "second");
}

#[test]
fn view_takes_precedence_over_embed() {
    assert_eq!(parse_id("x/view/AAA/embed/BBB"), "AAA/embed/BBB");
}

#[test]
fn embed_without_query_keeps_rest() {
    assert_eq!(parse_id("https://www.shadertoy.com/embed/XyZ"), "XyZ");
    assert_eq!(parse_id("https://www.shadertoy.com/embed/?x"), "");
}

#[test]
fn raw_id_trims_unicode_whitespace() {
    assert_eq!(parse_id("\t\u{a0}abc\n"), "abc");
    assert_eq!(parse_id("   "), "");
    assert_eq!(parse_id(""), "");
}

#[test]
fn percent_encodes_reserved_bytes() {
    assert_eq!(urlencoding_min("AZaz09-_.~"), "AZaz09-_.~");
    assert_eq!(urlencoding_min("a b/c?"), "a%20b%2Fc%3F");
    assert_eq!(urlencoding_min("é"), "%C3%A9");
    assert_eq!(urlencoding_min(""), "");
}

#[test]
fn builds_request_urls() {
    assert_eq!(
        shader_url("Ms2SD1", "KEY"),
        "https://www.shadertoy.com/api/v1/shaders/Ms2SD1?key=KEY"
    );
    assert_eq!(
        search_url("red sky", "K"),
        "https://www.shadertoy.com/api/v1/shaders/query/red%20sky?key=K"
    );
}

fn pass(kind: &str, code: &str) -> RawPass {
    RawPass { code: code.to_string(), kind: kind.to_string() }
}

fn shader(passes: Vec<RawPass>) -> RawShader {
    RawShader {
        info: RawInfo { id: "abc".into(), name: "Title".into(), username: "me".into() },
        renderpass: passes,
    }
}

#[test]
fn response_with_image_pass_becomes_shader() {
    let body = RawResponse {
        shader: Some(shader(vec![pass("buffer", "B"), pass("image", "I1"), pass("image", "I2")])),
        error: None,
    };
    let s = shader_from_response("abc", body).ok().expect("shader");
    assert_eq!(s.id, "abc");
    assert_eq!(s.title, "Title");
    assert_eq!(s.author, "me");
    assert_eq!(s.image_code, "I1I2");
}

#[test]
fn response_errors_map_to_not_found() {
    let api_error = RawResponse { shader: None, error: Some("Shader not found".into()) };
    assert!(matches!(shader_from_response("abc", api_error),
        Err(ShadertoyError::NotFound(m)) if m == "Shader not found"));
    let missing = RawResponse { shader: None, error: None };
    assert!(matches!(shader_from_response("abc", missing),
        Err(ShadertoyError::NotFound(m)) if m == "abc"));
    let no_image = RawResponse { shader: Some(shader(vec![pass("sound", "S")])), error: None };
    assert!(matches!(shader_from_response("abc", no_image),
        Err(ShadertoyError::NotFound(m)) if m == "abc has no image pass"));
}
