use shadereye::compile::{
    detect_language, parse_lang, parse_lang_lowercase, wrap_shadertoy_fragment, ShaderLang,
};

#[test]
fn detects_wgsl_by_attributes() {
    let src = "@fragment fn fs() -> @location(0) vec4<f32> { return vec4<f32>(1.0); }";
    assert_eq!(detect_language(src), ShaderLang::Wgsl);
}

#[test]
fn detects_hlsl_by_semantics() {
    let src = "float4 main() : SV_TARGET { return float4(1,1,1,1); }";
    assert_eq!(detect_language(src), ShaderLang::Hlsl);
}

#[test]
fn defaults_to_glsl() {
    let src = "void mainImage(out vec4 c, in vec2 p){ c = vec4(1.0); }";
    assert_eq!(detect_language(src), ShaderLang::Glsl);
}

#[test]
fn detects_wgsl_by_vertex_attribute() {
    assert_eq!(detect_language("@vertex fn vs() {}"), ShaderLang::Wgsl);
}

#[test]
fn detects_wgsl_by_main_with_arrow() {
    assert_eq!(detect_language("fn main() -> f32 { return 1.0; }"), ShaderLang::Wgsl);
    // `fn main` alone, without `->`, is not enough.
    assert_eq!(detect_language("fn main() { }"), ShaderLang::Glsl);
}

#[test]
fn wgsl_markers_win_over_hlsl_markers() {
    assert_eq!(detect_language("@fragment cbuffer Texture2D SV_TARGET"), ShaderLang::Wgsl);
}

#[test]
fn detects_hlsl_by_cbuffer_and_texture() {
    assert_eq!(detect_language("cbuffer Globals { float4 c; }"), ShaderLang::Hlsl);
    assert_eq!(detect_language("Texture2D tex;"), ShaderLang::Hlsl);
}

#[test]
fn empty_source_is_glsl() {
    assert_eq!(detect_language(""), ShaderLang::Glsl);
}

#[test]
fn parses_language_names_case_insensitively() {
    assert_eq!(parse_lang("glsl"), Some(ShaderLang::Glsl));
    assert_eq!(parse_lang("WGSL"), Some(ShaderLang::Wgsl));
    assert_eq!(parse_lang("Hlsl"), Some(ShaderLang::Hlsl));
    assert_eq!(parse_lang("SpirV"), Some(ShaderLang::SpirV));
    assert_eq!(parse_lang("SPV"), Some(ShaderLang::SpirV));
    assert_eq!(parse_lang("metal"), None);
    assert_eq!(parse_lang(""), None);
    assert_eq!(parse_lang(" glsl"), None);
}

#[test]
fn lowercase_parser_is_exact() {
    assert_eq!(parse_lang_lowercase("wgsl"), Some(ShaderLang::Wgsl));
    assert_eq!(parse_lang_lowercase("WGSL"), None);
    assert_eq!(parse_lang_lowercase("spirv"), Some(ShaderLang::SpirV));
}

#[test]
fn lang_names_round_trip() {
    for (name, lang) in [
        ("glsl", ShaderLang::Glsl),
        ("wgsl", ShaderLang::Wgsl),
        ("hlsl", ShaderLang::Hlsl),
        ("spirv", ShaderLang::SpirV),
    ] {
        assert_eq!(parse_lang(name), Some(lang));
    }
}

#[test]
fn wraps_shadertoy_body_into_full_glsl() {
    let body = "void mainImage(out vec4 o, in vec2 fc){ o = vec4(fc/iResolution.xy, 0.0, 1.0); }";
    let full = wrap_shadertoy_fragment(body);
    assert!(full.starts_with("#version 460"));
    assert!(full.contains("uniform"));
    assert!(full.contains("iResolution"));
    assert!(full.contains("iTime"));
    assert!(full.contains("void main()"));
    assert!(full.contains("mainImage("));
    assert!(full.contains("o = vec4(fc/iResolution.xy, 0.0, 1.0);"));
    assert!(full.contains(&format!("\n{body}\n")));
}

#[test]
fn does_not_double_wrap_complete_glsl() {
    let already = "#version 460\nout vec4 c;\nvoid main(){ c = vec4(1.0); }";
    assert_eq!(wrap_shadertoy_fragment(already), already);
    let indented = "  \n#version 300 es\nvoid main(){}";
    assert_eq!(wrap_shadertoy_fragment(indented), indented);
}
