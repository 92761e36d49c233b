//! Shader languages: detection from source text and parsing of language names.

use vstd::prelude::*;

use crate::text::{
    ascii_lower, ascii_lowercase, ascii_upper, ascii_uppercase, chars_equal, contains_str,
    copy_range, has_substring, is_ascii_chars, is_whitespace, push_str_chars, spec_to_lowercase,
    str_chars, to_lowercase, trim_start_ws,
};

verus! {

broadcast use vstd::string::group_string_axioms;

/// A shader source language understood by shadereye.
#[derive(Debug, Clone, Copy, PartialEq, Eq, Structural)]
pub enum ShaderLang {
    Glsl,
    Wgsl,
    Hlsl,
    SpirV,
}

/// The source carries a WGSL marker: an `@vertex` or `@fragment` attribute,
/// or both `fn main` and `->`.
pub open spec fn has_wgsl_markers(src: Seq<char>) -> bool {
    ||| has_substring(src, "@vertex"@)
    ||| has_substring(src, "@fragment"@)
    ||| (has_substring(src, "fn main"@) && has_substring(src, "->"@))
}

/// The source carries an HLSL marker: `SV_TARGET`, `cbuffer` or `Texture2D`.
pub open spec fn has_hlsl_markers(src: Seq<char>) -> bool {
    ||| has_substring(src, "SV_TARGET"@)
    ||| has_substring(src, "cbuffer"@)
    ||| has_substring(src, "Texture2D"@)
}

/// The language that the detection heuristic assigns to a source text:
/// WGSL markers win, then HLSL markers, and GLSL is the default.
pub open spec fn spec_detect_language(src: Seq<char>) -> ShaderLang {
    if has_wgsl_markers(src) {
        ShaderLang::Wgsl
    } else if has_hlsl_markers(src) {
        ShaderLang::Hlsl
    } else {
        ShaderLang::Glsl
    }
}

/// Heuristically detect the shader language from source text.
/// Used when the caller does not pass an explicit language.
pub fn detect_language(src: &str) -> (lang: ShaderLang)
    ensures
        lang == spec_detect_language(src@),
{
    let s = str_chars(src);
    let s = s.as_slice();
    if contains_str(s, "@vertex") || contains_str(s, "@fragment") || (contains_str(s, "fn main")
        && contains_str(s, "->")) {
        return ShaderLang::Wgsl;
    }
    if contains_str(s, "SV_TARGET") || contains_str(s, "cbuffer") || contains_str(s, "Texture2D") {
        return ShaderLang::Hlsl;
    }
    ShaderLang::Glsl
}

/// The language that a lowercase language name stands for.
pub open spec fn spec_lang_from_name(name: Seq<char>) -> Option<ShaderLang> {
    if name == "glsl"@ {
        Some(ShaderLang::Glsl)
    } else if name == "wgsl"@ {
        Some(ShaderLang::Wgsl)
    } else if name == "hlsl"@ {
        Some(ShaderLang::Hlsl)
    } else if name == "spirv"@ || name == "spv"@ {
        Some(ShaderLang::SpirV)
    } else {
        None
    }
}

/// The lowercase name under which each language is written out
/// (`glsl`, `wgsl`, `hlsl`, `spirv`).
pub open spec fn lang_name(lang: ShaderLang) -> Seq<char> {
    match lang {
        ShaderLang::Glsl => "glsl"@,
        ShaderLang::Wgsl => "wgsl"@,
        ShaderLang::Hlsl => "hlsl"@,
        ShaderLang::SpirV => "spirv"@,
    }
}

/// Parse a language name that is already lowercase.
pub fn parse_lang_lowercase(name: &str) -> (lang: Option<ShaderLang>)
    ensures
        lang == spec_lang_from_name(name@),
{
    let n = str_chars(name);
    let n = n.as_slice();
    if chars_equal(n, str_chars("glsl").as_slice()) {
        Some(ShaderLang::Glsl)
    } else if chars_equal(n, str_chars("wgsl").as_slice()) {
        Some(ShaderLang::Wgsl)
    } else if chars_equal(n, str_chars("hlsl").as_slice()) {
        Some(ShaderLang::Hlsl)
    } else if chars_equal(n, str_chars("spirv").as_slice()) || chars_equal(
        n,
        str_chars("spv").as_slice(),
    ) {
        Some(ShaderLang::SpirV)
    } else {
        None
    }
}

/// Parse a language name case-insensitively: the name is lowercased first.
pub fn parse_lang(s: &str) -> (lang: Option<ShaderLang>)
    ensures
        lang == spec_lang_from_name(spec_to_lowercase(s@)),
        is_ascii_chars(s@) ==> lang == spec_lang_from_name(ascii_lowercase(s@)),
{
    let lower = to_lowercase(s);
    parse_lang_lowercase(lower.as_str())
}

/// Every language's written name parses back to that language.
pub proof fn lemma_lang_name_round_trip(lang: ShaderLang)
    ensures
        spec_lang_from_name(lang_name(lang)) == Some(lang),
{
    reveal_strlit("glsl");
    reveal_strlit("wgsl");
    reveal_strlit("hlsl");
    reveal_strlit("spirv");
    reveal_strlit("spv");
    assert("glsl"@[0] != "wgsl"@[0]);
    assert("glsl"@[0] != "hlsl"@[0]);
    assert("wgsl"@[0] != "hlsl"@[0]);
    assert("spirv"@[0] != "glsl"@[0]);
    assert("spirv"@[0] != "wgsl"@[0]);
    assert("spirv"@[0] != "hlsl"@[0]);
}

/// Language names are read without regard to ASCII case: every language's name,
/// written in capitals or in any mix of capitals and small letters, lowercases to
/// that name and so parses back to the language; in particular its name in
/// capitals does.
pub proof fn lemma_lang_name_any_case(lang: ShaderLang, name: Seq<char>)
    requires
        is_ascii_chars(name),
        ascii_lowercase(name) == lang_name(lang),
    ensures
        spec_lang_from_name(ascii_lowercase(name)) == Some(lang),
        is_ascii_chars(ascii_uppercase(lang_name(lang))),
        ascii_lowercase(ascii_uppercase(lang_name(lang))) == lang_name(lang),
{
    lemma_lang_name_round_trip(lang);
    reveal_strlit("glsl");
    reveal_strlit("wgsl");
    reveal_strlit("hlsl");
    reveal_strlit("spirv");
    let n = lang_name(lang);
    assert(forall|i: int| 0 <= i < n.len() ==> 'a' as u32 <= (#[trigger] n[i]) as u32 <= 'z' as u32);
    assert forall|i: int| 0 <= i < n.len() implies ascii_lower(ascii_upper(#[trigger] n[i])) == n[i] by {
        let c = n[i];
        let u = ((c as u32) - 32) as char;
        assert(u as u32 == (c as u32) - 32);
    }
    assert(ascii_lowercase(ascii_uppercase(n)) =~= n);
}

/// Detection is decided by markers alone: a source with a WGSL marker is WGSL
/// whatever else it holds, and text without any marker is GLSL.
pub proof fn lemma_detect_priority(src: Seq<char>)
    ensures
        has_wgsl_markers(src) ==> spec_detect_language(src) == ShaderLang::Wgsl,
        !has_wgsl_markers(src) && has_hlsl_markers(src) ==> spec_detect_language(src)
            == ShaderLang::Hlsl,
        !has_wgsl_markers(src) && !has_hlsl_markers(src) ==> spec_detect_language(src)
            == ShaderLang::Glsl,
        spec_detect_language(src) != ShaderLang::SpirV,
{
}

/// A WGSL attribute anywhere in the source, on any line and after any text,
/// makes the source WGSL.
pub proof fn lemma_detect_wgsl_attribute_anywhere(a: Seq<char>, b: Seq<char>)
    ensures
        spec_detect_language(a + "@fragment"@ + b) == ShaderLang::Wgsl,
        spec_detect_language(a + "@vertex"@ + b) == ShaderLang::Wgsl,
{
    crate::text::lemma_has_substring_middle(a, "@fragment"@, b);
    crate::text::lemma_has_substring_middle(a, "@vertex"@, b);
}

/// `fn main` together with `->`, wherever each stands in the source, makes the
/// source WGSL.
pub proof fn lemma_detect_wgsl_main_anywhere(a: Seq<char>, b: Seq<char>, c: Seq<char>)
    ensures
        spec_detect_language(a + "fn main"@ + b + "->"@ + c) == ShaderLang::Wgsl,
        spec_detect_language(a + "->"@ + b + "fn main"@ + c) == ShaderLang::Wgsl,
{
    let s1 = a + "fn main"@ + b + "->"@ + c;
    crate::text::lemma_has_substring_middle(a, "fn main"@, b + "->"@ + c);
    assert(a + "fn main"@ + (b + "->"@ + c) =~= s1);
    crate::text::lemma_has_substring_middle(a + "fn main"@ + b, "->"@, c);
    let s2 = a + "->"@ + b + "fn main"@ + c;
    crate::text::lemma_has_substring_middle(a, "->"@, b + "fn main"@ + c);
    assert(a + "->"@ + (b + "fn main"@ + c) =~= s2);
    crate::text::lemma_has_substring_middle(a + "->"@ + b, "fn main"@, c);
}

/// An HLSL marker anywhere in a source without WGSL markers makes it HLSL.
pub proof fn lemma_detect_hlsl_marker_anywhere(a: Seq<char>, marker: Seq<char>, b: Seq<char>)
    requires
        marker == "SV_TARGET"@ || marker == "cbuffer"@ || marker == "Texture2D"@,
        !has_substring(a + marker + b, "@vertex"@),
        !has_substring(a + marker + b, "@fragment"@),
        !(has_substring(a + marker + b, "fn main"@) && has_substring(a + marker + b, "->"@)),
    ensures
        spec_detect_language(a + marker + b) == ShaderLang::Hlsl,
{
    crate::text::lemma_has_substring_middle(a, marker, b);
}

/// A source with none of the WGSL or HLSL markers anywhere is GLSL.
pub proof fn lemma_detect_glsl_without_markers(src: Seq<char>)
    requires
        !has_substring(src, "@vertex"@),
        !has_substring(src, "@fragment"@),
        !(has_substring(src, "fn main"@) && has_substring(src, "->"@)),
        !has_substring(src, "SV_TARGET"@),
        !has_substring(src, "cbuffer"@),
        !has_substring(src, "Texture2D"@),
    ensures
        spec_detect_language(src) == ShaderLang::Glsl,
{
}

/// A Shadertoy body is wrapped as exactly the preamble, the body on lines of its
/// own, and an entry point that runs `mainImage` and stores its colour in the
/// fragment output `_st_fragColor`.
pub proof fn lemma_wrap_ends_with_entry_point(src: Seq<char>)
    requires
        !starts_with(trim_start_ws(src), "#version"@),
    ensures
        spec_wrap_shadertoy_fragment(src) == SHADERTOY_PREAMBLE@ + "\n"@ + src + "\n"@
            + "\nvoid main() {\n    vec4 _c = vec4(0.0);\n    mainImage(_c, gl_FragCoord.xy);\n    _st_fragColor = _c;\n}\n"@,
        has_substring(
            spec_wrap_shadertoy_fragment(src),
            "    mainImage(_c, gl_FragCoord.xy);\n    _st_fragColor = _c;\n}\n"@,
        ),
{
    let main = "\nvoid main() {\n    vec4 _c = vec4(0.0);\n    mainImage(_c, gl_FragCoord.xy);\n    _st_fragColor = _c;\n}\n"@;
    let tail = "    mainImage(_c, gl_FragCoord.xy);\n    _st_fragColor = _c;\n}\n"@;
    reveal_strlit("\nvoid main() {\n    vec4 _c = vec4(0.0);\n    mainImage(_c, gl_FragCoord.xy);\n    _st_fragColor = _c;\n}\n");
    reveal_strlit("    mainImage(_c, gl_FragCoord.xy);\n    _st_fragColor = _c;\n}\n");
    let k = main.len() - tail.len();
    assert(main.skip(k) =~= tail);
    let w = SHADERTOY_PREAMBLE@ + "\n"@ + src + "\n"@ + main.take(k);
    assert(w + tail + Seq::<char>::empty() =~= SHADERTOY_PREAMBLE@ + "\n"@ + src + "\n"@ + main);
    crate::text::lemma_has_substring_middle(w, tail, Seq::<char>::empty());
}

/// The uniform and output declarations placed before a Shadertoy `mainImage` body
/// so that the result is a complete GLSL 460 fragment shader.
pub const SHADERTOY_PREAMBLE: &'static str = "#version 460
layout(location = 0) out vec4 _st_fragColor;
layout(set = 0, binding = 0) uniform ShadereyeUniforms {
    vec4 iResolution;   // xy = pixels, z = 1.0
    vec4 iMouse;        // xy = current, zw = click
    float iTime;
    float iTimeDelta;
    int   iFrame;
    float _pad0;
} U;
#define iResolution (U.iResolution.xyz)
#define iMouse (U.iMouse)
#define iTime (U.iTime)
#define iTimeDelta (U.iTimeDelta)
#define iFrame (U.iFrame)
";

/// The entry point placed after a Shadertoy `mainImage` body.
pub const SHADERTOY_MAIN: &'static str = "
void main() {
    vec4 _c = vec4(0.0);
    mainImage(_c, gl_FragCoord.xy);
    _st_fragColor = _c;
}
";

/// `s` begins with `prefix`.
pub open spec fn starts_with(s: Seq<char>, prefix: Seq<char>) -> bool {
    prefix.len() <= s.len() && s.take(prefix.len() as int) == prefix
}

/// A source is already a complete shader when, after leading whitespace, it
/// starts with `#version`; otherwise it is a Shadertoy body, placed between the
/// preamble and the entry point, each on lines of their own.
pub open spec fn spec_wrap_shadertoy_fragment(src: Seq<char>) -> Seq<char> {
    if starts_with(trim_start_ws(src), "#version"@) {
        src
    } else {
        SHADERTOY_PREAMBLE@ + "\n"@ + src + "\n"@ + SHADERTOY_MAIN@
    }
}

/// Wrap a Shadertoy-style fragment body (containing `mainImage`) into a complete
/// GLSL 460 fragment shader. If the source already declares `#version`, it is a
/// complete shader and returned unchanged.
pub fn wrap_shadertoy_fragment(src: &str) -> (full: String)
    ensures
        full@ == spec_wrap_shadertoy_fragment(src@),
{
    let s = str_chars(src);
    let s = s.as_slice();
    let mut i: usize = 0;
    assert(s@.skip(0) =~= s@);
    while i < s.len() && is_whitespace(s[i])
        invariant
            i <= s@.len(),
            trim_start_ws(s@) == trim_start_ws(s@.skip(i as int)),
        decreases s@.len() - i,
    {
        assert(s@.skip(i as int).drop_first() =~= s@.skip(i + 1));
        i += 1;
    }
    let version = str_chars("#version");
    let n = version.len();
    let mut full = String::new();
    if i <= s.len() && n <= s.len() - i {
        let head = copy_range(s, i, i + n);
        assert(head@ =~= s@.skip(i as int).take(n as int));
        if chars_equal(head.as_slice(), version.as_slice()) {
            push_str_chars(&mut full, src);
            return full;
        }
    }
    push_str_chars(&mut full, SHADERTOY_PREAMBLE);
    push_str_chars(&mut full, "\n");
    push_str_chars(&mut full, src);
    push_str_chars(&mut full, "\n");
    push_str_chars(&mut full, SHADERTOY_MAIN);
    full
}

/// A Shadertoy body (one that does not open with `#version`) appears verbatim,
/// on lines of its own, in the wrapped shader, which opens with `#version 460`.
pub proof fn lemma_wrap_embeds_body(src: Seq<char>)
    requires
        !starts_with(trim_start_ws(src), "#version"@),
    ensures
        has_substring(spec_wrap_shadertoy_fragment(src), "\n"@ + src + "\n"@),
        starts_with(spec_wrap_shadertoy_fragment(src), SHADERTOY_PREAMBLE@),
{
    crate::text::lemma_has_substring_middle(SHADERTOY_PREAMBLE@, "\n"@ + src + "\n"@, SHADERTOY_MAIN@);
    assert(SHADERTOY_PREAMBLE@ + ("\n"@ + src + "\n"@) + SHADERTOY_MAIN@ =~= spec_wrap_shadertoy_fragment(src));
    let w = spec_wrap_shadertoy_fragment(src);
    assert(w.take(SHADERTOY_PREAMBLE@.len() as int) =~= SHADERTOY_PREAMBLE@);
}

} // verus!
