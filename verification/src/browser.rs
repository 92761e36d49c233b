//! The browser backend's logic: the self-contained WebGL2 harness page that runs
//! a Shadertoy-style shader and reports compile logs and console output, its
//! `data:` URL, and the collection of the page's console events into a transcript.
//! Launching the browser and receiving its events is done by the caller.

use vstd::prelude::*;
use vstd::string::StringSliceAdditionalSpecFns;

use crate::encoding::{b64, base64_encode, json_string, json_string_literal};
use crate::text::{
    decimal, find_substring, has_substring, join_with_spaces, push_chars,
    push_str_chars, str_chars, string_views, trim_char, trim_matches, u32_decimal,
};

verus! {

broadcast use vstd::string::group_string_axioms;

/// What to run in the browser.
pub struct BrowserRunParams {
    pub source: String,
    pub width: u32,
    pub height: u32,
    pub frames: u32,
}

/// Everything the page reported while it ran.
pub struct BrowserTranscript {
    /// Every log/info/warn/error line, prefixed with its level.
    pub console: Vec<String>,
    /// Uncaught JS exceptions.
    pub exceptions: Vec<String>,
    /// Lines tagged as GL errors, shader logs or program logs.
    pub gl_errors: Vec<String>,
    pub compiled_ok: bool,
    pub screenshot_png: Vec<u8>,
}

/// Why a browser run failed.
pub enum BrowserError {
    /// No Chromium/Chrome binary was found.
    NoBrowser,
    /// The browser driver failed.
    Driver(String),
}

/// The line the page logs when it has finished its frames (or failed).
pub const DONE_SENTINEL: &'static str = "SHADEREYE_DONE";
/// Tag of the page's GL error lines.
pub const GL_ERROR_TAG: &'static str = "SHADEREYE_GL_ERROR";
/// Tag of the page's shader info log lines.
pub const SHADER_LOG_TAG: &'static str = "SHADEREYE_SHADER_LOG";
/// Tag of the page's program info log lines.
pub const PROGRAM_LOG_TAG: &'static str = "SHADEREYE_PROGRAM_LOG";

/// The opening of the fragment shader: GLSL ES 3.00 with the Shadertoy uniforms.
pub const FRAGMENT_HEAD: &'static str = "#version 300 es\nprecision highp float;\nout vec4 _st;\nuniform vec3 iResolution; uniform float iTime; uniform float iTimeDelta;\nuniform int iFrame; uniform vec4 iMouse;\n";
/// The fragment shader's entry point, which calls the user's `mainImage`.
pub const FRAGMENT_MAIN: &'static str = "void main(){ vec4 c; mainImage(c, gl_FragCoord.xy); _st = c; }";
/// The vertex shader: a pass-through of the fullscreen triangle.
pub const VERTEX_SOURCE: &'static str = "#version 300 es\nin vec2 p; void main(){ gl_Position = vec4(p,0.0,1.0); }";

/// Page text up to the canvas width.
pub const PAGE_HEAD: &'static str = "<!doctype html><html><head><meta charset=\"utf-8\"></head><body>\n<canvas id=\"c\" width=\"";
/// Page text between the canvas width and height.
pub const PAGE_CANVAS_HEIGHT: &'static str = "\" height=\"";
/// Page text from the canvas height to the shader source variables.
pub const PAGE_SCRIPT_START: &'static str = "\"></canvas>\n<script>\n(function(){\n  function fail(msg){ console.error(\"SHADEREYE_GL_ERROR: \"+msg); console.log(\"SHADEREYE_DONE\"); }\n  var cv=document.getElementById('c');\n  var gl=cv.getContext('webgl2');\n  if(!gl){ fail(\"webgl2 unavailable\"); return; }\n  ";
/// Page text that declares the vertex shader source variable.
pub const PAGE_VERTEX_VAR: &'static str = "var vsrc=";
/// Page text between the vertex and fragment shader sources.
pub const PAGE_FRAGMENT_VAR: &'static str = ", fsrc=";
/// Page text that ends the shader source declarations.
pub const PAGE_SOURCES_END: &'static str = ";";
/// Page text from the shader source declarations to their compilation: the
/// helper that compiles one shader and logs its info log.
pub const PAGE_SETUP: &'static str = "\n  function sh(type,src){\n    var s=gl.createShader(type); gl.shaderSource(s,src); gl.compileShader(s);\n    var log=gl.getShaderInfoLog(s);\n    if(log) console.warn(\"SHADEREYE_SHADER_LOG[\"+(type===gl.VERTEX_SHADER?\"vert\":\"frag\")+\"]: \"+log);\n    if(!gl.getShaderParameter(s,gl.COMPILE_STATUS)){ fail(\"shader compile failed\"); return null; }\n    return s;\n  }\n  ";
/// Page text that compiles `vsrc` as the vertex shader and `fsrc` as the
/// fragment shader.
pub const PAGE_COMPILE: &'static str = "var vs=sh(gl.VERTEX_SHADER,vsrc); if(!vs) return;\n  var fs=sh(gl.FRAGMENT_SHADER,fsrc); if(!fs) return;";
/// Page text from the shader compilation to the resolution uniform.
pub const PAGE_LINK: &'static str = "\n  var pr=gl.createProgram(); gl.attachShader(pr,vs); gl.attachShader(pr,fs); gl.linkProgram(pr);\n  var plog=gl.getProgramInfoLog(pr); if(plog) console.warn(\"SHADEREYE_PROGRAM_LOG: \"+plog);\n  if(!gl.getProgramParameter(pr,gl.LINK_STATUS)){ fail(\"program link failed\"); return; }\n  gl.useProgram(pr);\n  var buf=gl.createBuffer(); gl.bindBuffer(gl.ARRAY_BUFFER,buf);\n  gl.bufferData(gl.ARRAY_BUFFER,new Float32Array([-1,-1,3,-1,-1,3]),gl.STATIC_DRAW);\n  var loc=gl.getAttribLocation(pr,\"p\"); gl.enableVertexAttribArray(loc);\n  gl.vertexAttribPointer(loc,2,gl.FLOAT,false,0,0);\n  var uRes=gl.getUniformLocation(pr,\"iResolution\"), uT=gl.getUniformLocation(pr,\"iTime\"),\n      uF=gl.getUniformLocation(pr,\"iFrame\"), uM=gl.getUniformLocation(pr,\"iMouse\"),\n      uD=gl.getUniformLocation(pr,\"iTimeDelta\");\n  var n=0;\n  function frame(){\n    gl.uniform3f(uRes,";
/// Page text between the width and height of the resolution uniform.
pub const PAGE_RESOLUTION_Y: &'static str = ".0,";
/// Page text from the resolution uniform to the viewport size.
pub const PAGE_FRAME_LOOP: &'static str = ".0,1.0); gl.uniform1f(uT,n/60.0);\n    gl.uniform1f(uD,1.0/60.0); gl.uniform1i(uF,n); gl.uniform4f(uM,0,0,0,0);\n    gl.viewport(0,0,";
/// Page text between the viewport width and height.
pub const PAGE_COMMA: &'static str = ",";
/// Page text from the viewport size to the frame count.
pub const PAGE_DRAW: &'static str = "); gl.drawArrays(gl.TRIANGLES,0,3);\n    var e=gl.getError(); if(e!==gl.NO_ERROR) console.error(\"SHADEREYE_GL_ERROR: code \"+e);\n    n++;\n    if(n<";
/// Page text from the frame count to the completion sentinel.
pub const PAGE_FINISH: &'static str = ") requestAnimationFrame(frame);\n    else { console.log(\"";
/// Page text after the completion sentinel.
pub const PAGE_TAIL: &'static str = "\"); }\n  }\n  requestAnimationFrame(frame);\n})();\n</script></body></html>";

/// The fragment shader for a Shadertoy body: uniforms, the body on its own
/// line, then the entry point.
pub open spec fn spec_fragment_source(body: Seq<char>) -> Seq<char> {
    FRAGMENT_HEAD@ + body + "\n"@ + FRAGMENT_MAIN@
}

/// The harness page for a body, a canvas size and a frame count.
pub open spec fn spec_harness_html(body: Seq<char>, w: u32, h: u32, frames: u32) -> Seq<char> {
    PAGE_HEAD@ + decimal(w as nat) + PAGE_CANVAS_HEIGHT@ + decimal(h as nat) + PAGE_SCRIPT_START@
        + PAGE_VERTEX_VAR@ + json_string_literal(VERTEX_SOURCE@) + PAGE_FRAGMENT_VAR@
        + json_string_literal(spec_fragment_source(body)) + PAGE_SOURCES_END@ + PAGE_SETUP@
        + PAGE_COMPILE@ + PAGE_LINK@ + decimal(w as nat) + PAGE_RESOLUTION_Y@ + decimal(h as nat)
        + PAGE_FRAME_LOOP@ + decimal(w as nat) + PAGE_COMMA@ + decimal(h as nat) + PAGE_DRAW@
        + decimal(frames as nat) + PAGE_FINISH@ + DONE_SENTINEL@ + PAGE_TAIL@
}

/// Build an HTML page: a WebGL2 canvas running the Shadertoy body for `frames`
/// frames, logging every shader/program info log and GL error to console, then
/// printing the sentinel `SHADEREYE_DONE`.
pub fn generate_html(user_body: &str, w: u32, h: u32, frames: u32) -> (html: String)
    ensures
        html@ == spec_harness_html(user_body@, w, h, frames),
{
    let mut frag = String::new();
    push_str_chars(&mut frag, FRAGMENT_HEAD);
    push_str_chars(&mut frag, user_body);
    push_str_chars(&mut frag, "\n");
    push_str_chars(&mut frag, FRAGMENT_MAIN);
    assert(frag@ =~= spec_fragment_source(user_body@));
    let frag_js = json_string(frag.as_str());
    let vert_js = json_string(VERTEX_SOURCE);
    let ws = u32_decimal(w);
    let hs = u32_decimal(h);
    let fs = u32_decimal(frames);
    let mut html = String::new();
    push_str_chars(&mut html, PAGE_HEAD);
    push_str_chars(&mut html, ws.as_str());
    push_str_chars(&mut html, PAGE_CANVAS_HEIGHT);
    push_str_chars(&mut html, hs.as_str());
    push_str_chars(&mut html, PAGE_SCRIPT_START);
    push_str_chars(&mut html, PAGE_VERTEX_VAR);
    push_str_chars(&mut html, vert_js.as_str());
    push_str_chars(&mut html, PAGE_FRAGMENT_VAR);
    push_str_chars(&mut html, frag_js.as_str());
    push_str_chars(&mut html, PAGE_SOURCES_END);
    push_str_chars(&mut html, PAGE_SETUP);
    push_str_chars(&mut html, PAGE_COMPILE);
    push_str_chars(&mut html, PAGE_LINK);
    push_str_chars(&mut html, ws.as_str());
    push_str_chars(&mut html, PAGE_RESOLUTION_Y);
    push_str_chars(&mut html, hs.as_str());
    push_str_chars(&mut html, PAGE_FRAME_LOOP);
    push_str_chars(&mut html, ws.as_str());
    push_str_chars(&mut html, PAGE_COMMA);
    push_str_chars(&mut html, hs.as_str());
    push_str_chars(&mut html, PAGE_DRAW);
    push_str_chars(&mut html, fs.as_str());
    push_str_chars(&mut html, PAGE_FINISH);
    push_str_chars(&mut html, DONE_SENTINEL);
    push_str_chars(&mut html, PAGE_TAIL);
    html
}

/// The frame count a run uses: at least one.
pub open spec fn effective_frames(frames: u32) -> u32 {
    if frames >= 1 {
        frames
    } else {
        1
    }
}

/// The harness page for a run: its source, size, and at least one frame.
pub fn harness_for(p: &BrowserRunParams) -> (html: String)
    ensures
        html@ == spec_harness_html(p.source@, p.width, p.height, effective_frames(p.frames)),
{
    let frames = if p.frames >= 1 {
        p.frames
    } else {
        1
    };
    generate_html(p.source.as_str(), p.width, p.height, frames)
}

/// The address under which the browser opens a page: the page's UTF-8 bytes in
/// Base64 after `data:text/html;base64,`.
pub fn html_data_url(html: &str) -> (url: String)
    ensures
        url@ == "data:text/html;base64,"@ + base64_encode(html.spec_bytes()),
{
    let encoded = b64(html.as_bytes());
    let mut url = String::new();
    push_str_chars(&mut url, "data:text/html;base64,");
    push_str_chars(&mut url, encoded.as_str());
    url
}

/// The text of a console call: each argument's rendering without surrounding
/// double quotes, joined with single spaces.
pub open spec fn console_text(args: Seq<Seq<char>>) -> Seq<char> {
    join_with_spaces(args.map_values(|a: Seq<char>| trim_char(a, '"')))
}

/// A console line reports a GL error, a shader log or a program log.
pub open spec fn is_gl_report(text: Seq<char>) -> bool {
    ||| has_substring(text, GL_ERROR_TAG@)
    ||| has_substring(text, SHADER_LOG_TAG@)
    ||| has_substring(text, PROGRAM_LOG_TAG@)
}

/// A GL report line tells of a failed compile or link.
pub open spec fn is_build_failure(line: Seq<char>) -> bool {
    has_substring(line, "compile failed"@) || has_substring(line, "link failed"@)
}

/// The transcript line for a console call: the level in brackets, then the text.
pub open spec fn console_line(level: Seq<char>, text: Seq<char>) -> Seq<char> {
    "["@ + level + "] "@ + text
}

/// Collects a page's console calls and exceptions while it runs.
pub struct TranscriptCollector {
    pub console: Vec<String>,
    pub exceptions: Vec<String>,
    pub gl_errors: Vec<String>,
    /// The page has logged its completion sentinel.
    pub done: bool,
}

fn join_console_args(args: &Vec<String>) -> (text: Vec<char>)
    ensures
        text@ == console_text(string_views(args@)),
{
    let ghost views = string_views(args@);
    let ghost trimmed = views.map_values(|a: Seq<char>| trim_char(a, '"'));
    let mut text: Vec<char> = Vec::new();
    let mut i: usize = 0;
    while i < args.len()
        invariant
            i <= args@.len(),
            views == string_views(args@),
            trimmed == views.map_values(|a: Seq<char>| trim_char(a, '"')),
            text@ == join_with_spaces(trimmed.take(i as int)),
        decreases args@.len() - i,
    {
        let a = str_chars(args[i].as_str());
        let t = trim_matches(a.as_slice(), '"');
        assert(t@ == trimmed[i as int]);
        let ghost before = text@;
        if i > 0 {
            text.push(' ');
        }
        let mut k: usize = 0;
        while k < t.len()
            invariant
                k <= t@.len(),
                text@ == (if i > 0 {
                    before + seq![' ']
                } else {
                    before
                }) + t@.take(k as int),
            decreases t@.len() - k,
        {
            text.push(t[k]);
            assert((if i > 0 {
                before + seq![' ']
            } else {
                before
            }) + t@.take(k as int).push(t@[k as int]) =~= (if i > 0 {
                before + seq![' ']
            } else {
                before
            }) + t@.take(k + 1));
            k += 1;
        }
        assert(t@.take(t@.len() as int) =~= t@);
        assert(trimmed.take(i + 1).drop_last() =~= trimmed.take(i as int));
        if i == 0 {
            assert(before =~= Seq::<char>::empty());
            assert(text@ =~= trimmed.take(1)[0]);
        }
        i += 1;
    }
    assert(trimmed.take(args@.len() as int) =~= trimmed);
    text
}

impl TranscriptCollector {
    /// A collector that has seen nothing yet.
    pub fn new() -> (c: TranscriptCollector)
        ensures
            c.console@.len() == 0,
            c.exceptions@.len() == 0,
            c.gl_errors@.len() == 0,
            !c.done,
    {
        TranscriptCollector {
            console: Vec::new(),
            exceptions: Vec::new(),
            gl_errors: Vec::new(),
            done: false,
        }
    }

    /// Record a console call at `level` whose arguments render as `args`.
    /// Its text completes the run when it holds the sentinel, is a GL report
    /// when it holds one of the tags, and always becomes a console line.
    pub fn on_console(&mut self, level: &str, args: &Vec<String>)
        ensures
            final(self).done == (old(self).done || has_substring(
                console_text(string_views(args@)),
                DONE_SENTINEL@,
            )),
            string_views(final(self).gl_errors@) == string_views(old(self).gl_errors@) + if is_gl_report(
                console_text(string_views(args@)),
            ) {
                seq![console_text(string_views(args@))]
            } else {
                Seq::<Seq<char>>::empty()
            },
            string_views(final(self).console@) == string_views(old(self).console@).push(
                console_line(level@, console_text(string_views(args@))),
            ),
            final(self).exceptions == old(self).exceptions,
    {
        let text = join_console_args(args);
        let t = text.as_slice();
        if find_substring(t, str_chars(DONE_SENTINEL).as_slice()) {
            self.done = true;
        }
        let ghost old_gl = self.gl_errors@;
        if find_substring(t, str_chars(GL_ERROR_TAG).as_slice()) || find_substring(
            t,
            str_chars(SHADER_LOG_TAG).as_slice(),
        ) || find_substring(t, str_chars(PROGRAM_LOG_TAG).as_slice()) {
            let mut line = String::new();
            push_chars(&mut line, t);
            self.gl_errors.push(line);
            assert(string_views(self.gl_errors@) =~= string_views(old_gl) + seq![text@]);
        } else {
            assert(string_views(self.gl_errors@) =~= string_views(old_gl) + Seq::<Seq<char>>::empty());
        }
        let mut line = String::new();
        push_str_chars(&mut line, "[");
        push_str_chars(&mut line, level);
        push_str_chars(&mut line, "] ");
        push_chars(&mut line, t);
        assert(line@ =~= console_line(level@, text@));
        let ghost old_console = self.console@;
        self.console.push(line);
        assert(string_views(self.console@) =~= string_views(old_console).push(
            console_line(level@, text@),
        ));
    }

    /// Record an uncaught exception, described as `details`.
    pub fn on_exception(&mut self, details: String)
        ensures
            final(self).exceptions@ == old(self).exceptions@.push(details),
            final(self).console == old(self).console,
            final(self).gl_errors == old(self).gl_errors,
            final(self).done == old(self).done,
    {
        self.exceptions.push(details);
    }

    /// Whether the page has logged its completion sentinel.
    pub fn is_done(&self) -> (d: bool)
        ensures
            d == self.done,
    {
        self.done
    }

    /// The transcript: the collected lines, the screenshot, and whether the
    /// shaders built, which holds unless some GL report tells of a failed
    /// compile or link.
    pub fn finish(self, screenshot_png: Vec<u8>) -> (t: BrowserTranscript)
        ensures
            t.console == self.console,
            t.exceptions == self.exceptions,
            t.gl_errors == self.gl_errors,
            t.screenshot_png == screenshot_png,
            t.compiled_ok == !exists|i: int|
                0 <= i < self.gl_errors@.len() && #[trigger] is_build_failure(
                    self.gl_errors@[i]@,
                ),
    {
        let compile_failed = str_chars("compile failed");
        let link_failed = str_chars("link failed");
        let mut ok = true;
        let mut i: usize = 0;
        while i < self.gl_errors.len()
            invariant
                i <= self.gl_errors@.len(),
                compile_failed@ == "compile failed"@,
                link_failed@ == "link failed"@,
                ok == !exists|j: int|
                    0 <= j < i && #[trigger] is_build_failure(self.gl_errors@[j]@),
            decreases self.gl_errors@.len() - i,
        {
            let line = str_chars(self.gl_errors[i].as_str());
            let failed = find_substring(line.as_slice(), compile_failed.as_slice()) || find_substring(
                line.as_slice(),
                link_failed.as_slice(),
            );
            assert(failed == is_build_failure(self.gl_errors@[i as int]@));
            if failed {
                ok = false;
            }
            i += 1;
        }
        BrowserTranscript {
            console: self.console,
            exceptions: self.exceptions,
            gl_errors: self.gl_errors,
            compiled_ok: ok,
            screenshot_png,
        }
    }
}

/// The harness page and the collector agree on completion: every page ends by
/// logging the sentinel that marks a run as done.
pub proof fn lemma_harness_reports_completion(body: Seq<char>, w: u32, h: u32, frames: u32)
    ensures
        has_substring(spec_harness_html(body, w, h, frames), DONE_SENTINEL@),
{
    let html = spec_harness_html(body, w, h, frames);
    let before = PAGE_HEAD@ + decimal(w as nat) + PAGE_CANVAS_HEIGHT@ + decimal(h as nat)
        + PAGE_SCRIPT_START@ + PAGE_VERTEX_VAR@ + json_string_literal(VERTEX_SOURCE@)
        + PAGE_FRAGMENT_VAR@ + json_string_literal(spec_fragment_source(body)) + PAGE_SOURCES_END@
        + PAGE_SETUP@ + PAGE_COMPILE@ + PAGE_LINK@ + decimal(w as nat) + PAGE_RESOLUTION_Y@
        + decimal(h as nat) + PAGE_FRAME_LOOP@ + decimal(w as nat) + PAGE_COMMA@ + decimal(h as nat)
        + PAGE_DRAW@ + decimal(frames as nat) + PAGE_FINISH@;
    assert(html =~= before + DONE_SENTINEL@ + PAGE_TAIL@);
    crate::text::lemma_has_substring_middle(before, DONE_SENTINEL@, PAGE_TAIL@);
}

/// The user's body stands unchanged, on a line of its own, inside the fragment
/// shader that the page compiles.
pub proof fn lemma_fragment_embeds_body(body: Seq<char>)
    ensures
        has_substring(spec_fragment_source(body), body),
{
    crate::text::lemma_has_substring_middle(FRAGMENT_HEAD@, body, "\n"@ + FRAGMENT_MAIN@);
    assert(FRAGMENT_HEAD@ + body + ("\n"@ + FRAGMENT_MAIN@) =~= spec_fragment_source(body));
}

/// The page binds `vsrc` to the JSON literal of the vertex source and `fsrc` to
/// the JSON literal of the fragment shader built from the body.
pub proof fn lemma_harness_binds_shader_sources(body: Seq<char>, w: u32, h: u32, frames: u32)
    ensures
        has_substring(
            spec_harness_html(body, w, h, frames),
            "var vsrc="@ + json_string_literal(VERTEX_SOURCE@) + ", fsrc="@ + json_string_literal(
                spec_fragment_source(body),
            ) + ";"@,
        ),
{
    let html = spec_harness_html(body, w, h, frames);
    let before = PAGE_HEAD@ + decimal(w as nat) + PAGE_CANVAS_HEIGHT@ + decimal(h as nat)
        + PAGE_SCRIPT_START@;
    let binding = "var vsrc="@ + json_string_literal(VERTEX_SOURCE@) + ", fsrc="@
        + json_string_literal(spec_fragment_source(body)) + ";"@;
    let after = PAGE_SETUP@ + PAGE_COMPILE@ + PAGE_LINK@ + decimal(w as nat) + PAGE_RESOLUTION_Y@
        + decimal(h as nat) + PAGE_FRAME_LOOP@ + decimal(w as nat) + PAGE_COMMA@ + decimal(h as nat)
        + PAGE_DRAW@ + decimal(frames as nat) + PAGE_FINISH@ + DONE_SENTINEL@ + PAGE_TAIL@;
    assert(html =~= before + binding + after);
    crate::text::lemma_has_substring_middle(before, binding, after);
}

/// The page compiles `vsrc` as the vertex shader and `fsrc` as the fragment
/// shader.
pub proof fn lemma_harness_compiles_shader_sources(body: Seq<char>, w: u32, h: u32, frames: u32)
    ensures
        has_substring(
            spec_harness_html(body, w, h, frames),
            "var vs=sh(gl.VERTEX_SHADER,vsrc); if(!vs) return;\n  var fs=sh(gl.FRAGMENT_SHADER,fsrc); if(!fs) return;"@,
        ),
{
    let html = spec_harness_html(body, w, h, frames);
    let before = PAGE_HEAD@ + decimal(w as nat) + PAGE_CANVAS_HEIGHT@ + decimal(h as nat)
        + PAGE_SCRIPT_START@ + PAGE_VERTEX_VAR@ + json_string_literal(VERTEX_SOURCE@)
        + PAGE_FRAGMENT_VAR@ + json_string_literal(spec_fragment_source(body)) + PAGE_SOURCES_END@
        + PAGE_SETUP@;
    let after = PAGE_LINK@ + decimal(w as nat) + PAGE_RESOLUTION_Y@ + decimal(h as nat)
        + PAGE_FRAME_LOOP@ + decimal(w as nat) + PAGE_COMMA@ + decimal(h as nat) + PAGE_DRAW@
        + decimal(frames as nat) + PAGE_FINISH@ + DONE_SENTINEL@ + PAGE_TAIL@;
    assert(html =~= before + PAGE_COMPILE@ + after);
    crate::text::lemma_has_substring_middle(before, PAGE_COMPILE@, after);
}

} // verus!
