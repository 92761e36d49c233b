use shadereye::browser::{
    generate_html, harness_for, html_data_url, BrowserRunParams, TranscriptCollector,
};

#[test]
fn html_embeds_user_body_and_reporters() {
    let html = generate_html(
        "void mainImage(out vec4 o, in vec2 fc){ o=vec4(1.0); }",
        32,
        32,
        3,
    );
    assert!(html.contains("<canvas"));
    assert!(html.contains("getShaderInfoLog"));
    assert!(html.contains("getProgramInfoLog"));
    assert!(html.contains("mainImage"));
    assert!(html.contains("SHADEREYE_DONE"));
    assert!(html.contains("300 es"));
}

#[test]
fn html_carries_size_and_frame_count() {
    let html = generate_html("void mainImage(out vec4 o, in vec2 fc){}", 640, 360, 12);
    assert!(html.contains("<canvas id=\"c\" width=\"640\" height=\"360\"></canvas>"));
    assert!(html.contains("gl.uniform3f(uRes,640.0,360.0,1.0)"));
    assert!(html.contains("gl.viewport(0,0,640,360)"));
    assert!(html.contains("if(n<12) requestAnimationFrame(frame);"));
    assert!(html.ends_with("</script></body></html>"));
}

#[test]
fn body_is_json_escaped_in_the_page() {
    let html = generate_html("// say \"hi\"\nvoid mainImage(out vec4 o, in vec2 fc){}", 1, 1, 1);
    assert!(html.contains("// say \\\"hi\\\"\\nvoid mainImage"));
}

#[test]
fn run_uses_at_least_one_frame() {
    let p = BrowserRunParams { source: "x".to_string(), width: 4, height: 2, frames: 0 };
    assert!(harness_for(&p).contains("if(n<1) requestAnimationFrame"));
    let p = BrowserRunParams { source: "x".to_string(), width: 4, height: 2, frames: 7 };
    assert_eq!(harness_for(&p), generate_html("x", 4, 2, 7));
}

#[test]
fn data_url_is_base64_of_the_page() {
    assert_eq!(html_data_url("hi"), "data:text/html;base64,aGk=");
    assert_eq!(html_data_url(""), "data:text/html;base64,");
}

fn args(v: &[&str]) -> Vec<String> {
    v.iter().map(|s| s.to_string()).collect()
}

#[test]
fn collector_classifies_console_calls() {
    let mut c = TranscriptCollector::new();
    c.on_console("Log", &args(&["\"hello\"", "42"]));
    assert_eq!(c.console, vec!["[Log] hello 42".to_string()]);
    assert!(c.gl_errors.is_empty());
    assert!(!c.is_done());

    c.on_console("Warning", &args(&["\"SHADEREYE_SHADER_LOG[frag]: ERROR: 0:3: bad\""]));
    assert_eq!(c.gl_errors, vec!["SHADEREYE_SHADER_LOG[frag]: ERROR: 0:3: bad".to_string()]);

    c.on_exception("ReferenceError".to_string());
    c.on_console("Error", &args(&["\"SHADEREYE_GL_ERROR: shader compile failed\""]));
    c.on_console("Log", &args(&["\"SHADEREYE_DONE\""]));
    assert!(c.is_done());
    // done stays set
    c.on_console("Log", &args(&["\"later\""]));
    assert!(c.is_done());

    let t = c.finish(vec![1, 2, 3]);
    assert_eq!(t.console.len(), 5);
    assert_eq!(t.console[2], "[Error] SHADEREYE_GL_ERROR: shader compile failed");
    assert_eq!(t.exceptions, vec!["ReferenceError".to_string()]);
    assert_eq!(t.gl_errors.len(), 2);
    assert!(!t.compiled_ok);
    assert_eq!(t.screenshot_png, vec![1, 2, 3]);
}

#[test]
fn clean_run_compiles() {
    let mut c = TranscriptCollector::new();
    c.on_console("Warning", &args(&["\"SHADEREYE_PROGRAM_LOG: note\""]));
    c.on_console("Log", &args(&["\"SHADEREYE_DONE\""]));
    let t = c.finish(Vec::new());
    assert!(t.compiled_ok);
    assert_eq!(t.gl_errors, vec!["SHADEREYE_PROGRAM_LOG: note".to_string()]);
}

#[test]
fn link_failure_means_not_compiled() {
    let mut c = TranscriptCollector::new();
    c.on_console("Error", &args(&["\"SHADEREYE_GL_ERROR: program link failed\""]));
    assert!(!c.finish(Vec::new()).compiled_ok);
}

#[test]
fn empty_call_gives_empty_text() {
    let mut c = TranscriptCollector::new();
    c.on_console("Log", &Vec::new());
    assert_eq!(c.console, vec!["[Log] ".to_string()]);
    c.on_console("Log", &args(&["\"\"\"a\"\""]));
    assert_eq!(c.console[1], "[Log] a");
}

#[test]
fn control_characters_are_json_escaped() {
    let html = generate_html("a\u{1}b\tc\\d\u{1f}", 1, 1, 1);
    assert!(html.contains("a\\u0001b\\tc\\\\d\\u001f"));
}
