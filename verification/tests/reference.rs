use shadereye::reference::{lookup, RefEntry};

fn entry(name: &str, sig: &str, note: &str) -> RefEntry {
    RefEntry { name: name.to_string(), sig: sig.to_string(), note: note.to_string() }
}

fn sample() -> Vec<RefEntry> {
    vec![
        entry("smoothstep", "float smoothstep(float e0, float e1, float x)", "Hermite interpolation."),
        entry("mix", "T mix(T x, T y, float a)", "Linear blend of x and y."),
        entry("webgl-precision", "", "WebGL fragment shaders need a default PRECISION qualifier."),
        entry("integer-division", "", "In GLSL, 1/2 == 0 (integer division)."),
    ]
}

fn names(found: &[RefEntry]) -> Vec<&str> {
    found.iter().map(|e| e.name.as_str()).collect()
}

#[test]
fn finds_entry_by_name() {
    let found = lookup(&sample(), "smoothstep");
    assert_eq!(names(&found), vec!["smoothstep"]);
}

#[test]
fn finds_entry_by_note_case_insensitively() {
    let found = lookup(&sample(), "precision");
    assert_eq!(names(&found), vec!["webgl-precision"]);
    let found = lookup(&sample(), "INTEGER DIVISION");
    assert_eq!(names(&found), vec!["integer-division"]);
}

#[test]
fn finds_entry_by_signature() {
    let found = lookup(&sample(), "float a)");
    assert_eq!(names(&found), vec!["mix"]);
}

#[test]
fn keeps_order_of_all_matches() {
    let found = lookup(&sample(), "in");
    assert_eq!(names(&found), vec!["smoothstep", "mix", "integer-division"]);
}

#[test]
fn empty_for_unknown_query() {
    assert!(lookup(&sample(), "zzz-no-such-token-xyz").is_empty());
    assert!(lookup(&Vec::new(), "mix").is_empty());
}

fn bundled() -> Vec<RefEntry> {
    vec![
        entry("clamp", "genType clamp(genType x, genType minV, genType maxV)", "Returns min(max(x,minV),maxV). Common for keeping colors in [0,1]."),
        entry("mix", "genType mix(genType a, genType b, genType t)", "Linear interpolation a*(1-t)+b*t."),
        entry("smoothstep", "genType smoothstep(edge0, edge1, x)", "Hermite interpolation; 0 below edge0, 1 above edge1. edge0 must be < edge1."),
        entry("fract", "genType fract(genType x)", "x - floor(x). Core of most procedural/noise patterns."),
        entry("webgl-precision", "", "WebGL2/GLSL ES requires an explicit precision qualifier (e.g. 'precision highp float;'). naga/desktop GLSL does not — shaders that work in shadereye native may fail in-browser without it."),
        entry("integer-division", "", "In GLSL, 1/2 == 0 (integer division). Use 1.0/2.0 for float results."),
    ]
}

#[test]
fn finds_smoothstep() {
    let r = lookup(&bundled(), "smoothstep");
    assert!(r.iter().any(|e| e.name == "smoothstep"));
}

#[test]
fn finds_gotcha_by_topic() {
    let r = lookup(&bundled(), "precision");
    assert!(r.iter().any(|e| e.name == "webgl-precision"));
}

#[test]
fn empty_for_unknown() {
    assert!(lookup(&bundled(), "zzz-no-such-token-xyz").is_empty());
}

#[test]
fn ascii_case_of_query_does_not_matter_beside_other_letters() {
    let entries = vec![entry("précision", "", "Qualificateur de précision en GLSL ES.")];
    let lower = lookup(&entries, "précision");
    let upper = lookup(&entries, "PRéCISION");
    assert_eq!(names(&lower), vec!["précision"]);
    assert_eq!(names(&upper), names(&lower));
}
