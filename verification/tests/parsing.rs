use oxidize::parser::{parse, Segment};

fn render(segs: &[Segment], vars: &[(&str, &str)]) -> String {
    let map: std::collections::HashMap<_, _> = vars.iter().copied().collect();
    let mut out = String::new();
    for s in segs {
        match s {
            Segment::Lit(t) => out.push_str(std::str::from_utf8(t).unwrap()),
            Segment::Var(k) => {
                let key = std::str::from_utf8(k).unwrap();
                out.push_str(map.get(key).copied().unwrap_or("MISSING"));
            }
        }
    }
    out
}

fn parse_str(text: &str) -> Vec<Segment> {
    parse(&text.as_bytes().to_vec())
}

#[test]
fn simple_substitution() {
    let segs = parse_str("color={{ bg }}!");
    assert_eq!(render(&segs, &[("bg", "#1e1e2e")]), "color=#1e1e2e!");
}

#[test]
fn literal_passthrough() {
    let segs = parse_str("no tokens here");
    assert_eq!(render(&segs, &[]), "no tokens here");
}

#[test]
fn unclosed_brace_is_literal() {
    let segs = parse_str("oops {{ unclosed");
    assert_eq!(render(&segs, &[]), "oops {{ unclosed");
}

#[test]
fn empty_braces_are_literal() {
    let segs = parse_str("{{}}");
    assert_eq!(render(&segs, &[]), "{{}}");
}

#[test]
fn whitespace_inside_braces_is_trimmed() {
    let segs = parse_str("{{  key  }}");
    assert_eq!(render(&segs, &[("key", "val")]), "val");
}

#[test]
fn empty_braces_with_spaces_are_one_literal() {
    let segs = parse_str("{{   }}");
    assert_eq!(segs, vec![Segment::Lit(b"{{   }}".to_vec())]);
    let segs = parse_str("{{}}");
    assert_eq!(segs, vec![Segment::Lit(b"{{}}".to_vec())]);
}

#[test]
fn tabs_inside_braces_are_trimmed() {
    let segs = parse_str("{{\tkey\t}}");
    assert_eq!(segs, vec![Segment::Var(b"key".to_vec())]);
}

#[test]
fn segments_of_mixed_template() {
    let segs = parse_str("a {{ x }} b {{y}} c");
    assert_eq!(
        segs,
        vec![
            Segment::Lit(b"a ".to_vec()),
            Segment::Var(b"x".to_vec()),
            Segment::Lit(b" b ".to_vec()),
            Segment::Var(b"y".to_vec()),
            Segment::Lit(b" c".to_vec()),
        ]
    );
}

fn reconstruct(segs: &[Segment]) -> Vec<u8> {
    let mut out = Vec::new();
    for s in segs {
        match s {
            Segment::Lit(t) => out.extend_from_slice(t),
            Segment::Var(k) => {
                out.extend_from_slice(b"{{ ");
                out.extend_from_slice(k);
                out.extend_from_slice(b" }}");
            }
        }
    }
    out
}

#[test]
fn round_trip_is_idempotent() {
    for text in [
        "color={{ bg }}!",
        "{{x}}{{ y }} tail",
        "a{{{b}}",
        "{{ a{{b }}",
        "{{   }}{{k}}",
        "oops {{ unclosed",
        "plain",
        "",
        "x={{ missing }}{{}}end",
    ] {
        let first = parse_str(text);
        let rebuilt = reconstruct(&first);
        let second = parse(&rebuilt);
        assert_eq!(second, first, "round trip changed segments for {:?}", text);
    }
}

#[test]
fn nested_open_inside_reference_belongs_to_name() {
    let segs = parse_str("{{ a{{b }}");
    assert_eq!(segs, vec![Segment::Var(b"a{{b".to_vec())]);
}
