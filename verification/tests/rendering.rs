use oxidize::errors::ThemeError;
use oxidize::mapping::Mapping;
use oxidize::render::{expand, plan_renders, render_all, templates_in};

fn mapping(vars: &[(&str, &str)]) -> Mapping {
    let mut m = Mapping::new();
    for (k, v) in vars {
        m.insert(k.as_bytes().to_vec(), v.as_bytes().to_vec());
    }
    m
}

fn expand_str(text: &str, vars: &[(&str, &str)]) -> String {
    let m = mapping(vars);
    String::from_utf8(expand(&text.as_bytes().to_vec(), &m)).unwrap()
}

#[test]
fn expand_substitutes_known_keys() {
    assert_eq!(expand_str("color={{ bg }}!", &[("bg", "#1e1e2e")]), "color=#1e1e2e!");
}

#[test]
fn expand_keeps_unknown_keys_inspectable() {
    assert_eq!(expand_str("x={{ missing }}", &[("bg", "#1e1e2e")]), "x={{ missing }}");
}

#[test]
fn expand_keeps_degenerate_markup() {
    assert_eq!(expand_str("{{}} and {{ open", &[]), "{{}} and {{ open");
}

#[test]
fn templates_in_selects_tpl_files_below_root() {
    let dir = b"/root/tpl".to_vec();
    let entries = vec![
        (b"/root/tpl".to_vec(), false),
        (b"/root/tpl/kitty.conf.tpl".to_vec(), true),
        (b"/root/tpl/sub".to_vec(), false),
        (b"/root/tpl/sub/bar.css.tpl".to_vec(), true),
        (b"/root/tpl/readme.txt".to_vec(), true),
        (b"/root/tpl/dir.tpl".to_vec(), false),
        (b"/root/tpl/.tpl".to_vec(), true),
    ];
    let found = templates_in(&dir, &entries);
    assert_eq!(
        found,
        vec![
            (b"/root/tpl/kitty.conf.tpl".to_vec(), b"kitty.conf.tpl".to_vec()),
            (b"/root/tpl/sub/bar.css.tpl".to_vec(), b"sub/bar.css.tpl".to_vec()),
        ]
    );
}

#[test]
fn plan_prefers_user_templates_at_same_relative_path() {
    let user = vec![(b"/u/a.conf.tpl".to_vec(), b"a.conf.tpl".to_vec())];
    let bundled = vec![
        (b"/b/a.conf.tpl".to_vec(), b"a.conf.tpl".to_vec()),
        (b"/b/c.css.tpl".to_vec(), b"c.css.tpl".to_vec()),
    ];
    let plan = plan_renders(&user, &bundled);
    assert_eq!(plan.len(), 2);
    assert_eq!(plan[0].source, b"/u/a.conf.tpl".to_vec());
    assert_eq!(plan[0].rel, b"a.conf.tpl".to_vec());
    assert_eq!(plan[0].out_rel, b"a.conf".to_vec());
    assert!(plan[0].from_user);
    assert_eq!(plan[1].source, b"/b/c.css.tpl".to_vec());
    assert_eq!(plan[1].out_rel, b"c.css".to_vec());
    assert!(!plan[1].from_user);
}

#[test]
fn render_all_fails_config_error_without_templates_root() {
    let r = render_all(&b"/nonexistent/certainly/missing".to_vec(), &b"/also/missing".to_vec());
    assert!(matches!(r, Err(ThemeError::ConfigError)));
}
