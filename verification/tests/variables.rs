use oxidize::errors::ThemeError;
use oxidize::mapping::Mapping;
use oxidize::vars::{build_vars_from_colors, derive_color_keys, hex_to_rgb};

fn get<'a>(m: &'a Mapping, key: &str) -> Option<String> {
    m.get(&key.as_bytes().to_vec()).map(|v| String::from_utf8(v.clone()).unwrap())
}

#[test]
fn hex_to_rgb_decodes_three_pairs() {
    assert_eq!(hex_to_rgb(&b"a1b2c3".to_vec()), Some(b"161,178,195".to_vec()));
    assert_eq!(hex_to_rgb(&b"000000".to_vec()), Some(b"0,0,0".to_vec()));
    assert_eq!(hex_to_rgb(&b"ffffff".to_vec()), Some(b"255,255,255".to_vec()));
    assert_eq!(hex_to_rgb(&b"fff".to_vec()), None);
    assert_eq!(hex_to_rgb(&b"a1b2cg".to_vec()), None);
}

#[test]
fn derive_adds_strip_and_rgb() {
    let pairs = derive_color_keys(&b"accent".to_vec(), &b"#a1b2c3".to_vec());
    assert_eq!(
        pairs,
        vec![
            (b"accent_strip".to_vec(), b"a1b2c3".to_vec()),
            (b"accent_rgb".to_vec(), b"161,178,195".to_vec()),
        ]
    );
}

#[test]
fn derive_without_valid_payload_only_strips() {
    let pairs = derive_color_keys(&b"bg".to_vec(), &b"#fff".to_vec());
    assert_eq!(pairs, vec![(b"bg_strip".to_vec(), b"fff".to_vec())]);
}

#[test]
fn build_flattens_nested_tables() {
    let src = b"bg = \"#1e1e2e\"\ncount = 3\nflag = true\n[accent]\ncolor = \"#a1b2c3\"\n".to_vec();
    let m = build_vars_from_colors(&src).unwrap();
    assert_eq!(get(&m, "bg"), Some("#1e1e2e".to_string()));
    assert_eq!(get(&m, "count"), Some("3".to_string()));
    assert_eq!(get(&m, "flag"), Some("true".to_string()));
    assert_eq!(get(&m, "accent_color"), Some("#a1b2c3".to_string()));
    assert_eq!(get(&m, "bg_strip"), Some("1e1e2e".to_string()));
    assert_eq!(get(&m, "bg_rgb"), Some("30,30,46".to_string()));
    assert_eq!(get(&m, "accent_color_strip"), Some("a1b2c3".to_string()));
    assert_eq!(get(&m, "accent_color_rgb"), Some("161,178,195".to_string()));
    assert_eq!(get(&m, "missing"), None);
}

#[test]
fn build_drops_arrays_and_datetimes() {
    let src = b"xs = [1, 2, 3]\nkeep = \"v\"\n".to_vec();
    let m = build_vars_from_colors(&src).unwrap();
    assert_eq!(get(&m, "keep"), Some("v".to_string()));
    assert_eq!(get(&m, "xs"), None);
}

#[test]
fn build_rejects_malformed_document() {
    let src = b"= = =".to_vec();
    assert!(matches!(build_vars_from_colors(&src), Err(ThemeError::ParseError)));
}

#[test]
fn mapping_insert_replaces_existing_key() {
    let mut m = Mapping::new();
    m.insert(b"k".to_vec(), b"one".to_vec());
    m.insert(b"k".to_vec(), b"two".to_vec());
    m.insert(b"other".to_vec(), b"x".to_vec());
    assert_eq!(m.len(), 2);
    assert_eq!(m.get(&b"k".to_vec()), Some(&b"two".to_vec()));
}
