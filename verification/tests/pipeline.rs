use oxidize::apply::{run, ApplyFlags};
use oxidize::ctx::Ctx;
use oxidize::errors::ThemeError;
use oxidize::theme::{stage_assets, FileProbe, Theme, ThemeDirProbe};
use oxidize::transaction::Transaction;
use oxidize::util::{symlink_force, FsAction};
use oxidize::wallpaper::{pick_next, sort_dedup_paths, Candidate};

fn probe_with_colors(colors: FileProbe) -> ThemeDirProbe {
    ThemeDirProbe {
        root_is_dir: true,
        colors,
        light_marker: false,
        icons: FileProbe::Absent,
        backgrounds_is_dir: false,
    }
}

#[test]
fn load_fails_not_found_without_directory() {
    let mut probe = probe_with_colors(FileProbe::Absent);
    probe.root_is_dir = false;
    let r = Theme::load(&b"/cfg/themes/data".to_vec(), &b"nord".to_vec(), &probe);
    assert!(matches!(r, Err(ThemeError::NotFound)));
}

#[test]
fn load_fails_missing_variables_without_colors_file() {
    let probe = probe_with_colors(FileProbe::Absent);
    let r = Theme::load(&b"/cfg/themes/data".to_vec(), &b"nord".to_vec(), &probe);
    assert!(matches!(r, Err(ThemeError::MissingVariables)));
}

#[test]
fn load_fails_parse_error_on_malformed_colors() {
    let probe = probe_with_colors(FileProbe::Text(b"= = =".to_vec()));
    let r = Theme::load(&b"/cfg/themes/data".to_vec(), &b"nord".to_vec(), &probe);
    assert!(matches!(r, Err(ThemeError::ParseError)));
}

#[test]
fn load_fails_io_error_on_unreadable_colors() {
    let probe = probe_with_colors(FileProbe::Unreadable);
    let r = Theme::load(&b"/cfg/themes/data".to_vec(), &b"nord".to_vec(), &probe);
    assert!(matches!(r, Err(ThemeError::IoError)));
}

#[test]
fn load_assembles_descriptor() {
    let mut probe = probe_with_colors(FileProbe::Text(b"bg = \"#1e1e2e\"\n".to_vec()));
    probe.light_marker = true;
    probe.icons = FileProbe::Text(b"  Papirus-Dark \n".to_vec());
    probe.backgrounds_is_dir = true;
    let t = Theme::load(&b"/cfg/themes/data".to_vec(), &b"nord".to_vec(), &probe).unwrap();
    assert_eq!(t.name, b"nord".to_vec());
    assert_eq!(t.root, b"/cfg/themes/data/nord".to_vec());
    assert!(t.is_light);
    assert_eq!(t.icon_theme, Some(b"Papirus-Dark".to_vec()));
    assert_eq!(t.backgrounds_dir, Some(b"/cfg/themes/data/nord/backgrounds".to_vec()));
    assert_eq!(t.vars.get(&b"bg_strip".to_vec()), Some(&b"1e1e2e".to_vec()));
}

#[test]
fn load_treats_blank_icon_marker_as_none() {
    let mut probe = probe_with_colors(FileProbe::Text(b"a = 1\n".to_vec()));
    probe.icons = FileProbe::Text(b"  \n".to_vec());
    let t = Theme::load(&b"/d".to_vec(), &b"x".to_vec(), &probe).unwrap();
    assert_eq!(t.icon_theme, None);
}

#[test]
fn current_theme_name_is_trimmed() {
    assert_eq!(
        oxidize::theme::parse_current_theme(&b"  nord \n".to_vec()),
        Some(b"nord".to_vec())
    );
    assert_eq!(oxidize::theme::parse_current_theme(&b" \n".to_vec()), None);
    assert_eq!(oxidize::theme::parse_current_theme(&b"".to_vec()), None);
}

#[test]
fn ctx_paths_follow_layout() {
    let ctx = Ctx::from_config_dir(b"/home/u/.config/oxidize".to_vec());
    let themes = "/home/u/.config/oxidize/themes";
    assert_eq!(ctx.data_dir, format!("{themes}/data").into_bytes());
    assert_eq!(ctx.templates_dir, format!("{themes}/templates").into_bytes());
    assert_eq!(ctx.user_templates_dir, format!("{themes}/user-templates").into_bytes());
    assert_eq!(ctx.generated_dir, format!("{themes}/generated").into_bytes());
    assert_eq!(ctx.live_dir, format!("{themes}/generated/live").into_bytes());
    assert_eq!(ctx.current_link, format!("{themes}/current").into_bytes());
    assert_eq!(ctx.current_theme_file, format!("{themes}/current.theme").into_bytes());
    assert_eq!(ctx.background_link, format!("{themes}/background").into_bytes());
}

#[test]
fn symlink_force_plans_parent_removal_and_link() {
    let actions = symlink_force(&b"/t/live".to_vec(), &b"/t/current".to_vec(), true);
    assert_eq!(
        actions,
        vec![
            FsAction::CreateDirAll(b"/t".to_vec()),
            FsAction::RemoveAny(b"/t/current".to_vec()),
            FsAction::Symlink(b"/t/live".to_vec(), b"/t/current".to_vec()),
        ]
    );
}

#[test]
fn symlink_force_skips_removal_when_nothing_stands_there() {
    let actions = symlink_force(&b"/t/live".to_vec(), &b"/t/current".to_vec(), false);
    assert_eq!(
        actions,
        vec![
            FsAction::CreateDirAll(b"/t".to_vec()),
            FsAction::Symlink(b"/t/live".to_vec(), b"/t/current".to_vec()),
        ]
    );
}

#[test]
fn begin_fails_io_error_without_scratch_directory() {
    let ctx = Ctx::from_config_dir(b"/nonexistent/certainly/missing".to_vec());
    let r = Transaction::begin(&ctx);
    assert!(matches!(r, Err(ThemeError::IoError)));
}

#[test]
fn commit_plans_swap_then_alias() {
    let stage_dir = tempfile::TempDir::new().unwrap();
    let txn = Transaction {
        stage_dir,
        stage_path: b"/th/generated/.stage.abc".to_vec(),
        parent: b"/th/generated".to_vec(),
        live: b"/th/generated/live".to_vec(),
        link: b"/th/current".to_vec(),
    };
    let actions = txn.commit(true, true);
    assert_eq!(
        actions,
        vec![
            FsAction::RemoveAny(b"/th/generated/live".to_vec()),
            FsAction::Rename(b"/th/generated/.stage.abc".to_vec(), b"/th/generated/live".to_vec()),
            FsAction::CreateDirAll(b"/th".to_vec()),
            FsAction::RemoveAny(b"/th/current".to_vec()),
            FsAction::Symlink(b"/th/generated/live".to_vec(), b"/th/current".to_vec()),
        ]
    );
}

#[test]
fn commit_on_first_publish_skips_removals() {
    let stage_dir = tempfile::TempDir::new().unwrap();
    let txn = Transaction {
        stage_dir,
        stage_path: b"/th/generated/.stage.abc".to_vec(),
        parent: b"/th/generated".to_vec(),
        live: b"/th/generated/live".to_vec(),
        link: b"/th/current".to_vec(),
    };
    let actions = txn.commit(false, false);
    assert_eq!(
        actions,
        vec![
            FsAction::Rename(b"/th/generated/.stage.abc".to_vec(), b"/th/generated/live".to_vec()),
            FsAction::CreateDirAll(b"/th".to_vec()),
            FsAction::Symlink(b"/th/generated/live".to_vec(), b"/th/current".to_vec()),
        ]
    );
}

fn cand(path: &str, canonical: Option<&str>) -> Candidate {
    Candidate {
        path: path.as_bytes().to_vec(),
        canonical: canonical.map(|c| c.as_bytes().to_vec()),
    }
}

#[test]
fn pick_next_advances_and_wraps() {
    let cands = vec![
        cand("a.png", Some("/r/a.png")),
        cand("b.png", Some("/r/b.png")),
        cand("c.png", Some("/r/c.png")),
    ];
    assert_eq!(pick_next(&cands, Some(&b"/r/b.png".to_vec())), 2);
    assert_eq!(pick_next(&cands, Some(&b"/r/c.png".to_vec())), 0);
    assert_eq!(pick_next(&cands, Some(&b"/r/gone.png".to_vec())), 0);
    assert_eq!(pick_next(&cands, None), 0);
}

#[test]
fn pick_next_skips_unresolved_candidates() {
    let cands = vec![cand("a.png", None), cand("b.png", Some("/r/b.png"))];
    assert_eq!(pick_next(&cands, Some(&b"/r/b.png".to_vec())), 0);
}

#[test]
fn sort_dedup_orders_and_removes_duplicates() {
    let paths = vec![
        b"c.png".to_vec(),
        b"a.png".to_vec(),
        b"b.png".to_vec(),
        b"a.png".to_vec(),
    ];
    let sorted = sort_dedup_paths(&paths);
    assert_eq!(sorted, vec![b"a.png".to_vec(), b"b.png".to_vec(), b"c.png".to_vec()]);
}

#[test]
fn gnome_settings_follow_light_flag() {
    let probe = probe_with_colors(FileProbe::Text(b"a = 1\n".to_vec()));
    let mut theme = Theme::load(&b"/d".to_vec(), &b"x".to_vec(), &probe).unwrap();
    let dark = run(&theme, false);
    assert_eq!(dark.color_scheme, b"prefer-dark".to_vec());
    assert_eq!(dark.gtk_theme, b"adw-gtk3-dark".to_vec());
    assert_eq!(dark.icon_theme, None);
    theme.is_light = true;
    theme.icon_theme = Some(b"Papirus".to_vec());
    let light = run(&theme, false);
    assert_eq!(light.color_scheme, b"prefer-light".to_vec());
    assert_eq!(light.gtk_theme, b"adw-gtk3".to_vec());
    assert_eq!(light.icon_theme, Some(b"Papirus".to_vec()));
    let no_icons = run(&theme, true);
    assert_eq!(no_icons.icon_theme, None);
}

#[test]
fn apply_flags_carry_choices() {
    let flags = ApplyFlags {
        no_apply: false,
        no_gnome: true,
        no_icons: false,
        no_reload: true,
        no_wallpaper: false,
    };
    assert!(flags.no_gnome && flags.no_reload);
    assert!(!(flags.no_apply || flags.no_icons || flags.no_wallpaper));
}

#[test]
fn stage_assets_links_markers_and_backgrounds() {
    let mut probe = probe_with_colors(FileProbe::Text(b"a = 1\n".to_vec()));
    probe.backgrounds_is_dir = true;
    let theme = Theme::load(&b"/d".to_vec(), &b"x".to_vec(), &probe).unwrap();
    let actions = stage_assets(&theme, &b"/stage".to_vec(), true, false);
    assert_eq!(
        actions,
        vec![
            FsAction::Symlink(b"/d/x/light.mode".to_vec(), b"/stage/light.mode".to_vec()),
            FsAction::Symlink(b"/d/x/backgrounds".to_vec(), b"/stage/backgrounds".to_vec()),
        ]
    );
}
