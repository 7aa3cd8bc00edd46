//! Desktop apply decisions.
//!
//! The library decides which settings to apply; invoking the desktop
//! environment's setting tool with them is its caller's work, best-effort
//! and never able to abort a finished publish.

use vstd::prelude::*;

use crate::mapping::copy_bytes;
use crate::theme::Theme;

verus! {

/// Which best-effort apply steps a run skips.
pub struct ApplyFlags {
    /// Skip every apply step.
    pub no_apply: bool,
    /// Skip the desktop color-scheme and widget-theme settings.
    pub no_gnome: bool,
    /// Skip the icon-theme setting.
    pub no_icons: bool,
    /// Skip reloading running applications.
    pub no_reload: bool,
    /// Skip wallpaper rotation.
    pub no_wallpaper: bool,
}

/// The bytes of `prefer-light`.
pub open spec fn prefer_light() -> Seq<u8> {
    seq![112u8, 114u8, 101u8, 102u8, 101u8, 114u8, 45u8, 108u8, 105u8, 103u8, 104u8, 116u8]
}

/// The bytes of `prefer-dark`.
pub open spec fn prefer_dark() -> Seq<u8> {
    seq![112u8, 114u8, 101u8, 102u8, 101u8, 114u8, 45u8, 100u8, 97u8, 114u8, 107u8]
}

/// The bytes of `adw-gtk3`.
pub open spec fn widget_theme_light() -> Seq<u8> {
    seq![97u8, 100u8, 119u8, 45u8, 103u8, 116u8, 107u8, 51u8]
}

/// The bytes of `adw-gtk3-dark`.
pub open spec fn widget_theme_dark() -> Seq<u8> {
    widget_theme_light() + seq![45u8, 100u8, 97u8, 114u8, 107u8]
}

/// The desktop settings a theme selects.
pub struct GnomeSettings {
    /// The color scheme: light or dark preference.
    pub color_scheme: Vec<u8>,
    /// The widget theme matching the color scheme.
    pub gtk_theme: Vec<u8>,
    /// The icon theme to set, when one is wanted and the theme names one.
    pub icon_theme: Option<Vec<u8>>,
}

/// Decide the desktop settings of a theme: the light or dark scheme and
/// widget theme by its flag, and its icon theme unless icons are skipped.
pub fn run(theme: &Theme, no_icons: bool) -> (r: GnomeSettings)
    ensures
        theme.is_light ==> r.color_scheme@ == prefer_light() && r.gtk_theme@
            == widget_theme_light(),
        !theme.is_light ==> r.color_scheme@ == prefer_dark() && r.gtk_theme@
            == widget_theme_dark(),
        (match (no_icons, &theme.icon_theme) {
            (false, Some(icon)) => r.icon_theme matches Some(v) && v@ == icon@,
            _ => r.icon_theme is None,
        }),
{
    let mut color_scheme: Vec<u8> = Vec::new();
    color_scheme.push(112);
    color_scheme.push(114);
    color_scheme.push(101);
    color_scheme.push(102);
    color_scheme.push(101);
    color_scheme.push(114);
    color_scheme.push(45);
    let mut gtk_theme: Vec<u8> = Vec::new();
    gtk_theme.push(97);
    gtk_theme.push(100);
    gtk_theme.push(119);
    gtk_theme.push(45);
    gtk_theme.push(103);
    gtk_theme.push(116);
    gtk_theme.push(107);
    gtk_theme.push(51);
    if theme.is_light {
        color_scheme.push(108);
        color_scheme.push(105);
        color_scheme.push(103);
        color_scheme.push(104);
        color_scheme.push(116);
        proof {
            assert(color_scheme@ =~= prefer_light());
            assert(gtk_theme@ =~= widget_theme_light());
        }
    } else {
        color_scheme.push(100);
        color_scheme.push(97);
        color_scheme.push(114);
        color_scheme.push(107);
        gtk_theme.push(45);
        gtk_theme.push(100);
        gtk_theme.push(97);
        gtk_theme.push(114);
        gtk_theme.push(107);
        proof {
            assert(color_scheme@ =~= prefer_dark());
            assert(gtk_theme@ =~= widget_theme_dark());
        }
    }
    let icon_theme = if no_icons {
        None
    } else {
        match &theme.icon_theme {
            Some(icon) => Some(copy_bytes(icon)),
            None => None,
        }
    };
    GnomeSettings { color_scheme, gtk_theme, icon_theme }
}

} // verus!
