//! Theme descriptor: everything known about a named theme before rendering.
//!
//! A descriptor is assembled from what a probe of the theme's directory
//! found; reading the directory itself is the caller's. Loading validates
//! the layout and builds the variable mapping; it never hands back a
//! partially constructed descriptor.

use vstd::prelude::*;

use crate::ctx::backgrounds_name;
use crate::ctx::child_of;
use crate::errors::ThemeError;
use crate::mapping::Mapping;
use crate::mapping::append_bytes;
use crate::mapping::copy_bytes;
use crate::mapping::model_pairs_map;
use crate::parser::copy_range;
use crate::parser::trim_bytes;
use crate::parser::trim_range;
use crate::render::SLASH_BYTE;
use crate::vars::build_vars_from_colors;
use crate::vars::spec_build_pairs;
use crate::vars::toml_doc;

verus! {

/// What probing one file of the theme directory found.
pub enum FileProbe {
    /// The file does not exist.
    Absent,
    /// The file exists and holds these bytes.
    Text(Vec<u8>),
    /// The file exists but could not be read.
    Unreadable,
}

/// What probing a theme's directory found.
pub struct ThemeDirProbe {
    /// The theme directory itself exists as a directory.
    pub root_is_dir: bool,
    /// The required variable-source file.
    pub colors: FileProbe,
    /// The light-variant marker file exists.
    pub light_marker: bool,
    /// The icon-theme marker file.
    pub icons: FileProbe,
    /// The `backgrounds` subdirectory exists as a directory.
    pub backgrounds_is_dir: bool,
}

/// A fully loaded theme, ready for rendering.
#[derive(Debug, Clone)]
pub struct Theme {
    /// The theme's name.
    pub name: Vec<u8>,
    /// The theme's directory.
    pub root: Vec<u8>,
    /// The variable mapping, derived color keys included.
    pub vars: Mapping,
    /// Whether the light variant is selected.
    pub is_light: bool,
    /// The icon theme's name, when the marker file holds one.
    pub icon_theme: Option<Vec<u8>>,
    /// The theme's backgrounds directory, when it exists.
    pub backgrounds_dir: Option<Vec<u8>>,
}

impl Theme {
    /// Assemble the descriptor of theme `name` from what a probe of its
    /// directory found.
    ///
    /// Fails `NotFound` when the directory is absent, `MissingVariables`
    /// when the variable source is absent, `ParseError` when it is
    /// malformed, and `IoError` when it or the icon marker is unreadable;
    /// succeeds exactly otherwise.
    pub fn load(data_dir: &Vec<u8>, name: &Vec<u8>, probe: &ThemeDirProbe) -> (r: Result<
        Theme,
        ThemeError,
    >)
        ensures
            (r is Ok <==> (probe.root_is_dir && (probe.colors matches FileProbe::Text(src)
                && toml_doc(src@) is Some) && !(probe.icons is Unreadable))),
            match r {
                Ok(t) => {
                    &&& t.name@ == name@
                    &&& t.root@ == child_of(data_dir@, name@)
                    &&& t.vars.wf()
                    &&& (probe.colors matches FileProbe::Text(src) ==> t.vars@ == model_pairs_map(
                        spec_build_pairs(toml_doc(src@).unwrap()),
                    ))
                    &&& t.is_light == probe.light_marker
                    &&& (match probe.icons {
                        FileProbe::Text(txt) => if trim_bytes(txt@).len() == 0 {
                            t.icon_theme is None
                        } else {
                            t.icon_theme matches Some(v) && v@ == trim_bytes(txt@)
                        },
                        FileProbe::Absent => t.icon_theme is None,
                        FileProbe::Unreadable => false,
                    })
                    &&& (if probe.backgrounds_is_dir {
                        t.backgrounds_dir matches Some(d) && d@ == child_of(
                            child_of(data_dir@, name@),
                            backgrounds_name(),
                        )
                    } else {
                        t.backgrounds_dir is None
                    })
                },
                Err(e) => {
                    if !probe.root_is_dir {
                        e == ThemeError::NotFound
                    } else if probe.colors is Absent {
                        e == ThemeError::MissingVariables
                    } else if probe.colors is Unreadable {
                        e == ThemeError::IoError
                    } else if (probe.colors matches FileProbe::Text(src) && toml_doc(src@)
                        is None) {
                        e == ThemeError::ParseError
                    } else {
                        e == ThemeError::IoError && probe.icons is Unreadable
                    }
                },
            },
    {
        if !probe.root_is_dir {
            return Err(ThemeError::NotFound);
        }
        let src = match &probe.colors {
            FileProbe::Absent => {
                return Err(ThemeError::MissingVariables);
            },
            FileProbe::Unreadable => {
                return Err(ThemeError::IoError);
            },
            FileProbe::Text(src) => src,
        };
        let vars = match build_vars_from_colors(src) {
            Ok(m) => m,
            Err(e) => {
                return Err(e);
            },
        };
        let icon_theme = match &probe.icons {
            FileProbe::Absent => None,
            FileProbe::Unreadable => {
                return Err(ThemeError::IoError);
            },
            FileProbe::Text(txt) => {
                let (lo, hi) = trim_range(txt, 0, txt.len());
                proof {
                    assert(txt@.subrange(0, txt@.len() as int) =~= txt@);
                }
                if lo == hi {
                    None
                } else {
                    Some(copy_range(txt, lo, hi))
                }
            },
        };
        let mut root = copy_bytes(data_dir);
        root.push(SLASH_BYTE);
        append_bytes(&mut root, name);
        proof {
            assert(root@ =~= child_of(data_dir@, name@));
        }
        let backgrounds_dir = if probe.backgrounds_is_dir {
            let mut bg = copy_bytes(&root);
            bg.push(SLASH_BYTE);
            bg.push(98);
            bg.push(97);
            bg.push(99);
            bg.push(107);
            bg.push(103);
            bg.push(114);
            bg.push(111);
            bg.push(117);
            bg.push(110);
            bg.push(100);
            bg.push(115);
            proof {
                assert(bg@ =~= child_of(root@, backgrounds_name()));
            }
            Some(bg)
        } else {
            None
        };
        Ok(
            Theme {
                name: copy_bytes(name),
                root,
                vars,
                is_light: probe.light_marker,
                icon_theme,
                backgrounds_dir,
            },
        )
    }
}

/// The active theme's name as the name file holds it: the file's text with
/// surrounding whitespace removed, or `None` when nothing is left.
pub fn parse_current_theme(raw: &Vec<u8>) -> (r: Option<Vec<u8>>)
    ensures
        trim_bytes(raw@).len() == 0 ==> r is None,
        trim_bytes(raw@).len() > 0 ==> (r matches Some(v) && v@ == trim_bytes(raw@)),
{
    let (lo, hi) = trim_range(raw, 0, raw.len());
    proof {
        assert(raw@.subrange(0, raw@.len() as int) =~= raw@);
    }
    if lo == hi {
        None
    } else {
        Some(copy_range(raw, lo, hi))
    }
}

/// Exec form of a marker-file name under a directory.
fn push_marker_child(base: &Vec<u8>, light: bool) -> (r: Vec<u8>)
    ensures
        light ==> r@ == child_of(base@, crate::ctx::light_mode_name()),
        !light ==> r@ == child_of(base@, crate::ctx::icons_theme_name()),
{
    let mut out = copy_bytes(base);
    out.push(SLASH_BYTE);
    if light {
        out.push(108);
        out.push(105);
        out.push(103);
        out.push(104);
        out.push(116);
        out.push(46);
        out.push(109);
        out.push(111);
        out.push(100);
        out.push(101);
        proof {
            assert(out@ =~= child_of(base@, crate::ctx::light_mode_name()));
        }
    } else {
        out.push(105);
        out.push(99);
        out.push(111);
        out.push(110);
        out.push(115);
        out.push(46);
        out.push(116);
        out.push(104);
        out.push(101);
        out.push(109);
        out.push(101);
        proof {
            assert(out@ =~= child_of(base@, crate::ctx::icons_theme_name()));
        }
    }
    out
}

/// The symlinks that put a theme's assets into the staging directory: its
/// marker files when they exist, and its backgrounds directory when it has
/// one. `light_file` and `icons_file` say whether the marker files exist.
pub fn stage_assets(theme: &Theme, stage: &Vec<u8>, light_file: bool, icons_file: bool) -> (r: Vec<
    crate::util::FsAction,
>)
    ensures
        crate::util::action_views(r@) == (if light_file {
            seq![
                crate::util::FsActionModel::Symlink(
                    child_of(theme.root@, crate::ctx::light_mode_name()),
                    child_of(stage@, crate::ctx::light_mode_name()),
                ),
            ]
        } else {
            Seq::empty()
        }) + (if icons_file {
            seq![
                crate::util::FsActionModel::Symlink(
                    child_of(theme.root@, crate::ctx::icons_theme_name()),
                    child_of(stage@, crate::ctx::icons_theme_name()),
                ),
            ]
        } else {
            Seq::empty()
        }) + (match &theme.backgrounds_dir {
            Some(bg) => seq![
                crate::util::FsActionModel::Symlink(
                    bg@,
                    child_of(stage@, backgrounds_name()),
                ),
            ],
            None => Seq::empty(),
        }),
{
    let mut out: Vec<crate::util::FsAction> = Vec::new();
    if light_file {
        out.push(
            crate::util::FsAction::Symlink(
                push_marker_child(&theme.root, true),
                push_marker_child(stage, true),
            ),
        );
    }
    if icons_file {
        out.push(
            crate::util::FsAction::Symlink(
                push_marker_child(&theme.root, false),
                push_marker_child(stage, false),
            ),
        );
    }
    match &theme.backgrounds_dir {
        Some(bg) => {
            let mut link = copy_bytes(stage);
            link.push(SLASH_BYTE);
            link.push(98);
            link.push(97);
            link.push(99);
            link.push(107);
            link.push(103);
            link.push(114);
            link.push(111);
            link.push(117);
            link.push(110);
            link.push(100);
            link.push(115);
            proof {
                assert(link@ =~= child_of(stage@, backgrounds_name()));
            }
            out.push(crate::util::FsAction::Symlink(copy_bytes(bg), link));
        },
        None => {},
    }
    proof {
        assert(crate::util::action_views(out@) =~= (if light_file {
            seq![
                crate::util::FsActionModel::Symlink(
                    child_of(theme.root@, crate::ctx::light_mode_name()),
                    child_of(stage@, crate::ctx::light_mode_name()),
                ),
            ]
        } else {
            Seq::empty()
        }) + (if icons_file {
            seq![
                crate::util::FsActionModel::Symlink(
                    child_of(theme.root@, crate::ctx::icons_theme_name()),
                    child_of(stage@, crate::ctx::icons_theme_name()),
                ),
            ]
        } else {
            Seq::empty()
        }) + (match &theme.backgrounds_dir {
            Some(bg) => seq![
                crate::util::FsActionModel::Symlink(
                    bg@,
                    child_of(stage@, backgrounds_name()),
                ),
            ],
            None => Seq::empty(),
        }));
    }
    out
}

} // verus!
