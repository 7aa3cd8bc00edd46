//! The fixed bag of filesystem paths the pipeline works in, derived from one
//! configuration root. Constructed once; read-only afterwards.

use vstd::prelude::*;

use crate::mapping::append_bytes;
use crate::mapping::copy_bytes;
use crate::render::SLASH_BYTE;
use crate::util::path_within;

verus! {

/// `parent/name`.
pub open spec fn child_of(parent: Seq<u8>, name: Seq<u8>) -> Seq<u8> {
    parent + seq![SLASH_BYTE] + name
}

/// The bytes of `themes`.
pub open spec fn themes_name() -> Seq<u8> {
    seq![116u8, 104u8, 101u8, 109u8, 101u8, 115u8]
}

/// The bytes of `data`.
pub open spec fn data_name() -> Seq<u8> {
    seq![100u8, 97u8, 116u8, 97u8]
}

/// The bytes of `templates`.
pub open spec fn templates_name() -> Seq<u8> {
    seq![116u8, 101u8, 109u8, 112u8, 108u8, 97u8, 116u8, 101u8, 115u8]
}

/// The bytes of `user-templates`.
pub open spec fn user_templates_name() -> Seq<u8> {
    seq![117u8, 115u8, 101u8, 114u8, 45u8] + templates_name()
}

/// The bytes of `generated`.
pub open spec fn generated_name() -> Seq<u8> {
    seq![103u8, 101u8, 110u8, 101u8, 114u8, 97u8, 116u8, 101u8, 100u8]
}

/// The bytes of `live`.
pub open spec fn live_name() -> Seq<u8> {
    seq![108u8, 105u8, 118u8, 101u8]
}

/// The bytes of `current`.
pub open spec fn current_name() -> Seq<u8> {
    seq![99u8, 117u8, 114u8, 114u8, 101u8, 110u8, 116u8]
}

/// The bytes of `current.theme`.
pub open spec fn current_theme_name() -> Seq<u8> {
    current_name() + seq![46u8, 116u8, 104u8, 101u8, 109u8, 101u8]
}

/// The bytes of `background`.
pub open spec fn background_name() -> Seq<u8> {
    seq![98u8, 97u8, 99u8, 107u8, 103u8, 114u8, 111u8, 117u8, 110u8, 100u8]
}

/// The bytes of `backgrounds`.
pub open spec fn backgrounds_name() -> Seq<u8> {
    background_name() + seq![115u8]
}

/// The bytes of `light.mode`.
pub open spec fn light_mode_name() -> Seq<u8> {
    seq![108u8, 105u8, 103u8, 104u8, 116u8, 46u8, 109u8, 111u8, 100u8, 101u8]
}

/// The bytes of `icons.theme`.
pub open spec fn icons_theme_name() -> Seq<u8> {
    seq![105u8, 99u8, 111u8, 110u8, 115u8, 46u8, 116u8, 104u8, 101u8, 109u8, 101u8]
}

/// Immutable bag of the filesystem paths the pipeline uses.
#[derive(Debug, Clone)]
pub struct Ctx {
    /// The configuration root.
    pub config_dir: Vec<u8>,
    /// `themes/data`: one subdirectory per theme.
    pub data_dir: Vec<u8>,
    /// `themes/templates`: the bundled templates.
    pub templates_dir: Vec<u8>,
    /// `themes/user-templates`: the override templates.
    pub user_templates_dir: Vec<u8>,
    /// `themes/generated`: staging directories and the live tree.
    pub generated_dir: Vec<u8>,
    /// `themes/generated/live`: the published output tree.
    pub live_dir: Vec<u8>,
    /// `themes/current`: the alias link to the live tree.
    pub current_link: Vec<u8>,
    /// `themes/current.theme`: the active theme's name.
    pub current_theme_file: Vec<u8>,
    /// `themes/background`: the link to the selected wallpaper.
    pub background_link: Vec<u8>,
}

impl Ctx {
    /// The themes root under the configuration root.
    pub open spec fn themes_root(&self) -> Seq<u8> {
        child_of(self.config_dir@, themes_name())
    }

    /// Every path stands in its defined place under the configuration root,
    /// and the alias link does not lie inside the generated directory.
    pub open spec fn wf(&self) -> bool {
        &&& self.data_dir@ == child_of(self.themes_root(), data_name())
        &&& self.templates_dir@ == child_of(self.themes_root(), templates_name())
        &&& self.user_templates_dir@ == child_of(self.themes_root(), user_templates_name())
        &&& self.generated_dir@ == child_of(self.themes_root(), generated_name())
        &&& self.live_dir@ == child_of(self.generated_dir@, live_name())
        &&& self.current_link@ == child_of(self.themes_root(), current_name())
        &&& self.current_theme_file@ == child_of(self.themes_root(), current_theme_name())
        &&& self.background_link@ == child_of(self.themes_root(), background_name())
        &&& !path_within(self.current_link@, self.generated_dir@)
    }

    /// Derive every path from the configuration root.
    pub fn from_config_dir(config_dir: Vec<u8>) -> (r: Ctx)
        ensures
            r.config_dir@ == config_dir@,
            r.wf(),
    {
        let mut themes = copy_bytes(&config_dir);
        themes.push(SLASH_BYTE);
        themes.push(116);
        themes.push(104);
        themes.push(101);
        themes.push(109);
        themes.push(101);
        themes.push(115);
        proof {
            assert(themes@ =~= config_dir@ + seq![SLASH_BYTE] + themes_name());
        }
        let mut data_dir = copy_bytes(&themes);
        data_dir.push(SLASH_BYTE);
        data_dir.push(100);
        data_dir.push(97);
        data_dir.push(116);
        data_dir.push(97);
        let mut templates_dir = copy_bytes(&themes);
        templates_dir.push(SLASH_BYTE);
        templates_dir.push(116);
        templates_dir.push(101);
        templates_dir.push(109);
        templates_dir.push(112);
        templates_dir.push(108);
        templates_dir.push(97);
        templates_dir.push(116);
        templates_dir.push(101);
        templates_dir.push(115);
        let mut user_templates_dir = copy_bytes(&themes);
        user_templates_dir.push(SLASH_BYTE);
        user_templates_dir.push(117);
        user_templates_dir.push(115);
        user_templates_dir.push(101);
        user_templates_dir.push(114);
        user_templates_dir.push(45);
        user_templates_dir.push(116);
        user_templates_dir.push(101);
        user_templates_dir.push(109);
        user_templates_dir.push(112);
        user_templates_dir.push(108);
        user_templates_dir.push(97);
        user_templates_dir.push(116);
        user_templates_dir.push(101);
        user_templates_dir.push(115);
        let mut generated_dir = copy_bytes(&themes);
        generated_dir.push(SLASH_BYTE);
        generated_dir.push(103);
        generated_dir.push(101);
        generated_dir.push(110);
        generated_dir.push(101);
        generated_dir.push(114);
        generated_dir.push(97);
        generated_dir.push(116);
        generated_dir.push(101);
        generated_dir.push(100);
        let mut live_dir = copy_bytes(&generated_dir);
        live_dir.push(SLASH_BYTE);
        live_dir.push(108);
        live_dir.push(105);
        live_dir.push(118);
        live_dir.push(101);
        let mut current_link = copy_bytes(&themes);
        current_link.push(SLASH_BYTE);
        current_link.push(99);
        current_link.push(117);
        current_link.push(114);
        current_link.push(114);
        current_link.push(101);
        current_link.push(110);
        current_link.push(116);
        let mut current_theme_file = copy_bytes(&current_link);
        current_theme_file.push(46);
        current_theme_file.push(116);
        current_theme_file.push(104);
        current_theme_file.push(101);
        current_theme_file.push(109);
        current_theme_file.push(101);
        let mut background_link = copy_bytes(&themes);
        background_link.push(SLASH_BYTE);
        background_link.push(98);
        background_link.push(97);
        background_link.push(99);
        background_link.push(107);
        background_link.push(103);
        background_link.push(114);
        background_link.push(111);
        background_link.push(117);
        background_link.push(110);
        background_link.push(100);
        let r = Ctx {
            config_dir,
            data_dir,
            templates_dir,
            user_templates_dir,
            generated_dir,
            live_dir,
            current_link,
            current_theme_file,
            background_link,
        };
        proof {
            assert(r.data_dir@ =~= child_of(r.themes_root(), data_name()));
            assert(r.templates_dir@ =~= child_of(r.themes_root(), templates_name()));
            assert(r.user_templates_dir@ =~= child_of(r.themes_root(), user_templates_name()));
            assert(r.generated_dir@ =~= child_of(r.themes_root(), generated_name()));
            assert(r.live_dir@ =~= child_of(r.generated_dir@, live_name()));
            assert(r.current_link@ =~= child_of(r.themes_root(), current_name()));
            assert(r.current_theme_file@ =~= child_of(r.themes_root(), current_theme_name()));
            assert(r.background_link@ =~= child_of(r.themes_root(), background_name()));
            assert(r.current_link@.len() < r.generated_dir@.len());
            assert(!path_within(r.current_link@, r.generated_dir@));
        }
        r
    }
}

} // verus!
