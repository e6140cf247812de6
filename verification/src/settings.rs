//! What the viewer keeps from one run to the next.

use crate::shortcuts::{default_shortcuts, ShortcutExt, Shortcuts};
use std::collections::HashSet;
use std::path::PathBuf;
use vstd::prelude::*;

verus! {

/// The settings that outlive a run of the viewer.
#[derive(Debug)]
pub struct PersistentSettings {
    /// The UI accent color
    pub accent_color: [u8; 3],
    /// The BG color
    pub background_color: [u8; 3],
    /// Should we sync to monitor rate? This makes the app snappier, but also more resource intensive.
    pub vsync: bool,
    /// Keyboard map to actions
    pub shortcuts: Shortcuts,
    /// Do not reset view when receiving a new image
    pub keep_view: bool,
    /// How many images to keep in cache
    pub max_cache: usize,
    pub show_scrub_bar: bool,
    pub wrap_folder: bool,
    /// Whether to keep the image edit stack
    pub keep_edits: bool,
    pub favourite_images: HashSet<PathBuf>,
    pub recent_images: Vec<PathBuf>,
}

impl Default for PersistentSettings {
    /// The settings of a viewer that has not been configured.
    fn default() -> (settings: Self)
        ensures
            settings.accent_color@ == seq![255u8, 0u8, 75u8],
            settings.background_color@ == seq![51u8, 51u8, 51u8],
            settings.vsync,
            settings.shortcuts@ == default_shortcuts(),
            !settings.keep_view,
            settings.max_cache == 30,
            !settings.show_scrub_bar,
            settings.wrap_folder,
            !settings.keep_edits,
            settings.favourite_images@ == Set::<PathBuf>::empty(),
            settings.recent_images@ == Seq::<PathBuf>::empty(),
    {
        let accent_color: [u8; 3] = [255, 0, 75];
        let background_color: [u8; 3] = [51, 51, 51];
        assert(accent_color@ =~= seq![255u8, 0u8, 75u8]);
        assert(background_color@ =~= seq![51u8, 51u8, 51u8]);
        PersistentSettings {
            accent_color,
            background_color,
            vsync: true,
            shortcuts: Shortcuts::default_keys(),
            keep_view: false,
            max_cache: 30,
            show_scrub_bar: false,
            wrap_folder: true,
            keep_edits: false,
            favourite_images: HashSet::new(),
            recent_images: Vec::new(),
        }
    }
}

} // verus!
