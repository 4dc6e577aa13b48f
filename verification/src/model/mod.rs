//! The dock's item model: pinned launchers, running windows and applets.
pub mod assemble;
pub mod laws;
pub mod matching;
pub mod ordering;
pub mod presence;
pub mod sections;
pub mod types;

pub use matching::classes_match;
pub use types::{
    DockItem, DockItemKind, DockItemView, DockModel, DockSection, DockSectionKind, DockSections,
    WindowIcon, WindowIconView, WindowId, WindowInfo, WindowInfoView,
};
