//! Integrates AppImages into the desktop: each app lives in a container directory
//! holding its AppImage, desktop entry and icon, linked into the applications and bin
//! directories. This library holds the decisions; the program around it does the file
//! system work.
//!
//! - `text`: the string operations the formats follow (trim, lines, split).
//! - `path`: Unix paths as text: joining, components, file names, extensions.
//! - `paths`: where the data, cache, application and bin directories are.
//! - `container`: an app's container, its files, and the plans for writing, copying
//!   and linking them.
//! - `desktop`: desktop entry metadata, app ids, the editor command.
//! - `overrides`: the user's override file: parsing, the template, merging.
//! - `run`: the small decisions of the commands.

pub mod text;
pub mod overrides;
pub mod path;
pub mod container;
pub mod paths;
pub mod desktop;
pub mod run;
