//! Tags for images, kept in each image's embedded comment field, with
//! navigation among the images of a directory and a timed slideshow.
//!
//! - `codec`: the comment field's text and bytes, and the tags in them.
//! - `tags`: adding, removing and toggling tags in a list.
//! - `format`: which paths name viewable and taggable images.
//! - `viewer`: the images of a directory and the current one.
//! - `session`: the current image's tags and whether they changed.
//! - `slideshow`: advancing through a list of images on a clock.
//! - `search`: tags and tagged images across a directory.
//! - `file_tree`: the directory tree beside the image.
//! - `hotkeys`: tags bound to keys.
//! - `text`: white space and characters.

pub mod codec;
pub mod file_tree;
pub mod format;
pub mod hotkeys;
pub mod search;
pub mod session;
pub mod slideshow;
pub mod tags;
pub mod text;
pub mod viewer;
