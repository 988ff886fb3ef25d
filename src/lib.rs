//! Weighted wallpaper rotation: tracking how often each image was shown,
//! reconciling that record with a directory listing, keeping the counts
//! bounded, and choosing the next image with a bias toward rarely shown ones.

pub mod catalog;
pub mod cli;
pub mod entry;
pub mod normalize;
pub mod reconcile;
pub mod rotation;
pub mod text;
pub mod wallpaper;
pub mod weighting;

pub use catalog::get_wallpapers_from_path;
pub use cli::{process_args, CliOption, Error};
pub use entry::Wallpaper;
pub use normalize::mean_centering_counts;
pub use reconcile::sync_wallpapers;
pub use rotation::rotate;
pub use weighting::pick_random_wallpaper;
