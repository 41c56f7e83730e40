pub mod text;
pub mod exif_tags;
pub mod paths;
pub mod verify;
pub mod metadata;
pub mod convert;
pub mod summary;
pub mod presentation;
pub mod scan;
pub mod queue;
