pub mod creation;
pub mod groups;
pub mod indexing;
pub mod loading;
pub mod metadata;
pub mod stats;
pub mod tiff;
