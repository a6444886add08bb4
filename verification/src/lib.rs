pub mod cache;
pub mod text_order;
pub mod sorting;
pub mod explorer;
pub mod text;
pub mod cli;
pub mod video;
