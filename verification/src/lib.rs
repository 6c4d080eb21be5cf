//! Verified core of Flexim, a viewer for images, tensors and data frames
//! gathered into bags: the data model, the bag storage, layout
//! applicability, the table and view state machines and the upload
//! assembly.
pub mod config;
pub mod connect;
pub mod data_type;
pub mod filter;
pub mod grouping;
pub mod image_loader;
pub mod layout;
pub mod shape;
pub mod storage;
pub mod table;
pub mod text;
pub mod view;
pub mod visualize;
