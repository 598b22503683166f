pub mod constraint;
pub mod events;
pub mod frame;
pub mod layout;
pub mod measure;
pub mod px;
pub mod tree;
