pub mod display;
pub mod firmware;
pub mod graphics;
pub mod images;
pub mod menu;
pub mod storage;
