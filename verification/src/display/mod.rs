pub mod yrd0150;

pub use yrd0150::{BusOp, Yrd0150Display};
