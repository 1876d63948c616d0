pub mod bat;
pub mod bve;
pub mod jww;
pub mod sjis;
