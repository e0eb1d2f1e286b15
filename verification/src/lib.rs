pub mod capture;
pub mod clipper;
pub mod event_laws;
pub mod history_laws;
pub mod icon;
pub mod little_endian;
pub mod model;
pub mod paths;
pub mod persistence_laws;
pub mod search;
pub mod singleton;
pub mod storage;
pub mod storage_laws;
pub mod text;
pub mod text_laws;
pub mod view;
pub mod view_laws;
