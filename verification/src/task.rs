pub mod version;
