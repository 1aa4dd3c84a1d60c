pub mod executor;
pub mod package_info;
pub mod packages;
pub mod semver;
pub mod text;
