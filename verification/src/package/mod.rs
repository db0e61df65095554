pub mod lockfile;
pub mod manifest;
pub mod outdated;
pub mod platform;
pub mod sbom;
pub mod semver;
pub mod version;
pub mod why;
