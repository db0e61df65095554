pub mod audit;
pub mod registry;
pub mod tarball;
