// Resolves the shared libraries that a binary is missing into the packages
// that provide them, and writes the environment that bundles those packages.
//
// - `names`: library and package identifiers
// - `order`: lexicographic order on names
// - `scan`: the libraries that ldd reports as not found
// - `normalize`: the canonical, sorted set of missing libraries
// - `resolve`: selection strategies and the resolution fold
// - `laws`: what holds of every resolution
// - `emit`: the FHS environment expression and its launcher script
pub mod emit;
pub mod laws;
pub mod names;
pub mod normalize;
pub mod order;
pub mod resolve;
pub mod scan;
