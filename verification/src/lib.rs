//! Assembly of asset manifests.
//!
//! A project declares assets (files, folders, batches of utility classes) all
//! over its dependency tree. This crate gathers the descriptors of those
//! assets into one manifest, either by walking a resolved dependency graph and
//! reading a cache entry per package, or by scanning compiled artifacts for
//! the section in which the descriptors were embedded.
//!
//! Every function here carries a contract that the verifier proves; the few
//! calls into other crates are behind wrappers whose contracts are stated, not
//! proved, and which say so.

pub mod assemble;
pub mod asset;
pub mod cache;
pub mod codec;
pub mod font;
pub mod graph;
pub mod manifest;
pub mod options;
pub mod package;
pub mod scan;
pub mod text;
pub mod walker;

pub use assemble::{AssemblyError, FailurePolicy};
pub use asset::{
    AssetSource, AssetType, CssOptions, FileAsset, FileOptions, FolderAsset, ImageOptions,
    ImageSize, ImageType, JsOptions, SupportError, TailwindAsset,
};
pub use manifest::AssetManifest;
pub use package::PackageAssets;
