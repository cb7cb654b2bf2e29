//! Lazy, pull-based traversal of a directory tree and composable filters over
//! what it produces.
//!
//! The traversal engines are decision procedures: the caller performs the
//! directory reads they ask for and hands back what it found. The filters pull
//! from any [`item::ItemSource`] and work alike on entries, paths, and
//! fallible versions of both.
pub mod path;
pub mod item;
pub mod errlog;
pub mod rdr;
pub mod find_dirs;
pub mod reroot;
pub mod component_filter;
pub mod extension_filter;
pub mod result_filter;
pub mod entry_to_path;

pub use component_filter::{ComponentFilter, ComponentFilterOperationType};
pub use entry_to_path::EntryToPath;
pub use extension_filter::{AllowExtensions, AllowExtensionsExt, ExtensionFilter, create_extension_filter};
pub use find_dirs::FindDirsWithComponent;
pub use item::{DirEntry, Item, ItemSource, TraversalError, TraversalErrorKind, VecSource};
pub use path::{FsPath, PathComponent, StripPrefixError};
pub use rdr::{DirEvent, ReadDirRecursive, RootOpenError, Step, TraversalStats, read_dir_recursive};
pub use reroot::{PathReRoot, path_re_root};
pub use result_filter::{ErrorCollector, ResultFilter};
