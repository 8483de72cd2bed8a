use vstd::prelude::*;

pub mod analytics;
pub mod cli;
pub mod desktop;
pub mod config;
pub mod digest;
pub mod gutencore;
pub mod library_db;
pub mod markup;
pub mod opds;
pub mod organizer;
pub mod pipeline;
pub mod patterns;
pub mod pdf;
pub mod sync;
pub mod text;
pub mod unicode;
pub mod xhtml;
pub mod xml;

pub use analytics::{Analytics, BookHealthReport, LibraryMetrics};
pub use config::{default_db_path, default_db_url, RubricaConfig};
pub use library_db::{Author, Book, Series, SeriesStats, TagStats};
pub use organizer::Organizer;
pub use pipeline::Pipeline;
pub use sync::SyncSubsystem;

verus! {

} // verus!
