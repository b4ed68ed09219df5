//! Bookkeeping for a bounded virtual address range: an ordered collection of
//! non-overlapping mappings, a first-fit placement algorithm, and the
//! permission-flag values that describe a mapping's intended access.

pub mod address_space;
pub mod data_source;
pub mod error;
pub mod flags;
pub mod storage;

pub use address_space::AddressSpace;
pub use address_space::MapEntry;
pub use address_space::DEFAULT_PAGE_SIZE;
pub use address_space::MAX_MAPPINGS;
pub use data_source::DataSource;
pub use data_source::DsError;
pub use error::AsError;
pub use flags::FlagBuilder;
pub use flags::Flags;
