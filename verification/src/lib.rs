//! A verified storage core for a small clinic records service: a region
//! allocator over one flat persistent byte store, a durable scalar cell
//! holding the identifier counter, one durable ordered map of encoded
//! records per entity type, a byte codec for every record type, and the
//! uniform create/read/filter/update surface the entity handlers call.

pub mod codec;
pub mod record_codec;
pub mod records;
pub mod storage;
pub mod store;
pub mod text;
