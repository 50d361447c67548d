pub mod address;
pub mod codec;
pub mod decode;
pub mod event;
pub mod laws;
pub mod metadata;
pub mod pipeline;
pub mod record;
pub mod schema;
pub mod text;

pub use address::Address;
pub use decode::{DecodeError, DecodedLog, NamedValue, RawLogEntry, TokenValue};
pub use event::{decode_event, PoolCreatedEvent};
pub use metadata::{MetadataFetch, TokenMetadata, TokenMetadataCache};
pub use pipeline::{EnrichmentPipeline, PipelineStep};
pub use record::PoolInfo;
pub use text::{address_from_hex, address_to_hex, parse_dec, parse_hex_fixed, to_dec, to_hex_fixed};
pub use schema::{pool_created_schema, EventParam, EventSchema, LogFilterSpec, ParamKind};
