pub mod error;
pub mod num;
pub mod text;
pub mod codec;
pub mod models;
pub mod store;
pub mod retain;
pub mod mutation;
pub mod query;
pub mod gc;
pub mod node;
pub mod auth;
pub mod secrets;
pub mod utils;
pub mod types;

pub use codec::ModelKeys;
pub use error::Error;
pub use mutation::Mutation;
pub use node::{id_to_node, Node};
pub use query::Query;
pub use secrets::Secrets;
pub use store::Store;
pub use types::ColumnDataType;
