//! Schema.org `ImageObject` markup for uploaded pictures: the thumbnail
//! blocks for every configured aspect ratio and resolution, the `srcset` of
//! the picture, and the checking of JSON-RPC call arguments. Decimal numbers,
//! field splitting and the markup templates are verified against their
//! specifications; the path of the base URL comes from the url crate.

pub mod decimal;
pub mod markup;
pub mod rpc;
pub mod text;
pub mod urlpath;
pub mod laws;

pub use decimal::{format_i32, parse_i32};
pub use markup::{div, div_creator, gen_srcset, render_schema, try_div_creator};
pub use rpc::{parse_arguments, ArgsError, RpcParams, RpcValue};
