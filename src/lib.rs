//! The execution core of a query-language server, verified.
//!
//! - `value`: the response tree, its mathematical model, and the merge of
//!   fragment results into an object.
//! - `plan`: the walk of a selection set into units of work, in selection
//!   order, with directives, fragments and the schema's type registry.
//! - `resolve`: the null and error rules of one field, and the ordered
//!   drain of a selection set's outcomes into its value.
//! - `laws`: what holds of every drain: values kept, names merged, nulls
//!   bubbling to the nearest nullable field, order kept.
//! - `http`: requests, their variables, responses and their envelopes, and
//!   the responses of a subscription, one per event.
//! - `ws`: the session of the query protocol over a websocket.

pub mod value;
pub mod resolve;
pub mod laws;
pub mod plan;
pub mod http;
pub mod ws;
