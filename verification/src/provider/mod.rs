//! Provider layer: one adapter file per API family.
//!
//! Each adapter translates the canonical request into its wire body and normalizes the response
//! stream into canonical events.

use vstd::prelude::*;

pub mod anthropic_messages;
pub mod bodies;
pub mod conversation;
pub mod models_list;
pub mod openai_chat;
pub mod openai_compatible;
pub mod openai_responses;
pub mod payloads;
pub mod replies;
pub mod retry;
pub mod streams;

verus! {

} // verus!
