pub mod model;
pub mod text;
pub mod validation;
pub mod participants;
pub mod ledger;
pub mod rules;
pub mod invariants;
pub mod reducers;
pub mod laws;
pub mod channel;
pub mod tool;
pub mod poll;
pub mod channel_laws;
pub mod tool_laws;
pub mod access_laws;
