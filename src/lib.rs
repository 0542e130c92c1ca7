pub mod amount;
pub mod apply;
pub mod decode;
pub mod engine;
pub mod laws;
pub mod ledger;
pub mod reconcile;
pub mod types;
