//! A milestone-based escrow engine for freelance engagements.
//!
//! A client funds a project made of priced objectives; each objective is paid
//! in two tranches (a commitment deposit of half the price, then the
//! completion payment); the freelancer collects the full price once the
//! objective is done; the client may cancel the project and reclaim unspent
//! deposits. The engine, the fungible-token ledger it moves funds on, and the
//! read-only queries are all verified: every state transition states exactly
//! when it succeeds, which error it returns otherwise, and how balances and
//! project records change.

pub mod allowance;
pub mod assoc;
pub mod balance;
pub mod contract;
pub mod errors;
pub mod laws;
pub mod storage;
pub mod storage_types;
pub mod sums;
pub mod token;
