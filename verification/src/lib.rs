//! Verified models of a family of on-chain DeFi contracts: a lending pool, a
//! constant-product liquidity pool, a notification broker, a pricing adapter,
//! a timelocked upgradable contract and a multi-provider yield vault.
//!
//! Each contract's persistent state is a plain Rust value; every entry point
//! is a verified state transition that returns its result together with the
//! outside effects (token transfers, cross-contract calls) that the host must
//! perform. Accounts, assets and symbols are identified by integers.
pub mod amm;
pub mod broker;
pub mod ledger;
pub mod lending;
mod math;
pub mod pricing;
pub mod records;
pub mod timelock;
pub mod transfer;
pub mod vault;
