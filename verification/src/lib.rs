//! Keeps stacks, the heads inside them and plain references consistent when commits are
//! rewritten and their identifiers change.
//!
//! - [`rewrite`]: moves stack heads, named heads and plain references from old commits to
//!   the commits that replaced them; [`rewrite_laws`] holds what is proved of it.
//! - [`resolver`]: finds the commit that carries each change identity, by asking a store;
//!   [`store`] says what the answer is for a given store.
//! - [`locking`] and [`move_commit`]: decide whether a commit can move to another stack, and
//!   plan the move.
//! - [`conflict`]: lays out the tree of a commit that was picked with conflicts.
//! - [`workspace`]: checks made before stacks are listed or made.
//! - [`state`], [`ids`], [`names`], [`order`], [`change_ids`], [`refs_table`]: the data these
//!   work on.

pub mod change_ids;
pub mod conflict;
pub mod ids;
pub mod locking;
pub mod move_commit;
pub mod names;
pub mod order;
pub mod refs_table;
pub mod resolver;
pub mod rewrite;
pub mod rewrite_laws;
pub mod state;
pub mod store;
pub mod workspace;
