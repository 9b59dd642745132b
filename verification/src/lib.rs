//! An open-addressing hash table with linear probing.
//!
//! [`Hasheroni`] maps keys to values. Every entry lives in one backing array
//! of slots; a key's place is found by walking the array from the index that
//! its hash gives. Removal leaves a tombstone behind so that the walk to a
//! later key is not cut short, and the array is rebuilt, as a rule at twice
//! its size, before it gets too full.
//!
//! To a caller the table is a `Map` from keys to values: that is its view,
//! and the contract of every operation says what it does to that map. The
//! contracts also say what an operation does to the backing array, so that
//! the place of every entry is determined.
//!
//! The modules:
//! - [`key`]: what a key must offer, and integers and strings as keys;
//! - [`probe`]: the order in which a walk visits the slots;
//! - [`slot`]: the backing array as a sequence of slots, the map it stands
//!   for, and when it is well formed;
//! - [`policy`]: the load limit and the capacities;
//! - [`layout`]: where a search ends and where an entry goes, and the proofs
//!   that the array stays sound and stands for the right map;
//! - [`search`] and [`rebuild`]: the walks and the rebuilding, on a vector
//!   of slots;
//! - [`table`]: the table itself;
//! - [`model`] and [`laws`]: maps under a sequence of changes, and what
//!   holds of them;
//! - [`dump`]: the lines of a listing of the backing array;
//! - [`error`]: what an operation can report.

pub mod dump;
pub mod error;
pub mod key;
pub mod laws;
pub mod layout;
pub mod model;
pub mod policy;
pub mod probe;
pub mod rebuild;
pub mod search;
pub mod slot;
pub mod table;

pub use error::Error;
pub use key::{get_initial_index, Key};
pub use policy::DEFAULT_CAPACITY;
pub use table::Hasheroni;
