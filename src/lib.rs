//! A byte-oriented substitution-permutation block cipher over sixteen-byte
//! blocks and sixty-four-byte keys, built on an algebra of permutations of
//! sixteen positions; and a small register machine.
pub mod perm;
pub mod round;
pub mod l1;
pub mod l2;
pub mod util;
pub mod vm;
