use vstd::prelude::*;

pub mod manager;

pub use self::manager::{Shard, ShardManager};

verus! {

} // verus!
