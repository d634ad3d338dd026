//! Block names: lookup of a block by its name in the table of named blocks
//! that the `mcrs` crate publishes.
use vstd::prelude::*;
use crate::rules::Block;
use crate::text::{eq_ignore_ascii_case, eq_ignore_case};

verus! {

/// Number of entries of `mcrs::BLOCKS` (an array of this length).
pub const BLOCK_COUNT: usize = 442;

/// Entry `index` of `mcrs::BLOCKS`: a block's name, and its identifier and modifier.
pub uninterp spec fn block_entry(index: int) -> (Seq<char>, (u32, u32));

/// Relies on `mcrs::BLOCKS`: reads entry `index` of the table of named blocks.
#[verifier::external_body]
fn block_table_entry(index: usize) -> (r: (&'static str, Block))
    requires
        index < BLOCK_COUNT,
    ensures
        r.0@ == block_entry(index as int).0,
        r.1.id == block_entry(index as int).1.0,
        r.1.modifier == block_entry(index as int).1.1,
{
    let (name, block) = mcrs::BLOCKS[index];
    (name, Block { id: block.id, modifier: block.modifier })
}

/// The block of table entry `index`.
pub open spec fn entry_block(index: int) -> Block {
    Block { id: block_entry(index).1.0, modifier: block_entry(index).1.1 }
}

/// The first table entry at or after `from` whose name equals `name` up to ASCII case.
pub open spec fn block_search(name: Seq<char>, from: int) -> Option<Block>
    decreases BLOCK_COUNT - from,
{
    if from < 0 || from >= BLOCK_COUNT {
        None
    } else if eq_ignore_case(block_entry(from).0, name) {
        Some(entry_block(from))
    } else {
        block_search(name, from + 1)
    }
}

/// The block called `name` (ASCII case ignored), if the table has one.
pub open spec fn block_named(name: Seq<char>) -> Option<Block> {
    block_search(name, 0)
}

/// Looks a block up by name, ignoring ASCII case; the first entry of the
/// table that matches wins.
pub fn parse_block(name: &str) -> (r: Option<Block>)
    ensures
        r == block_named(name@),
{
    let mut i: usize = 0;
    while i < BLOCK_COUNT
        invariant
            i <= BLOCK_COUNT,
            block_search(name@, 0) == block_search(name@, i as int),
        decreases BLOCK_COUNT - i,
    {
        let (entry_name, block) = block_table_entry(i);
        if eq_ignore_ascii_case(entry_name, name) {
            assert(eq_ignore_case(block_entry(i as int).0, name@));
            return Some(block);
        }
        i = i + 1;
    }
    None
}

} // verus!
