//! Memory blocks and the maps that keep them by address.

use dashmap::DashMap;
use std::collections::TryReserveError;
use vstd::prelude::*;

verus! {

/// `dashmap::DashMap`, a hash map.
#[verifier::external_type_specification]
#[verifier::external_body]
#[verifier::reject_recursive_types(K)]
#[verifier::reject_recursive_types(V)]
#[verifier::reject_recursive_types(S)]
pub struct ExDashMap<K, V, S>(DashMap<K, V, S>);

/// The blocks that a hash map holds: the bytes of each, by its key.
pub uninterp spec fn held_blocks(map: DashMap<usize, Vec<u8>>) -> Map<usize, Seq<u8>>;

/// `DashMap::new` makes a map that holds nothing.
#[verifier::external_body]
fn dash_new() -> (map: DashMap<usize, Vec<u8>>)
    ensures
        held_blocks(map).dom() == Set::<usize>::empty(),
{
    DashMap::new()
}

/// `DashMap::insert` puts the value under the key and returns the value that was there, if any.
/// The map is borrowed exclusively, so no other thread writes to it meanwhile and no reference
/// into it is alive on which the call could block.
#[verifier::external_body]
fn dash_insert(map: &mut DashMap<usize, Vec<u8>>, key: usize, block: Vec<u8>) -> (previous: Option<
    Vec<u8>,
>)
    ensures
        held_blocks(*final(map)) == held_blocks(*old(map)).insert(key, block@),
        previous is Some <==> held_blocks(*old(map)).contains_key(key),
        previous matches Some(value) ==> value@ == held_blocks(*old(map))[key],
{
    map.insert(key, block)
}

/// `DashMap::remove` takes the entry under the key out and returns it, if there is one. The map
/// is borrowed exclusively, as for `dash_insert`.
#[verifier::external_body]
fn dash_remove(map: &mut DashMap<usize, Vec<u8>>, key: &usize) -> (removed: Option<
    (usize, Vec<u8>),
>)
    ensures
        held_blocks(*final(map)) == held_blocks(*old(map)).remove(*key),
        removed is Some <==> held_blocks(*old(map)).contains_key(*key),
        removed matches Some(entry) ==> entry.0 == *key && entry.1@ == held_blocks(*old(map))[*key],
{
    map.remove(key)
}

/// `DashMap::contains_key` tells whether there is an entry under the key.
#[verifier::external_body]
fn dash_contains_key(map: &DashMap<usize, Vec<u8>>, key: &usize) -> (present: bool)
    ensures
        present == held_blocks(*map).contains_key(*key),
{
    map.contains_key(key)
}

/// `DashMap::len` counts the entries.
#[verifier::external_body]
fn dash_len(map: &DashMap<usize, Vec<u8>>) -> (n: usize)
    ensures
        n == held_blocks(*map).dom().len(),
{
    map.len()
}

/// `Vec::as_mut_ptr`, as a number: where the buffer of a vector starts. The documentation of `Vec`
/// promises that this pointer is never null. Nothing more is said of it: where a buffer lies is up
/// to the system.
#[verifier::external_body]
fn buffer_address(block: &mut Vec<u8>) -> (address: usize)
    ensures
        address != 0,
        final(block)@ == old(block)@,
{
    block.as_mut_ptr() as usize
}

/// The bytes of a new block.
pub open spec fn zeros(size: nat) -> Seq<u8> {
    Seq::new(size, |i: int| 0u8)
}

/// Asks the system for a block of `size` bytes. The result is the address of the block together
/// with the block itself, all of whose bytes are zero, or the null address and an empty block when
/// the system has no memory to give. Which of the two it is depends on the system alone:
/// `bytes_to_reserve` says what it is asked for, and `lay_out_block` what comes of each of its
/// answers.
pub fn obtain_block(size: usize) -> (obtained: (usize, Vec<u8>))
    ensures
        obtained.0 != 0 ==> obtained.1@ == zeros(size as nat),
        obtained.0 == 0 ==> obtained.1@ == Seq::<u8>::empty(),
        obtained.0 != 0 ==> obtained.1@.len() == size,
        forall|i: int| 0 <= i < obtained.1@.len() ==> #[trigger] obtained.1@[i] == 0,
        exists|asked: &mut Vec<u8>, n: usize, answer: Result<(), TryReserveError>|
            {
                &&& n == (if size == 0 {
                    1
                } else {
                    size
                })
                &&& #[trigger] call_ensures(Vec::<u8>::try_reserve, (asked, n), answer)
                &&& answer is Ok <==> obtained.0 != 0
            },
{
    let mut block: Vec<u8> = Vec::new();
    let n: usize = bytes_to_reserve(size);
    let reserved: Result<(), TryReserveError> = block.try_reserve(n);
    assert(exists|asked: &mut Vec<u8>| #[trigger]
        call_ensures(Vec::<u8>::try_reserve, (asked, n), reserved));
    lay_out_block(size, block, reserved)
}

/// How many bytes the system is asked for to make a block of `size` bytes: at least one, so that a
/// block of no bytes has an address of its own too.
pub fn bytes_to_reserve(size: usize) -> (n: usize)
    ensures
        n == (if size == 0 {
            1
        } else {
            size
        }),
{
    if size == 0 {
        1
    } else {
        size
    }
}

/// Makes a block of `size` bytes out of an empty vector for which the system was asked for memory,
/// and has answered with `reserved`. Where it gave the memory, the block is filled with zeros and
/// lies at an address that is not null. Where it did not, there is no block.
fn lay_out_block(size: usize, block: Vec<u8>, reserved: Result<(), TryReserveError>) -> (obtained: (
    usize,
    Vec<u8>,
))
    requires
        block@.len() == 0,
    ensures
        obtained.0 != 0 <==> reserved is Ok,
        obtained.1@ == (if reserved is Ok {
            zeros(size as nat)
        } else {
            Seq::<u8>::empty()
        }),
        reserved is Ok ==> obtained.1@.len() == size,
        reserved is Err ==> obtained.1@.len() == 0,
        forall|i: int| 0 <= i < obtained.1@.len() ==> #[trigger] obtained.1@[i] == 0,
        reserved is Ok ==> exists|asked: &mut Vec<u8>|
            *final(asked) == obtained.1 && #[trigger] call_ensures(
                buffer_address,
                (asked,),
                obtained.0,
            ),
{
    let mut block: Vec<u8> = block;
    match reserved {
        Ok(_) => {
            block.resize(size, 0);
            assert(block@ =~= zeros(size as nat));
            let address: usize = buffer_address(&mut block);
            assert(exists|asked: &mut Vec<u8>|
                *final(asked) == block && #[trigger] call_ensures(
                    buffer_address,
                    (asked,),
                    address,
                ));
            (address, block)
        },
        Err(_) => (0, block),
    }
}

/// Blocks by address, viewed as a `Map` from addresses to bytes.
pub struct BlockMap {
    blocks: DashMap<usize, Vec<u8>>,
}

impl View for BlockMap {
    type V = Map<usize, Seq<u8>>;

    closed spec fn view(&self) -> Map<usize, Seq<u8>> {
        held_blocks(self.blocks)
    }
}

impl BlockMap {
    pub fn new() -> (m: Self)
        ensures
            m@ == Map::<usize, Seq<u8>>::empty(),
    {
        let m: Self = BlockMap { blocks: dash_new() };
        assert(m@ =~= Map::<usize, Seq<u8>>::empty());
        m
    }

    /// Puts a block under an address, and hands back the block that was there before.
    pub fn insert(&mut self, ptr: usize, block: Vec<u8>) -> (previous: Option<Vec<u8>>)
        ensures
            final(self)@ == old(self)@.insert(ptr, block@),
            previous is Some <==> old(self)@.contains_key(ptr),
            previous matches Some(value) ==> value@ == old(self)@[ptr],
    {
        dash_insert(&mut self.blocks, ptr, block)
    }

    /// Takes the block under an address out, together with its address.
    pub fn remove(&mut self, ptr: &usize) -> (removed: Option<(usize, Vec<u8>)>)
        ensures
            final(self)@ == old(self)@.remove(*ptr),
            removed is Some <==> old(self)@.contains_key(*ptr),
            removed matches Some(entry) ==> entry.0 == *ptr && entry.1@ == old(self)@[*ptr],
    {
        dash_remove(&mut self.blocks, ptr)
    }

    pub fn contains_key(&self, ptr: &usize) -> (present: bool)
        ensures
            present == self@.contains_key(*ptr),
    {
        dash_contains_key(&self.blocks, ptr)
    }

    pub fn len(&self) -> (n: usize)
        ensures
            n == self@.dom().len(),
    {
        dash_len(&self.blocks)
    }

    pub fn is_empty(&self) -> (empty: bool)
        ensures
            empty == (self@.dom().len() == 0),
    {
        self.len() == 0
    }
}

} // verus!
