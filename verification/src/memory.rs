use vstd::prelude::*;

verus! {

/// Largest number of memory types a physical device reports.
pub const MAX_MEMORY_TYPES: usize = 32;

/// The memory types of a physical device, by index: the property flags
/// (`VkMemoryPropertyFlags`) of each.
#[derive(Debug)]
pub struct MemoryProperties {
    pub memory_type_flags: Vec<u32>,
}

/// Memory type `i`, whose property flags are `flags`, is allowed by the
/// resource's `type_filter` bit mask and has every property in `properties`.
pub open spec fn memory_type_suitable(type_filter: u32, properties: u32, flags: u32, i: u32) -> bool {
    (type_filter & (1u32 << i)) != 0 && (flags & properties) == properties
}

/// Some memory type of `mem` suits the filter and the properties.
pub open spec fn has_suitable_memory_type(
    type_filter: u32,
    properties: u32,
    mem: Seq<u32>,
) -> bool {
    exists|i: int|
        0 <= i < mem.len() && #[trigger] memory_type_suitable(
            type_filter,
            properties,
            mem[i],
            i as u32,
        )
}

/// Memory type `i` suits a request exactly when bit `i` of the type filter is
/// set and its flags include every requested property bit.
pub proof fn lemma_memory_type_suitable_meaning(type_filter: u32, properties: u32, flags: u32, i: u32)
    requires
        i < 32,
    ensures
        memory_type_suitable(type_filter, properties, flags, i) <==> ((type_filter >> i) & 1u32
            == 1u32 && (flags & properties) == properties),
{
    assert(((type_filter & (1u32 << i)) != 0) == ((type_filter >> i) & 1u32 == 1u32)) by (bit_vector)
        requires
            i < 32,
    ;
}

/// Whether memory type `i`, with property flags `flags`, is allowed by
/// `type_filter` and has all of `properties`.
pub fn memory_type_is_suitable(type_filter: u32, properties: u32, flags: u32, i: u32) -> (r: bool)
    requires
        i < 32,
    ensures
        r == memory_type_suitable(type_filter, properties, flags, i),
        r == ((type_filter & (1u32 << i)) != 0 && (flags & properties) == properties),
{
    (type_filter & (1u32 << i)) != 0 && (flags & properties) == properties
}

/// The first memory type that `type_filter` allows and that has all of
/// `properties`.
pub fn find_memory_type(type_filter: u32, properties: u32, mem: &MemoryProperties) -> (r: u32)
    requires
        mem.memory_type_flags@.len() <= MAX_MEMORY_TYPES,
        has_suitable_memory_type(type_filter, properties, mem.memory_type_flags@),
    ensures
        r < mem.memory_type_flags@.len(),
        memory_type_suitable(type_filter, properties, mem.memory_type_flags@[r as int], r),
        forall|j: u32|
            j < r ==> !#[trigger] memory_type_suitable(
                type_filter,
                properties,
                mem.memory_type_flags@[j as int],
                j,
            ),
        (type_filter & (1u32 << r)) != 0,
        (mem.memory_type_flags@[r as int] & properties) == properties,
        forall|j: u32|
            j < r ==> !((type_filter & (1u32 << j)) != 0 && (#[trigger] mem.memory_type_flags@[j as int]
                & properties) == properties),
{
    let count = mem.memory_type_flags.len() as u32;
    let mut i: u32 = 0;
    while i < count
        invariant
            count == mem.memory_type_flags@.len() <= MAX_MEMORY_TYPES,
            i <= count,
            has_suitable_memory_type(type_filter, properties, mem.memory_type_flags@),
            forall|j: u32|
                j < i ==> !#[trigger] memory_type_suitable(
                    type_filter,
                    properties,
                    mem.memory_type_flags@[j as int],
                    j,
                ),
        decreases count - i,
    {
        if memory_type_is_suitable(type_filter, properties, mem.memory_type_flags[i as usize], i) {
            proof {
                assert forall|j: u32| j < i implies !((type_filter & (1u32 << j)) != 0 && (
                #[trigger] mem.memory_type_flags@[j as int] & properties) == properties) by {
                    assert(!memory_type_suitable(
                        type_filter,
                        properties,
                        mem.memory_type_flags@[j as int],
                        j,
                    ));
                }
            }
            return i;
        }
        i = i + 1;
    }
    proof {
        let w = choose|w: int|
            0 <= w < mem.memory_type_flags@.len() && #[trigger] memory_type_suitable(
                type_filter,
                properties,
                mem.memory_type_flags@[w],
                w as u32,
            );
        assert(!memory_type_suitable(
            type_filter,
            properties,
            mem.memory_type_flags@[(w as u32) as int],
            w as u32,
        ));
    }
    0
}

} // verus!
