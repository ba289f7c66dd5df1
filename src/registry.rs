//! Helpers over block texture tables.
use crate::types::Block;
use std::collections::HashMap;
use vstd::prelude::*;

verus! {

broadcast use {
    vstd::std_specs::hash::group_hash_axioms,
    vstd::std_specs::hash::axiom_random_state_builds_valid_hashers,
};

/// The block catalogue: blocks by id, and the atlas layout that their
/// textures were packed with.
pub struct Registry {
    pub blocks: HashMap<u32, Block>,
    pub uv_side_count: u32,
    pub uv_texture_size: u32,
}

impl Registry {
    /// The block with id `id`.
    pub fn get_block_by_id(&self, id: u32) -> (r: &Block)
        requires
            self.blocks@.contains_key(id),
        ensures
            *r == self.blocks@[id],
    {
        self.blocks.get(&id).unwrap()
    }

    /// Whether a block with id `id` is known.
    pub fn has_type(&self, id: u32) -> (r: bool)
        ensures
            r == self.blocks@.contains_key(id),
    {
        self.blocks.contains_key(&id)
    }

    pub fn get_transparency_by_id(&self, id: u32) -> (r: bool)
        requires
            self.blocks@.contains_key(id),
        ensures
            r == self.blocks@[id].is_transparent,
    {
        self.get_block_by_id(id).is_transparent
    }

    pub fn get_fluiditiy_by_id(&self, id: u32) -> (r: bool)
        requires
            self.blocks@.contains_key(id),
        ensures
            r == self.blocks@[id].is_fluid,
    {
        self.get_block_by_id(id).is_fluid
    }

    pub fn get_solidity_by_id(&self, id: u32) -> (r: bool)
        requires
            self.blocks@.contains_key(id),
        ensures
            r == self.blocks@[id].is_solid,
    {
        self.get_block_by_id(id).is_solid
    }

    pub fn get_emptiness_by_id(&self, id: u32) -> (r: bool)
        requires
            self.blocks@.contains_key(id),
        ensures
            r == self.blocks@[id].is_empty,
    {
        self.get_block_by_id(id).is_empty
    }

    /// Whether block `id` is the air block.
    pub fn is_air(&self, id: u32) -> (r: bool)
        requires
            self.blocks@.contains_key(id),
        ensures
            r == (self.blocks@[id].name@ == "Air"@),
    {
        let air: String = "Air".to_owned();
        self.get_block_by_id(id).name == air
    }

    pub fn is_plant(&self, id: u32) -> (r: bool)
        requires
            self.blocks@.contains_key(id),
        ensures
            r == self.blocks@[id].is_plant,
    {
        self.get_block_by_id(id).is_plant
    }

    pub fn is_plantable(&self, id: u32) -> (r: bool)
        requires
            self.blocks@.contains_key(id),
        ensures
            r == self.blocks@[id].is_plantable,
    {
        self.get_block_by_id(id).is_plantable
    }

    /// The texture table of block `id`.
    pub fn get_texture_by_id(&self, id: u32) -> (r: &HashMap<String, String>)
        requires
            self.blocks@.contains_key(id),
        ensures
            *r == self.blocks@[id].textures,
    {
        &self.get_block_by_id(id).textures
    }
}

/// The material kind of a block with `n` textures: one for all faces,
/// three (top, side, bottom) or six (one per face).
pub open spec fn texture_type_name(n: usize) -> Seq<char> {
    if n == 1 {
        "mat1"@
    } else if n == 3 {
        "mat3"@
    } else if n == 6 {
        "mat6"@
    } else {
        "x"@
    }
}

/// The material kind of a block with `n` textures.
pub fn texture_type_for_count(n: usize) -> (r: &'static str)
    ensures
        r@ == texture_type_name(n),
{
    if n == 1 {
        "mat1"
    } else if n == 3 {
        "mat3"
    } else if n == 6 {
        "mat6"
    } else {
        "x"
    }
}

/// The material kind of a block with the given face-to-texture table.
pub fn get_texture_type(texture: &HashMap<String, String>) -> (r: &'static str)
    ensures
        r@ == texture_type_name(texture.len()),
{
    texture_type_for_count(texture.len())
}

} // verus!
