use vstd::prelude::*;

verus! {

/// Side length of a chunk, in blocks.
pub open spec fn chunk_size() -> int {
    16
}

/// A position in the world (or inside a chunk, or of a chunk) as three
/// signed integers.
#[derive(Debug, PartialEq, Eq, PartialOrd, Ord, Clone, Copy, Structural)]
pub struct Coordinate {
    pub x: i32,
    pub y: i32,
    pub z: i32,
}

impl Coordinate {
    /// Creates a coordinate from its three components.
    pub fn new(x: i32, y: i32, z: i32) -> (c: Self)
        ensures
            c.x == x,
            c.y == y,
            c.z == z,
    {
        Coordinate { x, y, z }
    }

    /// Position of a world coordinate inside its chunk: each component
    /// taken modulo 16 (always in `0..16`, also for negative inputs).
    pub fn world_to_local_coords(&self) -> (c: Self)
        ensures
            c.x == self.x as int % chunk_size(),
            c.y == self.y as int % chunk_size(),
            c.z == self.z as int % chunk_size(),
            c == self.world_to_local_coords_spec(),
    {
        let (x, y, z) = (self.x, self.y, self.z);
        proof {
            lemma_low_bits(x);
            lemma_low_bits(y);
            lemma_low_bits(z);
        }
        Coordinate::new(x & 0xF, y & 0xF, z & 0xF)
    }

    /// Coordinate of the chunk that holds a world coordinate: each
    /// component divided by 16, rounded towards negative infinity.
    pub open spec fn world_to_chunk_coords_spec(&self) -> Coordinate {
        Coordinate {
            x: (self.x as int / chunk_size()) as i32,
            y: (self.y as int / chunk_size()) as i32,
            z: (self.z as int / chunk_size()) as i32,
        }
    }

    /// Position of a world coordinate inside its chunk: each component
    /// taken modulo 16.
    pub open spec fn world_to_local_coords_spec(&self) -> Coordinate {
        Coordinate {
            x: (self.x as int % chunk_size()) as i32,
            y: (self.y as int % chunk_size()) as i32,
            z: (self.z as int % chunk_size()) as i32,
        }
    }

    /// Coordinate of the chunk that holds a world coordinate: each
    /// component divided by 16, rounded towards negative infinity.
    pub fn world_to_chunk_coords(&self) -> (c: Self)
        ensures
            c.x == self.x as int / chunk_size(),
            c.y == self.y as int / chunk_size(),
            c.z == self.z as int / chunk_size(),
            c == self.world_to_chunk_coords_spec(),
    {
        let (x, y, z) = (self.x, self.y, self.z);
        proof {
            lemma_high_bits(x);
            lemma_high_bits(y);
            lemma_high_bits(z);
        }
        Coordinate::new(x >> 4, y >> 4, z >> 4)
    }
}

/// A world coordinate is its chunk's corner plus its position inside
/// the chunk, and that position lies in `0..16` on every axis.
pub proof fn lemma_world_is_chunk_plus_local(c: Coordinate)
    ensures
        c.world_to_chunk_coords_spec().x * chunk_size() + c.world_to_local_coords_spec().x == c.x,
        c.world_to_chunk_coords_spec().y * chunk_size() + c.world_to_local_coords_spec().y == c.y,
        c.world_to_chunk_coords_spec().z * chunk_size() + c.world_to_local_coords_spec().z == c.z,
        0 <= c.world_to_local_coords_spec().x < chunk_size(),
        0 <= c.world_to_local_coords_spec().y < chunk_size(),
        0 <= c.world_to_local_coords_spec().z < chunk_size(),
{
    lemma_div_mod_16(c.x as int);
    lemma_div_mod_16(c.y as int);
    lemma_div_mod_16(c.z as int);
}

proof fn lemma_div_mod_16(v: int)
    requires
        i32::MIN <= v <= i32::MAX,
    ensures
        (v / 16) * 16 + v % 16 == v,
        0 <= v % 16 < 16,
        i32::MIN <= v / 16 <= i32::MAX,
{
}

proof fn lemma_low_bits(v: i32)
    ensures
        (v & 0xF) as int == v as int % 16,
{
    assert((v & 0xF) == v % 16) by (bit_vector);
}

proof fn lemma_high_bits(v: i32)
    ensures
        (v >> 4) as int == v as int / 16,
{
    assert((v >> 4) == v / 16) by (bit_vector);
}

} // verus!
