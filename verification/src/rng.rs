//! Deterministic pseudo-random selector shared by the mesh mottling and the
//! body coloring: one fixed linear congruential step applied to a
//! caller-supplied index. Each call is a pure function of the index, not an
//! evolving generator, so the visuals are reproducible without a seed table.

use vstd::prelude::*;

verus! {

/// The low 32 bits of `seed * 1664525 + 1013904223`.
pub open spec fn lcg(seed: u32) -> u32 {
    (((seed as int) * 1664525 + 1013904223) % 0x1_0000_0000) as u32
}

/// Whether a mesh vertex with this index gets the accent color rather than
/// the base color: the low bit of the transformed state.
pub open spec fn mottle(seed: u32) -> bool {
    lcg(seed) % 2 == 1
}

/// An RGBA color with byte channels. A channel value `c` stands for the
/// intensity `c / 256`, so every channel lies in `[0, 1)`.
#[derive(Clone, Copy, Debug, PartialEq, Eq, Structural)]
pub struct Color {
    pub r: u8,
    pub g: u8,
    pub b: u8,
    pub a: u8,
}

/// The stable color of the body with this index: the three low bytes of the
/// transformed state, with the fourth channel always forced to zero.
pub open spec fn body_color(index: u32) -> Color {
    let s = lcg(index) as int;
    Color {
        r: (s % 256) as u8,
        g: ((s / 256) % 256) as u8,
        b: ((s / 0x1_0000) % 256) as u8,
        a: 0u8,
    }
}

pub fn lcg_step(seed: u32) -> (r: u32)
    ensures
        r == lcg(seed),
{
    (((seed as u64) * 1664525 + 1013904223) % 0x1_0000_0000) as u32
}

pub fn mottle_at(seed: u32) -> (r: bool)
    ensures
        r == mottle(seed),
{
    lcg_step(seed) % 2 == 1
}

pub fn body_color_at(index: u32) -> (c: Color)
    ensures
        c == body_color(index),
{
    let s = lcg_step(index);
    Color { r: (s % 256) as u8, g: ((s / 256) % 256) as u8, b: ((s / 0x1_0000) % 256) as u8, a: 0 }
}

/// The selector does not collapse to a constant: the indices 0 and 1 are
/// already told apart, both by the boolean selector and by the body color.
pub proof fn lemma_selector_not_constant()
    ensures
        mottle(0) != mottle(1),
        body_color(0) != body_color(1),
{
    assert(lcg(0) == 1013904223);
    assert(lcg(1) == 1015568748);
    assert(mottle(0) && !mottle(1));
    assert(body_color(0).r != body_color(1).r);
}

} // verus!
