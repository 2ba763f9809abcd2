//! Sizing of the GPU work of the particle simulation: how many compute
//! workgroups cover the particles, and how large the per-particle buffers are.
use vstd::prelude::*;

verus! {

/// Threads per workgroup of the simulation's compute passes.
pub const SIMULATION_WORKGROUP_SIZE: u32 = 256;

/// Threads per workgroup of the billboard compute pass.
pub const BILLBOARD_WORKGROUP_SIZE: u32 = 64;

/// Number of workgroups of `size` threads needed for `count` items (rounded up).
pub open spec fn workgroups_for(count: nat, size: nat) -> nat
    recommends
        size > 0,
{
    ((count + size - 1) / size as int) as nat
}

/// Number of workgroups of `size` threads that give every one of `count` items a thread.
pub fn workgroup_count(count: u32, size: u32) -> (r: u32)
    requires
        size > 0,
        count + size - 1 <= u32::MAX,
    ensures
        r == workgroups_for(count as nat, size as nat),
{
    (count + (size - 1)) / size
}

/// The workgroups cover every item, and one fewer would not.
pub proof fn lemma_workgroups_cover(count: nat, size: nat)
    requires
        size > 0,
    ensures
        workgroups_for(count, size) * size >= count,
        workgroups_for(count, size) * size < count + size,
{
    let q = workgroups_for(count, size);
    let n = count + size - 1;
    assert(n == q * size + n % (size as int)) by (nonlinear_arith)
        requires
            size > 0,
            q == n / (size as int),
            n >= 0,
    ;
    assert(0 <= n % (size as int) < size) by (nonlinear_arith)
        requires
            size > 0,
    ;
}

/// Workgroups dispatched by each per-particle pass of a simulation step.
pub fn simulation_workgroups(particle_count: u32) -> (r: u32)
    requires
        particle_count + 255 <= u32::MAX,
    ensures
        r == workgroups_for(particle_count as nat, 256),
{
    workgroup_count(particle_count, SIMULATION_WORKGROUP_SIZE)
}

/// Workgroups of the pass that resets nucleus slots and hadron markers: it
/// spans whichever is larger, the particles or the nucleus slots.
pub fn reset_workgroups(particle_count: u32, nucleus_capacity: u32) -> (r: u32)
    requires
        particle_count + 255 <= u32::MAX,
        nucleus_capacity + 255 <= u32::MAX,
    ensures
        r == workgroups_for(
            if particle_count >= nucleus_capacity { particle_count as nat } else { nucleus_capacity as nat },
            256,
        ),
{
    let span: u32 = if particle_count >= nucleus_capacity { particle_count } else { nucleus_capacity };
    workgroup_count(span, SIMULATION_WORKGROUP_SIZE)
}

/// Number of nucleus slots allocated for `particle_count` particles: one per four particles.
pub fn nucleus_capacity(particle_count: usize) -> (r: usize)
    ensures
        r == particle_count / 4,
        4 * r <= particle_count < 4 * r + 4,
{
    particle_count / 4
}

/// Workgroups of the billboard pass, which expands each particle into a quad.
pub fn billboard_workgroups(particle_count: u32) -> (r: u32)
    requires
        particle_count + 63 <= u32::MAX,
    ensures
        r == workgroups_for(particle_count as nat, 64),
{
    workgroup_count(particle_count, BILLBOARD_WORKGROUP_SIZE)
}

/// Vertices written by the billboard pass: two triangles, six vertices, per particle.
pub fn billboard_vertex_count(particle_count: u32) -> (r: u32)
    requires
        particle_count * 6 <= u32::MAX,
    ensures
        r == particle_count * 6,
{
    particle_count * 6
}

} // verus!
