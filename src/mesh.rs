use vstd::prelude::*;

verus! {

/// Corners of the cube.
pub const VERTEX_COUNT: u32 = 8;

/// Indices of the cube's twelve triangles.
pub const INDEX_COUNT: u32 = 36;

/// Corner positions of a unit cube centred on the origin, three fixed-point
/// coordinates each, half a unit (500 steps) from the centre along every axis.
pub fn cube_vertices() -> (r: Vec<i64>)
    ensures
        r@ == seq![
            -500i64, -500i64, 500i64,
            500i64, -500i64, 500i64,
            500i64, 500i64, 500i64,
            -500i64, 500i64, 500i64,
            -500i64, -500i64, -500i64,
            500i64, -500i64, -500i64,
            500i64, 500i64, -500i64,
            -500i64, 500i64, -500i64,
        ],
        r@.len() == 3 * VERTEX_COUNT,
{
    let r: Vec<i64> = vec![
        -500, -500, 500,
        500, -500, 500,
        500, 500, 500,
        -500, 500, 500,
        -500, -500, -500,
        500, -500, -500,
        500, 500, -500,
        -500, 500, -500,
    ];
    r
}

/// The cube's triangles, two per face, as corner indices.
pub fn cube_indices() -> (r: Vec<u32>)
    ensures
        r@ == seq![
            0u32, 1, 2, 2, 3, 0,
            5, 6, 7, 7, 4, 5,
            3, 2, 6, 6, 7, 3,
            4, 5, 1, 1, 0, 4,
            1, 5, 6, 6, 2, 1,
            4, 0, 3, 3, 7, 4,
        ],
        r@.len() == INDEX_COUNT,
        forall|i: int| 0 <= i < r@.len() ==> r@[i] < VERTEX_COUNT,
{
    let r: Vec<u32> = vec![
        0, 1, 2, 2, 3, 0,
        5, 6, 7, 7, 4, 5,
        3, 2, 6, 6, 7, 3,
        4, 5, 1, 1, 0, 4,
        1, 5, 6, 6, 2, 1,
        4, 0, 3, 3, 7, 4,
    ];
    r
}

} // verus!
