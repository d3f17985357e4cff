//! The fixed geometry of the six cube faces: for each direction, its outward
//! normal, the four corners of its unit quad and the triangulation of that
//! quad.
use vstd::prelude::*;

verus! {

/// One of the six face directions of a voxel.
#[derive(Clone, Copy, Debug, PartialEq, Eq, Structural)]
pub enum FaceDir {
    /// `+y`
    Up,
    /// `-y`
    Down,
    /// `+z`
    North,
    /// `-z`
    South,
    /// `+x`
    East,
    /// `-x`
    West,
}

/// The six directions in the order in which the meshers visit them.
pub open spec fn dir_at(k: int) -> FaceDir {
    if k == 0 {
        FaceDir::Up
    } else if k == 1 {
        FaceDir::Down
    } else if k == 2 {
        FaceDir::North
    } else if k == 3 {
        FaceDir::South
    } else if k == 4 {
        FaceDir::East
    } else {
        FaceDir::West
    }
}

/// The `k`-th direction in visiting order.
pub fn face_dir(k: usize) -> (r: FaceDir)
    requires
        k < 6,
    ensures
        r == dir_at(k as int),
{
    if k == 0 {
        FaceDir::Up
    } else if k == 1 {
        FaceDir::Down
    } else if k == 2 {
        FaceDir::North
    } else if k == 3 {
        FaceDir::South
    } else if k == 4 {
        FaceDir::East
    } else {
        FaceDir::West
    }
}

/// Component `a` (0 for x, 1 for y, 2 for z) of a triple.
pub open spec fn component(p: (int, int, int), a: int) -> int {
    if a == 0 {
        p.0
    } else if a == 1 {
        p.1
    } else {
        p.2
    }
}

/// Position of the `t`-th index of a quad's two triangles among its four
/// corners: `(0, 1, 2, 0, 2, 3)`.
pub open spec fn tri_corner(t: int) -> int {
    if t == 0 || t == 3 {
        0
    } else if t == 1 {
        1
    } else if t == 2 || t == 4 {
        2
    } else {
        3
    }
}

/// The `t`-th entry of the quad triangulation `(0, 1, 2, 0, 2, 3)`.
pub fn quad_index(t: usize) -> (r: u32)
    requires
        t < 6,
    ensures
        r == tri_corner(t as int),
{
    if t == 0 || t == 3 {
        0
    } else if t == 1 {
        1
    } else if t == 2 || t == 4 {
        2
    } else {
        3
    }
}

impl FaceDir {
    /// The axis the face is perpendicular to.
    pub open spec fn normal_axis(self) -> int {
        match self {
            FaceDir::Up | FaceDir::Down => 1,
            FaceDir::North | FaceDir::South => 2,
            FaceDir::East | FaceDir::West => 0,
        }
    }

    /// The in-plane axis along which a quad's width runs.
    pub open spec fn u_axis(self) -> int {
        match self {
            FaceDir::East | FaceDir::West => 1,
            _ => 0,
        }
    }

    /// The in-plane axis along which a quad's height runs.
    pub open spec fn v_axis(self) -> int {
        match self {
            FaceDir::North | FaceDir::South => 1,
            _ => 2,
        }
    }

    /// Whether the face points along the positive direction of its axis.
    pub open spec fn positive(self) -> bool {
        match self {
            FaceDir::Up | FaceDir::North | FaceDir::East => true,
            _ => false,
        }
    }

    /// The outward unit normal.
    pub open spec fn unit(self) -> (int, int, int) {
        match self {
            FaceDir::Up => (0, 1, 0),
            FaceDir::Down => (0, -1, 0),
            FaceDir::North => (0, 0, 1),
            FaceDir::South => (0, 0, -1),
            FaceDir::East => (1, 0, 0),
            FaceDir::West => (-1, 0, 0),
        }
    }

    /// Corner `j` of the unit face, relative to the voxel's minimum corner.
    /// Seen from outside, the corners run counter-clockwise.
    pub open spec fn offset(self, j: int) -> (int, int, int) {
        match self {
            FaceDir::Up => if j == 0 { (0, 1, 0) } else if j == 1 { (0, 1, 1) } else if j == 2 { (1, 1, 1) } else { (1, 1, 0) },
            FaceDir::Down => if j == 0 { (0, 0, 0) } else if j == 1 { (1, 0, 0) } else if j == 2 { (1, 0, 1) } else { (0, 0, 1) },
            FaceDir::North => if j == 0 { (0, 0, 1) } else if j == 1 { (1, 0, 1) } else if j == 2 { (1, 1, 1) } else { (0, 1, 1) },
            FaceDir::South => if j == 0 { (0, 0, 0) } else if j == 1 { (0, 1, 0) } else if j == 2 { (1, 1, 0) } else { (1, 0, 0) },
            FaceDir::East => if j == 0 { (1, 0, 0) } else if j == 1 { (1, 1, 0) } else if j == 2 { (1, 1, 1) } else { (1, 0, 1) },
            FaceDir::West => if j == 0 { (0, 0, 0) } else if j == 1 { (0, 0, 1) } else if j == 2 { (0, 1, 1) } else { (0, 1, 0) },
        }
    }

    /// Each corner of the unit face has coordinates 0 or 1.
    pub proof fn lemma_offset_unit(self, j: int)
        ensures
            0 <= self.offset(j).0 <= 1,
            0 <= self.offset(j).1 <= 1,
            0 <= self.offset(j).2 <= 1,
    {
    }

    /// The outward unit normal.
    pub fn normal(&self) -> (r: (i32, i32, i32))
        ensures
            (r.0 as int, r.1 as int, r.2 as int) == self.unit(),
    {
        match self {
            FaceDir::Up => (0, 1, 0),
            FaceDir::Down => (0, -1, 0),
            FaceDir::North => (0, 0, 1),
            FaceDir::South => (0, 0, -1),
            FaceDir::East => (1, 0, 0),
            FaceDir::West => (-1, 0, 0),
        }
    }
}

/// The geometry of one cube face as plain data.
pub struct Face {
    pub dir: FaceDir,
    /// The four corners of the unit face, relative to the voxel.
    pub vertices: [(u32, u32, u32); 4],
    /// The outward unit normal.
    pub normal: (i32, i32, i32),
}

impl Face {
    pub open spec fn matches_dir(self, d: FaceDir) -> bool {
        &&& self.dir == d
        &&& (self.normal.0 as int, self.normal.1 as int, self.normal.2 as int) == d.unit()
        &&& forall|j: int|
            0 <= j < 4 ==> {
                let c = #[trigger] self.vertices@[j];
                (c.0 as int, c.1 as int, c.2 as int) == d.offset(j)
            }
    }

    /// The table entry of direction `d`.
    pub fn of(d: FaceDir) -> (r: Face)
        ensures
            r.matches_dir(d),
    {
        let vertices: [(u32, u32, u32); 4] = match d {
            FaceDir::Up => [(0, 1, 0), (0, 1, 1), (1, 1, 1), (1, 1, 0)],
            FaceDir::Down => [(0, 0, 0), (1, 0, 0), (1, 0, 1), (0, 0, 1)],
            FaceDir::North => [(0, 0, 1), (1, 0, 1), (1, 1, 1), (0, 1, 1)],
            FaceDir::South => [(0, 0, 0), (0, 1, 0), (1, 1, 0), (1, 0, 0)],
            FaceDir::East => [(1, 0, 0), (1, 1, 0), (1, 1, 1), (1, 0, 1)],
            FaceDir::West => [(0, 0, 0), (0, 0, 1), (0, 1, 1), (0, 1, 0)],
        };
        Face { dir: d, vertices, normal: d.normal() }
    }
}

} // verus!
