use vstd::prelude::*;
use crate::cube::AxisBox;
use crate::geometry::{Vec3, COORD_LIMIT};
use crate::intersection::{
    crosses_plane, is_plane_crossing, segment_plane_intersection, Intersection,
    IntersectionHistory, Plane, bounded_append,
};

verus! {

/// Number of face planes of a cube; their ids follow its centre plane's.
pub const FACE_PLANES: u64 = 6;

/// A box in space with a rectangular plane through its centre, facing +z.
/// One cube of a set may be the viewing plane that objects fly through.
#[derive(Clone, Copy, Debug, PartialEq, Eq, Structural)]
pub struct SpaceCube {
    pub id: u64,
    pub position: Vec3,
    /// Half the width, height and depth.
    pub half_extent: Vec3,
    /// Euler angles in thousandths of a radian, kept for the renderer.
    pub rotation: Vec3,
    pub center_plane: Plane,
    pub is_active: bool,
    pub is_viewing_plane: bool,
}

/// Whether a box centred at `c` with half-extents `h` stays within the coordinate limit.
pub open spec fn box_fits(c: Vec3, h: Vec3) -> bool {
    &&& c.bounded()
    &&& 0 <= h.x && 0 <= h.y && 0 <= h.z
    &&& -COORD_LIMIT <= c.x - h.x && c.x + h.x <= COORD_LIMIT
    &&& -COORD_LIMIT <= c.y - h.y && c.y + h.y <= COORD_LIMIT
    &&& -COORD_LIMIT <= c.z - h.z && c.z + h.z <= COORD_LIMIT
}

impl SpaceCube {
    pub open spec fn wf(self) -> bool {
        &&& box_fits(self.position, self.half_extent)
        &&& self.center_plane.wf()
        &&& self.center_plane.position == self.position
        &&& self.center_plane.normal == (Vec3 { x: 0, y: 0, z: 1000 })
        &&& self.center_plane.half_width == self.half_extent.x * 9 / 10
        &&& self.center_plane.half_height == self.half_extent.y * 9 / 10
        &&& self.center_plane.id <= u64::MAX - FACE_PLANES
    }

    /// The cube's extent as an axis-aligned box.
    pub open spec fn bounds(self) -> AxisBox {
        AxisBox {
            min: Vec3 {
                x: (self.position.x - self.half_extent.x) as i64,
                y: (self.position.y - self.half_extent.y) as i64,
                z: (self.position.z - self.half_extent.z) as i64,
            },
            max: Vec3 {
                x: (self.position.x + self.half_extent.x) as i64,
                y: (self.position.y + self.half_extent.y) as i64,
                z: (self.position.z + self.half_extent.z) as i64,
            },
        }
    }

    /// A cube centred at `position`; its centre plane covers nine tenths of
    /// the cube's width and height.
    pub fn new(id: u64, plane_id: u64, position: Vec3, half_extent: Vec3) -> (r: SpaceCube)
        requires
            box_fits(position, half_extent),
            plane_id <= u64::MAX - FACE_PLANES,
        ensures
            r.wf(),
            r.id == id,
            r.center_plane.id == plane_id,
            r.position == position,
            r.half_extent == half_extent,
            r.rotation == (Vec3 { x: 0, y: 0, z: 0 }),
            r.is_active && !r.is_viewing_plane,
    {
        SpaceCube {
            id,
            position,
            half_extent,
            rotation: Vec3 { x: 0, y: 0, z: 0 },
            center_plane: Plane {
                position,
                normal: Vec3 { x: 0, y: 0, z: 1000 },
                half_width: half_extent.x * 9 / 10,
                half_height: half_extent.y * 9 / 10,
                id: plane_id,
            },
            is_active: true,
            is_viewing_plane: false,
        }
    }

    /// A cube centred at the origin that is the viewing plane.
    pub fn new_viewing_plane(id: u64, plane_id: u64, half_extent: Vec3) -> (r: SpaceCube)
        requires
            box_fits(Vec3 { x: 0, y: 0, z: 0 }, half_extent),
            plane_id <= u64::MAX - FACE_PLANES,
        ensures
            r.wf(),
            r.id == id,
            r.center_plane.id == plane_id,
            r.position == (Vec3 { x: 0, y: 0, z: 0 }),
            r.half_extent == half_extent,
            r.rotation == (Vec3 { x: 0, y: 0, z: 0 }),
            r.is_active && r.is_viewing_plane,
    {
        let mut cube = SpaceCube::new(id, plane_id, Vec3 { x: 0, y: 0, z: 0 }, half_extent);
        cube.is_viewing_plane = true;
        cube
    }

    /// Checks the segment against the centre plane and records the
    /// crossing, if any, in `history`.
    pub fn intersects_center_plane_with_info(
        &self,
        start: Vec3,
        end: Vec3,
        object_id: u64,
        time: i64,
        history: &mut IntersectionHistory,
    ) -> (r: Option<Intersection>)
        requires
            self.wf(),
            old(history).wf(),
            start.bounded(),
            end.bounded(),
        ensures
            final(history).wf(),
            r.is_some() == crosses_plane(start, end, self.center_plane),
            r.is_some() ==> is_plane_crossing(r.unwrap(), start, end, self.center_plane, object_id, time),
            final(history)@ == match r {
                Some(x) => bounded_append(old(history)@, x),
                None => old(history)@,
            },
    {
        history.record_crossing(start, end, &self.center_plane, object_id, time)
    }

    /// The six faces as planes, in the order +z, −z, +x, −x, +y, −y: each
    /// centred on its face, facing out and spanning the face. Their ids are
    /// the six that follow the centre plane's, in that order, so the seven
    /// planes of a cube have distinct ids.
    pub fn boundary_planes(&self) -> (r: Vec<Plane>)
        requires
            self.wf(),
        ensures
            r@.len() == 6,
            forall|k: int| 0 <= k < 6 ==> #[trigger] is_face_plane(r@[k], *self, k),
            forall|k: int| 0 <= k < 6 ==> r@[k].id != self.center_plane.id,
            forall|k: int, j: int| 0 <= k < j < 6 ==> r@[k].id != r@[j].id,
    {
        let c = self.position;
        let h = self.half_extent;
        let base = self.center_plane.id;
        let mut r: Vec<Plane> = Vec::new();
        r.push(Plane { position: Vec3 { x: c.x, y: c.y, z: c.z + h.z }, normal: Vec3 { x: 0, y: 0, z: 1000 }, half_width: h.x, half_height: h.y, id: base + 1 });
        r.push(Plane { position: Vec3 { x: c.x, y: c.y, z: c.z - h.z }, normal: Vec3 { x: 0, y: 0, z: -1000 }, half_width: h.x, half_height: h.y, id: base + 2 });
        r.push(Plane { position: Vec3 { x: c.x + h.x, y: c.y, z: c.z }, normal: Vec3 { x: 1000, y: 0, z: 0 }, half_width: h.z, half_height: h.y, id: base + 3 });
        r.push(Plane { position: Vec3 { x: c.x - h.x, y: c.y, z: c.z }, normal: Vec3 { x: -1000, y: 0, z: 0 }, half_width: h.z, half_height: h.y, id: base + 4 });
        r.push(Plane { position: Vec3 { x: c.x, y: c.y + h.y, z: c.z }, normal: Vec3 { x: 0, y: 1000, z: 0 }, half_width: h.x, half_height: h.z, id: base + 5 });
        r.push(Plane { position: Vec3 { x: c.x, y: c.y - h.y, z: c.z }, normal: Vec3 { x: 0, y: -1000, z: 0 }, half_width: h.x, half_height: h.z, id: base + 6 });
        proof {
            assert(is_face_plane(r@[0], *self, 0));
            assert(is_face_plane(r@[1], *self, 1));
            assert(is_face_plane(r@[2], *self, 2));
            assert(is_face_plane(r@[3], *self, 3));
            assert(is_face_plane(r@[4], *self, 4));
            assert(is_face_plane(r@[5], *self, 5));
            assert forall|k: int| 0 <= k < 6 implies #[trigger] is_face_plane(r@[k], *self, k) by {
                if k == 0 {} else if k == 1 {} else if k == 2 {} else if k == 3 {} else if k == 4 {} else {}
            }
        }
        r
    }

    /// Whether `local`, a point given in the cube's own frame (relative to
    /// its centre, along its turned axes), lies in the cube, faces included.
    pub fn contains_local_point(&self, local: Vec3) -> (r: bool)
        requires
            self.wf(),
        ensures
            r == (-self.half_extent.x <= local.x <= self.half_extent.x
                && -self.half_extent.y <= local.y <= self.half_extent.y
                && -self.half_extent.z <= local.z <= self.half_extent.z),
    {
        -self.half_extent.x <= local.x && local.x <= self.half_extent.x && -self.half_extent.y <= local.y
            && local.y <= self.half_extent.y && -self.half_extent.z <= local.z && local.z <= self.half_extent.z
    }

    /// Whether the world point `p` lies in the cube, faces included, taking
    /// the cube as unturned: its axes along the world's. For a turned cube,
    /// bring the point into the cube's frame and use `contains_local_point`.
    pub fn contains_point(&self, p: Vec3) -> (r: bool)
        requires
            self.wf(),
        ensures
            r == self.bounds().contains(p),
    {
        let b = AxisBox::around(self.position, self.half_extent);
        b.contains_point(p)
    }

    /// Whether the segment crosses the centre plane.
    pub fn intersects_center_plane(&self, start: Vec3, end: Vec3) -> (r: bool)
        requires
            self.wf(),
            start.bounded(),
            end.bounded(),
        ensures
            r == crosses_plane(start, end, self.center_plane),
    {
        segment_plane_intersection(start, end, &self.center_plane, 0, 0).is_some()
    }

    /// Signed distance from the centre plane, positive on its normal's side.
    pub fn distance_to_center_plane(&self, p: Vec3) -> (r: i64)
        requires
            self.wf(),
            p.bounded(),
        ensures
            r == p.z - self.position.z,
    {
        p.z - self.position.z
    }
}

/// Whether `p` is face `k` of cube `c` in the order +z, −z, +x, −x, +y, −y.
pub open spec fn is_face_plane(p: Plane, c: SpaceCube, k: int) -> bool {
    let o = c.position;
    let h = c.half_extent;
    let (px, py, pz, nx, ny, nz, hw, hh): (int, int, int, int, int, int, int, int) = if k == 0 {
        (o.x as int, o.y as int, o.z + h.z, 0, 0, 1000, h.x as int, h.y as int)
    } else if k == 1 {
        (o.x as int, o.y as int, o.z - h.z, 0, 0, -1000, h.x as int, h.y as int)
    } else if k == 2 {
        (o.x + h.x, o.y as int, o.z as int, 1000, 0, 0, h.z as int, h.y as int)
    } else if k == 3 {
        (o.x - h.x, o.y as int, o.z as int, -1000, 0, 0, h.z as int, h.y as int)
    } else if k == 4 {
        (o.x as int, o.y + h.y, o.z as int, 0, 1000, 0, h.x as int, h.z as int)
    } else {
        (o.x as int, o.y - h.y, o.z as int, 0, -1000, 0, h.x as int, h.z as int)
    };
    &&& p.id == c.center_plane.id + 1 + k
    &&& p.position.x == px && p.position.y == py && p.position.z == pz
    &&& p.normal.x == nx && p.normal.y == ny && p.normal.z == nz
    &&& p.half_width == hw && p.half_height == hh
}

/// The cubes of a scene, at most one of them the viewing plane.
pub struct CubeSet {
    cubes: Vec<SpaceCube>,
    next_cube_id: u64,
    next_plane_id: u64,
}

impl View for CubeSet {
    type V = Seq<SpaceCube>;

    closed spec fn view(&self) -> Seq<SpaceCube> {
        self.cubes@
    }
}

impl CubeSet {
    pub closed spec fn next_id(&self) -> u64 {
        self.next_cube_id
    }

    pub closed spec fn next_plane(&self) -> u64 {
        self.next_plane_id
    }

    pub open spec fn wf(&self) -> bool {
        &&& forall|i: int| 0 <= i < self@.len() ==> (#[trigger] self@[i]).wf()
        &&& forall|i: int, j: int| 0 <= i < j < self@.len() ==> self@[i].id < self@[j].id
        &&& forall|i: int| 0 <= i < self@.len() ==> (#[trigger] self@[i]).id < self.next_id()
        &&& forall|i: int, j: int| 0 <= i < self@.len() && 0 <= j < self@.len()
            && self@[i].is_viewing_plane && self@[j].is_viewing_plane ==> i == j
        &&& forall|i: int, j: int| 0 <= i < j < self@.len()
            ==> self@[i].center_plane.id + FACE_PLANES < self@[j].center_plane.id
        &&& forall|i: int| 0 <= i < self@.len()
            ==> (#[trigger] self@[i]).center_plane.id + FACE_PLANES < self.next_plane()
    }

    /// The ids of the planes of a set's cubes, the centre plane's and the
    /// six faces' that follow it, are distinct across the whole set.
    pub proof fn lemma_plane_ids_unique(&self, i: int, j: int, a: int, b: int)
        requires
            self.wf(),
            0 <= i < self@.len(),
            0 <= j < self@.len(),
            0 <= a <= FACE_PLANES,
            0 <= b <= FACE_PLANES,
            i != j || a != b,
        ensures
            self@[i].center_plane.id + a != self@[j].center_plane.id + b,
    {
    }

    /// Whether a cube with this id is in the set.
    pub open spec fn has(&self, id: u64) -> bool {
        exists|i: int| 0 <= i < self@.len() && self@[i].id == id
    }

    pub fn new() -> (r: CubeSet)
        ensures
            r.wf(),
            r@.len() == 0,
            r.next_id() == 1,
            r.next_plane() == 1,
    {
        CubeSet { cubes: Vec::new(), next_cube_id: 1, next_plane_id: 1 }
    }

    /// Index of the cube with this id, if any.
    pub fn find(&self, id: u64) -> (r: Option<usize>)
        requires
            self.wf(),
        ensures
            r.is_some() == self.has(id),
            r.is_some() ==> r.unwrap() < self@.len() && self@[r.unwrap() as int].id == id,
    {
        let mut i: usize = 0;
        while i < self.cubes.len()
            invariant
                i <= self@.len(),
                forall|j: int| 0 <= j < i ==> self@[j].id != id,
            decreases self@.len() - i,
        {
            if self.cubes[i].id == id {
                return Some(i);
            }
            i = i + 1;
        }
        None
    }

    /// A copy of the cube with this id, or `None` if there is none.
    pub fn get_cube(&self, id: u64) -> (r: Option<SpaceCube>)
        requires
            self.wf(),
        ensures
            r.is_some() == self.has(id),
            r.is_some() ==> exists|i: int| 0 <= i < self@.len() && self@[i] == r.unwrap() && r.unwrap().id == id,
    {
        match self.find(id) {
            None => None,
            Some(i) => Some(self.cubes[i]),
        }
    }

    fn add(&mut self, position: Vec3, half_extent: Vec3, viewing: bool) -> (r: Option<u64>)
        requires
            old(self).wf(),
        ensures
            final(self).wf(),
            r.is_some() == (old(self).next_id() < u64::MAX && old(self).next_plane() <= u64::MAX - (FACE_PLANES + 1)
                && box_fits(position, half_extent)),
            r.is_none() ==> final(self)@ == old(self)@,
            r.is_some() ==> {
                &&& final(self)@.len() == old(self)@.len() + 1
                &&& final(self)@.last().id == r.unwrap()
                &&& final(self)@.last().position == position
                &&& final(self)@.last().half_extent == half_extent
                &&& final(self)@.last().is_viewing_plane == viewing
                &&& final(self)@.last().rotation == (Vec3 { x: 0, y: 0, z: 0 })
                &&& final(self)@.last().is_active
                &&& !old(self).has(r.unwrap())
                &&& forall|i: int| 0 <= i < old(self)@.len() ==> final(self)@[i] == (if viewing {
                    SpaceCube { is_viewing_plane: false, ..old(self)@[i] }
                } else {
                    old(self)@[i]
                })
                &&& final(self).next_id() == old(self).next_id() + 1
            },
    {
        if self.next_cube_id == u64::MAX || self.next_plane_id > u64::MAX - (FACE_PLANES + 1) {
            return None;
        }
        if !(-COORD_LIMIT <= position.x && position.x <= COORD_LIMIT && -COORD_LIMIT <= position.y
            && position.y <= COORD_LIMIT && -COORD_LIMIT <= position.z && position.z <= COORD_LIMIT
            && 0 <= half_extent.x && 0 <= half_extent.y && 0 <= half_extent.z
            && half_extent.x <= 2 * COORD_LIMIT && half_extent.y <= 2 * COORD_LIMIT
            && half_extent.z <= 2 * COORD_LIMIT) {
            return None;
        }
        if !(-COORD_LIMIT <= position.x - half_extent.x && position.x + half_extent.x <= COORD_LIMIT
            && -COORD_LIMIT <= position.y - half_extent.y && position.y + half_extent.y <= COORD_LIMIT
            && -COORD_LIMIT <= position.z - half_extent.z && position.z + half_extent.z <= COORD_LIMIT) {
            return None;
        }
        if viewing {
            self.clear_viewing_flag();
        }
        let id = self.next_cube_id;
        let mut cube = SpaceCube::new(id, self.next_plane_id, position, half_extent);
        cube.is_viewing_plane = viewing;
        self.next_cube_id = id + 1;
        self.next_plane_id = self.next_plane_id + (FACE_PLANES + 1);
        let ghost before = self@;
        self.cubes.push(cube);
        proof {
            assert forall|i: int| 0 <= i < before.len() implies self@[i] == before[i] by {}
            assert(!old(self).has(id)) by {
                if old(self).has(id) {
                    let k = choose|k: int| 0 <= k < old(self)@.len() && old(self)@[k].id == id;
                    assert(old(self)@[k].id < old(self).next_id());
                }
            }
        }
        Some(id)
    }

    fn clear_viewing_flag(&mut self)
        requires
            old(self).wf(),
        ensures
            final(self).wf(),
            final(self).next_id() == old(self).next_id(),
            final(self).next_plane() == old(self).next_plane(),
            final(self)@.len() == old(self)@.len(),
            forall|i: int| 0 <= i < final(self)@.len() ==> !(#[trigger] final(self)@[i]).is_viewing_plane,
            forall|i: int| 0 <= i < final(self)@.len()
                ==> final(self)@[i] == (SpaceCube { is_viewing_plane: false, ..old(self)@[i] }),
            forall|id: u64| final(self).has(id) == old(self).has(id),
    {
        let mut i: usize = 0;
        while i < self.cubes.len()
            invariant
                self.next_cube_id == old(self).next_cube_id,
                self.next_plane_id == old(self).next_plane_id,
                self@.len() == old(self)@.len(),
                i <= self@.len(),
                forall|j: int| 0 <= j < i ==> self@[j] == (SpaceCube { is_viewing_plane: false, ..old(self)@[j] }),
                forall|j: int| i <= j < self@.len() ==> self@[j] == old(self)@[j],
                old(self).wf(),
            decreases self@.len() - i,
        {
            let mut c = self.cubes[i];
            c.is_viewing_plane = false;
            self.cubes.set(i, c);
            i = i + 1;
        }
        proof {
            assert forall|id: u64| self.has(id) == old(self).has(id) by {
                if old(self).has(id) {
                    let k = choose|k: int| 0 <= k < old(self)@.len() && old(self)@[k].id == id;
                    assert(self@[k].id == id);
                }
                if self.has(id) {
                    let k = choose|k: int| 0 <= k < self@.len() && self@[k].id == id;
                    assert(old(self)@[k].id == id);
                }
            }
        }
    }

    /// Adds a cube and returns its id; `None` if ids ran out or the cube
    /// would not fit within the coordinate limit.
    pub fn create_space_cube(&mut self, position: Vec3, half_extent: Vec3) -> (r: Option<u64>)
        requires
            old(self).wf(),
        ensures
            final(self).wf(),
            r.is_some() == (old(self).next_id() < u64::MAX && old(self).next_plane() <= u64::MAX - (FACE_PLANES + 1)
                && box_fits(position, half_extent)),
            r.is_some() ==> final(self).has(r.unwrap()) && !old(self).has(r.unwrap()),
            r.is_some() ==> {
                &&& final(self)@.len() == old(self)@.len() + 1
                &&& final(self)@.drop_last() == old(self)@
                &&& final(self)@.last().id == r.unwrap()
                &&& final(self)@.last().position == position
                &&& final(self)@.last().half_extent == half_extent
                &&& final(self)@.last().rotation == (Vec3 { x: 0, y: 0, z: 0 })
                &&& !final(self)@.last().is_viewing_plane
            },
            r.is_none() ==> final(self)@ == old(self)@,
    {
        let r = self.add(position, half_extent, false);
        proof {
            if r.is_some() {
                assert(self@.drop_last() =~= old(self)@);
            }
        }
        proof {
            if r.is_some() {
                assert(self@[self@.len() - 1].id == r.unwrap());
            }
        }
        r
    }

    /// Adds a cube centred at the origin as the viewing plane, which it
    /// stops being for any other cube, and returns its id.
    pub fn create_viewing_plane(&mut self, half_extent: Vec3) -> (r: Option<u64>)
        requires
            old(self).wf(),
        ensures
            final(self).wf(),
            r.is_some() == (old(self).next_id() < u64::MAX && old(self).next_plane() <= u64::MAX - (FACE_PLANES + 1)
                && box_fits(Vec3 { x: 0, y: 0, z: 0 }, half_extent)),
            r.is_some() ==> final(self).viewing_plane_id() == r,
            r.is_some() ==> {
                &&& final(self)@.len() == old(self)@.len() + 1
                &&& final(self)@.last().id == r.unwrap()
                &&& final(self)@.last().half_extent == half_extent
                &&& final(self)@.last().position == (Vec3 { x: 0, y: 0, z: 0 })
                &&& forall|i: int| 0 <= i < old(self)@.len()
                    ==> final(self)@[i] == (SpaceCube { is_viewing_plane: false, ..old(self)@[i] })
            },
            r.is_none() ==> final(self)@ == old(self)@,
    {
        let r = self.add(Vec3 { x: 0, y: 0, z: 0 }, half_extent, true);
        proof {
            if r.is_some() {
                let k = self@.len() - 1;
                assert(self@[k].is_viewing_plane);
            }
        }
        r
    }

    /// Id of the viewing plane, if one is set.
    pub open spec fn viewing_plane_id(&self) -> Option<u64> {
        if exists|i: int| 0 <= i < self@.len() && self@[i].is_viewing_plane {
            let i = choose|i: int| 0 <= i < self@.len() && self@[i].is_viewing_plane;
            Some(self@[i].id)
        } else {
            None
        }
    }

    /// Id of the viewing plane, or `None` when there is none.
    pub fn get_viewing_plane_id(&self) -> (r: Option<u64>)
        requires
            self.wf(),
        ensures
            r == self.viewing_plane_id(),
    {
        let mut i: usize = 0;
        while i < self.cubes.len()
            invariant
                self.wf(),
                i <= self@.len(),
                forall|j: int| 0 <= j < i ==> !self@[j].is_viewing_plane,
            decreases self@.len() - i,
        {
            if self.cubes[i].is_viewing_plane {
                proof {
                    let k = choose|k: int| 0 <= k < self@.len() && self@[k].is_viewing_plane;
                    assert(k == i);
                }
                return Some(self.cubes[i].id);
            }
            i = i + 1;
        }
        None
    }

    /// Whether the cube with this id contains `p`; `false` if there is no such cube.
    pub fn check_point_in_cube(&self, id: u64, p: Vec3) -> (r: bool)
        requires
            self.wf(),
        ensures
            r == exists|i: int| 0 <= i < self@.len() && self@[i].id == id && self@[i].bounds().contains(p),
    {
        match self.find(id) {
            None => false,
            Some(i) => {
                let r = self.cubes[i].contains_point(p);
                proof {
                    assert forall|j: int| 0 <= j < self@.len() && self@[j].id == id implies j == i by {
                        if j < i {
                            assert(self@[j].id < self@[i as int].id);
                        } else if j > i {
                            assert(self@[i as int].id < self@[j].id);
                        }
                    }
                }
                r
            },
        }
    }

    /// Whether the segment crosses the centre plane of the cube with this
    /// id; `false` if there is no such cube.
    pub fn check_line_intersection_with_center_plane(&self, id: u64, start: Vec3, end: Vec3) -> (r: bool)
        requires
            self.wf(),
            start.bounded(),
            end.bounded(),
        ensures
            r == exists|i: int| 0 <= i < self@.len() && self@[i].id == id
                && crosses_plane(start, end, self@[i].center_plane),
    {
        match self.find(id) {
            None => false,
            Some(i) => {
                let r = self.cubes[i].intersects_center_plane(start, end);
                proof {
                    assert forall|j: int| 0 <= j < self@.len() && self@[j].id == id implies j == i by {
                        if j < i {
                            assert(self@[j].id < self@[i as int].id);
                        } else if j > i {
                            assert(self@[i as int].id < self@[j].id);
                        }
                    }
                }
                r
            },
        }
    }

    /// Checks the segment against the centre plane of the cube with this id
    /// and records the crossing, if any, in `history`.
    pub fn get_intersection_info(
        &self,
        id: u64,
        start: Vec3,
        end: Vec3,
        object_id: u64,
        time: i64,
        history: &mut IntersectionHistory,
    ) -> (r: Option<Intersection>)
        requires
            self.wf(),
            old(history).wf(),
            start.bounded(),
            end.bounded(),
        ensures
            final(history).wf(),
            !self.has(id) ==> r.is_none() && final(history)@ == old(history)@,
            self.has(id) ==> exists|i: int| {
                &&& 0 <= i < self@.len()
                &&& self@[i].id == id
                &&& r.is_some() == crosses_plane(start, end, self@[i].center_plane)
                &&& r.is_some() ==> is_plane_crossing(r.unwrap(), start, end, self@[i].center_plane, object_id, time)
            },
            final(history)@ == match r {
                Some(x) => bounded_append(old(history)@, x),
                None => old(history)@,
            },
    {
        match self.find(id) {
            None => None,
            Some(i) => self.cubes[i].intersects_center_plane_with_info(start, end, object_id, time, history),
        }
    }

    /// Moves, resizes and turns the cube with this id; `false`, with nothing
    /// changed, if there is no such cube or the new box would not fit.
    pub fn update_space_cube(&mut self, id: u64, position: Vec3, half_extent: Vec3, rotation: Vec3) -> (r: bool)
        requires
            old(self).wf(),
        ensures
            final(self).wf(),
            r == (old(self).has(id) && box_fits(position, half_extent)),
            !r ==> final(self)@ == old(self)@,
            r ==> exists|i: int| {
                &&& 0 <= i < old(self)@.len()
                &&& old(self)@[i].id == id
                &&& final(self)@ == old(self)@.update(i, SpaceCube {
                    position,
                    half_extent,
                    rotation,
                    center_plane: Plane {
                        position,
                        half_width: (half_extent.x * 9 / 10) as i64,
                        half_height: (half_extent.y * 9 / 10) as i64,
                        ..old(self)@[i].center_plane
                    },
                    ..old(self)@[i]
                })
            },
    {
        let found = self.find(id);
        match found {
            None => false,
            Some(i) => {
                if !(-COORD_LIMIT <= position.x && position.x <= COORD_LIMIT && -COORD_LIMIT <= position.y
                    && position.y <= COORD_LIMIT && -COORD_LIMIT <= position.z && position.z <= COORD_LIMIT
                    && 0 <= half_extent.x && 0 <= half_extent.y && 0 <= half_extent.z
                    && half_extent.x <= 2 * COORD_LIMIT && half_extent.y <= 2 * COORD_LIMIT
                    && half_extent.z <= 2 * COORD_LIMIT) {
                    return false;
                }
                if !(-COORD_LIMIT <= position.x - half_extent.x && position.x + half_extent.x <= COORD_LIMIT
                    && -COORD_LIMIT <= position.y - half_extent.y && position.y + half_extent.y <= COORD_LIMIT
                    && -COORD_LIMIT <= position.z - half_extent.z && position.z + half_extent.z <= COORD_LIMIT) {
                    return false;
                }
                let old_cube = self.cubes[i];
                let cube = SpaceCube {
                    position,
                    half_extent,
                    rotation,
                    center_plane: Plane {
                        position,
                        half_width: half_extent.x * 9 / 10,
                        half_height: half_extent.y * 9 / 10,
                        ..old_cube.center_plane
                    },
                    ..old_cube
                };
                self.cubes.set(i, cube);
                proof {
                    assert(self@ == old(self)@.update(i as int, cube));
                }
                true
            },
        }
    }

    /// Turns the cube with this id; `false` if there is no such cube.
    pub fn rotate_cube(&mut self, id: u64, rotation: Vec3) -> (r: bool)
        requires
            old(self).wf(),
        ensures
            final(self).wf(),
            r == old(self).has(id),
            !r ==> final(self)@ == old(self)@,
            r ==> exists|i: int| 0 <= i < old(self)@.len() && old(self)@[i].id == id
                && final(self)@ == old(self)@.update(i, SpaceCube { rotation, ..old(self)@[i] }),
    {
        match self.find(id) {
            None => false,
            Some(i) => {
                let cube = SpaceCube { rotation, ..self.cubes[i] };
                self.cubes.set(i, cube);
                true
            },
        }
    }

    /// Signed distance from the viewing plane's centre plane, or `None`
    /// when no viewing plane is set.
    pub fn calculate_distance_to_viewing_plane(&self, p: Vec3) -> (r: Option<i64>)
        requires
            self.wf(),
            p.bounded(),
        ensures
            r.is_some() == self.viewing_plane_id().is_some(),
            r.is_some() ==> exists|i: int| 0 <= i < self@.len() && self@[i].is_viewing_plane
                && r.unwrap() == p.z - self@[i].position.z,
    {
        let mut i: usize = 0;
        while i < self.cubes.len()
            invariant
                p.bounded(),
                self.wf(),
                i <= self@.len(),
                forall|j: int| 0 <= j < i ==> !self@[j].is_viewing_plane,
            decreases self@.len() - i,
        {
            if self.cubes[i].is_viewing_plane {
                proof {
                    assert(self@[i as int].wf());
                }
                return Some(self.cubes[i].distance_to_center_plane(p));
            }
            i = i + 1;
        }
        None
    }
}

} // verus!
