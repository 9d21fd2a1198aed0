use vstd::prelude::*;

verus! {

/// A point or direction in space over the scalar `R`.
#[derive(Clone, Copy, Debug)]
pub struct Vector3<R> {
    pub x: R,
    pub y: R,
    pub z: R,
}

impl<R: Copy> Vector3<R> {
    pub fn new(x: R, y: R, z: R) -> (v: Self)
        ensures
            v == (Vector3 { x, y, z }),
    {
        Vector3 { x, y, z }
    }
}

/// The three consecutive entries of `flat` that hold particle `index`.
pub open spec fn triple_at<R>(flat: Seq<R>, index: int) -> Vector3<R> {
    Vector3 { x: flat[3 * index], y: flat[3 * index + 1], z: flat[3 * index + 2] }
}

/// The concatenation of the coordinate triples of `points`.
pub open spec fn flatten<R>(points: Seq<Vector3<R>>) -> Seq<R> {
    Seq::new(
        3 * points.len(),
        |k: int|
            if k % 3 == 0 {
                points[k / 3].x
            } else if k % 3 == 1 {
                points[k / 3].y
            } else {
                points[k / 3].z
            },
    )
}

/// Reading particle `index` back out of a flattened sequence gives the point
/// that was put in.
pub proof fn lemma_triple_of_flatten<R>(points: Seq<Vector3<R>>, index: int)
    requires
        0 <= index < points.len(),
    ensures
        triple_at(flatten(points), index) == points[index],
{
}

/// The coordinates of `points` as one flat vector, three per point.
pub fn flatten_points<R: Copy>(points: &[Vector3<R>]) -> (flat: Vec<R>)
    ensures
        flat@ == flatten(points@),
{
    let mut flat: Vec<R> = Vec::new();
    let mut k: usize = 0;
    while k < points.len()
        invariant
            k <= points@.len(),
            flat@ == flatten(points@.take(k as int)),
        decreases points@.len() - k,
    {
        let p = points[k];
        flat.push(p.x);
        flat.push(p.y);
        flat.push(p.z);
        assert(flat@ =~= flatten(points@.take(k + 1)));
        k = k + 1;
    }
    assert(points@.take(points@.len() as int) == points@);
    flat
}

/// Reads the coordinates of particle `index` out of a flat vector.
pub fn read_triple<R: Copy>(flat: &Vec<R>, index: usize) -> (p: Vector3<R>)
    requires
        3 * index + 2 < flat@.len(),
    ensures
        p == triple_at(flat@, index as int),
{
    let len: usize = flat.len();
    Vector3 { x: flat[3 * index], y: flat[3 * index + 1], z: flat[3 * index + 2] }
}

/// Writes the coordinates of particle `index` into a flat vector.
pub fn write_triple<R: Copy>(flat: &mut Vec<R>, index: usize, p: Vector3<R>)
    requires
        3 * index + 2 < old(flat)@.len(),
    ensures
        final(flat)@ == old(flat)@.update(3 * index, p.x).update(3 * index + 1, p.y).update(
            3 * index + 2,
            p.z,
        ),
        triple_at(final(flat)@, index as int) == p,
{
    let len: usize = flat.len();
    flat.set(3 * index, p.x);
    flat.set(3 * index + 1, p.y);
    flat.set(3 * index + 2, p.z);
}

/// A vector of `len` copies of `value`.
pub fn filled<R: Copy>(value: R, len: usize) -> (v: Vec<R>)
    ensures
        v@ == Seq::new(len as nat, |k: int| value),
{
    let mut v: Vec<R> = Vec::new();
    let mut k: usize = 0;
    while k < len
        invariant
            k <= len,
            v@ == Seq::new(k as nat, |j: int| value),
        decreases len - k,
    {
        v.push(value);
        assert(v@ == Seq::new((k + 1) as nat, |j: int| value));
        k = k + 1;
    }
    v
}

} // verus!
