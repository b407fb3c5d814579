use crate::error::RTError;
use vstd::prelude::*;

verus! {

/// How a mesh's surface normal is chosen at a hit point.
#[derive(Debug, Clone, Copy, PartialEq, Eq, Structural)]
pub enum ShadingMode {
    /// The face normal of the triangle that was struck.
    Flat,
    /// The barycentric blend of the struck triangle's three vertex normals.
    Smooth,
}

/// One triangle of a mesh: three vertex indices and the face it was cut from.
#[derive(Debug, Clone, Copy, PartialEq, Eq, Structural)]
pub struct TriangleIndex {
    pub v0: usize,
    pub v1: usize,
    pub v2: usize,
    pub face: usize,
}

/// Every face has at least three corners, each naming an existing vertex.
pub open spec fn faces_in_range(faces: Seq<Seq<usize>>, num_vertices: nat) -> bool {
    forall|i: int|
        0 <= i < faces.len() ==> {
            &&& #[trigger] faces[i].len() >= 3
            &&& forall|j: int| 0 <= j < faces[i].len() ==> (faces[i][j] as nat) < num_vertices
        }
}

/// Vertex `v` is a corner of at least one face.
pub open spec fn is_referenced(faces: Seq<Seq<usize>>, v: nat) -> bool {
    exists|i: int, j: int|
        0 <= i < faces.len() && 0 <= j < faces[i].len() && #[trigger] faces[i][j] == v
}

/// A face list that a triangle mesh can be built from over `num_vertices` vertices:
/// faces are in range and no vertex is left unused.
pub open spec fn valid_faces(faces: Seq<Seq<usize>>, num_vertices: nat) -> bool {
    &&& faces_in_range(faces, num_vertices)
    &&& forall|v: nat| v < num_vertices ==> #[trigger] is_referenced(faces, v)
}

/// The fan of a face with corners `f`: triangles `(f[0], f[j+1], f[j+2])`.
pub open spec fn face_fan(f: Seq<usize>, face: int) -> Seq<TriangleIndex> {
    Seq::new(
        (f.len() - 2) as nat,
        |j: int| TriangleIndex { v0: f[0], v1: f[j + 1], v2: f[j + 2], face: face as usize },
    )
}

/// The fans of the first `n` faces, in face order.
pub open spec fn fan_upto(faces: Seq<Seq<usize>>, n: int) -> Seq<TriangleIndex>
    decreases n,
{
    if n <= 0 {
        Seq::empty()
    } else {
        fan_upto(faces, n - 1) + face_fan(faces[n - 1], n - 1)
    }
}

/// The triangulation of a whole face list, each face fanned from its first corner.
pub open spec fn fan(faces: Seq<Seq<usize>>) -> Seq<TriangleIndex> {
    fan_upto(faces, faces.len() as int)
}

/// Number of triangles in the fans of the first `n` faces: the sum of `len - 2`.
pub open spec fn triangle_count_upto(faces: Seq<Seq<usize>>, n: int) -> int
    decreases n,
{
    if n <= 0 {
        0
    } else {
        triangle_count_upto(faces, n - 1) + (faces[n - 1].len() - 2)
    }
}

/// How often `v` occurs among the first `j` entries of `f`.
pub open spec fn count_upto(f: Seq<usize>, v: usize, j: int) -> nat
    decreases j,
{
    if j <= 0 {
        0
    } else {
        count_upto(f, v, j - 1) + if f[j - 1] == v {
            1nat
        } else {
            0nat
        }
    }
}

/// The faces among the first `n` that touch vertex `v`, in face order, a face
/// listed once for each of its corners that is `v`.
pub open spec fn faces_of_vertex_upto(faces: Seq<Seq<usize>>, v: usize, n: int) -> Seq<usize>
    decreases n,
{
    if n <= 0 {
        Seq::empty()
    } else {
        faces_of_vertex_upto(faces, v, n - 1) + Seq::new(
            count_upto(faces[n - 1], v, faces[n - 1].len() as int),
            |_k: int| (n - 1) as usize,
        )
    }
}

/// The faces that touch vertex `v`, as `faces_of_vertex_upto` over the whole list.
pub open spec fn faces_of_vertex(faces: Seq<Seq<usize>>, v: usize) -> Seq<usize> {
    faces_of_vertex_upto(faces, v, faces.len() as int)
}

/// Sum of the first `n` face sizes.
pub open spec fn size_sum(sizes: Seq<usize>, n: int) -> int
    decreases n,
{
    if n <= 0 {
        0
    } else {
        size_sum(sizes, n - 1) + sizes[n - 1]
    }
}

/// The faces that a flat corner list holds when cut into runs of the given sizes.
pub open spec fn split_by_sizes(sizes: Seq<usize>, corners: Seq<usize>) -> Seq<Seq<usize>> {
    Seq::new(
        sizes.len(),
        |i: int| corners.subrange(size_sum(sizes, i), size_sum(sizes, i) + sizes[i]),
    )
}

/// The fan of the first `n` faces has as many triangles as their sizes less two, summed.
pub proof fn lemma_fan_len(faces: Seq<Seq<usize>>, n: int)
    requires
        0 <= n <= faces.len(),
        forall|i: int| 0 <= i < faces.len() ==> #[trigger] faces[i].len() >= 3,
    ensures
        fan_upto(faces, n).len() == triangle_count_upto(faces, n),
    decreases n,
{
    if n > 0 {
        lemma_fan_len(faces, n - 1);
    }
}

/// Every triangle of the fan of in-range faces names existing vertices and
/// one of the faces.
pub proof fn lemma_fan_in_range(faces: Seq<Seq<usize>>, num_vertices: nat, n: int)
    requires
        faces_in_range(faces, num_vertices),
        0 <= n <= faces.len(),
    ensures
        forall|k: int|
            0 <= k < fan_upto(faces, n).len() ==> {
                let t = #[trigger] fan_upto(faces, n)[k];
                &&& (t.v0 as nat) < num_vertices
                &&& (t.v1 as nat) < num_vertices
                &&& (t.v2 as nat) < num_vertices
                &&& (t.face as int) < n
            },
    decreases n,
{
    if n > 0 {
        lemma_fan_in_range(faces, num_vertices, n - 1);
        let prev = fan_upto(faces, n - 1);
        let f = faces[n - 1];
        assert(f.len() >= 3);
        assert forall|k: int| 0 <= k < fan_upto(faces, n).len() implies {
            let t = #[trigger] fan_upto(faces, n)[k];
            &&& (t.v0 as nat) < num_vertices
            &&& (t.v1 as nat) < num_vertices
            &&& (t.v2 as nat) < num_vertices
            &&& (t.face as int) < n
        } by {
            if k < prev.len() {
                assert(fan_upto(faces, n)[k] == prev[k]);
            } else {
                let j = k - prev.len();
                assert(fan_upto(faces, n)[k] == face_fan(f, n - 1)[j]);
                assert(f[0] < num_vertices && f[j + 1] < num_vertices && f[j + 2] < num_vertices);
            }
        }
    }
}

proof fn lemma_size_sum_monotone(sizes: Seq<usize>, a: int, b: int)
    requires
        0 <= a <= b <= sizes.len(),
    ensures
        size_sum(sizes, a) <= size_sum(sizes, b),
    decreases b - a,
{
    if a < b {
        lemma_size_sum_monotone(sizes, a, b - 1);
    }
}

/// Cuts the flat corner list `vertex_index` into faces of the given sizes.
/// Fails when the sizes do not add up to the length of the list.
pub fn split_faces(face_sizes: &Vec<usize>, vertex_index: &Vec<usize>) -> (r: Result<
    Vec<Vec<usize>>,
    RTError,
>)
    ensures
        r is Ok <==> size_sum(face_sizes@, face_sizes@.len() as int) == vertex_index@.len(),
        r matches Ok(faces) ==> faces.deep_view() == split_by_sizes(face_sizes@, vertex_index@),
        r matches Err(e) ==> e is InvalidGeo,
{
    let mut faces: Vec<Vec<usize>> = Vec::new();
    let mut start: usize = 0;
    let mut i: usize = 0;
    while i < face_sizes.len()
        invariant
            0 <= i <= face_sizes.len(),
            start as int == size_sum(face_sizes@, i as int),
            start <= vertex_index.len(),
            faces@.len() == i,
            forall|k: int|
                0 <= k < i ==> (#[trigger] faces@[k])@ == split_by_sizes(
                    face_sizes@,
                    vertex_index@,
                )[k],
        decreases face_sizes.len() - i,
    {
        let size = face_sizes[i];
        if size > vertex_index.len() - start {
            proof {
                assert(size_sum(face_sizes@, i + 1) > vertex_index@.len());
                lemma_size_sum_monotone(face_sizes@, i + 1, face_sizes@.len() as int);
            }
            return Err(RTError::InvalidGeo(String::from_str("face sizes exceed the corner list")));
        }
        let mut face: Vec<usize> = Vec::with_capacity(size);
        let mut j: usize = 0;
        while j < size
            invariant
                0 <= j <= size,
                start + size <= vertex_index.len(),
                face@ == vertex_index@.subrange(start as int, start + j),
            decreases size - j,
        {
            face.push(vertex_index[start + j]);
            j = j + 1;
            assert(face@ =~= vertex_index@.subrange(start as int, start + j));
        }
        faces.push(face);
        start = start + size;
        i = i + 1;
    }
    if start != vertex_index.len() {
        return Err(RTError::InvalidGeo(String::from_str("corner list longer than its faces")));
    }
    assert(faces.deep_view() =~= split_by_sizes(face_sizes@, vertex_index@)) by {
        assert forall|k: int| 0 <= k < faces@.len() implies faces.deep_view()[k] == split_by_sizes(
            face_sizes@,
            vertex_index@,
        )[k] by {
            assert(faces@[k]@ == split_by_sizes(face_sizes@, vertex_index@)[k]);
        }
    }
    Ok(faces)
}

/// Checks that every face has at least three corners, that every corner names
/// one of `num_vertices` vertices, and that every vertex is used by some face.
pub fn validate_faces(faces: &Vec<Vec<usize>>, num_vertices: usize) -> (r: Result<(), RTError>)
    ensures
        r is Ok <==> valid_faces(faces.deep_view(), num_vertices as nat),
        r matches Err(e) ==> e is InvalidGeo,
{
    let ghost fv = faces.deep_view();
    let mut used: Vec<bool> = vec![false; num_vertices];
    let mut i: usize = 0;
    while i < faces.len()
        invariant
            fv == faces.deep_view(),
            0 <= i <= faces.len(),
            used@.len() == num_vertices,
            faces_in_range(fv.take(i as int), num_vertices as nat),
            forall|v: int|
                0 <= v < num_vertices ==> (#[trigger] used@[v] <==> is_referenced(
                    fv.take(i as int),
                    v as nat,
                )),
        decreases faces.len() - i,
    {
        let face = &faces[i];
        assert(face@ == fv[i as int]);
        if face.len() < 3 {
            assert(!faces_in_range(fv, num_vertices as nat)) by {
                assert(fv[i as int].len() < 3);
            }
            return Err(RTError::InvalidGeo(String::from_str("a face has fewer than three corners")));
        }
        let mut j: usize = 0;
        while j < face.len()
            invariant
                fv == faces.deep_view(),
                0 <= i < faces.len(),
                face@ == fv[i as int],
                0 <= j <= face.len(),
                used@.len() == num_vertices,
                forall|k: int| 0 <= k < j ==> (face@[k] as nat) < num_vertices,
                forall|v: int|
                    0 <= v < num_vertices ==> (#[trigger] used@[v] <==> (is_referenced(
                        fv.take(i as int),
                        v as nat,
                    ) || exists|k: int| 0 <= k < j && face@[k] == v)),
            decreases face.len() - j,
        {
            let c = face[j];
            if c >= num_vertices {
                assert(!faces_in_range(fv, num_vertices as nat)) by {
                    assert(fv[i as int][j as int] == c);
                }
                return Err(RTError::InvalidGeo(String::from_str("a corner names a missing vertex")));
            }
            used.set(c, true);
            j = j + 1;
            assert forall|v: int| 0 <= v < num_vertices implies (#[trigger] used@[v] <==> (
            is_referenced(fv.take(i as int), v as nat) || exists|k: int|
                0 <= k < j && face@[k] == v)) by {
                if v == c {
                    assert(face@[j - 1] == v);
                } else {
                    if exists|k: int| 0 <= k < j && face@[k] == v {
                        let k = choose|k: int| 0 <= k < j && face@[k] == v;
                        assert(k < j - 1);
                    }
                }
            }
        }
        proof {
            let t0 = fv.take(i as int);
            let t1 = fv.take(i + 1);
            assert forall|v: int| 0 <= v < num_vertices implies (#[trigger] used@[v]
                <==> is_referenced(t1, v as nat)) by {
                if used@[v] {
                    if is_referenced(t0, v as nat) {
                        let (a, b) = choose|a: int, b: int|
                            0 <= a < t0.len() && 0 <= b < t0[a].len() && #[trigger] t0[a][b]
                                == v as nat;
                        assert(t1[a][b] == v);
                    } else {
                        let k = choose|k: int| 0 <= k < j && face@[k] == v;
                        assert(t1[i as int][k] == v);
                    }
                }
                if is_referenced(t1, v as nat) {
                    let (a, b) = choose|a: int, b: int|
                        0 <= a < t1.len() && 0 <= b < t1[a].len() && #[trigger] t1[a][b]
                            == v as nat;
                    if a < i {
                        assert(t0[a][b] == v);
                    } else {
                        assert(face@[b] == v);
                    }
                }
            }
            assert forall|a: int| 0 <= a < t1.len() implies {
                &&& #[trigger] t1[a].len() >= 3
                &&& forall|b: int| 0 <= b < t1[a].len() ==> (t1[a][b] as nat) < num_vertices
            } by {
                if a < i {
                    assert(t1[a] == t0[a]);
                }
            }
        }
        i = i + 1;
    }
    assert(fv.take(i as int) =~= fv);
    let mut v: usize = 0;
    while v < num_vertices
        invariant
            fv == faces.deep_view(),
            i == faces.len(),
            fv.take(i as int) == fv,
            used@.len() == num_vertices,
            0 <= v <= num_vertices,
            forall|w: int| 0 <= w < num_vertices ==> (#[trigger] used@[w] <==> is_referenced(
                fv,
                w as nat,
            )),
            forall|w: nat| w < v ==> #[trigger] is_referenced(fv, w),
        decreases num_vertices - v,
    {
        if !used[v] {
            return Err(RTError::InvalidGeo(String::from_str("a vertex is used by no face")));
        }
        v = v + 1;
    }
    Ok(())
}

/// Cuts each face into a fan of triangles around its first corner, in face order.
pub fn fan_triangulate(faces: &Vec<Vec<usize>>) -> (r: Vec<TriangleIndex>)
    requires
        forall|i: int|
            0 <= i < faces.deep_view().len() ==> #[trigger] faces.deep_view()[i].len() >= 3,
    ensures
        r@ == fan(faces.deep_view()),
        r@.len() == triangle_count_upto(faces.deep_view(), faces.deep_view().len() as int),
{
    let ghost fv = faces.deep_view();
    let mut tris: Vec<TriangleIndex> = Vec::new();
    let mut i: usize = 0;
    while i < faces.len()
        invariant
            fv == faces.deep_view(),
            forall|k: int| 0 <= k < fv.len() ==> #[trigger] fv[k].len() >= 3,
            0 <= i <= faces.len(),
            tris@ == fan_upto(fv, i as int),
        decreases faces.len() - i,
    {
        let face = &faces[i];
        assert(face@ == fv[i as int]);
        let n = face.len() - 2;
        let mut j: usize = 0;
        while j < n
            invariant
                fv == faces.deep_view(),
                0 <= i < faces.len(),
                face@ == fv[i as int],
                n == face@.len() - 2,
                face@.len() <= usize::MAX,
                0 <= j <= n,
                tris@ == fan_upto(fv, i as int) + face_fan(fv[i as int], i as int).take(j as int),
            decreases n - j,
        {
            assert(j + 2 < face@.len());
            let t = TriangleIndex { v0: face[0], v1: face[j + 1], v2: face[j + 2], face: i };
            tris.push(t);
            j = j + 1;
            assert(face_fan(fv[i as int], i as int).take(j as int) =~= face_fan(
                fv[i as int],
                i as int,
            ).take(j - 1).push(t));
        }
        assert(face_fan(fv[i as int], i as int).take(j as int) =~= face_fan(fv[i as int], i as int));
        i = i + 1;
    }
    proof {
        lemma_fan_len(fv, fv.len() as int);
    }
    tris
}

/// For every vertex, the faces that use it, in face order and once per corner.
pub fn vertex_faces(faces: &Vec<Vec<usize>>, num_vertices: usize) -> (r: Vec<Vec<usize>>)
    requires
        faces_in_range(faces.deep_view(), num_vertices as nat),
    ensures
        r@.len() == num_vertices,
        forall|v: int|
            0 <= v < num_vertices ==> (#[trigger] r@[v])@ == faces_of_vertex(
                faces.deep_view(),
                v as usize,
            ),
{
    let ghost fv = faces.deep_view();
    let mut adj: Vec<Vec<usize>> = Vec::new();
    let mut v: usize = 0;
    while v < num_vertices
        invariant
            0 <= v <= num_vertices,
            adj@.len() == v,
            forall|w: int| 0 <= w < v ==> (#[trigger] adj@[w])@ == Seq::<usize>::empty(),
        decreases num_vertices - v,
    {
        adj.push(Vec::new());
        v = v + 1;
    }
    let mut i: usize = 0;
    while i < faces.len()
        invariant
            fv == faces.deep_view(),
            faces_in_range(fv, num_vertices as nat),
            0 <= i <= faces.len(),
            adj@.len() == num_vertices,
            forall|w: int|
                0 <= w < num_vertices ==> (#[trigger] adj@[w])@ == faces_of_vertex_upto(
                    fv,
                    w as usize,
                    i as int,
                ),
        decreases faces.len() - i,
    {
        let face = &faces[i];
        assert(face@ == fv[i as int]);
        let mut j: usize = 0;
        while j < face.len()
            invariant
                fv == faces.deep_view(),
                faces_in_range(fv, num_vertices as nat),
                0 <= i < faces.len(),
                face@ == fv[i as int],
                0 <= j <= face.len(),
                adj@.len() == num_vertices,
                forall|w: int|
                    0 <= w < num_vertices ==> (#[trigger] adj@[w])@ == faces_of_vertex_upto(
                        fv,
                        w as usize,
                        i as int,
                    ) + Seq::new(count_upto(face@, w as usize, j as int), |_k: int| i),
            decreases face.len() - j,
        {
            let c = face[j];
            assert(fv[i as int][j as int] == c);
            adj[c].push(i);
            j = j + 1;
            assert forall|w: int| 0 <= w < num_vertices implies (#[trigger] adj@[w])@
                == faces_of_vertex_upto(fv, w as usize, i as int) + Seq::new(
                count_upto(face@, w as usize, j as int),
                |_k: int| i,
            ) by {
                if w == c {
                    assert(Seq::new(count_upto(face@, w as usize, j as int), |_k: int| i) =~= Seq::new(
                        count_upto(face@, w as usize, j - 1),
                        |_k: int| i,
                    ).push(i));
                }
            }
        }
        i = i + 1;
        assert forall|w: int| 0 <= w < num_vertices implies (#[trigger] adj@[w])@
            == faces_of_vertex_upto(fv, w as usize, i as int) by {
            assert(fv[i - 1] == face@);
        }
    }
    adj
}

/// The index structure of a triangle mesh: its faces over a vertex count, the
/// fan triangulation of those faces, and for every vertex the faces that use it.
#[derive(Debug, Clone)]
pub struct MeshTopology {
    num_vertices: usize,
    faces: Vec<Vec<usize>>,
    triangles: Vec<TriangleIndex>,
    adjacency: Vec<Vec<usize>>,
}

/// What a mesh topology stands for: a vertex count and a face list.
pub struct TopologyModel {
    pub num_vertices: nat,
    pub faces: Seq<Seq<usize>>,
}

impl View for MeshTopology {
    type V = TopologyModel;

    closed spec fn view(&self) -> TopologyModel {
        TopologyModel { num_vertices: self.num_vertices as nat, faces: self.faces.deep_view() }
    }
}

impl MeshTopology {
    /// The faces are valid over the vertex count, and the cached triangles and
    /// adjacency are those the faces determine.
    pub closed spec fn wf(&self) -> bool {
        &&& valid_faces(self.faces.deep_view(), self.num_vertices as nat)
        &&& self.triangles@ == fan(self.faces.deep_view())
        &&& self.adjacency@.len() == self.num_vertices
        &&& forall|v: int|
            0 <= v < self.num_vertices ==> (#[trigger] self.adjacency@[v])@ == faces_of_vertex(
                self.faces.deep_view(),
                v as usize,
            )
    }

    /// Builds the topology of `faces` over `num_vertices` vertices; fails when a
    /// face has fewer than three corners, a corner names a missing vertex, or a
    /// vertex is used by no face.
    pub fn new(faces: Vec<Vec<usize>>, num_vertices: usize) -> (r: Result<MeshTopology, RTError>)
        ensures
            r is Ok <==> valid_faces(faces.deep_view(), num_vertices as nat),
            r matches Ok(m) ==> m.wf() && m@.num_vertices == num_vertices && m@.faces
                == faces.deep_view(),
            r matches Err(e) ==> e is InvalidGeo,
    {
        match validate_faces(&faces, num_vertices) {
            Err(e) => Err(e),
            Ok(()) => {
                let triangles = fan_triangulate(&faces);
                let adjacency = vertex_faces(&faces, num_vertices);
                Ok(MeshTopology { num_vertices, faces, triangles, adjacency })
            },
        }
    }

    /// Number of vertices the faces range over.
    pub fn num_vertices(&self) -> (r: usize)
        ensures
            r == self@.num_vertices,
    {
        self.num_vertices
    }

    /// Number of faces.
    pub fn num_faces(&self) -> (r: usize)
        ensures
            r == self@.faces.len(),
    {
        self.faces.len()
    }

    /// The corners of face `index`.
    pub fn face(&self, index: usize) -> (r: &Vec<usize>)
        requires
            index < self@.faces.len(),
        ensures
            r@ == self@.faces[index as int],
    {
        &self.faces[index]
    }

    /// Number of triangles in the fan triangulation.
    pub fn num_triangles(&self) -> (r: usize)
        requires
            self.wf(),
        ensures
            r == fan(self@.faces).len(),
            r == triangle_count_upto(self@.faces, self@.faces.len() as int),
    {
        proof {
            lemma_fan_len(self.faces.deep_view(), self.faces.deep_view().len() as int);
        }
        self.triangles.len()
    }

    /// The vertex indices of triangle `index`, or `None` past the last triangle.
    pub fn triangle_vertices(&self, index: usize) -> (r: Option<TriangleIndex>)
        requires
            self.wf(),
        ensures
            index < fan(self@.faces).len() ==> r == Some(fan(self@.faces)[index as int]),
            index >= fan(self@.faces).len() ==> r is None,
            r matches Some(t) ==> t.v0 < self@.num_vertices && t.v1 < self@.num_vertices && t.v2
                < self@.num_vertices && t.face < self@.faces.len(),
    {
        proof {
            lemma_fan_in_range(
                self.faces.deep_view(),
                self.num_vertices as nat,
                self.faces.deep_view().len() as int,
            );
        }
        if index < self.triangles.len() {
            Some(self.triangles[index])
        } else {
            None
        }
    }

    /// The faces that use vertex `v`, in face order, once per corner.
    pub fn faces_of(&self, v: usize) -> (r: &Vec<usize>)
        requires
            self.wf(),
            v < self@.num_vertices,
        ensures
            r@ == faces_of_vertex(self@.faces, v),
            r@.len() > 0,
    {
        proof {
            lemma_referenced_has_faces(self.faces.deep_view(), v);
        }
        &self.adjacency[v]
    }
}

proof fn lemma_count_positive(f: Seq<usize>, v: usize, j: int, k: int)
    requires
        0 <= k < j <= f.len(),
        f[k] == v,
    ensures
        count_upto(f, v, j) > 0,
    decreases j,
{
    if j - 1 != k {
        lemma_count_positive(f, v, j - 1, k);
    }
}

proof fn lemma_faces_of_vertex_len(faces: Seq<Seq<usize>>, v: usize, n: int, i: int)
    requires
        0 <= i < n <= faces.len(),
        count_upto(faces[i], v, faces[i].len() as int) > 0,
    ensures
        faces_of_vertex_upto(faces, v, n).len() > 0,
    decreases n,
{
    if n - 1 != i {
        lemma_faces_of_vertex_len(faces, v, n - 1, i);
    }
}

/// A vertex that some face uses has a non-empty list of faces.
proof fn lemma_referenced_has_faces(faces: Seq<Seq<usize>>, v: usize)
    requires
        is_referenced(faces, v as nat),
    ensures
        faces_of_vertex(faces, v).len() > 0,
{
    let (i, j) = choose|i: int, j: int|
        0 <= i < faces.len() && 0 <= j < faces[i].len() && #[trigger] faces[i][j] == v as nat;
    lemma_count_positive(faces[i], v, faces[i].len() as int, j);
    lemma_faces_of_vertex_len(faces, v, faces.len() as int, i);
}

} // verus!
