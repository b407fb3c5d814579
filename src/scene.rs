use vstd::prelude::*;

verus! {

/// The raster a camera renders into.
#[derive(Debug, Clone, Copy, PartialEq, Eq, Structural)]
pub struct Viewport {
    pub width: u32,
    pub height: u32,
}

impl Viewport {
    pub fn new(width: u32, height: u32) -> (r: Viewport)
        ensures
            r.width == width,
            r.height == height,
    {
        Viewport { width, height }
    }
}

impl Default for Viewport {
    /// An 800 × 600 raster.
    fn default() -> (r: Viewport)
        ensures
            r.width == 800,
            r.height == 600,
    {
        Viewport::new(800, 600)
    }
}

/// How a surface answers light, without its coefficients.
#[derive(Debug, Clone, Copy, PartialEq, Eq, Structural)]
pub enum SurfaceKind {
    /// Direct illumination only.
    Diffuse,
    /// Direct illumination blended with one reflected ray.
    Reflective,
    /// A Fresnel blend of a reflected ray and, unless the light is totally
    /// reflected, a refracted ray.
    Refractive,
}

/// What shading a ray's nearest hit calls for.
#[derive(Debug, Clone, Copy, PartialEq, Eq, Structural)]
pub enum ShadePlan {
    /// The ray hit nothing: the background color.
    Background,
    /// The generation bound is reached: black, with nothing evaluated.
    Black,
    /// Direct illumination at the hit point.
    Direct,
    /// Direct illumination and a reflected ray of generation `child`.
    DirectAndReflection { child: usize },
    /// A reflected ray and, where light is transmitted, a refracted ray, both
    /// of generation `child`.
    Fresnel { child: usize },
}

/// The shading of a ray of generation `generation` under the bound
/// `max_generations`: no hit gives the background, a hit at or past the bound
/// gives black, and otherwise the surface decides, every spawned ray one
/// generation older.
pub open spec fn shade_plan(
    hit: bool,
    generation: usize,
    max_generations: usize,
    kind: SurfaceKind,
) -> ShadePlan {
    if !hit {
        ShadePlan::Background
    } else if generation >= max_generations {
        ShadePlan::Black
    } else {
        match kind {
            SurfaceKind::Diffuse => ShadePlan::Direct,
            SurfaceKind::Reflective => ShadePlan::DirectAndReflection {
                child: (generation + 1) as usize,
            },
            SurfaceKind::Refractive => ShadePlan::Fresnel { child: (generation + 1) as usize },
        }
    }
}

/// Decides how a ray is shaded, as `shade_plan` says.
pub fn plan_shading(hit: bool, generation: usize, max_generations: usize, kind: SurfaceKind) -> (r:
    ShadePlan)
    ensures
        r == shade_plan(hit, generation, max_generations, kind),
{
    if !hit {
        ShadePlan::Background
    } else if generation >= max_generations {
        ShadePlan::Black
    } else {
        match kind {
            SurfaceKind::Diffuse => ShadePlan::Direct,
            SurfaceKind::Reflective => ShadePlan::DirectAndReflection { child: generation + 1 },
            SurfaceKind::Refractive => ShadePlan::Fresnel { child: generation + 1 },
        }
    }
}

/// The plan evaluates direct illumination.
pub open spec fn lights_directly(p: ShadePlan) -> bool {
    p is Direct || p is DirectAndReflection
}

/// The generation of a ray that the plan spawns, if it spawns any.
pub open spec fn spawned(p: ShadePlan) -> Option<usize> {
    match p {
        ShadePlan::DirectAndReflection { child } => Some(child),
        ShadePlan::Fresnel { child } => Some(child),
        _ => None,
    }
}

/// The generation of the ray reached from a primary ray by following, at each
/// surface of `kinds` in turn, a ray that its shading spawns; `None` once a
/// surface spawns none.
pub open spec fn path_generation(max_generations: usize, kinds: Seq<SurfaceKind>) -> Option<usize>
    decreases kinds.len(),
{
    if kinds.len() == 0 {
        Some(0)
    } else {
        match path_generation(max_generations, kinds.drop_last()) {
            None => None,
            Some(g) => spawned(shade_plan(true, g, max_generations, kinds.last())),
        }
    }
}

/// Under the bound `max_generations`, every ray a render reaches has a
/// generation of at most the bound, one more per bounce; a hit of a ray whose
/// generation is the bound shades black; and direct illumination is evaluated
/// only for rays below the bound.
pub proof fn lemma_generation_bound(
    max_generations: usize,
    kinds: Seq<SurfaceKind>,
    kind: SurfaceKind,
)
    ensures
        path_generation(max_generations, kinds) matches Some(g) ==> {
            &&& g <= max_generations
            &&& g == kinds.len()
            &&& g == max_generations ==> shade_plan(true, g, max_generations, kind) is Black
            &&& lights_directly(shade_plan(true, g, max_generations, kind)) ==> g
                < max_generations
        },
    decreases kinds.len(),
{
    if kinds.len() > 0 {
        lemma_generation_bound(max_generations, kinds.drop_last(), kinds.last());
    }
}

/// The RGB byte of channel `c` at column `x`, row `y` of an image gathered from
/// column buffers: the buffer for column `x` holds it at `3 * y + c`; a column
/// that no buffer covers is black.
pub open spec fn gathered_byte(columns: Seq<(u32, Seq<u8>)>, x: int, y: int, c: int) -> u8 {
    if exists|k: int| 0 <= k < columns.len() && columns[k].0 == x {
        let k = choose|k: int| 0 <= k < columns.len() && columns[k].0 == x;
        columns[k].1[3 * y + c]
    } else {
        0
    }
}

/// The buffers fit a `width` × `height` raster: each names a column inside it,
/// holds three bytes per row, and no two name the same column.
pub open spec fn columns_fit(columns: Seq<(u32, Seq<u8>)>, width: u32, height: u32) -> bool {
    &&& forall|k: int|
        0 <= k < columns.len() ==> {
            &&& (#[trigger] columns[k]).0 < width
            &&& columns[k].1.len() == 3 * height
        }
    &&& forall|k: int, m: int|
        0 <= k < columns.len() && 0 <= m < columns.len() && k != m ==> (#[trigger] columns[k]).0
            != (#[trigger] columns[m]).0
}

/// Byte offset of channel `c` of pixel (`x`, `y`) in a row-major RGB raster of width `w`.
pub open spec fn rgb_offset(w: int, x: int, y: int, c: int) -> int {
    (y * w + x) * 3 + c
}

proof fn lemma_offset_before(w: int, x: int, y: int, c: int, x2: int, y2: int)
    requires
        0 <= x < w,
        0 <= x2 <= w,
        0 <= y,
        0 <= y2,
        0 <= c < 3,
        y < y2 || (y == y2 && x < x2),
    ensures
        rgb_offset(w, x, y, c) < (y2 * w + x2) * 3,
{
    if y < y2 {
        assert(y * w + x < y2 * w) by (nonlinear_arith)
            requires
                0 <= x < w,
                y < y2,
        ;
    }
}

/// Assembles a row-major RGB raster of `width` × `height` from column buffers
/// rendered independently; the order of the buffers does not matter.
pub fn gather_columns(width: u32, height: u32, columns: &Vec<(u32, Vec<u8>)>) -> (r: Vec<u8>)
    requires
        3 * (width as int) * (height as int) <= usize::MAX,
        columns_fit(columns.deep_view(), width, height),
    ensures
        r@.len() == 3 * width * height,
        forall|x: int, y: int, c: int|
            0 <= x < width && 0 <= y < height && 0 <= c < 3 ==> r@[#[trigger] rgb_offset(
                width as int,
                x,
                y,
                c,
            )] == gathered_byte(columns.deep_view(), x, y, c),
{
    let ghost cols = columns.deep_view();
    let mut owner: Vec<Option<usize>> = Vec::new();
    let mut x: u32 = 0;
    while x < width
        invariant
            x <= width,
            owner@.len() == x,
            forall|q: int| 0 <= q < x ==> (#[trigger] owner@[q]) is None,
        decreases width - x,
    {
        owner.push(None);
        x = x + 1;
    }
    let mut k: usize = 0;
    while k < columns.len()
        invariant
            cols == columns.deep_view(),
            columns_fit(cols, width, height),
            k <= columns.len(),
            owner@.len() == width,
            forall|q: int|
                0 <= q < width ==> match #[trigger] owner@[q] {
                    Some(j) => j < k && cols[j as int].0 == q,
                    None => forall|j: int| 0 <= j < k ==> cols[j].0 != q,
                },
        decreases columns.len() - k,
    {
        let col = columns[k].0;
        assert(cols[k as int].0 == col);
        owner.set(col as usize, Some(k));
        k = k + 1;
    }
    let w = width as usize;
    let h = height as usize;
    let mut out: Vec<u8> = Vec::new();
    let mut y: usize = 0;
    while y < h
        invariant
            cols == columns.deep_view(),
            columns_fit(cols, width, height),
            w == width,
            h == height,
            3 * (w as int) * (h as int) <= usize::MAX,
            owner@.len() == w,
            forall|q: int|
                0 <= q < w ==> match #[trigger] owner@[q] {
                    Some(j) => j < cols.len() && cols[j as int].0 == q,
                    None => forall|j: int| 0 <= j < cols.len() ==> cols[j].0 != q,
                },
            y <= h,
            out@.len() == (y * w) * 3,
            forall|x2: int, y2: int, c: int|
                0 <= x2 < w && 0 <= y2 < y && 0 <= c < 3 ==> out@[#[trigger] rgb_offset(
                    w as int,
                    x2,
                    y2,
                    c,
                )] == gathered_byte(cols, x2, y2, c),
        decreases h - y,
    {
        assert(y * w + w <= h * w) by (nonlinear_arith)
            requires
                y < h,
        ;
        let mut x: usize = 0;
        while x < w
            invariant
                cols == columns.deep_view(),
                columns_fit(cols, width, height),
                w == width,
                h == height,
                3 * (w as int) * (h as int) <= usize::MAX,
                y * w + w <= h * w,
                owner@.len() == w,
                forall|q: int|
                    0 <= q < w ==> match #[trigger] owner@[q] {
                        Some(j) => j < cols.len() && cols[j as int].0 == q,
                        None => forall|j: int| 0 <= j < cols.len() ==> cols[j].0 != q,
                    },
                y < h,
                x <= w,
                out@.len() == (y * w + x) * 3,
                forall|x2: int, y2: int, c: int|
                    0 <= x2 < w && 0 <= y2 && (y2 < y || (y2 == y && x2 < x)) && 0 <= c < 3
                        ==> out@[#[trigger] rgb_offset(w as int, x2, y2, c)] == gathered_byte(
                        cols,
                        x2,
                        y2,
                        c,
                    ),
            decreases w - x,
        {
            let ghost before = out@;
            let ghost base = (y * w + x) * 3;
            let (b0, b1, b2) = match owner[x] {
                Some(j) => {
                    let buf = &columns[j].1;
                    let n = buf.len();
                    proof {
                        assert(buf@ == cols[j as int].1);
                        assert(cols[j as int].1.len() == 3 * height);
                        assert(3 * y + 2 < 3 * h);
                        assert(cols[j as int].0 == x);
                        assert(3 * y + 2 < n);
                    }
                    (buf[3 * y], buf[3 * y + 1], buf[3 * y + 2])
                },
                None => (0u8, 0u8, 0u8),
            };
            proof {
                if owner@[x as int] is Some {
                    let j = owner@[x as int]->Some_0 as int;
                    let kk = choose|kk: int| 0 <= kk < cols.len() && cols[kk].0 == x;
                    assert(kk == j);
                }
            }
            out.push(b0);
            out.push(b1);
            out.push(b2);
            proof {
                assert(base + 3 <= (h * w) * 3) by (nonlinear_arith)
                    requires
                        base == (y * w + x) * 3,
                        x < w,
                        y * w + w <= h * w,
                ;
                assert(rgb_offset(w as int, x as int, y as int, 0) == base);
                assert(rgb_offset(w as int, x as int, y as int, 1) == base + 1);
                assert(rgb_offset(w as int, x as int, y as int, 2) == base + 2);
                assert forall|x2: int, y2: int, c: int|
                    0 <= x2 < w && 0 <= y2 && (y2 < y || (y2 == y && x2 < x + 1)) && 0 <= c < 3
                        implies out@[#[trigger] rgb_offset(w as int, x2, y2, c)] == gathered_byte(
                        cols,
                        x2,
                        y2,
                        c,
                    ) by {
                    if y2 == y && x2 == x {
                    } else {
                        lemma_offset_before(w as int, x2, y2, c, x as int, y as int);
                        assert(out@[rgb_offset(w as int, x2, y2, c)] == before[rgb_offset(
                            w as int,
                            x2,
                            y2,
                            c,
                        )]);
                    }
                }
            }
            x = x + 1;
        }
        assert((y * w + w) * 3 == ((y + 1) * w) * 3) by (nonlinear_arith);
        y = y + 1;
    }
    assert((h * w) * 3 == 3 * width * height) by (nonlinear_arith)
        requires
            w == width,
            h == height,
    ;
    out
}

/// `order` lists every index of a sequence of length `n` exactly once.
pub open spec fn is_reordering(order: Seq<int>, n: int) -> bool {
    &&& order.len() == n
    &&& forall|i: int| 0 <= i < n ==> 0 <= #[trigger] order[i] < n
    &&& forall|i: int, j: int| 0 <= i < n && 0 <= j < n && i != j ==> #[trigger] order[i]
        != #[trigger] order[j]
    &&& forall|k: int| 0 <= k < n ==> #[trigger] lists(order, k)
}

/// Some entry of `order` is `k`.
pub open spec fn lists(order: Seq<int>, k: int) -> bool {
    exists|i: int| 0 <= i < order.len() && order[i] == k
}

/// Gathering does not depend on the order in which the column buffers arrive:
/// buffers that fit the raster, taken in any order, give the same image.
pub proof fn lemma_gather_order_free(
    columns: Seq<(u32, Seq<u8>)>,
    order: Seq<int>,
    width: u32,
    height: u32,
)
    requires
        columns_fit(columns, width, height),
        is_reordering(order, columns.len() as int),
    ensures
        columns_fit(Seq::new(columns.len(), |i: int| columns[order[i]]), width, height),
        forall|x: int, y: int, c: int|
            #![trigger gathered_byte(columns, x, y, c)]
            gathered_byte(columns, x, y, c) == gathered_byte(
                Seq::new(columns.len(), |i: int| columns[order[i]]),
                x,
                y,
                c,
            ),
{
    let moved = Seq::new(columns.len(), |i: int| columns[order[i]]);
    assert forall|k: int, m: int|
        0 <= k < moved.len() && 0 <= m < moved.len() && k != m implies (#[trigger] moved[k]).0
        != (#[trigger] moved[m]).0 by {
        assert(order[k] != order[m]);
    }
    assert forall|k: int| 0 <= k < moved.len() implies {
        &&& (#[trigger] moved[k]).0 < width
        &&& moved[k].1.len() == 3 * height
    } by {
        assert(0 <= order[k] < columns.len());
    }
    assert forall|x: int, y: int, c: int|
        #![trigger gathered_byte(columns, x, y, c)]
        gathered_byte(columns, x, y, c) == gathered_byte(moved, x, y, c) by {
        if exists|k: int| 0 <= k < columns.len() && columns[k].0 == x {
            let k = choose|k: int| 0 <= k < columns.len() && columns[k].0 == x;
            assert(lists(order, k));
            let i = choose|i: int| 0 <= i < order.len() && order[i] == k;
            assert(moved[i].0 == x);
            let i2 = choose|i2: int| 0 <= i2 < moved.len() && moved[i2].0 == x;
            assert(order[i2] == k);
        } else {
            if exists|i: int| 0 <= i < moved.len() && moved[i].0 == x {
                let i = choose|i: int| 0 <= i < moved.len() && moved[i].0 == x;
                assert(columns[order[i]].0 == x);
            }
        }
    }
}

} // verus!
