use crate::error::RTError;
use crate::mesh::{size_sum, split_by_sizes, split_faces, valid_faces, MeshTopology};
use core::num::ParseIntError;
use vstd::prelude::*;
use vstd::string::StringSliceAdditionalSpecFns;
use vstd::utf8::*;

verus! {

/// Line feed.
pub const NL: u8 = 10;

/// Carriage return.
pub const CR: u8 = 13;

/// Space, the field separator within a line.
pub const SP: u8 = 32;

/// The pieces of `s` between occurrences of `sep`, as `str::split` yields them:
/// one more piece than there are separators, empty pieces included.
pub open spec fn split_on(s: Seq<u8>, sep: u8) -> Seq<Seq<u8>>
    decreases s.len(),
{
    if s.len() == 0 {
        seq![Seq::empty()]
    } else {
        let prev = split_on(s.drop_last(), sep);
        if s.last() == sep {
            prev.push(Seq::empty())
        } else {
            prev.update(prev.len() - 1, prev.last().push(s.last()))
        }
    }
}

/// Splitting yields at least one piece.
pub proof fn lemma_split_on_nonempty(s: Seq<u8>, sep: u8)
    ensures
        split_on(s, sep).len() >= 1,
    decreases s.len(),
{
    if s.len() > 0 {
        lemma_split_on_nonempty(s.drop_last(), sep);
    }
}

/// `l` without one trailing carriage return.
pub open spec fn strip_cr(l: Seq<u8>) -> Seq<u8> {
    if l.len() > 0 && l.last() == CR {
        l.drop_last()
    } else {
        l
    }
}

/// The lines of a text as `str::lines` yields them: split at line feeds, a
/// carriage return before a line feed dropped, no line after a final line feed.
pub open spec fn text_lines(b: Seq<u8>) -> Seq<Seq<u8>> {
    let p = split_on(b, NL);
    let n = if p.last().len() == 0 {
        p.len() - 1
    } else {
        p.len() as int
    };
    Seq::new(
        n as nat,
        |i: int|
            if i < p.len() - 1 {
                strip_cr(p[i])
            } else {
                p[i]
            },
    )
}

/// ASCII whitespace: tab, line feed, vertical tab, form feed, carriage return, space.
pub open spec fn is_ws(c: u8) -> bool {
    (9 <= c && c <= 13) || c == SP
}

/// `l` without leading and trailing ASCII whitespace.
pub open spec fn trim_ws(l: Seq<u8>) -> Seq<u8>
    decreases l.len(),
{
    if l.len() > 0 && is_ws(l[0]) {
        trim_ws(l.drop_first())
    } else if l.len() > 0 && is_ws(l.last()) {
        trim_ws(l.drop_last())
    } else {
        l
    }
}

/// An ASCII decimal digit.
pub open spec fn is_digit(c: u8) -> bool {
    48 <= c && c <= 57
}

/// The number that a run of decimal digits spells.
pub open spec fn digits_value(d: Seq<u8>) -> int
    decreases d.len(),
{
    if d.len() == 0 {
        0
    } else {
        digits_value(d.drop_last()) * 10 + (d.last() - 48)
    }
}

/// `t` without one leading plus sign.
pub open spec fn unsigned_digits(t: Seq<u8>) -> Seq<u8> {
    if t.len() > 0 && t[0] == 43 {
        t.drop_first()
    } else {
        t
    }
}

/// The text of a `usize`: an optional `+`, then one or more decimal digits,
/// whose value does not exceed `usize::MAX`.
pub open spec fn usize_text(t: Seq<u8>) -> bool {
    let d = unsigned_digits(t);
    &&& d.len() > 0
    &&& forall|i: int| 0 <= i < d.len() ==> is_digit(#[trigger] d[i])
    &&& digits_value(d) <= usize::MAX
}

/// The value of a `usize` text.
pub open spec fn usize_value(t: Seq<u8>) -> int {
    digits_value(unsigned_digits(t))
}

/// A byte position is a character boundary when the byte before it or at it is ASCII.
proof fn lemma_boundary_after_ascii(bytes: Seq<u8>, p: int)
    requires
        valid_utf8(bytes),
        0 <= p < bytes.len(),
        bytes[p] < 0x80,
        is_char_boundary(bytes, p),
    ensures
        is_char_boundary(bytes, p + 1),
    decreases bytes.len(),
{
    reveal_with_fuel(is_char_boundary, 2);
    let len1 = length_of_first_scalar(bytes);
    let tail = pop_first_scalar(bytes);
    assert(valid_first_scalar(bytes));
    assert(valid_utf8(tail));
    assert(1 <= len1 <= bytes.len());
    if p == 0 {
        assert(len1 == 1);
        assert(tail.len() == bytes.len() - 1);
    } else {
        assert(p >= len1);
        assert(tail[p - len1] == bytes[p]);
        lemma_boundary_after_ascii(tail, p - len1);
    }
}

/// Positions next to an ASCII byte, and both ends, are character boundaries.
proof fn lemma_ascii_boundary(bytes: Seq<u8>, p: int)
    requires
        valid_utf8(bytes),
        0 <= p <= bytes.len(),
        p == 0 || p == bytes.len() || bytes[p] < 0x80 || bytes[p - 1] < 0x80,
    ensures
        is_char_boundary(bytes, p),
{
    is_char_boundary_start_end_of_seq(bytes);
    if p == 0 || p == bytes.len() {
    } else if bytes[p] < 0x80 {
        is_char_boundary_iff_not_is_continuation_byte(bytes, p);
    } else {
        is_char_boundary_iff_not_is_continuation_byte(bytes, p - 1);
        lemma_boundary_after_ascii(bytes, p - 1);
    }
}

/// The part of `s` between two character boundaries.
fn sub_str<'a>(s: &'a str, start: usize, end: usize) -> (r: &'a str)
    requires
        start <= end <= s.spec_bytes().len(),
        is_char_boundary(s.spec_bytes(), start as int),
        is_char_boundary(s.spec_bytes(), end as int),
    ensures
        r.spec_bytes() == s.spec_bytes().subrange(start as int, end as int),
{
    let ghost b = s.spec_bytes();
    proof {
        encode_utf8_valid_utf8(s@);
    }
    let (_, rest) = s.split_at(start);
    proof {
        let rb = rest.spec_bytes();
        valid_utf8_split(b, start as int);
        assert(valid_utf8(rb));
        is_char_boundary_start_end_of_seq(rb);
        if end < b.len() {
            is_char_boundary_iff_not_is_continuation_byte(b, end as int);
            assert(rb[end - start] == b[end as int]);
            is_char_boundary_iff_not_is_continuation_byte(rb, end - start);
        } else {
            assert(rb.len() == end - start);
        }
    }
    let (mid, _) = rest.split_at(end - start);
    assert(mid.spec_bytes() =~= b.subrange(start as int, end as int));
    mid
}

/// Relies on `<usize as core::str::FromStr>::from_str`: it accepts exactly an
/// optional `+` followed by decimal digits whose value fits in `usize`, and
/// returns that value.
#[verifier::external_body]
fn parse_usize(t: &str) -> (r: Result<usize, ParseIntError>)
    ensures
        r is Ok <==> usize_text(t.spec_bytes()),
        r matches Ok(n) ==> n as int == usize_value(t.spec_bytes()),
{
    t.parse::<usize>()
}

/// The pieces of `b[start..end]` between occurrences of `sep`, as byte ranges of `b`.
fn split_ranges(b: &[u8], start: usize, end: usize, sep: u8) -> (r: Vec<(usize, usize)>)
    requires
        start <= end <= b@.len(),
    ensures
        r@.len() == split_on(b@.subrange(start as int, end as int), sep).len(),
        forall|k: int|
            0 <= k < r@.len() ==> {
                let (a, e) = #[trigger] r@[k];
                &&& start <= a <= e <= end
                &&& b@.subrange(a as int, e as int) == split_on(
                    b@.subrange(start as int, end as int),
                    sep,
                )[k]
                &&& (a == start || b@[a - 1] == sep)
                &&& (e == end || b@[e as int] == sep)
            },
{
    let mut done: Vec<(usize, usize)> = Vec::new();
    let mut cur: usize = start;
    let mut k: usize = start;
    while k < end
        invariant
            start <= cur <= k <= end <= b@.len(),
            cur == start || b@[cur - 1] == sep,
            split_on(b@.subrange(start as int, k as int), sep).len() == done@.len() + 1,
            split_on(b@.subrange(start as int, k as int), sep).last() == b@.subrange(
                cur as int,
                k as int,
            ),
            forall|q: int|
                0 <= q < done@.len() ==> {
                    let (a, e) = #[trigger] done@[q];
                    &&& start <= a <= e < cur
                    &&& b@.subrange(a as int, e as int) == split_on(
                        b@.subrange(start as int, k as int),
                        sep,
                    )[q]
                    &&& (a == start || b@[a - 1] == sep)
                    &&& b@[e as int] == sep
                },
        decreases end - k,
    {
        let ghost prev = split_on(b@.subrange(start as int, k as int), sep);
        let ghost next_sub = b@.subrange(start as int, k + 1);
        assert(next_sub.drop_last() =~= b@.subrange(start as int, k as int));
        assert(next_sub.last() == b@[k as int]);
        if b[k] == sep {
            done.push((cur, k));
            cur = k + 1;
            assert(b@.subrange(cur as int, k + 1) =~= Seq::<u8>::empty());
        } else {
            assert(b@.subrange(cur as int, k + 1) =~= b@.subrange(cur as int, k as int).push(
                b@[k as int],
            ));
        }
        k = k + 1;
    }
    done.push((cur, end));
    done
}

proof fn lemma_trim_front(l: Seq<u8>)
    requires
        l.len() > 0,
        is_ws(l[0]),
    ensures
        trim_ws(l) == trim_ws(l.drop_first()),
{
}

proof fn lemma_trim_back(l: Seq<u8>)
    requires
        l.len() > 0,
        !is_ws(l[0]),
        is_ws(l.last()),
    ensures
        trim_ws(l) == trim_ws(l.drop_last()),
{
}

proof fn lemma_trim_done(l: Seq<u8>)
    requires
        l.len() == 0 || (!is_ws(l[0]) && !is_ws(l.last())),
    ensures
        trim_ws(l) == l,
{
}

/// The range of `b[start..end]` left after trimming ASCII whitespace at both ends.
fn trim_range(b: &[u8], start: usize, end: usize) -> (r: (usize, usize))
    requires
        start <= end <= b@.len(),
    ensures
        start <= r.0 <= r.1 <= end,
        b@.subrange(r.0 as int, r.1 as int) == trim_ws(b@.subrange(start as int, end as int)),
        r.0 == start || is_ws(b@[r.0 - 1]),
        r.1 == end || is_ws(b@[r.1 as int]),
{
    let ghost whole = b@.subrange(start as int, end as int);
    let mut a: usize = start;
    while a < end && (b[a] == SP || (9 <= b[a] && b[a] <= 13))
        invariant
            start <= a <= end <= b@.len(),
            a == start || is_ws(b@[a - 1]),
            trim_ws(whole) == trim_ws(b@.subrange(a as int, end as int)),
        decreases end - a,
    {
        proof {
            let l = b@.subrange(a as int, end as int);
            lemma_trim_front(l);
            assert(l.drop_first() =~= b@.subrange(a + 1, end as int));
        }
        a = a + 1;
    }
    let mut e: usize = end;
    while e > a && (b[e - 1] == SP || (9 <= b[e - 1] && b[e - 1] <= 13))
        invariant
            start <= a <= e <= end <= b@.len(),
            a == end || !is_ws(b@[a as int]),
            e == end || is_ws(b@[e as int]),
            trim_ws(whole) == trim_ws(b@.subrange(a as int, e as int)),
        decreases e - a,
    {
        proof {
            let l = b@.subrange(a as int, e as int);
            assert(l[0] == b@[a as int]);
            lemma_trim_back(l);
            assert(l.drop_last() =~= b@.subrange(a as int, e - 1));
        }
        e = e - 1;
    }
    proof {
        lemma_trim_done(b@.subrange(a as int, e as int));
    }
    (a, e)
}

/// Every field is the text of a `usize`.
pub open spec fn all_usize(fs: Seq<Seq<u8>>) -> bool {
    forall|i: int| 0 <= i < fs.len() ==> usize_text(#[trigger] fs[i])
}

/// The values of fields that are all `usize` texts.
pub open spec fn usize_values(fs: Seq<Seq<u8>>) -> Seq<usize> {
    fs.map_values(|t: Seq<u8>| usize_value(t) as usize)
}

/// The space-separated fields of `s[start..end]`, each parsed as a `usize`;
/// the first field that is not one gives the error.
fn parse_usize_fields(s: &str, b: &[u8], start: usize, end: usize) -> (r: Result<
    Vec<usize>,
    ParseIntError,
>)
    requires
        b@ == s.spec_bytes(),
        start <= end <= b@.len(),
        start == 0 || b@[start - 1] < 0x80,
        end == b@.len() || b@[end as int] < 0x80,
    ensures
        r is Ok <==> all_usize(split_on(b@.subrange(start as int, end as int), SP)),
        r matches Ok(v) ==> v@ == usize_values(split_on(b@.subrange(start as int, end as int), SP)),
{
    let ghost fs = split_on(b@.subrange(start as int, end as int), SP);
    proof {
        encode_utf8_valid_utf8(s@);
    }
    let ranges = split_ranges(b, start, end, SP);
    let mut out: Vec<usize> = Vec::new();
    let mut k: usize = 0;
    while k < ranges.len()
        invariant
            b@ == s.spec_bytes(),
            valid_utf8(b@),
            start <= end <= b@.len(),
            start == 0 || b@[start - 1] < 0x80,
            end == b@.len() || b@[end as int] < 0x80,
            fs == split_on(b@.subrange(start as int, end as int), SP),
            ranges@.len() == fs.len(),
            forall|q: int|
                0 <= q < ranges@.len() ==> {
                    let (a, e) = #[trigger] ranges@[q];
                    &&& start <= a <= e <= end
                    &&& b@.subrange(a as int, e as int) == fs[q]
                    &&& (a == start || b@[a - 1] == SP)
                    &&& (e == end || b@[e as int] == SP)
                },
            0 <= k <= ranges@.len(),
            out@ == usize_values(fs).take(k as int),
            forall|q: int| 0 <= q < k ==> usize_text(#[trigger] fs[q]),
        decreases ranges@.len() - k,
    {
        let (a, e) = ranges[k];
        proof {
            lemma_ascii_boundary(b@, a as int);
            lemma_ascii_boundary(b@, e as int);
        }
        let t = sub_str(s, a, e);
        match parse_usize(t) {
            Ok(n) => {
                out.push(n);
                k = k + 1;
                assert(out@ =~= usize_values(fs).take(k as int));
            },
            Err(err) => {
                assert(!usize_text(fs[k as int]));
                assert(!all_usize(fs));
                return Err(err);
            },
        }
    }
    assert(out@ =~= usize_values(fs));
    Ok(out)
}

/// The space-separated fields of `s[start..end]`, as text.
fn text_fields(s: &str, b: &[u8], start: usize, end: usize) -> (r: Vec<String>)
    requires
        b@ == s.spec_bytes(),
        start <= end <= b@.len(),
        start == 0 || b@[start - 1] < 0x80,
        end == b@.len() || b@[end as int] < 0x80,
    ensures
        r@.len() == split_on(b@.subrange(start as int, end as int), SP).len(),
        forall|k: int|
            0 <= k < r@.len() ==> encode_utf8((#[trigger] r@[k])@) == split_on(
                b@.subrange(start as int, end as int),
                SP,
            )[k],
{
    let ghost fs = split_on(b@.subrange(start as int, end as int), SP);
    proof {
        encode_utf8_valid_utf8(s@);
    }
    let ranges = split_ranges(b, start, end, SP);
    let mut out: Vec<String> = Vec::new();
    let mut k: usize = 0;
    while k < ranges.len()
        invariant
            b@ == s.spec_bytes(),
            valid_utf8(b@),
            start <= end <= b@.len(),
            start == 0 || b@[start - 1] < 0x80,
            end == b@.len() || b@[end as int] < 0x80,
            fs == split_on(b@.subrange(start as int, end as int), SP),
            ranges@.len() == fs.len(),
            forall|q: int|
                0 <= q < ranges@.len() ==> {
                    let (a, e) = #[trigger] ranges@[q];
                    &&& start <= a <= e <= end
                    &&& b@.subrange(a as int, e as int) == fs[q]
                    &&& (a == start || b@[a - 1] == SP)
                    &&& (e == end || b@[e as int] == SP)
                },
            0 <= k <= ranges@.len(),
            out@.len() == k,
            forall|q: int| 0 <= q < k ==> encode_utf8((#[trigger] out@[q])@) == fs[q],
        decreases ranges@.len() - k,
    {
        let (a, e) = ranges[k];
        proof {
            lemma_ascii_boundary(b@, a as int);
            lemma_ascii_boundary(b@, e as int);
        }
        let t = sub_str(s, a, e);
        let owned = t.to_owned();
        out.push(owned);
        k = k + 1;
    }
    out
}

/// Why a mesh text is refused, in the order the lines are read.
pub enum GeoFault {
    /// One of the six lines is missing.
    MissingLine,
    /// The face count, a face size or a corner index is not a `usize`.
    BadInteger,
    /// The coordinates do not come in whole triples, or the texture
    /// coordinates in whole pairs.
    BadArity,
}

/// What a mesh text holds: the face count, the size of each face, the flat
/// list of face corners, three coordinate fields per vertex and two texture
/// coordinate fields per vertex.
pub struct GeoModel {
    pub num_faces: usize,
    pub faces: Seq<usize>,
    pub vertex_index: Seq<usize>,
    pub vertices: Seq<Seq<u8>>,
    pub tex_coords: Seq<Seq<u8>>,
}

/// How a mesh text is read. Line one holds the face count (surrounding
/// whitespace ignored), line two the face sizes, line three the corner
/// indices, line four the vertex coordinates, line five the vertex normals
/// (not used) and line six the texture coordinates; fields are separated by
/// single spaces.
pub open spec fn geo_check(b: Seq<u8>) -> Result<GeoModel, GeoFault> {
    let ls = text_lines(b);
    if ls.len() < 1 {
        Err(GeoFault::MissingLine)
    } else if !usize_text(trim_ws(ls[0])) {
        Err(GeoFault::BadInteger)
    } else if ls.len() < 2 {
        Err(GeoFault::MissingLine)
    } else if !all_usize(split_on(ls[1], SP)) {
        Err(GeoFault::BadInteger)
    } else if ls.len() < 3 {
        Err(GeoFault::MissingLine)
    } else if !all_usize(split_on(ls[2], SP)) {
        Err(GeoFault::BadInteger)
    } else if ls.len() < 4 {
        Err(GeoFault::MissingLine)
    } else if split_on(ls[3], SP).len() % 3 != 0 {
        Err(GeoFault::BadArity)
    } else if ls.len() < 6 {
        Err(GeoFault::MissingLine)
    } else if split_on(ls[5], SP).len() % 2 != 0 {
        Err(GeoFault::BadArity)
    } else {
        Ok(
            GeoModel {
                num_faces: usize_value(trim_ws(ls[0])) as usize,
                faces: usize_values(split_on(ls[1], SP)),
                vertex_index: usize_values(split_on(ls[2], SP)),
                vertices: split_on(ls[3], SP),
                tex_coords: split_on(ls[5], SP),
            },
        )
    }
}

/// The error reported for each kind of refusal.
pub open spec fn fault_reported(f: GeoFault, e: RTError) -> bool {
    match f {
        GeoFault::MissingLine => e is InvalidGeo,
        GeoFault::BadInteger => e is ParseInt,
        GeoFault::BadArity => e is Error,
    }
}

/// A parsed mesh text describes a mesh: the face count matches the face
/// sizes, the sizes use up the corner list, coordinates come in triples and
/// texture coordinates in pairs, one pair per vertex, and the faces are valid
/// over the vertices.
pub open spec fn geo_mesh_ok(m: GeoModel) -> bool {
    &&& m.num_faces == m.faces.len()
    &&& size_sum(m.faces, m.faces.len() as int) == m.vertex_index.len()
    &&& m.vertices.len() % 3 == 0
    &&& m.tex_coords.len() % 2 == 0
    &&& m.tex_coords.len() / 2 == m.vertices.len() / 3
    &&& valid_faces(split_by_sizes(m.faces, m.vertex_index), (m.vertices.len() / 3) as nat)
}

/// A mesh text, read but not yet interpreted. Coordinates stay text: turning
/// them into numbers is up to the caller.
#[derive(Debug, Clone)]
pub struct Geo {
    pub num_faces: usize,
    pub faces: Vec<usize>,
    pub vertex_index: Vec<usize>,
    pub vertices: Vec<String>,
    pub tex_coords: Vec<String>,
}

/// The byte range of line `i` of `b`, given the ranges of the pieces between line feeds.
fn line_at(b: &[u8], p: &Vec<(usize, usize)>, i: usize) -> (r: (usize, usize))
    requires
        p@.len() == split_on(b@, NL).len(),
        forall|k: int|
            0 <= k < p@.len() ==> {
                let (a, e) = #[trigger] p@[k];
                &&& 0 <= a <= e <= b@.len()
                &&& b@.subrange(a as int, e as int) == split_on(b@, NL)[k]
                &&& (a == 0 || b@[a - 1] == NL)
                &&& (e == b@.len() || b@[e as int] == NL)
            },
        i < text_lines(b@).len(),
    ensures
        r.0 <= r.1 <= b@.len(),
        b@.subrange(r.0 as int, r.1 as int) == text_lines(b@)[i as int],
        r.0 == 0 || b@[r.0 - 1] == NL,
        r.1 == b@.len() || b@[r.1 as int] == NL || b@[r.1 as int] == CR,
{
    proof {
        lemma_split_on_nonempty(b@, NL);
    }
    let (a, e) = p[i];
    if i < p.len() - 1 && e > a && b[e - 1] == CR {
        assert(b@.subrange(a as int, e - 1) =~= b@.subrange(a as int, e as int).drop_last());
        (a, e - 1)
    } else {
        (a, e)
    }
}

impl Geo {
    /// What the parsed text holds, coordinates as their bytes.
    pub open spec fn model(&self) -> GeoModel {
        GeoModel {
            num_faces: self.num_faces,
            faces: self.faces@,
            vertex_index: self.vertex_index@,
            vertices: self.vertices@.map_values(|t: String| encode_utf8(t@)),
            tex_coords: self.tex_coords@.map_values(|t: String| encode_utf8(t@)),
        }
    }

    /// Reads a mesh text as `geo_check` describes.
    pub fn from_str(s: &str) -> (r: Result<Geo, RTError>)
        ensures
            geo_check(s.spec_bytes()) matches Ok(m) ==> (r matches Ok(g) && g.model() == m),
            geo_check(s.spec_bytes()) matches Err(f) ==> (r matches Err(e) && fault_reported(
                f,
                e,
            )),
    {
        let b = s.as_bytes();
        let ghost bs = b@;
        let ghost ls = text_lines(bs);
        let p = split_ranges(b, 0, b.len(), NL);
        assert(bs.subrange(0, bs.len() as int) =~= bs);
        proof {
            lemma_split_on_nonempty(bs, NL);
        }
        let np = p.len();
        let (la, le) = p[np - 1];
        let nlines = if la == le {
            np - 1
        } else {
            np
        };
        assert(nlines == ls.len());
        if nlines < 1 {
            return Err(RTError::InvalidGeo(String::from_str("missing face count line")));
        }
        let (a0, e0) = line_at(b, &p, 0);
        let (ta, te) = trim_range(b, a0, e0);
        proof {
            encode_utf8_valid_utf8(s@);
            lemma_ascii_boundary(bs, ta as int);
            lemma_ascii_boundary(bs, te as int);
        }
        let count_text = sub_str(s, ta, te);
        let num_faces = match parse_usize(count_text) {
            Ok(n) => n,
            Err(err) => {
                return Err(RTError::ParseInt(err));
            },
        };
        if nlines < 2 {
            return Err(RTError::InvalidGeo(String::from_str("missing face size line")));
        }
        let (a1, e1) = line_at(b, &p, 1);
        let faces = match parse_usize_fields(s, b, a1, e1) {
            Ok(v) => v,
            Err(err) => {
                return Err(RTError::ParseInt(err));
            },
        };
        if nlines < 3 {
            return Err(RTError::InvalidGeo(String::from_str("missing corner index line")));
        }
        let (a2, e2) = line_at(b, &p, 2);
        let vertex_index = match parse_usize_fields(s, b, a2, e2) {
            Ok(v) => v,
            Err(err) => {
                return Err(RTError::ParseInt(err));
            },
        };
        if nlines < 4 {
            return Err(RTError::InvalidGeo(String::from_str("missing vertex line")));
        }
        let (a3, e3) = line_at(b, &p, 3);
        let vertices = text_fields(s, b, a3, e3);
        if vertices.len() % 3 != 0 {
            return Err(RTError::Error(String::from_str("vertex coordinates are not whole triples")));
        }
        if nlines < 6 {
            return Err(RTError::InvalidGeo(String::from_str("missing normal or texture line")));
        }
        let (a5, e5) = line_at(b, &p, 5);
        let tex_coords = text_fields(s, b, a5, e5);
        if tex_coords.len() % 2 != 0 {
            return Err(RTError::Error(String::from_str("texture coordinates are not whole pairs")));
        }
        let g = Geo { num_faces, faces, vertex_index, vertices, tex_coords };
        assert(g.model().vertices =~= split_on(ls[3], SP));
        assert(g.model().tex_coords =~= split_on(ls[5], SP));
        Ok(g)
    }

    /// The mesh topology the text describes, over one vertex per coordinate
    /// triple; fails as `geo_mesh_ok` says.
    pub fn topology(&self) -> (r: Result<MeshTopology, RTError>)
        ensures
            r is Ok <==> geo_mesh_ok(self.model()),
            r matches Ok(t) ==> t.wf() && t@.num_vertices == self.vertices@.len() / 3
                && t@.faces == split_by_sizes(self.faces@, self.vertex_index@),
            r matches Err(e) ==> e is InvalidGeo,
    {
        if self.num_faces != self.faces.len() {
            return Err(RTError::InvalidGeo(String::from_str("face count does not match the face sizes")));
        }
        if self.vertices.len() % 3 != 0 || self.tex_coords.len() % 2 != 0
            || self.tex_coords.len() / 2 != self.vertices.len() / 3 {
            return Err(RTError::InvalidGeo(String::from_str("vertex and texture counts differ")));
        }
        let faces = match split_faces(&self.faces, &self.vertex_index) {
            Ok(f) => f,
            Err(e) => {
                return Err(e);
            },
        };
        MeshTopology::new(faces, self.vertices.len() / 3)
    }
}

} // verus!
