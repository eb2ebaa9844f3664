//! The mesh: vertex positions, texture coordinates, vertex normals and
//! faces, together with the diffuse texture, loaded from Wavefront-style
//! text.
//!
//! Coordinates are 16.16 fixed-point. Every index stored in a face is
//! checked against the attribute arrays when the mesh is loaded, so the
//! renderer can index without further checks.

use crate::buffer::{Color, Image};
use crate::fixed::{div_trunc, tdiv, SCALE};
use crate::geometry::{lemma_bounded_product, v3_bounded, Vertex3};
use vstd::prelude::*;
use vstd::slice::{slice_subrange, slice_to_vec};
use vstd::assert_by_contradiction;
use vstd::string::StringSliceAdditionalSpecFns;

verus! {

/// The loader failed: a malformed record, a coordinate out of range, or
/// a face index past the end of its attribute array.
#[derive(Debug, Copy, Clone, PartialEq, Eq, Structural)]
pub struct LoadError;

/// Bound on every loaded coordinate: the loader rejects meshes with
/// coordinates at 8192 or beyond, which keeps all downstream fixed-point
/// arithmetic inside `i64`.
pub const VERT_LIMIT: i64 = 0x2000_0000;

/// Three index triples: for each corner of the triangle, the 0-based
/// index of its position, texture coordinate and normal.
#[derive(Debug, Copy, Clone)]
pub struct Face {
    pub vertexes: [u32; 3],
    pub textures: [u32; 3],
    pub normals: [u32; 3],
}

impl Face {
    pub fn get_vertex(&self, i: usize) -> (r: u32)
        requires
            i < 3,
        ensures
            r == self.vertexes[i as int],
    {
        self.vertexes[i]
    }

    pub fn get_texture(&self, i: usize) -> (r: u32)
        requires
            i < 3,
        ensures
            r == self.textures[i as int],
    {
        self.textures[i]
    }

    pub fn get_normal(&self, i: usize) -> (r: u32)
        requires
            i < 3,
        ensures
            r == self.normals[i as int],
    {
        self.normals[i]
    }
}

/// Every index of `f` is within the three attribute arrays.
pub open spec fn face_in_bounds(f: Face, nverts: int, ntex: int, nnorm: int) -> bool {
    &&& forall|i: int| 0 <= i < 3 ==> (#[trigger] f.vertexes[i]) < nverts
    &&& forall|i: int| 0 <= i < 3 ==> (#[trigger] f.textures[i]) < ntex
    &&& forall|i: int| 0 <= i < 3 ==> (#[trigger] f.normals[i]) < nnorm
}

pub struct Model {
    pub verts: Vec<Vertex3<i64>>,
    pub textures: Vec<Vertex3<i64>>,
    pub normals: Vec<Vertex3<i64>>,
    pub faces: Vec<Face>,
    pub texture_image: Image,
}

impl Model {
    /// The loader establishes this and every renderer entry relies on
    /// it: coordinates bounded, texture coordinates normalized to
    /// [0, 1], every face index in bounds, and a plausible texture.
    pub open spec fn wf(&self) -> bool {
        &&& forall|i: int|
            0 <= i < self.verts@.len() ==> v3_bounded(#[trigger] self.verts@[i], VERT_LIMIT as int)
        &&& forall|i: int|
            0 <= i < self.normals@.len() ==> v3_bounded(
                #[trigger] self.normals@[i],
                VERT_LIMIT as int,
            )
        &&& forall|i: int|
            0 <= i < self.textures@.len() ==> (0 <= (#[trigger] self.textures@[i]).x <= SCALE && 0
                <= self.textures@[i].y <= SCALE && 0 <= self.textures@[i].z <= SCALE)
        &&& forall|i: int|
            0 <= i < self.faces@.len() ==> face_in_bounds(
                #[trigger] self.faces@[i],
                self.verts@.len() as int,
                self.textures@.len() as int,
                self.normals@.len() as int,
            )
        &&& self.texture_image.wf()
        &&& 1 <= self.texture_image.width <= 0x8000
        &&& 1 <= self.texture_image.height <= 0x8000
    }

    /// The texel column sampled for the fixed-point coordinate `c` along
    /// an axis of `n` texels: `c` scaled by `n`, truncated, clamped into
    /// the axis.
    pub open spec fn texel(c: int, n: int) -> int {
        let i = tdiv(c * n, SCALE as int);
        if i < 0 {
            0
        } else if i >= n {
            n - 1
        } else {
            i
        }
    }

    /// The color `uv` samples: nearest-neighbor at the scaled
    /// coordinates.
    pub open spec fn uv_spec(&self, uv: Vertex3<i64>) -> Color {
        self.texture_image.at(
            Self::texel(uv.x as int, self.texture_image.width as int),
            Self::texel(uv.y as int, self.texture_image.height as int),
        )
    }

    /// Samples the diffuse texture at the normalized coordinate `uv`
    /// (x and y in [0, 1] fixed-point; out-of-range values are clamped
    /// to the texture edge).
    pub fn uv(&self, uv: Vertex3<i64>) -> (r: Color)
        requires
            self.wf(),
            -0x40000 <= uv.x <= 0x40000,
            -0x40000 <= uv.y <= 0x40000,
        ensures
            r == self.uv_spec(uv),
    {
        let x: usize = Self::texel_exec(uv.x, self.texture_image.width);
        let y: usize = Self::texel_exec(uv.y, self.texture_image.height);
        self.texture_image.get(x, y)
    }

    /// Scales one fixed-point coordinate to a texel index.
    fn texel_exec(c: i64, n: usize) -> (r: usize)
        requires
            -0x40000 <= c <= 0x40000,
            1 <= n <= 0x8000,
        ensures
            r == Model::texel(c as int, n as int),
            r < n,
    {
        proof {
            lemma_bounded_product(c as int, 0x40000, n as int);
            crate::geometry::lemma_tdiv_self_bound(c * (n as i64), SCALE as int);
        }
        let i: i64 = div_trunc(c * (n as i64), SCALE);
        if i < 0 {
            0
        } else if i >= n as i64 {
            n - 1
        } else {
            i as usize
        }
    }

    pub fn verts_len(&self) -> (r: usize)
        ensures
            r == self.verts@.len(),
    {
        self.verts.len()
    }

    pub fn faces_len(&self) -> (r: usize)
        ensures
            r == self.faces@.len(),
    {
        self.faces.len()
    }
}

/// The first index at or after `i` whose byte differs from `sep`, or
/// the length.
pub open spec fn seek_non(s: Seq<u8>, i: int, sep: u8) -> int
    decreases s.len() - i,
{
    if i < 0 || i >= s.len() {
        s.len() as int
    } else if s[i] == sep {
        seek_non(s, i + 1, sep)
    } else {
        i
    }
}

/// The first index at or after `i` whose byte equals `sep`, or the
/// length.
pub open spec fn seek_to(s: Seq<u8>, i: int, sep: u8) -> int
    decreases s.len() - i,
{
    if i < 0 || i >= s.len() {
        s.len() as int
    } else if s[i] == sep {
        i
    } else {
        seek_to(s, i + 1, sep)
    }
}

pub proof fn lemma_seek_non_bounds(s: Seq<u8>, i: int, sep: u8)
    requires
        0 <= i <= s.len(),
    ensures
        i <= seek_non(s, i, sep) <= s.len(),
    decreases s.len() - i,
{
    if i < s.len() && s[i] == sep {
        lemma_seek_non_bounds(s, i + 1, sep);
    }
}

pub proof fn lemma_seek_to_bounds(s: Seq<u8>, i: int, sep: u8)
    requires
        0 <= i <= s.len(),
    ensures
        i <= seek_to(s, i, sep) <= s.len(),
    decreases s.len() - i,
{
    if i < s.len() && s[i] != sep {
        lemma_seek_to_bounds(s, i + 1, sep);
    }
}

/// The whitespace-separated tokens of `s` from position `i` on.
pub open spec fn toks_from(s: Seq<u8>, i: int) -> Seq<Seq<u8>>
    decreases s.len() - i,
    when 0 <= i <= s.len()
    via toks_from_decreases
{
    let j = seek_non(s, i, 32);
    if j >= s.len() {
        Seq::empty()
    } else {
        let k = seek_to(s, j, 32);
        seq![s.subrange(j, k)] + toks_from(s, k)
    }
}

#[via_fn]
proof fn toks_from_decreases(s: Seq<u8>, i: int) {
    lemma_seek_non_bounds(s, i, 32);
    let j = seek_non(s, i, 32);
    if j < s.len() {
        lemma_seek_non_hit(s, i, 32);
        lemma_seek_to_bounds(s, j + 1, 32);
    }
}

/// When the scan for a byte other than `sep` stops short of the end, it
/// stops on such a byte.
pub proof fn lemma_seek_non_hit(s: Seq<u8>, i: int, sep: u8)
    requires
        0 <= i <= s.len(),
        seek_non(s, i, sep) < s.len(),
    ensures
        s[seek_non(s, i, sep)] != sep,
    decreases s.len() - i,
{
    if i < s.len() && s[i] == sep {
        lemma_seek_non_hit(s, i + 1, sep);
    }
}


/// The whitespace-separated tokens of `s`; empty runs of separators
/// produce no token.
pub open spec fn toks(s: Seq<u8>) -> Seq<Seq<u8>> {
    toks_from(s, 0)
}

/// The segments of `s` from position `i` on, split at every `sep`; an
/// empty segment stays.
pub open spec fn bsplit_from(s: Seq<u8>, i: int, sep: u8) -> Seq<Seq<u8>>
    decreases s.len() - i,
    when 0 <= i <= s.len()
    via bsplit_from_decreases
{
    let k = seek_to(s, i, sep);
    if k >= s.len() {
        seq![s.subrange(i, s.len() as int)]
    } else {
        seq![s.subrange(i, k)] + bsplit_from(s, k + 1, sep)
    }
}

#[via_fn]
proof fn bsplit_from_decreases(s: Seq<u8>, i: int, sep: u8) {
    lemma_seek_to_bounds(s, i, sep);
}

/// The segments of `s` split at every `sep`.
pub open spec fn bsplit(s: Seq<u8>, sep: u8) -> Seq<Seq<u8>> {
    bsplit_from(s, 0, sep)
}

pub open spec fn is_digit(c: u8) -> bool {
    48 <= c <= 57
}

/// The decimal value of a digit string.
pub open spec fn digits_val(t: Seq<u8>) -> int
    decreases t.len(),
{
    if t.len() == 0 {
        0
    } else {
        digits_val(t.drop_last()) * 10 + (t.last() - 48)
    }
}

/// `t` is one or more decimal digits.
pub open spec fn all_digits(t: Seq<u8>) -> bool {
    t.len() > 0 && forall|i: int| 0 <= i < t.len() ==> is_digit(#[trigger] t[i])
}

/// The digit prefixes of a digit string never exceed its value.
pub proof fn lemma_digits_prefix(t: Seq<u8>, i: int)
    requires
        0 <= i <= t.len(),
        forall|j: int| 0 <= j < t.len() ==> is_digit(#[trigger] t[j]),
    ensures
        0 <= digits_val(t.take(i)) <= digits_val(t),
    decreases t.len() - i,
{
    if i == t.len() {
        assert(t.take(i) =~= t);
        lemma_digits_nonneg(t);
    } else {
        lemma_digits_prefix(t, i + 1);
        assert(t.take(i + 1).drop_last() =~= t.take(i));
        assert(digits_val(t.take(i + 1)) == digits_val(t.take(i)) * 10 + (t[i] - 48));
        lemma_digits_nonneg(t.take(i));
        assert(digits_val(t.take(i)) * 10 >= digits_val(t.take(i))) by (nonlinear_arith)
            requires
                digits_val(t.take(i)) >= 0,
        ;
    }
}

pub proof fn lemma_digits_nonneg(t: Seq<u8>)
    requires
        forall|j: int| 0 <= j < t.len() ==> is_digit(#[trigger] t[j]),
    ensures
        digits_val(t) >= 0,
    decreases t.len(),
{
    if t.len() > 0 {
        lemma_digits_nonneg(t.drop_last());
        assert(digits_val(t.drop_last()) * 10 >= 0) by (nonlinear_arith)
            requires
                digits_val(t.drop_last()) >= 0,
        ;
    }
}

/// A face index token: a whole decimal number, 1-based in the source
/// format, stored 0-based.
pub open spec fn parse_index(t: Seq<u8>) -> Option<u32> {
    if all_digits(t) && 1 <= digits_val(t) <= u32::MAX {
        Some((digits_val(t) - 1) as u32)
    } else {
        None
    }
}

pub open spec fn pow10(k: nat) -> int
    decreases k,
{
    if k == 0 {
        1
    } else {
        10 * pow10((k - 1) as nat)
    }
}

/// A signed decimal number token (optional leading minus, digits, an
/// optional point and fraction digits), as a fixed-point value. Only
/// the first nine fraction digits contribute; magnitudes of 8192 and
/// above are rejected so every loaded coordinate stays well inside
/// `i64` arithmetic.
pub open spec fn parse_fixed(t: Seq<u8>) -> Option<i64> {
    let neg = t.len() > 0 && t[0] == 45;
    let b: int = if neg {
        1
    } else {
        0
    };
    let d = seek_to(t, b, 46);
    let ip = t.subrange(b, d);
    let fp = if d >= t.len() {
        Seq::<u8>::empty()
    } else {
        t.subrange(d + 1, t.len() as int)
    };
    if all_digits(ip) && digits_val(ip) < 8192 && (fp.len() == 0 || all_digits(fp)) {
        let k: nat = if fp.len() > 9 {
            9nat
        } else {
            fp.len()
        };
        let fx = digits_val(ip) * SCALE + (digits_val(fp.take(k as int)) * SCALE) / pow10(k);
        Some(
            (if neg {
                -fx
            } else {
                fx
            }) as i64,
        )
    } else {
        None
    }
}

/// A digit string is smaller than ten to its length.
pub proof fn lemma_digits_upper(t: Seq<u8>)
    requires
        forall|j: int| 0 <= j < t.len() ==> is_digit(#[trigger] t[j]),
    ensures
        digits_val(t) < pow10(t.len()),
    decreases t.len(),
{
    if t.len() > 0 {
        lemma_digits_upper(t.drop_last());
        assert(digits_val(t.drop_last()) * 10 <= (pow10((t.len() - 1) as nat) - 1) * 10)
            by (nonlinear_arith)
            requires
                digits_val(t.drop_last()) <= pow10((t.len() - 1) as nat) - 1,
        ;
    }
}

/// Parses a face index token.
#[verifier::loop_isolation(false)]
fn parse_index_exec(t: &[u8]) -> (r: Option<u32>)
    ensures
        r == parse_index(t@),
{
    let n: usize = t.len();
    if n == 0 {
        return None;
    }
    let mut i: usize = 0;
    let mut val: u64 = 0;
    while i < n
        invariant
            i <= n,
            n == t@.len(),
            forall|j: int| 0 <= j < i ==> is_digit(#[trigger] t@[j]),
            val == digits_val(t@.take(i as int)),
            val <= 0xFFFF_FFFF,
        decreases n - i,
    {
        let c: u8 = t[i];
        if c < 48 || c > 57 {
            return None;
        }
        let nv: u64 = val * 10 + ((c - 48) as u64);
        proof {
            assert(t@.take(i + 1).drop_last() =~= t@.take(i as int));
        }
        if nv > 0xFFFF_FFFF {
            proof {
                if all_digits(t@) {
                    lemma_digits_prefix(t@, i + 1);
                }
            }
            return None;
        }
        val = nv;
        i += 1;
    }
    proof {
        assert(t@.take(n as int) =~= t@);
    }
    if val >= 1 {
        Some((val - 1) as u32)
    } else {
        None
    }
}

/// The powers of ten up to the ninth.
fn pow10_exec(k: usize) -> (r: u64)
    requires
        k <= 9,
    ensures
        r == pow10(k as nat),
        1 <= r <= 1_000_000_000,
{
    proof {
        reveal_with_fuel(pow10, 11);
        assert(pow10(0) == 1);
        assert(pow10(1) == 10);
        assert(pow10(2) == 100);
        assert(pow10(3) == 1000);
        assert(pow10(4) == 10000);
        assert(pow10(5) == 100000);
        assert(pow10(6) == 1000000);
        assert(pow10(7) == 10000000);
        assert(pow10(8) == 100000000);
        assert(pow10(9) == 1000000000);
    }
    if k == 0 {
        1
    } else if k == 1 {
        10
    } else if k == 2 {
        100
    } else if k == 3 {
        1000
    } else if k == 4 {
        10000
    } else if k == 5 {
        100000
    } else if k == 6 {
        1000000
    } else if k == 7 {
        10000000
    } else if k == 8 {
        100000000
    } else {
        1000000000
    }
}

/// Parses a signed decimal number token into fixed-point.
#[verifier::loop_isolation(false)]
fn parse_fixed_exec(t: &[u8]) -> (r: Option<i64>)
    ensures
        r == parse_fixed(t@),
        r.is_some() ==> -VERT_LIMIT < r.unwrap() < VERT_LIMIT,
{
    let n: usize = t.len();
    let neg: bool = n > 0 && t[0] == 45;
    let b: usize = if neg {
        1
    } else {
        0
    };
    let d: usize = seek_to_exec(t, b, 46);
    if d == b {
        return None;
    }
    let ghost ip = t@.subrange(b as int, d as int);
    let mut i: usize = b;
    let mut val: u64 = 0;
    while i < d
        invariant
            b <= i <= d,
            d <= n,
            n == t@.len(),
            ip == t@.subrange(b as int, d as int),
            forall|j: int| 0 <= j < i - b ==> is_digit(#[trigger] ip[j]),
            val == digits_val(ip.take(i - b)),
            val < 8192,
        decreases d - i,
    {
        let c: u8 = t[i];
        proof {
            assert(ip[i - b] == t@[i as int]);
        }
        if c < 48 || c > 57 {
            return None;
        }
        let nv: u64 = val * 10 + ((c - 48) as u64);
        proof {
            assert(ip.take(i - b + 1).drop_last() =~= ip.take(i - b));
        }
        if nv >= 8192 {
            proof {
                if all_digits(ip) {
                    lemma_digits_prefix(ip, i - b + 1);
                    assert(ip.take(i - b + 1).last() == ip[i - b]);
                    assert(digits_val(ip.take(i - b + 1)) == val * 10 + (c - 48));
                    assert(digits_val(ip) >= 8192);
                }
                assert(parse_fixed(t@) is None);
            }
            return None;
        }
        val = nv;
        i += 1;
    }
    proof {
        assert(ip.take(d - b) =~= ip);
    }
    let ghost fp = if d >= n {
        Seq::<u8>::empty()
    } else {
        t@.subrange(d + 1, n as int)
    };
    let mut fval: u64 = 0;
    let mut k: usize = 0;
    if d < n {
        let mut j: usize = d + 1;
        while j < n
            invariant
                d + 1 <= j <= n,
                d < n,
                n == t@.len(),
                fp == t@.subrange(d + 1, n as int),
                forall|m: int| 0 <= m < j - d - 1 ==> is_digit(#[trigger] fp[m]),
                k == (if j - d - 1 > 9 {
                    9int
                } else {
                    j - d - 1
                }),
                fval == digits_val(fp.take(k as int)),
                fval < 1_000_000_000,
            decreases n - j,
        {
            let c: u8 = t[j];
            proof {
                assert(fp[j - d - 1] == t@[j as int]);
            }
            if c < 48 || c > 57 {
                proof {
                    assert(!is_digit(fp[j - d - 1]));
                    assert(!all_digits(fp));
                    assert(fp.len() > 0);
                    assert(parse_fixed(t@) is None);
                }
                return None;
            }
            if k < 9 {
                proof {
                    reveal_with_fuel(pow10, 11);
                    assert(fp.take(k + 1).drop_last() =~= fp.take(k as int));
                    lemma_digits_upper(fp.take(k as int));
                    assert(digits_val(fp.take(k as int)) * 10 <= (pow10(k as nat) - 1) * 10)
                        by (nonlinear_arith)
                        requires
                            digits_val(fp.take(k as int)) <= pow10(k as nat) - 1,
                    ;
                    assert(pow10(9) == 1000000000);
                    lemma_pow10_le(k as nat, 8);
                }
                fval = fval * 10 + ((c - 48) as u64);
                k += 1;
            }
            j += 1;
        }
    }
    let p10: u64 = pow10_exec(k);
    let frac: u64 = fval * 65536 / p10;
    proof {
        lemma_digits_upper(fp.take(k as int));
        assert(fval * 65536 < pow10(k as nat) * 65536) by (nonlinear_arith)
            requires
                fval < pow10(k as nat),
        ;
        vstd::arithmetic::div_mod::lemma_multiply_divide_lt(
            fval * 65536,
            pow10(k as nat),
            65536,
        );
        vstd::arithmetic::mul::lemma_mul_is_commutative(pow10(k as nat), 65536);
    }
    let fx: i64 = (val as i64) * SCALE + (frac as i64);
    proof {
        let spec_k: nat = if fp.len() > 9 {
            9nat
        } else {
            fp.len()
        };
        assert(spec_k == k as nat);
    }
    if neg {
        Some(-fx)
    } else {
        Some(fx)
    }
}

/// Powers of ten are monotone.
pub proof fn lemma_pow10_le(a: nat, b: nat)
    requires
        a <= b,
    ensures
        pow10(a) <= pow10(b),
        1 <= pow10(a),
    decreases b,
{
    if a == b {
        lemma_pow10_pos(a);
    } else {
        lemma_pow10_le(a, (b - 1) as nat);
        lemma_pow10_pos((b - 1) as nat);
    }
}

pub proof fn lemma_pow10_pos(a: nat)
    ensures
        1 <= pow10(a),
    decreases a,
{
    if a > 0 {
        lemma_pow10_pos((a - 1) as nat);
    }
}

/// Face index groups: the token split at every slash, each group a
/// whole 1-based index, returned 0-based.
pub open spec fn parse_face_indices(t: Seq<u8>) -> Option<Seq<u32>> {
    let gs = bsplit(t, 47);
    if forall|i: int| 0 <= i < gs.len() ==> parse_index(#[trigger] gs[i]).is_some() {
        Some(Seq::new(gs.len(), |i: int| parse_index(gs[i]).unwrap()))
    } else {
        None
    }
}

/// Parses one face corner, a string of slash-separated 1-based indices
/// such as the vertex/texture/normal triple, into 0-based indices.
pub fn parse_face_string(face_str: &str) -> (r: Option<Vec<u32>>)
    ensures
        r.is_some() == parse_face_indices(face_str.spec_bytes()).is_some(),
        r.is_some() ==> r.unwrap()@ == parse_face_indices(face_str.spec_bytes()).unwrap(),
{
    parse_face_bytes(face_str.as_bytes())
}

/// Parses one face corner from raw bytes.
#[verifier::loop_isolation(false)]
fn parse_face_bytes(t: &[u8]) -> (r: Option<Vec<u32>>)
    ensures
        r.is_some() == parse_face_indices(t@).is_some(),
        r.is_some() ==> r.unwrap()@ == parse_face_indices(t@).unwrap(),
{
    let n: usize = t.len();
    let ghost gs = bsplit(t@, 47);
    let mut out: Vec<u32> = Vec::new();
    let mut i: usize = 0;
    loop
        invariant
            i <= n,
            n == t@.len(),
            gs == bsplit(t@, 47),
            bsplit_from(t@, i as int, 47) =~= gs.skip(out@.len() as int),
            out@.len() <= gs.len(),
            forall|m: int|
                0 <= m < out@.len() ==> parse_index(#[trigger] gs[m]) == Some(out@[m]),
        decreases n - i,
    {
        let k: usize = seek_to_exec(t, i, 47);
        let seg: Option<u32> = parse_index_exec(slice_subrange(t, i, k));
        proof {
            let rest = bsplit_from(t@, i as int, 47);
            assert(rest[0] == t@.subrange(i as int, k as int));
            assert(rest.len() >= 1);
            vstd::seq_lib::lemma_seq_skip_index(gs, out@.len() as int, 0);
            assert(gs[out@.len() as int] == t@.subrange(i as int, k as int));
        }
        match seg {
            None => {
                return None;
            },
            Some(v) => {
                out.push(v);
            },
        }
        if k >= n {
            proof {
                let rest = bsplit_from(t@, i as int, 47);
                assert(rest =~= seq![t@.subrange(i as int, n as int)]);
                assert(gs.len() == out@.len());
                assert(forall|m: int|
                    0 <= m < gs.len() ==> parse_index(#[trigger] gs[m]).is_some());
                assert(out@ =~= Seq::new(gs.len(), |i: int| parse_index(gs[i]).unwrap()));
            }
            return Some(out);
        }
        proof {
            let rest = bsplit_from(t@, i as int, 47);
            let bs2 = bsplit_from(t@, k + 1, 47);
            assert(rest =~= seq![t@.subrange(i as int, k as int)] + bs2);
            gs.lemma_seq_skip_skip(out@.len() - 1);
            assert(rest.skip(1) =~= bs2);
            assert(bs2 =~= gs.skip(out@.len() as int));
        }
        i = k + 1;
    }
}

/// Scans forward from `i` to the first byte that differs from `sep`.
fn seek_non_exec(s: &[u8], i: usize, sep: u8) -> (r: usize)
    requires
        i <= s@.len(),
    ensures
        r == seek_non(s@, i as int, sep),
        i <= r <= s@.len(),
{
    let n: usize = s.len();
    let mut j: usize = i;
    while j < n && s[j] == sep
        invariant
            i <= j <= n,
            n == s@.len(),
            seek_non(s@, i as int, sep) == seek_non(s@, j as int, sep),
        decreases n - j,
    {
        j += 1;
    }
    proof {
        lemma_seek_non_bounds(s@, i as int, sep);
    }
    j
}

/// Scans forward from `i` to the first byte equal to `sep`.
fn seek_to_exec(s: &[u8], i: usize, sep: u8) -> (r: usize)
    requires
        i <= s@.len(),
    ensures
        r == seek_to(s@, i as int, sep),
        i <= r <= s@.len(),
{
    let n: usize = s.len();
    let mut j: usize = i;
    while j < n && s[j] != sep
        invariant
            i <= j <= n,
            n == s@.len(),
            seek_to(s@, i as int, sep) == seek_to(s@, j as int, sep),
        decreases n - j,
    {
        j += 1;
    }
    proof {
        lemma_seek_to_bounds(s@, i as int, sep);
    }
    j
}

/// Splits `s` into its whitespace-separated tokens.
#[verifier::loop_isolation(false)]
fn tokenize(s: &[u8]) -> (r: Vec<Vec<u8>>)
    ensures
        r@.map_values(|t: Vec<u8>| t@) == toks(s@),
{
    let n: usize = s.len();
    let mut out: Vec<Vec<u8>> = Vec::new();
    let mut i: usize = 0;
    loop
        invariant
            i <= n,
            n == s@.len(),
            toks(s@) == out@.map_values(|t: Vec<u8>| t@) + toks_from(s@, i as int),
        decreases n - i,
    {
        let j: usize = seek_non_exec(s, i, 32);
        if j >= n {
            proof {
                assert(toks_from(s@, i as int) =~= Seq::<Seq<u8>>::empty());
                assert(toks(s@) =~= out@.map_values(|t: Vec<u8>| t@));
            }
            return out;
        }
        let k: usize = seek_to_exec(s, j, 32);
        let t: Vec<u8> = slice_to_vec(slice_subrange(s, j, k));
        let ghost prev = out@.map_values(|t: Vec<u8>| t@);
        out.push(t);
        proof {
            lemma_seek_non_hit(s@, i as int, 32);
            lemma_seek_to_bounds(s@, j as int + 1, 32);
            assert(k > j);
            assert(out@.map_values(|t: Vec<u8>| t@) =~= prev + seq![s@.subrange(j as int, k as int)]);
            assert(toks_from(s@, i as int) == seq![s@.subrange(j as int, k as int)] + toks_from(
                s@,
                k as int,
            ));
            assert(toks(s@) =~= out@.map_values(|t: Vec<u8>| t@) + toks_from(s@, k as int));
        }
        i = k;
    }
}

/// The attribute arrays and faces accumulated while reading a mesh.
pub type ObjData = (Seq<Vertex3<i64>>, Seq<Vertex3<i64>>, Seq<Vertex3<i64>>, Seq<Face>);

/// A `v` or `vn` record: three decimal coordinates after the keyword;
/// further tokens are ignored.
pub open spec fn rec_vec3(tk: Seq<Seq<u8>>) -> Option<Vertex3<i64>> {
    if tk.len() >= 4 {
        match (parse_fixed(tk[1]), parse_fixed(tk[2]), parse_fixed(tk[3])) {
            (Some(x), Some(y), Some(z)) => Some(Vertex3 { x, y, z }),
            _ => None,
        }
    } else {
        None
    }
}

/// A `vt` record: two texture coordinates after the keyword, each
/// within [0, 1]; a third coordinate is ignored.
pub open spec fn rec_vt(tk: Seq<Seq<u8>>) -> Option<Vertex3<i64>> {
    if tk.len() >= 3 {
        match (parse_fixed(tk[1]), parse_fixed(tk[2])) {
            (Some(x), Some(y)) => if 0 <= x <= SCALE && 0 <= y <= SCALE {
                Some(Vertex3 { x, y, z: 0 })
            } else {
                None
            },
            _ => None,
        }
    } else {
        None
    }
}

/// An `f` record: three corner groups after the keyword, each at least
/// a vertex/texture/normal index triple; further groups are ignored.
pub open spec fn rec_face(tk: Seq<Seq<u8>>) -> Option<Face> {
    if tk.len() >= 4 {
        match (parse_face_indices(tk[1]), parse_face_indices(tk[2]), parse_face_indices(tk[3])) {
            (Some(a), Some(b), Some(c)) => if a.len() >= 3 && b.len() >= 3 && c.len() >= 3 {
                Some(
                    Face {
                        vertexes: [a[0], b[0], c[0]],
                        textures: [a[1], b[1], c[1]],
                        normals: [a[2], b[2], c[2]],
                    },
                )
            } else {
                None
            },
            _ => None,
        }
    } else {
        None
    }
}

/// Applies one line of the mesh text to the accumulated data. A
/// trailing carriage return is dropped, a blank line or an unrecognized
/// keyword is ignored, and a malformed record fails the load.
pub open spec fn obj_line(acc: ObjData, line: Seq<u8>) -> Option<ObjData> {
    let l = if line.len() > 0 && line.last() == 13 {
        line.drop_last()
    } else {
        line
    };
    let tk = toks(l);
    if tk.len() == 0 {
        Some(acc)
    } else if tk[0] == seq![118u8] {
        match rec_vec3(tk) {
            Some(v) => Some((acc.0.push(v), acc.1, acc.2, acc.3)),
            None => None,
        }
    } else if tk[0] == seq![118u8, 116u8] {
        match rec_vt(tk) {
            Some(v) => Some((acc.0, acc.1.push(v), acc.2, acc.3)),
            None => None,
        }
    } else if tk[0] == seq![118u8, 110u8] {
        match rec_vec3(tk) {
            Some(v) => Some((acc.0, acc.1, acc.2.push(v), acc.3)),
            None => None,
        }
    } else if tk[0] == seq![102u8] {
        match rec_face(tk) {
            Some(f) => Some((acc.0, acc.1, acc.2, acc.3.push(f))),
            None => None,
        }
    } else {
        Some(acc)
    }
}

/// The data after the first `n` lines.
pub open spec fn parse_obj_upto(lines: Seq<Seq<u8>>, n: int) -> Option<ObjData>
    decreases n,
{
    if n <= 0 {
        Some(
            (
                Seq::<Vertex3<i64>>::empty(),
                Seq::<Vertex3<i64>>::empty(),
                Seq::<Vertex3<i64>>::empty(),
                Seq::<Face>::empty(),
            ),
        )
    } else {
        match parse_obj_upto(lines, n - 1) {
            Some(acc) => obj_line(acc, lines[n - 1]),
            None => None,
        }
    }
}

/// The data parsed from the whole mesh text, line by line.
pub open spec fn parse_obj(s: Seq<u8>) -> Option<ObjData> {
    parse_obj_upto(bsplit(s, 10), bsplit(s, 10).len() as int)
}

/// Every face of the parsed data indexes inside the attribute arrays.
pub open spec fn data_in_bounds(d: ObjData) -> bool {
    forall|i: int|
        0 <= i < d.3.len() ==> face_in_bounds(
            #[trigger] d.3[i],
            d.0.len() as int,
            d.1.len() as int,
            d.2.len() as int,
        )
}

/// The mesh text loads: it parses and its faces stay in bounds.
pub open spec fn obj_ok(s: Seq<u8>) -> bool {
    &&& parse_obj(s).is_some()
    &&& data_in_bounds(parse_obj(s).unwrap())
}

/// A failed parse stays failed however many more lines follow.
proof fn lemma_parse_obj_none(lines: Seq<Seq<u8>>, a: int, b: int)
    requires
        0 <= a <= b,
        parse_obj_upto(lines, a) is None,
    ensures
        parse_obj_upto(lines, b) is None,
    decreases b - a,
{
    if a < b {
        lemma_parse_obj_none(lines, a, b - 1);
    }
}

/// Applies one line of mesh text to the accumulating vectors.
#[verifier::loop_isolation(false)]
fn apply_line(
    line: &[u8],
    verts: &mut Vec<Vertex3<i64>>,
    textures: &mut Vec<Vertex3<i64>>,
    normals: &mut Vec<Vertex3<i64>>,
    faces: &mut Vec<Face>,
) -> (ok: bool)
    ensures
        ok == obj_line((old(verts)@, old(textures)@, old(normals)@, old(faces)@), line@).is_some(),
        ok ==> obj_line((old(verts)@, old(textures)@, old(normals)@, old(faces)@), line@) == Some(
            (final(verts)@, final(textures)@, final(normals)@, final(faces)@),
        ),
        ok ==> forall|m: int|
            old(verts)@.len() <= m < final(verts)@.len() ==> v3_bounded(
                #[trigger] final(verts)@[m],
                VERT_LIMIT as int,
            ),
        ok ==> forall|m: int|
            old(normals)@.len() <= m < final(normals)@.len() ==> v3_bounded(
                #[trigger] final(normals)@[m],
                VERT_LIMIT as int,
            ),
        ok ==> forall|m: int|
            old(textures)@.len() <= m < final(textures)@.len()
                ==> (0 <= (#[trigger] final(textures)@[m]).x <= SCALE
                && 0 <= final(textures)@[m].y <= SCALE
                && 0 <= final(textures)@[m].z <= SCALE),
{
    let n: usize = line.len();
    let stripped: &[u8] = if n > 0 && line[n - 1] == 13 {
        slice_subrange(line, 0, n - 1)
    } else {
        line
    };
    proof {
        if n > 0 && line@[n - 1] == 13 {
            assert(stripped@ =~= line@.drop_last());
        }
    }
    let tokens: Vec<Vec<u8>> = tokenize(stripped);
    let ghost tk = toks(stripped@);
    proof {
        assert(tokens@.len() == tk.len());
    }
    if tokens.len() == 0 {
        return true;
    }
    proof {
        assert(tokens@.map_values(|t: Vec<u8>| t@)[0] == tokens@[0]@);
        assert(tokens@[0]@ == tk[0]);
    }
    let t0_len: usize = tokens[0].len();
    let t0_first: u8 = if t0_len > 0 {
        tokens[0][0]
    } else {
        0
    };
    let is_v: bool = t0_len == 1 && t0_first == 118;
    let is_vt: bool = t0_len == 2 && t0_first == 118 && tokens[0][1] == 116;
    let is_vn: bool = t0_len == 2 && t0_first == 118 && tokens[0][1] == 110;
    let is_f: bool = t0_len == 1 && t0_first == 102;
    proof {
        assert(is_v == (tk[0] == seq![118u8])) by {
            if is_v {
                assert(tk[0] =~= seq![118u8]);
            }
        }
        assert(is_vt == (tk[0] == seq![118u8, 116u8])) by {
            if is_vt {
                assert(tk[0] =~= seq![118u8, 116u8]);
            }
        }
        assert(is_vn == (tk[0] == seq![118u8, 110u8])) by {
            if is_vn {
                assert(tk[0] =~= seq![118u8, 110u8]);
            }
        }
        assert(is_f == (tk[0] == seq![102u8])) by {
            if is_f {
                assert(tk[0] =~= seq![102u8]);
            }
        }
    }
    if is_v || is_vn {
        if tokens.len() < 4 {
            return false;
        }
        proof {
            assert(tokens@.map_values(|t: Vec<u8>| t@)[1] == tokens@[1]@);
            assert(tokens@.map_values(|t: Vec<u8>| t@)[2] == tokens@[2]@);
            assert(tokens@.map_values(|t: Vec<u8>| t@)[3] == tokens@[3]@);
        }
        let p1: Option<i64> = parse_fixed_exec(tokens[1].as_slice());
        let p2: Option<i64> = parse_fixed_exec(tokens[2].as_slice());
        let p3: Option<i64> = parse_fixed_exec(tokens[3].as_slice());
        match (p1, p2, p3) {
            (Some(x), Some(y), Some(z)) => {
                if is_v {
                    verts.push(Vertex3 { x, y, z });
                } else {
                    normals.push(Vertex3 { x, y, z });
                }
                true
            },
            _ => false,
        }
    } else if is_vt {
        if tokens.len() < 3 {
            return false;
        }
        proof {
            assert(tokens@.map_values(|t: Vec<u8>| t@)[1] == tokens@[1]@);
            assert(tokens@.map_values(|t: Vec<u8>| t@)[2] == tokens@[2]@);
        }
        let p1: Option<i64> = parse_fixed_exec(tokens[1].as_slice());
        let p2: Option<i64> = parse_fixed_exec(tokens[2].as_slice());
        match (p1, p2) {
            (Some(x), Some(y)) => {
                if 0 <= x && x <= SCALE && 0 <= y && y <= SCALE {
                    textures.push(Vertex3 { x, y, z: 0 });
                    true
                } else {
                    false
                }
            },
            _ => false,
        }
    } else if is_f {
        if tokens.len() < 4 {
            return false;
        }
        proof {
            assert(tokens@.map_values(|t: Vec<u8>| t@)[1] == tokens@[1]@);
            assert(tokens@.map_values(|t: Vec<u8>| t@)[2] == tokens@[2]@);
            assert(tokens@.map_values(|t: Vec<u8>| t@)[3] == tokens@[3]@);
        }
        let g0: Option<Vec<u32>> = parse_face_bytes(tokens[1].as_slice());
        let g1: Option<Vec<u32>> = parse_face_bytes(tokens[2].as_slice());
        let g2: Option<Vec<u32>> = parse_face_bytes(tokens[3].as_slice());
        match (g0, g1, g2) {
            (Some(a), Some(b), Some(c)) => {
                if a.len() < 3 || b.len() < 3 || c.len() < 3 {
                    return false;
                }
                let f = Face {
                    vertexes: [a[0], b[0], c[0]],
                    textures: [a[1], b[1], c[1]],
                    normals: [a[2], b[2], c[2]],
                };
                proof {
                    let sf = rec_face(tk).unwrap();
                    assert(f.vertexes =~= sf.vertexes);
                    assert(f.textures =~= sf.textures);
                    assert(f.normals =~= sf.normals);
                }
                faces.push(f);
                true
            },
            _ => false,
        }
    } else {
        true
    }
}

impl Model {
    /// Loads a mesh from Wavefront-style text and pairs it with the
    /// diffuse texture, flipped vertically to match the sampling
    /// convention. Fails on any malformed record, any coordinate out of
    /// range, and any face index past its attribute array.
    #[verifier::loop_isolation(false)]
    pub fn new(source: &str, texture_image: Image) -> (r: Result<Model, LoadError>)
        requires
            texture_image.wf(),
            1 <= texture_image.width <= 0x8000,
            1 <= texture_image.height <= 0x8000,
        ensures
            r.is_ok() == obj_ok(source.spec_bytes()),
            r.is_ok() ==> ({
                let d = parse_obj(source.spec_bytes()).unwrap();
                let m = r.unwrap();
                &&& m.verts@ == d.0
                &&& m.textures@ == d.1
                &&& m.normals@ == d.2
                &&& m.faces@ == d.3
                &&& m.wf()
                &&& m.texture_image.width == texture_image.width
                &&& m.texture_image.height == texture_image.height
                &&& forall|x: int, y: int|
                    0 <= x < texture_image.width && 0 <= y < texture_image.height
                        ==> #[trigger] m.texture_image.at(x, y) == texture_image.at(
                        x,
                        texture_image.height - 1 - y,
                    )
            }),
    {
        let bytes: &[u8] = source.as_bytes();
        let n: usize = bytes.len();
        let ghost lines = bsplit(bytes@, 10);
        let mut verts: Vec<Vertex3<i64>> = Vec::new();
        let mut textures: Vec<Vertex3<i64>> = Vec::new();
        let mut normals: Vec<Vertex3<i64>> = Vec::new();
        let mut faces: Vec<Face> = Vec::new();
        let mut i: usize = 0;
        let ghost mut cnt: int = 0;
        loop
            invariant
                i <= n,
                0 <= cnt <= lines.len(),
                bsplit_from(bytes@, i as int, 10) =~= lines.skip(cnt),
                parse_obj_upto(lines, cnt) == Some((verts@, textures@, normals@, faces@)),
                forall|m: int|
                    0 <= m < verts@.len() ==> v3_bounded(#[trigger] verts@[m], VERT_LIMIT as int),
                forall|m: int|
                    0 <= m < normals@.len() ==> v3_bounded(
                        #[trigger] normals@[m],
                        VERT_LIMIT as int,
                    ),
                forall|m: int|
                    0 <= m < textures@.len() ==> (0 <= (#[trigger] textures@[m]).x <= SCALE && 0
                        <= textures@[m].y <= SCALE && 0 <= textures@[m].z <= SCALE),
            decreases n - i,
        {
            let k: usize = seek_to_exec(bytes, i, 10);
            proof {
                let rest = bsplit_from(bytes@, i as int, 10);
                assert(rest[0] == bytes@.subrange(i as int, k as int));
                assert(rest.len() >= 1);
                vstd::seq_lib::lemma_seq_skip_index(lines, cnt, 0);
                assert(lines[cnt] == bytes@.subrange(i as int, k as int));
            }
            let ok: bool = apply_line(
                slice_subrange(bytes, i, k),
                &mut verts,
                &mut textures,
                &mut normals,
                &mut faces,
            );
            proof {
                cnt = cnt + 1;
            }
            if !ok {
                proof {
                    lemma_parse_obj_none(lines, cnt, lines.len() as int);
                }
                return Err(LoadError);
            }
            if k >= n {
                proof {
                    let rest = bsplit_from(bytes@, i as int, 10);
                    assert(rest =~= seq![bytes@.subrange(i as int, n as int)]);
                    assert(cnt == lines.len());
                }
                let nverts: usize = verts.len();
                let ntex: usize = textures.len();
                let nnorm: usize = normals.len();
                let mut fi: usize = 0;
                while fi < faces.len()
                    invariant
                        fi <= faces@.len(),
                        forall|m: int|
                            0 <= m < fi ==> face_in_bounds(
                                #[trigger] faces@[m],
                                nverts as int,
                                ntex as int,
                                nnorm as int,
                            ),
                    decreases faces@.len() - fi,
                {
                    let f: Face = faces[fi];
                    let mut j: usize = 0;
                    while j < 3
                        invariant
                            j <= 3,
                            f == faces@[fi as int],
                            fi < faces@.len(),
                            forall|m: int| 0 <= m < j ==> (#[trigger] f.vertexes[m]) < nverts,
                            forall|m: int| 0 <= m < j ==> (#[trigger] f.textures[m]) < ntex,
                            forall|m: int| 0 <= m < j ==> (#[trigger] f.normals[m]) < nnorm,
                        decreases 3 - j,
                    {
                        if (f.vertexes[j] as usize) >= nverts || (f.textures[j] as usize) >= ntex
                            || (f.normals[j] as usize) >= nnorm {
                            proof {
                                assert(!face_in_bounds(
                                    faces@[fi as int],
                                    nverts as int,
                                    ntex as int,
                                    nnorm as int,
                                ));
                                let d = (verts@, textures@, normals@, faces@);
                                assert_by_contradiction!(!data_in_bounds(d), {
                                    assert(face_in_bounds(
                                        d.3[fi as int],
                                        d.0.len() as int,
                                        d.1.len() as int,
                                        d.2.len() as int,
                                    ));
                                });
                            }
                            return Err(LoadError);
                        }
                        j += 1;
                    }
                    fi += 1;
                }
                let model = Model {
                    verts,
                    textures,
                    normals,
                    faces,
                    texture_image: texture_image.flipv(),
                };
                return Ok(model);
            }
            proof {
                let rest = bsplit_from(bytes@, i as int, 10);
                let bs2 = bsplit_from(bytes@, (k + 1) as int, 10);
                assert(rest =~= seq![bytes@.subrange(i as int, k as int)] + bs2);
                lines.lemma_seq_skip_skip(cnt - 1);
                assert(rest.skip(1) =~= bs2);
                assert(bs2 =~= lines.skip(cnt));
            }
            i = k + 1;
        }
    }
}

} // verus!
