//! The rendering pipeline: per-triangle shading state, the camera,
//! perspective and viewport transform builders, and the barycentric
//! triangle rasterizer with depth testing.

use crate::buffer::{Color, DepthBuffer, Image};
use crate::fixed::{div_trunc, iabs, tdiv, SCALE};
use crate::geometry::{
    bary_den, bary_u, bary_v, cross_spec, dot3, lemma_abs_product, lemma_abs_product2,
    lemma_bounded_product, lemma_tdiv_magnitude, lemma_tdiv_self_bound, norm_spec, norm_sq,
    v3_bounded, v3_normalize_spec, v3_sub_spec, Matrix4, Vertex3,
};
use crate::model::{face_in_bounds, Face, Model};
use vstd::arithmetic::mul::{lemma_mul_inequality, lemma_mul_is_commutative};
use vstd::prelude::*;

verus! {

/// Bound on camera vectors fed to the transform builders.
pub const CAM_LIMIT: i64 = 0x800_0000;

/// Bound on screen dimensions and screen vertex coordinates accepted by
/// the rasterizer.
pub const RASTER_LIMIT: i64 = 0x4000;

/// Bound on the depth component of a screen vertex.
pub const DEPTH_LIMIT: i64 = 0x100_0000;

/// Bound on a captured per-vertex light intensity: the dot product of
/// a loaded normal with a light direction of magnitude at most two,
/// scaled down, stays below this.
pub const INTENSITY_LIMIT: i64 = 0x1_0000_0000;

/// Fixed-point barycentric weights as handed to a fragment shader: each
/// weight of a covered pixel lies in [0, 1].
pub open spec fn unit_weights(bar: Vertex3<i64>) -> bool {
    &&& 0 <= bar.x <= SCALE
    &&& 0 <= bar.y <= SCALE
    &&& 0 <= bar.z <= SCALE
}

/// A per-triangle fragment shader: constructed once per triangle, and
/// asked once per covered pixel for the pixel's color, given the pixel's
/// barycentric weights.
pub trait Shader {
    /// The shader's own consistency condition.
    spec fn wf(&self) -> bool;

    /// The color produced for the weights `bar`.
    spec fn color_spec(&self, bar: Vertex3<i64>) -> Color;

    /// Whether the fragment is kept.
    spec fn keep_spec(&self, bar: Vertex3<i64>) -> bool;

    fn fragment(&self, bar: Vertex3<i64>, pixel: &mut Color) -> (keep: bool)
        requires
            self.wf(),
            unit_weights(bar),
        ensures
            *final(pixel) == self.color_spec(bar),
            keep == self.keep_spec(bar),
    ;
}

/// Marker for one rendered scene; a driver owns one per window or
/// output image.
pub struct Scene {}

/// Gouraud shading: per-vertex light intensity and texture coordinates,
/// captured when the triangle starts, interpolated per pixel.
pub struct GouradShader<'a> {
    pub varying_intensity: Vertex3<i64>,
    pub varying_uv: [Vertex3<i64>; 3],
    pub model: &'a Model,
}

/// `v` clamped into `[lo, hi]`.
pub open spec fn clamp_spec(v: int, lo: int, hi: int) -> int {
    if v < lo {
        lo
    } else if v > hi {
        hi
    } else {
        v
    }
}

/// The captured light intensity of corner `i`:
/// `max(0, normal . light_dir)`, the dot product of the corner's normal
/// with the light direction, scaled down, floored at zero. It is not
/// clamped above: an overbright intensity is carried through and only
/// the final 8-bit color write clamps.
pub open spec fn corner_intensity(m: &Model, f: &Face, i: int, light_dir: Vertex3<i64>) -> int {
    let d = tdiv(dot3(m.normals@[f.normals[i] as int], light_dir), SCALE as int);
    if d < 0 {
        0
    } else {
        d
    }
}

impl<'a> GouradShader<'a> {
    /// Captures the per-vertex varyings of `face`: each corner's texture
    /// coordinate, and its light intensity `max(0, normal . light)`.
    pub fn new(model: &'a Model, face: &Face, light_dir: Vertex3<i64>) -> (r: GouradShader<'a>)
        requires
            model.wf(),
            face_in_bounds(
                *face,
                model.verts@.len() as int,
                model.textures@.len() as int,
                model.normals@.len() as int,
            ),
            v3_bounded(light_dir, 2 * SCALE as int),
        ensures
            r.model == model,
            r.varying_uv[0] == model.textures@[face.textures[0] as int],
            r.varying_uv[1] == model.textures@[face.textures[1] as int],
            r.varying_uv[2] == model.textures@[face.textures[2] as int],
            r.varying_intensity.x == corner_intensity(model, face, 0, light_dir),
            r.varying_intensity.y == corner_intensity(model, face, 1, light_dir),
            r.varying_intensity.z == corner_intensity(model, face, 2, light_dir),
            r.wf(),
    {
        let i0: i64 = Self::intensity_at(model, face, 0, light_dir);
        let i1: i64 = Self::intensity_at(model, face, 1, light_dir);
        let i2: i64 = Self::intensity_at(model, face, 2, light_dir);
        let t0: Vertex3<i64> = model.textures[face.get_texture(0) as usize];
        let t1: Vertex3<i64> = model.textures[face.get_texture(1) as usize];
        let t2: Vertex3<i64> = model.textures[face.get_texture(2) as usize];
        GouradShader {
            varying_intensity: Vertex3 { x: i0, y: i1, z: i2 },
            varying_uv: [t0, t1, t2],
            model,
        }
    }

    /// One corner's light intensity, floored at zero.
    fn intensity_at(model: &Model, face: &Face, i: usize, light_dir: Vertex3<i64>) -> (r: i64)
        requires
            model.wf(),
            face_in_bounds(
                *face,
                model.verts@.len() as int,
                model.textures@.len() as int,
                model.normals@.len() as int,
            ),
            i < 3,
            v3_bounded(light_dir, 2 * SCALE as int),
        ensures
            r == corner_intensity(model, face, i as int, light_dir),
            0 <= r < INTENSITY_LIMIT,
    {
        let normal: Vertex3<i64> = model.normals[face.get_normal(i) as usize];
        proof {
            lemma_abs_product2(
                normal.x as int,
                crate::model::VERT_LIMIT as int,
                light_dir.x as int,
                2 * SCALE as int,
            );
            lemma_abs_product2(
                normal.y as int,
                crate::model::VERT_LIMIT as int,
                light_dir.y as int,
                2 * SCALE as int,
            );
            lemma_abs_product2(
                normal.z as int,
                crate::model::VERT_LIMIT as int,
                light_dir.z as int,
                2 * SCALE as int,
            );
        }
        let d: i64 = normal * light_dir;
        proof {
            lemma_tdiv_magnitude(d as int, SCALE as int, 0xC000_0000);
        }
        let s: i64 = div_trunc(d, SCALE);
        if s < 0 {
            0
        } else {
            s
        }
    }
}

/// The interpolated intensity at weights `bar`.
pub open spec fn gourad_intensity(s: GouradShader<'_>, bar: Vertex3<i64>) -> int {
    tdiv(dot3(s.varying_intensity, bar), SCALE as int)
}

/// The interpolated texture coordinate at weights `bar`: the weighted
/// sum of the three corner coordinates, component-wise.
pub open spec fn gourad_uv(s: GouradShader<'_>, bar: Vertex3<i64>) -> Vertex3<i64> {
    Vertex3 {
        x: (tdiv(s.varying_uv[0].x * bar.x, SCALE as int) + tdiv(
            s.varying_uv[1].x * bar.y,
            SCALE as int,
        ) + tdiv(s.varying_uv[2].x * bar.z, SCALE as int)) as i64,
        y: (tdiv(s.varying_uv[0].y * bar.x, SCALE as int) + tdiv(
            s.varying_uv[1].y * bar.y,
            SCALE as int,
        ) + tdiv(s.varying_uv[2].y * bar.z, SCALE as int)) as i64,
        z: (tdiv(s.varying_uv[0].z * bar.x, SCALE as int) + tdiv(
            s.varying_uv[1].z * bar.y,
            SCALE as int,
        ) + tdiv(s.varying_uv[2].z * bar.z, SCALE as int)) as i64,
    }
}

/// One color channel lit by the interpolated intensity, clamped to the
/// 8-bit range.
pub open spec fn lit_channel(c: u8, inten: int) -> u8 {
    clamp_spec(tdiv(c * inten, SCALE as int), 0, 255) as u8
}

/// `0 <= a <= s` and `0 <= b <= s` keep the fixed-point product
/// `a * b / s` inside `[0, s]`.
proof fn lemma_unit_product(a: int, b: int, s: int)
    requires
        0 <= a <= s,
        0 <= b <= s,
        1 <= s,
    ensures
        0 <= tdiv(a * b, s) <= s,
{
    vstd::arithmetic::mul::lemma_mul_nonnegative(a, b);
    lemma_mul_inequality(a, s, b);
    lemma_mul_is_commutative(s, b);
    lemma_tdiv_magnitude(a * b, s, b);
}

impl<'a> Shader for GouradShader<'a> {
    /// The model is sound, the captured intensities are nonnegative and
    /// bounded, and the captured texture coordinates are normalized.
    open spec fn wf(&self) -> bool {
        &&& self.model.wf()
        &&& 0 <= self.varying_intensity.x < INTENSITY_LIMIT
        &&& 0 <= self.varying_intensity.y < INTENSITY_LIMIT
        &&& 0 <= self.varying_intensity.z < INTENSITY_LIMIT
        &&& forall|i: int|
            0 <= i < 3 ==> (0 <= (#[trigger] self.varying_uv[i]).x <= SCALE && 0
                <= self.varying_uv[i].y <= SCALE && 0 <= self.varying_uv[i].z <= SCALE)
    }

    /// Samples the texture at the interpolated coordinate and scales it
    /// by the interpolated intensity.
    open spec fn color_spec(&self, bar: Vertex3<i64>) -> Color {
        let c = self.model.uv_spec(gourad_uv(*self, bar));
        let inten = gourad_intensity(*self, bar);
        Color { r: lit_channel(c.r, inten), g: lit_channel(c.g, inten), b: lit_channel(c.b, inten) }
    }

    open spec fn keep_spec(&self, bar: Vertex3<i64>) -> bool {
        true
    }

    fn fragment(&self, bar: Vertex3<i64>, pixel: &mut Color) -> (keep: bool) {
        proof {
            lemma_abs_product2(
                self.varying_intensity.x as int,
                INTENSITY_LIMIT as int,
                bar.x as int,
                SCALE as int,
            );
            lemma_abs_product2(
                self.varying_intensity.y as int,
                INTENSITY_LIMIT as int,
                bar.y as int,
                SCALE as int,
            );
            lemma_abs_product2(
                self.varying_intensity.z as int,
                INTENSITY_LIMIT as int,
                bar.z as int,
                SCALE as int,
            );
            vstd::arithmetic::mul::lemma_mul_nonnegative(
                self.varying_intensity.x as int,
                bar.x as int,
            );
            vstd::arithmetic::mul::lemma_mul_nonnegative(
                self.varying_intensity.y as int,
                bar.y as int,
            );
            vstd::arithmetic::mul::lemma_mul_nonnegative(
                self.varying_intensity.z as int,
                bar.z as int,
            );
            lemma_tdiv_magnitude(
                dot3(self.varying_intensity, bar),
                SCALE as int,
                3 * INTENSITY_LIMIT as int,
            );
            vstd::arithmetic::div_mod::lemma_div_pos_is_pos(
                iabs(dot3(self.varying_intensity, bar)),
                SCALE as int,
            );
        }
        let inten: i64 = div_trunc(self.varying_intensity * bar, SCALE);
        proof {
            lemma_unit_product(self.varying_uv[0].x as int, bar.x as int, SCALE as int);
            lemma_unit_product(self.varying_uv[1].x as int, bar.y as int, SCALE as int);
            lemma_unit_product(self.varying_uv[2].x as int, bar.z as int, SCALE as int);
            lemma_unit_product(self.varying_uv[0].y as int, bar.x as int, SCALE as int);
            lemma_unit_product(self.varying_uv[1].y as int, bar.y as int, SCALE as int);
            lemma_unit_product(self.varying_uv[2].y as int, bar.z as int, SCALE as int);
            lemma_unit_product(self.varying_uv[0].z as int, bar.x as int, SCALE as int);
            lemma_unit_product(self.varying_uv[1].z as int, bar.y as int, SCALE as int);
            lemma_unit_product(self.varying_uv[2].z as int, bar.z as int, SCALE as int);
        }
        let uv: Vertex3<i64> = (self.varying_uv[0] * bar.x) + (self.varying_uv[1] * bar.y)
            + (self.varying_uv[2] * bar.z);
        let texture_pixel: Color = self.model.uv(uv);
        let r: u8 = Self::lit(texture_pixel.r, inten);
        let g: u8 = Self::lit(texture_pixel.g, inten);
        let b: u8 = Self::lit(texture_pixel.b, inten);
        pixel.r = r;
        pixel.g = g;
        pixel.b = b;
        true
    }
}

impl<'a> GouradShader<'a> {
    /// One channel scaled by the intensity, clamped to [0, 255].
    fn lit(c: u8, inten: i64) -> (r: u8)
        requires
            0 <= inten <= 3 * INTENSITY_LIMIT,
        ensures
            r == lit_channel(c, inten as int),
    {
        proof {
            lemma_abs_product2(c as int, 255, inten as int, 3 * INTENSITY_LIMIT as int);
            lemma_tdiv_self_bound(c as int * inten as int, SCALE as int);
        }
        let v: i64 = div_trunc((c as i64) * inten, SCALE);
        if v < 0 {
            0
        } else if v > 255 {
            255
        } else {
            v as u8
        }
    }
}

pub open spec fn imin(a: int, b: int) -> int {
    if a < b {
        a
    } else {
        b
    }
}

pub open spec fn imax(a: int, b: int) -> int {
    if a > b {
        a
    } else {
        b
    }
}

/// The numerator of the barycentric weight of `vs[2]` at pixel
/// `(px, py)`.
pub open spec fn tri_u(vs: [Vertex3<i64>; 3], px: int, py: int) -> int {
    bary_u(
        vs[0].x as int,
        vs[0].y as int,
        vs[1].x as int,
        vs[1].y as int,
        vs[2].x as int,
        vs[2].y as int,
        px,
        py,
    )
}

/// The numerator of the barycentric weight of `vs[1]` at pixel
/// `(px, py)`.
pub open spec fn tri_v(vs: [Vertex3<i64>; 3], px: int, py: int) -> int {
    bary_v(
        vs[0].x as int,
        vs[0].y as int,
        vs[1].x as int,
        vs[1].y as int,
        vs[2].x as int,
        vs[2].y as int,
        px,
        py,
    )
}

/// The common denominator: twice the triangle's signed screen area.
pub open spec fn tri_den(vs: [Vertex3<i64>; 3]) -> int {
    bary_den(
        vs[0].x as int,
        vs[0].y as int,
        vs[1].x as int,
        vs[1].y as int,
        vs[2].x as int,
        vs[2].y as int,
    )
}

/// The numerator of the barycentric weight of `vs[0]`.
pub open spec fn tri_w0(vs: [Vertex3<i64>; 3], px: int, py: int) -> int {
    tri_den(vs) - tri_u(vs, px, py) - tri_v(vs, px, py)
}

/// The pixel lies inside (or on the edge of) the triangle: the triangle
/// is not degenerate and every barycentric weight is nonnegative, that
/// is, every numerator has the sign of the denominator.
pub open spec fn tri_covered(vs: [Vertex3<i64>; 3], px: int, py: int) -> bool {
    let den = tri_den(vs);
    &&& den != 0
    &&& tri_w0(vs, px, py) * den >= 0
    &&& tri_v(vs, px, py) * den >= 0
    &&& tri_u(vs, px, py) * den >= 0
}

/// The interpolated depth at the pixel: the barycentric combination of
/// the three vertex depths, as one truncated division.
pub open spec fn tri_depth(vs: [Vertex3<i64>; 3], px: int, py: int) -> int {
    tdiv(
        tri_w0(vs, px, py) * vs[0].z + tri_v(vs, px, py) * vs[1].z + tri_u(vs, px, py) * vs[2].z,
        tri_den(vs),
    )
}

/// The fixed-point barycentric weights handed to the shader at the
/// pixel.
pub open spec fn tri_bar(vs: [Vertex3<i64>; 3], px: int, py: int) -> Vertex3<i64> {
    let u = tri_u(vs, px, py);
    let v = tri_v(vs, px, py);
    let den = tri_den(vs);
    Vertex3 {
        x: (SCALE - tdiv((u + v) * SCALE, den)) as i64,
        y: tdiv(v * SCALE, den) as i64,
        z: tdiv(u * SCALE, den) as i64,
    }
}

/// The pixel lies in the triangle's screen bounding box, clamped to the
/// buffer.
pub open spec fn tri_in_bbox(vs: [Vertex3<i64>; 3], px: int, py: int, w: int, h: int) -> bool {
    &&& imax(0, imin(vs[0].x as int, imin(vs[1].x as int, vs[2].x as int))) <= px <= imin(
        w - 1,
        imax(vs[0].x as int, imax(vs[1].x as int, vs[2].x as int)),
    )
    &&& imax(0, imin(vs[0].y as int, imin(vs[1].y as int, vs[2].y as int))) <= py <= imin(
        h - 1,
        imax(vs[0].y as int, imax(vs[1].y as int, vs[2].y as int)),
    )
}

/// The rasterizer writes the pixel: it lies in the clamped bounding
/// box, it is covered by the triangle, and its interpolated depth beats
/// the depth buffer.
pub open spec fn tri_writes(
    vs: [Vertex3<i64>; 3],
    px: int,
    py: int,
    w: int,
    h: int,
    z0: i64,
) -> bool {
    &&& tri_in_bbox(vs, px, py, w, h)
    &&& tri_covered(vs, px, py)
    &&& tri_depth(vs, px, py) > z0
}

/// The pixel has its final value: written with the shader's color and
/// its depth when the rasterizer writes it, untouched otherwise.
pub open spec fn pixel_done<S: Shader>(
    sh: &S,
    vs: [Vertex3<i64>; 3],
    px: int,
    py: int,
    img0: Image,
    zb0: DepthBuffer,
    img: Image,
    zb: DepthBuffer,
) -> bool {
    if tri_writes(vs, px, py, img0.width as int, img0.height as int, zb0.at(px, py)) {
        img.at(px, py) == sh.color_spec(tri_bar(vs, px, py)) && zb.at(px, py) == tri_depth(
            vs,
            px,
            py,
        )
    } else {
        img.at(px, py) == img0.at(px, py) && zb.at(px, py) == zb0.at(px, py)
    }
}

/// Scaling each coefficient of a weighted sum by the common
/// denominator scales the sum.
proof fn lemma_scaled_combination(
    a0: int,
    a1: int,
    a2: int,
    w0: int,
    w1: int,
    w2: int,
    den: int,
    x0: int,
    x1: int,
    x2: int,
    d2: int,
    p: int,
)
    requires
        a0 == w0 * den,
        a1 == w1 * den,
        a2 == w2 * den,
        d2 == den * den,
        w0 * x0 + w1 * x1 + w2 * x2 == den * p,
    ensures
        d2 * p == a0 * x0 + a1 * x1 + a2 * x2,
{
    assert(a0 * x0 == den * (w0 * x0)) by (nonlinear_arith)
        requires
            a0 == w0 * den,
    ;
    assert(a1 * x1 == den * (w1 * x1)) by (nonlinear_arith)
        requires
            a1 == w1 * den,
    ;
    assert(a2 * x2 == den * (w2 * x2)) by (nonlinear_arith)
        requires
            a2 == w2 * den,
    ;
    assert(den * (w0 * x0) + den * (w1 * x1) + den * (w2 * x2) == den * (w0 * x0 + w1 * x1 + w2
        * x2)) by (nonlinear_arith);
    assert(den * (den * p) == d2 * p) by (nonlinear_arith)
        requires
            d2 == den * den,
    ;
}

/// A scaled convex combination stays between the extremes of its
/// points.
proof fn lemma_convex_bound(a0: int, a1: int, a2: int, x0: int, x1: int, x2: int, d2: int, p: int)
    requires
        a0 >= 0,
        a1 >= 0,
        a2 >= 0,
        d2 == a0 + a1 + a2,
        d2 > 0,
        d2 * p == a0 * x0 + a1 * x1 + a2 * x2,
    ensures
        imin(x0, imin(x1, x2)) <= p <= imax(x0, imax(x1, x2)),
{
    let lo = imin(x0, imin(x1, x2));
    let hi = imax(x0, imax(x1, x2));
    assert(a0 * x0 <= a0 * hi && a1 * x1 <= a1 * hi && a2 * x2 <= a2 * hi) by (nonlinear_arith)
        requires
            a0 >= 0 && a1 >= 0 && a2 >= 0,
            x0 <= hi && x1 <= hi && x2 <= hi,
    ;
    assert(a0 * lo <= a0 * x0 && a1 * lo <= a1 * x1 && a2 * lo <= a2 * x2) by (nonlinear_arith)
        requires
            a0 >= 0 && a1 >= 0 && a2 >= 0,
            lo <= x0 && lo <= x1 && lo <= x2,
    ;
    assert(a0 * hi + a1 * hi + a2 * hi == d2 * hi) by (nonlinear_arith)
        requires
            d2 == a0 + a1 + a2,
    ;
    assert(a0 * lo + a1 * lo + a2 * lo == d2 * lo) by (nonlinear_arith)
        requires
            d2 == a0 + a1 + a2,
    ;
    assert(lo <= p) by (nonlinear_arith)
        requires
            d2 > 0,
            d2 * lo <= d2 * p,
    ;
    assert(p <= hi) by (nonlinear_arith)
        requires
            d2 > 0,
            d2 * p <= d2 * hi,
    ;
}

/// Law: the bounding-box clamp loses nothing: every pixel of the
/// buffer that the triangle covers lies in the clamped bounding box, so
/// `tri_writes` reduces, for pixels of the buffer, to coverage plus the
/// depth test.
pub proof fn lemma_covered_pixel_in_bbox(
    vs: [Vertex3<i64>; 3],
    px: int,
    py: int,
    w: int,
    h: int,
)
    requires
        tri_covered(vs, px, py),
        0 <= px < w,
        0 <= py < h,
    ensures
        tri_in_bbox(vs, px, py, w, h),
{
    let u = tri_u(vs, px, py);
    let v = tri_v(vs, px, py);
    let den = tri_den(vs);
    let w0 = tri_w0(vs, px, py);
    crate::geometry::lemma_barycentric_reconstructs(
        vs[0].x as int,
        vs[0].y as int,
        vs[1].x as int,
        vs[1].y as int,
        vs[2].x as int,
        vs[2].y as int,
        px,
        py,
    );
    let a0 = w0 * den;
    let a1 = v * den;
    let a2 = u * den;
    let d2 = den * den;
    assert(d2 > 0) by (nonlinear_arith)
        requires
            den != 0,
            d2 == den * den,
    ;
    assert(d2 == a0 + a1 + a2) by (nonlinear_arith)
        requires
            w0 + v + u == den,
            a0 == w0 * den,
            a1 == v * den,
            a2 == u * den,
            d2 == den * den,
    ;
    let x0 = vs[0].x as int;
    let x1 = vs[1].x as int;
    let x2 = vs[2].x as int;
    let y0 = vs[0].y as int;
    let y1 = vs[1].y as int;
    let y2 = vs[2].y as int;
    lemma_scaled_combination(a0, a1, a2, w0, v, u, den, x0, x1, x2, d2, px);
    lemma_scaled_combination(a0, a1, a2, w0, v, u, den, y0, y1, y2, d2, py);
    lemma_convex_bound(a0, a1, a2, vs[0].x as int, vs[1].x as int, vs[2].x as int, d2, px);
    lemma_convex_bound(a0, a1, a2, vs[0].y as int, vs[1].y as int, vs[2].y as int, d2, py);
}

/// `b != 0`: a product with `b` is nonnegative exactly when the other
/// factor lies on `b`'s side of zero.
proof fn lemma_same_sign(a: int, b: int)
    requires
        b != 0,
    ensures
        b > 0 ==> ((a * b >= 0) <==> a >= 0),
        b < 0 ==> ((a * b >= 0) <==> a <= 0),
{
    assert(b > 0 ==> ((a * b >= 0) <==> a >= 0)) by (nonlinear_arith);
    assert(b < 0 ==> ((a * b >= 0) <==> a <= 0)) by (nonlinear_arith);
}

/// A weight numerator with the denominator's sign and magnitude at most
/// the denominator's gives a fixed-point weight in `[0, s]`.
proof fn lemma_weight_range(a: int, b: int, s: int)
    requires
        b != 0,
        a * b >= 0,
        iabs(a) <= iabs(b),
        0 <= s,
    ensures
        0 <= tdiv(a * s, b) <= s,
{
    lemma_same_sign(a, b);
    assert(iabs(a * s) == iabs(a) * s) by (nonlinear_arith)
        requires
            0 <= s,
    ;
    lemma_mul_inequality(iabs(a), iabs(b), s);
    vstd::arithmetic::div_mod::lemma_div_is_ordered(iabs(a) * s, iabs(b) * s, iabs(b));
    vstd::arithmetic::div_mod::lemma_div_by_multiple(s, iabs(b));
    lemma_mul_is_commutative(iabs(b), s);
    vstd::arithmetic::div_mod::lemma_div_pos_is_pos(iabs(a * s), iabs(b));
    if a > 0 && b > 0 || a < 0 && b < 0 || a == 0 {
        assert((a * s < 0) == (b < 0) || a * s == 0) by (nonlinear_arith)
            requires
                0 <= s,
                a * b >= 0,
                b != 0,
        ;
    }
}

/// Rasterizes the triangle with screen vertices `verts` into `image`,
/// depth-testing each pixel against `zbuffer`. Exactly the pixels of
/// the clamped bounding box that are covered by the triangle and whose
/// interpolated depth beats the stored depth are written: they take the
/// shader's color and their new depth; every other pixel and depth is
/// kept.
pub fn triangle<S: Shader>(
    verts: &[Vertex3<i64>; 3],
    shader: &S,
    zbuffer: &mut DepthBuffer,
    image: &mut Image,
)
    requires
        shader.wf(),
        old(zbuffer).wf(),
        old(image).wf(),
        old(image).width == old(zbuffer).width,
        old(image).height == old(zbuffer).height,
        old(image).width <= RASTER_LIMIT,
        old(image).height <= RASTER_LIMIT,
        forall|i: int|
            0 <= i < 3 ==> (-RASTER_LIMIT <= (#[trigger] verts[i]).x <= RASTER_LIMIT
                && -RASTER_LIMIT <= verts[i].y <= RASTER_LIMIT && -DEPTH_LIMIT <= verts[i].z
                <= DEPTH_LIMIT),
    ensures
        final(image).wf(),
        final(zbuffer).wf(),
        final(image).width == old(image).width,
        final(image).height == old(image).height,
        final(zbuffer).width == old(zbuffer).width,
        final(zbuffer).height == old(zbuffer).height,
        forall|px: int, py: int|
            0 <= px < old(image).width && 0 <= py < old(image).height ==> #[trigger] pixel_done(
                shader,
                *verts,
                px,
                py,
                *old(image),
                *old(zbuffer),
                *final(image),
                *final(zbuffer),
            ),
{
    let w: usize = image.width;
    let h: usize = image.height;
    let v0: Vertex3<i64> = verts[0];
    let v1: Vertex3<i64> = verts[1];
    let v2: Vertex3<i64> = verts[2];
    let mut bminx: i64 = v0.x;
    if v1.x < bminx {
        bminx = v1.x;
    }
    if v2.x < bminx {
        bminx = v2.x;
    }
    let mut bmaxx: i64 = v0.x;
    if v1.x > bmaxx {
        bmaxx = v1.x;
    }
    if v2.x > bmaxx {
        bmaxx = v2.x;
    }
    let mut bminy: i64 = v0.y;
    if v1.y < bminy {
        bminy = v1.y;
    }
    if v2.y < bminy {
        bminy = v2.y;
    }
    let mut bmaxy: i64 = v0.y;
    if v1.y > bmaxy {
        bmaxy = v1.y;
    }
    if v2.y > bmaxy {
        bmaxy = v2.y;
    }
    if bminx < 0 {
        bminx = 0;
    }
    if bmaxx > (w as i64) - 1 {
        bmaxx = (w as i64) - 1;
    }
    if bminy < 0 {
        bminy = 0;
    }
    if bmaxy > (h as i64) - 1 {
        bmaxy = (h as i64) - 1;
    }
    proof {
        assert(forall|px: int, py: int|
            tri_in_bbox(*verts, px, py, w as int, h as int) <==> (bminx <= px <= bmaxx && bminy
                <= py <= bmaxy));
    }
    if bminx > bmaxx || bminy > bmaxy {
        return ;
    }
    let mut x: usize = bminx as usize;
    while x <= bmaxx as usize
        invariant
            image.wf(),
            zbuffer.wf(),
            image.width == w,
            image.height == h,
            zbuffer.width == w,
            zbuffer.height == h,
            w == old(image).width,
            h == old(image).height,
            old(image).wf(),
            old(zbuffer).wf(),
            shader.wf(),
            v0 == verts[0] && v1 == verts[1] && v2 == verts[2],
            forall|i: int|
                0 <= i < 3 ==> (-RASTER_LIMIT <= (#[trigger] verts[i]).x <= RASTER_LIMIT
                    && -RASTER_LIMIT <= verts[i].y <= RASTER_LIMIT && -DEPTH_LIMIT <= verts[i].z
                    <= DEPTH_LIMIT),
            w <= RASTER_LIMIT,
            h <= RASTER_LIMIT,
            0 <= bminx <= bmaxx < w,
            0 <= bminy <= bmaxy < h,
            bminx <= x,
            x <= bmaxx + 1,
            forall|px: int, py: int|
                tri_in_bbox(*verts, px, py, w as int, h as int) <==> (bminx <= px <= bmaxx && bminy
                    <= py <= bmaxy),
            forall|px: int, py: int|
                0 <= px < w && 0 <= py < h && (bminx <= px <= bmaxx && bminy <= py <= bmaxy && px
                    < x) ==> #[trigger] pixel_done(
                    shader,
                    *verts,
                    px,
                    py,
                    *old(image),
                    *old(zbuffer),
                    *image,
                    *zbuffer,
                ),
            forall|px: int, py: int|
                0 <= px < w && 0 <= py < h && !(bminx <= px <= bmaxx && bminy <= py <= bmaxy && px
                    < x) ==> #[trigger] image.at(px, py) == old(image).at(px, py),
            forall|px: int, py: int|
                0 <= px < w && 0 <= py < h && !(bminx <= px <= bmaxx && bminy <= py <= bmaxy && px
                    < x) ==> #[trigger] zbuffer.at(px, py) == old(zbuffer).at(px, py),
        decreases bmaxx + 1 - x,
    {
        let mut y: usize = bminy as usize;
        while y <= bmaxy as usize
            invariant
                image.wf(),
                zbuffer.wf(),
                image.width == w,
                image.height == h,
                zbuffer.width == w,
                zbuffer.height == h,
                w == old(image).width,
                h == old(image).height,
                old(image).wf(),
                old(zbuffer).wf(),
                shader.wf(),
                v0 == verts[0] && v1 == verts[1] && v2 == verts[2],
                forall|i: int|
                    0 <= i < 3 ==> (-RASTER_LIMIT <= (#[trigger] verts[i]).x <= RASTER_LIMIT
                        && -RASTER_LIMIT <= verts[i].y <= RASTER_LIMIT && -DEPTH_LIMIT
                        <= verts[i].z <= DEPTH_LIMIT),
                w <= RASTER_LIMIT,
                h <= RASTER_LIMIT,
                0 <= bminx <= bmaxx < w,
                0 <= bminy <= bmaxy < h,
                bminx <= x <= bmaxx,
                bminy <= y,
                y <= bmaxy + 1,
                forall|px: int, py: int|
                    tri_in_bbox(*verts, px, py, w as int, h as int) <==> (bminx <= px <= bmaxx
                        && bminy <= py <= bmaxy),
                forall|px: int, py: int|
                    0 <= px < w && 0 <= py < h && (bminx <= px <= bmaxx && bminy <= py <= bmaxy && (
                    px < x || (px == x && py < y))) ==> #[trigger] pixel_done(
                        shader,
                        *verts,
                        px,
                        py,
                        *old(image),
                        *old(zbuffer),
                        *image,
                        *zbuffer,
                    ),
                forall|px: int, py: int|
                    0 <= px < w && 0 <= py < h && !(bminx <= px <= bmaxx && bminy <= py <= bmaxy
                        && (px < x || (px == x && py < y))) ==> #[trigger] image.at(px, py) == old(
                        image,
                    ).at(px, py),
                forall|px: int, py: int|
                    0 <= px < w && 0 <= py < h && !(bminx <= px <= bmaxx && bminy <= py <= bmaxy
                        && (px < x || (px == x && py < y))) ==> #[trigger] zbuffer.at(px, py)
                        == old(zbuffer).at(px, py),
            decreases bmaxy + 1 - y,
        {
            let px: i64 = x as i64;
            let py: i64 = y as i64;
            let a = Vertex3 { x: v2.x - v0.x, y: v1.x - v0.x, z: v0.x - px };
            let b = Vertex3 { x: v2.y - v0.y, y: v1.y - v0.y, z: v0.y - py };
            let u = Vertex3::cross(a, b);
            proof {
                lemma_abs_product(a.y as int, b.z as int, 0x8000);
                lemma_abs_product(a.z as int, b.y as int, 0x8000);
                lemma_abs_product(a.z as int, b.x as int, 0x8000);
                lemma_abs_product(a.x as int, b.z as int, 0x8000);
                lemma_abs_product(a.x as int, b.y as int, 0x8000);
                lemma_abs_product(a.y as int, b.x as int, 0x8000);
                assert(u.x == tri_u(*verts, px as int, py as int));
                assert(u.y == tri_v(*verts, px as int, py as int));
                assert(u.z == tri_den(*verts));
            }
            let w0n: i64 = u.z - u.x - u.y;
            let inside: bool = if u.z == 0 {
                false
            } else if u.z > 0 {
                w0n >= 0 && u.y >= 0 && u.x >= 0
            } else {
                w0n <= 0 && u.y <= 0 && u.x <= 0
            };
            proof {
                if u.z != 0 {
                    lemma_same_sign(w0n as int, u.z as int);
                    lemma_same_sign(u.y as int, u.z as int);
                    lemma_same_sign(u.x as int, u.z as int);
                }
                assert(inside == tri_covered(*verts, px as int, py as int));
            }
            if inside {
                proof {
                    lemma_abs_product2(w0n as int, 0x2_0000_0000, v0.z as int, DEPTH_LIMIT as int);
                    lemma_abs_product2(u.y as int, 0x2_0000_0000, v1.z as int, DEPTH_LIMIT as int);
                    lemma_abs_product2(u.x as int, 0x2_0000_0000, v2.z as int, DEPTH_LIMIT as int);
                }
                let znum: i64 = w0n * v0.z + u.y * v1.z + u.x * v2.z;
                let z: i64 = div_trunc(znum, u.z);
                proof {
                    lemma_tdiv_self_bound(znum as int, u.z as int);
                    assert(z == tri_depth(*verts, px as int, py as int));
                }
                proof {
                    assert(zbuffer.at(px as int, py as int) == old(zbuffer).at(px as int, py as int));
                }
                let zb: i64 = zbuffer.get(x, y);
                if zb < z {
                    let s: i64 = u.x + u.y;
                    proof {
                        lemma_weight_range(u.y as int, u.z as int, SCALE as int);
                        lemma_weight_range(u.x as int, u.z as int, SCALE as int);
                        assert(s * u.z >= 0 && iabs(s as int) <= iabs(u.z as int))
                            by (nonlinear_arith)
                            requires
                                s == u.x + u.y,
                                u.z == w0n + u.x + u.y,
                                (u.z > 0 && w0n >= 0 && u.y >= 0 && u.x >= 0) || (u.z < 0 && w0n
                                    <= 0 && u.y <= 0 && u.x <= 0),
                        ;
                        lemma_weight_range(s as int, u.z as int, SCALE as int);
                        lemma_bounded_product(s as int, 0x4_0000_0000, SCALE as int);
                        lemma_bounded_product(u.y as int, 0x2_0000_0000, SCALE as int);
                        lemma_bounded_product(u.x as int, 0x2_0000_0000, SCALE as int);
                    }
                    let bar = Vertex3 {
                        x: SCALE - div_trunc(s * SCALE, u.z),
                        y: div_trunc(u.y * SCALE, u.z),
                        z: div_trunc(u.x * SCALE, u.z),
                    };
                    proof {
                        assert(bar == tri_bar(*verts, px as int, py as int));
                        assert(unit_weights(bar));
                    }
                    let ghost img_pre = *image;
                    let ghost zb_pre = *zbuffer;
                    let mut pixel = Color { r: 255, g: 255, b: 255 };
                    shader.fragment(bar, &mut pixel);
                    zbuffer.set(x, y, z);
                    image.set(x, y, pixel);
                    proof {
                        assert(pixel_done(
                            shader,
                            *verts,
                            px as int,
                            py as int,
                            *old(image),
                            *old(zbuffer),
                            *image,
                            *zbuffer,
                        ));
                        assert forall|px2: int, py2: int|
                            0 <= px2 < w && 0 <= py2 < h && (bminx <= px2 <= bmaxx && bminy <= py2
                                <= bmaxy && (px2 < x || (px2 == x && py2 <= py)))
                                implies #[trigger] pixel_done(
                                shader,
                                *verts,
                                px2,
                                py2,
                                *old(image),
                                *old(zbuffer),
                                *image,
                                *zbuffer,
                            ) by {
                            if !(px2 == px as int && py2 == py as int) {
                                assert(image.at(px2, py2) == img_pre.at(px2, py2));
                                assert(zbuffer.at(px2, py2) == zb_pre.at(px2, py2));
                                assert(pixel_done(
                                    shader,
                                    *verts,
                                    px2,
                                    py2,
                                    *old(image),
                                    *old(zbuffer),
                                    img_pre,
                                    zb_pre,
                                ));
                            }
                        }
                    }
                } else {
                    proof {
                        assert(!tri_writes(
                            *verts,
                            px as int,
                            py as int,
                            w as int,
                            h as int,
                            old(zbuffer).at(px as int, py as int),
                        ));
                    }
                }
            } else {
                proof {
                    assert(!tri_writes(
                        *verts,
                        px as int,
                        py as int,
                        w as int,
                        h as int,
                        old(zbuffer).at(px as int, py as int),
                    ));
                }
            }
            y += 1;
        }
        x += 1;
    }
}

/// Law: the per-pixel depth test is order independent: updating a pixel
/// with two fragments of different depths ends in the same color and
/// depth whichever fragment comes first, so overlapping triangles at
/// different depths show the nearer one regardless of draw order.
pub open spec fn depth_apply(state: (i64, Color), z: i64, c: Color) -> (i64, Color) {
    if z > state.0 {
        (z, c)
    } else {
        state
    }
}

pub proof fn lemma_depth_order_independent(
    z0: i64,
    c0: Color,
    za: i64,
    ca: Color,
    zb: i64,
    cb: Color,
)
    requires
        za != zb,
    ensures
        depth_apply(depth_apply((z0, c0), za, ca), zb, cb) == depth_apply(
            depth_apply((z0, c0), zb, cb),
            za,
            ca,
        ),
{
}

/// The camera matrix: rows are the orthonormal basis aimed from `eye`
/// at `center` (right, up, backward), and the last column encodes the
/// negated center projected onto each basis vector.
pub open spec fn lookat_spec(eye: Vertex3<i64>, center: Vertex3<i64>, up: Vertex3<i64>) -> Matrix4 {
    let z = v3_normalize_spec(v3_sub_spec(eye, center));
    let x = v3_normalize_spec(cross_spec(up, z));
    let y = v3_normalize_spec(cross_spec(z, x));
    Matrix4 {
        m: [
            [x.x, x.y, x.z, (-tdiv(dot3(x, center), SCALE as int)) as i64],
            [y.x, y.y, y.z, (-tdiv(dot3(y, center), SCALE as int)) as i64],
            [z.x, z.y, z.z, (-tdiv(dot3(z, center), SCALE as int)) as i64],
            [0, 0, 0, SCALE as i64],
        ],
    }
}

/// Builds the camera ("look-at") matrix. The camera must stand away
/// from its target, and `up` must not be parallel to the view
/// direction: each normalized vector must have something to normalize.
pub fn lookat(eye: Vertex3<i64>, center: Vertex3<i64>, up: Vertex3<i64>) -> (r: Matrix4)
    requires
        v3_bounded(eye, CAM_LIMIT as int),
        v3_bounded(center, CAM_LIMIT as int),
        v3_bounded(up, CAM_LIMIT as int),
        norm_sq(v3_sub_spec(eye, center)) > 0,
        norm_sq(cross_spec(up, v3_normalize_spec(v3_sub_spec(eye, center)))) > 0,
        ({
            let z = v3_normalize_spec(v3_sub_spec(eye, center));
            let x = v3_normalize_spec(cross_spec(up, z));
            norm_sq(cross_spec(z, x)) > 0
        }),
    ensures
        r == lookat_spec(eye, center, up),
{
    let z: Vertex3<i64> = (eye - center).normalize();
    proof {
        assert(z =~= v3_normalize_spec(v3_sub_spec(eye, center)));
    }
    let cx: Vertex3<i64> = Vertex3::cross(up, z);
    proof {
        lemma_abs_product2(up.y as int, CAM_LIMIT as int, z.z as int, SCALE as int);
        lemma_abs_product2(up.z as int, CAM_LIMIT as int, z.y as int, SCALE as int);
        lemma_abs_product2(up.z as int, CAM_LIMIT as int, z.x as int, SCALE as int);
        lemma_abs_product2(up.x as int, CAM_LIMIT as int, z.z as int, SCALE as int);
        lemma_abs_product2(up.x as int, CAM_LIMIT as int, z.y as int, SCALE as int);
        lemma_abs_product2(up.y as int, CAM_LIMIT as int, z.x as int, SCALE as int);
        assert(cx =~= cross_spec(up, z));
    }
    let x: Vertex3<i64> = cx.normalize();
    proof {
        assert(x =~= v3_normalize_spec(cross_spec(up, z)));
    }
    let cy: Vertex3<i64> = Vertex3::cross(z, x);
    proof {
        lemma_abs_product(z.y as int, x.z as int, SCALE as int);
        lemma_abs_product(z.z as int, x.y as int, SCALE as int);
        lemma_abs_product(z.z as int, x.x as int, SCALE as int);
        lemma_abs_product(z.x as int, x.z as int, SCALE as int);
        lemma_abs_product(z.x as int, x.y as int, SCALE as int);
        lemma_abs_product(z.y as int, x.x as int, SCALE as int);
        assert(cy =~= cross_spec(z, x));
    }
    let y: Vertex3<i64> = cy.normalize();
    proof {
        assert(y =~= v3_normalize_spec(cross_spec(z, x)));
    }
    proof {
        lemma_abs_product2(x.x as int, SCALE as int, center.x as int, CAM_LIMIT as int);
        lemma_abs_product2(x.y as int, SCALE as int, center.y as int, CAM_LIMIT as int);
        lemma_abs_product2(x.z as int, SCALE as int, center.z as int, CAM_LIMIT as int);
        lemma_abs_product2(y.x as int, SCALE as int, center.x as int, CAM_LIMIT as int);
        lemma_abs_product2(y.y as int, SCALE as int, center.y as int, CAM_LIMIT as int);
        lemma_abs_product2(y.z as int, SCALE as int, center.z as int, CAM_LIMIT as int);
        lemma_abs_product2(z.x as int, SCALE as int, center.x as int, CAM_LIMIT as int);
        lemma_abs_product2(z.y as int, SCALE as int, center.y as int, CAM_LIMIT as int);
        lemma_abs_product2(z.z as int, SCALE as int, center.z as int, CAM_LIMIT as int);
        lemma_tdiv_self_bound(dot3(x, center), SCALE as int);
        lemma_tdiv_self_bound(dot3(y, center), SCALE as int);
        lemma_tdiv_self_bound(dot3(z, center), SCALE as int);
    }
    let tx: i64 = -div_trunc(x * center, SCALE);
    let ty: i64 = -div_trunc(y * center, SCALE);
    let tz: i64 = -div_trunc(z * center, SCALE);
    let r = Matrix4 {
        m: [
            [x.x, x.y, x.z, tx],
            [y.x, y.y, y.z, ty],
            [z.x, z.y, z.z, tz],
            [0, 0, 0, SCALE],
        ],
    };
    proof {
        assert(r =~= lookat_spec(eye, center, up));
    }
    r
}

/// The perspective matrix: the identity with entry (3, 2) set to
/// `-1 / distance(eye, center)`.
pub open spec fn projection_spec(eye: Vertex3<i64>, center: Vertex3<i64>) -> Matrix4 {
    Matrix4 {
        m: [
            [SCALE as i64, 0, 0, 0],
            [0, SCALE as i64, 0, 0],
            [0, 0, SCALE as i64, 0],
            [
                0,
                0,
                (-tdiv(
                    SCALE * SCALE,
                    norm_spec(v3_sub_spec(eye, center)),
                )) as i64,
                SCALE as i64,
            ],
        ],
    }
}

/// Builds the perspective matrix from the camera distance. The camera
/// must stand at least `1/256` away from its target.
pub fn projection(eye: Vertex3<i64>, center: Vertex3<i64>) -> (r: Matrix4)
    requires
        v3_bounded(eye, CAM_LIMIT as int),
        v3_bounded(center, CAM_LIMIT as int),
        norm_sq(v3_sub_spec(eye, center)) >= 256 * 256,
    ensures
        r == projection_spec(eye, center),
{
    let d: Vertex3<i64> = eye - center;
    let n: i64 = d.norm();
    proof {
        assert(n >= 256) by (nonlinear_arith)
            requires
                0 <= n,
                (n + 1) * (n + 1) > norm_sq(v3_sub_spec(eye, center)),
                norm_sq(v3_sub_spec(eye, center)) >= 256 * 256,
        ;
        lemma_tdiv_magnitude(SCALE * SCALE as int, n as int, 0x100_0000);
    }
    let e: i64 = div_trunc(SCALE * SCALE, n);
    let r = Matrix4 {
        m: [[SCALE, 0, 0, 0], [0, SCALE, 0, 0], [0, 0, SCALE, 0], [0, 0, -e, SCALE]],
    };
    proof {
        assert(d =~= v3_sub_spec(eye, center));
        assert(r =~= projection_spec(eye, center));
    }
    r
}

/// The viewport matrix: maps clip space [-1, 1] onto the screen box
/// positioned at `(x, y)` with the given height and width, and depth
/// onto `[0, depth]`: the scales are `w/2`, `h/2` and `depth/2`, and
/// the translations `x + w/2`, `y + h/2` and `depth/2`, so the clip
/// corner `(-1, -1, -1)` lands on `(x, y, 0)` and `(1, 1, 1)` on
/// `(x + w, y + h, depth)`.
pub open spec fn viewport_spec(x: u32, y: u32, h: u32, w: u32, depth: u32) -> Matrix4 {
    Matrix4 {
        m: [
            [(w * (SCALE / 2)) as i64, 0, 0, (x * SCALE + w * (SCALE / 2)) as i64],
            [0, (h * (SCALE / 2)) as i64, 0, (y * SCALE + h * (SCALE / 2)) as i64],
            [0, 0, (depth * (SCALE / 2)) as i64, (depth * (SCALE / 2)) as i64],
            [0, 0, 0, SCALE as i64],
        ],
    }
}

/// Builds the viewport matrix for the screen box at `(x, y)` with the
/// given height, width and depth range. The box must fit inside the
/// coordinate range the matrix algebra admits.
pub fn viewport(x: u32, y: u32, h: u32, w: u32, depth: u32) -> (r: Matrix4)
    requires
        x + w <= 0x4000,
        y + h <= 0x4000,
        depth <= 0x4000,
    ensures
        r == viewport_spec(x, y, h, w, depth),
{
    let half: i64 = SCALE / 2;
    let r = Matrix4 {
        m: [
            [(w as i64) * half, 0, 0, (x as i64) * SCALE + (w as i64) * half],
            [0, (h as i64) * half, 0, (y as i64) * SCALE + (h as i64) * half],
            [0, 0, (depth as i64) * half, (depth as i64) * half],
            [0, 0, 0, SCALE],
        ],
    };
    proof {
        assert(r =~= viewport_spec(x, y, h, w, depth));
    }
    r
}

} // verus!
