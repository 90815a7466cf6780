use vstd::prelude::*;

verus! {

/// The denominator that the visible-world extents are divided by every
/// nanosecond of panning: the pan speed is one extent per second.
pub const PAN_SPEED_DEN: i64 = 1_000_000_000;

/// The least denominator panning works at: the rectangle is rescaled to at
/// least this resolution first, so pan steps are never quantized away.
pub const PAN_DEN: i64 = 1_000_000;

/// The longest single pan step accounted, in nanoseconds.
pub const MAX_PAN_STEP: u64 = 1_000_000_000_000;

/// A camera rectangle as a mathematical value: the four bounds are the
/// rationals `l/d`, `r/d`, `b/d`, `t/d`.
pub struct RatRect {
    pub l: int,
    pub r: int,
    pub b: int,
    pub t: int,
    pub d: int,
}

/// The rationals `n1/d1` and `n2/d2` are equal (for positive denominators).
pub open spec fn rat_eq(n1: int, d1: int, n2: int, d2: int) -> bool {
    n1 * d2 == n2 * d1
}

/// Both rectangles have the same four bounds as rational values.
pub open spec fn rect_value_eq(a: RatRect, c: RatRect) -> bool {
    &&& rat_eq(a.l, a.d, c.l, c.d)
    &&& rat_eq(a.r, a.d, c.r, c.d)
    &&& rat_eq(a.b, a.d, c.b, c.d)
    &&& rat_eq(a.t, a.d, c.t, c.d)
}

/// A zoom step: every bound is scaled by 1.1 (inward) or by 1/1.1 (outward)
/// and the rectangle is then moved back so its center is kept. Over a common
/// denominator, scaling `l` by 1.1 and re-centering gives
/// `1.05 l - 0.05 r = (21 l - r) / 20`, and scaling by `1/1.1` gives
/// `(21 l + r) / 22`; the other bounds follow the same shape.
pub open spec fn zoom_math(x: RatRect, inward: bool) -> RatRect {
    if inward {
        RatRect {
            l: 21 * x.l - x.r,
            r: 21 * x.r - x.l,
            b: 21 * x.b - x.t,
            t: 21 * x.t - x.b,
            d: 20 * x.d,
        }
    } else {
        RatRect {
            l: 21 * x.l + x.r,
            r: x.l + 21 * x.r,
            b: 21 * x.b + x.t,
            t: x.b + 21 * x.t,
            d: 22 * x.d,
        }
    }
}

/// A resize step for a window of `w` by `h` pixels. When the window got
/// proportionally wider, the world height is kept and the width is re-derived
/// from the new aspect ratio; when it got narrower, the width is kept and the
/// height re-derived; either way the rectangle keeps its center.
pub open spec fn resize_math(x: RatRect, w: int, h: int, wider: bool) -> RatRect {
    if wider {
        RatRect {
            l: (x.l + x.r) * h - (x.t - x.b) * w,
            r: (x.l + x.r) * h + (x.t - x.b) * w,
            b: 2 * x.b * h,
            t: 2 * x.t * h,
            d: 2 * x.d * h,
        }
    } else {
        RatRect {
            l: 2 * x.l * w,
            r: 2 * x.r * w,
            b: (x.b + x.t) * w - (x.r - x.l) * h,
            t: (x.b + x.t) * w + (x.r - x.l) * h,
            d: 2 * x.d * w,
        }
    }
}

/// A direction the camera can pan in.
#[derive(Clone, Copy, Debug, PartialEq, Eq, Structural)]
pub enum PanDirection {
    Up,
    Down,
    Left,
    Right,
}

/// The factor that brings a denominator up to the pan resolution.
pub open spec fn pan_scale(d: int) -> int {
    if d >= PAN_DEN {
        1
    } else {
        PAN_DEN as int / d + 1
    }
}

/// A pan step of `dt` nanoseconds: both bounds of one axis shift by the
/// other axis' extent scaled by the elapsed time, so panning moves faster the
/// further the camera is zoomed out. The rectangle is first rescaled to pan
/// resolution; the shift rounds down at that resolution.
pub open spec fn pan_math(x: RatRect, dir: PanDirection, dt: int) -> RatRect {
    let f = pan_scale(x.d);
    let l = x.l * f;
    let r = x.r * f;
    let b = x.b * f;
    let t = x.t * f;
    let d = x.d * f;
    match dir {
        PanDirection::Left => {
            let shift = (t - b) * dt / (PAN_SPEED_DEN as int);
            RatRect { l: l - shift, r: r - shift, b, t, d }
        },
        PanDirection::Right => {
            let shift = (t - b) * dt / (PAN_SPEED_DEN as int);
            RatRect { l: l + shift, r: r + shift, b, t, d }
        },
        PanDirection::Up => {
            let shift = (r - l) * dt / (PAN_SPEED_DEN as int);
            RatRect { l, r, b: b + shift, t: t + shift, d }
        },
        PanDirection::Down => {
            let shift = (r - l) * dt / (PAN_SPEED_DEN as int);
            RatRect { l, r, b: b - shift, t: t - shift, d }
        },
    }
}

/// Whether a mathematical rectangle is representable in the stored form.
pub open spec fn rect_fits(x: RatRect) -> bool {
    &&& i64::MIN <= x.l <= i64::MAX
    &&& i64::MIN <= x.r <= i64::MAX
    &&& i64::MIN <= x.b <= i64::MAX
    &&& i64::MIN <= x.t <= i64::MAX
    &&& i64::MIN <= x.d <= i64::MAX
}

/// The visible-world rectangle: the orthographic view volume's bounds, as the
/// rationals `left_num/den` and so on. The near and far planes are fixed and
/// are no part of this state.
#[derive(Clone, Copy, Debug, PartialEq, Eq, Structural)]
pub struct CameraRect {
    pub left_num: i64,
    pub right_num: i64,
    pub bottom_num: i64,
    pub top_num: i64,
    pub den: i64,
}

impl CameraRect {
    /// The rectangle as a mathematical value.
    pub open spec fn rat(self) -> RatRect {
        RatRect {
            l: self.left_num as int,
            r: self.right_num as int,
            b: self.bottom_num as int,
            t: self.top_num as int,
            d: self.den as int,
        }
    }

    /// A valid rectangle: positive denominator, left of right, below above.
    pub open spec fn wf(self) -> bool {
        &&& self.den >= 1
        &&& self.left_num < self.right_num
        &&& self.bottom_num < self.top_num
    }
}

/// The canonical view at the start of a round and after a reset: the world
/// square `[0, 1] x [0, 1]`.
pub open spec fn canonical_rect() -> CameraRect {
    CameraRect { left_num: 0, right_num: 1, bottom_num: 0, top_num: 1, den: 1 }
}

/// The camera rectangle at program start: the world square padded by a fifth
/// of a unit on every side, `[-0.2, 1.2] x [-0.2, 1.2]`.
pub open spec fn initial_rect() -> CameraRect {
    CameraRect { left_num: -1i64, right_num: 6, bottom_num: -1i64, top_num: 6, den: 5 }
}

/// The camera and the window it projects into. Every operation either applies
/// the exact rational-arithmetic step it is specified by, or, when the result
/// would leave the representable range, leaves the camera unchanged and says
/// so; a reset always restores the canonical view.
#[derive(Clone, Copy, Debug)]
pub struct CameraController {
    pub rect: CameraRect,
    pub win_width: u32,
    pub win_height: u32,
}

impl CameraController {
    pub open spec fn wf(self) -> bool {
        &&& self.rect.wf()
        &&& self.win_width >= 1
        &&& self.win_height >= 1
    }

    /// A camera over a window of the given size, showing the initial view.
    pub fn new(win_width: u32, win_height: u32) -> (c: CameraController)
        requires
            win_width >= 1,
            win_height >= 1,
        ensures
            c.wf(),
            c.rect == initial_rect(),
            c.win_width == win_width,
            c.win_height == win_height,
    {
        CameraController {
            rect: CameraRect { left_num: -1, right_num: 6, bottom_num: -1, top_num: 6, den: 5 },
            win_width,
            win_height,
        }
    }

    /// Restores the canonical `[0, 1] x [0, 1]` view.
    pub fn reset(&mut self)
        ensures
            final(self).rect == canonical_rect(),
            final(self).win_width == old(self).win_width,
            final(self).win_height == old(self).win_height,
            old(self).win_width >= 1 && old(self).win_height >= 1 ==> final(self).wf(),
    {
        self.rect = CameraRect { left_num: 0, right_num: 1, bottom_num: 0, top_num: 1, den: 1 };
    }

    /// Resizes to a window of `new_width` by `new_height` pixels, keeping the
    /// view's center: a proportionally wider window keeps the world height
    /// and re-derives the width, a narrower one keeps the width; an unchanged
    /// aspect ratio keeps the rectangle. A zero dimension is ignored, and an
    /// unrepresentable result leaves the camera unchanged.
    pub fn resize(&mut self, new_width: u32, new_height: u32) -> (applied: bool)
        requires
            old(self).wf(),
        ensures
            final(self).wf(),
            !applied ==> *final(self) == *old(self),
            new_width == 0 || new_height == 0 ==> !applied,
            applied ==> final(self).win_width == new_width && final(self).win_height
                == new_height,
            ({
                let wider = (new_width as int) * (old(self).win_height as int) > (old(
                    self,
                ).win_width as int) * (new_height as int);
                let narrower = (new_width as int) * (old(self).win_height as int) < (old(
                    self,
                ).win_width as int) * (new_height as int);
                &&& ((new_width >= 1 && new_height >= 1 && !wider && !narrower) ==> applied
                    && final(self).rect == old(self).rect)
                &&& ((new_width >= 1 && new_height >= 1 && (wider || narrower)) ==> applied
                    == rect_fits(
                    resize_math(
                        old(self).rect.rat(),
                        new_width as int,
                        new_height as int,
                        wider,
                    ),
                ))
                &&& ((applied && wider) ==> final(self).rect.rat() == resize_math(
                    old(self).rect.rat(),
                    new_width as int,
                    new_height as int,
                    true,
                ))
                &&& ((applied && narrower) ==> final(self).rect.rat() == resize_math(
                    old(self).rect.rat(),
                    new_width as int,
                    new_height as int,
                    false,
                ))
            }),
    {
        if new_width == 0 || new_height == 0 {
            return false;
        }
        proof {
            assert((new_width as int) * (self.win_height as int) <= 0xffff_ffff * 0xffff_ffff
                && (self.win_width as int) * (new_height as int) <= 0xffff_ffff * 0xffff_ffff)
                by (nonlinear_arith)
                requires
                    new_width <= 0xffff_ffffu32,
                    new_height <= 0xffff_ffffu32,
                    self.win_width <= 0xffff_ffffu32,
                    self.win_height <= 0xffff_ffffu32,
            ;
        }
        let new_cross: u64 = (new_width as u64) * (self.win_height as u64);
        let old_cross: u64 = (self.win_width as u64) * (new_height as u64);
        if new_cross == old_cross {
            self.win_width = new_width;
            self.win_height = new_height;
            return true;
        }
        let wider = new_cross > old_cross;
        let l = self.rect.left_num as i128;
        let r = self.rect.right_num as i128;
        let b = self.rect.bottom_num as i128;
        let t = self.rect.top_num as i128;
        let d = self.rect.den as i128;
        let w = new_width as i128;
        let h = new_height as i128;
        proof {
            lemma_i128_products(l, r, b, t, d, w, h);
        }
        let (l2, r2, b2, t2, d2) = if wider {
            ((l + r) * h - (t - b) * w, (l + r) * h + (t - b) * w, 2 * b * h, 2 * t * h, 2 * d * h)
        } else {
            (2 * l * w, 2 * r * w, (b + t) * w - (r - l) * h, (b + t) * w + (r - l) * h, 2 * d * w)
        };
        if fits_i64(l2) && fits_i64(r2) && fits_i64(b2) && fits_i64(t2) && fits_i64(d2) {
            proof {
                assert(l2 < r2 && b2 < t2 && d2 >= 1) by (nonlinear_arith)
                    requires
                        l < r,
                        b < t,
                        d >= 1,
                        w >= 1,
                        h >= 1,
                        wider ==> l2 == (l + r) * h - (t - b) * w && r2 == (l + r) * h + (t - b)
                            * w && b2 == 2 * b * h && t2 == 2 * t * h && d2 == 2 * d * h,
                        !wider ==> l2 == 2 * l * w && r2 == 2 * r * w && b2 == (b + t) * w - (r
                            - l) * h && t2 == (b + t) * w + (r - l) * h && d2 == 2 * d * w,
                ;
            }
            self.rect = CameraRect {
                left_num: l2 as i64,
                right_num: r2 as i64,
                bottom_num: b2 as i64,
                top_num: t2 as i64,
                den: d2 as i64,
            };
            self.win_width = new_width;
            self.win_height = new_height;
            true
        } else {
            false
        }
    }

    /// One zoom step: scales the view by 1.1 (inward) or by 1/1.1 (outward)
    /// around its center. An unrepresentable result leaves the camera
    /// unchanged, and the return value says whether the step applied.
    pub fn zoom(&mut self, inward: bool) -> (applied: bool)
        requires
            old(self).wf(),
        ensures
            final(self).wf(),
            final(self).win_width == old(self).win_width,
            final(self).win_height == old(self).win_height,
            applied == rect_fits(zoom_math(old(self).rect.rat(), inward)),
            applied ==> final(self).rect.rat() == zoom_math(old(self).rect.rat(), inward),
            !applied ==> final(self).rect == old(self).rect,
    {
        let l = self.rect.left_num as i128;
        let r = self.rect.right_num as i128;
        let b = self.rect.bottom_num as i128;
        let t = self.rect.top_num as i128;
        let d = self.rect.den as i128;
        let (l2, r2, b2, t2, d2) = if inward {
            (21 * l - r, 21 * r - l, 21 * b - t, 21 * t - b, 20 * d)
        } else {
            (21 * l + r, l + 21 * r, 21 * b + t, b + 21 * t, 22 * d)
        };
        if fits_i64(l2) && fits_i64(r2) && fits_i64(b2) && fits_i64(t2) && fits_i64(d2) {
            self.rect = CameraRect {
                left_num: l2 as i64,
                right_num: r2 as i64,
                bottom_num: b2 as i64,
                top_num: t2 as i64,
                den: d2 as i64,
            };
            true
        } else {
            false
        }
    }

    /// One pan step of `dt_nanos` nanoseconds (a step longer than
    /// `MAX_PAN_STEP` counts as that long): both bounds of the panned axis
    /// shift by the perpendicular extent scaled by the elapsed time, so a
    /// zoomed-out camera pans faster in world units. An unrepresentable
    /// result leaves the camera unchanged.
    pub fn pan(&mut self, dir: PanDirection, dt_nanos: u64) -> (applied: bool)
        requires
            old(self).wf(),
        ensures
            final(self).wf(),
            final(self).win_width == old(self).win_width,
            final(self).win_height == old(self).win_height,
            ({
                let dt = (if dt_nanos > MAX_PAN_STEP {
                    MAX_PAN_STEP
                } else {
                    dt_nanos
                }) as int;
                &&& applied == rect_fits(pan_math(old(self).rect.rat(), dir, dt))
                &&& (applied ==> final(self).rect.rat() == pan_math(
                    old(self).rect.rat(),
                    dir,
                    dt,
                ))
            }),
            !applied ==> final(self).rect == old(self).rect,
    {
        let dt: u64 = if dt_nanos > MAX_PAN_STEP {
            MAX_PAN_STEP
        } else {
            dt_nanos
        };
        let den = self.rect.den;
        let f: i64 = if den >= PAN_DEN {
            1
        } else {
            PAN_DEN / den + 1
        };
        proof {
            if den < PAN_DEN {
                assert(PAN_DEN as int / den as int <= PAN_DEN) by (nonlinear_arith)
                    requires
                        1 <= den,
                ;
                vstd::arithmetic::div_mod::lemma_div_pos_is_pos(PAN_DEN as int, den as int);
            }
            assert(1 <= f <= PAN_DEN + 1);
        }
        let fi = f as i128;
        proof {
            lemma_i128_scale(
                self.rect.left_num as i128,
                self.rect.right_num as i128,
                self.rect.bottom_num as i128,
                self.rect.top_num as i128,
                self.rect.den as i128,
                fi,
            );
        }
        let l2 = (self.rect.left_num as i128) * fi;
        let r2 = (self.rect.right_num as i128) * fi;
        let b2 = (self.rect.bottom_num as i128) * fi;
        let t2 = (self.rect.top_num as i128) * fi;
        let d2 = (self.rect.den as i128) * fi;
        let ext: i128 = if dir == PanDirection::Left || dir == PanDirection::Right {
            t2 - b2
        } else {
            r2 - l2
        };
        proof {
            assert(ext >= 0 && ext <= 20_000_000_000_000_000_000_000_000i128) by (nonlinear_arith)
                requires
                    1 <= fi <= 0x10_0001i128,
                    ext == (if dir == PanDirection::Left || dir == PanDirection::Right {
                        (self.rect.top_num as i128) * fi - (self.rect.bottom_num as i128) * fi
                    } else {
                        (self.rect.right_num as i128) * fi - (self.rect.left_num as i128) * fi
                    }),
                    self.rect.bottom_num < self.rect.top_num,
                    self.rect.left_num < self.rect.right_num,
                    -0x8000_0000_0000_0000i128 <= self.rect.left_num as i128
                        <= 0x7fff_ffff_ffff_ffffi128,
                    -0x8000_0000_0000_0000i128 <= self.rect.right_num as i128
                        <= 0x7fff_ffff_ffff_ffffi128,
                    -0x8000_0000_0000_0000i128 <= self.rect.bottom_num as i128
                        <= 0x7fff_ffff_ffff_ffffi128,
                    -0x8000_0000_0000_0000i128 <= self.rect.top_num as i128
                        <= 0x7fff_ffff_ffff_ffffi128,
            ;
            assert((ext as u128) * (dt as u128) <= 20_000_000_000_000_000_000_000_000u128
                * 1_000_000_000_000u128) by (nonlinear_arith)
                requires
                    0 <= ext as u128 <= 20_000_000_000_000_000_000_000_000u128,
                    dt as u128 <= 1_000_000_000_000u128,
            ;
        }
        let shift_u: u128 = (ext as u128) * (dt as u128) / (PAN_SPEED_DEN as u128);
        proof {
            vstd::arithmetic::div_mod::lemma_div_is_ordered(
                (ext as u128 * (dt as u128)) as int,
                20_000_000_000_000_000_000_000_000i128 * 0x10_0000_0000_0000 as int,
                PAN_SPEED_DEN as int,
            );
        }
        let shift: i128 = shift_u as i128;
        let (l3, r3, b3, t3) = match dir {
            PanDirection::Left => (l2 - shift, r2 - shift, b2, t2),
            PanDirection::Right => (l2 + shift, r2 + shift, b2, t2),
            PanDirection::Up => (l2, r2, b2 + shift, t2 + shift),
            PanDirection::Down => (l2, r2, b2 - shift, t2 - shift),
        };
        if fits_i64(l3) && fits_i64(r3) && fits_i64(b3) && fits_i64(t3) && fits_i64(d2) {
            proof {
                assert(l3 < r3 && b3 < t3 && d2 >= 1) by (nonlinear_arith)
                    requires
                        self.rect.left_num < self.rect.right_num,
                        self.rect.bottom_num < self.rect.top_num,
                        self.rect.den >= 1,
                        fi >= 1,
                        l2 == (self.rect.left_num as i128) * fi,
                        r2 == (self.rect.right_num as i128) * fi,
                        b2 == (self.rect.bottom_num as i128) * fi,
                        t2 == (self.rect.top_num as i128) * fi,
                        d2 == (self.rect.den as i128) * fi,
                        dir == PanDirection::Left ==> l3 == l2 - shift && r3 == r2 - shift
                            && b3 == b2 && t3 == t2,
                        dir == PanDirection::Right ==> l3 == l2 + shift && r3 == r2 + shift
                            && b3 == b2 && t3 == t2,
                        dir == PanDirection::Up ==> l3 == l2 && r3 == r2 && b3 == b2 + shift
                            && t3 == t2 + shift,
                        dir == PanDirection::Down ==> l3 == l2 && r3 == r2 && b3 == b2 - shift
                            && t3 == t2 - shift,
                        shift >= 0,
                ;
            }
            self.rect = CameraRect {
                left_num: l3 as i64,
                right_num: r3 as i64,
                bottom_num: b3 as i64,
                top_num: t3 as i64,
                den: d2 as i64,
            };
            true
        } else {
            false
        }
    }
}

/// Whether an intermediate value is representable as a stored numerator.
fn fits_i64(x: i128) -> (b: bool)
    ensures
        b == (i64::MIN <= x <= i64::MAX),
{
    x >= i64::MIN as i128 && x <= i64::MAX as i128
}

/// Bounds for the resize products, so the wide arithmetic cannot overflow.
proof fn lemma_i128_products(l: i128, r: i128, b: i128, t: i128, d: i128, w: i128, h: i128)
    requires
        -0x8000_0000_0000_0000 <= l <= 0x7fff_ffff_ffff_ffff,
        -0x8000_0000_0000_0000 <= r <= 0x7fff_ffff_ffff_ffff,
        -0x8000_0000_0000_0000 <= b <= 0x7fff_ffff_ffff_ffff,
        -0x8000_0000_0000_0000 <= t <= 0x7fff_ffff_ffff_ffff,
        1 <= d <= 0x7fff_ffff_ffff_ffff,
        1 <= w <= 0xffff_ffff,
        1 <= h <= 0xffff_ffff,
    ensures
        ({
            let big = 0x4_0000_0000_0000_0000_0000_0000int;
            &&& -big <= (l + r) * h <= big
            &&& -big <= (t - b) * w <= big
            &&& -big <= (b + t) * w <= big
            &&& -big <= (r - l) * h <= big
            &&& -big <= 2 * b * h <= big
            &&& -big <= 2 * t * h <= big
            &&& -big <= 2 * d * h <= big
            &&& -big <= 2 * l * w <= big
            &&& -big <= 2 * r * w <= big
            &&& -big <= 2 * d * w <= big
        }),
{
    assert(({
        let big = 0x4_0000_0000_0000_0000_0000_0000int;
        &&& -big <= (l + r) * h <= big
        &&& -big <= (t - b) * w <= big
        &&& -big <= (b + t) * w <= big
        &&& -big <= (r - l) * h <= big
        &&& -big <= 2 * b * h <= big
        &&& -big <= 2 * t * h <= big
        &&& -big <= 2 * d * h <= big
        &&& -big <= 2 * l * w <= big
        &&& -big <= 2 * r * w <= big
        &&& -big <= 2 * d * w <= big
    })) by (nonlinear_arith)
        requires
            -0x8000_0000_0000_0000 <= l <= 0x7fff_ffff_ffff_ffff,
            -0x8000_0000_0000_0000 <= r <= 0x7fff_ffff_ffff_ffff,
            -0x8000_0000_0000_0000 <= b <= 0x7fff_ffff_ffff_ffff,
            -0x8000_0000_0000_0000 <= t <= 0x7fff_ffff_ffff_ffff,
            1 <= d <= 0x7fff_ffff_ffff_ffff,
            1 <= w <= 0xffff_ffff,
            1 <= h <= 0xffff_ffff,
    ;
}

/// Bounds for the pan rescale products.
proof fn lemma_i128_scale(l: i128, r: i128, b: i128, t: i128, d: i128, f: i128)
    requires
        -0x8000_0000_0000_0000 <= l <= 0x7fff_ffff_ffff_ffff,
        -0x8000_0000_0000_0000 <= r <= 0x7fff_ffff_ffff_ffff,
        -0x8000_0000_0000_0000 <= b <= 0x7fff_ffff_ffff_ffff,
        -0x8000_0000_0000_0000 <= t <= 0x7fff_ffff_ffff_ffff,
        1 <= d <= 0x7fff_ffff_ffff_ffff,
        1 <= f <= 0x10_0001,
    ensures
        ({
            let big = 10_000_000_000_000_000_000_000_000int;
            &&& -big <= l * f <= big
            &&& -big <= r * f <= big
            &&& -big <= b * f <= big
            &&& -big <= t * f <= big
            &&& 1 <= d * f <= big
        }),
{
    assert(({
        let big = 10_000_000_000_000_000_000_000_000int;
        &&& -big <= l * f <= big
        &&& -big <= r * f <= big
        &&& -big <= b * f <= big
        &&& -big <= t * f <= big
        &&& 1 <= d * f <= big
    })) by (nonlinear_arith)
        requires
            -0x8000_0000_0000_0000 <= l <= 0x7fff_ffff_ffff_ffff,
            -0x8000_0000_0000_0000 <= r <= 0x7fff_ffff_ffff_ffff,
            -0x8000_0000_0000_0000 <= b <= 0x7fff_ffff_ffff_ffff,
            -0x8000_0000_0000_0000 <= t <= 0x7fff_ffff_ffff_ffff,
            1 <= d <= 0x7fff_ffff_ffff_ffff,
            1 <= f <= 0x10_0001,
    ;
}

/// Every resize keeps the view's center exactly, on both axes, and keeps the
/// extent of the axis it does not re-derive.
pub proof fn lemma_resize_preserves_center(x: RatRect, w: int, h: int, wider: bool)
    requires
        x.d >= 1,
        w >= 1,
        h >= 1,
    ensures
        ({
            let y = resize_math(x, w, h, wider);
            &&& rat_eq(y.l + y.r, 2 * y.d, x.l + x.r, 2 * x.d)
            &&& rat_eq(y.b + y.t, 2 * y.d, x.b + x.t, 2 * x.d)
            &&& (wider ==> rat_eq(y.t - y.b, y.d, x.t - x.b, x.d))
            &&& (!wider ==> rat_eq(y.r - y.l, y.d, x.r - x.l, x.d))
        }),
{
    let y = resize_math(x, w, h, wider);
    if wider {
        assert((2 * (x.l + x.r) * h) * (2 * x.d) == (x.l + x.r) * (2 * (2 * x.d * h)))
            by (nonlinear_arith);
        assert((2 * x.b * h + 2 * x.t * h) * (2 * x.d) == (x.b + x.t) * (2 * (2 * x.d * h)))
            by (nonlinear_arith);
        assert((2 * x.t * h - 2 * x.b * h) * x.d == (x.t - x.b) * (2 * x.d * h))
            by (nonlinear_arith);
        assert(y.l + y.r == 2 * (x.l + x.r) * h) by (nonlinear_arith)
            requires
                y.l == (x.l + x.r) * h - (x.t - x.b) * w,
                y.r == (x.l + x.r) * h + (x.t - x.b) * w,
        ;
    } else {
        assert((2 * (x.b + x.t) * w) * (2 * x.d) == (x.b + x.t) * (2 * (2 * x.d * w)))
            by (nonlinear_arith);
        assert((2 * x.l * w + 2 * x.r * w) * (2 * x.d) == (x.l + x.r) * (2 * (2 * x.d * w)))
            by (nonlinear_arith);
        assert((2 * x.r * w - 2 * x.l * w) * x.d == (x.r - x.l) * (2 * x.d * w))
            by (nonlinear_arith);
        assert(y.b + y.t == 2 * (x.b + x.t) * w) by (nonlinear_arith)
            requires
                y.b == (x.b + x.t) * w - (x.r - x.l) * h,
                y.t == (x.b + x.t) * w + (x.r - x.l) * h,
        ;
    }
}

/// A zoom step keeps the view's center exactly, on both axes.
pub proof fn lemma_zoom_preserves_center(x: RatRect, inward: bool)
    requires
        x.d >= 1,
    ensures
        ({
            let y = zoom_math(x, inward);
            &&& rat_eq(y.l + y.r, 2 * y.d, x.l + x.r, 2 * x.d)
            &&& rat_eq(y.b + y.t, 2 * y.d, x.b + x.t, 2 * x.d)
        }),
{
    let y = zoom_math(x, inward);
    if inward {
        assert((20 * (x.l + x.r)) * (2 * x.d) == (x.l + x.r) * (2 * (20 * x.d)))
            by (nonlinear_arith);
        assert((20 * (x.b + x.t)) * (2 * x.d) == (x.b + x.t) * (2 * (20 * x.d)))
            by (nonlinear_arith);
    } else {
        assert((22 * (x.l + x.r)) * (2 * x.d) == (x.l + x.r) * (2 * (22 * x.d)))
            by (nonlinear_arith);
        assert((22 * (x.b + x.t)) * (2 * x.d) == (x.b + x.t) * (2 * (22 * x.d)))
            by (nonlinear_arith);
    }
}

/// Zooming in and then out, or out and then in, returns every bound of the
/// rectangle to exactly its old rational value.
pub proof fn lemma_zoom_round_trip(x: RatRect)
    requires
        x.d >= 1,
    ensures
        rect_value_eq(zoom_math(zoom_math(x, true), false), x),
        rect_value_eq(zoom_math(zoom_math(x, false), true), x),
{
    let yi = zoom_math(zoom_math(x, true), false);
    let yo = zoom_math(zoom_math(x, false), true);
    assert(yi.l == 440 * x.l && yi.r == 440 * x.r && yi.b == 440 * x.b && yi.t == 440 * x.t
        && yi.d == 440 * x.d);
    assert(yo.l == 440 * x.l && yo.r == 440 * x.r && yo.b == 440 * x.b && yo.t == 440 * x.t
        && yo.d == 440 * x.d);
    assert((440 * x.l) * x.d == x.l * (440 * x.d)) by (nonlinear_arith);
    assert((440 * x.r) * x.d == x.r * (440 * x.d)) by (nonlinear_arith);
    assert((440 * x.b) * x.d == x.b * (440 * x.d)) by (nonlinear_arith);
    assert((440 * x.t) * x.d == x.t * (440 * x.d)) by (nonlinear_arith);
}

/// `k` zoom steps in one direction.
pub open spec fn zoom_iter(x: RatRect, inward: bool, k: nat) -> RatRect
    decreases k,
{
    if k == 0 {
        x
    } else {
        zoom_math(zoom_iter(x, inward, (k - 1) as nat), inward)
    }
}

/// Taking the first step early changes nothing: `k` steps on `x` are `k - 1`
/// steps on the once-zoomed `x`.
proof fn lemma_zoom_iter_shift(x: RatRect, inward: bool, k: nat)
    requires
        k >= 1,
    ensures
        zoom_iter(x, inward, k) == zoom_iter(zoom_math(x, inward), inward, (k - 1) as nat),
    decreases k,
{
    if k > 1 {
        lemma_zoom_iter_shift(x, inward, (k - 1) as nat);
        assert(zoom_iter(x, inward, k) == zoom_math(
            zoom_iter(x, inward, (k - 1) as nat),
            inward,
        ));
        assert(zoom_iter(zoom_math(x, inward), inward, (k - 1) as nat) == zoom_math(
            zoom_iter(zoom_math(x, inward), inward, (k - 2) as nat),
            inward,
        ));
    } else {
        assert(zoom_iter(x, inward, 1) == zoom_math(zoom_iter(x, inward, 0), inward));
        assert(zoom_iter(x, inward, 0) == x);
        assert(zoom_iter(zoom_math(x, inward), inward, 0) == zoom_math(x, inward));
    }
}

/// Zoom steps keep the denominator positive.
proof fn lemma_zoom_iter_pos(x: RatRect, inward: bool, k: nat)
    requires
        x.d >= 1,
    ensures
        zoom_iter(x, inward, k).d >= 1,
    decreases k,
{
    if k > 0 {
        lemma_zoom_iter_pos(x, inward, (k - 1) as nat);
        let y = zoom_iter(x, inward, (k - 1) as nat);
        assert(20 * y.d >= 1 && 22 * y.d >= 1) by (nonlinear_arith)
            requires
                y.d >= 1,
        ;
    }
}

/// Rational rectangle equality is transitive when the middle rectangle has a
/// positive denominator.
proof fn lemma_rect_value_eq_trans(a: RatRect, b: RatRect, c: RatRect)
    requires
        rect_value_eq(a, b),
        rect_value_eq(b, c),
        b.d >= 1,
    ensures
        rect_value_eq(a, c),
{
    assert(a.l * c.d == c.l * a.d) by (nonlinear_arith)
        requires
            a.l * b.d == b.l * a.d,
            b.l * c.d == c.l * b.d,
            b.d >= 1,
    ;
    assert(a.r * c.d == c.r * a.d) by (nonlinear_arith)
        requires
            a.r * b.d == b.r * a.d,
            b.r * c.d == c.r * b.d,
            b.d >= 1,
    ;
    assert(a.b * c.d == c.b * a.d) by (nonlinear_arith)
        requires
            a.b * b.d == b.b * a.d,
            b.b * c.d == c.b * b.d,
            b.d >= 1,
    ;
    assert(a.t * c.d == c.t * a.d) by (nonlinear_arith)
        requires
            a.t * b.d == b.t * a.d,
            b.t * c.d == c.t * b.d,
            b.d >= 1,
    ;
}

/// A zoom step maps value-equal rectangles to value-equal rectangles.
proof fn lemma_zoom_congruence(a: RatRect, b: RatRect, inward: bool)
    requires
        rect_value_eq(a, b),
    ensures
        rect_value_eq(zoom_math(a, inward), zoom_math(b, inward)),
{
    if inward {
        assert((21 * a.l - a.r) * (20 * b.d) == (21 * b.l - b.r) * (20 * a.d))
            by (nonlinear_arith)
            requires
                a.l * b.d == b.l * a.d,
                a.r * b.d == b.r * a.d,
        ;
        assert((21 * a.r - a.l) * (20 * b.d) == (21 * b.r - b.l) * (20 * a.d))
            by (nonlinear_arith)
            requires
                a.l * b.d == b.l * a.d,
                a.r * b.d == b.r * a.d,
        ;
        assert((21 * a.b - a.t) * (20 * b.d) == (21 * b.b - b.t) * (20 * a.d))
            by (nonlinear_arith)
            requires
                a.b * b.d == b.b * a.d,
                a.t * b.d == b.t * a.d,
        ;
        assert((21 * a.t - a.b) * (20 * b.d) == (21 * b.t - b.b) * (20 * a.d))
            by (nonlinear_arith)
            requires
                a.b * b.d == b.b * a.d,
                a.t * b.d == b.t * a.d,
        ;
    } else {
        assert((21 * a.l + a.r) * (22 * b.d) == (21 * b.l + b.r) * (22 * a.d))
            by (nonlinear_arith)
            requires
                a.l * b.d == b.l * a.d,
                a.r * b.d == b.r * a.d,
        ;
        assert((a.l + 21 * a.r) * (22 * b.d) == (b.l + 21 * b.r) * (22 * a.d))
            by (nonlinear_arith)
            requires
                a.l * b.d == b.l * a.d,
                a.r * b.d == b.r * a.d,
        ;
        assert((21 * a.b + a.t) * (22 * b.d) == (21 * b.b + b.t) * (22 * a.d))
            by (nonlinear_arith)
            requires
                a.b * b.d == b.b * a.d,
                a.t * b.d == b.t * a.d,
        ;
        assert((a.b + 21 * a.t) * (22 * b.d) == (b.b + 21 * b.t) * (22 * a.d))
            by (nonlinear_arith)
            requires
                a.b * b.d == b.b * a.d,
                a.t * b.d == b.t * a.d,
        ;
    }
}

/// `k` zoom steps map value-equal rectangles to value-equal rectangles.
proof fn lemma_zoom_iter_congruence(a: RatRect, b: RatRect, inward: bool, k: nat)
    requires
        rect_value_eq(a, b),
    ensures
        rect_value_eq(zoom_iter(a, inward, k), zoom_iter(b, inward, k)),
    decreases k,
{
    if k > 0 {
        lemma_zoom_iter_congruence(a, b, inward, (k - 1) as nat);
        lemma_zoom_congruence(
            zoom_iter(a, inward, (k - 1) as nat),
            zoom_iter(b, inward, (k - 1) as nat),
            inward,
        );
    }
}

/// Any number of zoom steps one way followed by the same number the other
/// way returns every bound of the rectangle to exactly its old rational
/// value, whichever way went first.
pub proof fn lemma_zoom_round_trip_many(x: RatRect, inward_first: bool, k: nat)
    requires
        x.d >= 1,
    ensures
        rect_value_eq(zoom_iter(zoom_iter(x, inward_first, k), !inward_first, k), x),
    decreases k,
{
    if k > 0 {
        let z = zoom_iter(x, inward_first, (k - 1) as nat);
        lemma_zoom_iter_pos(x, inward_first, (k - 1) as nat);
        // k steps one way are the single step on top of k - 1 steps; k steps
        // back are k - 1 steps back after one step back
        lemma_zoom_iter_shift(zoom_iter(x, inward_first, k), !inward_first, k);
        let w = zoom_math(zoom_math(z, inward_first), !inward_first);
        // one step there and back keeps the value
        lemma_zoom_round_trip(z);
        assert(rect_value_eq(w, z));
        // the remaining k - 1 steps back respect that value
        lemma_zoom_iter_congruence(w, z, !inward_first, (k - 1) as nat);
        // and round-trip the k - 1 forward steps by induction
        lemma_zoom_round_trip_many(x, inward_first, (k - 1) as nat);
        assert(w.d >= 1) by (nonlinear_arith)
            requires
                z.d >= 1,
                w.d == 22 * (20 * z.d) || w.d == 20 * (22 * z.d),
        ;
        lemma_zoom_iter_pos(w, !inward_first, (k - 1) as nat);
        lemma_zoom_iter_pos(z, !inward_first, (k - 1) as nat);
        lemma_rect_value_eq_trans(
            zoom_iter(w, !inward_first, (k - 1) as nat),
            zoom_iter(z, !inward_first, (k - 1) as nat),
            x,
        );
        assert(zoom_iter(x, inward_first, k) == zoom_math(z, inward_first));
        assert(zoom_iter(zoom_iter(x, inward_first, k), !inward_first, k) == zoom_iter(
            w,
            !inward_first,
            (k - 1) as nat,
        ));
    }
}

} // verus!
