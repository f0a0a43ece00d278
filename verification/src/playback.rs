//! Trajectory playback: the parsed snapshots, a normalizing scale and
//! stable per-body colors fixed at load, and a drift-compensating stepper
//! that advances the cursor by the whole intervals elapsed and loops.

use vstd::arithmetic::div_mod::{lemma_fundamental_div_mod, lemma_mod_division_less_than_divisor};
use vstd::prelude::*;

use crate::fixed::{isqrt, COORD_LIMIT, FP_ONE};
use crate::parse::{parse_content, snapshot_views, snapshots_of};
use crate::rng::{body_color, body_color_at, Color};
use crate::vec3::{
    in_range, lemma_isqrt_unique, lemma_sqrt_floor_is, magnitude, norm_sq, norm_sq_val, sqrt_floor,
    Vec3,
};

verus! {

/// The synthesized fallback body: the origin.
pub open spec fn origin_body() -> Vec3 {
    Vec3 { x: 0, y: 0, z: 0 }
}

/// Every body of every snapshot lies in the carrying range.
pub open spec fn all_in_range(ss: Seq<Seq<Vec3>>) -> bool {
    forall|i: int, j: int|
        0 <= i < ss.len() && 0 <= j < ss[i].len() ==> in_range(#[trigger] ss[i][j])
}

/// The reference snapshot: the first one with the greatest body count,
/// found by keeping the current best and replacing it only on a strictly
/// greater count.
pub open spec fn ref_snap(ss: Seq<Seq<Vec3>>) -> Seq<Vec3>
    decreases ss.len(),
{
    if ss.len() == 0 {
        Seq::empty()
    } else {
        let r = ref_snap(ss.drop_last());
        if ss.last().len() > r.len() {
            ss.last()
        } else {
            r
        }
    }
}

/// The bodies that fix count, colors and scale: the reference snapshot, or
/// one synthesized body at the origin when no snapshot has any.
pub open spec fn starting_bodies(data: Seq<u8>) -> Seq<Vec3> {
    let r = ref_snap(snapshots_of(data));
    if r.len() == 0 {
        seq![origin_body()]
    } else {
        r
    }
}

/// The stored trajectory: the parsed snapshots, or a single synthesized
/// snapshot when the input has no lines at all.
pub open spec fn stored_snaps(data: Seq<u8>) -> Seq<Seq<Vec3>> {
    if snapshots_of(data).len() == 0 {
        seq![seq![origin_body()]]
    } else {
        snapshots_of(data)
    }
}

/// The greatest squared origin distance among a snapshot's bodies.
pub open spec fn max_norm_sq(bodies: Seq<Vec3>) -> int
    decreases bodies.len(),
{
    if bodies.len() == 0 {
        0
    } else {
        let m = max_norm_sq(bodies.drop_last());
        if norm_sq(bodies.last()) > m {
            norm_sq(bodies.last())
        } else {
            m
        }
    }
}

/// Squared distance above which the trajectory is rescaled: a distance of
/// one hundredth of a unit.
pub const RESCALE_THRESHOLD_SQ: i64 = 100_000_000;

/// The normalizing scale as a fraction `num / den`: `10 / maxDistance` when
/// the reference snapshot reaches past the threshold, else one.
pub open spec fn scale_num_of(data: Seq<u8>) -> int {
    if max_norm_sq(starting_bodies(data)) > RESCALE_THRESHOLD_SQ as int {
        10 * (FP_ONE as int)
    } else {
        1
    }
}

pub open spec fn scale_den_of(data: Seq<u8>) -> int {
    if max_norm_sq(starting_bodies(data)) > RESCALE_THRESHOLD_SQ as int {
        sqrt_floor(max_norm_sq(starting_bodies(data)) as nat) as int
    } else {
        1
    }
}

/// One coordinate scaled by `num / den`, truncated toward zero and
/// saturated at the carrying range.
pub open spec fn scale_coord(c: int, num: int, den: int) -> int {
    let m = magnitude(c) * num / den;
    let s = if m > COORD_LIMIT as int {
        COORD_LIMIT as int
    } else {
        m
    };
    if c >= 0 {
        s
    } else {
        -s
    }
}

pub open spec fn scale_body(v: Vec3, num: int, den: int) -> Vec3 {
    Vec3 {
        x: scale_coord(v.x as int, num, den) as i64,
        y: scale_coord(v.y as int, num, den) as i64,
        z: scale_coord(v.z as int, num, den) as i64,
    }
}

/// Elapsed wall-clock milliseconds; a clock that runs backwards counts as
/// no time passed.
pub open spec fn elapsed_ms(last: u64, now: u64) -> int {
    if now >= last {
        now - last
    } else {
        0
    }
}

/// How many whole step intervals the elapsed time covers.
pub open spec fn steps_skipped(last: u64, now: u64, interval: u64) -> int {
    elapsed_ms(last, now) / (interval as int)
}

/// The cursor advanced by `k` snapshots, wrapping to the start when it
/// reaches or passes the end.
pub open spec fn advance_cursor(offset: int, k: int, len: int) -> int {
    if offset + k >= len {
        0
    } else {
        offset + k
    }
}

/// Looping never leaves the trajectory: the advanced cursor is in range.
pub proof fn lemma_advance_in_range(offset: int, k: int, len: int)
    requires
        0 <= offset < len,
        0 <= k,
    ensures
        0 <= advance_cursor(offset, k, len) < len,
{
}

/// Catch-up stepping drifts by less than one interval: the advance instant
/// moves to within one interval below `now`, never past it, so leftover
/// sub-interval time carries over.
pub proof fn lemma_catch_up(last: u64, now: u64, interval: u64)
    requires
        interval >= 1,
        now >= last,
    ensures
        last + steps_skipped(last, now, interval) * (interval as int) <= now,
        now - (last + steps_skipped(last, now, interval) * (interval as int)) < interval,
        steps_skipped(last, now, interval) >= 0,
{
    let e = elapsed_ms(last, now);
    let iv = interval as int;
    lemma_fundamental_div_mod(e, iv);
    lemma_mod_division_less_than_divisor(e, iv);
    assert((e / iv) * iv == e - e % iv) by (nonlinear_arith)
        requires
            e == iv * (e / iv) + e % iv,
    ;
    assert(e / iv >= 0) by (nonlinear_arith)
        requires
            e == iv * (e / iv) + e % iv,
            0 <= e % iv < iv,
            e >= 0,
            iv >= 1,
    ;
}

/// Reading a frame twice at the same instant advances nothing the second
/// time: after one catch-up, no whole interval remains, so the skipped-step
/// count at the same `now` is zero and the cursor stays put.
pub proof fn lemma_same_instant_idempotent(last: u64, now: u64, interval: u64, offset: int, len: int)
    requires
        interval >= 1,
        now >= last,
        0 <= offset < len,
    ensures
        ({
            let last2 = last + steps_skipped(last, now, interval) * (interval as int);
            steps_skipped(last2 as u64, now, interval) == 0 && advance_cursor(offset, 0, len)
                == offset
        }),
{
    lemma_catch_up(last, now, interval);
    let last2 = last + steps_skipped(last, now, interval) * (interval as int);
    let e2 = elapsed_ms(last2 as u64, now);
    assert(0 <= e2 < interval);
    lemma_fundamental_div_mod(e2, interval as int);
    lemma_mod_division_less_than_divisor(e2, interval as int);
    assert(e2 / (interval as int) == 0) by {
        vstd::arithmetic::div_mod::lemma_basic_div_specific_divisor(interval as int);
    }
}

/// One drawable body: a scaled position and its stable color.
#[derive(Clone, Copy, Debug, PartialEq, Eq, Structural)]
pub struct PlanetInstance {
    pub pos: Vec3,
    pub color: Color,
}

/// The playback engine: the trajectory, the reference body count, the
/// per-body colors, the scale, and the stepping state.
pub struct System {
    pub planets: Vec<Vec<Vec3>>,
    pub num_planets: usize,
    pub colors: Vec<Color>,
    pub offset: usize,
    pub interval_ms: u64,
    pub last_update_ms: u64,
    pub scale_num: u64,
    pub scale_den: u64,
}


fn scale_coord_val(c: i64, num: u64, den: u64) -> (r: i64)
    requires
        den >= 1,
        num <= 10 * FP_ONE as u64,
        magnitude(c as int) <= COORD_LIMIT as int,
    ensures
        r as int == scale_coord(c as int, num as int, den as int),
{
    let a: u128 = if c >= 0 {
        c as u128
    } else {
        (-(c as i128)) as u128
    };
    proof {
        assert((a as int) * (num as int) <= (COORD_LIMIT as int) * (10 * FP_ONE as int))
            by (nonlinear_arith)
            requires
                0 <= a as int <= COORD_LIMIT as int,
                0 <= num as int <= 10 * FP_ONE as int,
        ;
        assert((a as int) * (num as int) >= 0) by (nonlinear_arith)
            requires
                0 <= a as int,
                0 <= num as int,
        ;
        vstd::arithmetic::div_mod::lemma_div_pos_is_pos((a as int) * (num as int), den as int);
    }
    let q: u128 = a * (num as u128) / (den as u128);
    let s: u128 = if q > COORD_LIMIT as u128 {
        COORD_LIMIT as u128
    } else {
        q
    };
    if c >= 0 {
        s as i64
    } else {
        -(s as i64)
    }
}

impl System {
    /// The state every operation preserves: a nonempty looping trajectory,
    /// an in-range cursor, a positive interval, one color per reference
    /// body, and a usable scale fraction.
    pub open spec fn wf(self) -> bool {
        &&& self.planets@.len() >= 1
        &&& self.offset < self.planets@.len()
        &&& self.interval_ms >= 1
        &&& self.colors@.len() == self.num_planets
        &&& self.num_planets >= 1
        &&& self.scale_den >= 1
        &&& self.scale_num <= 10 * FP_ONE as u64
        &&& all_in_range(snapshot_views(self.planets@))
        &&& forall|i: int|
            0 <= i < self.colors@.len() ==> self.colors@[i] == body_color(
                #[verifier::truncate] (i as u32),
            )
    }

    /// Loads a trajectory from raw text: parses the snapshots, fixes the
    /// reference body count, the normalizing scale and the per-body colors,
    /// and resets the cursor and the advance instant.
    pub fn new(content: &Vec<u8>, now_ms: u64) -> (s: System)
        ensures
            s.wf(),
            snapshot_views(s.planets@) == stored_snaps(content@),
            s.num_planets == starting_bodies(content@).len(),
            s.scale_num as int == scale_num_of(content@),
            s.scale_den as int == scale_den_of(content@),
            s.offset == 0,
            s.interval_ms == 100,
            s.last_update_ms == now_ms,
    {
        let mut planets = parse_content(content);
        proof {
            crate::parse::lemma_snaps_in_range(content@, 0);
        }
        let ghost svp = snapshot_views(planets@);

        // The reference snapshot: first with the strictly greatest count.
        let n = planets.len();
        let mut best_len: usize = 0;
        let mut best_idx: usize = 0;
        let mut i: usize = 0;
        while i < n
            invariant
                i <= n,
                n == planets@.len(),
                svp == snapshot_views(planets@),
                svp.len() == n,
                best_len == ref_snap(svp.subrange(0, i as int)).len(),
                best_len > 0 ==> best_idx < i && svp[best_idx as int] == ref_snap(
                    svp.subrange(0, i as int),
                ),
            decreases n - i,
        {
            proof {
                assert(svp.subrange(0, i + 1).drop_last() =~= svp.subrange(0, i as int));
                assert(svp.subrange(0, i + 1).last() == svp[i as int]);
                assert(svp[i as int] == planets@[i as int]@);
            }
            let li = planets[i].len();
            if li > best_len {
                best_len = li;
                best_idx = i;
            }
            i = i + 1;
        }
        proof {
            assert(svp.subrange(0, n as int) =~= svp);
        }

        let num_planets = if best_len == 0 {
            1
        } else {
            best_len
        };

        // The greatest squared origin distance among the reference bodies.
        let mut max2: u128 = 0;
        if best_len > 0 {
            let refsnap: &Vec<Vec3> = &planets[best_idx];
            let ghost sb = starting_bodies(content@);
            proof {
                assert(sb == refsnap@);
            }
            let rl = refsnap.len();
            let mut j: usize = 0;
            while j < rl
                invariant
                    j <= rl,
                    rl == refsnap@.len(),
                    sb == refsnap@,
                    forall|k: int| 0 <= k < rl ==> in_range(#[trigger] refsnap@[k]),
                    max2 as int == max_norm_sq(sb.subrange(0, j as int)),
                    max2 <= crate::fixed::ISQRT_MAX_INPUT,
                decreases rl - j,
            {
                proof {
                    assert(sb.subrange(0, j + 1).drop_last() =~= sb.subrange(0, j as int));
                    assert(sb.subrange(0, j + 1).last() == refsnap@[j as int]);
                }
                let b = refsnap[j];
                let d2 = norm_sq_val(&b);
                if d2 > max2 {
                    max2 = d2;
                }
                j = j + 1;
            }
            proof {
                assert(sb.subrange(0, rl as int) =~= sb);
            }
        } else {
            proof {
                let sb = starting_bodies(content@);
                assert(sb =~= seq![origin_body()]);
                assert(sb.drop_last() =~= Seq::<Vec3>::empty());
                assert(origin_body().x == 0 && origin_body().y == 0 && origin_body().z == 0);
                assert(norm_sq(origin_body()) == 0 * 0 + 0 * 0 + 0 * 0);
                assert(max_norm_sq(sb.drop_last()) == 0);
                assert(sb.last() == origin_body());
                assert(max_norm_sq(sb) == 0);
            }
        }

        // The fallback snapshot, when the input had no lines at all.
        if planets.len() == 0 {
            let mut fallback: Vec<Vec3> = Vec::new();
            fallback.push(Vec3 { x: 0, y: 0, z: 0 });
            planets.push(fallback);
            proof {
                assert(snapshot_views(planets@) =~= seq![seq![origin_body()]]);
            }
        }

        // The normalizing scale.
        let mut scale_num: u64 = 1;
        let mut scale_den: u64 = 1;
        if max2 > RESCALE_THRESHOLD_SQ as u128 {
            let den = isqrt(max2);
            proof {
                lemma_sqrt_floor_is(max2 as nat);
                lemma_isqrt_unique(
                    max2 as int,
                    den as int,
                    sqrt_floor(max2 as nat) as int,
                );
                assert(den >= 1) by (nonlinear_arith)
                    requires
                        (den as int + 1) * (den as int + 1) > max2 as int,
                        max2 as int > 100_000_000,
                        den as int >= 0,
                ;
            }
            scale_num = 10 * FP_ONE as u64;
            scale_den = den;
        }

        // One stable color per reference body.
        let mut colors: Vec<Color> = Vec::new();
        let mut ci: usize = 0;
        while ci < num_planets
            invariant
                ci <= num_planets,
                colors@.len() == ci,
                forall|k: int|
                    0 <= k < ci ==> colors@[k] == body_color(#[verifier::truncate] (k as u32)),
            decreases num_planets - ci,
        {
            let c = body_color_at(#[verifier::truncate] (ci as u32));
            colors.push(c);
            ci = ci + 1;
        }

        System {
            planets,
            num_planets,
            colors,
            offset: 0,
            interval_ms: 100,
            last_update_ms: now_ms,
            scale_num,
            scale_den,
        }
    }

    /// Advances playback to `now_ms` and reads the frame there: the cursor
    /// moves by the whole intervals elapsed, wrapping to the start at the
    /// end of the trajectory; leftover sub-interval time stays accumulated.
    /// Returns the drawable instances of the current snapshot and the
    /// reference body count.
    pub fn step(&mut self, now_ms: u64) -> (r: (Vec<PlanetInstance>, usize))
        requires
            old(self).wf(),
        ensures
            final(self).wf(),
            final(self).planets == old(self).planets,
            final(self).colors == old(self).colors,
            final(self).num_planets == old(self).num_planets,
            final(self).interval_ms == old(self).interval_ms,
            final(self).scale_num == old(self).scale_num,
            final(self).scale_den == old(self).scale_den,
            final(self).offset as int == advance_cursor(
                old(self).offset as int,
                steps_skipped(old(self).last_update_ms, now_ms, old(self).interval_ms),
                old(self).planets@.len() as int,
            ),
            final(self).last_update_ms == old(self).last_update_ms + steps_skipped(
                old(self).last_update_ms,
                now_ms,
                old(self).interval_ms,
            ) * (old(self).interval_ms as int),
            r.1 == old(self).num_planets,
            ({
                let snap = snapshot_views(old(self).planets@)[final(self).offset as int];
                let m = if snap.len() <= old(self).colors@.len() {
                    snap.len() as int
                } else {
                    old(self).colors@.len() as int
                };
                &&& r.0@.len() == m
                &&& forall|i: int|
                    0 <= i < m ==> (#[trigger] r.0@[i]).pos == scale_body(
                        snap[i],
                        old(self).scale_num as int,
                        old(self).scale_den as int,
                    ) && r.0@[i].color == old(self).colors@[i]
            }),
    {
        let len = self.planets.len();
        let elapsed: u64 = if now_ms >= self.last_update_ms {
            now_ms - self.last_update_ms
        } else {
            0
        };
        let k: u64 = elapsed / self.interval_ms;
        proof {
            if now_ms >= self.last_update_ms {
                lemma_catch_up(self.last_update_ms, now_ms, self.interval_ms);
            } else {
                vstd::arithmetic::div_mod::lemma_basic_div_specific_divisor(
                    self.interval_ms as int,
                );
                assert((0int) * (self.interval_ms as int) == 0) by (nonlinear_arith);
            }
        }
        let room = len - self.offset;
        if k >= room as u64 {
            self.offset = 0;
        } else {
            self.offset = self.offset + (k as usize);
        }
        self.last_update_ms = self.last_update_ms + k * self.interval_ms;

        let snap: &Vec<Vec3> = &self.planets[self.offset];
        let sl = snap.len();
        let cl = self.colors.len();
        let m = if sl <= cl {
            sl
        } else {
            cl
        };
        let ghost snapv = snapshot_views(self.planets@)[self.offset as int];
        proof {
            assert(snapv == snap@);
        }
        let mut out: Vec<PlanetInstance> = Vec::new();
        let mut i: usize = 0;
        while i < m
            invariant
                i <= m,
                m <= snap@.len(),
                m <= self.colors@.len(),
                self.wf(),
                snap@ == snapshot_views(self.planets@)[self.offset as int],
                self.offset < self.planets@.len(),
                out@.len() == i,
                forall|j: int|
                    0 <= j < i ==> (#[trigger] out@[j]).pos == scale_body(
                        snap@[j],
                        self.scale_num as int,
                        self.scale_den as int,
                    ) && out@[j].color == self.colors@[j],
            decreases m - i,
        {
            let b = snap[i];
            proof {
                assert(in_range(snap@[i as int]));
            }
            let p = Vec3 {
                x: scale_coord_val(b.x, self.scale_num, self.scale_den),
                y: scale_coord_val(b.y, self.scale_num, self.scale_den),
                z: scale_coord_val(b.z, self.scale_num, self.scale_den),
            };
            let color = self.colors[i];
            out.push(PlanetInstance { pos: p, color });
            i = i + 1;
        }
        (out, self.num_planets)
    }

    /// Halves the step interval, clamped so it never reaches zero.
    pub fn speed_up(&mut self)
        requires
            old(self).wf(),
        ensures
            final(self).wf(),
            final(self).interval_ms == if old(self).interval_ms >= 2 {
                old(self).interval_ms / 2
            } else {
                1u64
            },
            final(self).planets == old(self).planets,
            final(self).num_planets == old(self).num_planets,
            final(self).colors == old(self).colors,
            final(self).offset == old(self).offset,
            final(self).last_update_ms == old(self).last_update_ms,
            final(self).scale_num == old(self).scale_num,
            final(self).scale_den == old(self).scale_den,
    {
        if self.interval_ms >= 2 {
            self.interval_ms = self.interval_ms / 2;
        } else {
            self.interval_ms = 1;
        }
    }

    /// Doubles the step interval, saturating instead of overflowing.
    pub fn slow_down(&mut self)
        requires
            old(self).wf(),
        ensures
            final(self).wf(),
            final(self).interval_ms == if old(self).interval_ms <= u64::MAX / 2 {
                2 * old(self).interval_ms
            } else {
                old(self).interval_ms as int
            },
            final(self).planets == old(self).planets,
            final(self).num_planets == old(self).num_planets,
            final(self).colors == old(self).colors,
            final(self).offset == old(self).offset,
            final(self).last_update_ms == old(self).last_update_ms,
            final(self).scale_num == old(self).scale_num,
            final(self).scale_den == old(self).scale_den,
    {
        if self.interval_ms <= u64::MAX / 2 {
            self.interval_ms = 2 * self.interval_ms;
        }
    }
}

} // verus!
