//! The layout engine: splits a rectangle into child rectangles along an
//! axis, according to an ordered list of size constraints.
//!
//! Allocation policy (deterministic, documented here once):
//! 1. every constraint first claims its desired length — `Fixed(n)` claims
//!    `n`, `Percent(p)` claims `p * total / 100` rounded down, `Min(m)`
//!    claims `m` — capped first-come at the space still free, so when the
//!    root is too small, later constraints degrade to zero length;
//! 2. any surplus is then shared among the `Min` constraints: each gets an
//!    equal share (`surplus / count`), the last `Min` also takes the
//!    rounding remainder; with no `Min` present the whole surplus goes to
//!    the last `Percent`; with neither, the surplus stays unallocated.
//!
//! Thus whenever the list holds at least one `Min` or `Percent`, the child
//! lengths sum exactly to the root's axis length: no gaps, no overlap.

use vstd::prelude::*;

use crate::geometry::Rect;

verus! {

#[derive(Clone, Copy, PartialEq, Eq, Structural, Debug)]
pub enum Direction {
    Horizontal,
    Vertical,
}

/// How much of the split axis a child rectangle should receive.
#[derive(Clone, Copy, PartialEq, Eq, Structural, Debug)]
pub enum SizeConstraint {
    Fixed(u16),
    Percent(u16),
    Min(u16),
}

pub open spec fn is_min(c: SizeConstraint) -> bool {
    c is Min
}

pub open spec fn is_percent(c: SizeConstraint) -> bool {
    c is Percent
}

/// Sum of a sequence of integer lengths.
pub open spec fn sum_of(s: Seq<int>) -> int
    decreases s.len(),
{
    if s.len() == 0 {
        0
    } else {
        s[0] + sum_of(s.drop_first())
    }
}

/// A `Seq<u16>` read as mathematical integers.
pub open spec fn ints(s: Seq<u16>) -> Seq<int> {
    s.map_values(|v: u16| v as int)
}

pub open spec fn all_nonneg(s: Seq<int>) -> bool {
    forall|i: int| 0 <= i < s.len() ==> s[i] >= 0
}

/// The length a constraint asks for, before any capping or surplus.
pub open spec fn desired(c: SizeConstraint, total: int) -> int {
    match c {
        SizeConstraint::Fixed(n) => n as int,
        SizeConstraint::Percent(p) => p * total / 100,
        SizeConstraint::Min(m) => m as int,
    }
}

/// First pass: each constraint claims its desired length, capped
/// first-come at the space still free.
pub open spec fn greedy(cs: Seq<SizeConstraint>, total: int, rem: int) -> Seq<int>
    decreases cs.len(),
{
    if cs.len() == 0 {
        Seq::empty()
    } else {
        let d = desired(cs[0], total);
        let a = if d <= rem {
            d
        } else {
            rem
        };
        seq![a] + greedy(cs.drop_first(), total, rem - a)
    }
}

pub open spec fn count_min(cs: Seq<SizeConstraint>) -> int
    decreases cs.len(),
{
    if cs.len() == 0 {
        0
    } else {
        (if is_min(cs[0]) {
            1int
        } else {
            0int
        }) + count_min(cs.drop_first())
    }
}

/// Index of the last `Percent` constraint.
pub open spec fn last_percent(cs: Seq<SizeConstraint>) -> int
    decreases cs.len(),
{
    if cs.len() == 0 {
        -1
    } else if is_percent(cs.last()) {
        cs.len() - 1
    } else {
        last_percent(cs.drop_last())
    }
}

/// Second pass: share the surplus among the `Min` constraints. Every `Min`
/// but the last receives `base`; the last receives whatever is left.
pub open spec fn dist(
    cs: Seq<SizeConstraint>,
    al: Seq<int>,
    rem: int,
    mins_left: int,
    base: int,
) -> Seq<int>
    decreases cs.len(),
{
    if cs.len() == 0 {
        Seq::empty()
    } else {
        let share = if is_min(cs[0]) {
            if mins_left == 1 {
                rem
            } else {
                base
            }
        } else {
            0
        };
        seq![al[0] + share] + dist(
            cs.drop_first(),
            al.drop_first(),
            rem - share,
            if is_min(cs[0]) {
                mins_left - 1
            } else {
                mins_left
            },
            base,
        )
    }
}

/// The final child lengths for a split of an axis of length `total`.
pub open spec fn final_lens(cs: Seq<SizeConstraint>, total: int) -> Seq<int> {
    let gl = greedy(cs, total, total);
    let surplus = total - sum_of(gl);
    let k = count_min(cs);
    if k > 0 {
        dist(cs, gl, surplus, k, surplus / k)
    } else if last_percent(cs) >= 0 {
        gl.update(last_percent(cs), gl[last_percent(cs)] + surplus)
    } else {
        gl
    }
}

pub open spec fn axis_len(r: Rect, dir: Direction) -> int {
    match dir {
        Direction::Horizontal => r.width as int,
        Direction::Vertical => r.height as int,
    }
}

pub open spec fn axis_pos(r: Rect, dir: Direction) -> int {
    match dir {
        Direction::Horizontal => r.x as int,
        Direction::Vertical => r.y as int,
    }
}

pub open spec fn cross_pos(r: Rect, dir: Direction) -> int {
    match dir {
        Direction::Horizontal => r.y as int,
        Direction::Vertical => r.x as int,
    }
}

pub open spec fn cross_len(r: Rect, dir: Direction) -> int {
    match dir {
        Direction::Horizontal => r.height as int,
        Direction::Vertical => r.width as int,
    }
}

/// The child rectangles a split of `root` must produce: lengths from
/// `final_lens`, laid out in declaration order from the root's axis
/// origin, cross axis inherited unchanged.
pub open spec fn rects_from(lens: Seq<int>, pos: int, root: Rect, dir: Direction) -> Seq<Rect>
    decreases lens.len(),
{
    if lens.len() == 0 {
        Seq::empty()
    } else {
        let r = match dir {
            Direction::Horizontal => Rect {
                x: pos as u16,
                y: root.y,
                width: lens[0] as u16,
                height: root.height,
            },
            Direction::Vertical => Rect {
                x: root.x,
                y: pos as u16,
                width: root.width,
                height: lens[0] as u16,
            },
        };
        seq![r] + rects_from(lens.drop_first(), pos + lens[0], root, dir)
    }
}

pub open spec fn spec_split(root: Rect, dir: Direction, cs: Seq<SizeConstraint>) -> Seq<Rect> {
    rects_from(final_lens(cs, axis_len(root, dir)), axis_pos(root, dir), root, dir)
}

proof fn lemma_sum_push(s: Seq<int>, v: int)
    ensures
        sum_of(s.push(v)) == sum_of(s) + v,
    decreases s.len(),
{
    if s.len() == 0 {
        assert(s.push(v).drop_first() =~= Seq::<int>::empty());
        assert(s.push(v)[0] == v);
        assert(sum_of(s.push(v)) == v + sum_of(Seq::<int>::empty()));
    } else {
        assert(s.push(v).drop_first() =~= s.drop_first().push(v));
        lemma_sum_push(s.drop_first(), v);
        assert(s.push(v)[0] == s[0]);
        assert(sum_of(s.push(v)) == s[0] + sum_of(s.push(v).drop_first()));
    }
}

proof fn lemma_sum_nonneg(s: Seq<int>)
    requires
        all_nonneg(s),
    ensures
        sum_of(s) >= 0,
    decreases s.len(),
{
    if s.len() > 0 {
        lemma_sum_nonneg(s.drop_first());
    }
}

proof fn lemma_sum_elem(s: Seq<int>, i: int)
    requires
        all_nonneg(s),
        0 <= i < s.len(),
    ensures
        s[i] <= sum_of(s),
    decreases s.len(),
{
    if i == 0 {
        lemma_sum_nonneg(s.drop_first());
    } else {
        lemma_sum_elem(s.drop_first(), i - 1);
        assert(s[0] >= 0);
    }
}

proof fn lemma_sum_update(s: Seq<int>, i: int, v: int)
    requires
        0 <= i < s.len(),
    ensures
        sum_of(s.update(i, v)) == sum_of(s) - s[i] + v,
    decreases s.len(),
{
    if i == 0 {
        assert(s.update(0, v).drop_first() =~= s.drop_first());
    } else {
        assert(s.update(i, v).drop_first() =~= s.drop_first().update(i - 1, v));
        lemma_sum_update(s.drop_first(), i - 1, v);
    }
}

proof fn lemma_count_min_push(s: Seq<SizeConstraint>, c: SizeConstraint)
    ensures
        count_min(s.push(c)) == count_min(s) + (if is_min(c) {
            1int
        } else {
            0int
        }),
    decreases s.len(),
{
    if s.len() == 0 {
        assert(s.push(c).drop_first() =~= Seq::<SizeConstraint>::empty());
        assert(s.push(c)[0] == c);
        assert(count_min(s.push(c)) == (if is_min(c) {
            1int
        } else {
            0int
        }) + count_min(Seq::<SizeConstraint>::empty()));
    } else {
        assert(s.push(c).drop_first() =~= s.drop_first().push(c));
        lemma_count_min_push(s.drop_first(), c);
        assert(s.push(c)[0] == s[0]);
        assert(count_min(s.push(c)) == (if is_min(s[0]) {
            1int
        } else {
            0int
        }) + count_min(s.push(c).drop_first()));
    }
}

proof fn lemma_count_min_nonneg(s: Seq<SizeConstraint>)
    ensures
        count_min(s) >= 0,
    decreases s.len(),
{
    if s.len() > 0 {
        lemma_count_min_nonneg(s.drop_first());
    }
}

proof fn lemma_greedy_props(cs: Seq<SizeConstraint>, total: int, rem: int)
    requires
        0 <= rem,
        0 <= total,
    ensures
        greedy(cs, total, rem).len() == cs.len(),
        all_nonneg(greedy(cs, total, rem)),
        sum_of(greedy(cs, total, rem)) <= rem,
    decreases cs.len(),
{
    if cs.len() > 0 {
        let d = desired(cs[0], total);
        assert(d >= 0) by {
            match cs[0] {
                SizeConstraint::Percent(p) => {
                    assert(p * total >= 0) by (nonlinear_arith)
                        requires
                            p >= 0,
                            total >= 0,
                    ;
                    vstd::arithmetic::div_mod::lemma_div_pos_is_pos(p * total, 100);
                },
                _ => {},
            }
        }
        let a = if d <= rem {
            d
        } else {
            rem
        };
        lemma_greedy_props(cs.drop_first(), total, rem - a);
        let g = greedy(cs, total, rem);
        let gr = greedy(cs.drop_first(), total, rem - a);
        assert(g == seq![a] + gr);
        assert forall|i: int| 0 <= i < g.len() implies g[i] >= 0 by {
            if i > 0 {
                assert(g[i] == gr[i - 1]);
            }
        }
        assert(g.drop_first() =~= gr);
    }
}

/// The per-child lengths and positions a `rects_from` sequence carries,
/// spelled out element by element.
proof fn lemma_rects_from(lens: Seq<int>, pos: int, root: Rect, dir: Direction)
    requires
        all_nonneg(lens),
        0 <= pos,
        pos + sum_of(lens) <= u16::MAX,
        root.wf(),
    ensures
        rects_from(lens, pos, root, dir).len() == lens.len(),
        forall|i: int|
            0 <= i < lens.len() ==> {
                let r = #[trigger] rects_from(lens, pos, root, dir)[i];
                &&& axis_len(r, dir) == lens[i]
                &&& axis_pos(r, dir) == pos + sum_of(lens.take(i))
                &&& cross_pos(r, dir) == cross_pos(root, dir)
                &&& cross_len(r, dir) == cross_len(root, dir)
                &&& r.wf()
            },
    decreases lens.len(),
{
    if lens.len() > 0 {
        let rest = lens.drop_first();
        assert(lens[0] <= sum_of(lens)) by {
            lemma_sum_elem(lens, 0);
        }
        lemma_sum_nonneg(rest);
        lemma_rects_from(rest, pos + lens[0], root, dir);
        let rs = rects_from(lens, pos, root, dir);
        let rrs = rects_from(rest, pos + lens[0], root, dir);
        assert forall|i: int| 0 <= i < lens.len() implies {
            let r = #[trigger] rs[i];
            &&& axis_len(r, dir) == lens[i]
            &&& axis_pos(r, dir) == pos + sum_of(lens.take(i))
            &&& cross_pos(r, dir) == cross_pos(root, dir)
            &&& cross_len(r, dir) == cross_len(root, dir)
            &&& r.wf()
        } by {
            if i == 0 {
                assert(lens.take(0) =~= Seq::<int>::empty());
            } else {
                assert(rs[i] == rrs[i - 1]);
                assert(rest[i - 1] == lens[i]);
                assert(lens.take(i)[0] == lens[0]);
                assert(lens.take(i).drop_first() =~= rest.take(i - 1));
                assert(sum_of(lens.take(i)) == lens[0] + sum_of(rest.take(i - 1)));
            }
        }
    }
}

/// Split `root` along `dir` into one rectangle per constraint.
///
/// The children appear in declaration order, each starting where the
/// previous one ends; their cross-axis offset and size are the root's own;
/// and as soon as the list holds one `Min` or `Percent` constraint, their
/// lengths tile the root's axis exactly.
pub fn split(root: &Rect, dir: Direction, constraints: &Vec<SizeConstraint>) -> (out: Vec<Rect>)
    requires
        root.wf(),
    ensures
        out@ == spec_split(*root, dir, constraints@),
        out@.len() == constraints@.len(),
        forall|i: int|
            0 <= i < out@.len() ==> {
                let lens = final_lens(constraints@, axis_len(*root, dir));
                &&& axis_len(#[trigger] out@[i], dir) == lens[i]
                &&& axis_pos(out@[i], dir) == axis_pos(*root, dir) + sum_of(lens.take(i))
                &&& cross_pos(out@[i], dir) == cross_pos(*root, dir)
                &&& cross_len(out@[i], dir) == cross_len(*root, dir)
                &&& out@[i].wf()
            },
        sum_of(final_lens(constraints@, axis_len(*root, dir))) <= axis_len(*root, dir),
        count_min(constraints@) > 0 || last_percent(constraints@) >= 0 ==> sum_of(
            final_lens(constraints@, axis_len(*root, dir)),
        ) == axis_len(*root, dir),
{
    let total: u16 = match dir {
        Direction::Horizontal => root.width,
        Direction::Vertical => root.height,
    };
    let n: usize = constraints.len();
    let ghost cs = constraints@;
    let ghost gfull = greedy(cs, total as int, total as int);

    // first pass: desired lengths, capped first-come at the space left
    let mut allocs: Vec<u16> = Vec::new();
    let mut rem: u16 = total;
    proof {
        assert(ints(allocs@) =~= Seq::<int>::empty());
        assert(cs.skip(0) =~= cs);
        assert((Seq::<int>::empty() + greedy(cs, total as int, total as int)) =~= greedy(
            cs,
            total as int,
            total as int,
        ));
    }
    let mut i: usize = 0;
    while i < n
        invariant
            0 <= i <= n,
            n == cs.len(),
            constraints@ == cs,
            allocs@.len() == i,
            rem <= total,
            gfull == ints(allocs@) + greedy(cs.skip(i as int), total as int, rem as int),
            sum_of(ints(allocs@)) + rem == total,
            all_nonneg(ints(allocs@)),
        decreases n - i,
    {
        let c = constraints[i];
        let d: usize = match c {
            SizeConstraint::Fixed(f) => f as usize,
            SizeConstraint::Percent(p) => {
                proof {
                    assert((p as int) * (total as int) <= 0xffff * 0xffff) by (nonlinear_arith)
                        requires
                            p as int <= 0xffff,
                            0 <= p as int,
                            0 <= total as int <= 0xffff,
                    ;
                }
                (p as usize) * (total as usize) / 100
            },
            SizeConstraint::Min(m) => m as usize,
        };
        let a: u16 = if d <= rem as usize {
            d as u16
        } else {
            rem
        };
        proof {
            assert(d as int == desired(cs[i as int], total as int));
            assert(cs.skip(i as int)[0] == cs[i as int]);
            assert(cs.skip(i as int).drop_first() =~= cs.skip(i as int + 1));
            assert(ints(allocs@.push(a)) =~= ints(allocs@).push(a as int));
            lemma_sum_push(ints(allocs@), a as int);
            assert((ints(allocs@) + greedy(cs.skip(i as int), total as int, rem as int)) =~= (ints(
                allocs@,
            ).push(a as int) + greedy(cs.skip(i as int + 1), total as int, rem as int - a as int)));
        }
        allocs.push(a);
        rem = rem - a;
        i = i + 1;
    }
    proof {
        assert(cs.skip(n as int) =~= Seq::<SizeConstraint>::empty());
        assert(gfull =~= ints(allocs@));
    }
    let ghost surplus = rem as int;

    // count the flexible constraints
    let mut k: usize = 0;
    let mut lp: usize = n;  // n means: no Percent constraint seen
    let mut j: usize = 0;
    while j < n
        invariant
            0 <= j <= n,
            n == cs.len(),
            constraints@ == cs,
            k == count_min(cs.take(j as int)),
            k <= j,
            if lp == n {
                last_percent(cs.take(j as int)) == -1
            } else {
                lp < j && last_percent(cs.take(j as int)) == lp as int
            },
        decreases n - j,
    {
        let c = constraints[j];
        proof {
            assert(cs.take(j as int + 1) =~= cs.take(j as int).push(cs[j as int]));
            lemma_count_min_push(cs.take(j as int), cs[j as int]);
            assert(cs.take(j as int + 1).drop_last() =~= cs.take(j as int));
        }
        match c {
            SizeConstraint::Min(_) => {
                k = k + 1;
            },
            SizeConstraint::Percent(_) => {
                lp = j;
            },
            SizeConstraint::Fixed(_) => {},
        }
        j = j + 1;
    }
    proof {
        assert(cs.take(n as int) =~= cs);
    }

    // second pass: hand the surplus to the flexible constraints
    let ghost lens = final_lens(cs, total as int);
    if k > 0 {
        let base: u16 = ((rem as usize) / k) as u16;
        proof {
            vstd::arithmetic::div_mod::lemma_div_pos_is_pos(surplus, k as int);
            vstd::arithmetic::div_mod::lemma_div_nonincreasing(surplus, k as int);
        }
        let ghost gl = ints(allocs@);
        let ghost kk = k as int;
        let mut mins_left: usize = k;
        proof {
            assert(ints(allocs@).take(0) =~= Seq::<int>::empty());
            assert(cs.skip(0) =~= cs);
            assert(gl.skip(0) =~= gl);
            assert((Seq::<int>::empty() + dist(cs, gl, surplus, kk, base as int)) =~= dist(
                cs,
                gl,
                surplus,
                kk,
                base as int,
            ));
        }
        let mut i2: usize = 0;
        while i2 < n
            invariant
                0 <= i2 <= n,
                n == cs.len(),
                constraints@ == cs,
                allocs@.len() == n,
                kk == count_min(cs),
                kk > 0,
                gl.len() == n,
                base as int == surplus / kk,
                0 <= surplus <= total,
                mins_left == count_min(cs.skip(i2 as int)),
                mins_left <= kk,
                ints(allocs@).skip(i2 as int) =~= gl.skip(i2 as int),
                dist(cs, gl, surplus, kk, base as int) == ints(allocs@).take(i2 as int) + dist(
                    cs.skip(i2 as int),
                    gl.skip(i2 as int),
                    rem as int,
                    mins_left as int,
                    base as int,
                ),
                sum_of(ints(allocs@)) + rem == total,
                all_nonneg(ints(allocs@)),
                all_nonneg(gl),
                mins_left > 0 ==> rem as int == surplus - (kk - mins_left) * (base as int),
                mins_left == 0 ==> rem == 0,
            decreases n - i2,
        {
            let c = constraints[i2];
            proof {
                assert(cs.skip(i2 as int)[0] == cs[i2 as int]);
                assert(cs.skip(i2 as int).drop_first() =~= cs.skip(i2 as int + 1));
                assert(gl.skip(i2 as int)[0] == gl[i2 as int]);
                assert(gl.skip(i2 as int).drop_first() =~= gl.skip(i2 as int + 1));
                assert(ints(allocs@)[i2 as int] == gl[i2 as int]);
                lemma_count_min_nonneg(cs.skip(i2 as int + 1));
            }
            match c {
                SizeConstraint::Min(_) => {
                    let share: u16 = if mins_left == 1 {
                        rem
                    } else {
                        base
                    };
                    proof {
                        // the equal shares handed out so far never exceed the surplus
                        vstd::arithmetic::div_mod::lemma_fundamental_div_mod(surplus, kk);
                        vstd::arithmetic::div_mod::lemma_mod_bound(surplus, kk);
                        assert(kk * (base as int) <= surplus);
                        if mins_left >= 2 {
                            assert((kk - mins_left as int) * (base as int) + base as int == (kk
                                - mins_left as int + 1) * (base as int)) by (nonlinear_arith);
                            assert((kk - mins_left as int + 1) * (base as int) <= kk * (
                            base as int)) by (nonlinear_arith)
                                requires
                                    base as int >= 0,
                                    2 <= mins_left as int,
                                    mins_left as int <= kk,
                            ;
                        }
                        assert(share <= rem);
                        lemma_sum_elem(ints(allocs@), i2 as int);
                    }
                    let v: u16 = allocs[i2] + share;
                    let ghost before = ints(allocs@);
                    allocs.set(i2, v);
                    proof {
                        assert(ints(allocs@) =~= before.update(i2 as int, v as int));
                        lemma_sum_update(before, i2 as int, v as int);
                        assert(ints(allocs@).skip(i2 as int + 1) =~= gl.skip(i2 as int + 1));
                        assert(ints(allocs@).take(i2 as int + 1) =~= before.take(i2 as int).push(
                            v as int,
                        ));
                        assert((before.take(i2 as int) + dist(
                            cs.skip(i2 as int),
                            gl.skip(i2 as int),
                            rem as int,
                            mins_left as int,
                            base as int,
                        )) =~= (ints(allocs@).take(i2 as int + 1) + dist(
                            cs.skip(i2 as int + 1),
                            gl.skip(i2 as int + 1),
                            rem as int - share as int,
                            mins_left as int - 1,
                            base as int,
                        )));
                        assert forall|x: int| 0 <= x < ints(allocs@).len() implies ints(allocs@)[x]
                            >= 0 by {
                            if x != i2 as int {
                                assert(ints(allocs@)[x] == before[x]);
                            }
                        }
                    }
                    rem = rem - share;
                    mins_left = mins_left - 1;
                },
                _ => {
                    proof {
                        assert(ints(allocs@).take(i2 as int + 1) =~= ints(allocs@).take(
                            i2 as int,
                        ).push(gl[i2 as int]));
                        assert((ints(allocs@).take(i2 as int) + dist(
                            cs.skip(i2 as int),
                            gl.skip(i2 as int),
                            rem as int,
                            mins_left as int,
                            base as int,
                        )) =~= (ints(allocs@).take(i2 as int + 1) + dist(
                            cs.skip(i2 as int + 1),
                            gl.skip(i2 as int + 1),
                            rem as int,
                            mins_left as int,
                            base as int,
                        )));
                    }
                },
            }
            i2 = i2 + 1;
        }
        proof {
            assert(cs.skip(n as int) =~= Seq::<SizeConstraint>::empty());
            assert(gl.skip(n as int) =~= Seq::<int>::empty());
            assert(ints(allocs@).take(n as int) =~= ints(allocs@));
            assert(lens =~= ints(allocs@));
        }
    } else if lp < n {
        proof {
            lemma_sum_elem(ints(allocs@), lp as int);
        }
        let v: u16 = allocs[lp] + rem;
        let ghost before = ints(allocs@);
        allocs.set(lp, v);
        proof {
            assert(ints(allocs@) =~= before.update(lp as int, v as int));
            lemma_sum_update(before, lp as int, v as int);
            assert(lens =~= ints(allocs@));
            assert forall|x: int| 0 <= x < ints(allocs@).len() implies ints(allocs@)[x] >= 0 by {
                if x != lp as int {
                    assert(ints(allocs@)[x] == before[x]);
                }
            }
        }
        rem = 0;
    } else {
        proof {
            assert(lens =~= ints(allocs@));
        }
    }
    proof {
        assert(sum_of(lens) + rem == total);
        assert(all_nonneg(lens));
    }

    // third pass: lay the children out in order along the axis
    let origin: u16 = match dir {
        Direction::Horizontal => root.x,
        Direction::Vertical => root.y,
    };
    let ghost rfull = rects_from(lens, origin as int, *root, dir);
    let mut out: Vec<Rect> = Vec::new();
    let mut pos: u16 = origin;
    proof {
        assert(lens.skip(0) =~= lens);
        assert((Seq::<Rect>::empty() + rects_from(lens, origin as int, *root, dir)) =~= rects_from(
            lens,
            origin as int,
            *root,
            dir,
        ));
    }
    let mut i3: usize = 0;
    while i3 < n
        invariant
            0 <= i3 <= n,
            n == cs.len(),
            allocs@.len() == n,
            lens == ints(allocs@),
            all_nonneg(lens),
            out@.len() == i3,
            root.wf(),
            origin as int == axis_pos(*root, dir),
            pos as int + sum_of(lens.skip(i3 as int)) == origin as int + sum_of(lens),
            origin as int + sum_of(lens) <= u16::MAX,
            origin <= pos,
            rfull == out@ + rects_from(lens.skip(i3 as int), pos as int, *root, dir),
        decreases n - i3,
    {
        proof {
            assert(lens.skip(i3 as int)[0] == lens[i3 as int]);
            assert(lens.skip(i3 as int).drop_first() =~= lens.skip(i3 as int + 1));
            assert forall|x: int| 0 <= x < lens.skip(i3 as int).len() implies lens.skip(
                i3 as int,
            )[x] >= 0 by {
                assert(lens.skip(i3 as int)[x] == lens[x + i3 as int]);
            }
            lemma_sum_nonneg(lens.skip(i3 as int).drop_first());
        }
        let w: u16 = allocs[i3];
        let r: Rect = match dir {
            Direction::Horizontal => Rect { x: pos, y: root.y, width: w, height: root.height },
            Direction::Vertical => Rect { x: root.x, y: pos, width: root.width, height: w },
        };
        proof {
            assert((out@ + rects_from(lens.skip(i3 as int), pos as int, *root, dir)) =~= (out@.push(
                r,
            ) + rects_from(lens.skip(i3 as int + 1), pos as int + w as int, *root, dir)));
        }
        out.push(r);
        pos = pos + w;
        i3 = i3 + 1;
    }
    proof {
        assert(lens.skip(n as int) =~= Seq::<int>::empty());
        assert(rfull =~= out@);
        lemma_sum_nonneg(lens);
        lemma_rects_from(lens, origin as int, *root, dir);
    }
    out
}

} // verus!
