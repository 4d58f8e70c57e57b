//! Decisions behind persistent scroll state: wheel and touchpad phases,
//! when momentum runs, which touch drags a container, and the order in
//! which consumed pointer input is cleared.
use crate::input::{PointerGesture, PointerId, PointerPhase, TouchPhase, phase_is_down};
use crate::text::same_text;
use vstd::prelude::*;

verus! {

/// Wheel-gesture flags carried between frames.
#[derive(Debug, Clone, Copy, PartialEq, Eq, Structural)]
pub struct WheelGesture {
    /// A phased wheel or touchpad gesture is in progress.
    pub scrolling: bool,
    /// A phased gesture ended during this frame.
    pub ended: bool,
}

/// What one phased wheel input does.
#[derive(Debug, Clone, Copy, PartialEq, Eq, Structural)]
pub struct WheelStep {
    /// The gesture flags afterwards.
    pub gesture: WheelGesture,
    /// Momentum of the container is cleared.
    pub clear_momentum: bool,
    /// The delta moves the container (with overscroll resistance) and
    /// becomes its momentum.
    pub apply_delta: bool,
}

/// Applies a phased wheel input: a start begins the gesture afresh and stops
/// any momentum, a move continues it, and an end or cancel finishes it so
/// that momentum may take over. Only starts and moves move content.
pub fn wheel_step(gesture: WheelGesture, phase: Option<TouchPhase>) -> (r: WheelStep)
    ensures
        phase == Some(TouchPhase::Started) ==> r == (WheelStep {
            gesture: WheelGesture { scrolling: true, ended: false },
            clear_momentum: true,
            apply_delta: true,
        }),
        phase == Some(TouchPhase::Moved) ==> r == (WheelStep {
            gesture: WheelGesture { scrolling: true, ended: gesture.ended },
            clear_momentum: false,
            apply_delta: true,
        }),
        (phase == Some(TouchPhase::Ended) || phase == Some(TouchPhase::Cancelled)) ==> r == (WheelStep {
            gesture: WheelGesture { scrolling: false, ended: true },
            clear_momentum: false,
            apply_delta: false,
        }),
        phase is None ==> r == (WheelStep { gesture, clear_momentum: false, apply_delta: false }),
{
    match phase {
        Some(TouchPhase::Started) => WheelStep {
            gesture: WheelGesture { scrolling: true, ended: false },
            clear_momentum: true,
            apply_delta: true,
        },
        Some(TouchPhase::Moved) => WheelStep {
            gesture: WheelGesture { scrolling: true, ended: gesture.ended },
            clear_momentum: false,
            apply_delta: true,
        },
        Some(TouchPhase::Ended) | Some(TouchPhase::Cancelled) => WheelStep {
            gesture: WheelGesture { scrolling: false, ended: true },
            clear_momentum: false,
            apply_delta: false,
        },
        None => WheelStep { gesture, clear_momentum: false, apply_delta: false },
    }
}

/// Whether momentum advances this frame: not while a phased gesture is in
/// progress or has just ended, and not while any pointer is pressed.
pub fn momentum_runs(gesture: WheelGesture, any_pressed: bool) -> (r: bool)
    ensures
        r == (!gesture.scrolling && !gesture.ended && !any_pressed),
{
    !gesture.scrolling && !gesture.ended && !any_pressed
}

/// Whether a pointer can drag content at all: only pressed touch contacts
/// do, and only while drag scrolling is enabled. The mouse never drags.
pub fn can_drag(enabled: bool, id: PointerId, phase: PointerPhase) -> (r: bool)
    ensures
        r == (enabled && id is Touch && phase_is_down(phase)),
{
    enabled && match id {
        PointerId::Touch(_) => phase.is_down(),
        PointerId::Mouse => false,
    }
}

/// Whether a pressed touch drag scrolls: once its gesture has been won by
/// scrolling, or once it has moved past the drag slop.
pub fn drag_scrolls(gesture: PointerGesture, passes_slop: bool) -> (r: bool)
    ensures
        r == (gesture is Scroll || passes_slop),
{
    match gesture {
        PointerGesture::Scroll => true,
        PointerGesture::Tap => passes_slop,
    }
}

/// A touch pointer that is dragging a scroll container.
#[derive(Debug, Clone, PartialEq, Eq)]
pub struct ScrollClaim {
    /// The dragging pointer.
    pub pointer: PointerId,
    /// The container it drags.
    pub scroll_id: String,
}

/// Whether another pointer already drags container `scroll_id`; a container
/// follows one finger at a time.
pub fn claimed_by_other(claims: &[ScrollClaim], pointer: PointerId, scroll_id: &str) -> (r: bool)
    ensures
        r == exists|i: int|
            0 <= i < claims@.len() && (#[trigger] claims@[i]).pointer != pointer && claims@[i].scroll_id@
                == scroll_id@,
{
    let n = claims.len();
    let mut i: usize = 0;
    while i < n
        invariant
            n == claims@.len(),
            i <= n,
            forall|j: int|
                0 <= j < i ==> !((#[trigger] claims@[j]).pointer != pointer && claims@[j].scroll_id@ == scroll_id@),
        decreases n - i,
    {
        if claims[i].pointer != pointer && same_text(claims[i].scroll_id.as_str(), scroll_id) {
            return true;
        }
        i = i + 1;
    }
    false
}

/// The order in which pointer input is cleared: the mouse first, then touch
/// contacts by increasing id.
pub open spec fn id_before(a: PointerId, b: PointerId) -> bool {
    match (a, b) {
        (PointerId::Mouse, PointerId::Touch(_)) => true,
        (PointerId::Touch(x), PointerId::Touch(y)) => x < y,
        _ => false,
    }
}

fn id_before_exec(a: PointerId, b: PointerId) -> (r: bool)
    ensures
        r == id_before(a, b),
{
    match (a, b) {
        (PointerId::Mouse, PointerId::Touch(_)) => true,
        (PointerId::Touch(x), PointerId::Touch(y)) => x < y,
        _ => false,
    }
}

/// Sorts `ids` in clearing order and drops repeats.
pub fn consume_order(ids: &[PointerId]) -> (r: Vec<PointerId>)
    ensures
        forall|a: int, b: int| 0 <= a < b < r@.len() ==> id_before(#[trigger] r@[a], #[trigger] r@[b]),
        forall|x: PointerId| r@.contains(x) <==> ids@.contains(x),
{
    let mut out: Vec<PointerId> = Vec::new();
    let n = ids.len();
    let mut i: usize = 0;
    while i < n
        invariant
            n == ids@.len(),
            i <= n,
            forall|a: int, b: int| 0 <= a < b < out@.len() ==> id_before(#[trigger] out@[a], #[trigger] out@[b]),
            forall|y: PointerId| out@.contains(y) <==> ids@.take(i as int).contains(y),
        decreases n - i,
    {
        let x = ids[i];
        let ghost before = out@;
        let m = out.len();
        let mut k: usize = 0;
        while k < m && id_before_exec(out[k], x)
            invariant
                out@ == before,
                m == out@.len(),
                k <= m,
                n == ids@.len(),
                i < n,
                x == ids@[i as int],
                forall|a: int, b: int| 0 <= a < b < before.len() ==> id_before(#[trigger] before[a], #[trigger] before[b]),
                forall|y: PointerId| before.contains(y) <==> ids@.take(i as int).contains(y),
                forall|j: int| 0 <= j < k ==> id_before(#[trigger] out@[j], x),
            decreases m - k,
        {
            k = k + 1;
        }
        proof {
            let t0 = ids@.take(i as int);
            let t1 = ids@.take(i + 1);
            assert(t1 =~= t0.push(x));
            assert forall|y: PointerId| t1.contains(y) <==> (t0.contains(y) || y == x) by {
                if t1.contains(y) {
                    let j = choose|j: int| 0 <= j < t1.len() && t1[j] == y;
                    if j < i {
                        assert(t0[j] == y);
                    }
                }
                if t0.contains(y) {
                    let j = choose|j: int| 0 <= j < t0.len() && t0[j] == y;
                    assert(t1[j] == y);
                }
                if y == x {
                    assert(t1[i as int] == x);
                }
            }
        }
        if k < m && out[k] == x {
            assert(before[k as int] == x);
            assert(before.contains(x));
            assert(forall|y: PointerId| out@.contains(y) <==> ids@.take(i + 1).contains(y));
        } else {
            out.insert(k, x);
            proof {
                assert forall|a: int, b: int| 0 <= a < b < out@.len() implies id_before(
                    #[trigger] out@[a],
                    #[trigger] out@[b],
                ) by {
                    if b < k {
                        assert(out@[a] == before[a] && out@[b] == before[b]);
                    } else if b == k {
                        assert(out@[a] == before[a]);
                    } else if a < k {
                        assert(out@[a] == before[a] && out@[b] == before[b - 1]);
                        assert(id_before(before[a], x));
                        if b - 1 > k {
                            assert(id_before(before[k as int], before[b - 1]));
                        }
                        assert(!id_before(before[k as int], x));
                    } else if a == k {
                        assert(out@[b] == before[b - 1]);
                        assert(!id_before(before[k as int], x));
                        if b - 1 > k {
                            assert(id_before(before[k as int], before[b - 1]));
                        }
                    } else {
                        assert(out@[a] == before[a - 1] && out@[b] == before[b - 1]);
                    }
                }
                assert forall|y: PointerId| out@.contains(y) <==> before.contains(y) || y == x by {
                    if out@.contains(y) {
                        let j = choose|j: int| 0 <= j < out@.len() && out@[j] == y;
                        if j < k {
                            assert(before[j] == y);
                        } else if j > k {
                            assert(before[j - 1] == y);
                        }
                    }
                    if before.contains(y) {
                        let j = choose|j: int| 0 <= j < before.len() && before[j] == y;
                        if j < k {
                            assert(out@[j] == y);
                        } else {
                            assert(out@[j + 1] == y);
                        }
                    }
                    if y == x {
                        assert(out@[k as int] == y);
                    }
                }
                assert forall|y: PointerId| out@.contains(y) <==> ids@.take(i + 1).contains(y) by {
                    assert(before.contains(y) <==> ids@.take(i as int).contains(y));
                    assert(ids@.take(i + 1).contains(y) <==> (ids@.take(i as int).contains(y) || y == x));
                }
            }
        }
        i = i + 1;
    }
    proof {
        assert(ids@.take(n as int) =~= ids@);
    }
    out
}

} // verus!

verus! {

/// The touch drags in progress: which pointer drags which container, and
/// the container's offset when the drag began (`O` is the host's offset
/// type). A pointer drags at most one container, and a container follows
/// at most one pointer.
pub struct DragClaims<O> {
    claims: Vec<(PointerId, String, O)>,
}

/// No two claims share a pointer or a container.
pub open spec fn claims_distinct<O>(cs: Seq<(PointerId, String, O)>) -> bool {
    forall|i: int, j: int|
        0 <= i < cs.len() && 0 <= j < cs.len() && i != j ==> (#[trigger] cs[i]).0 != (#[trigger] cs[j]).0
            && cs[i].1@ != cs[j].1@
}

impl<O: Copy> DragClaims<O> {
    /// The claims in the order they were made.
    pub closed spec fn claims_spec(&self) -> Seq<(PointerId, String, O)> {
        self.claims@
    }

    /// Whether pointer `p` has a claim.
    pub open spec fn has_claim(&self, p: PointerId) -> bool {
        exists|i: int| 0 <= i < self.claims_spec().len() && (#[trigger] self.claims_spec()[i]).0 == p
    }

    /// Whether some pointer drags container `scroll_id`.
    pub open spec fn is_dragged(&self, scroll_id: Seq<char>) -> bool {
        exists|i: int| 0 <= i < self.claims_spec().len() && (#[trigger] self.claims_spec()[i]).1@ == scroll_id
    }

    /// No drags.
    pub fn new() -> (r: Self)
        ensures
            r.claims_spec() == Seq::<(PointerId, String, O)>::empty(),
            claims_distinct(r.claims_spec()),
    {
        DragClaims { claims: Vec::new() }
    }

    /// The container pointer `p` drags and the offset it started from.
    pub fn claim_of(&self, p: PointerId) -> (r: Option<(&str, O)>)
        ensures
            match r {
                Some((id, o)) => exists|i: int|
                    0 <= i < self.claims_spec().len() && (#[trigger] self.claims_spec()[i]).0 == p
                        && self.claims_spec()[i].1@ == id@ && self.claims_spec()[i].2 == o,
                None => !self.has_claim(p),
            },
    {
        let n = self.claims.len();
        let mut i: usize = 0;
        while i < n
            invariant
                n == self.claims@.len(),
                i <= n,
                forall|j: int| 0 <= j < i ==> (#[trigger] self.claims@[j]).0 != p,
            decreases n - i,
        {
            if self.claims[i].0 == p {
                let found = (self.claims[i].1.as_str(), self.claims[i].2);
                assert(self.claims_spec()[i as int].0 == p && self.claims_spec()[i as int].1@ == found.0@);
                return Some(found);
            }
            i = i + 1;
        }
        None
    }

    /// Whether a pointer other than `p` drags container `scroll_id`.
    pub fn taken_by_other(&self, p: PointerId, scroll_id: &str) -> (r: bool)
        ensures
            r == exists|i: int|
                0 <= i < self.claims_spec().len() && (#[trigger] self.claims_spec()[i]).0 != p
                    && self.claims_spec()[i].1@ == scroll_id@,
    {
        let n = self.claims.len();
        let mut i: usize = 0;
        while i < n
            invariant
                n == self.claims@.len(),
                i <= n,
                forall|j: int|
                    0 <= j < i ==> !((#[trigger] self.claims@[j]).0 != p && self.claims@[j].1@ == scroll_id@),
            decreases n - i,
        {
            if self.claims[i].0 != p && same_text(self.claims[i].1.as_str(), scroll_id) {
                return true;
            }
            i = i + 1;
        }
        false
    }

    /// Records that `p` starts dragging `scroll_id` from `offset`, unless
    /// `p` already drags something or the container already follows another
    /// pointer.
    pub fn claim(&mut self, p: PointerId, scroll_id: &str, offset: O)
        requires
            claims_distinct(old(self).claims_spec()),
        ensures
            claims_distinct(final(self).claims_spec()),
            (old(self).has_claim(p) || old(self).is_dragged(scroll_id@)) ==> final(self).claims_spec() == old(
                self,
            ).claims_spec(),
            !(old(self).has_claim(p) || old(self).is_dragged(scroll_id@)) ==> final(self).claims_spec() == old(
                self,
            ).claims_spec().push((p, final(self).claims_spec().last().1, offset))
                && final(self).claims_spec().last().1@ == scroll_id@,
    {
        if self.claim_of(p).is_none() {
            let taken = self.taken_by_other(p, scroll_id);
            proof {
                if self.is_dragged(scroll_id@) {
                    let i = choose|i: int|
                        0 <= i < self.claims_spec().len() && (#[trigger] self.claims_spec()[i]).1@ == scroll_id@;
                    assert(self.claims_spec()[i].0 != p);
                }
            }
            if !taken {
                let ghost before = self.claims@;
                let owned = scroll_id.to_owned();
                self.claims.push((p, owned, offset));
                proof {
                    assert(self.claims@ =~= before.push((p, owned, offset)));
                    assert forall|i: int, j: int|
                        0 <= i < self.claims@.len() && 0 <= j < self.claims@.len() && i != j implies (
                        #[trigger] self.claims@[i]).0 != (#[trigger] self.claims@[j]).0 && self.claims@[i].1@
                            != self.claims@[j].1@ by {
                        if i < before.len() && j < before.len() {
                            assert(self.claims@[i] == before[i] && self.claims@[j] == before[j]);
                        } else if i < before.len() {
                            assert(self.claims@[i] == before[i]);
                            assert(before[i].0 != p);
                        } else if j < before.len() {
                            assert(self.claims@[j] == before[j]);
                            assert(before[j].0 != p);
                        }
                    }
                }
            }
        }
    }

    /// Drops the claims of pointers that are no longer pressed; the others
    /// keep their order.
    pub fn retain_pressed(&mut self, pressed: &[PointerId])
        requires
            claims_distinct(old(self).claims_spec()),
        ensures
            claims_distinct(final(self).claims_spec()),
            final(self).claims_spec() == old(self).claims_spec().filter(
                |c: (PointerId, String, O)| pressed@.contains(c.0),
            ),
    {
        let ghost old_cs = self.claims@;
        let ghost pred = |c: (PointerId, String, O)| pressed@.contains(c.0);
        let mut kept: Vec<(PointerId, String, O)> = Vec::new();
        let n = self.claims.len();
        let mut i: usize = 0;
        while i < n
            invariant
                n == old_cs.len(),
                self.claims@ == old_cs,
                claims_distinct(old_cs),
                i <= n,
                pred == (|c: (PointerId, String, O)| pressed@.contains(c.0)),
                kept@ == old_cs.take(i as int).filter(pred),
                forall|k: int| 0 <= k < kept@.len() ==> old_cs.take(i as int).contains(#[trigger] kept@[k]),
                claims_distinct(kept@),
            decreases n - i,
        {
            reveal_with_fuel(Seq::filter, 1);
            assert(old_cs.take(i + 1).drop_last() =~= old_cs.take(i as int));
            let p = self.claims[i].0;
            let mut live = false;
            let m = pressed.len();
            let mut k: usize = 0;
            while k < m
                invariant
                    m == pressed@.len(),
                    k <= m,
                    live == exists|j: int| 0 <= j < k && pressed@[j] == p,
                decreases m - k,
            {
                if pressed[k] == p {
                    live = true;
                }
                k = k + 1;
            }
            assert(live == pressed@.contains(p));
            let ghost before = kept@;
            if live {
                let entry = (self.claims[i].0, self.claims[i].1.clone(), self.claims[i].2);
                assert(entry == old_cs[i as int]);
                kept.push(entry);
                proof {
                    assert forall|k: int| 0 <= k < kept@.len() implies old_cs.take(i + 1).contains(#[trigger] kept@[k]) by {
                        if k < before.len() {
                            let w = choose|w: int| 0 <= w < i && old_cs.take(i as int)[w] == before[k];
                            assert(old_cs.take(i + 1)[w] == before[k]);
                        } else {
                            assert(old_cs.take(i + 1)[i as int] == entry);
                        }
                    }
                    assert forall|a: int, b: int|
                        0 <= a < kept@.len() && 0 <= b < kept@.len() && a != b implies (#[trigger] kept@[a]).0
                            != (#[trigger] kept@[b]).0 && kept@[a].1@ != kept@[b].1@ by {
                        if a < before.len() && b < before.len() {
                            assert(kept@[a] == before[a] && kept@[b] == before[b]);
                        } else if a < before.len() {
                            let w = choose|w: int| 0 <= w < i && old_cs.take(i as int)[w] == before[a];
                            assert(old_cs[w] == before[a]);
                            assert(kept@[b] == old_cs[i as int]);
                        } else if b < before.len() {
                            let w = choose|w: int| 0 <= w < i && old_cs.take(i as int)[w] == before[b];
                            assert(old_cs[w] == before[b]);
                            assert(kept@[a] == old_cs[i as int]);
                        }
                    }
                }
            } else {
                proof {
                    assert forall|k: int| 0 <= k < kept@.len() implies old_cs.take(i + 1).contains(#[trigger] kept@[k]) by {
                        let w = choose|w: int| 0 <= w < i && old_cs.take(i as int)[w] == kept@[k];
                        assert(old_cs.take(i + 1)[w] == kept@[k]);
                    }
                }
            }
            i = i + 1;
        }
        proof {
            assert(old_cs.take(n as int) =~= old_cs);
        }
        self.claims = kept;
    }
}

} // verus!
