//! Pointer queries over a layout result's hit records.
use crate::input::{MouseButton, PointerGesture, PointerId, PointerPhase, phase_is_down};
use crate::text::same_text;
use vstd::prelude::*;

verus! {

/// Hit-test result for one pointer. `P` is the host's point type.
#[derive(Debug, Clone, PartialEq)]
pub struct PointerHit<P> {
    /// Pointer identifier.
    pub pointer_id: PointerId,
    /// Pointer position used for hit testing.
    pub position: P,
    /// Pointer phase for this frame.
    pub phase: PointerPhase,
    /// Topmost element id under the pointer, if any.
    pub element_id: Option<String>,
    /// Mouse button for mouse presses. Touch pointers use `None`.
    pub mouse_button: Option<MouseButton>,
    /// Gesture currently winning for this pointer.
    pub gesture: PointerGesture,
}

/// Whether hit `h` targets element `id`.
pub open spec fn targets<P>(h: PointerHit<P>, id: Seq<char>) -> bool {
    h.element_id matches Some(e) && e@ == id
}

/// Whether hit `h` is a press on element `id`.
pub open spec fn presses<P>(h: PointerHit<P>, id: Seq<char>) -> bool {
    targets(h, id) && phase_is_down(h.phase)
}

/// The element ids that hits target, each once, in order of first
/// appearance.
pub open spec fn distinct_targets<P>(hits: Seq<PointerHit<P>>) -> Seq<Seq<char>>
    decreases hits.len(),
{
    if hits.len() == 0 {
        Seq::empty()
    } else {
        let rest = distinct_targets(hits.drop_last());
        match hits.last().element_id {
            Some(e) => if rest.contains(e@) { rest } else { rest.push(e@) },
            None => rest,
        }
    }
}

fn targets_exec<P>(h: &PointerHit<P>, id: &str) -> (r: bool)
    ensures
        r == targets(*h, id@),
{
    match &h.element_id {
        Some(e) => same_text(e.as_str(), id),
        None => false,
    }
}

/// Returns true if any pointer is currently over the element id.
pub fn pointer_over<P>(hits: &[PointerHit<P>], id: &str) -> (r: bool)
    ensures
        r == exists|i: int| 0 <= i < hits@.len() && targets(#[trigger] hits@[i], id@),
{
    let n = hits.len();
    let mut i: usize = 0;
    while i < n
        invariant
            n == hits@.len(),
            i <= n,
            forall|j: int| 0 <= j < i ==> !targets(#[trigger] hits@[j], id@),
        decreases n - i,
    {
        if targets_exec(&hits[i], id) {
            return true;
        }
        i = i + 1;
    }
    false
}

/// Returns true if any pointer is currently pressing the element id.
pub fn element_is_pressed<P>(hits: &[PointerHit<P>], id: &str) -> (r: bool)
    ensures
        r == exists|i: int| 0 <= i < hits@.len() && presses(#[trigger] hits@[i], id@),
{
    let n = hits.len();
    let mut i: usize = 0;
    while i < n
        invariant
            n == hits@.len(),
            i <= n,
            forall|j: int| 0 <= j < i ==> !presses(#[trigger] hits@[j], id@),
        decreases n - i,
    {
        if targets_exec(&hits[i], id) && hits[i].phase.is_down() {
            return true;
        }
        i = i + 1;
    }
    false
}

/// Returns the positions, in order, of the hits that press the element id.
pub fn pointers_pressing<P>(hits: &[PointerHit<P>], id: &str) -> (r: Vec<usize>)
    ensures
        forall|k: int| 0 <= k < r@.len() ==> (#[trigger] r@[k]) < hits@.len() && presses(hits@[r@[k] as int], id@),
        forall|a: int, b: int| 0 <= a < b < r@.len() ==> #[trigger] r@[a] < #[trigger] r@[b],
        forall|i: int| 0 <= i < hits@.len() && presses(#[trigger] hits@[i], id@) ==> r@.contains(i as usize),
{
    let n = hits.len();
    let mut out: Vec<usize> = Vec::new();
    let mut i: usize = 0;
    while i < n
        invariant
            n == hits@.len(),
            i <= n,
            forall|k: int| 0 <= k < out@.len() ==> (#[trigger] out@[k]) < i && presses(hits@[out@[k] as int], id@),
            forall|a: int, b: int| 0 <= a < b < out@.len() ==> #[trigger] out@[a] < #[trigger] out@[b],
            forall|j: int| 0 <= j < i && presses(#[trigger] hits@[j], id@) ==> out@.contains(j as usize),
        decreases n - i,
    {
        if targets_exec(&hits[i], id) && hits[i].phase.is_down() {
            let ghost before = out@;
            out.push(i);
            proof {
                assert(out@[before.len() as int] == i);
                assert forall|j: int| 0 <= j < i + 1 && presses(#[trigger] hits@[j], id@) implies out@.contains(j as usize) by {
                    if j < i {
                        let k = choose|k: int| 0 <= k < before.len() && before[k] == j as usize;
                        assert(out@[k] == j as usize);
                    }
                }
            }
        }
        i = i + 1;
    }
    out
}

/// Returns unique element ids currently under pointers, in order of first
/// appearance.
pub fn pointer_over_ids<'a, P>(hits: &'a [PointerHit<P>]) -> (r: Vec<&'a str>)
    ensures
        r@.map_values(|s: &str| s@) == distinct_targets(hits@),
{
    let n = hits.len();
    let mut out: Vec<&'a str> = Vec::new();
    let mut i: usize = 0;
    while i < n
        invariant
            n == hits@.len(),
            i <= n,
            out@.map_values(|s: &str| s@) == distinct_targets(hits@.take(i as int)),
        decreases n - i,
    {
        assert(hits@.take(i + 1).drop_last() =~= hits@.take(i as int));
        assert(hits@.take(i + 1).last() == hits@[i as int]);
        if let Some(e) = &hits[i].element_id {
            let id = e.as_str();
            let ghost seen = out@.map_values(|s: &str| s@);
            let mut found = false;
            let mut k: usize = 0;
            while k < out.len()
                invariant
                    k <= out@.len(),
                    seen == out@.map_values(|s: &str| s@),
                    found == exists|j: int| 0 <= j < k && (#[trigger] out@[j])@ == id@,
                decreases out@.len() - k,
            {
                if same_text(out[k], id) {
                    found = true;
                }
                k = k + 1;
            }
            proof {
                if found {
                    let j = choose|j: int| 0 <= j < k && (#[trigger] out@[j])@ == id@;
                    assert(seen[j] == id@);
                } else {
                    assert forall|j: int| 0 <= j < seen.len() implies seen[j] != id@ by {
                        assert(seen[j] == out@[j]@);
                    }
                }
            }
            if !found {
                out.push(id);
                proof {
                    assert(out@.map_values(|s: &str| s@) =~= seen.push(id@));
                }
            }
        }
        i = i + 1;
    }
    proof {
        assert(hits@.take(n as int) =~= hits@);
    }
    out
}

/// The topmost hit among candidates listed in paint order: the last one whose
/// bounds contain the point.
pub fn topmost_hit(contains: &[bool]) -> (r: Option<usize>)
    ensures
        match r {
            Some(i) => i < contains@.len() && contains@[i as int] && forall|j: int|
                i < j < contains@.len() ==> !(#[trigger] contains@[j]),
            None => forall|j: int| 0 <= j < contains@.len() ==> !(#[trigger] contains@[j]),
        },
{
    let mut i = contains.len();
    while i > 0
        invariant
            i <= contains@.len(),
            forall|j: int| i <= j < contains@.len() ==> !(#[trigger] contains@[j]),
        decreases i,
    {
        i = i - 1;
        if contains[i] {
            return Some(i);
        }
    }
    None
}

/// The element a pointer reports: its capture target when captured,
/// otherwise whatever the hit test found.
pub fn pointer_target(capture: Option<&str>, hit: Option<&str>) -> (r: Option<String>)
    ensures
        capture is Some ==> r is Some && r->0@ == capture->0@,
        capture is None && hit is Some ==> r is Some && r->0@ == hit->0@,
        capture is None && hit is None ==> r is None,
{
    match capture {
        Some(c) => Some(c.to_owned()),
        None => match hit {
            Some(h) => Some(h.to_owned()),
            None => None,
        },
    }
}

} // verus!

verus! {

/// The ids under pointers are listed once each, and exactly the ids some
/// pointer is over are listed.
pub proof fn lemma_distinct_targets<P>(hits: Seq<PointerHit<P>>)
    ensures
        forall|a: int, b: int|
            0 <= a < b < distinct_targets(hits).len() ==> #[trigger] distinct_targets(hits)[a]
                != #[trigger] distinct_targets(hits)[b],
        forall|e: Seq<char>|
            #[trigger] distinct_targets(hits).contains(e) <==> exists|i: int|
                0 <= i < hits.len() && targets(#[trigger] hits[i], e),
    decreases hits.len(),
{
    if hits.len() > 0 {
        let init = hits.drop_last();
        lemma_distinct_targets(init);
        let rest = distinct_targets(init);
        let r = distinct_targets(hits);
        assert forall|e: Seq<char>| (exists|i: int| 0 <= i < hits.len() && targets(#[trigger] hits[i], e)) <==> ((
        exists|i: int| 0 <= i < init.len() && targets(#[trigger] init[i], e)) || targets(hits.last(), e)) by {
            if exists|i: int| 0 <= i < hits.len() && targets(#[trigger] hits[i], e) {
                let i = choose|i: int| 0 <= i < hits.len() && targets(#[trigger] hits[i], e);
                if i < init.len() {
                    assert(init[i] == hits[i]);
                }
            }
            if exists|i: int| 0 <= i < init.len() && targets(#[trigger] init[i], e) {
                let i = choose|i: int| 0 <= i < init.len() && targets(#[trigger] init[i], e);
                assert(hits[i] == init[i]);
            }
            if targets(hits.last(), e) {
                assert(hits[hits.len() - 1] == hits.last());
            }
        }
        match hits.last().element_id {
            Some(x) => {
                if rest.contains(x@) {
                    assert(r == rest);
                } else {
                    assert(r == rest.push(x@));
                    assert forall|e: Seq<char>| r.contains(e) <==> (rest.contains(e) || e == x@) by {
                        if r.contains(e) {
                            let j = choose|j: int| 0 <= j < r.len() && r[j] == e;
                            if j < rest.len() {
                                assert(rest[j] == e);
                            }
                        }
                        if rest.contains(e) {
                            let j = choose|j: int| 0 <= j < rest.len() && rest[j] == e;
                            assert(r[j] == e);
                        }
                        if e == x@ {
                            assert(r[rest.len() as int] == e);
                        }
                    }
                    assert forall|a: int, b: int| 0 <= a < b < r.len() implies #[trigger] r[a] != #[trigger] r[b] by {
                        if b == rest.len() {
                            assert(r[a] == rest[a]);
                        } else {
                            assert(r[a] == rest[a] && r[b] == rest[b]);
                        }
                    }
                }
            },
            None => {
                assert(r == rest);
            },
        }
        assert forall|e: Seq<char>| #[trigger] r.contains(e) <==> exists|i: int|
            0 <= i < hits.len() && targets(#[trigger] hits[i], e) by {
            assert(rest.contains(e) <==> exists|i: int| 0 <= i < init.len() && targets(#[trigger] init[i], e));
            if targets(hits.last(), e) {
                assert(hits.last().element_id is Some);
            }
        }
    }
}

/// A pointer pressing an element is over it.
pub proof fn lemma_pressed_is_over<P>(hits: Seq<PointerHit<P>>, id: Seq<char>)
    requires
        exists|i: int| 0 <= i < hits.len() && presses(#[trigger] hits[i], id),
    ensures
        exists|i: int| 0 <= i < hits.len() && targets(#[trigger] hits[i], id),
{
    let i = choose|i: int| 0 <= i < hits.len() && presses(#[trigger] hits[i], id);
    assert(targets(hits[i], id));
}

} // verus!
