//! Pointer identities, phases, and the per-frame pointer registry.
use vstd::prelude::*;

verus! {

/// Identifier for a pointer source.
#[derive(Debug, Clone, Copy, PartialEq, Eq, Hash, Structural)]
pub enum PointerId {
    /// The mouse pointer.
    Mouse,
    /// A touchscreen contact with an application-provided id.
    Touch(u64),
}

/// Mouse button associated with a pointer press.
#[derive(Debug, Clone, Copy, PartialEq, Eq, Hash, Structural)]
pub enum MouseButton {
    /// Primary mouse button.
    Left,
    /// Secondary mouse button.
    Right,
    /// Middle mouse button.
    Middle,
    /// Platform-specific extra button.
    Other(u16),
}

/// Pointer lifecycle phase for a layout frame.
#[derive(Debug, Clone, Copy, PartialEq, Eq, Structural)]
pub enum PointerPhase {
    /// Pointer is present but not pressed.
    Hover,
    /// Pointer became pressed this frame.
    PressedThisFrame,
    /// Pointer is held down.
    Pressed,
    /// Pointer was released this frame.
    ReleasedThisFrame,
    /// Pointer is no longer active and will be removed after the frame.
    Released,
}

/// Gesture currently winning for a pointer.
#[derive(Debug, Clone, Copy, PartialEq, Eq, Hash, Structural)]
pub enum PointerGesture {
    /// The pointer is still eligible for a tap/click.
    Tap,
    /// The pointer has moved enough to become a scroll gesture.
    Scroll,
}

/// Phase of a wheel or touchpad scroll gesture.
#[derive(Debug, Clone, Copy, PartialEq, Eq, Hash, Structural)]
pub enum TouchPhase {
    /// Scroll gesture started.
    Started,
    /// Scroll gesture moved.
    Moved,
    /// Scroll gesture ended.
    Ended,
    /// Scroll gesture was cancelled.
    Cancelled,
}

/// Whether a phase counts as pressed.
pub open spec fn phase_is_down(phase: PointerPhase) -> bool {
    phase is PressedThisFrame || phase is Pressed
}

/// The phase a pointer takes when its button state is reported: a press
/// begins, continues, ends, or the pointer merely hovers.
pub open spec fn next_phase(was_down: bool, down: bool) -> PointerPhase {
    if was_down {
        if down {
            PointerPhase::Pressed
        } else {
            PointerPhase::ReleasedThisFrame
        }
    } else if down {
        PointerPhase::PressedThisFrame
    } else {
        PointerPhase::Hover
    }
}

/// The phase a pointer carries into the next frame: "this frame" phases
/// become their lasting counterparts.
pub open spec fn settled_phase(phase: PointerPhase) -> PointerPhase {
    match phase {
        PointerPhase::PressedThisFrame => PointerPhase::Pressed,
        PointerPhase::ReleasedThisFrame => PointerPhase::Released,
        other => other,
    }
}

impl PointerPhase {
    /// Returns true while the pointer is pressed.
    pub fn is_down(self) -> (r: bool)
        ensures
            r == phase_is_down(self),
    {
        match self {
            PointerPhase::PressedThisFrame | PointerPhase::Pressed => true,
            _ => false,
        }
    }
}

/// Current state for one pointer. `P` is the host's point type and `V` its
/// scroll-delta type; the registry only moves such values around.
#[derive(Debug, Clone, Copy, PartialEq)]
pub struct Pointer<P, V> {
    /// Pointer identifier.
    pub id: PointerId,
    /// Current pointer position.
    pub position: P,
    /// Previous-frame pointer position.
    pub previous_position: P,
    /// Position where the current press started.
    pub start_position: P,
    /// Scroll wheel or trackpad delta accumulated for this frame.
    pub scroll_delta: V,
    /// Phase of the wheel or touchpad scroll gesture for this frame.
    pub scroll_phase: Option<TouchPhase>,
    /// Current pointer phase.
    pub phase: PointerPhase,
    /// Mouse button for mouse presses. Touch pointers use `None`.
    pub mouse_button: Option<MouseButton>,
    /// Gesture currently winning for this pointer.
    pub gesture: PointerGesture,
    /// Monotonic order in which this pointer contact started.
    pub sequence: u64,
}

/// Whether some entry of `ps` has identifier `id`.
pub open spec fn has_pointer<P, V>(ps: Seq<Pointer<P, V>>, id: PointerId) -> bool {
    exists|i: int| 0 <= i < ps.len() && (#[trigger] ps[i]).id == id
}

/// The entry of `ps` with identifier `id` (meaningful when there is one).
pub open spec fn pointer_with<P, V>(ps: Seq<Pointer<P, V>>, id: PointerId) -> Pointer<P, V> {
    ps[choose|i: int| 0 <= i < ps.len() && (#[trigger] ps[i]).id == id]
}

/// No two entries share an identifier.
pub open spec fn ids_unique<P, V>(ps: Seq<Pointer<P, V>>) -> bool {
    forall|i: int, j: int|
        0 <= i < ps.len() && 0 <= j < ps.len() && (#[trigger] ps[i]).id == (#[trigger] ps[j]).id
            ==> i == j
}

/// The entries of `ps` as a map keyed by identifier.
pub open spec fn pointer_map_of<P, V>(ps: Seq<Pointer<P, V>>) -> Map<PointerId, Pointer<P, V>> {
    Map::new(|id: PointerId| has_pointer(ps, id), |id: PointerId| pointer_with(ps, id))
}

/// The record a pointer gets when the host reports its position and button
/// state. `prev` is its record before the report, if it had one; `fresh` is
/// the sequence number a new contact receives.
pub open spec fn reported_pointer<P, V>(
    prev: Option<Pointer<P, V>>,
    id: PointerId,
    position: P,
    down: bool,
    mouse_button: Option<MouseButton>,
    fresh: u64,
    zero: V,
) -> Pointer<P, V> {
    match prev {
        Some(p) => Pointer {
            id,
            position,
            previous_position: p.position,
            start_position: if down { p.start_position } else { position },
            scroll_delta: p.scroll_delta,
            scroll_phase: p.scroll_phase,
            phase: next_phase(phase_is_down(p.phase), down),
            mouse_button: if down && mouse_button is None { p.mouse_button } else { mouse_button },
            gesture: p.gesture,
            sequence: p.sequence,
        },
        None => Pointer {
            id,
            position,
            previous_position: position,
            start_position: position,
            scroll_delta: zero,
            scroll_phase: None,
            phase: next_phase(false, down),
            mouse_button,
            gesture: PointerGesture::Tap,
            sequence: fresh,
        },
    }
}

/// What a pointer becomes at the end of a frame: `None` when it is dropped
/// (its settled phase is `Released`), otherwise its settled record with the
/// frame's scroll input cleared.
pub open spec fn settled_pointer<P, V>(p: Pointer<P, V>, zero: V) -> Option<Pointer<P, V>> {
    if settled_phase(p.phase) is Released {
        None
    } else {
        Some(Pointer { scroll_delta: zero, scroll_phase: None, phase: settled_phase(p.phase), ..p })
    }
}

/// Mutable input state consumed by the layout engine: the active pointers in
/// the order they first appeared, pointer captures, and the next contact
/// sequence number.
#[derive(Debug, Clone)]
pub struct PointerRegistry<P, V> {
    pointers: Vec<Pointer<P, V>>,
    captures: Vec<(PointerId, String)>,
    next_sequence: u64,
    zero: V,
}

} // verus!

verus! {

/// The entry of `ps` with identifier `id`, if any.
pub open spec fn lookup<P, V>(ps: Seq<Pointer<P, V>>, id: PointerId) -> Option<Pointer<P, V>> {
    if has_pointer(ps, id) {
        Some(pointer_with(ps, id))
    } else {
        None
    }
}

/// In a sequence with unique identifiers, looking up an entry's identifier
/// finds that entry.
pub proof fn lemma_pointer_with_index<P, V>(ps: Seq<Pointer<P, V>>, i: int)
    requires
        ids_unique(ps),
        0 <= i < ps.len(),
    ensures
        has_pointer(ps, ps[i].id),
        pointer_with(ps, ps[i].id) == ps[i],
        lookup(ps, ps[i].id) == Some(ps[i]),
{
    assert(has_pointer(ps, ps[i].id));
    let j = choose|j: int| 0 <= j < ps.len() && (#[trigger] ps[j]).id == ps[i].id;
    assert(ps[j].id == ps[i].id);
}

/// Replacing the entry at `i` by one with the same identifier updates the
/// map view at that identifier only.
proof fn lemma_update_map<P, V>(ps: Seq<Pointer<P, V>>, i: int, p: Pointer<P, V>)
    requires
        ids_unique(ps),
        0 <= i < ps.len(),
        p.id == ps[i].id,
    ensures
        ids_unique(ps.update(i, p)),
        pointer_map_of(ps.update(i, p)) == pointer_map_of(ps).insert(p.id, p),
{
    let qs = ps.update(i, p);
    assert(ids_unique(qs)) by {
        assert forall|a: int, b: int|
            0 <= a < qs.len() && 0 <= b < qs.len() && (#[trigger] qs[a]).id == (#[trigger] qs[b]).id
            implies a == b by {
            assert(qs[a].id == ps[a].id);
            assert(qs[b].id == ps[b].id);
        }
    }
    assert forall|k: PointerId| #[trigger] has_pointer(qs, k) == (has_pointer(ps, k) || k == p.id) by {
        if has_pointer(ps, k) {
            let j = choose|j: int| 0 <= j < ps.len() && (#[trigger] ps[j]).id == k;
            assert(qs[j].id == k);
        }
        if has_pointer(qs, k) {
            let j = choose|j: int| 0 <= j < qs.len() && (#[trigger] qs[j]).id == k;
            assert(ps[j].id == k);
        }
        if k == p.id {
            assert(qs[i].id == k);
        }
    }
    assert forall|k: PointerId| has_pointer(qs, k) implies #[trigger] pointer_with(qs, k) == (
    if k == p.id {
        p
    } else {
        pointer_with(ps, k)
    }) by {
        let j = choose|j: int| 0 <= j < qs.len() && (#[trigger] qs[j]).id == k;
        lemma_pointer_with_index(qs, j);
        if k == p.id {
            assert(qs[i].id == k);
        } else {
            assert(j != i);
            lemma_pointer_with_index(ps, j);
        }
    }
    assert(pointer_map_of(qs) =~= pointer_map_of(ps).insert(p.id, p));
}

/// Appending an entry with a new identifier adds it to the map view.
proof fn lemma_push_map<P, V>(ps: Seq<Pointer<P, V>>, p: Pointer<P, V>)
    requires
        ids_unique(ps),
        !has_pointer(ps, p.id),
    ensures
        ids_unique(ps.push(p)),
        pointer_map_of(ps.push(p)) == pointer_map_of(ps).insert(p.id, p),
{
    let qs = ps.push(p);
    let n = ps.len() as int;
    assert(ids_unique(qs)) by {
        assert forall|a: int, b: int|
            0 <= a < qs.len() && 0 <= b < qs.len() && (#[trigger] qs[a]).id == (#[trigger] qs[b]).id
            implies a == b by {
            if a < n && b < n {
                assert(qs[a] == ps[a] && qs[b] == ps[b]);
            } else if a < n {
                assert(qs[a] == ps[a]);
                assert(!has_pointer(ps, p.id));
                assert(ps[a].id != p.id);
            } else if b < n {
                assert(qs[b] == ps[b]);
                assert(ps[b].id != p.id);
            }
        }
    }
    assert forall|k: PointerId| #[trigger] has_pointer(qs, k) == (has_pointer(ps, k) || k == p.id) by {
        if has_pointer(ps, k) {
            let j = choose|j: int| 0 <= j < ps.len() && (#[trigger] ps[j]).id == k;
            assert(qs[j].id == k);
        }
        if has_pointer(qs, k) {
            let j = choose|j: int| 0 <= j < qs.len() && (#[trigger] qs[j]).id == k;
            if j < n {
                assert(ps[j].id == k);
            }
        }
        if k == p.id {
            assert(qs[n].id == k);
        }
    }
    assert forall|k: PointerId| has_pointer(qs, k) implies #[trigger] pointer_with(qs, k) == (
    if k == p.id {
        p
    } else {
        pointer_with(ps, k)
    }) by {
        let j = choose|j: int| 0 <= j < qs.len() && (#[trigger] qs[j]).id == k;
        lemma_pointer_with_index(qs, j);
        if j < n {
            assert(qs[j] == ps[j]);
            lemma_pointer_with_index(ps, j);
        }
    }
    assert(pointer_map_of(qs) =~= pointer_map_of(ps).insert(p.id, p));
}

impl<P: Copy, V: Copy> PointerRegistry<P, V> {
    /// The active pointers in the order they first appeared.
    pub closed spec fn entries(&self) -> Seq<Pointer<P, V>> {
        self.pointers@
    }

    /// The pointer captures in the order they were made.
    pub closed spec fn capture_entries(&self) -> Seq<(PointerId, String)> {
        self.captures@
    }

    /// The sequence number the next new contact receives.
    pub closed spec fn sequence_counter(&self) -> u64 {
        self.next_sequence
    }

    /// The "no scroll input" delta value.
    pub closed spec fn zero_delta(&self) -> V {
        self.zero
    }

    /// The registry's internal invariant.
    pub closed spec fn wf(&self) -> bool {
        &&& ids_unique(self.pointers@)
        &&& forall|i: int| 0 <= i < self.pointers@.len() ==> (#[trigger] self.pointers@[i]).sequence < self.next_sequence
        &&& forall|i: int, j: int|
            0 <= i < self.captures@.len() && 0 <= j < self.captures@.len()
                && (#[trigger] self.captures@[i]).0 == (#[trigger] self.captures@[j]).0 ==> i == j
    }

    /// The active pointers keyed by identifier.
    pub open spec fn pointer_map(&self) -> Map<PointerId, Pointer<P, V>> {
        pointer_map_of(self.entries())
    }

    /// The current record of pointer `id`, if it is active.
    pub open spec fn pointer_spec(&self, id: PointerId) -> Option<Pointer<P, V>> {
        if self.pointer_map().contains_key(id) {
            Some(self.pointer_map()[id])
        } else {
            None
        }
    }

    /// Whether a report for pointer `id` can be accepted: either it is
    /// already active, or a fresh sequence number is left.
    pub open spec fn can_report(&self, id: PointerId) -> bool {
        self.pointer_map().contains_key(id) || self.sequence_counter() < u64::MAX
    }

    /// The capture target of each captured pointer.
    pub closed spec fn capture_map(&self) -> Map<PointerId, Seq<char>> {
        Map::new(
            |id: PointerId| exists|i: int| 0 <= i < self.captures@.len() && (#[trigger] self.captures@[i]).0 == id,
            |id: PointerId|
                self.captures@[choose|i: int|
                    0 <= i < self.captures@.len() && (#[trigger] self.captures@[i]).0 == id].1@,
        )
    }

    /// An empty registry; `zero` is the delta that stands for "no scroll".
    pub fn new(zero: V) -> (r: Self)
        ensures
            r.wf(),
            r.entries() == Seq::<Pointer<P, V>>::empty(),
            r.capture_map() == Map::<PointerId, Seq<char>>::empty(),
            r.sequence_counter() == 0,
            r.zero_delta() == zero,
    {
        let r = PointerRegistry { pointers: Vec::new(), captures: Vec::new(), next_sequence: 0, zero };
        assert(r.capture_map() =~= Map::<PointerId, Seq<char>>::empty());
        r
    }

    fn find(&self, id: PointerId) -> (r: Option<usize>)
        requires
            self.wf(),
        ensures
            match r {
                Some(i) => i < self.pointers@.len() && self.pointers@[i as int].id == id,
                None => !has_pointer(self.pointers@, id),
            },
    {
        let n = self.pointers.len();
        let mut i: usize = 0;
        while i < n
            invariant
                n == self.pointers@.len(),
                i <= n,
                forall|j: int| 0 <= j < i ==> (#[trigger] self.pointers@[j]).id != id,
            decreases n - i,
        {
            if self.pointers[i].id == id {
                return Some(i);
            }
            i = i + 1;
        }
        None
    }

    /// Returns the current record of pointer `id`, if it is active.
    pub fn pointer(&self, id: PointerId) -> (r: Option<Pointer<P, V>>)
        requires
            self.wf(),
        ensures
            r == self.pointer_spec(id),
    {
        match self.find(id) {
            Some(i) => {
                proof {
                    lemma_pointer_with_index(self.pointers@, i as int);
                }
                Some(self.pointers[i])
            },
            None => None,
        }
    }

    /// The sequence number the next new contact receives. A report of a
    /// new pointer needs it below `u64::MAX`.
    pub fn next_sequence(&self) -> (r: u64)
        ensures
            r == self.sequence_counter(),
    {
        self.next_sequence
    }

    /// Records a report of pointer `id` at `position` with button state
    /// `down`; a new contact receives the next sequence number.
    pub fn set_pointer(
        &mut self,
        id: PointerId,
        position: P,
        down: bool,
        mouse_button: Option<MouseButton>,
    )
        requires
            old(self).wf(),
            old(self).can_report(id),
        ensures
            final(self).wf(),
            final(self).pointer_map() == old(self).pointer_map().insert(
                id,
                reported_pointer(
                    old(self).pointer_spec(id),
                    id,
                    position,
                    down,
                    mouse_button,
                    old(self).sequence_counter(),
                    old(self).zero_delta(),
                ),
            ),
            final(self).sequence_counter() == if has_pointer(old(self).entries(), id) {
                old(self).sequence_counter()
            } else {
                (old(self).sequence_counter() + 1) as u64
            },
            final(self).entries().len() >= old(self).entries().len(),
            forall|i: int|
                0 <= i < old(self).entries().len() ==> (#[trigger] final(self).entries()[i]).id
                    == old(self).entries()[i].id,
            final(self).capture_map() == old(self).capture_map(),
            final(self).zero_delta() == old(self).zero_delta(),
    {
        let ghost old_ps = self.pointers@;
        match self.find(id) {
            Some(i) => {
                let prev = self.pointers[i];
                proof {
                    lemma_pointer_with_index(old_ps, i as int);
                }
                let next = Pointer {
                    id,
                    position,
                    previous_position: prev.position,
                    start_position: if down { prev.start_position } else { position },
                    scroll_delta: prev.scroll_delta,
                    scroll_phase: prev.scroll_phase,
                    phase: phase_after_report(prev.phase.is_down(), down),
                    mouse_button: if down && mouse_button.is_none() { prev.mouse_button } else { mouse_button },
                    gesture: prev.gesture,
                    sequence: prev.sequence,
                };
                self.pointers.set(i, next);
                proof {
                    lemma_update_map(old_ps, i as int, next);
                }
            },
            None => {
                let next = Pointer {
                    id,
                    position,
                    previous_position: position,
                    start_position: position,
                    scroll_delta: self.zero,
                    scroll_phase: None,
                    phase: phase_after_report(false, down),
                    mouse_button,
                    gesture: PointerGesture::Tap,
                    sequence: self.next_sequence,
                };
                self.pointers.push(next);
                self.next_sequence = self.next_sequence + 1;
                proof {
                    lemma_push_map(old_ps, next);
                }
            },
        }
    }
}


impl<P: Copy, V: Copy> PointerRegistry<P, V> {
    /// Updates mouse hover position, keeping the mouse's button state.
    pub fn set_mouse_position(&mut self, position: P)
        requires
            old(self).wf(),
            old(self).can_report(PointerId::Mouse),
        ensures
            final(self).wf(),
            final(self).pointer_map() == old(self).pointer_map().insert(
                PointerId::Mouse,
                reported_pointer(
                    old(self).pointer_spec(PointerId::Mouse),
                    PointerId::Mouse,
                    position,
                    match old(self).pointer_spec(PointerId::Mouse) {
                        Some(p) => phase_is_down(p.phase),
                        None => false,
                    },
                    match old(self).pointer_spec(PointerId::Mouse) {
                        Some(p) => p.mouse_button,
                        None => None,
                    },
                    old(self).sequence_counter(),
                    old(self).zero_delta(),
                ),
            ),
            final(self).sequence_counter() == if has_pointer(old(self).entries(), PointerId::Mouse) {
                old(self).sequence_counter()
            } else {
                (old(self).sequence_counter() + 1) as u64
            },
            final(self).capture_map() == old(self).capture_map(),
            final(self).zero_delta() == old(self).zero_delta(),
    {
        let previous = self.pointer(PointerId::Mouse);
        let (down, button) = match previous {
            Some(p) => (p.phase.is_down(), p.mouse_button),
            None => (false, None),
        };
        self.set_pointer(PointerId::Mouse, position, down, button);
    }

    /// Updates the primary mouse button state and position.
    pub fn set_mouse_down(&mut self, position: P, down: bool)
        requires
            old(self).wf(),
            old(self).can_report(PointerId::Mouse),
        ensures
            final(self).wf(),
            final(self).pointer_map() == old(self).pointer_map().insert(
                PointerId::Mouse,
                reported_pointer(
                    old(self).pointer_spec(PointerId::Mouse),
                    PointerId::Mouse,
                    position,
                    down,
                    Some(MouseButton::Left),
                    old(self).sequence_counter(),
                    old(self).zero_delta(),
                ),
            ),
            final(self).sequence_counter() == if has_pointer(old(self).entries(), PointerId::Mouse) {
                old(self).sequence_counter()
            } else {
                (old(self).sequence_counter() + 1) as u64
            },
            final(self).capture_map() == old(self).capture_map(),
            final(self).zero_delta() == old(self).zero_delta(),
    {
        self.set_mouse_button(position, MouseButton::Left, down);
    }

    /// Updates mouse button state and position.
    pub fn set_mouse_button(&mut self, position: P, button: MouseButton, down: bool)
        requires
            old(self).wf(),
            old(self).can_report(PointerId::Mouse),
        ensures
            final(self).wf(),
            final(self).pointer_map() == old(self).pointer_map().insert(
                PointerId::Mouse,
                reported_pointer(
                    old(self).pointer_spec(PointerId::Mouse),
                    PointerId::Mouse,
                    position,
                    down,
                    Some(button),
                    old(self).sequence_counter(),
                    old(self).zero_delta(),
                ),
            ),
            final(self).sequence_counter() == if has_pointer(old(self).entries(), PointerId::Mouse) {
                old(self).sequence_counter()
            } else {
                (old(self).sequence_counter() + 1) as u64
            },
            final(self).capture_map() == old(self).capture_map(),
            final(self).zero_delta() == old(self).zero_delta(),
    {
        self.set_pointer(PointerId::Mouse, position, down, Some(button));
    }

    /// Updates a touch point.
    pub fn set_touch(&mut self, id: u64, position: P, down: bool)
        requires
            old(self).wf(),
            old(self).can_report(PointerId::Touch(id)),
        ensures
            final(self).wf(),
            final(self).pointer_map() == old(self).pointer_map().insert(
                PointerId::Touch(id),
                reported_pointer(
                    old(self).pointer_spec(PointerId::Touch(id)),
                    PointerId::Touch(id),
                    position,
                    down,
                    None,
                    old(self).sequence_counter(),
                    old(self).zero_delta(),
                ),
            ),
            final(self).sequence_counter() == if has_pointer(old(self).entries(), PointerId::Touch(id)) {
                old(self).sequence_counter()
            } else {
                (old(self).sequence_counter() + 1) as u64
            },
            final(self).capture_map() == old(self).capture_map(),
            final(self).zero_delta() == old(self).zero_delta(),
    {
        self.set_pointer(PointerId::Touch(id), position, down, None);
    }

    /// Releases a touch point at `position`.
    pub fn remove_touch(&mut self, id: u64, position: P)
        requires
            old(self).wf(),
            old(self).can_report(PointerId::Touch(id)),
        ensures
            final(self).wf(),
            final(self).pointer_map() == old(self).pointer_map().insert(
                PointerId::Touch(id),
                reported_pointer(
                    old(self).pointer_spec(PointerId::Touch(id)),
                    PointerId::Touch(id),
                    position,
                    false,
                    None,
                    old(self).sequence_counter(),
                    old(self).zero_delta(),
                ),
            ),
            final(self).sequence_counter() == if has_pointer(old(self).entries(), PointerId::Touch(id)) {
                old(self).sequence_counter()
            } else {
                (old(self).sequence_counter() + 1) as u64
            },
            final(self).capture_map() == old(self).capture_map(),
            final(self).zero_delta() == old(self).zero_delta(),
    {
        self.set_touch(id, position, false);
    }

    /// Replaces the record of pointer `id` with `next` if it is active;
    /// `next` keeps the identifier and sequence number.
    fn update_existing(&mut self, id: PointerId, next: Pointer<P, V>)
        requires
            old(self).wf(),
            next.id == id,
            has_pointer(old(self).entries(), id) ==> next.sequence == pointer_with(old(self).entries(), id).sequence,
        ensures
            final(self).wf(),
            final(self).pointer_map() == if has_pointer(old(self).entries(), id) {
                old(self).pointer_map().insert(id, next)
            } else {
                old(self).pointer_map()
            },
            final(self).entries().len() == old(self).entries().len(),
            forall|i: int|
                0 <= i < old(self).entries().len() ==> (#[trigger] final(self).entries()[i]).id
                    == old(self).entries()[i].id,
            final(self).sequence_counter() == old(self).sequence_counter(),
            final(self).capture_map() == old(self).capture_map(),
            final(self).zero_delta() == old(self).zero_delta(),
    {
        let ghost old_ps = self.pointers@;
        if let Some(i) = self.find(id) {
            proof {
                lemma_pointer_with_index(old_ps, i as int);
            }
            self.pointers.set(i, next);
            proof {
                lemma_update_map(old_ps, i as int, next);
            }
        }
    }

    /// Replaces the scroll input of pointer `id` for this frame, if it is
    /// active. Hosts accumulate deltas by passing the previous delta plus the
    /// new one.
    pub fn replace_scroll_input(&mut self, id: PointerId, delta: V, phase: Option<TouchPhase>)
        requires
            old(self).wf(),
        ensures
            final(self).wf(),
            final(self).pointer_map() == match old(self).pointer_spec(id) {
                Some(p) => old(self).pointer_map().insert(
                    id,
                    Pointer { scroll_delta: delta, scroll_phase: phase, ..p },
                ),
                None => old(self).pointer_map(),
            },
            final(self).sequence_counter() == old(self).sequence_counter(),
            final(self).capture_map() == old(self).capture_map(),
            final(self).zero_delta() == old(self).zero_delta(),
    {
        if let Some(p) = self.pointer(id) {
            self.update_existing(id, Pointer { scroll_delta: delta, scroll_phase: phase, ..p });
        }
    }

    /// Marks a pointer as a scroll gesture winner.
    pub fn mark_scroll_gesture(&mut self, id: PointerId)
        requires
            old(self).wf(),
        ensures
            final(self).wf(),
            final(self).pointer_map() == match old(self).pointer_spec(id) {
                Some(p) => old(self).pointer_map().insert(
                    id,
                    Pointer { gesture: PointerGesture::Scroll, ..p },
                ),
                None => old(self).pointer_map(),
            },
            final(self).sequence_counter() == old(self).sequence_counter(),
            final(self).capture_map() == old(self).capture_map(),
            final(self).zero_delta() == old(self).zero_delta(),
    {
        if let Some(p) = self.pointer(id) {
            self.update_existing(id, Pointer { gesture: PointerGesture::Scroll, ..p });
        }
    }

    /// Consumes movement used by pre-layout gesture handling: the previous
    /// position catches up with the current one and scroll input is cleared.
    pub fn consume_pointer_delta(&mut self, id: PointerId)
        requires
            old(self).wf(),
        ensures
            final(self).wf(),
            final(self).pointer_map() == match old(self).pointer_spec(id) {
                Some(p) => old(self).pointer_map().insert(
                    id,
                    Pointer {
                        previous_position: p.position,
                        scroll_delta: old(self).zero_delta(),
                        scroll_phase: None,
                        ..p
                    },
                ),
                None => old(self).pointer_map(),
            },
            final(self).sequence_counter() == old(self).sequence_counter(),
            final(self).capture_map() == old(self).capture_map(),
            final(self).zero_delta() == old(self).zero_delta(),
    {
        if let Some(p) = self.pointer(id) {
            let next = Pointer {
                previous_position: p.position,
                scroll_delta: self.zero,
                scroll_phase: None,
                ..p
            };
            self.update_existing(id, next);
        }
    }

    /// Returns the active pointers in the order they first appeared.
    pub fn pointers(&self) -> (r: Vec<Pointer<P, V>>)
        requires
            self.wf(),
        ensures
            r@ == self.entries(),
            ids_unique(r@),
    {
        let n = self.pointers.len();
        let mut out: Vec<Pointer<P, V>> = Vec::new();
        let mut i: usize = 0;
        while i < n
            invariant
                n == self.pointers@.len(),
                i <= n,
                out@ == self.pointers@.take(i as int),
            decreases n - i,
        {
            out.push(self.pointers[i]);
            i = i + 1;
            proof {
                assert(out@ =~= self.pointers@.take(i as int));
            }
        }
        proof {
            assert(self.pointers@.take(n as int) =~= self.pointers@);
        }
        out
    }

    /// Returns whether any active pointer is pressed.
    pub fn any_pressed(&self) -> (r: bool)
        requires
            self.wf(),
        ensures
            r == exists|i: int| 0 <= i < self.entries().len() && phase_is_down((#[trigger] self.entries()[i]).phase),
    {
        let n = self.pointers.len();
        let mut i: usize = 0;
        while i < n
            invariant
                n == self.pointers@.len(),
                i <= n,
                forall|j: int| 0 <= j < i ==> !phase_is_down((#[trigger] self.pointers@[j]).phase),
            decreases n - i,
        {
            if self.pointers[i].phase.is_down() {
                return true;
            }
            i = i + 1;
        }
        false
    }

    /// Returns the pressed touch contacts in the order they first appeared.
    /// A pinch is reported by hosts exactly when there are two of them.
    pub fn pressed_touches(&self) -> (r: Vec<Pointer<P, V>>)
        requires
            self.wf(),
        ensures
            r@ == self.entries().filter(|p: Pointer<P, V>| p.id is Touch && phase_is_down(p.phase)),
    {
        let ghost pred = |p: Pointer<P, V>| p.id is Touch && phase_is_down(p.phase);
        let n = self.pointers.len();
        let mut out: Vec<Pointer<P, V>> = Vec::new();
        let mut i: usize = 0;
        while i < n
            invariant
                n == self.pointers@.len(),
                i <= n,
                out@ == self.pointers@.take(i as int).filter(pred),
                pred == (|p: Pointer<P, V>| p.id is Touch && phase_is_down(p.phase)),
            decreases n - i,
        {
            let p = self.pointers[i];
            reveal_with_fuel(Seq::filter, 1);
            assert(self.pointers@.take(i + 1).drop_last() =~= self.pointers@.take(i as int));
            let is_touch = match p.id {
                PointerId::Touch(_) => true,
                PointerId::Mouse => false,
            };
            let keep = is_touch && p.phase.is_down();
            if keep {
                out.push(p);
            }
            i = i + 1;
        }
        proof {
            assert(self.pointers@.take(n as int) =~= self.pointers@);
        }
        out
    }
}


/// The pointers that remain after a frame ends, keyed by identifier.
pub open spec fn settled_map<P, V>(m: Map<PointerId, Pointer<P, V>>, zero: V) -> Map<PointerId, Pointer<P, V>> {
    Map::new(
        |id: PointerId| m.contains_key(id) && settled_pointer(m[id], zero) is Some,
        |id: PointerId| settled_pointer(m[id], zero)->0,
    )
}

proof fn lemma_settle_map<P, V>(ps: Seq<Pointer<P, V>>, zero: V)
    requires
        ids_unique(ps),
    ensures
        ids_unique(ps.filter_map(|p: Pointer<P, V>| settled_pointer(p, zero))),
        forall|k: PointerId|
            has_pointer(ps.filter_map(|p: Pointer<P, V>| settled_pointer(p, zero)), k) ==> #[trigger] has_pointer(ps, k),
        pointer_map_of(ps.filter_map(|p: Pointer<P, V>| settled_pointer(p, zero))) == settled_map(
            pointer_map_of(ps),
            zero,
        ),
    decreases ps.len(),
{
    let f = |p: Pointer<P, V>| settled_pointer(p, zero);
    if ps.len() == 0 {
        assert(pointer_map_of(ps) =~= Map::<PointerId, Pointer<P, V>>::empty());
        assert(pointer_map_of(ps.filter_map(f)) =~= Map::<PointerId, Pointer<P, V>>::empty());
        assert(settled_map(pointer_map_of(ps), zero) =~= Map::<PointerId, Pointer<P, V>>::empty());
    } else {
        let init = ps.drop_last();
        let last = ps.last();
        assert(ids_unique(init)) by {
            assert forall|a: int, b: int|
                0 <= a < init.len() && 0 <= b < init.len() && (#[trigger] init[a]).id == (#[trigger] init[b]).id
                implies a == b by {
                assert(init[a] == ps[a] && init[b] == ps[b]);
            }
        }
        assert(!has_pointer(init, last.id)) by {
            if has_pointer(init, last.id) {
                let j = choose|j: int| 0 <= j < init.len() && (#[trigger] init[j]).id == last.id;
                assert(ps[j] == init[j]);
                assert(ps[ps.len() - 1] == last);
            }
        }
        assert(ps =~= init.push(last));
        lemma_push_map(init, last);
        lemma_settle_map(init, zero);
        let ri = init.filter_map(f);
        let r = ps.filter_map(f);
        let mi = pointer_map_of(init);
        match f(last) {
            Some(q) => {
                assert(r == ri + seq![q]);
                assert(ri + seq![q] =~= ri.push(q));
                assert(!has_pointer(ri, q.id));
                lemma_push_map(ri, q);
                assert forall|k: PointerId| has_pointer(r, k) implies #[trigger] has_pointer(ps, k) by {
                    if k != q.id {
                        let j = choose|j: int| 0 <= j < r.len() && (#[trigger] r[j]).id == k;
                        if j < ri.len() {
                            assert(r[j] == ri[j]);
                            assert(has_pointer(ri, k));
                            assert(has_pointer(init, k));
                            let w = choose|w: int| 0 <= w < init.len() && (#[trigger] init[w]).id == k;
                            assert(ps[w] == init[w]);
                        }
                    } else {
                        assert(ps[ps.len() - 1].id == k);
                    }
                }
                assert(settled_map(mi.insert(last.id, last), zero) =~= settled_map(mi, zero).insert(q.id, q));
            },
            None => {
                assert(r == ri);
                assert forall|k: PointerId| has_pointer(r, k) implies #[trigger] has_pointer(ps, k) by {
                    assert(has_pointer(init, k));
                    let w = choose|w: int| 0 <= w < init.len() && (#[trigger] init[w]).id == k;
                    assert(ps[w] == init[w]);
                }
                assert(settled_map(mi.insert(last.id, last), zero) =~= settled_map(mi, zero));
            },
        }
    }
}

/// Whether some capture of `cs` is for pointer `id`.
pub open spec fn has_capture(cs: Seq<(PointerId, String)>, id: PointerId) -> bool {
    exists|i: int| 0 <= i < cs.len() && (#[trigger] cs[i]).0 == id
}

/// No two captures are for the same pointer.
pub open spec fn captures_unique(cs: Seq<(PointerId, String)>) -> bool {
    forall|i: int, j: int|
        0 <= i < cs.len() && 0 <= j < cs.len() && (#[trigger] cs[i]).0 == (#[trigger] cs[j]).0 ==> i == j
}

/// The capture target of each pointer that has a capture in `cs`.
pub open spec fn capture_map_of(cs: Seq<(PointerId, String)>) -> Map<PointerId, Seq<char>> {
    Map::new(
        |id: PointerId| has_capture(cs, id),
        |id: PointerId| cs[choose|i: int| 0 <= i < cs.len() && (#[trigger] cs[i]).0 == id].1@,
    )
}

proof fn lemma_capture_index(cs: Seq<(PointerId, String)>, i: int)
    requires
        captures_unique(cs),
        0 <= i < cs.len(),
    ensures
        capture_map_of(cs).contains_key(cs[i].0),
        capture_map_of(cs)[cs[i].0] == cs[i].1@,
{
    assert(has_capture(cs, cs[i].0));
    let j = choose|j: int| 0 <= j < cs.len() && (#[trigger] cs[j]).0 == cs[i].0;
    assert(cs[j].0 == cs[i].0);
}

/// Every capture map entry comes from some capture in the sequence.
proof fn lemma_capture_witness(cs: Seq<(PointerId, String)>, id: PointerId) -> (j: int)
    requires
        captures_unique(cs),
        capture_map_of(cs).contains_key(id),
    ensures
        0 <= j < cs.len(),
        cs[j].0 == id,
        capture_map_of(cs)[id] == cs[j].1@,
{
    let j = choose|j: int| 0 <= j < cs.len() && (#[trigger] cs[j]).0 == id;
    lemma_capture_index(cs, j);
    j
}

impl<P: Copy, V: Copy> PointerRegistry<P, V> {
    proof fn lemma_capture_map_is(&self)
        ensures
            self.capture_map() == capture_map_of(self.captures@),
    {
        assert(self.capture_map() =~= capture_map_of(self.captures@));
    }

    fn find_capture(&self, id: PointerId) -> (r: Option<usize>)
        requires
            self.wf(),
        ensures
            match r {
                Some(i) => i < self.captures@.len() && self.captures@[i as int].0 == id,
                None => !has_capture(self.captures@, id),
            },
    {
        let n = self.captures.len();
        let mut i: usize = 0;
        while i < n
            invariant
                n == self.captures@.len(),
                i <= n,
                forall|j: int| 0 <= j < i ==> (#[trigger] self.captures@[j]).0 != id,
            decreases n - i,
        {
            if self.captures[i].0 == id {
                return Some(i);
            }
            i = i + 1;
        }
        None
    }

    /// Captures a pointer to an element id until released or removed.
    pub fn capture_pointer(&mut self, id: PointerId, element_id: &str)
        requires
            old(self).wf(),
        ensures
            final(self).wf(),
            final(self).capture_map() == old(self).capture_map().insert(id, element_id@),
            final(self).entries() == old(self).entries(),
            final(self).sequence_counter() == old(self).sequence_counter(),
            final(self).zero_delta() == old(self).zero_delta(),
    {
        let ghost old_cs = self.captures@;
        proof {
            self.lemma_capture_map_is();
        }
        let entry = (id, element_id.to_owned());
        match self.find_capture(id) {
            Some(i) => {
                self.captures.set(i, entry);
            },
            None => {
                self.captures.push(entry);
            },
        }
        let ghost cs = self.captures@;
        assert(captures_unique(cs)) by {
            assert forall|a: int, b: int|
                0 <= a < cs.len() && 0 <= b < cs.len() && (#[trigger] cs[a]).0 == (#[trigger] cs[b]).0
                implies a == b by {
                if a < old_cs.len() && b < old_cs.len() {
                    if cs[a] != old_cs[a] || cs[b] != old_cs[b] {
                        assert(cs[a].0 == old_cs[a].0 && cs[b].0 == old_cs[b].0);
                    }
                } else if a < old_cs.len() {
                    assert(cs[a] == old_cs[a]);
                    assert(old_cs[a].0 != id);
                } else if b < old_cs.len() {
                    assert(cs[b] == old_cs[b]);
                    assert(old_cs[b].0 != id);
                }
            }
        }
        assert(self.wf());
        proof {
            self.lemma_capture_map_is();
            let m = old(self).capture_map().insert(id, element_id@);
            assert forall|k: PointerId| #[trigger] capture_map_of(cs).contains_key(k) == m.contains_key(k) by {
                if capture_map_of(cs).contains_key(k) {
                    let j = lemma_capture_witness(cs, k);
                    if k != id {
                        assert(old_cs[j] == cs[j]);
                        lemma_capture_index(old_cs, j);
                    }
                }
                if m.contains_key(k) {
                    if k == id {
                        assert(has_capture(cs, id)) by {
                            let w = if has_capture(old_cs, id) {
                                choose|w: int| 0 <= w < old_cs.len() && (#[trigger] old_cs[w]).0 == id
                            } else {
                                old_cs.len() as int
                            };
                            assert(cs[w].0 == id);
                        }
                    } else {
                        let j = lemma_capture_witness(old_cs, k);
                        assert(cs[j].0 == k);
                    }
                }
            }
            assert forall|k: PointerId| capture_map_of(cs).contains_key(k) implies #[trigger] capture_map_of(cs)[k]
                == m[k] by {
                let j = lemma_capture_witness(cs, k);
                if k != id {
                    assert(old_cs[j] == cs[j]);
                    lemma_capture_index(old_cs, j);
                }
            }
            assert(capture_map_of(cs) =~= m);
        }
    }

    /// Releases pointer capture.
    pub fn release_pointer_capture(&mut self, id: PointerId)
        requires
            old(self).wf(),
        ensures
            final(self).wf(),
            final(self).capture_map() == old(self).capture_map().remove(id),
            final(self).entries() == old(self).entries(),
            final(self).sequence_counter() == old(self).sequence_counter(),
            final(self).zero_delta() == old(self).zero_delta(),
    {
        let ghost old_cs = self.captures@;
        proof {
            self.lemma_capture_map_is();
        }
        if let Some(i) = self.find_capture(id) {
            self.captures.remove(i);
            let ghost cs = self.captures@;
            assert(cs =~= old_cs.remove(i as int));
            assert(captures_unique(cs)) by {
                assert forall|a: int, b: int|
                    0 <= a < cs.len() && 0 <= b < cs.len() && (#[trigger] cs[a]).0 == (#[trigger] cs[b]).0
                    implies a == b by {
                    let a0 = if a < i { a } else { a + 1 };
                    let b0 = if b < i { b } else { b + 1 };
                    assert(cs[a] == old_cs[a0]);
                    assert(cs[b] == old_cs[b0]);
                }
            }
            proof {
                self.lemma_capture_map_is();
                let m = old(self).capture_map().remove(id);
                assert forall|k: PointerId| #[trigger] capture_map_of(cs).contains_key(k) == m.contains_key(k) by {
                    if capture_map_of(cs).contains_key(k) {
                        let j = lemma_capture_witness(cs, k);
                        let j0 = if j < i { j } else { j + 1 };
                        assert(cs[j] == old_cs[j0]);
                        lemma_capture_index(old_cs, j0);
                        assert(j0 != i);
                    }
                    if m.contains_key(k) {
                        let j = lemma_capture_witness(old_cs, k);
                        assert(j != i);
                        let j1 = if j < i { j } else { j - 1 };
                        assert(cs[j1] == old_cs[j]);
                    }
                }
                assert forall|k: PointerId| capture_map_of(cs).contains_key(k) implies #[trigger] capture_map_of(cs)[k]
                    == m[k] by {
                    let j = lemma_capture_witness(cs, k);
                    let j0 = if j < i { j } else { j + 1 };
                    assert(cs[j] == old_cs[j0]);
                    lemma_capture_index(old_cs, j0);
                }
                assert(capture_map_of(cs) =~= m);
            }
        } else {
            proof {
                assert(old(self).capture_map().remove(id) =~= old(self).capture_map());
            }
        }
    }

    /// Returns the element currently capturing `id`.
    pub fn pointer_capture(&self, id: PointerId) -> (r: Option<&str>)
        requires
            self.wf(),
        ensures
            match r {
                Some(s) => self.capture_map().contains_key(id) && self.capture_map()[id] == s@,
                None => !self.capture_map().contains_key(id),
            },
    {
        proof {
            self.lemma_capture_map_is();
        }
        match self.find_capture(id) {
            Some(i) => {
                proof {
                    lemma_capture_index(self.captures@, i as int);
                }
                Some(self.captures[i].1.as_str())
            },
            None => None,
        }
    }

    /// Ends a frame: "this frame" phases settle, released pointers are
    /// dropped, scroll input is cleared, and captures of dropped pointers are
    /// released.
    pub fn end_frame(&mut self)
        requires
            old(self).wf(),
        ensures
            final(self).wf(),
            final(self).entries() == old(self).entries().filter_map(
                |p: Pointer<P, V>| settled_pointer(p, old(self).zero_delta()),
            ),
            final(self).pointer_map() == settled_map(old(self).pointer_map(), old(self).zero_delta()),
            final(self).capture_map() == old(self).capture_map().restrict(
                final(self).pointer_map().dom(),
            ),
            final(self).sequence_counter() == old(self).sequence_counter(),
            final(self).zero_delta() == old(self).zero_delta(),
    {
        let ghost old_ps = self.pointers@;
        let ghost zero = self.zero;
        let ghost f = |p: Pointer<P, V>| settled_pointer(p, zero);
        let n = self.pointers.len();
        let mut kept: Vec<Pointer<P, V>> = Vec::new();
        let mut i: usize = 0;
        while i < n
            invariant
                n == old_ps.len(),
                self.pointers@ == old_ps,
                self.zero == zero,
                self.wf(),
                f == (|p: Pointer<P, V>| settled_pointer(p, zero)),
                i <= n,
                kept@ == old_ps.take(i as int).filter_map(f),
                ids_unique(kept@),
                forall|k: int| 0 <= k < kept@.len() ==> exists|j: int| 0 <= j < i
                    && #[trigger] kept@[k].id == (#[trigger] old_ps[j]).id
                    && kept@[k].sequence == old_ps[j].sequence,
            decreases n - i,
        {
            let p = self.pointers[i];
            assert(old_ps.take(i + 1).drop_last() =~= old_ps.take(i as int));
            assert(old_ps.take(i + 1).last() == p);
            let phase = match p.phase {
                PointerPhase::PressedThisFrame => PointerPhase::Pressed,
                PointerPhase::ReleasedThisFrame => PointerPhase::Released,
                other => other,
            };
            let released = match phase {
                PointerPhase::Released => true,
                _ => false,
            };
            if !released {
                let q = Pointer { scroll_delta: self.zero, scroll_phase: None, phase, ..p };
                let ghost before = kept@;
                kept.push(q);
                proof {
                    assert forall|a: int, b: int|
                        0 <= a < kept@.len() && 0 <= b < kept@.len()
                            && (#[trigger] kept@[a]).id == (#[trigger] kept@[b]).id implies a == b by {
                        if a < before.len() && b < before.len() {
                            assert(kept@[a] == before[a] && kept@[b] == before[b]);
                        } else if a < before.len() {
                            assert(kept@[a] == before[a]);
                            let j = choose|j: int| 0 <= j < i && #[trigger] before[a].id == (#[trigger] old_ps[j]).id
                                && before[a].sequence == old_ps[j].sequence;
                            assert(old_ps[j].id == old_ps[i as int].id);
                        } else if b < before.len() {
                            assert(kept@[b] == before[b]);
                            let j = choose|j: int| 0 <= j < i && #[trigger] before[b].id == (#[trigger] old_ps[j]).id
                                && before[b].sequence == old_ps[j].sequence;
                            assert(old_ps[j].id == old_ps[i as int].id);
                        }
                    }
                    assert forall|k: int| 0 <= k < kept@.len() implies exists|j: int| 0 <= j < i + 1
                        && #[trigger] kept@[k].id == (#[trigger] old_ps[j]).id
                        && kept@[k].sequence == old_ps[j].sequence by {
                        if k < before.len() {
                            assert(kept@[k] == before[k]);
                        } else {
                            assert(kept@[k].id == old_ps[i as int].id);
                        }
                    }
                }
            }
            i = i + 1;
        }
        proof {
            assert(old_ps.take(n as int) =~= old_ps);
            lemma_settle_map(old_ps, zero);
        }
        self.pointers = kept;
        let ghost new_ps = self.pointers@;
        assert forall|k: int| 0 <= k < new_ps.len() implies (#[trigger] new_ps[k]).sequence < self.next_sequence by {
            let j = choose|j: int| 0 <= j < n && #[trigger] new_ps[k].id == (#[trigger] old_ps[j]).id
                && new_ps[k].sequence == old_ps[j].sequence;
        }
        self.retain_live_captures();
    }

    fn retain_live_captures(&mut self)
        requires
            old(self).wf(),
        ensures
            final(self).wf(),
            final(self).capture_map() == old(self).capture_map().restrict(old(self).pointer_map().dom()),
            final(self).entries() == old(self).entries(),
            final(self).sequence_counter() == old(self).sequence_counter(),
            final(self).zero_delta() == old(self).zero_delta(),
    {
        let ghost old_cs = self.captures@;
        let ghost ps = self.pointers@;
        proof {
            self.lemma_capture_map_is();
        }
        let n = self.captures.len();
        let mut kept: Vec<(PointerId, String)> = Vec::new();
        let ghost mut origin: Seq<int> = Seq::empty();
        let mut i: usize = 0;
        while i < n
            invariant
                n == old_cs.len(),
                self.captures@ == old_cs,
                self.pointers@ == ps,
                self.wf(),
                i <= n,
                origin.len() == kept@.len(),
                forall|k: int| 0 <= k < kept@.len() ==> 0 <= #[trigger] origin[k] < i,
                forall|k: int| 0 <= k < kept@.len() ==> #[trigger] kept@[k] == old_cs[origin[k]],
                forall|k: int| 0 <= k < kept@.len() ==> has_pointer(ps, (#[trigger] kept@[k]).0),
                forall|a: int, b: int| 0 <= a < b < kept@.len() ==> #[trigger] origin[a] < #[trigger] origin[b],
                forall|j: int| 0 <= j < i && has_pointer(ps, (#[trigger] old_cs[j]).0)
                    ==> exists|k: int| 0 <= k < kept@.len() && #[trigger] origin[k] == j,
            decreases n - i,
        {
            let found = self.find(self.captures[i].0);
            if let Some(idx) = found {
                assert(ps[idx as int].id == old_cs[i as int].0);
                let entry = (self.captures[i].0, self.captures[i].1.clone());
                kept.push(entry);
                proof {
                    let k0 = origin.len() as int;
                    let old_origin = origin;
                    origin = origin.push(i as int);
                    assert forall|j: int| 0 <= j < i + 1 && has_pointer(ps, (#[trigger] old_cs[j]).0)
                        implies exists|k: int| 0 <= k < kept@.len() && #[trigger] origin[k] == j by {
                        if j == i {
                            assert(origin[k0] == j);
                        } else {
                            let k = choose|k: int| 0 <= k < k0 && #[trigger] old_origin[k] == j;
                            assert(origin[k] == j);
                        }
                    }
                }
            }
            i = i + 1;
        }
        proof {
            let cs = kept@;
            assert(captures_unique(cs)) by {
                assert forall|a: int, b: int|
                    0 <= a < cs.len() && 0 <= b < cs.len() && (#[trigger] cs[a]).0 == (#[trigger] cs[b]).0
                    implies a == b by {
                    assert(cs[a] == old_cs[origin[a]]);
                    assert(cs[b] == old_cs[origin[b]]);
                    if a < b {
                        assert(origin[a] < origin[b]);
                    } else if b < a {
                        assert(origin[b] < origin[a]);
                    }
                }
            }
        }
        self.captures = kept;
        proof {
            let cs = self.captures@;
            self.lemma_capture_map_is();
            let dom = old(self).pointer_map().dom();
            let m = old(self).capture_map().restrict(dom);
            assert forall|k: PointerId| #[trigger] capture_map_of(cs).contains_key(k) == m.contains_key(k) by {
                if capture_map_of(cs).contains_key(k) {
                    let w = lemma_capture_witness(cs, k);
                    assert(cs[w] == old_cs[origin[w]]);
                    lemma_capture_index(old_cs, origin[w]);
                    assert(has_pointer(ps, cs[w].0));
                }
                if m.contains_key(k) {
                    let j = lemma_capture_witness(old_cs, k);
                    let w = choose|w: int| 0 <= w < cs.len() && #[trigger] origin[w] == j;
                    assert(cs[w] == old_cs[j]);
                    assert(cs[w].0 == k);
                }
            }
            assert forall|k: PointerId| capture_map_of(cs).contains_key(k) implies #[trigger] capture_map_of(cs)[k]
                == m[k] by {
                let w = lemma_capture_witness(cs, k);
                assert(cs[w] == old_cs[origin[w]]);
                lemma_capture_index(old_cs, origin[w]);
            }
            assert(capture_map_of(cs) =~= m);
        }
    }
}

/// Executable [`next_phase`].
pub fn phase_after_report(was_down: bool, down: bool) -> (r: PointerPhase)
    ensures
        r == next_phase(was_down, down),
{
    match (was_down, down) {
        (false, false) => PointerPhase::Hover,
        (false, true) => PointerPhase::PressedThisFrame,
        (true, true) => PointerPhase::Pressed,
        (true, false) => PointerPhase::ReleasedThisFrame,
    }
}

} // verus!

verus! {

/// The pointer lifecycle: a press is `PressedThisFrame` for one frame and
/// `Pressed` after; a release is `ReleasedThisFrame` for one frame and then
/// `Released` (which drops the pointer); a pointer that never presses
/// hovers. Settling never leaves a "this frame" phase and keeps whether the
/// pointer is down.
pub proof fn lemma_phase_lifecycle()
    ensures
        next_phase(false, true) == PointerPhase::PressedThisFrame,
        settled_phase(next_phase(false, true)) == PointerPhase::Pressed,
        next_phase(phase_is_down(PointerPhase::Pressed), true) == PointerPhase::Pressed,
        next_phase(phase_is_down(PointerPhase::Pressed), false) == PointerPhase::ReleasedThisFrame,
        settled_phase(next_phase(phase_is_down(PointerPhase::Pressed), false)) == PointerPhase::Released,
        settled_phase(next_phase(false, false)) == PointerPhase::Hover,
        forall|p: PointerPhase|
            !(#[trigger] settled_phase(p) is PressedThisFrame) && !(settled_phase(p) is ReleasedThisFrame),
        forall|p: PointerPhase| phase_is_down(#[trigger] settled_phase(p)) == phase_is_down(p),
        forall|was: bool, down: bool| phase_is_down(#[trigger] next_phase(was, down)) == down,
{
}

/// A report never changes what a pointer already is: an active pointer
/// keeps its identity, its contact sequence number, its scroll input and its
/// gesture whatever the button state, so a finger lifting after a scroll
/// drag is still a scroll. A new contact starts as a tap; only
/// `mark_scroll_gesture` makes a pointer a scroll.
pub proof fn lemma_report_keeps_gesture<P, V>(
    prev: Option<Pointer<P, V>>,
    id: PointerId,
    position: P,
    down: bool,
    mouse_button: Option<MouseButton>,
    fresh: u64,
    zero: V,
)
    ensures
        ({
            let r = reported_pointer(prev, id, position, down, mouse_button, fresh, zero);
            &&& r.id == id
            &&& r.position == position
            &&& prev is Some ==> (r.gesture == prev->0.gesture && r.sequence == prev->0.sequence
                && r.scroll_delta == prev->0.scroll_delta && r.scroll_phase == prev->0.scroll_phase)
            &&& prev is None ==> r.gesture == PointerGesture::Tap && r.sequence == fresh
            &&& r.gesture == PointerGesture::Scroll ==> (prev is Some && prev->0.gesture
                == PointerGesture::Scroll)
        }),
{
}

/// After a frame ends, every remaining pointer hovers or is held down, and
/// carries no scroll input; a pointer stays exactly when it is not
/// releasing.
pub proof fn lemma_end_frame_settles<P, V>(ps: Seq<Pointer<P, V>>, zero: V)
    ensures
        ({
            let r = ps.filter_map(|p: Pointer<P, V>| settled_pointer(p, zero));
            forall|i: int|
                0 <= i < r.len() ==> ((#[trigger] r[i]).phase is Hover || r[i].phase is Pressed)
                    && r[i].scroll_phase is None && r[i].scroll_delta == zero
        }),
        forall|p: Pointer<P, V>|
            (#[trigger] settled_pointer(p, zero)) is Some <==> !(p.phase is ReleasedThisFrame || p.phase is Released),
    decreases ps.len(),
{
    let f = |p: Pointer<P, V>| settled_pointer(p, zero);
    if ps.len() > 0 {
        lemma_end_frame_settles(ps.drop_last(), zero);
        let rest = ps.drop_last().filter_map(f);
        let r = ps.filter_map(f);
        match f(ps.last()) {
            Some(q) => {
                assert(r == rest + seq![q]);
                assert forall|i: int| 0 <= i < r.len() implies ((#[trigger] r[i]).phase is Hover || r[i].phase is Pressed)
                    && r[i].scroll_phase is None && r[i].scroll_delta == zero by {
                    if i < rest.len() {
                        assert(r[i] == rest[i]);
                    }
                }
            },
            None => {
                assert(r == rest);
            },
        }
    }
}

} // verus!
