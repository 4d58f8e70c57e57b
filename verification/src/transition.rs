//! Transition configuration enums, animated-property flags, and the
//! bookkeeping rules that drive each element's transition lifecycle.
use vstd::prelude::*;

verus! {

/// Every property bit that a [`TransitionProperties`] value can hold.
pub const ALL_PROPERTY_BITS: u16 = 0x01ff;

/// Properties that may be animated by a transition.
#[derive(Debug, Clone, Copy, PartialEq, Eq, Hash, Structural)]
pub struct TransitionProperties {
    bits: u16,
}

impl View for TransitionProperties {
    type V = u16;

    closed spec fn view(&self) -> u16 {
        self.bits
    }
}

impl TransitionProperties {
    /// Horizontal position.
    pub fn x() -> (r: Self)
        ensures
            r@ == 1,
    {
        TransitionProperties { bits: 1 }
    }

    /// Vertical position.
    pub fn y() -> (r: Self)
        ensures
            r@ == 2,
    {
        TransitionProperties { bits: 2 }
    }

    /// Both position axes.
    pub fn position() -> (r: Self)
        ensures
            r@ == 3,
    {
        TransitionProperties { bits: 3 }
    }

    /// Width.
    pub fn width() -> (r: Self)
        ensures
            r@ == 4,
    {
        TransitionProperties { bits: 4 }
    }

    /// Height.
    pub fn height() -> (r: Self)
        ensures
            r@ == 8,
    {
        TransitionProperties { bits: 8 }
    }

    /// Width and height.
    pub fn dimensions() -> (r: Self)
        ensures
            r@ == 12,
    {
        TransitionProperties { bits: 12 }
    }

    /// Position and dimensions.
    pub fn bounds() -> (r: Self)
        ensures
            r@ == 15,
    {
        TransitionProperties { bits: 15 }
    }

    /// Background color.
    pub fn background_color() -> (r: Self)
        ensures
            r@ == 16,
    {
        TransitionProperties { bits: 16 }
    }

    /// Overlay color.
    pub fn overlay_color() -> (r: Self)
        ensures
            r@ == 32,
    {
        TransitionProperties { bits: 32 }
    }

    /// Corner radius.
    pub fn corner_radius() -> (r: Self)
        ensures
            r@ == 64,
    {
        TransitionProperties { bits: 64 }
    }

    /// Border color.
    pub fn border_color() -> (r: Self)
        ensures
            r@ == 128,
    {
        TransitionProperties { bits: 128 }
    }

    /// Border widths.
    pub fn border_width() -> (r: Self)
        ensures
            r@ == 256,
    {
        TransitionProperties { bits: 256 }
    }

    /// Border color and widths.
    pub fn border() -> (r: Self)
        ensures
            r@ == 384,
    {
        TransitionProperties { bits: 384 }
    }

    /// No properties.
    pub fn empty() -> (r: Self)
        ensures
            r@ == 0,
    {
        TransitionProperties { bits: 0 }
    }

    /// Every property.
    pub fn all() -> (r: Self)
        ensures
            r@ == ALL_PROPERTY_BITS,
    {
        TransitionProperties { bits: ALL_PROPERTY_BITS }
    }

    /// The raw bit pattern.
    pub fn bits(&self) -> (r: u16)
        ensures
            r == self@,
    {
        self.bits
    }

    /// Flags from a bit pattern, unknown bits dropped.
    pub fn from_bits_truncate(bits: u16) -> (r: Self)
        ensures
            r@ == bits & ALL_PROPERTY_BITS,
    {
        TransitionProperties { bits: bits & ALL_PROPERTY_BITS }
    }

    /// Flags from a bit pattern, or `None` when it holds an unknown bit.
    pub fn from_bits(bits: u16) -> (r: Option<Self>)
        ensures
            (bits & !ALL_PROPERTY_BITS) == 0 ==> r is Some && r->0@ == bits,
            (bits & !ALL_PROPERTY_BITS) != 0 ==> r is None,
    {
        if bits & !ALL_PROPERTY_BITS == 0 {
            Some(TransitionProperties { bits })
        } else {
            None
        }
    }

    /// Whether no property is set.
    pub fn is_empty(&self) -> (r: bool)
        ensures
            r == (self@ == 0),
    {
        self.bits == 0
    }

    /// Whether every property of `other` is set in `self`.
    pub fn contains(&self, other: Self) -> (r: bool)
        ensures
            r == (self@ & other@ == other@),
    {
        self.bits & other.bits == other.bits
    }

    /// Whether `self` and `other` share a property.
    pub fn intersects(&self, other: Self) -> (r: bool)
        ensures
            r == (self@ & other@ != 0),
    {
        self.bits & other.bits != 0
    }

    /// The properties set in either.
    pub fn union(self, other: Self) -> (r: Self)
        ensures
            r@ == self@ | other@,
    {
        TransitionProperties { bits: self.bits | other.bits }
    }

    /// The properties set in both.
    pub fn intersection(self, other: Self) -> (r: Self)
        ensures
            r@ == self@ & other@,
    {
        TransitionProperties { bits: self.bits & other.bits }
    }

    /// The properties of `self` not in `other`.
    pub fn difference(self, other: Self) -> (r: Self)
        ensures
            r@ == self@ & !other@,
    {
        TransitionProperties { bits: self.bits & !other.bits }
    }

    /// Adds the properties of `other`.
    pub fn insert(&mut self, other: Self)
        ensures
            final(self)@ == old(self)@ | other@,
    {
        self.bits = self.bits | other.bits;
    }

    /// Removes the properties of `other`.
    pub fn remove(&mut self, other: Self)
        ensures
            final(self)@ == old(self)@ & !other@,
    {
        self.bits = self.bits & !other.bits;
    }
}

impl vstd::std_specs::ops::BitOrSpecImpl for TransitionProperties {
    open spec fn obeys_bitor_spec() -> bool {
        true
    }

    open spec fn bitor_req(self, rhs: Self) -> bool {
        true
    }

    closed spec fn bitor_spec(self, rhs: Self) -> Self {
        TransitionProperties { bits: self.bits | rhs.bits }
    }
}

impl std::ops::BitOr for TransitionProperties {
    type Output = Self;

    fn bitor(self, other: Self) -> (r: Self)
        ensures
            r@ == self@ | other@,
    {
        self.union(other)
    }
}

} // verus!

verus! {

/// Current transition phase.
#[derive(Debug, Clone, Copy, PartialEq, Eq, Structural)]
pub enum TransitionState {
    /// No animation is active.
    Idle,
    /// The element is appearing.
    Entering,
    /// Existing values are changing.
    Transitioning,
    /// The element is disappearing.
    Exiting,
}

impl Default for TransitionState {
    fn default() -> (r: Self)
        ensures
            r == TransitionState::Idle,
    {
        TransitionState::Idle
    }
}

/// Controls hit testing while position is animated.
#[derive(Debug, Clone, Copy, PartialEq, Eq, Structural)]
pub enum TransitionInteraction {
    /// Ignore interactions while x or y is transitioning.
    Disable,
    /// Keep interactions enabled.
    Allow,
}

impl Default for TransitionInteraction {
    fn default() -> (r: Self)
        ensures
            r == TransitionInteraction::Disable,
    {
        TransitionInteraction::Disable
    }
}

/// Controls enter behavior when the parent also appeared this frame.
#[derive(Debug, Clone, Copy, PartialEq, Eq, Structural)]
pub enum TransitionEnterTrigger {
    /// Do not enter when the parent is new.
    SkipOnFirstParentFrame,
    /// Enter even when the parent is new.
    OnFirstParentFrame,
}

impl Default for TransitionEnterTrigger {
    fn default() -> (r: Self)
        ensures
            r == TransitionEnterTrigger::SkipOnFirstParentFrame,
    {
        TransitionEnterTrigger::SkipOnFirstParentFrame
    }
}

/// Controls exit behavior when the parent also disappears.
#[derive(Debug, Clone, Copy, PartialEq, Eq, Structural)]
pub enum TransitionExitTrigger {
    /// Remove the child with its parent.
    SkipWhenParentExits,
    /// Run the child exit independently.
    WhenParentExits,
}

impl Default for TransitionExitTrigger {
    fn default() -> (r: Self)
        ensures
            r == TransitionExitTrigger::SkipWhenParentExits,
    {
        TransitionExitTrigger::SkipWhenParentExits
    }
}

/// Placement of an exiting subtree relative to current siblings.
#[derive(Debug, Clone, Copy, PartialEq, Eq, Structural)]
pub enum TransitionExitOrdering {
    /// Place it before all current siblings.
    Underneath,
    /// Restore its previous sibling index.
    Natural,
    /// Place it after all current siblings.
    Above,
}

impl Default for TransitionExitOrdering {
    fn default() -> (r: Self)
        ensures
            r == TransitionExitOrdering::Underneath,
    {
        TransitionExitOrdering::Underneath
    }
}

/// Whether a disappeared element starts (or continues) an exit animation:
/// it must be gone from the tree, have an exit configured, and either exit
/// independently of its parent or still have its parent present.
pub open spec fn exits_spec(present: bool, has_exit: bool, trigger: TransitionExitTrigger, parent_present: bool) -> bool {
    !present && has_exit && (trigger is WhenParentExits || parent_present)
}

/// Executable [`exits_spec`].
pub fn starts_exit(present: bool, has_exit: bool, trigger: TransitionExitTrigger, parent_present: bool) -> (r: bool)
    ensures
        r == exits_spec(present, has_exit, trigger, parent_present),
{
    !present && has_exit && (match trigger {
        TransitionExitTrigger::WhenParentExits => true,
        TransitionExitTrigger::SkipWhenParentExits => parent_present,
    })
}

/// Whether an element's transition record is kept at the start of a frame:
/// it still declares a transition this frame, or it is gone and either
/// already exiting or about to exit.
pub open spec fn survives_spec(
    declared: bool,
    present: bool,
    state: TransitionState,
    has_exit: bool,
    trigger: TransitionExitTrigger,
    parent_present: bool,
) -> bool {
    declared || (!present && state is Exiting) || exits_spec(present, has_exit, trigger, parent_present)
}

/// Executable [`survives_spec`].
pub fn runtime_survives(
    declared: bool,
    present: bool,
    state: TransitionState,
    has_exit: bool,
    trigger: TransitionExitTrigger,
    parent_present: bool,
) -> (r: bool)
    ensures
        r == survives_spec(declared, present, state, has_exit, trigger, parent_present),
{
    let exiting = match state {
        TransitionState::Exiting => true,
        _ => false,
    };
    declared || (!present && exiting) || starts_exit(present, has_exit, trigger, parent_present)
}

/// What a disappearing element's record does when its exit is due: an
/// element not yet exiting starts its exit with every configured property
/// active (`Some`), and the host restarts its animation from the current
/// values; one already exiting carries on unchanged (`None`).
pub fn begin_exit(state: TransitionState, configured: TransitionProperties) -> (r: Option<
    TransitionProperties,
>)
    ensures
        state is Exiting ==> r is None,
        !(state is Exiting) ==> r == Some(configured),
{
    match state {
        TransitionState::Exiting => None,
        _ => Some(configured),
    }
}

/// Where an exiting subtree is reinserted among `len` current siblings.
pub open spec fn exit_index_spec(ordering: TransitionExitOrdering, sibling_index: usize, len: usize) -> usize {
    match ordering {
        TransitionExitOrdering::Underneath => 0,
        TransitionExitOrdering::Natural => if sibling_index < len { sibling_index } else { len },
        TransitionExitOrdering::Above => len,
    }
}

/// Executable [`exit_index_spec`]; the result is a valid insertion index.
pub fn exit_insert_index(ordering: TransitionExitOrdering, sibling_index: usize, len: usize) -> (r: usize)
    ensures
        r == exit_index_spec(ordering, sibling_index, len),
        r <= len,
{
    match ordering {
        TransitionExitOrdering::Underneath => 0,
        TransitionExitOrdering::Natural => if sibling_index < len { sibling_index } else { len },
        TransitionExitOrdering::Above => len,
    }
}

/// Whether a newly tracked element plays its enter animation: it must have
/// one configured, and a parent that appeared this same frame suppresses it
/// unless the trigger asks otherwise.
pub open spec fn enters_spec(has_enter: bool, parent_appeared: bool, trigger: TransitionEnterTrigger) -> bool {
    has_enter && (!parent_appeared || trigger is OnFirstParentFrame)
}

/// Executable [`enters_spec`].
pub fn should_enter(has_enter: bool, parent_appeared: bool, trigger: TransitionEnterTrigger) -> (r: bool)
    ensures
        r == enters_spec(has_enter, parent_appeared, trigger),
{
    has_enter && (!parent_appeared || match trigger {
        TransitionEnterTrigger::OnFirstParentFrame => true,
        TransitionEnterTrigger::SkipOnFirstParentFrame => false,
    })
}

/// State and active properties of a newly tracked element.
pub fn initial_phase(enter: bool, configured: TransitionProperties) -> (r: (TransitionState, TransitionProperties))
    ensures
        enter ==> r.0 == TransitionState::Entering && r.1@ == configured@,
        !enter ==> r.0 == TransitionState::Idle && r.1@ == 0,
{
    if enter {
        (TransitionState::Entering, configured)
    } else {
        (TransitionState::Idle, TransitionProperties::empty())
    }
}

/// Which animated values moved since the last target, as measured by the
/// host. Position moves are paired with moves relative to the parent.
#[derive(Debug, Clone, Copy, PartialEq, Eq)]
pub struct PropertyChanges {
    /// Horizontal position changed.
    pub x: bool,
    /// Horizontal position changed relative to the parent.
    pub relative_x: bool,
    /// Vertical position changed.
    pub y: bool,
    /// Vertical position changed relative to the parent.
    pub relative_y: bool,
    /// Width changed.
    pub width: bool,
    /// Height changed.
    pub height: bool,
    /// Background color changed.
    pub background: bool,
    /// Overlay color changed.
    pub overlay: bool,
    /// Corner radii changed.
    pub radius: bool,
    /// Border color changed.
    pub border_color: bool,
    /// Border widths changed.
    pub border_width: bool,
}

/// `bit` when `cond` holds, else no bits.
pub open spec fn bit_if(cond: bool, bit: u16) -> u16 {
    if cond { bit } else { 0 }
}

/// The properties that start animating: configured ones that moved. A
/// position move counts only when it is also a move relative to the parent
/// (or the element was reparented); geometry never animates across a
/// viewport resize.
pub open spec fn changed_bits(
    configured: u16,
    c: PropertyChanges,
    reparented: bool,
    viewport_changed: bool,
) -> u16 {
    bit_if(configured & 1 == 1 && c.x && (reparented || c.relative_x) && !viewport_changed, 1)
        | bit_if(configured & 2 == 2 && c.y && (reparented || c.relative_y) && !viewport_changed, 2)
        | bit_if(configured & 4 == 4 && c.width && !viewport_changed, 4)
        | bit_if(configured & 8 == 8 && c.height && !viewport_changed, 8)
        | bit_if(configured & 16 == 16 && c.background, 16)
        | bit_if(configured & 32 == 32 && c.overlay, 32)
        | bit_if(configured & 64 == 64 && c.radius, 64)
        | bit_if(configured & 128 == 128 && c.border_color, 128)
        | bit_if(configured & 256 == 256 && c.border_width, 256)
}

fn pick(cond: bool, bit: u16) -> (r: u16)
    ensures
        r == bit_if(cond, bit),
{
    if cond { bit } else { 0 }
}

/// Executable [`changed_bits`].
pub fn changed_properties(
    configured: TransitionProperties,
    c: PropertyChanges,
    reparented: bool,
    viewport_changed: bool,
) -> (r: TransitionProperties)
    ensures
        r@ == changed_bits(configured@, c, reparented, viewport_changed),
{
    let p = configured.bits;
    let bits = pick(p & 1 == 1 && c.x && (reparented || c.relative_x) && !viewport_changed, 1)
        | pick(p & 2 == 2 && c.y && (reparented || c.relative_y) && !viewport_changed, 2)
        | pick(p & 4 == 4 && c.width && !viewport_changed, 4)
        | pick(p & 8 == 8 && c.height && !viewport_changed, 8)
        | pick(p & 16 == 16 && c.background, 16)
        | pick(p & 32 == 32 && c.overlay, 32)
        | pick(p & 64 == 64 && c.radius, 64)
        | pick(p & 128 == 128 && c.border_color, 128)
        | pick(p & 256 == 256 && c.border_width, 256);
    TransitionProperties { bits }
}

/// How a tracked element reacts to a new target: an exiting element that
/// reappears restarts with every configured property; otherwise any changed
/// property (re)starts a transition that keeps the ones already running.
/// `None` means nothing restarts.
pub fn retarget(
    state: TransitionState,
    active: TransitionProperties,
    changed: TransitionProperties,
    configured: TransitionProperties,
) -> (r: Option<TransitionProperties>)
    ensures
        state is Exiting ==> r == Some(configured),
        !(state is Exiting) && changed@ != 0 ==> r is Some && r->0@ == active@ | changed@,
        !(state is Exiting) && changed@ == 0 ==> r is None,
{
    match state {
        TransitionState::Exiting => Some(configured),
        _ => if changed.is_empty() {
            None
        } else {
            Some(active.union(changed))
        },
    }
}

/// Whether the animation handler runs this frame: an element animates while
/// it is not idle, except on the very first frame of an enter.
pub fn handler_runs(state: TransitionState, enter_first_frame: bool) -> (r: bool)
    ensures
        r == (!(state is Idle) && !(state is Entering && enter_first_frame)),
{
    match state {
        TransitionState::Idle => false,
        TransitionState::Entering => !enter_first_frame,
        _ => true,
    }
}

/// What follows a completed animation frame: an exit finishes (the record is
/// dropped before the next frame); anything else returns to idle, snapped to
/// its target with no active properties.
#[derive(Debug, Clone, Copy, PartialEq, Eq)]
pub struct Completion {
    /// The state after this frame.
    pub state: TransitionState,
    /// Whether the exit has finished.
    pub exit_complete: bool,
    /// Whether values snap to the target and active properties clear.
    pub snap_to_target: bool,
}

/// The state after a handler frame that reported `complete`.
pub fn complete_frame(state: TransitionState, complete: bool) -> (r: Completion)
    ensures
        !complete ==> r == (Completion { state, exit_complete: false, snap_to_target: false }),
        complete && state is Exiting ==> r == (Completion { state, exit_complete: true, snap_to_target: false }),
        complete && !(state is Exiting) ==> r == (Completion {
            state: TransitionState::Idle,
            exit_complete: false,
            snap_to_target: true,
        }),
{
    if !complete {
        Completion { state, exit_complete: false, snap_to_target: false }
    } else {
        match state {
            TransitionState::Exiting => Completion { state, exit_complete: true, snap_to_target: false },
            _ => Completion { state: TransitionState::Idle, exit_complete: false, snap_to_target: true },
        }
    }
}

/// Which of an element's layout inputs the current animation values replace.
#[derive(Debug, Clone, Copy, PartialEq, Eq)]
pub struct OverridePlan {
    /// Width becomes fixed at the animated width.
    pub fix_width: bool,
    /// Height becomes fixed at the animated height.
    pub fix_height: bool,
    /// Bounds are replaced by the animated bounds.
    pub bounds: bool,
    /// Background color is replaced.
    pub background: bool,
    /// Overlay color is replaced.
    pub overlay: bool,
    /// Corner radii are replaced.
    pub radius: bool,
    /// Border color is replaced.
    pub border_color: bool,
    /// Border widths are replaced.
    pub border_width: bool,
    /// The element ignores pointer hits.
    pub non_interactive: bool,
}

/// The overrides an animating element applies this frame. An idle element
/// applies none; a reparented one keeps its new parent's sizing.
pub fn override_plan(
    state: TransitionState,
    active: TransitionProperties,
    reparented: bool,
    interaction: TransitionInteraction,
) -> (r: OverridePlan)
    ensures
        state is Idle ==> r == (OverridePlan {
            fix_width: false,
            fix_height: false,
            bounds: false,
            background: false,
            overlay: false,
            radius: false,
            border_color: false,
            border_width: false,
            non_interactive: false,
        }),
        !(state is Idle) ==> r == (OverridePlan {
            fix_width: active@ & 4 == 4 && !reparented,
            fix_height: active@ & 8 == 8 && !reparented,
            bounds: state is Exiting || active@ & 15 != 0,
            background: active@ & 16 == 16,
            overlay: active@ & 32 == 32,
            radius: active@ & 64 == 64,
            border_color: active@ & 128 == 128,
            border_width: active@ & 256 == 256,
            non_interactive: active@ & 3 != 0 && interaction is Disable,
        }),
{
    match state {
        TransitionState::Idle => OverridePlan {
            fix_width: false,
            fix_height: false,
            bounds: false,
            background: false,
            overlay: false,
            radius: false,
            border_color: false,
            border_width: false,
            non_interactive: false,
        },
        _ => {
            let a = active.bits;
            let exiting = match state {
                TransitionState::Exiting => true,
                _ => false,
            };
            let disable = match interaction {
                TransitionInteraction::Disable => true,
                TransitionInteraction::Allow => false,
            };
            OverridePlan {
                fix_width: a & 4 == 4 && !reparented,
                fix_height: a & 8 == 8 && !reparented,
                bounds: exiting || a & 15 != 0,
                background: a & 16 == 16,
                overlay: a & 32 == 32,
                radius: a & 64 == 64,
                border_color: a & 128 == 128,
                border_width: a & 256 == 256,
                non_interactive: a & 3 != 0 && disable,
            }
        },
    }
}

/// Each property starts animating on its own change alone: it must be
/// configured and have changed (and, for geometry, no viewport resize; for
/// position, a move relative to the parent or a reparenting). No property's
/// bit depends on another property's change.
pub proof fn lemma_changed_bits_per_property(
    configured: u16,
    c: PropertyChanges,
    reparented: bool,
    viewport_changed: bool,
)
    ensures
        ({
            let r = changed_bits(configured, c, reparented, viewport_changed);
            &&& (r & 1 == 1) <==> (configured & 1 == 1 && c.x && (reparented || c.relative_x) && !viewport_changed)
            &&& (r & 2 == 2) <==> (configured & 2 == 2 && c.y && (reparented || c.relative_y) && !viewport_changed)
            &&& (r & 4 == 4) <==> (configured & 4 == 4 && c.width && !viewport_changed)
            &&& (r & 8 == 8) <==> (configured & 8 == 8 && c.height && !viewport_changed)
            &&& (r & 16 == 16) <==> (configured & 16 == 16 && c.background)
            &&& (r & 32 == 32) <==> (configured & 32 == 32 && c.overlay)
            &&& (r & 64 == 64) <==> (configured & 64 == 64 && c.radius)
            &&& (r & 128 == 128) <==> (configured & 128 == 128 && c.border_color)
            &&& (r & 256 == 256) <==> (configured & 256 == 256 && c.border_width)
        }),
{
    let b1 = bit_if(configured & 1 == 1 && c.x && (reparented || c.relative_x) && !viewport_changed, 1);
    let b2 = bit_if(configured & 2 == 2 && c.y && (reparented || c.relative_y) && !viewport_changed, 2);
    let b3 = bit_if(configured & 4 == 4 && c.width && !viewport_changed, 4);
    let b4 = bit_if(configured & 8 == 8 && c.height && !viewport_changed, 8);
    let b5 = bit_if(configured & 16 == 16 && c.background, 16);
    let b6 = bit_if(configured & 32 == 32 && c.overlay, 32);
    let b7 = bit_if(configured & 64 == 64 && c.radius, 64);
    let b8 = bit_if(configured & 128 == 128 && c.border_color, 128);
    let b9 = bit_if(configured & 256 == 256 && c.border_width, 256);
    let r = b1 | b2 | b3 | b4 | b5 | b6 | b7 | b8 | b9;
    assert(r == changed_bits(configured, c, reparented, viewport_changed));
    assert(
        ((b1 == 0 || b1 == 1) && (b2 == 0 || b2 == 2) && (b3 == 0 || b3 == 4) && (b4 == 0 || b4 == 8)
        && (b5 == 0 || b5 == 16) && (b6 == 0 || b6 == 32) && (b7 == 0 || b7 == 64)
        && (b8 == 0 || b8 == 128) && (b9 == 0 || b9 == 256))
        ==> (((b1 | b2 | b3 | b4 | b5 | b6 | b7 | b8 | b9) & 1 == 1) == (b1 == 1)
            && (((b1 | b2 | b3 | b4 | b5 | b6 | b7 | b8 | b9) & 2 == 2) == (b2 == 2))
            && (((b1 | b2 | b3 | b4 | b5 | b6 | b7 | b8 | b9) & 4 == 4) == (b3 == 4))
            && (((b1 | b2 | b3 | b4 | b5 | b6 | b7 | b8 | b9) & 8 == 8) == (b4 == 8))
            && (((b1 | b2 | b3 | b4 | b5 | b6 | b7 | b8 | b9) & 16 == 16) == (b5 == 16))
            && (((b1 | b2 | b3 | b4 | b5 | b6 | b7 | b8 | b9) & 32 == 32) == (b6 == 32))
            && (((b1 | b2 | b3 | b4 | b5 | b6 | b7 | b8 | b9) & 64 == 64) == (b7 == 64))
            && (((b1 | b2 | b3 | b4 | b5 | b6 | b7 | b8 | b9) & 128 == 128) == (b8 == 128))
            && (((b1 | b2 | b3 | b4 | b5 | b6 | b7 | b8 | b9) & 256 == 256) == (b9 == 256)))
    ) by (bit_vector);
}

/// The properties that start animating are always among the configured
/// ones, and a viewport resize starts no geometry animation.
pub proof fn lemma_changed_within_configured(
    configured: u16,
    c: PropertyChanges,
    reparented: bool,
    viewport_changed: bool,
)
    ensures
        changed_bits(configured, c, reparented, viewport_changed) & !configured == 0,
        viewport_changed ==> changed_bits(configured, c, reparented, viewport_changed) & 15 == 0,
        changed_bits(configured, c, reparented, viewport_changed) & !ALL_PROPERTY_BITS == 0,
{
    let b1 = bit_if(configured & 1 == 1 && c.x && (reparented || c.relative_x) && !viewport_changed, 1);
    let b2 = bit_if(configured & 2 == 2 && c.y && (reparented || c.relative_y) && !viewport_changed, 2);
    let b3 = bit_if(configured & 4 == 4 && c.width && !viewport_changed, 4);
    let b4 = bit_if(configured & 8 == 8 && c.height && !viewport_changed, 8);
    let b5 = bit_if(configured & 16 == 16 && c.background, 16);
    let b6 = bit_if(configured & 32 == 32 && c.overlay, 32);
    let b7 = bit_if(configured & 64 == 64 && c.radius, 64);
    let b8 = bit_if(configured & 128 == 128 && c.border_color, 128);
    let b9 = bit_if(configured & 256 == 256 && c.border_width, 256);
    let vc = viewport_changed;
    assert(
        (b1 == 0 || (b1 == 1 && configured & 1 == 1 && !vc))
        && (b2 == 0 || (b2 == 2 && configured & 2 == 2 && !vc))
        && (b3 == 0 || (b3 == 4 && configured & 4 == 4 && !vc))
        && (b4 == 0 || (b4 == 8 && configured & 8 == 8 && !vc))
        && (b5 == 0 || (b5 == 16 && configured & 16 == 16))
        && (b6 == 0 || (b6 == 32 && configured & 32 == 32))
        && (b7 == 0 || (b7 == 64 && configured & 64 == 64))
        && (b8 == 0 || (b8 == 128 && configured & 128 == 128))
        && (b9 == 0 || (b9 == 256 && configured & 256 == 256))
    );
    assert(
        ((b1 == 0 || (b1 == 1 && configured & 1 == 1 && !vc))
        && (b2 == 0 || (b2 == 2 && configured & 2 == 2 && !vc))
        && (b3 == 0 || (b3 == 4 && configured & 4 == 4 && !vc))
        && (b4 == 0 || (b4 == 8 && configured & 8 == 8 && !vc))
        && (b5 == 0 || (b5 == 16 && configured & 16 == 16))
        && (b6 == 0 || (b6 == 32 && configured & 32 == 32))
        && (b7 == 0 || (b7 == 64 && configured & 64 == 64))
        && (b8 == 0 || (b8 == 128 && configured & 128 == 128))
        && (b9 == 0 || (b9 == 256 && configured & 256 == 256)))
        ==> ((b1 | b2 | b3 | b4 | b5 | b6 | b7 | b8 | b9) & !configured == 0
            && (vc ==> (b1 | b2 | b3 | b4 | b5 | b6 | b7 | b8 | b9) & 15 == 0)
            && (b1 | b2 | b3 | b4 | b5 | b6 | b7 | b8 | b9) & !0x01ffu16 == 0)
    ) by (bit_vector);
}

} // verus!

verus! {

/// Flag algebra: union is commutative, associative and idempotent; a union
/// contains each operand; containment is what union leaves unchanged; and
/// the named groups are the unions of their members.
pub proof fn lemma_flag_algebra(a: u16, b: u16, c: u16)
    ensures
        a | b == b | a,
        (a | b) | c == a | (b | c),
        a | a == a,
        (a | b) & a == a,
        (a & b == b) <==> (a | b == a),
        a & b != 0 <==> b & a != 0,
        1u16 | 2u16 == 3u16,
        4u16 | 8u16 == 12u16,
        3u16 | 12u16 == 15u16,
        128u16 | 256u16 == 384u16,
        (1u16 | 2u16 | 4u16 | 8u16 | 16u16 | 32u16 | 64u16 | 128u16 | 256u16) == ALL_PROPERTY_BITS,
{
    assert(a | b == b | a) by (bit_vector);
    assert((a | b) | c == a | (b | c)) by (bit_vector);
    assert(a | a == a) by (bit_vector);
    assert((a | b) & a == a) by (bit_vector);
    assert((a & b == b) <==> (a | b == a)) by (bit_vector);
    assert(a & b != 0 <==> b & a != 0) by (bit_vector);
    assert(1u16 | 2u16 == 3u16) by (bit_vector);
    assert(4u16 | 8u16 == 12u16) by (bit_vector);
    assert(3u16 | 12u16 == 15u16) by (bit_vector);
    assert(128u16 | 256u16 == 384u16) by (bit_vector);
    assert((1u16 | 2u16 | 4u16 | 8u16 | 16u16 | 32u16 | 64u16 | 128u16 | 256u16) == 0x01ffu16) by (bit_vector);
}

/// Retargeting only grows the active properties: the union with the changed
/// ones keeps every property that was active and each changed one.
pub proof fn lemma_retarget_grows(active: u16, changed: u16)
    ensures
        (active | changed) & active == active,
        (active | changed) & changed == changed,
{
    assert((active | changed) & active == active) by (bit_vector);
    assert((active | changed) & changed == changed) by (bit_vector);
}

} // verus!

verus! {

/// Whether disappearing element `i` lies inside the snapshot of another
/// disappearing element (`inside[i][j]`: element `j`'s snapshot holds
/// element `i`); such an element exits with that ancestor, not on its own.
pub open spec fn nested_exit(hashes: Seq<u32>, inside: Seq<Seq<bool>>, i: int) -> bool {
    exists|j: int| 0 <= j < hashes.len() && hashes[j] != hashes[i] && #[trigger] inside[i][j]
}

/// An element is never nested in its own exit: whether it is nested does
/// not depend on which snapshots of elements with its own hash hold it, and
/// a lone disappearing element is never nested.
pub proof fn lemma_nested_ignores_self(
    hashes: Seq<u32>,
    inside: Seq<Seq<bool>>,
    other: Seq<Seq<bool>>,
    i: int,
)
    requires
        0 <= i < hashes.len(),
        forall|j: int| 0 <= j < hashes.len() && hashes[j] != hashes[i] ==> inside[i][j] == other[i][j],
    ensures
        nested_exit(hashes, inside, i) == nested_exit(hashes, other, i),
        hashes.len() == 1 ==> !nested_exit(hashes, inside, i),
        (forall|j: int| 0 <= j < hashes.len() && j != i ==> !inside[i][j]) ==> !nested_exit(hashes, inside, i),
{
    if nested_exit(hashes, inside, i) {
        let j = choose|j: int| 0 <= j < hashes.len() && hashes[j] != hashes[i] && #[trigger] inside[i][j];
        assert(other[i][j]);
    }
    if nested_exit(hashes, other, i) {
        let j = choose|j: int| 0 <= j < hashes.len() && hashes[j] != hashes[i] && #[trigger] other[i][j];
        assert(inside[i][j]);
    }
}

/// For each disappearing element, whether it is nested in another's exit.
pub fn nested_exits(hashes: &[u32], inside: &Vec<Vec<bool>>) -> (r: Vec<bool>)
    requires
        inside@.len() == hashes@.len(),
        forall|i: int| 0 <= i < inside@.len() ==> (#[trigger] inside@[i])@.len() == hashes@.len(),
    ensures
        r@.len() == hashes@.len(),
        forall|i: int| 0 <= i < r@.len() ==> #[trigger] r@[i] == nested_exit(
            hashes@,
            inside@.map_values(|row: Vec<bool>| row@),
            i,
        ),
{
    let ghost m = inside@.map_values(|row: Vec<bool>| row@);
    let n = hashes.len();
    let mut out: Vec<bool> = Vec::new();
    let mut i: usize = 0;
    while i < n
        invariant
            n == hashes@.len(),
            inside@.len() == n,
            forall|a: int| 0 <= a < inside@.len() ==> (#[trigger] inside@[a])@.len() == n,
            m == inside@.map_values(|row: Vec<bool>| row@),
            i <= n,
            out@.len() == i,
            forall|a: int| 0 <= a < i ==> #[trigger] out@[a] == nested_exit(hashes@, m, a),
        decreases n - i,
    {
        let mut nested = false;
        let mut j: usize = 0;
        assert(m[i as int] == inside@[i as int]@);
        while j < n
            invariant
                n == hashes@.len(),
                inside@.len() == n,
                i < n,
                inside@[i as int]@.len() == n,
                m[i as int] == inside@[i as int]@,
                j <= n,
                nested == exists|b: int| 0 <= b < j && hashes@[b] != hashes@[i as int] && #[trigger] m[i as int][b],
            decreases n - j,
        {
            if hashes[j] != hashes[i] && inside[i][j] {
                nested = true;
            }
            j = j + 1;
        }
        out.push(nested);
        i = i + 1;
    }
    out
}

} // verus!
