//! Recoverable layout errors and the capacity checks that report them.
use vstd::prelude::*;

verus! {

/// Recoverable errors reported with a layout result.
#[derive(Debug, Clone, PartialEq, Eq)]
pub enum LayoutError {
    /// `Frame::close` was called when no child frame was open.
    UnbalancedClose,
    /// `Frame::end` was called while child frames were still open.
    UnclosedElements,
    /// The configured element capacity was exceeded.
    ElementsCapacityExceeded,
    /// The configured render command capacity was exceeded.
    CommandsCapacityExceeded,
    /// The configured text measurement cache capacity was exceeded.
    TextMeasurementCapacityExceeded,
    /// A node with a transition did not have a stable public id.
    TransitionMissingId,
    /// More than one node used the same stable id hash.
    DuplicateElementId(u32),
    /// Text nodes cannot use element transitions.
    TextTransitionUnsupported,
    /// A public id used an internal `__rlay_` prefix.
    ReservedElementId(String),
}

} // verus!

verus! {

/// The capacity errors a finished layout reports, in order: elements, then
/// render commands, then text measurements.
pub open spec fn capacity_errors_spec(
    max_elements: Option<usize>,
    elements: usize,
    max_commands: Option<usize>,
    commands: usize,
    measure_cache_exceeded: bool,
) -> Seq<LayoutError> {
    (if max_elements matches Some(m) && elements > m {
        seq![LayoutError::ElementsCapacityExceeded]
    } else {
        Seq::empty()
    }) + (if max_commands matches Some(m) && commands > m {
        seq![LayoutError::CommandsCapacityExceeded]
    } else {
        Seq::empty()
    }) + (if measure_cache_exceeded {
        seq![LayoutError::TextMeasurementCapacityExceeded]
    } else {
        Seq::empty()
    })
}

/// Returns the capacity errors of a finished layout with `elements`
/// elements and `commands` render commands.
pub fn capacity_errors(
    max_elements: Option<usize>,
    elements: usize,
    max_commands: Option<usize>,
    commands: usize,
    measure_cache_exceeded: bool,
) -> (r: Vec<LayoutError>)
    ensures
        r@ == capacity_errors_spec(max_elements, elements, max_commands, commands, measure_cache_exceeded),
{
    let mut errors: Vec<LayoutError> = Vec::new();
    let over_elements = match max_elements {
        Some(m) => elements > m,
        None => false,
    };
    if over_elements {
        errors.push(LayoutError::ElementsCapacityExceeded);
    }
    let over_commands = match max_commands {
        Some(m) => commands > m,
        None => false,
    };
    if over_commands {
        errors.push(LayoutError::CommandsCapacityExceeded);
    }
    if measure_cache_exceeded {
        errors.push(LayoutError::TextMeasurementCapacityExceeded);
    }
    assert(errors@ =~= capacity_errors_spec(max_elements, elements, max_commands, commands, measure_cache_exceeded));
    errors
}

/// Whether a text measurement cache holding `len` entries accepts one more:
/// always without a limit, and below the limit otherwise.
pub fn cache_admits(max_entries: Option<usize>, len: usize) -> (r: bool)
    ensures
        r == !(max_entries matches Some(m) && len >= m),
{
    match max_entries {
        Some(m) => len < m,
        None => true,
    }
}

/// The characters of the prefix reserved for internal ids.
pub open spec fn internal_prefix() -> Seq<char> {
    seq!['_', '_', 'r', 'l', 'a', 'y', '_']
}

/// Whether `id` is reserved for internal use: its UTF-8 encoding begins with
/// that of `__rlay_`.
pub fn is_internal_id(id: &str) -> (r: bool)
    ensures
        r == (vstd::utf8::encode_utf8(internal_prefix()).len() <= vstd::utf8::encode_utf8(id@).len()
            && vstd::utf8::encode_utf8(id@).take(vstd::utf8::encode_utf8(internal_prefix()).len() as int)
            == vstd::utf8::encode_utf8(internal_prefix())),
{
    let prefix = "__rlay_";
    proof {
        reveal_strlit("__rlay_");
        assert(prefix@ =~= internal_prefix());
    }
    crate::text::has_prefix(id, prefix)
}

/// What the tree normalizer does with one node.
#[derive(Debug, Clone, PartialEq, Eq)]
pub struct NodeVerdict {
    /// Whether the node (and its subtree) stays in the tree.
    pub keep: bool,
    /// Errors the node reports, in order.
    pub errors: Vec<LayoutError>,
    /// Whether the node's transition is dropped.
    pub drop_transition: bool,
}

/// Checks one node before layout. A node with a reserved public id is
/// dropped with its subtree and reported. Otherwise its stable id hash is
/// recorded in `seen`, and reported when it was already there; a transition
/// without a stable id, or on a text node, is reported, and the latter is
/// dropped.
pub fn check_node(
    public_id: Option<&str>,
    stable_hash: Option<u32>,
    has_transition: bool,
    is_text: bool,
    seen: &mut std::collections::HashSet<u32>,
) -> (r: NodeVerdict)
    ensures
        (public_id matches Some(id) && is_internal_spec(id@)) ==> {
            &&& !r.keep
            &&& r.errors@.len() == 1
            &&& r.errors@[0] matches LayoutError::ReservedElementId(s) && s@ == public_id->0@
            &&& final(seen)@ == old(seen)@
        },
        !(public_id matches Some(id) && is_internal_spec(id@)) ==> {
            &&& r.keep
            &&& r.drop_transition == (has_transition && is_text)
            &&& final(seen)@ == match stable_hash {
                Some(h) => old(seen)@.insert(h),
                None => old(seen)@,
            }
            &&& r.errors@ == node_errors_spec(old(seen)@, stable_hash, has_transition, is_text)
        },
{
    broadcast use vstd::std_specs::hash::group_hash_axioms;
    let mut errors: Vec<LayoutError> = Vec::new();
    if let Some(id) = public_id {
        if is_internal_id(id) {
            errors.push(LayoutError::ReservedElementId(id.to_owned()));
            return NodeVerdict { keep: false, errors, drop_transition: false };
        }
    }
    if let Some(h) = stable_hash {
        if !seen.insert(h) {
            errors.push(LayoutError::DuplicateElementId(h));
        }
    }
    let ghost after_dup = errors@;
    if has_transition && stable_hash.is_none() {
        errors.push(LayoutError::TransitionMissingId);
    }
    let ghost after_missing = errors@;
    let drop_transition = has_transition && is_text;
    if drop_transition {
        errors.push(LayoutError::TextTransitionUnsupported);
    }
    proof {
        assert(errors@ =~= node_errors_spec(old(seen)@, stable_hash, has_transition, is_text));
    }
    NodeVerdict { keep: true, errors, drop_transition }
}

/// The errors a kept node reports, given the stable hashes seen before it.
pub open spec fn node_errors_spec(
    seen: Set<u32>,
    stable_hash: Option<u32>,
    has_transition: bool,
    is_text: bool,
) -> Seq<LayoutError> {
    (match stable_hash {
        Some(h) => if seen.contains(h) {
            seq![LayoutError::DuplicateElementId(h)]
        } else {
            Seq::empty()
        },
        None => Seq::empty(),
    }) + (if has_transition && stable_hash is None {
        seq![LayoutError::TransitionMissingId]
    } else {
        Seq::empty()
    }) + (if has_transition && is_text {
        seq![LayoutError::TextTransitionUnsupported]
    } else {
        Seq::empty()
    })
}

/// Whether characters `id` begin with the encoding of the internal prefix.
pub open spec fn is_internal_spec(id: Seq<char>) -> bool {
    vstd::utf8::encode_utf8(internal_prefix()).len() <= vstd::utf8::encode_utf8(id).len()
        && vstd::utf8::encode_utf8(id).take(vstd::utf8::encode_utf8(internal_prefix()).len() as int)
        == vstd::utf8::encode_utf8(internal_prefix())
}

} // verus!
