use nuzo::layout::MAX_LAYOUT_STACK_DEPTH;

/// The layout nesting bound exists and is a sensible size.
#[test]
fn test_layout_max_depth_constant() {
    assert!(MAX_LAYOUT_STACK_DEPTH > 0);
    assert!(MAX_LAYOUT_STACK_DEPTH <= 256, "MAX_LAYOUT_STACK_DEPTH unreasonably large");
}
