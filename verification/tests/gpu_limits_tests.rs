use hearth_engine::gpu_limits::validate_texture_dimensions;

#[test]
fn test_validate_texture_dimensions() {
    // Test case 1: Dimensions within limits
    let (width, height, clamped) = validate_texture_dimensions(1024, 768, 4096);
    assert_eq!(width, 1024);
    assert_eq!(height, 768);
    assert!(!clamped);

    // Test case 2: Width exceeds limit
    let (width, height, clamped) = validate_texture_dimensions(8192, 768, 4096);
    assert_eq!(width, 4096);
    assert_eq!(height, 768);
    assert!(clamped);

    // Test case 3: Height exceeds limit
    let (width, height, clamped) = validate_texture_dimensions(1024, 8192, 4096);
    assert_eq!(width, 1024);
    assert_eq!(height, 4096);
    assert!(clamped);

    // Test case 4: Both dimensions exceed limit
    let (width, height, clamped) = validate_texture_dimensions(8192, 8192, 4096);
    assert_eq!(width, 4096);
    assert_eq!(height, 4096);
    assert!(clamped);

    // Test case 5: Exact limit dimensions
    let (width, height, clamped) = validate_texture_dimensions(4096, 4096, 4096);
    assert_eq!(width, 4096);
    assert_eq!(height, 4096);
    assert!(!clamped);

    // Test case 6: Very small GPU limit
    let (width, height, clamped) = validate_texture_dimensions(1920, 1080, 1024);
    assert_eq!(width, 1024);
    assert_eq!(height, 1024);
    assert!(clamped);
}
