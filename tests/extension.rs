use greedytile::extension::{calculate_extension, Extendable, ExtensionInfo};

#[test]
fn test_extendable_trait_implementations() {
    assert_eq!(u32::padding_value(), 1);
    assert_eq!(u8::padding_value(), 0);
}

#[test]
fn test_calculate_extension_no_extension_needed() {
    let current_dims = [10, 10];
    let offset = [5, 5];
    let coordinates = [2, 2];
    let radius = 2;

    let info = calculate_extension(current_dims, offset, &coordinates, radius);

    assert!(!info.needs_extension);
    assert_eq!(info.pad_left, 0);
    assert_eq!(info.pad_right, 0);
    assert_eq!(info.pad_top, 0);
    assert_eq!(info.pad_bottom, 0);
    assert_eq!(info.new_offset, offset);
}

#[test]
fn test_calculate_extension_needs_expansion() {
    let current_dims = [5, 5];
    let offset = [2, 2];
    let coordinates = [8, 8];
    let radius = 2;

    let info = calculate_extension(current_dims, offset, &coordinates, radius);

    assert!(info.needs_extension);
    assert_eq!(info.pad_left, 0);
    assert_eq!(info.pad_right, 8);
    assert_eq!(info.pad_top, 0);
    assert_eq!(info.pad_bottom, 8);
    assert_eq!(info.new_offset, [2, 2]);
}

#[test]
fn test_calculate_extension_negative_padding() {
    let current_dims = [5, 5];
    let offset = [2, 2];
    let coordinates = [-3, -3];
    let radius = 2;

    let info = calculate_extension(current_dims, offset, &coordinates, radius);

    assert!(info.needs_extension);
    assert_eq!(info.pad_left, 3);
    assert_eq!(info.pad_right, 0);
    assert_eq!(info.pad_top, 3);
    assert_eq!(info.pad_bottom, 0);
    assert_eq!(info.new_offset, [5, 5]);
}

#[test]
fn test_extension_info_copy_clone() {
    let info = ExtensionInfo {
        pad_left: 1,
        pad_right: 2,
        pad_top: 3,
        pad_bottom: 4,
        new_offset: [5, 6],
        needs_extension: true,
    };

    let cloned = info;
    let copied = info;

    assert_eq!(cloned.pad_left, 1);
    assert_eq!(copied.pad_left, 1);
}
