use frame::images::{image_name, IMAGE_COUNT};

#[test]
fn built_in_image_names() {
    assert_eq!(IMAGE_COUNT, 2);
    assert_eq!(image_name(0), "Photo 1");
    assert_eq!(image_name(1), "Photo 2");
}
