use ridi_router::map_data::element_tags::ElementTags;
use ridi_router::rmdf::TAG_VALUE_NONE;

#[test]
fn element_tags_intern_values_and_sets_once() {
    let mut tags = ElementTags::new();
    let primary = "primary".to_string();
    let primary_link = "primary_link".to_string();
    let name = "Main".to_string();

    let a = tags.get_or_create(Some(&name), None, Some(&primary), None, None);
    let b = tags.get_or_create(Some(&name), None, Some(&primary_link), None, None);
    assert_eq!(a.tag_set_idx, b.tag_set_idx);
    assert_eq!(tags.len(), (2, 1));
    assert_eq!(tags.tag_values, vec!["Main".to_string(), "primary".to_string()]);

    let set = tags.tag_sets[a.tag_set_idx as usize];
    assert_eq!(set.name.tag_value_idx, 0);
    assert_eq!(set.highway.tag_value_idx, 1);
    assert_eq!(set.hw_ref.tag_value_idx, TAG_VALUE_NONE);
    assert_eq!(set.surface.tag_value_idx, TAG_VALUE_NONE);
    assert_eq!(set.smoothness.tag_value_idx, TAG_VALUE_NONE);
    assert_eq!((a.tile_id.col, a.tile_id.row), (0, 0));
}

#[test]
fn element_tags_new_set_gets_next_index() {
    let mut tags = ElementTags::new();
    let secondary = "secondary".to_string();
    let asphalt = "asphalt".to_string();
    let first = tags.get_or_create(None, None, Some(&secondary), None, None);
    let second = tags.get_or_create(None, None, Some(&secondary), Some(&asphalt), None);
    let empty = tags.get_or_create(None, None, None, None, None);
    assert_eq!((first.tag_set_idx, second.tag_set_idx, empty.tag_set_idx), (0, 1, 2));
    assert_eq!(tags.len(), (2, 3));
}
