use furigana_slides::fonts::{arrange_font_families, dedup_families, sort_families};

fn owned(v: &[&str]) -> Vec<String> {
    v.iter().map(|s| s.to_string()).collect()
}

#[test]
fn families_sort_without_regard_to_case() {
    let r = arrange_font_families(owned(&["b", "Arial", "arial", "Arial", "B", "a"]));
    assert_eq!(r, owned(&["a", "Arial", "arial", "Arial", "b", "B"]));
}

#[test]
fn equal_neighbours_are_dropped_after_sorting() {
    let r = arrange_font_families(owned(&["Noto", "noto2", "Noto", "Mono"]));
    assert_eq!(r, owned(&["Mono", "Noto", "noto2"]));
}

#[test]
fn sort_keeps_order_of_equal_lowercase_forms() {
    let r = sort_families(&owned(&["Zed", "ZED", "alpha", "zed"]));
    assert_eq!(r, owned(&["alpha", "Zed", "ZED", "zed"]));
}

#[test]
fn dedup_only_touches_neighbours() {
    let r = dedup_families(owned(&["a", "a", "b", "a", "a"]));
    assert_eq!(r, owned(&["a", "b", "a"]));
    assert!(dedup_families(Vec::new()).is_empty());
}

#[test]
fn no_families_gives_none() {
    assert!(arrange_font_families(Vec::new()).is_empty());
}
