use xetex_shaping::graphite2;
use xetex_shaping::harfbuzz;

#[test]
fn linkage() {
    let face = graphite2::Face { features: Vec::new() };
    assert_eq!(face.num_feature_refs(), 0);
}

#[test]
fn lib_linkage() {
    let tag = harfbuzz::Tag::new(0);
    assert_eq!(tag.to_raw(), 0);
}
