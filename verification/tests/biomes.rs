use survival_realms::biomes::BiomeZone;

#[test]
fn special_zone_keeps_its_exact_design_name() {
    assert_eq!(
        BiomeZone::VeryDreamcoreOneTree.name(),
        "Very Dreamcore One Tree"
    );
}

#[test]
fn ordinary_zones_are_named_plainly() {
    assert_eq!(BiomeZone::Plains.name(), "Plains");
    assert_eq!(BiomeZone::Forest.name(), "Forest");
}
