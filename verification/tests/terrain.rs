use survival_realms::terrain::TerrainDimensions;

#[test]
fn default_dimensions_support_a_large_streamed_world() {
    let dimensions = TerrainDimensions::default();

    assert_eq!(dimensions.chunks_x(), 512);
    assert_eq!(dimensions.chunks_z(), 512);
    assert_eq!(dimensions.chunks_below_sea_level(), 32);
    assert_eq!(dimensions.chunks_above_sea_level(), 32);
    assert_eq!(dimensions.total_chunks(), 16_777_216);
}

#[test]
fn custom_dimensions_count_every_layer() {
    let dimensions = TerrainDimensions::new(32, 16, 8, 4);
    assert_eq!(dimensions.total_chunks(), 32 * 16 * 12);
}
