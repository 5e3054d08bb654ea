use simple_tile_map::pipeline_key::TilemapPipelineKey;

#[test]
fn msaa_round_trips_for_powers_of_two() {
    for samples in [1u32, 2, 4, 8, 16, 32, 64] {
        let key = TilemapPipelineKey::from_msaa_samples(samples);
        assert_eq!(key.msaa_samples(), samples);
    }
}

#[test]
fn msaa_bits_live_in_the_top_six_bits() {
    let key = TilemapPipelineKey::from_msaa_samples(4);
    assert_eq!(key.bits, 2 << 26);
    assert_eq!(TilemapPipelineKey::from_msaa_samples(1).bits, 0);
}
