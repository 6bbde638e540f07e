use burst_miner::config::MinerConfiguration;

fn config(max_deadline: Option<u32>) -> MinerConfiguration {
    MinerConfiguration {
        pool_url: Some("http://pool.example".to_string()),
        plot_folders: Some(vec![]),
        max_deadline,
        plot_buffer_size: None,
    }
}

#[test]
fn max_deadline_caps_the_pool_target() {
    // No local cap: the pool's target deadline stands.
    assert_eq!(config(None).effective_target_deadline(86400), 86400);
    // A lower local cap wins.
    assert_eq!(config(Some(3600)).effective_target_deadline(86400), 3600);
    // A higher local cap changes nothing.
    assert_eq!(config(Some(100_000)).effective_target_deadline(86400), 86400);
    assert_eq!(config(Some(86400)).effective_target_deadline(86400), 86400);
}
