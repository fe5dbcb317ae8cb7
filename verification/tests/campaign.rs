use lightcore::campaign::{level_index, CampaignProgress};

#[test]
fn campaign_progress_round_trips_through_save_text() {
    let mut progress = CampaignProgress::default();
    progress.record_score(1, 240);
    progress.record_score(2, 180);

    let decoded = CampaignProgress::decode(&progress.encode()).unwrap();

    assert_eq!(decoded.best_score(1), 240);
    assert_eq!(decoded.best_score(2), 180);
    assert!(decoded.is_unlocked(3));
    assert!(!decoded.is_unlocked(4));
}

#[test]
fn campaign_progress_rejects_unknown_save_version() {
    assert!(CampaignProgress::decode("other-version\n10,1").is_none());
}

#[test]
fn campaign_save_text_has_one_line_per_level() {
    let mut progress = CampaignProgress::default();
    progress.record_score(1, 240);
    let text = progress.encode();
    let lines: Vec<&str> = text.lines().collect();
    assert_eq!(lines.len(), 14);
    assert_eq!(lines[1], "240,1");
    assert_eq!(lines[2], "0,0");
}

#[test]
fn older_campaign_saves_read_back_and_broken_ones_do_not() {
    let v1 = "lightcore-progress-v1\n100,1\n50,0";
    let p = CampaignProgress::decode(v1).unwrap();
    assert_eq!(p.best_score(1), 100);
    assert_eq!(p.best_score(2), 50);
    assert!(p.is_unlocked(2));
    assert!(!p.is_unlocked(3));
    assert_eq!(p.best_score(3), 0);
    assert!(CampaignProgress::decode("lightcore-progress-v2\n100,1\nnope").is_none());
    assert!(CampaignProgress::decode("lightcore-progress-v2\n100;1").is_none());
    assert!(CampaignProgress::decode("").is_none());
    // "+5" is a number as `str::parse` reads it.
    assert_eq!(CampaignProgress::decode("lightcore-progress-v2\n+5,1").unwrap().best_score(1), 5);
}

#[test]
fn recording_scores_keeps_bests_and_unlocks_once() {
    let mut progress = CampaignProgress::default();
    assert!(progress.is_unlocked(1));
    assert!(!progress.is_unlocked(2));
    let first = progress.record_score(1, 100);
    assert!(first.new_best);
    assert_eq!(first.unlocked_next, Some(2));
    let worse = progress.record_score(1, 60);
    assert!(!worse.new_best);
    assert_eq!(worse.unlocked_next, None);
    assert_eq!(progress.best_score(1), 100);
    let last = progress.record_score(13, 10);
    assert_eq!(last.unlocked_next, None);
    let off_map = progress.record_score(99, 10);
    assert!(!off_map.new_best);
    assert_eq!(progress.best_score(99), 0);
    assert_eq!(level_index(1), Some(0));
    assert_eq!(level_index(13), Some(12));
    assert_eq!(level_index(0), None);
}
