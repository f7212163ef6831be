//! The history caches: add, remove, lookup and the minimum and maximum
//! queries, on the writer side and the reader side.

use rtps_core::cache::{CacheChange, HistoryCache};
use rtps_core::reader_history_cache::{
    InstanceStateKind, ReaderHistoryCache, SampleStateKind, ViewStateKind,
};
use rtps_core::stateful_writer::StatefulWriter;
use rtps_core::time::{Duration, Time};
use rtps_core::types::{
    ChangeKind, EntityId, EntityKind, Guid, GuidPrefix, Locator, ReliabilityKind, TopicKind,
};

fn guid_unknown() -> Guid {
    Guid::new(
        GuidPrefix::new([0; 12]),
        EntityId::new([0, 0, 0], EntityKind::UserDefinedUnknown),
    )
}

fn reader_cache_with(seq_nums: &[i64]) -> ReaderHistoryCache {
    let mut hc = ReaderHistoryCache::new();
    for &seq in seq_nums {
        hc.add_change(
            ChangeKind::Alive,
            guid_unknown(),
            seq,
            [0; 16],
            vec![],
            Time::new(0, 0),
        );
    }
    hc
}

#[test]
fn add_change() {
    let hc = reader_cache_with(&[1]);
    assert!(hc.get_change(1).is_some());
}

#[test]
fn remove_change() {
    let mut hc = reader_cache_with(&[1]);
    hc.remove_change(1);
    assert!(hc.get_change(1).is_none());
}

#[test]
fn get_change() {
    let hc = reader_cache_with(&[1]);
    assert!(hc.get_change(1).is_some());
    assert!(hc.get_change(2).is_none());
}

#[test]
fn get_seq_num_min() {
    let hc = reader_cache_with(&[1, 2]);
    assert_eq!(hc.get_seq_num_min(), Some(1));
}

#[test]
fn get_seq_num_max() {
    let hc = reader_cache_with(&[1, 2]);
    assert_eq!(hc.get_seq_num_max(), Some(2));
}

#[test]
fn reception_metadata_is_attached() {
    let mut hc = ReaderHistoryCache::new();
    hc.set_source_timestamp(Some(Time::new(8, 0)));
    hc.add_change(
        ChangeKind::NotAliveDisposed,
        guid_unknown(),
        1,
        [0; 16],
        vec![],
        Time::new(9, 0),
    );
    let sample = hc.get_change(1).unwrap();
    assert_eq!(sample.sample_state_kind, SampleStateKind::NotRead);
    assert_eq!(sample.view_state_kind, ViewStateKind::New);
    assert_eq!(sample.instance_state_kind, InstanceStateKind::NotAliveDisposed);
    assert_eq!(sample.source_timestamp, Some(Time::new(8, 0)));
    assert_eq!(sample.reception_timestamp, Some(Time::new(9, 0)));
}

#[test]
fn writer_cache_keeps_one_change_per_sequence_number() {
    let mut cache = HistoryCache::new();
    let change = CacheChange::new(ChangeKind::Alive, guid_unknown(), [0; 16], 1, None, None);
    cache.add_change(change.clone());
    cache.add_change(change);
    assert_eq!(cache.len(), 1);
    cache.remove_change(1);
    assert!(cache.get_change(1).is_none());
    assert_eq!(cache.get_seq_num_min(), None);
}

#[test]
fn stateful_writer_new_change() {
    let mut writer = StatefulWriter::new(
        Guid::new(
            GuidPrefix::new([0; 12]),
            EntityId::new([0, 2, 0], EntityKind::BuiltInWriterWithKey),
        ),
        TopicKind::WithKey,
        ReliabilityKind::BestEffort,
        vec![Locator::new(0, 7400, [0; 16])],
        vec![],
        false,
        Duration::new(0, 0),
        Duration::new(0, 0),
        Duration::new(0, 0),
    );

    let cache_change_seq1 = writer.new_change(
        ChangeKind::Alive,
        Some(vec![1, 2, 3]),
        None,
        [1; 16],
    );

    let cache_change_seq2 = writer.new_change(
        ChangeKind::NotAliveUnregistered,
        None,
        None,
        [1; 16],
    );

    assert_eq!(cache_change_seq1.sequence_number(), 1);
    assert_eq!(cache_change_seq1.change_kind(), &ChangeKind::Alive);
    assert_eq!(cache_change_seq1.inline_qos(), &None);
    assert_eq!(cache_change_seq1.instance_handle(), &[1; 16]);

    assert_eq!(cache_change_seq2.sequence_number(), 2);
    assert_eq!(
        cache_change_seq2.change_kind(),
        &ChangeKind::NotAliveUnregistered
    );
    assert_eq!(cache_change_seq2.inline_qos(), &None);
    assert_eq!(cache_change_seq2.instance_handle(), &[1; 16]);
}

#[test]
fn add_change_duplicate_sequence_is_left_out() {
    let mut hc = ReaderHistoryCache::new();
    hc.add_change(ChangeKind::Alive, guid_unknown(), 1, [0; 16], vec![1], Time::new(0, 0));
    hc.add_change(ChangeKind::Alive, guid_unknown(), 1, [0; 16], vec![2], Time::new(0, 0));
    let stored = hc.get_change(1).unwrap();
    assert_eq!(stored.data, vec![1]);
    assert_eq!(hc.get_seq_num_min(), Some(1));
    assert_eq!(hc.get_seq_num_max(), Some(1));
}

#[test]
fn remove_change_keeps_other_samples_as_they_are() {
    let mut hc = ReaderHistoryCache::new();
    hc.add_change(ChangeKind::Alive, guid_unknown(), 1, [0; 16], vec![9], Time::new(0, 0));
    hc.add_change(ChangeKind::Alive, guid_unknown(), 2, [0; 16], vec![8], Time::new(0, 0));
    hc.remove_change(1);
    let kept = hc.get_change(2).unwrap();
    assert_eq!(kept.data, vec![8]);
    assert_eq!(kept.sequence_number, 2);
    assert!(hc.get_change(1).is_none());
}
