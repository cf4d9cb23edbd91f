use std::cmp::Ordering;

use justshoot::history::{pick_samples, push_bounded, SamplePick};

fn compare(times: &[f64], t: f64) -> Vec<Option<Ordering>> {
    times.iter().map(|s| s.partial_cmp(&t)).collect()
}

#[test]
fn query_before_first_sample_copies_first() {
    let times = [1.0, 2.0, 3.0];
    assert_eq!(pick_samples(&compare(&times, 0.5)), Some(SamplePick::First));
}

#[test]
fn query_at_first_sample_copies_first() {
    let times = [1.0, 2.0, 3.0];
    assert_eq!(pick_samples(&compare(&times, 1.0)), Some(SamplePick::First));
}

#[test]
fn query_after_last_sample_copies_last() {
    let times = [1.0, 2.0, 3.0];
    assert_eq!(pick_samples(&compare(&times, 7.0)), Some(SamplePick::Last));
}

#[test]
fn query_at_last_sample_copies_last() {
    let times = [1.0, 2.0, 3.0];
    assert_eq!(pick_samples(&compare(&times, 3.0)), Some(SamplePick::Last));
}

#[test]
fn single_sample_is_copied_on_either_side() {
    assert_eq!(pick_samples(&compare(&[2.0], 1.0)), Some(SamplePick::First));
    assert_eq!(pick_samples(&compare(&[2.0], 3.0)), Some(SamplePick::Last));
}

#[test]
fn halfway_query_blends_the_enclosing_pair() {
    let times = [0.0, 1.0];
    assert_eq!(pick_samples(&compare(&times, 0.5)), Some(SamplePick::Between(0)));
}

#[test]
fn query_between_later_samples() {
    let times = [0.0, 1.0, 2.0, 3.0];
    assert_eq!(pick_samples(&compare(&times, 2.25)), Some(SamplePick::Between(2)));
}

#[test]
fn query_on_an_inner_sample_takes_the_earlier_pair() {
    let times = [0.0, 1.0, 2.0];
    assert_eq!(pick_samples(&compare(&times, 1.0)), Some(SamplePick::Between(0)));
}

#[test]
fn undefined_comparisons_find_no_pair() {
    let cmp = vec![Some(Ordering::Less), None, None, Some(Ordering::Greater)];
    assert_eq!(pick_samples(&cmp), None);
}

#[test]
fn nan_query_finds_no_pair() {
    let times = [0.0, 1.0];
    assert_eq!(pick_samples(&compare(&times, f64::NAN)), None);
}

#[test]
fn window_fills_up_to_its_bound() {
    let mut states: Vec<u32> = Vec::new();
    push_bounded(&mut states, 10, 2);
    assert_eq!(states, vec![10]);
    push_bounded(&mut states, 20, 2);
    assert_eq!(states, vec![10, 20]);
}

#[test]
fn full_window_drops_its_oldest_entry() {
    let mut states: Vec<u32> = vec![10, 20];
    push_bounded(&mut states, 30, 2);
    assert_eq!(states, vec![20, 30]);
    push_bounded(&mut states, 40, 2);
    assert_eq!(states, vec![30, 40]);
}

#[test]
fn window_of_one_keeps_the_newest() {
    let mut states: Vec<u32> = vec![1];
    push_bounded(&mut states, 2, 1);
    assert_eq!(states, vec![2]);
}

#[test]
fn overfull_history_is_cut_to_the_bound() {
    let mut states: Vec<u32> = vec![1, 2, 3, 4];
    push_bounded(&mut states, 5, 2);
    assert_eq!(states, vec![4, 5]);
}
