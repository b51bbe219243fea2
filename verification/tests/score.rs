use osu_mania::difficulty::HitAccuracy;
use osu_mania::score::Score;

#[test]
fn new_score_is_empty() {
    let s = Score::new();
    assert_eq!(s.hit_count(), 0);
    assert_eq!(s.hit_points(), 0);
    assert_eq!(s.bonus_value(), 0);
    assert_eq!(s.combo(), 0);
    assert_eq!(s.accuracy_ratio(), None);
}

#[test]
fn push_tallies_points_and_bonus() {
    let mut s = Score::new();
    s.push(HitAccuracy::ThreeHundred);
    s.push(HitAccuracy::OneHundred);
    s.push(HitAccuracy::Fifty);
    assert_eq!(s.hit_count(), 3);
    assert_eq!(s.hit_points(), 450);
    assert_eq!(s.bonus_value(), 44);
    assert_eq!(s.accuracy_ratio(), Some((450, 900)));
}

#[test]
fn combo_is_the_longest_run_without_miss() {
    let mut s = Score::new();
    s.push(HitAccuracy::ThreeHundred);
    s.push(HitAccuracy::TwoHundred);
    s.push(HitAccuracy::Fifty);
    s.push(HitAccuracy::Miss);
    s.push(HitAccuracy::ThreeHundred);
    assert_eq!(s.combo(), 3);
    s.push(HitAccuracy::ThreeHundred);
    s.push(HitAccuracy::ThreeHundred);
    assert_eq!(s.combo(), 3);
    s.push(HitAccuracy::OneHundred);
    assert_eq!(s.combo(), 4);
}

#[test]
fn best_combo_never_decreases_on_a_miss() {
    let mut s = Score::new();
    s.push(HitAccuracy::ThreeHundred);
    s.push(HitAccuracy::ThreeHundred);
    assert_eq!(s.combo(), 2);
    s.push(HitAccuracy::Miss);
    assert_eq!(s.combo(), 2);
    assert_eq!(s.hit_count(), 3);
}

#[test]
fn full_combo_equals_hit_count() {
    let mut s = Score::new();
    for _ in 0..10 {
        s.push(HitAccuracy::Fifty);
    }
    assert_eq!(s.combo(), 10);
    assert_eq!(s.hit_count(), 10);
}

#[test]
fn only_misses_give_no_points_and_no_combo() {
    let mut s = Score::new();
    s.push(HitAccuracy::Miss);
    s.push(HitAccuracy::Miss);
    assert_eq!(s.combo(), 0);
    assert_eq!(s.hit_points(), 0);
    assert_eq!(s.accuracy_ratio(), Some((0, 600)));
}

#[test]
fn perfect_play_has_perfect_accuracy() {
    let mut s = Score::new();
    for _ in 0..4 {
        s.push(HitAccuracy::ThreeHundred);
    }
    let (points, max) = s.accuracy_ratio().unwrap();
    assert_eq!(points, max);
    assert_eq!(s.bonus_value(), 128);
}
