use osu_mania::difficulty::HitAccuracy;
use osu_mania::hitline::{HitLine, Note, NoteKind};

fn circle(column: u32, time: u32) -> Note {
    Note { column, time, kind: NoteKind::Circle }
}

fn long(column: u32, time: u32, end_time: u32) -> Note {
    Note { column, time, kind: NoteKind::LongNote { end_time } }
}

#[test]
fn new_splits_notes_into_columns_in_order() {
    let notes = vec![circle(0, 100), circle(1, 150), circle(0, 200), circle(5, 250)];
    let line = HitLine::new(2, &notes);
    assert_eq!(line.keys_count(), 2);
    assert_eq!(line.current(0), Some(circle(0, 100)));
    assert_eq!(line.current(1), Some(circle(1, 150)));
}

#[test]
fn press_on_a_circle_judges_and_passes_it() {
    let notes = vec![circle(0, 100), circle(0, 200)];
    let mut line = HitLine::new(1, &notes);
    assert_eq!(line.press(0, HitAccuracy::ThreeHundred), Some(HitAccuracy::ThreeHundred));
    assert_eq!(line.current(0), Some(circle(0, 200)));
}

#[test]
fn press_out_of_window_does_nothing() {
    let notes = vec![circle(0, 100)];
    let mut line = HitLine::new(1, &notes);
    assert_eq!(line.press(0, HitAccuracy::Miss), None);
    assert_eq!(line.current(0), Some(circle(0, 100)));
}

#[test]
fn press_on_an_empty_column_does_nothing() {
    let notes = vec![circle(0, 100)];
    let mut line = HitLine::new(2, &notes);
    assert_eq!(line.press(1, HitAccuracy::ThreeHundred), None);
    assert_eq!(line.release(1, HitAccuracy::ThreeHundred), None);
    assert_eq!(line.current(1), None);
}

#[test]
fn long_note_is_judged_on_release() {
    let notes = vec![long(0, 100, 600)];
    let mut line = HitLine::new(1, &notes);
    assert_eq!(line.press(0, HitAccuracy::ThreeHundred), None);
    assert_eq!(line.held(0), Some(HitAccuracy::ThreeHundred));
    assert_eq!(line.release(0, HitAccuracy::OneHundred), Some(HitAccuracy::OneHundred));
    assert_eq!(line.current(0), None);
    assert_eq!(line.held(0), None);
}

#[test]
fn long_note_result_is_never_better_than_its_press() {
    let notes = vec![long(0, 100, 600)];
    let mut line = HitLine::new(1, &notes);
    line.press(0, HitAccuracy::Fifty);
    assert_eq!(line.release(0, HitAccuracy::ThreeHundred), Some(HitAccuracy::Fifty));
}

#[test]
fn second_press_on_a_held_long_note_is_ignored() {
    let notes = vec![long(0, 100, 600)];
    let mut line = HitLine::new(1, &notes);
    line.press(0, HitAccuracy::TwoHundred);
    assert_eq!(line.press(0, HitAccuracy::ThreeHundred), None);
    assert_eq!(line.held(0), Some(HitAccuracy::TwoHundred));
}

#[test]
fn early_release_keeps_a_miss() {
    let notes = vec![long(0, 100, 600)];
    let mut line = HitLine::new(1, &notes);
    line.press(0, HitAccuracy::ThreeHundred);
    assert_eq!(line.release(0, HitAccuracy::Miss), None);
    assert_eq!(line.held(0), Some(HitAccuracy::Miss));
    assert_eq!(line.current(0), Some(long(0, 100, 600)));
    assert_eq!(line.release(0, HitAccuracy::ThreeHundred), Some(HitAccuracy::Miss));
}

#[test]
fn release_without_press_does_nothing() {
    let notes = vec![long(0, 100, 600), circle(1, 100)];
    let mut line = HitLine::new(2, &notes);
    assert_eq!(line.release(0, HitAccuracy::ThreeHundred), None);
    assert_eq!(line.release(1, HitAccuracy::ThreeHundred), None);
    assert_eq!(line.current(1), Some(circle(1, 100)));
}

#[test]
fn late_notes_are_missed_column_by_column() {
    let notes = vec![circle(0, 100), circle(1, 100), long(2, 100, 500), circle(0, 900)];
    let mut line = HitLine::new(3, &notes);
    line.press(2, HitAccuracy::ThreeHundred);
    let missed = line.at(&vec![true, false, true]);
    assert_eq!(missed, vec![HitAccuracy::Miss, HitAccuracy::Miss]);
    assert_eq!(line.current(0), Some(circle(0, 900)));
    assert_eq!(line.current(1), Some(circle(1, 100)));
    assert_eq!(line.current(2), None);
    assert_eq!(line.held(2), None);
}

#[test]
fn late_flag_on_an_empty_column_reports_nothing() {
    let notes = vec![circle(0, 100)];
    let mut line = HitLine::new(2, &notes);
    assert_eq!(line.at(&vec![false, true]), Vec::new());
    assert_eq!(line.current(0), Some(circle(0, 100)));
}

#[test]
fn other_objects_are_never_hit_but_pass_when_late() {
    let notes = vec![Note { column: 0, time: 100, kind: NoteKind::Other }];
    let mut line = HitLine::new(1, &notes);
    assert_eq!(line.press(0, HitAccuracy::ThreeHundred), None);
    assert_eq!(line.at(&vec![true]), vec![HitAccuracy::Miss]);
    assert_eq!(line.current(0), None);
}

#[test]
fn each_note_yields_one_judgement() {
    let notes = vec![circle(0, 100), long(0, 200, 400), circle(1, 150), circle(1, 300)];
    let mut line = HitLine::new(2, &notes);
    let mut results = Vec::new();
    results.extend(line.press(0, HitAccuracy::TwoHundred));
    results.extend(line.press(1, HitAccuracy::Miss));
    results.extend(line.at(&vec![false, true]));
    results.extend(line.press(0, HitAccuracy::OneHundred));
    results.extend(line.release(0, HitAccuracy::ThreeHundred));
    results.extend(line.press(1, HitAccuracy::Fifty));
    assert_eq!(results.len(), 4);
    assert_eq!(line.current(0), None);
    assert_eq!(line.current(1), None);
}

#[test]
fn end_time_of_notes() {
    assert_eq!(long(0, 100, 600).end_time(), 600);
    assert_eq!(circle(0, 100).end_time(), 100);
}

#[test]
fn ticking_every_column_late_drains_the_line() {
    let notes = vec![circle(0, 100), circle(0, 200), long(1, 100, 300), circle(0, 300), circle(7, 10)];
    let mut line = HitLine::new(2, &notes);
    let mut results = Vec::new();
    for _ in 0..3 {
        let missed = line.at(&vec![true, true]);
        assert!(missed.len() <= 2);
        results.extend(missed);
    }
    assert_eq!(results.len(), 4);
    assert_eq!(line.current(0), None);
    assert_eq!(line.current(1), None);
    assert_eq!(line.at(&vec![true, true]), Vec::new());
}
