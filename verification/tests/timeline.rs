use osu_format::TimingPoint;
use osu_mania::timeline::{Timeline, TimingEntry};

fn point(offset: u32, ms_per_beat: f32, inherited: bool) -> TimingEntry {
    let mut p = TimingPoint::default();
    p.offset = offset;
    p.milliseconds_per_beat = ms_per_beat;
    p.inherited = inherited;
    p.meter = 4;
    TimingEntry::new(p)
}

fn points() -> Vec<TimingEntry> {
    vec![point(100, 500.0, false), point(1000, -50.0, true), point(2000, 400.0, false)]
}

#[test]
fn before_the_first_point_the_blank_point_holds() {
    let mut tl = Timeline::new(points());
    let p = tl.at(50);
    assert_eq!(p.offset, 0);
    assert_eq!(p.milliseconds_per_beat, 0.0);
}

#[test]
fn at_returns_the_last_point_passed() {
    let mut tl = Timeline::new(points());
    let p = tl.at(100);
    assert_eq!(p.offset, 100);
    assert_eq!(p.milliseconds_per_beat, 500.0);
    assert!(!p.inherited);
}

#[test]
fn inherited_point_is_completed_from_its_parent() {
    let mut tl = Timeline::new(points());
    let p = tl.at(1500);
    assert_eq!(p.offset, 1000);
    assert_eq!(p.milliseconds_per_beat, 450.0);
    assert!(!p.inherited);
    assert_eq!(p.meter, 4);
}

#[test]
fn asking_twice_gives_the_same_point() {
    let mut tl = Timeline::new(points());
    let first = tl.at(1500).milliseconds_per_beat;
    let second = tl.at(1500).milliseconds_per_beat;
    assert_eq!(first, second);
}

#[test]
fn asking_in_steps_gives_what_asking_at_once_gives() {
    let mut stepwise = Timeline::new(points());
    stepwise.at(100);
    stepwise.at(1200);
    let a = stepwise.at(2500).milliseconds_per_beat;
    let mut at_once = Timeline::new(points());
    let b = at_once.at(2500).milliseconds_per_beat;
    assert_eq!(a, b);
    assert_eq!(a, 400.0);
}

#[test]
fn the_timeline_never_goes_back() {
    let mut tl = Timeline::new(points());
    tl.at(2500);
    let p = tl.at(10);
    assert_eq!(p.offset, 2000);
}

#[test]
fn empty_timeline_stays_blank() {
    let mut tl = Timeline::new(Vec::new());
    let p = tl.at(10_000);
    assert_eq!(p.offset, 0);
}

#[test]
fn nan_beat_length_is_carried_through() {
    let mut tl = Timeline::new(vec![point(0, f32::NAN, false), point(10, -50.0, true)]);
    assert!(tl.at(5).milliseconds_per_beat.is_nan());
    let p = tl.at(20);
    assert_eq!(p.offset, 10);
    assert!(p.milliseconds_per_beat.is_nan());
}

#[test]
fn entry_reads_offset_and_inherited_of_its_point() {
    let mut tl = Timeline::new(vec![point(500, 300.0, false)]);
    assert_eq!(tl.at(499).offset, 0);
    assert_eq!(tl.at(500).offset, 500);
}

#[test]
fn asking_earlier_returns_the_point_in_effect() {
    let mut tl = Timeline::new(points());
    let (offset, mspb, inherited) = {
        let p = tl.at(1500);
        (p.offset, p.milliseconds_per_beat, p.inherited)
    };
    let p = tl.at(1200);
    assert_eq!((p.offset, p.milliseconds_per_beat, p.inherited), (offset, mspb, inherited));
}

#[test]
fn empty_timeline_returns_the_default_point() {
    let mut tl = Timeline::new(Vec::new());
    let p = tl.at(1000);
    let d = TimingPoint::default();
    assert_eq!(p.offset, d.offset);
    assert_eq!(p.milliseconds_per_beat, d.milliseconds_per_beat);
    assert_eq!(p.meter, d.meter);
    assert_eq!(p.volume, d.volume);
    assert_eq!(p.inherited, d.inherited);
    assert_eq!(p.kiai_mode, d.kiai_mode);
}
