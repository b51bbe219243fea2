use osu_mania::difficulty::HitAccuracy;

#[test]
fn score_of_each_judgement() {
    assert_eq!(HitAccuracy::ThreeHundred.score(), 300);
    assert_eq!(HitAccuracy::TwoHundred.score(), 200);
    assert_eq!(HitAccuracy::OneHundred.score(), 100);
    assert_eq!(HitAccuracy::Fifty.score(), 50);
    assert_eq!(HitAccuracy::Miss.score(), 0);
}

#[test]
fn bonus_value_of_each_judgement() {
    assert_eq!(HitAccuracy::ThreeHundred.bonus_value(), 32);
    assert_eq!(HitAccuracy::TwoHundred.bonus_value(), 16);
    assert_eq!(HitAccuracy::OneHundred.bonus_value(), 8);
    assert_eq!(HitAccuracy::Fifty.bonus_value(), 4);
    assert_eq!(HitAccuracy::Miss.bonus_value(), 0);
}

#[test]
fn hold_note_takes_the_worse_judgement() {
    assert_eq!(
        HitAccuracy::ThreeHundred.hold_note(Some(HitAccuracy::OneHundred)),
        HitAccuracy::OneHundred
    );
    assert_eq!(
        HitAccuracy::Fifty.hold_note(Some(HitAccuracy::TwoHundred)),
        HitAccuracy::Fifty
    );
    assert_eq!(
        HitAccuracy::TwoHundred.hold_note(Some(HitAccuracy::Miss)),
        HitAccuracy::Miss
    );
}

#[test]
fn hold_note_is_symmetric() {
    let all = [
        HitAccuracy::Miss,
        HitAccuracy::Fifty,
        HitAccuracy::OneHundred,
        HitAccuracy::TwoHundred,
        HitAccuracy::ThreeHundred,
    ];
    for a in all.iter() {
        for b in all.iter() {
            assert_eq!(a.hold_note(Some(*b)), b.hold_note(Some(*a)));
            assert!(a.hold_note(Some(*b)) <= *a);
            assert!(a.hold_note(Some(*b)) <= *b);
        }
        assert_eq!(a.hold_note(Some(*a)), *a);
    }
}

#[test]
fn hold_note_without_release() {
    assert_eq!(HitAccuracy::ThreeHundred.hold_note(None), HitAccuracy::TwoHundred);
    assert_eq!(HitAccuracy::TwoHundred.hold_note(None), HitAccuracy::Miss);
    assert_eq!(HitAccuracy::Fifty.hold_note(None), HitAccuracy::Miss);
    assert_eq!(HitAccuracy::Miss.hold_note(None), HitAccuracy::Miss);
}

#[test]
fn judgements_are_ordered_from_miss_to_three_hundred() {
    assert!(HitAccuracy::Miss < HitAccuracy::Fifty);
    assert!(HitAccuracy::Fifty < HitAccuracy::OneHundred);
    assert!(HitAccuracy::OneHundred < HitAccuracy::TwoHundred);
    assert!(HitAccuracy::TwoHundred < HitAccuracy::ThreeHundred);
}
