use tabby_zj::pet::animation::{frames_for_mood, Animation, Mood};

#[test]
fn test_animation_advances_frame() {
    let content = frames_for_mood(&Mood::Content);
    let mut anim = Animation::new(content, 2);
    assert_eq!(anim.current_frame(), content[0]);
    anim.tick();
    assert_eq!(anim.current_frame(), content[0]);
    anim.tick();
    assert_eq!(anim.current_frame(), content[1]);
}

#[test]
fn test_animation_wraps_around() {
    let content = frames_for_mood(&Mood::Content);
    let mut anim = Animation::new(content, 1);
    anim.tick();
    anim.tick();
    assert_eq!(anim.current_frame(), content[0]);
}

#[test]
fn test_set_mood_resets_frame() {
    let mut anim = Animation::new(frames_for_mood(&Mood::Content), 1);
    anim.tick();
    assert_eq!(anim.frame_index, 1);
    anim.set_mood(&Mood::Happy);
    assert_eq!(anim.frame_index, 0);
    assert_eq!(anim.current_frame(), frames_for_mood(&Mood::Happy)[0]);
}

#[test]
fn test_set_same_mood_no_reset() {
    let mut anim = Animation::new(frames_for_mood(&Mood::Content), 1);
    anim.tick();
    assert_eq!(anim.frame_index, 1);
    anim.set_mood(&Mood::Content);
    assert_eq!(anim.frame_index, 1);
}

#[test]
fn test_all_moods_have_frames() {
    let moods = [
        Mood::Ecstatic,
        Mood::Happy,
        Mood::Content,
        Mood::Bored,
        Mood::Hungry,
        Mood::Sad,
        Mood::Sleeping,
    ];
    for mood in &moods {
        let frames = frames_for_mood(mood);
        assert!(frames.len() >= 2, "{:?} should have ≥2 frames", mood);
    }
}

#[test]
fn test_frames_for_each_mood_unique() {
    assert_eq!(frames_for_mood(&Mood::Happy)[0], "(=^◕ᴥ◕^=)");
    assert_eq!(frames_for_mood(&Mood::Sleeping)[0], "(=^-ω-^=) zzZ");
    assert_eq!(frames_for_mood(&Mood::Hungry)[0], "(=^;ω;^=)");
}

#[test]
fn tick_counter_restarts_at_frame_change() {
    let mut anim = Animation::new(frames_for_mood(&Mood::Sad), 3);
    anim.tick();
    anim.tick();
    assert_eq!(anim.tick_counter, 2);
    anim.tick();
    assert_eq!(anim.tick_counter, 0);
    assert_eq!(anim.frame_index, 1);
}

#[test]
fn ticks_from_start_follow_frame_length() {
    let frames = frames_for_mood(&Mood::Content);
    let mut a = Animation::new(frames, 3);
    for _ in 0..7 {
        a.tick();
    }
    assert_eq!(a.frame_index, (7 / 3) % 2);
    assert_eq!(a.tick_counter, 7 % 3);
    let mut z = Animation::new(frames, 0);
    for _ in 0..3 {
        z.tick();
    }
    assert_eq!(z.frame_index, 3 % 2);
    assert_eq!(z.tick_counter, 0);
}
