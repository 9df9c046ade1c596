use wasm_portfolio::audio::Audio;
use wasm_portfolio::rng::next_rand;

#[test]
fn xorshift_from_one() {
    let mut s: u32 = 1;
    assert_eq!(next_rand(&mut s), 270369);
    assert_eq!(s, 270369);
    let second = next_rand(&mut s);
    assert_eq!(second, s);
    assert_ne!(second, 270369);
}

#[test]
fn xorshift_never_reaches_zero_from_a_seed() {
    let mut s: u32 = 0xdead_beef | 1;
    for _ in 0..10_000 {
        assert_ne!(next_rand(&mut s), 0);
    }
}

#[test]
fn audio_needs_unlock_and_no_mute() {
    let mut a = Audio::new();
    assert!(!a.can_play());
    assert!(!a.is_muted());
    a.unlock();
    assert!(a.can_play());
    a.toggle_mute();
    assert!(a.is_muted());
    assert!(!a.can_play());
    a.toggle_mute();
    assert!(a.can_play());
}
