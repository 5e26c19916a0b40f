use asterism::animation::{next_frame_count, Entity, Rectangle, Sequence, Size, Sprite};

fn sprite(index: usize) -> Sprite {
    Sprite { index, frame: Rectangle { x: 16 * index as u64, y: 0, w: 16, h: 16 }, trimmed: false, size: Size { w: 16, h: 16 } }
}

fn seq(name: &str, priority: u64, active: bool, cycle: bool, pause: bool, n: usize) -> Sequence {
    Sequence {
        seq_name: name.to_string(),
        frame_rate: 2,
        is_cycle: cycle,
        is_active: active,
        priority,
        current: 0,
        pause,
        sprites: (0..n).map(sprite).collect(),
    }
}

fn hero() -> Entity {
    Entity {
        name: "hero".to_string(),
        sheet_index: 0,
        default_seq: 0,
        seqs: vec![
            seq("idle", 5, false, true, false, 2),
            seq("run", 3, false, true, false, 3),
            seq("hit", 3, false, false, true, 2),
            seq("die", 1, false, false, true, 1),
        ],
    }
}

#[test]
fn progress_moves_on_frames_the_rate_divides() {
    let mut s = seq("run", 0, true, false, false, 2);
    assert!(s.progress_seq(3));
    assert_eq!(s.current, 0);
    assert!(s.progress_seq(4));
    assert_eq!(s.current, 1);
    assert_eq!(s.cur_sprite().index, 1);
    // past the last sprite: back to the first, and inactive since it does not cycle
    assert!(!s.progress_seq(6));
    assert_eq!(s.current, 0);
}

#[test]
fn cycling_sequence_stays_active() {
    let mut s = seq("idle", 0, true, true, false, 1);
    assert!(s.progress_seq(0));
    assert_eq!(s.current, 0);
    assert!(s.is_active);
}

#[test]
fn draw_seq_prefers_lowest_active_priority() {
    let mut e = hero();
    assert_eq!(e.draw_seq(), 0);
    e.set_seq_active(1, true);
    e.set_seq_active(2, true);
    // run and hit tie: the first wins
    assert_eq!(e.draw_seq(), 1);
    e.set_seqs_active("die", true);
    assert_eq!(e.draw_seq(), 3);
    e.set_seqs_active("die", false);
    e.set_seqs_active("run", false);
    assert_eq!(e.draw_seq(), 2);
}

#[test]
fn default_sequence_with_equal_priority_is_kept() {
    let mut e = hero();
    e.seqs[1].priority = 5;
    e.set_seq_active(1, true);
    assert_eq!(e.draw_seq(), 0);
}

#[test]
fn after_draw_pauses_while_a_pausing_sequence_plays() {
    let mut e = hero();
    e.set_seq_active(2, true);
    let i = e.draw_seq();
    assert_eq!(i, 2);
    // frame 1: not moved on, still active, pauses
    assert!(e.after_draw(i, false, 1));
    // frame 2: moves to its second sprite
    assert!(e.after_draw(i, true, 2));
    assert_eq!(e.seqs[2].current, 1);
    // frame 4: past its last sprite, it ends and unpauses
    assert!(!e.after_draw(i, true, 4));
    assert!(!e.seqs[2].is_active);
    // an inactive sequence leaves the pause as it was
    assert!(e.after_draw(0, true, 2));
}

#[test]
fn set_seqs_active_by_name_touches_only_that_name() {
    let mut e = hero();
    e.set_seqs_active("run", true);
    let active: Vec<bool> = e.seqs.iter().map(|s| s.is_active).collect();
    assert_eq!(active, vec![false, true, false, false]);
    e.set_seqs_active("nothing", true);
    let active: Vec<bool> = e.seqs.iter().map(|s| s.is_active).collect();
    assert_eq!(active, vec![false, true, false, false]);
}

#[test]
fn frame_count_wraps_to_zero() {
    assert_eq!(next_frame_count(0), 1);
    assert_eq!(next_frame_count(41), 42);
    assert_eq!(next_frame_count(u64::MAX), 0);
}

#[test]
fn progress_never_activates_an_inactive_sequence() {
    let mut s = seq("idle", 0, false, true, false, 2);
    assert!(!s.progress_seq(0));
    assert!(!s.progress_seq(2));
    assert!(!s.is_active);
    assert!(s.current < s.sprites.len());
}
