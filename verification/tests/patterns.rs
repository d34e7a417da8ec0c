use euclid_beats::euclid::{euclid, Pattern};

#[test]
fn test_euclid() {
    assert_eq!(euclid(2, 3), Pattern::from("X.X"));
    assert_eq!(euclid(3, 4), Pattern::from("X.XX"));
    assert_eq!(euclid(3, 5), Pattern::from("X.X.X"));
    assert_eq!(euclid(3, 8), Pattern::from("X..X..X."));
    assert_eq!(euclid(5, 12), Pattern::from("X..X.X..X.X."));
    assert_eq!(euclid(13, 24), Pattern::from("X.XX.X.X.X.X.XX.X.X.X.X."));
}

#[test]
fn test_rotate() {
    assert_eq!(euclid(3, 4).rotate(1), Pattern::from(".XXX"));
    assert_eq!(euclid(3, 5).rotate(2), Pattern::from("X.XX."));
    assert_eq!(euclid(3, 5).rotate(-2), Pattern::from(".XX.X"));
}

#[test]
fn test_fill() {
    assert_eq!(euclid(3, 8).fill(5), Pattern::from("X..X."));
    assert_eq!(euclid(3, 8).fill(10), Pattern::from("X..X..X.X."));
    assert_eq!(euclid(3, 8).fill(15), Pattern::from("X..X..X.X..X..X"));
    assert_eq!(euclid(3, 8).fill(16), Pattern::from("X..X..X.X..X..X."));
    assert_eq!(euclid(3, 8).fill(20), Pattern::from("X..X..X.X..X..X.X..X"));
}

fn steps(p: &Pattern) -> Vec<u8> {
    p.data.iter().copied().collect()
}

fn count_hits(p: &Pattern) -> usize {
    p.data.iter().filter(|&&b| b == 1).count()
}

#[test]
fn one_and_zero_are_single_steps() {
    assert_eq!(steps(&Pattern::one()), vec![1u8]);
    assert_eq!(steps(&Pattern::zero()), vec![0u8]);
    assert_eq!(Pattern::one().len(), 1);
    assert_ne!(Pattern::one(), Pattern::zero());
}

#[test]
fn markers_map_to_steps() {
    let p = Pattern::from("X.xX ");
    assert_eq!(steps(&p), vec![1u8, 0, 0, 1, 0]);
    assert_eq!(p.len(), 5);
    assert_eq!(Pattern::from("XéX").len(), 3);
}

#[test]
fn bytes_are_kept_in_order() {
    let p = Pattern::from(vec![1u8, 0, 0, 1]);
    assert_eq!(p, Pattern::from("X..X"));
    assert_eq!(steps(&p), vec![1u8, 0, 0, 1]);
}

#[test]
fn equality_is_structural() {
    assert_eq!(Pattern::from("X.X"), Pattern::from(vec![1u8, 0, 1]));
    assert_ne!(Pattern::from("X.X"), Pattern::from("X.X."));
    assert_ne!(Pattern::from("X.X"), Pattern::from("X.."));
    let p = Pattern::from("XX.");
    assert_eq!(p.clone(), p);
}

#[test]
fn euclid_has_length_and_hits() {
    for steps_n in 1..=24usize {
        for pulses in 0..=steps_n {
            let p = euclid(pulses, steps_n);
            assert_eq!(p.len(), steps_n);
            assert_eq!(count_hits(&p), pulses);
        }
    }
}

#[test]
fn euclid_clamps_pulses() {
    assert_eq!(euclid(9, 4), euclid(4, 4));
    assert_eq!(euclid(9, 4), Pattern::from("XXXX"));
    assert_eq!(euclid(5, 5), Pattern::from("XXXXX"));
}

#[test]
fn euclid_edge_cases() {
    assert_eq!(euclid(0, 4), Pattern::from("...."));
    assert_eq!(euclid(1, 4), Pattern::from("X..."));
    assert_eq!(euclid(1, 1), Pattern::from("X"));
    assert_eq!(euclid(0, 1), Pattern::from("."));
    assert_eq!(euclid(5, 8), Pattern::from("X.XX.XX."));
}

#[test]
fn rotate_round_trip() {
    let p = euclid(5, 12);
    for r in [-30i32, -13, -12, -1, 0, 1, 5, 12, 25, 1000] {
        assert_eq!(p.rotate(r).rotate(-r), p);
    }
}

#[test]
fn rotate_by_length_is_identity() {
    let p = euclid(3, 8);
    assert_eq!(p.rotate(8), p);
    assert_eq!(p.rotate(-8), p);
    assert_eq!(p.rotate(0), p);
    assert_eq!(p.rotate(16), p);
}

#[test]
fn rotate_steps_add_up() {
    let p = Pattern::from("X..X.");
    assert_eq!(p.rotate(1).rotate(1).rotate(1), p.rotate(3));
    assert_eq!(p.rotate(1), Pattern::from("..X.X"));
    assert_eq!(p.rotate(-1), Pattern::from(".X..X"));
    assert_eq!(p.rotate(7), p.rotate(2));
}

#[test]
fn rotate_of_nothing_is_nothing() {
    let empty = Pattern::from("");
    assert_eq!(empty.rotate(3).len(), 0);
    assert_eq!(empty.rotate(-3).len(), 0);
}

#[test]
fn fill_to_own_length_is_identity() {
    let p = euclid(3, 8);
    assert_eq!(p.fill(p.len()), p);
    assert_eq!(p.fill(0).len(), 0);
    assert_eq!(Pattern::from("").fill(0).len(), 0);
}

#[test]
fn fill_zeroes_truncates_and_pads() {
    let p = Pattern::from("X.XX");
    assert_eq!(p.fill_zeroes(2), Pattern::from("X."));
    assert_eq!(p.fill_zeroes(4), p);
    assert_eq!(p.fill_zeroes(7), Pattern::from("X.XX..."));
    assert_eq!(p.fill_zeroes(0).len(), 0);
}

#[test]
fn concatenation_appends() {
    let p = Pattern::from("X.") + Pattern::from("XX.");
    assert_eq!(p, Pattern::from("X.XX."));
    assert_eq!(p.len(), 5);
}

#[test]
fn repetition_concatenates_copies() {
    assert_eq!(Pattern::from("X..") * 3, Pattern::from("X..X..X.."));
    assert_eq!(Pattern::from("X..") * 1, Pattern::from("X.."));
    assert_eq!((Pattern::from("X..") * 0).len(), 0);
}

#[test]
fn reader_walks_once_through_the_steps() {
    let mut it = Pattern::from("X.X").into_iter();
    assert_eq!(it.next(), Some(1));
    assert_eq!(it.next(), Some(0));
    let mut copy = it.clone();
    assert_eq!(it.next(), Some(1));
    assert_eq!(it.next(), None);
    assert_eq!(it.next(), None);
    assert_eq!(copy.next(), Some(1));
    assert_eq!(copy.next(), None);
}
