use std::cmp::Ordering;

use takzero::fixed::{Fixed, ONE};
use takzero::search::env::Terminal;
use takzero::search::eval::Eval;

fn samples() -> Vec<Eval> {
    vec![
        Eval::Value(0),
        Eval::Value(1),
        Eval::Value(-1),
        Eval::Value(ONE / 3),
        Eval::Value(ONE),
        Eval::Value(-ONE),
        Eval::Win(0),
        Eval::Win(1),
        Eval::Win(u32::MAX),
        Eval::Loss(0),
        Eval::Loss(7),
        Eval::Loss(u32::MAX),
        Eval::Draw(0),
        Eval::Draw(3),
        Eval::Draw(u32::MAX),
    ]
}

#[test]
fn default_is_the_estimate_zero() {
    assert_eq!(Eval::default(), Eval::Value(0));
}

#[test]
fn negate_flips_the_perspective() {
    assert_eq!(Eval::Win(4).negate(), Eval::Loss(4));
    assert_eq!(Eval::Loss(4).negate(), Eval::Win(4));
    assert_eq!(Eval::Draw(4).negate(), Eval::Draw(4));
    assert_eq!(Eval::Value(ONE / 2).negate(), Eval::Value(-(ONE / 2)));
    assert_eq!(Eval::Value(-ONE).negate(), Eval::Value(ONE));
    assert_eq!(Eval::Value(0).negate(), Eval::Value(0));
    assert_eq!(Eval::Value(3 * ONE).negate(), Eval::Value(-3 * ONE));
    assert_eq!(Eval::Value(Fixed::MAX).negate(), Eval::Value(Fixed::MIN + 1));
}

#[test]
fn negate_of_the_least_estimate_is_the_greatest() {
    assert_eq!(Eval::Value(Fixed::MIN).negate(), Eval::Value(Fixed::MAX));
}

#[test]
fn negate_twice_is_the_identity() {
    for eval in samples() {
        assert_eq!(eval.negate().negate(), eval);
        assert_eq!(eval.negate().ply(), eval.ply());
        assert_eq!(eval.negate().is_known(), eval.is_known());
        assert_eq!(eval.negate().is_win(), eval.is_loss());
        assert_eq!(eval.negate().is_draw(), eval.is_draw());
        assert_eq!(Fixed::from(eval.negate()), -Fixed::from(eval));
    }
}

#[test]
fn ply_is_the_distance_of_a_proof() {
    assert_eq!(Eval::Win(3).ply(), Some(3));
    assert_eq!(Eval::Loss(0).ply(), Some(0));
    assert_eq!(Eval::Draw(u32::MAX).ply(), Some(u32::MAX));
    assert_eq!(Eval::Value(ONE).ply(), None);
}

#[test]
fn kinds_are_told_apart() {
    assert!(Eval::Win(1).is_win() && !Eval::Win(1).is_loss() && !Eval::Win(1).is_draw());
    assert!(Eval::Loss(1).is_loss() && !Eval::Loss(1).is_win() && !Eval::Loss(1).is_draw());
    assert!(Eval::Draw(1).is_draw() && !Eval::Draw(1).is_win() && !Eval::Draw(1).is_loss());
    assert!(!Eval::Value(ONE).is_win() && !Eval::Value(-ONE).is_loss());
    assert!(!Eval::Value(0).is_draw());
    assert!(Eval::Win(1).is_known() && Eval::Loss(1).is_known() && Eval::Draw(1).is_known());
    assert!(!Eval::Value(0).is_known());
}

#[test]
fn terminal_results_are_proofs_at_distance_zero() {
    assert_eq!(Eval::from(Terminal::Win), Eval::Win(0));
    assert_eq!(Eval::from(Terminal::Loss), Eval::Loss(0));
    assert_eq!(Eval::from(Terminal::Draw), Eval::Draw(0));
}

#[test]
fn results_have_a_worth() {
    assert_eq!(Fixed::from(Terminal::Win), ONE);
    assert_eq!(Fixed::from(Terminal::Loss), -ONE);
    assert_eq!(Fixed::from(Terminal::Draw), 0);
    assert_eq!(Fixed::from(Eval::Win(5)), ONE);
    assert_eq!(Fixed::from(Eval::Loss(5)), -ONE);
    assert_eq!(Fixed::from(Eval::Draw(5)), 0);
    assert_eq!(Fixed::from(Eval::Value(12345)), 12345);
    assert_eq!(Fixed::from(Eval::Value(-ONE)), -ONE);
}

#[test]
fn wins_are_best_and_the_shorter_the_better() {
    assert!(Eval::Win(1) > Eval::Win(2));
    assert!(Eval::Win(0) > Eval::Win(u32::MAX));
    assert!(Eval::Win(u32::MAX) > Eval::Value(ONE));
    assert!(Eval::Win(u32::MAX) > Eval::Draw(0));
    assert!(Eval::Win(u32::MAX) > Eval::Loss(u32::MAX));
    assert_eq!(Eval::Win(2).partial_cmp(&Eval::Win(2)), Some(Ordering::Equal));
}

#[test]
fn losses_are_worst_and_the_longer_the_better() {
    assert!(Eval::Loss(2) > Eval::Loss(1));
    assert!(Eval::Loss(u32::MAX) < Eval::Value(-ONE));
    assert!(Eval::Loss(u32::MAX) < Eval::Draw(0));
    assert!(Eval::Loss(0) < Eval::Win(0));
    assert_eq!(Eval::Loss(2).partial_cmp(&Eval::Loss(2)), Some(Ordering::Equal));
}

#[test]
fn estimates_and_draws_compare_by_worth() {
    assert!(Eval::Value(1) > Eval::Value(0));
    assert!(Eval::Value(-ONE) < Eval::Value(ONE));
    assert!(Eval::Value(1) > Eval::Draw(9));
    assert!(Eval::Value(-1) < Eval::Draw(9));
    assert!(Eval::Draw(9) < Eval::Value(1));
    assert!(Eval::Draw(9) > Eval::Value(-1));
    assert_eq!(Eval::Draw(1).partial_cmp(&Eval::Draw(1)), Some(Ordering::Equal));
    assert_eq!(Eval::Draw(1).partial_cmp(&Eval::Draw(2)), None);
    assert_eq!(Eval::Draw(1).partial_cmp(&Eval::Value(0)), None);
    assert_eq!(Eval::Value(0).partial_cmp(&Eval::Draw(1)), None);
}

#[test]
fn order_is_mirrored_and_equal_only_to_itself() {
    for a in samples() {
        for b in samples() {
            let forth = a.partial_cmp(&b);
            let back = b.partial_cmp(&a);
            assert_eq!(forth.map(Ordering::reverse), back);
            assert_eq!(forth == Some(Ordering::Equal), a == b);
        }
    }
}
